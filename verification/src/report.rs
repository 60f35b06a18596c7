//! The report: one analysis from the analyses of the segments, printed as markdown.

use crate::confidence::percent_text;
use crate::confidence::push_percent;
use crate::entities::combine_entities;
use crate::entities::combined_entities;
use crate::entities::group_views;
use crate::entities::groups_text;
use crate::entities::render_entities;
use crate::entities::Entity;
use crate::entities::EntityData;
use crate::entities::EntityGroup;
use crate::sections::appendix_text;
use crate::sections::extract_text;
use crate::sections::first_incomplete;
use crate::sections::render_sections;
use crate::sections::reply_text;
use crate::sections::section_texts;
use crate::sections::section_views;
use crate::sections::sections_of;
use crate::sections::AnalysisError;
use crate::sections::BedrockWrapper;
use crate::sections::ChunkAnalysis;
use crate::sections::SectionText;
use crate::sentiment::combine_sentiment_data;
use crate::sentiment::combined_sentiment;
use crate::sentiment::lookup_score;
use crate::sentiment::score_of;
use crate::sentiment::Reading;
use crate::sentiment::SentimentData;
use crate::text::lowercase;
use crate::text::lowercase_of;
use crate::text::str_eq;
use vstd::prelude::*;

verus! {

/// What the workflow has gathered for one recording.
#[derive(Debug, PartialEq, Eq)]
pub struct AnalysisResult {
    pub overview: BedrockWrapper,
    pub main_topics: BedrockWrapper,
    /// The replies for each segment, in segment order.
    pub chunk_summaries: Vec<ChunkAnalysis>,
    /// The sentiment records of each segment.
    pub sentiment: Vec<Vec<SentimentData>>,
    /// The entity passes of each segment.
    pub entities: Vec<Vec<EntityData>>,
    /// The object key of the recording.
    pub key: String,
}

/// The combined analysis of one recording.
#[derive(Debug, PartialEq, Eq)]
pub struct AggregateAnalysis {
    pub overview: String,
    pub main_topics: String,
    /// Summary and topics of each segment, in segment order.
    pub sections: Vec<SectionText>,
    /// The overall sentiment.
    pub sentiment: SentimentData,
    /// The entities, one for each text and type, grouped by type.
    pub entities: Vec<EntityGroup>,
}

/// What a combined analysis holds.
pub struct Digest {
    pub overview: Seq<char>,
    pub main_topics: Seq<char>,
    pub sections: Seq<(Seq<char>, Seq<char>)>,
    pub sentiment: Reading,
    pub entities: Seq<(Seq<char>, Seq<Entity>)>,
}

impl View for AggregateAnalysis {
    type V = Digest;

    open spec fn view(&self) -> Digest {
        Digest {
            overview: self.overview@,
            main_topics: self.main_topics@,
            sections: section_texts(self.sections@),
            sentiment: self.sentiment@,
            entities: group_views(self.entities@),
        }
    }
}

/// The combined analysis of what the workflow has gathered, where every segment is complete.
pub open spec fn aggregated(input: AnalysisResult) -> Digest {
    Digest {
        overview: reply_text(input.overview),
        main_topics: reply_text(input.main_topics),
        sections: section_views(input.chunk_summaries@),
        sentiment: combined_sentiment(input.sentiment@),
        entities: combined_entities(input.entities@),
    }
}

/// Combines the analyses of the segments into one. Fails on the first segment that lacks
/// its summary or its topics, and then combines nothing.
pub fn aggregate(input: &AnalysisResult) -> (r: Result<AggregateAnalysis, AnalysisError>)
    ensures
        match r {
            Ok(analysis) => first_incomplete(input.chunk_summaries@)
                == input.chunk_summaries@.len() && analysis@ == aggregated(*input),
            Err(e) => first_incomplete(input.chunk_summaries@) < input.chunk_summaries@.len()
                && e == (AnalysisError::MissingReply {
                section: (first_incomplete(input.chunk_summaries@) + 1) as usize,
            }),
        },
{
    let sections = match sections_of(input.chunk_summaries.as_slice()) {
        Ok(sections) => sections,
        Err(e) => { return Err(e); },
    };
    Ok(
        AggregateAnalysis {
            overview: extract_text(&input.overview),
            main_topics: extract_text(&input.main_topics),
            sections,
            sentiment: combine_sentiment_data(input.sentiment.as_slice()),
            entities: combine_entities(input.entities.as_slice()),
        },
    )
}

/// The emoji that stands for a sentiment label; nothing for an unknown label.
pub open spec fn emoji_of(label: Seq<char>) -> Seq<char> {
    if label == "POSITIVE"@ {
        "\u{1F60A}"@
    } else if label == "NEGATIVE"@ {
        "\u{1F614}"@
    } else if label == "NEUTRAL"@ {
        "\u{1F610}"@
    } else if label == "MIXED"@ {
        "\u{1F914}"@
    } else {
        ""@
    }
}

/// The emoji that stands for a sentiment label; the empty string for an unknown label.
pub fn get_sentiment_emoji(sentiment: &str) -> (r: &'static str)
    ensures
        r@ == emoji_of(sentiment@),
{
    if str_eq(sentiment, "POSITIVE") {
        "\u{1F60A}"
    } else if str_eq(sentiment, "NEGATIVE") {
        "\u{1F614}"
    } else if str_eq(sentiment, "NEUTRAL") {
        "\u{1F610}"
    } else if str_eq(sentiment, "MIXED") {
        "\u{1F914}"
    } else {
        ""
    }
}

/// The header of the report: title and time of generation.
pub open spec fn header_text(key: Seq<char>, stamp: Seq<char>) -> Seq<char> {
    "# Analysis Results for "@ + key + "\nGenerated on "@ + stamp + " UTC\n\n"@
}

/// The sentiment part of the report: the emoji and the lower-case form of the overall label,
/// then the confidence for each of the four labels, zero where the scores lack one.
pub open spec fn sentiment_text(sentiment: Reading) -> Seq<char> {
    "## Sentiment Analysis "@ + emoji_of(sentiment.label) + "\nOverall sentiment: **"@
        + lowercase_of(sentiment.label) + "**\n\nConfidence Scores:\n- Positive: "@ + percent_text(
        score_of(sentiment.scores, "Positive"@),
    ) + "\n- Negative: "@ + percent_text(score_of(sentiment.scores, "Negative"@))
        + "\n- Neutral: "@ + percent_text(score_of(sentiment.scores, "Neutral"@)) + "\n- Mixed: "@
        + percent_text(score_of(sentiment.scores, "Mixed"@)) + "\n\n"@
}

/// The report on `analysis` for the recording `key`, generated at `stamp`.
pub open spec fn report_text(analysis: Digest, key: Seq<char>, stamp: Seq<char>) -> Seq<char> {
    header_text(key, stamp) + "## Overview\n"@ + analysis.overview + "\n\n## Main Topics\n"@
        + analysis.main_topics + "\n\n"@ + sentiment_text(analysis.sentiment)
        + "## Named Entities\n"@ + groups_text(analysis.entities)
        + "\n\n## Detailed Section Summaries\n"@ + appendix_text(analysis.sections) + "\n"@
}

/// Prints the sentiment part of the report.
pub fn render_sentiment(sentiment: &SentimentData) -> (r: String)
    ensures
        r@ == sentiment_text(sentiment@),
{
    let scores = &sentiment.sentiment_score;
    let mut out = String::from_str("## Sentiment Analysis ");
    out.append(get_sentiment_emoji(sentiment.sentiment.as_str()));
    out.append("\nOverall sentiment: **");
    out.append(lowercase(sentiment.sentiment.as_str()).as_str());
    out.append("**\n\nConfidence Scores:\n- Positive: ");
    push_percent(&mut out, lookup_score(scores, "Positive"));
    out.append("\n- Negative: ");
    push_percent(&mut out, lookup_score(scores, "Negative"));
    out.append("\n- Neutral: ");
    push_percent(&mut out, lookup_score(scores, "Neutral"));
    out.append("\n- Mixed: ");
    push_percent(&mut out, lookup_score(scores, "Mixed"));
    out.append("\n\n");
    assert(out@ =~= sentiment_text(sentiment@));
    out
}

/// Prints the report on a combined analysis: header, overview, main topics, sentiment,
/// named entities and the summaries of the sections, in this order. The text depends on the
/// three arguments alone.
pub fn render_report(analysis: &AggregateAnalysis, key: &str, stamp: &str) -> (r: String)
    ensures
        r@ == report_text(analysis@, key@, stamp@),
{
    let mut out = String::from_str("# Analysis Results for ");
    out.append(key);
    out.append("\nGenerated on ");
    out.append(stamp);
    out.append(" UTC\n\n");
    assert(out@ =~= header_text(key@, stamp@));
    out.append("## Overview\n");
    out.append(analysis.overview.as_str());
    out.append("\n\n## Main Topics\n");
    out.append(analysis.main_topics.as_str());
    out.append("\n\n");
    out.append(render_sentiment(&analysis.sentiment).as_str());
    out.append("## Named Entities\n");
    out.append(render_entities(&analysis.entities).as_str());
    out.append("\n\n## Detailed Section Summaries\n");
    out.append(render_sections(&analysis.sections).as_str());
    out.append("\n");
    assert(out@ =~= report_text(analysis@, key@, stamp@));
    out
}

/// Combines what the workflow has gathered and prints the report on it, for the key that
/// the input names. Fails on the first segment that lacks its summary or its topics.
pub fn compile_report(input: &AnalysisResult, stamp: &str) -> (r: Result<String, AnalysisError>)
    ensures
        match r {
            Ok(text) => first_incomplete(input.chunk_summaries@) == input.chunk_summaries@.len()
                && text@ == report_text(aggregated(*input), input.key@, stamp@),
            Err(e) => first_incomplete(input.chunk_summaries@) < input.chunk_summaries@.len()
                && e == (AnalysisError::MissingReply {
                section: (first_incomplete(input.chunk_summaries@) + 1) as usize,
            }),
        },
{
    match aggregate(input) {
        Ok(analysis) => Ok(render_report(&analysis, input.key.as_str(), stamp)),
        Err(e) => Err(e),
    }
}

/// The text that chrono prints for the moment `secs` seconds after the start of 1970, in
/// UTC, when it is given the format `pattern`; `None` where chrono has no such moment or
/// refuses the format.
pub uninterp spec fn utc_text(secs: i64, pattern: Seq<char>) -> Option<Seq<char>>;

/// Calls chrono: `DateTime::from_timestamp` for the moment, then `format` and `write_to`
/// for its text. The contract gives the outcome the name `utc_text`: it depends on the
/// two arguments alone.
#[verifier::external_body]
fn format_utc(secs: i64, pattern: &str) -> (r: Option<String>)
    ensures
        match r {
            Some(text) => utc_text(secs, pattern@) == Some(text@),
            None => utc_text(secs, pattern@) is None,
        },
{
    let moment = chrono::DateTime::from_timestamp(secs, 0)?;
    let mut out = String::new();
    moment.format(pattern).write_to(&mut out).ok()?;
    Some(out)
}

/// The time of generation as the header of the report shows it: year, month, day, hour,
/// minute and second in UTC, for the moment `secs` seconds after the start of 1970.
pub fn generation_stamp(secs: i64) -> (r: Option<String>)
    ensures
        match r {
            Some(text) => utc_text(secs, "%Y-%m-%d %H:%M:%S"@) == Some(text@),
            None => utc_text(secs, "%Y-%m-%d %H:%M:%S"@) is None,
        },
{
    format_utc(secs, "%Y-%m-%d %H:%M:%S")
}

} // verus!
