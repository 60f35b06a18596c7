use distiller::confidence::format_sentiment_score;
use distiller::entities::Entity;
use distiller::entities::EntityData;
use distiller::report::aggregate;
use distiller::report::compile_report;
use distiller::report::generation_stamp;
use distiller::report::get_sentiment_emoji;
use distiller::report::render_report;
use distiller::report::render_sentiment;
use distiller::report::AnalysisResult;
use distiller::sections::AnalysisError;
use distiller::sections::BedrockMessage;
use distiller::sections::BedrockWrapper;
use distiller::sections::ChunkAnalysis;
use distiller::sections::ContentBlock;
use distiller::sentiment::ScoreEntry;
use distiller::sentiment::SentimentData;

fn reply(blocks: &[(&str, &str)]) -> BedrockWrapper {
    BedrockWrapper {
        body: BedrockMessage {
            content: blocks
                .iter()
                .map(|(kind, text)| ContentBlock { content_type: kind.to_string(), text: text.to_string() })
                .collect(),
        },
    }
}

fn record(label: &str, scores: &[(&str, u32)]) -> SentimentData {
    SentimentData {
        sentiment: label.to_string(),
        sentiment_score: scores
            .iter()
            .map(|(l, s)| ScoreEntry { label: l.to_string(), score: *s })
            .collect(),
    }
}

fn entity(text: &str, kind: &str, score: u32) -> Entity {
    Entity { text: text.to_string(), entity_type: kind.to_string(), score, begin_offset: 0, end_offset: 0 }
}

fn sample() -> AnalysisResult {
    AnalysisResult {
        overview: reply(&[("text", "Overview line")]),
        main_topics: reply(&[("text", "Topic A"), ("image", "ignored"), ("text", "Topic B")]),
        chunk_summaries: vec![
            ChunkAnalysis { chunk_analysis: vec![reply(&[("text", " Summary one \n")]), reply(&[("text", "t1")])] },
            ChunkAnalysis {
                chunk_analysis: vec![
                    reply(&[("text", "Summary"), ("text", "two")]),
                    reply(&[("text", "\tt2, t3")]),
                    reply(&[("text", "a third reply is not read")]),
                ],
            },
        ],
        sentiment: vec![
            vec![record("POSITIVE", &[("Positive", 900_000), ("Neutral", 100_000)])],
            vec![record("POSITIVE", &[("Positive", 800_000)])],
        ],
        entities: vec![
            vec![EntityData { entities: vec![entity("Acme", "ORG", 700_000)] }],
            vec![EntityData { entities: vec![entity("Acme", "ORG", 900_000), entity("Paris", "LOCATION", 500_000)] }],
        ],
        key: "meeting.wav".to_string(),
    }
}

const EXPECTED: &str = "# Analysis Results for meeting.wav\n\
Generated on 2024-01-02 03:04:05 UTC\n\
\n\
## Overview\n\
Overview line\n\
\n\
## Main Topics\n\
Topic A\n\
Topic B\n\
\n\
## Sentiment Analysis \u{1F60A}\n\
Overall sentiment: **positive**\n\
\n\
Confidence Scores:\n\
- Positive: 85.0%\n\
- Negative: 0.0%\n\
- Neutral: 5.0%\n\
- Mixed: 0.0%\n\
\n\
## Named Entities\n\
### ORG\n\
- Acme (confidence: 90.0%)\n\
\n\
### LOCATION\n\
- Paris (confidence: 50.0%)\n\
\n\
## Detailed Section Summaries\n\
### Section 1 Summary\n\
Summary one\n\
\n\
#### Topics\n\
t1\n\
\n\
### Section 2 Summary\n\
Summary\n\
two\n\
\n\
#### Topics\n\
t2, t3\n";

#[test]
fn report_has_the_fixed_layout() {
    assert_eq!(compile_report(&sample(), "2024-01-02 03:04:05").unwrap(), EXPECTED);
}

#[test]
fn report_is_the_same_on_every_call() {
    let analysis = aggregate(&sample()).unwrap();
    let first = render_report(&analysis, "meeting.wav", "2024-01-02 03:04:05");
    let second = render_report(&analysis, "meeting.wav", "2024-01-02 03:04:05");
    assert_eq!(first, second);
    assert_eq!(first, EXPECTED);
}

#[test]
fn aggregate_holds_the_combined_parts() {
    let analysis = aggregate(&sample()).unwrap();
    assert_eq!(analysis.overview, "Overview line");
    assert_eq!(analysis.main_topics, "Topic A\nTopic B");
    assert_eq!(analysis.sections.len(), 2);
    assert_eq!(analysis.sections[0].summary, "Summary one");
    assert_eq!(analysis.sections[1].topics, "t2, t3");
    assert_eq!(analysis.sentiment.sentiment, "POSITIVE");
    assert_eq!(analysis.entities.len(), 2);
}

#[test]
fn incomplete_segment_fails_the_whole_report() {
    let mut input = sample();
    input.chunk_summaries.push(ChunkAnalysis { chunk_analysis: vec![reply(&[("text", "only a summary")])] });
    input.chunk_summaries.push(ChunkAnalysis { chunk_analysis: vec![] });
    assert_eq!(compile_report(&input, "now"), Err(AnalysisError::MissingReply { section: 3 }));
    assert_eq!(aggregate(&input).err(), Some(AnalysisError::MissingReply { section: 3 }));
}

#[test]
fn empty_analysis_still_prints_every_part() {
    let input = AnalysisResult {
        overview: reply(&[]),
        main_topics: reply(&[]),
        chunk_summaries: vec![],
        sentiment: vec![],
        entities: vec![],
        key: String::new(),
    };
    assert_eq!(
        compile_report(&input, "t").unwrap(),
        "# Analysis Results for \nGenerated on t UTC\n\n## Overview\n\n\n## Main Topics\n\n\n\
## Sentiment Analysis \u{1F610}\nOverall sentiment: **neutral**\n\nConfidence Scores:\n\
- Positive: 0.0%\n- Negative: 0.0%\n- Neutral: 0.0%\n- Mixed: 0.0%\n\n\
## Named Entities\nNo entities detected\n\n## Detailed Section Summaries\n\n"
    );
}

#[test]
fn emoji_for_each_label() {
    assert_eq!(get_sentiment_emoji("POSITIVE"), "\u{1F60A}");
    assert_eq!(get_sentiment_emoji("NEGATIVE"), "\u{1F614}");
    assert_eq!(get_sentiment_emoji("NEUTRAL"), "\u{1F610}");
    assert_eq!(get_sentiment_emoji("MIXED"), "\u{1F914}");
    assert_eq!(get_sentiment_emoji("positive"), "");
    assert_eq!(get_sentiment_emoji(""), "");
}

#[test]
fn label_is_printed_in_lower_case() {
    let text = render_sentiment(&record("MIXED", &[("Mixed", 1_000_000)]));
    assert!(text.starts_with("## Sentiment Analysis \u{1F914}\nOverall sentiment: **mixed**\n"));
    assert!(text.ends_with("- Mixed: 100.0%\n\n"));
    let odd = render_sentiment(&record("\u{c4}RGER", &[]));
    assert!(odd.contains("**\u{e4}rger**"));
}

#[test]
fn percentages_have_one_decimal_place() {
    assert_eq!(format_sentiment_score(900_000), "90.0%");
    assert_eq!(format_sentiment_score(0), "0.0%");
    assert_eq!(format_sentiment_score(1_000_000), "100.0%");
    assert_eq!(format_sentiment_score(123_456), "12.3%");
    assert_eq!(format_sentiment_score(123_499), "12.3%");
    assert_eq!(format_sentiment_score(123_500), "12.4%");
    assert_eq!(format_sentiment_score(999_499), "99.9%");
    assert_eq!(format_sentiment_score(999_500), "100.0%");
    assert_eq!(format_sentiment_score(499), "0.0%");
    assert_eq!(format_sentiment_score(500), "0.1%");
    assert_eq!(format_sentiment_score(u32::MAX), "429496.7%");
}

#[test]
fn stamp_is_utc_to_the_second() {
    assert_eq!(generation_stamp(0).unwrap(), "1970-01-01 00:00:00");
    assert_eq!(generation_stamp(1_700_000_000).unwrap(), "2023-11-14 22:13:20");
    assert_eq!(generation_stamp(-1).unwrap(), "1969-12-31 23:59:59");
    assert_eq!(generation_stamp(951_782_399).unwrap(), "2000-02-28 23:59:59");
    assert_eq!(generation_stamp(951_868_799).unwrap(), "2000-02-29 23:59:59");
    assert_eq!(generation_stamp(i64::MAX), None);
    assert_eq!(generation_stamp(i64::MIN), None);
}
