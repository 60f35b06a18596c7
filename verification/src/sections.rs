//! The model's replies for each segment, and the text that is drawn from them.

use crate::text::decimal_text;
use crate::text::join;
use crate::text::joined;
use crate::text::push_decimal;
use crate::text::str_eq;
use crate::text::trim;
use crate::text::trimmed;
use crate::text::views;
use vstd::prelude::*;

verus! {

/// One block of a reply.
#[derive(Debug, PartialEq, Eq)]
pub struct ContentBlock {
    pub content_type: String,
    pub text: String,
}

/// The message of a reply.
#[derive(Debug, PartialEq, Eq)]
pub struct BedrockMessage {
    pub content: Vec<ContentBlock>,
}

/// One reply of the model, as the workflow hands it on.
#[derive(Debug, PartialEq, Eq)]
pub struct BedrockWrapper {
    pub body: BedrockMessage,
}

/// The replies for one segment: first its summary, then its topics.
#[derive(Debug, PartialEq, Eq)]
pub struct ChunkAnalysis {
    pub chunk_analysis: Vec<BedrockWrapper>,
}

/// Summary and topics of one segment, as text.
#[derive(Debug, PartialEq, Eq)]
pub struct SectionText {
    pub summary: String,
    pub topics: String,
}

/// What is wrong with the replies for a segment.
#[derive(Debug, Clone, Copy, PartialEq, Eq, Structural)]
pub enum AnalysisError {
    /// The segment with this number, counting from one, lacks its summary or its topics.
    MissingReply { section: usize },
}

/// The texts of the blocks of type `text`, in order.
pub open spec fn text_blocks(content: Seq<ContentBlock>) -> Seq<Seq<char>>
    decreases content.len(),
{
    if content.len() == 0 {
        Seq::empty()
    } else if content.last().content_type@ == "text"@ {
        text_blocks(content.drop_last()).push(content.last().text@)
    } else {
        text_blocks(content.drop_last())
    }
}

/// The text of a reply: its text blocks, one to a line.
pub open spec fn reply_text(reply: BedrockWrapper) -> Seq<char> {
    joined(text_blocks(reply.body.content@), "\n"@)
}

/// The text of a reply: its blocks of type `text`, joined by line breaks.
pub fn extract_text(bedrock_response: &BedrockWrapper) -> (r: String)
    ensures
        r@ == reply_text(*bedrock_response),
{
    let content = &bedrock_response.body.content;
    let mut texts: Vec<String> = Vec::new();
    let mut i: usize = 0;
    assert(views(texts@) =~= text_blocks(content@.take(0)));
    while i < content.len()
        invariant
            i <= content.len(),
            views(texts@) == text_blocks(content@.take(i as int)),
        decreases content.len() - i,
    {
        assert(content@.take(i + 1).drop_last() =~= content@.take(i as int));
        if str_eq(content[i].content_type.as_str(), "text") {
            let ghost before = views(texts@);
            texts.push(content[i].text.clone());
            assert(views(texts@) =~= before.push(content@[i as int].text@));
        }
        i += 1;
    }
    assert(content@.take(content.len() as int) =~= content@);
    join(&texts, "\n")
}

/// Whether the replies for a segment hold both a summary and topics.
pub open spec fn complete(chunk: ChunkAnalysis) -> bool {
    chunk.chunk_analysis@.len() >= 2
}

/// The index of the first segment of `chunks` that is not complete; `chunks.len()` if all
/// are.
pub open spec fn first_incomplete(chunks: Seq<ChunkAnalysis>) -> int
    decreases chunks.len(),
{
    if chunks.len() == 0 {
        0
    } else if !complete(chunks[0]) {
        0
    } else {
        1 + first_incomplete(chunks.drop_first())
    }
}

/// Summary and topics of a complete segment, each without surrounding white space.
pub open spec fn section_view(chunk: ChunkAnalysis) -> (Seq<char>, Seq<char>) {
    (trimmed(reply_text(chunk.chunk_analysis@[0])), trimmed(reply_text(chunk.chunk_analysis@[1])))
}

/// Summary and topics of each segment.
pub open spec fn section_views(chunks: Seq<ChunkAnalysis>) -> Seq<(Seq<char>, Seq<char>)> {
    chunks.map_values(|c: ChunkAnalysis| section_view(c))
}

impl View for SectionText {
    type V = (Seq<char>, Seq<char>);

    open spec fn view(&self) -> (Seq<char>, Seq<char>) {
        (self.summary@, self.topics@)
    }
}

/// What a list of sections holds.
pub open spec fn section_texts(sections: Seq<SectionText>) -> Seq<(Seq<char>, Seq<char>)> {
    sections.map_values(|s: SectionText| s@)
}

/// Draws summary and topics from the replies for each segment. Fails on the first segment
/// that lacks one of them.
pub fn sections_of(chunks: &[ChunkAnalysis]) -> (r: Result<Vec<SectionText>, AnalysisError>)
    ensures
        match r {
            Ok(sections) => first_incomplete(chunks@) == chunks@.len() && section_texts(sections@)
                == section_views(chunks@),
            Err(e) => first_incomplete(chunks@) < chunks@.len() && e == (
            AnalysisError::MissingReply { section: (first_incomplete(chunks@) + 1) as usize }),
        },
{
    let mut sections: Vec<SectionText> = Vec::new();
    let mut i: usize = 0;
    assert(chunks@.skip(0) =~= chunks@);
    while i < chunks.len()
        invariant
            i <= chunks.len(),
            first_incomplete(chunks@) == i + first_incomplete(chunks@.skip(i as int)),
            section_texts(sections@) =~= section_views(chunks@).take(i as int),
        decreases chunks.len() - i,
    {
        let replies = &chunks[i].chunk_analysis;
        assert(chunks@.skip(i as int)[0] == chunks@[i as int]);
        if replies.len() < 2 {
            return Err(AnalysisError::MissingReply { section: i + 1 });
        }
        let summary = extract_text(&replies[0]);
        let topics = extract_text(&replies[1]);
        let section = SectionText {
            summary: String::from_str(trim(summary.as_str())),
            topics: String::from_str(trim(topics.as_str())),
        };
        let ghost before = section_texts(sections@);
        sections.push(section);
        assert(section_texts(sections@) =~= before.push(section_view(chunks@[i as int])));
        assert(chunks@.skip(i as int).drop_first() =~= chunks@.skip(i + 1));
        i += 1;
    }
    assert(section_views(chunks@).take(chunks.len() as int) =~= section_views(chunks@));
    Ok(sections)
}

/// The entry of section number `n` in the appendix of the report.
pub open spec fn appendix_entry(n: nat, section: (Seq<char>, Seq<char>)) -> Seq<char> {
    "### Section "@ + decimal_text(n) + " Summary\n"@ + section.0 + "\n\n#### Topics\n"@
        + section.1
}

/// The entries of the appendix: the sections in order, numbered from one.
pub open spec fn appendix_entries(sections: Seq<(Seq<char>, Seq<char>)>) -> Seq<Seq<char>> {
    Seq::new(sections.len(), |i: int| appendix_entry((i + 1) as nat, sections[i]))
}

/// The appendix of the report: its entries, a blank line between each two.
pub open spec fn appendix_text(sections: Seq<(Seq<char>, Seq<char>)>) -> Seq<char> {
    joined(appendix_entries(sections), "\n\n"@)
}

/// Prints the appendix of the report: summary and topics of each section, in order.
pub fn render_sections(sections: &Vec<SectionText>) -> (r: String)
    ensures
        r@ == appendix_text(section_texts(sections@)),
{
    let ghost entries = appendix_entries(section_texts(sections@));
    let mut parts: Vec<String> = Vec::new();
    let mut i: usize = 0;
    while i < sections.len()
        invariant
            i <= sections.len(),
            entries == appendix_entries(section_texts(sections@)),
            views(parts@) =~= entries.take(i as int),
        decreases sections.len() - i,
    {
        let mut entry = String::from_str("### Section ");
        push_decimal(&mut entry, (i + 1) as u64);
        entry.append(" Summary\n");
        entry.append(sections[i].summary.as_str());
        entry.append("\n\n#### Topics\n");
        entry.append(sections[i].topics.as_str());
        assert(entry@ =~= appendix_entry((i + 1) as nat, sections@[i as int]@));
        let ghost before = views(parts@);
        parts.push(entry);
        assert(views(parts@) =~= before.push(entries[i as int]));
        i += 1;
    }
    assert(entries.take(sections.len() as int) =~= entries);
    join(&parts, "\n\n")
}

/// Prints summary and topics of each segment for the appendix of the report. Fails on the
/// first segment that lacks one of them.
pub fn format_chunk_summaries(chunk_summaries: &[ChunkAnalysis]) -> (r: Result<
    String,
    AnalysisError,
>)
    ensures
        match r {
            Ok(text) => first_incomplete(chunk_summaries@) == chunk_summaries@.len() && text@
                == appendix_text(section_views(chunk_summaries@)),
            Err(e) => first_incomplete(chunk_summaries@) < chunk_summaries@.len() && e == (
            AnalysisError::MissingReply {
                section: (first_incomplete(chunk_summaries@) + 1) as usize,
            }),
        },
{
    match sections_of(chunk_summaries) {
        Ok(sections) => Ok(render_sections(&sections)),
        Err(e) => Err(e),
    }
}

/// The text of section number `n` under its label.
pub open spec fn labelled(n: nat, text: Seq<char>) -> Seq<char> {
    "Section "@ + decimal_text(n) + ":\n"@ + text
}

/// The summaries of the sections, each under its label, numbered from one.
pub open spec fn labelled_summaries(sections: Seq<(Seq<char>, Seq<char>)>) -> Seq<Seq<char>> {
    Seq::new(sections.len(), |i: int| labelled((i + 1) as nat, sections[i].0))
}

/// The topics of the sections, each under its label, numbered from one.
pub open spec fn labelled_topics(sections: Seq<(Seq<char>, Seq<char>)>) -> Seq<Seq<char>> {
    Seq::new(sections.len(), |i: int| labelled((i + 1) as nat, sections[i].1))
}

/// The summaries of all segments as one text, and their topics as another.
#[derive(Debug, PartialEq, Eq)]
pub struct CombinedOutput {
    pub summaries: String,
    pub topics: String,
}

/// Puts `text` under the label of section number `n`.
fn labelled_text(n: u64, text: &str) -> (r: String)
    ensures
        r@ == labelled(n as nat, text@),
{
    let mut out = String::from_str("Section ");
    push_decimal(&mut out, n);
    out.append(":\n");
    out.append(text);
    assert(out@ =~= labelled(n as nat, text@));
    out
}

/// Joins the summaries of the sections into one text and their topics into another, each
/// part under the label of its section, with a blank line between each two.
pub fn combine_sections(sections: &Vec<SectionText>) -> (r: CombinedOutput)
    ensures
        r.summaries@ == joined(labelled_summaries(section_texts(sections@)), "\n\n"@),
        r.topics@ == joined(labelled_topics(section_texts(sections@)), "\n\n"@),
{
    let ghost all = section_texts(sections@);
    let mut summaries: Vec<String> = Vec::new();
    let mut topics: Vec<String> = Vec::new();
    let mut i: usize = 0;
    while i < sections.len()
        invariant
            i <= sections.len(),
            all == section_texts(sections@),
            views(summaries@) =~= labelled_summaries(all).take(i as int),
            views(topics@) =~= labelled_topics(all).take(i as int),
        decreases sections.len() - i,
    {
        let summary = labelled_text((i + 1) as u64, sections[i].summary.as_str());
        let topic = labelled_text((i + 1) as u64, sections[i].topics.as_str());
        let ghost summaries_before = views(summaries@);
        let ghost topics_before = views(topics@);
        summaries.push(summary);
        topics.push(topic);
        assert(views(summaries@) =~= summaries_before.push(labelled_summaries(all)[i as int]));
        assert(views(topics@) =~= topics_before.push(labelled_topics(all)[i as int]));
        i += 1;
    }
    assert(labelled_summaries(all).take(sections.len() as int) =~= labelled_summaries(all));
    assert(labelled_topics(all).take(sections.len() as int) =~= labelled_topics(all));
    CombinedOutput { summaries: join(&summaries, "\n\n"), topics: join(&topics, "\n\n") }
}

/// Combines the replies for all segments into one text of summaries and one of topics.
/// Fails on the first segment that lacks one of them.
pub fn reduce_chunk_summaries(chunk_results: &[ChunkAnalysis]) -> (r: Result<
    CombinedOutput,
    AnalysisError,
>)
    ensures
        match r {
            Ok(out) => {
                &&& first_incomplete(chunk_results@) == chunk_results@.len()
                &&& out.summaries@ == joined(
                    labelled_summaries(section_views(chunk_results@)),
                    "\n\n"@,
                )
                &&& out.topics@ == joined(labelled_topics(section_views(chunk_results@)), "\n\n"@)
            },
            Err(e) => first_incomplete(chunk_results@) < chunk_results@.len() && e == (
            AnalysisError::MissingReply {
                section: (first_incomplete(chunk_results@) + 1) as usize,
            }),
        },
{
    match sections_of(chunk_results) {
        Ok(sections) => Ok(combine_sections(&sections)),
        Err(e) => Err(e),
    }
}

} // verus!
