use distiller::sections::combine_sections;
use distiller::sections::extract_text;
use distiller::sections::format_chunk_summaries;
use distiller::sections::reduce_chunk_summaries;
use distiller::sections::render_sections;
use distiller::sections::sections_of;
use distiller::sections::AnalysisError;
use distiller::sections::BedrockMessage;
use distiller::sections::BedrockWrapper;
use distiller::sections::ChunkAnalysis;
use distiller::sections::ContentBlock;
use distiller::sections::SectionText;

fn reply(blocks: &[(&str, &str)]) -> BedrockWrapper {
    BedrockWrapper {
        body: BedrockMessage {
            content: blocks
                .iter()
                .map(|(kind, text)| ContentBlock { content_type: kind.to_string(), text: text.to_string() })
                .collect(),
        },
    }
}

fn chunk(summary: &str, topics: &str) -> ChunkAnalysis {
    ChunkAnalysis { chunk_analysis: vec![reply(&[("text", summary)]), reply(&[("text", topics)])] }
}

#[test]
fn text_blocks_are_joined_by_line_breaks() {
    assert_eq!(extract_text(&reply(&[("text", "a"), ("text", "b"), ("text", "")])), "a\nb\n");
    assert_eq!(extract_text(&reply(&[("tool_use", "x"), ("text", "only"), ("Text", "y")])), "only");
    assert_eq!(extract_text(&reply(&[])), "");
    assert_eq!(extract_text(&reply(&[("image", "x")])), "");
}

#[test]
fn appendix_numbers_the_sections_from_one() {
    let chunks = vec![chunk("  first\n", "alpha"), chunk("second", "\u{a0}beta\u{2003}")];
    assert_eq!(
        format_chunk_summaries(&chunks).unwrap(),
        "### Section 1 Summary\nfirst\n\n#### Topics\nalpha\n\n### Section 2 Summary\nsecond\n\n#### Topics\nbeta"
    );
    assert_eq!(format_chunk_summaries(&[]).unwrap(), "");
}

#[test]
fn appendix_counts_past_nine() {
    let chunks: Vec<ChunkAnalysis> = (0..12).map(|_| chunk("s", "t")).collect();
    let text = format_chunk_summaries(&chunks).unwrap();
    assert!(text.contains("### Section 9 Summary\n"));
    assert!(text.contains("### Section 10 Summary\n"));
    assert!(text.ends_with("### Section 12 Summary\ns\n\n#### Topics\nt"));
}

#[test]
fn missing_reply_is_reported_with_its_section() {
    let chunks = vec![chunk("a", "b"), ChunkAnalysis { chunk_analysis: vec![reply(&[("text", "a")])] }, ChunkAnalysis { chunk_analysis: vec![] }];
    assert_eq!(format_chunk_summaries(&chunks), Err(AnalysisError::MissingReply { section: 2 }));
    assert_eq!(reduce_chunk_summaries(&chunks).err(), Some(AnalysisError::MissingReply { section: 2 }));
    assert_eq!(sections_of(&chunks).err(), Some(AnalysisError::MissingReply { section: 2 }));
    assert_eq!(
        sections_of(&[ChunkAnalysis { chunk_analysis: vec![] }]).err(),
        Some(AnalysisError::MissingReply { section: 1 })
    );
}

#[test]
fn summaries_and_topics_are_combined_under_labels() {
    let chunks = vec![chunk(" one ", "x, y"), chunk("two\n", " z")];
    let combined = reduce_chunk_summaries(&chunks).unwrap();
    assert_eq!(combined.summaries, "Section 1:\none\n\nSection 2:\ntwo");
    assert_eq!(combined.topics, "Section 1:\nx, y\n\nSection 2:\nz");
    let none = reduce_chunk_summaries(&[]).unwrap();
    assert_eq!(none.summaries, "");
    assert_eq!(none.topics, "");
}

#[test]
fn sections_print_as_they_are_given() {
    let sections = vec![SectionText { summary: "s".to_string(), topics: "t".to_string() }];
    assert_eq!(render_sections(&sections), "### Section 1 Summary\ns\n\n#### Topics\nt");
    let combined = combine_sections(&sections);
    assert_eq!(combined.summaries, "Section 1:\ns");
    assert_eq!(combined.topics, "Section 1:\nt");
}
