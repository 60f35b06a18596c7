use distiller::chunker::chunk_transcript;
use distiller::chunker::split;
use distiller::chunker::Separator;
use distiller::chunker::measure;
use distiller::chunker::pack_sentences;
use distiller::chunker::width;
use distiller::chunker::DEFAULT_MAX_BYTES;

fn chunk(text: &str, max: usize) -> Vec<String> {
    chunk_transcript(text, max)
}

fn chars(text: &str) -> Vec<char> {
    text.chars().collect()
}

fn content(text: &str) -> String {
    text.chars().filter(|c| !c.is_whitespace() && !".!?".contains(*c)).collect()
}

#[test]
fn empty_transcript_has_no_segments() {
    assert!(chunk("", 10).is_empty());
    assert!(chunk("", 0).is_empty());
}

#[test]
fn blank_or_bare_punctuation_has_no_segments() {
    assert!(chunk("   \n\t ", 10).is_empty());
    assert!(chunk(" . ! ?? .. ", 10).is_empty());
}

#[test]
fn small_transcript_is_one_segment() {
    assert_eq!(chunk("Hello world. How are you? Fine!", 100), vec!["Hello world. How are you. Fine"]);
    assert_eq!(chunk("  no punctuation at all \n", 100), vec!["no punctuation at all"]);
}

#[test]
fn sentences_are_packed_greedily() {
    assert_eq!(
        chunk("Hello world. How are you? Fine!", 20),
        vec!["Hello world", "How are you. Fine"]
    );
}

#[test]
fn separator_counts_two_bytes() {
    // "aaaa. bbbb" is exactly ten bytes.
    assert_eq!(chunk("aaaa.bbbb", 10), vec!["aaaa. bbbb"]);
    assert_eq!(chunk("aaaa.bbbb", 9), vec!["aaaa", "bbbb"]);
    assert_eq!(chunk("aaaa.bbbbb", 10), vec!["aaaa", "bbbbb"]);
}

#[test]
fn long_sentence_is_packed_by_words() {
    assert_eq!(
        chunk("one. alpha beta gamma delta epsilon. two", 11),
        vec!["one", "alpha beta", "gamma delta", "epsilon", "two"]
    );
}

#[test]
fn word_joint_counts_one_byte() {
    assert_eq!(chunk("ab cd ef", 5), vec!["ab cd", "ef"]);
    assert_eq!(chunk("ab cd ef", 4), vec!["ab", "cd", "ef"]);
}

#[test]
fn a_word_longer_than_the_maximum_stands_alone() {
    assert_eq!(chunk("a bb extraordinarily cc", 4), vec!["a bb", "extraordinarily", "cc"]);
    assert_eq!(chunk("abc", 0), vec!["abc"]);
}

#[test]
fn inner_white_space_of_a_short_sentence_is_kept() {
    assert_eq!(chunk("a  b\nc.  d", 100), vec!["a  b\nc. d"]);
}

#[test]
fn segments_keep_the_content_in_order() {
    let text = "First sentence here! Second one?  Third, with a verylongwordthatexceeds the limit. End";
    for max in [0usize, 1, 5, 8, 13, 21, 34, 200] {
        let segments = chunk(text, max);
        let joined: String = segments.concat();
        assert_eq!(content(&joined), content(text), "max {}", max);
        for segment in &segments {
            assert!(!segment.is_empty());
            assert_eq!(segment.trim(), segment);
            assert!(segment.len() <= max || !segment.contains(' '), "max {}: {:?}", max, segment);
        }
    }
}

#[test]
fn same_input_same_segments() {
    let text = "One. Two three four five six seven. Eight! Nine?";
    assert_eq!(chunk(text, 12), chunk(text, 12));
}

#[test]
fn multibyte_text_is_cut_between_characters() {
    assert_eq!(chunk("caf\u{e9} cr\u{e8}me. th\u{e9}", 6), vec!["caf\u{e9}", "cr\u{e8}me", "th\u{e9}"]);
}

#[test]
fn split_gives_trimmed_units() {
    let units = split(&chars(" a b . c!  ?d "), Separator::Terminator);
    assert_eq!(units, vec![chars("a b"), chars("c"), chars("d")]);
    let words = split(&chars(" a b \t c\n"), Separator::Blank);
    assert_eq!(words, vec![chars("a"), chars("b"), chars("c")]);
    let wide = split(&chars("\u{3000}a\u{a0}b\u{2003}\u{2028}c\u{85}"), Separator::Blank);
    assert_eq!(wide, vec![chars("a"), chars("b"), chars("c")]);
}

#[test]
fn sizes_are_bytes_of_utf8() {
    for c in ['\0', 'a', '\u{7f}', '\u{80}', '\u{e9}', '\u{7ff}', '\u{800}', '\u{20ac}', '\u{ffff}', '\u{10000}', '\u{1F60A}', '\u{10ffff}'] {
        assert_eq!(width(c), c.len_utf8() as u128, "{:?}", c);
    }
    for text in ["", "abc", "caf\u{e9}", "\u{20ac}\u{1F60A}x"] {
        assert_eq!(measure(&chars(text)), text.len() as u128);
    }
}

#[test]
fn unicode_white_space_separates_words() {
    // Three words of four bytes each, separated by a no-break space and an ideographic space.
    let text = "abcd\u{a0}efgh\u{3000}ijkl";
    assert_eq!(text.len(), 17);
    assert_eq!(chunk(text, 17), vec![text]);
    assert_eq!(chunk(text, 16), vec!["abcd efgh ijkl"]);
    assert_eq!(chunk(text, 13), vec!["abcd efgh", "ijkl"]);
    assert_eq!(chunk(text, 8), vec!["abcd", "efgh", "ijkl"]);
    assert_eq!(chunk("\u{2003}lead. trail\u{2029}", 100), vec!["lead. trail"]);
    assert!(chunk("\u{a0}\u{3000}.\u{85}", 5).is_empty());
}

#[test]
fn text_of_many_bytes_per_character() {
    assert_eq!(chunk("\u{1F60A}\u{1F614} \u{1F610}?\u{1F914}", 8), vec!["\u{1F60A}\u{1F614}", "\u{1F610}", "\u{1F914}"]);
    assert_eq!(chunk("\u{1F60A}\u{1F614} \u{1F610}?\u{1F914}", 13), vec!["\u{1F60A}\u{1F614} \u{1F610}", "\u{1F914}"]);
    assert_eq!(chunk("\u{e9}.\u{e9}", 6), vec!["\u{e9}. \u{e9}"]);
    assert_eq!(chunk("\u{e9}.\u{e9}", 5), vec!["\u{e9}", "\u{e9}"]);
}

#[test]
fn sentences_at_hand_are_packed() {
    let found = vec![chars("one"), chars("two"), chars("three four")];
    assert_eq!(pack_sentences(&found, 8), vec![chars("one. two"), chars("three"), chars("four")]);
    assert!(pack_sentences(&Vec::new(), 8).is_empty());
}

#[test]
fn long_transcript_is_cut_at_the_default_size() {
    let sentence = "The quick brown fox jumps over the lazy dog";
    let text = vec![sentence; 400].join(". ");
    let segments = chunk(&text, DEFAULT_MAX_BYTES);
    assert_eq!(DEFAULT_MAX_BYTES, 4899);
    assert_eq!(segments.len(), 4);
    assert!(segments.iter().all(|s| s.len() <= DEFAULT_MAX_BYTES));
    assert_eq!(segments[0].len(), 108 * 43 + 107 * 2);
    assert_eq!(segments.join(". "), text);
}
