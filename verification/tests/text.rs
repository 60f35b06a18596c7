use distiller::text::chars_of;
use distiller::text::contains_text;
use distiller::text::is_whitespace;
use distiller::text::join;
use distiller::text::push_decimal;
use distiller::text::str_eq;
use distiller::text::text_of;
use distiller::text::trim;

#[test]
fn white_space_is_what_the_standard_library_says() {
    for code in 0u32..=0x3100 {
        if let Some(c) = char::from_u32(code) {
            assert_eq!(is_whitespace(c), c.is_whitespace(), "U+{:04X}", code);
        }
    }
    assert!(!is_whitespace('\u{feff}'));
    assert!(!is_whitespace('\u{10ffff}'));
}

#[test]
fn trim_removes_white_space_at_both_ends() {
    assert_eq!(trim("  a b  "), "a b");
    assert_eq!(trim("\n\t\u{a0}x\u{3000}\r\n"), "x");
    assert_eq!(trim("x"), "x");
    assert_eq!(trim(""), "");
    assert_eq!(trim(" \t "), "");
    assert_eq!(trim("\u{e9}t\u{e9} "), "\u{e9}t\u{e9}");
    for sample in ["", " ", "a", " a", "a ", " a b ", "\u{2028}w\u{2029}", "\u{1F60A} "] {
        assert_eq!(trim(sample), sample.trim());
    }
}

#[test]
fn strings_are_compared_by_their_characters() {
    assert!(str_eq("", ""));
    assert!(str_eq("abc", "abc"));
    assert!(!str_eq("abc", "abd"));
    assert!(!str_eq("abc", "ab"));
    assert!(!str_eq("ab", "abc"));
    assert!(str_eq("\u{e9}", "\u{e9}"));
    assert!(!str_eq("\u{e9}", "e"));
}

#[test]
fn characters_come_out_in_order() {
    assert_eq!(chars_of("a\u{e9}\u{1F60A}"), vec!['a', '\u{e9}', '\u{1F60A}']);
    assert!(chars_of("").is_empty());
}

#[test]
fn join_puts_the_separator_between_neighbours() {
    let parts = vec!["a".to_string(), "".to_string(), "c".to_string()];
    assert_eq!(join(&parts, ", "), "a, , c");
    assert_eq!(join(&parts[..1].to_vec(), ", "), "a");
    assert_eq!(join(&Vec::new(), ", "), "");
}

#[test]
fn decimal_numerals() {
    for (n, text) in [(0u64, "0"), (7, "7"), (10, "10"), (405, "405"), (u64::MAX, "18446744073709551615")] {
        let mut out = String::from("n=");
        push_decimal(&mut out, n);
        assert_eq!(out, format!("n={}", text));
    }
}

#[test]
fn membership_in_a_list_of_strings() {
    let list = vec!["ORG".to_string(), "DATE".to_string()];
    assert!(contains_text(&list, "DATE"));
    assert!(!contains_text(&list, "date"));
    assert!(!contains_text(&Vec::new(), ""));
}

#[test]
fn characters_make_a_string_again() {
    assert_eq!(text_of(&['a', '\u{e9}', '\u{1F60A}']), "a\u{e9}\u{1F60A}");
    assert_eq!(text_of(&[]), "");
    assert_eq!(text_of(&chars_of("round trip")), "round trip");
}
