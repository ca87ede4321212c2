use conversation_parser::text::{closes_sentence, trim};

#[test]
fn trim_removes_whitespace_at_both_ends_only() {
    assert_eq!(trim("  a b \t\n"), "a b");
    assert_eq!(trim("a b"), "a b");
    assert_eq!(trim(""), "");
    assert_eq!(trim(" \n\t "), "");
}

#[test]
fn trim_knows_whitespace_beyond_ascii() {
    assert_eq!(trim("\u{a0}x y\u{3000}\u{2028}"), "x y");
    assert_eq!(trim("\u{8d8a} "), "\u{8d8a}");
}

#[test]
fn sentence_closes_with_a_period_before_trailing_whitespace() {
    assert!(closes_sentence("Done."));
    assert!(closes_sentence("Done. \t\n"));
    assert!(closes_sentence("."));
}

#[test]
fn sentence_does_not_close_without_a_final_period() {
    assert!(!closes_sentence("Done"));
    assert!(!closes_sentence("Done. really"));
    assert!(!closes_sentence("Done.!"));
    assert!(!closes_sentence(""));
    assert!(!closes_sentence("   "));
}

fn has_white_space_property(n: u32) -> bool {
    (0x09..=0x0d).contains(&n)
        || n == 0x20
        || n == 0x85
        || n == 0xa0
        || n == 0x1680
        || (0x2000..=0x200a).contains(&n)
        || (0x2028..=0x2029).contains(&n)
        || n == 0x202f
        || n == 0x205f
        || n == 0x3000
}

#[test]
fn trim_takes_away_exactly_the_white_space_characters() {
    for n in 0..=0x10ffff_u32 {
        if let Some(c) = char::from_u32(n) {
            let mut s = String::new();
            s.push(c);
            assert_eq!(trim(&s).is_empty(), has_white_space_property(n), "U+{:04X}", n);
        }
    }
}

#[test]
fn characters_that_look_like_spaces_but_are_none_stay() {
    assert_eq!(trim("\u{200b}x\u{feff}"), "\u{200b}x\u{feff}");
    assert_eq!(trim("\u{180e}x\u{1c}"), "\u{180e}x\u{1c}");
    assert!(!closes_sentence("Done.\u{200b}"));
    assert!(closes_sentence("Done.\u{2003}\u{85}"));
}
