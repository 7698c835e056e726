use keychainctl::lexical::{rank, Rank};
use keychainctl::text::{
    blank, contains, split_lines, strip_line_end, to_chars, to_text, trim, CharClass,
};

fn chars(s: &str) -> Vec<char> {
    s.chars().collect()
}

#[test]
fn chars_and_text_convert_both_ways() {
    assert_eq!(to_chars("a\u{e9}\tz"), vec!['a', '\u{e9}', '\t', 'z']);
    assert_eq!(to_text(&['p', 'w', '1']), "pw1");
    assert_eq!(to_text(&to_chars("caf\u{e9} \u{1f511}")), "caf\u{e9} \u{1f511}");
    assert_eq!(to_chars(""), Vec::<char>::new());
}

#[test]
fn trim_cuts_white_space_at_both_ends_only() {
    assert_eq!(trim("  a b\t\n"), "a b");
    assert_eq!(trim("\u{a0}\u{2003}x\u{3000}"), "x");
    assert_eq!(trim("   "), "");
    assert_eq!(trim(""), "");
    assert_eq!(trim("a"), "a");
}

#[test]
fn trim_agrees_with_std_on_every_white_space_character() {
    for n in 0u32..0x3100 {
        if let Some(c) = char::from_u32(n) {
            assert_eq!(CharClass::Space.contains(c), c.is_whitespace(), "U+{:04X}", n);
        }
    }
}

#[test]
fn line_end_class_is_line_feed_and_carriage_return() {
    assert!(CharClass::LineEnd.contains('\n'));
    assert!(CharClass::LineEnd.contains('\r'));
    assert!(!CharClass::LineEnd.contains(' '));
    assert!(!CharClass::LineEnd.contains('\t'));
}

#[test]
fn strip_line_end_keeps_inner_and_trailing_blanks() {
    assert_eq!(strip_line_end("hunter2\n"), "hunter2");
    assert_eq!(strip_line_end("a b\tc \r\n\n"), "a b\tc ");
    assert_eq!(strip_line_end("\n"), "");
    assert_eq!(strip_line_end("x\ny"), "x\ny");
    assert_eq!(strip_line_end(" lead"), " lead");
}

#[test]
fn blank_means_white_space_only() {
    assert!(blank(""));
    assert!(blank(" \t\r\n"));
    assert!(!blank(" a "));
}

#[test]
fn contains_finds_a_run_of_characters() {
    assert!(contains("The item could not be found in the keychain.", "could not be found"));
    assert!(contains("could not be found", "could not be found"));
    assert!(contains("abc", ""));
    assert!(contains("", ""));
    assert!(!contains("could not be foun", "could not be found"));
    assert!(!contains("", "x"));
    assert!(!contains("could not  be found", "could not be found"));
    assert!(contains("aab", "ab"));
}

#[test]
fn split_lines_splits_at_line_feeds() {
    assert_eq!(split_lines(&chars("a\nb")), vec![chars("a"), chars("b")]);
    assert_eq!(split_lines(&chars("a\n")), vec![chars("a"), chars("")]);
    assert_eq!(split_lines(&chars("")), vec![chars("")]);
    assert_eq!(split_lines(&chars("\n\nx\r\n")), vec![chars(""), chars(""), chars("x\r"), chars("")]);
}

#[test]
fn rank_orders_texts_as_strings_are_ordered() {
    let words = ["", "a", "ab", "b", "B", "a\tb", "\u{e9}", "z", "zz", "\u{1f511}"];
    for x in words {
        for y in words {
            let want = match x.cmp(y) {
                std::cmp::Ordering::Less => Rank::Before,
                std::cmp::Ordering::Equal => Rank::Same,
                std::cmp::Ordering::Greater => Rank::After,
            };
            assert_eq!(rank(&chars(x), &chars(y)), want, "{:?} {:?}", x, y);
        }
    }
}
