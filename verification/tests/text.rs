use quiz_questions::text::{
    char_is_whitespace, char_lowers_to, chars_of, lowered_reads, same_text, split, trim, trim_end,
};

const SAMPLES: [&str; 16] = [
    "",
    " ",
    "a",
    " a",
    "a ",
    "  a b  ",
    "\t\r\n",
    "\u{3000}x\u{a0}",
    "\u{85}\u{1680}y z\u{2000}\u{200a}\u{2028}\u{2029}\u{202f}\u{205f}",
    "\u{200b}zero width\u{200b}",
    "|",
    "a|b",
    "|a||b|",
    "sa| x |Q|A",
    "\u{e9}t\u{e9} | \u{1f600}",
    " \u{b} \u{c} ",
];

#[test]
fn whitespace_is_the_white_space_of_unicode() {
    for code in 0..=0x10ffffu32 {
        if let Some(c) = char::from_u32(code) {
            assert_eq!(char_is_whitespace(c), c.is_whitespace(), "U+{:04X}", code);
        }
    }
}

#[test]
fn whitespace_edges() {
    assert!(char_is_whitespace('\u{9}'));
    assert!(char_is_whitespace('\u{d}'));
    assert!(!char_is_whitespace('\u{8}'));
    assert!(!char_is_whitespace('\u{e}'));
    assert!(char_is_whitespace('\u{2000}'));
    assert!(char_is_whitespace('\u{200a}'));
    assert!(!char_is_whitespace('\u{200b}'));
    assert!(!char_is_whitespace('\u{1fff}'));
}

#[test]
fn chars_of_lists_the_characters() {
    for s in SAMPLES {
        assert_eq!(chars_of(s), s.chars().collect::<Vec<char>>());
    }
}

#[test]
fn trim_takes_whitespace_from_both_ends() {
    assert_eq!(trim("  a b  "), "a b");
    assert_eq!(trim("\t\r\n"), "");
    assert_eq!(trim(""), "");
    assert_eq!(trim("x"), "x");
    for s in SAMPLES {
        assert_eq!(trim(s), s.trim(), "{:?}", s);
    }
}

#[test]
fn trim_end_leaves_the_start() {
    assert_eq!(trim_end("  a b  "), "  a b");
    assert_eq!(trim_end(" "), "");
    for s in SAMPLES {
        assert_eq!(trim_end(s), s.trim_end(), "{:?}", s);
    }
}

#[test]
fn trim_gives_a_trimmed_text() {
    for s in SAMPLES {
        let once = trim(s);
        assert_eq!(trim(once), once);
    }
}

#[test]
fn split_cuts_at_every_separator() {
    assert_eq!(split("", '|'), vec![""]);
    assert_eq!(split("a", '|'), vec!["a"]);
    assert_eq!(split("|", '|'), vec!["", ""]);
    assert_eq!(split("a|b", '|'), vec!["a", "b"]);
    assert_eq!(split("|a||b|", '|'), vec!["", "a", "", "b", ""]);
    for s in SAMPLES {
        assert_eq!(split(s, '|'), s.split('|').collect::<Vec<&str>>(), "{:?}", s);
        assert_eq!(split(s, ' '), s.split(' ').collect::<Vec<&str>>(), "{:?}", s);
    }
}

#[test]
fn split_parts_rejoin_to_the_text() {
    for s in SAMPLES {
        let parts = split(s, '|');
        assert!(!parts.is_empty());
        assert!(parts.iter().all(|part| !part.contains('|')));
        assert_eq!(parts.join("|"), s);
    }
}

#[test]
fn split_undoes_joining() {
    let lists: [&[&str]; 6] = [
        &[""],
        &["a"],
        &["", ""],
        &["sa", " x ", "Q", "A"],
        &["", "a", "", "b", ""],
        &["\u{e9}", " "],
    ];
    for parts in lists {
        assert_eq!(split(&parts.join("|"), '|'), parts.to_vec());
    }
}

#[test]
fn same_text_compares_character_for_character() {
    for a in SAMPLES {
        for b in SAMPLES {
            assert_eq!(same_text(a, b), a == b);
        }
    }
    assert!(!same_text("A", "a"));
    assert!(!same_text("a", "a "));
}

#[test]
fn lowering_folds_ascii_upper_case_only() {
    for code in 0..=0x10ffffu32 {
        if let Some(c) = char::from_u32(code) {
            assert!(char_lowers_to(c, c.to_ascii_lowercase()));
            if c.is_ascii_uppercase() {
                assert!(!char_lowers_to(c, c));
            }
        }
    }
    assert!(char_lowers_to('A', 'a'));
    assert!(char_lowers_to('Z', 'z'));
    assert!(!char_lowers_to('a', 'A'));
    assert!(!char_lowers_to('@', '`'));
    assert!(!char_lowers_to('[', '{'));
    assert!(!char_lowers_to('\u{c9}', '\u{e9}'));
}

#[test]
fn lowered_reads_the_word() {
    let words = ["sa", "SA", "Sa", "sA", "s", "S", "mc", "MC", "m", "sb", "", "sa ", "\u{17f}a"];
    for a in words {
        for word in words {
            let lowered = a.to_ascii_lowercase();
            assert_eq!(lowered_reads(a, word), lowered == word, "{:?} {:?}", a, word);
        }
    }
}
