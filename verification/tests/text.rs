use pcp_parser::text::{
    char_ascii_lower, chars_of, has_prefix, range_is, range_is_ignore_ascii_case, skip_class,
    split_ranges, string_of, strip_range, unquote_range, CharClass,
};

const SAMPLES: [&str; 24] = [
    "",
    ",",
    ",,",
    "a",
    "a,b",
    "a,,b,",
    ",a",
    " a , b ",
    "\"x\",\"y\"",
    "\"\"x\"\"",
    " \" x \" ",
    "\"",
    "\"\"",
    "\t\r\n",
    "\u{a0}a\u{3000}",
    "\u{200b}a\u{200b}",
    "\u{85}\u{1680}b\u{2028}\u{2029}\u{202f}\u{205f}",
    "é,ü,漢字",
    "a\"b",
    "\" \"a\" \"",
    "2024-01-01 00:00:01,1,2",
    " , ",
    "\"a\", \"b\" ,\"c\"",
    "x\u{2000}\u{200a}",
];

fn cut(text: &str, range: (usize, usize)) -> String {
    let chars: Vec<char> = text.chars().collect();
    chars[range.0..range.1].iter().collect()
}

#[test]
fn chars_and_strings_convert_both_ways() {
    for text in SAMPLES {
        let chars = chars_of(text);
        assert_eq!(chars, text.chars().collect::<Vec<char>>());
        assert_eq!(string_of(&chars, 0, chars.len()), text);
    }
    let chars = chars_of("héllo");
    assert_eq!(string_of(&chars, 1, 4), "éll");
    assert_eq!(string_of(&chars, 2, 2), "");
}

#[test]
fn split_cuts_at_every_delimiter() {
    for text in SAMPLES {
        let chars = chars_of(text);
        let pieces: Vec<String> =
            split_ranges(&chars, ',').into_iter().map(|r| cut(text, r)).collect();
        let expected: Vec<String> = text.split(',').map(|s| s.to_string()).collect();
        assert_eq!(pieces, expected, "{:?}", text);
    }
    let chars = chars_of("a\nb\n");
    assert_eq!(split_ranges(&chars, '\n'), vec![(0, 1), (2, 3), (4, 4)]);
    assert_eq!(split_ranges(&[], ','), vec![(0, 0)]);
}

#[test]
fn strip_takes_the_class_off_both_ends() {
    for text in SAMPLES {
        let chars = chars_of(text);
        let trimmed = strip_range(&chars, 0, chars.len(), CharClass::Whitespace);
        assert_eq!(cut(text, trimmed), text.trim(), "{:?}", text);
        let bare = strip_range(&chars, 0, chars.len(), CharClass::Quote);
        assert_eq!(cut(text, bare), text.trim_matches('"'), "{:?}", text);
        let digits = strip_range(&chars, 0, chars.len(), CharClass::Digit);
        assert_eq!(cut(text, digits), text.trim_matches(|c: char| c.is_ascii_digit()), "{:?}", text);
        let cell = unquote_range(&chars, 0, chars.len());
        assert_eq!(cut(text, cell), text.trim().trim_matches('"'), "{:?}", text);
    }
    let chars = chars_of("  ab  ");
    assert_eq!(strip_range(&chars, 1, 5, CharClass::Whitespace), (2, 4));
    assert_eq!(strip_range(&chars, 0, 2, CharClass::Whitespace), (2, 2));
    assert_eq!(skip_class(&chars, 0, 6, CharClass::Whitespace), 2);
    assert_eq!(skip_class(&chars, 2, 6, CharClass::Whitespace), 2);
    let chars = chars_of("123a");
    assert_eq!(skip_class(&chars, 0, 4, CharClass::Digit), 3);
    assert_eq!(skip_class(&chars, 0, 2, CharClass::Digit), 2);
}

#[test]
fn ranges_are_compared_with_literals() {
    let chars = chars_of("xxNoNeyy");
    assert!(range_is(&chars, 2, 6, "NoNe"));
    assert!(!range_is(&chars, 2, 6, "none"));
    assert!(!range_is(&chars, 2, 5, "NoNe"));
    assert!(!range_is(&chars, 2, 7, "NoNe"));
    assert!(range_is(&chars, 3, 3, ""));
    assert!(!range_is(&chars, 3, 4, ""));
    assert!(range_is_ignore_ascii_case(&chars, 2, 6, "none"));
    assert!(range_is_ignore_ascii_case(&chars, 2, 6, "NONE"));
    assert!(!range_is_ignore_ascii_case(&chars, 2, 6, "nine"));
    assert!(!range_is_ignore_ascii_case(&chars, 2, 5, "none"));
    assert!(!range_is_ignore_ascii_case(&chars, 1, 6, "none"));
    for (a, b) in [("É", "é"), ("K", "\u{212a}"), ("ss", "ß"), ("[", "{"), ("@", "`"), ("Z", "z")] {
        let chars = chars_of(a);
        assert_eq!(
            range_is_ignore_ascii_case(&chars, 0, chars.len(), b),
            a.eq_ignore_ascii_case(b),
            "{:?} {:?}",
            a,
            b
        );
    }
}

#[test]
fn ascii_lower_changes_only_ascii_capitals() {
    for code in 0..=0x10FFFFu32 {
        if let Some(c) = char::from_u32(code) {
            assert_eq!(char_ascii_lower(c), c.to_ascii_lowercase() as u32);
        }
    }
}

#[test]
fn prefixes_are_found_at_the_front_only() {
    let cases = [
        ("proc.nprocs", "proc.", true),
        ("proc", "proc.", false),
        ("", "proc.", false),
        ("", "", true),
        ("x", "", true),
        ("xproc.", "proc.", false),
        ("Proc.x", "proc.", false),
        ("proc.", "proc.", true),
        ("filesys.x", "files", true),
        ("é.x", "é.", true),
    ];
    for (text, prefix, expected) in cases {
        assert_eq!(has_prefix(&chars_of(text), prefix), expected, "{:?} {:?}", text, prefix);
        assert_eq!(text.starts_with(prefix), expected);
    }
}
