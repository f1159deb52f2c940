//! Texts and numbers, held against the standard library.
use buzz_relay::decimal::{parse_number, to_decimal};
use buzz_relay::text::{
    has_prefix, has_text, joined, lowercase, same_text, split_at, trimmed, CharClass,
};

#[test]
fn white_space_is_that_of_unicode() {
    for code in 0..=0x10ffffu32 {
        if let Some(c) = char::from_u32(code) {
            assert_eq!(CharClass::Whitespace.contains(c), c.is_whitespace(), "{code:x}");
        }
    }
}

const TEXTS: [&str; 9] = [
    "",
    " ",
    ",",
    "a,b",
    ",a,,b,",
    "  A b\t",
    "\"q\"",
    "\"\"x\" ",
    "\u{2003}Stra\u{df}e \u{c9}\u{85}",
];

#[test]
fn texts_are_split_trimmed_and_lowered_as_in_std() {
    for s in TEXTS {
        let parts: Vec<String> = s.split(',').map(str::to_owned).collect();
        assert_eq!(split_at(s, ','), parts, "{s:?}");
        assert_eq!(joined(&parts, ","), s);
        assert_eq!(trimmed(s, CharClass::Whitespace), s.trim(), "{s:?}");
        assert_eq!(trimmed(s, CharClass::Quote), s.trim_matches('"'), "{s:?}");
        assert_eq!(lowercase(s), s.to_ascii_lowercase(), "{s:?}");
        for t in TEXTS {
            assert_eq!(has_text(s, t), s.contains(t), "{s:?} {t:?}");
            assert_eq!(has_prefix(s, t), s.starts_with(t), "{s:?} {t:?}");
            assert_eq!(same_text(s, t), s == t);
        }
    }
    assert_eq!(joined(&Vec::new(), ", "), "");
}

#[test]
fn numbers_are_read_and_written_as_in_std() {
    for s in [
        "", "+", "-", "0", "+0", "007", "++1", "-1", "1 ", " 1", "1_0", "255", "256", "999",
        "18446744073709551615", "18446744073709551616", "00018446744073709551615",
        "99999999999999999999999", "\u{661}",
    ] {
        assert_eq!(parse_number(s, u64::MAX), s.parse::<u64>().ok(), "{s:?}");
        assert_eq!(
            parse_number(s, 255),
            s.parse::<u8>().ok().map(u64::from),
            "{s:?}"
        );
    }
    for n in [0, 7, 9, 10, 11, 99, 100, 101, 4_000_000_000, u64::MAX] {
        assert_eq!(to_decimal(n), n.to_string());
        assert_eq!(parse_number(&to_decimal(n), u64::MAX), Some(n));
    }
}
