//! Operations on texts agree with those of the standard library.

use saw_spec_gen::text::{
    all_chars, contains, ends_with, find_chars, from_chars, join, last_position, lines,
    numeral, occurs_at, parse_bounded, position, put_int, replace, retreat_chars, same, seek_chars,
    skip_chars, split, split_on, split_once, split_whitespace, starts_with, strip_prefix,
    strip_prefixes, strip_suffix, to_chars, trim, trim_end, trim_start, CharSet,
};

const TEXTS: [&str; 12] = [
    "",
    " ",
    "a",
    "aaa",
    "ab, ab, b",
    "  x\ty \n",
    "line\r\nnext\n\nlast",
    "line\r",
    "\u{a0}é\u{3000}\u{2028}z\u{85}",
    "->a -> b->",
    "a\u{200b}b",
    "+12",
];

const PATTERNS: [&str; 7] = ["a", "ab", "->", ", ", "é", "aa", "\n"];

#[test]
fn searches_agree() {
    for s in TEXTS {
        for p in PATTERNS {
            assert_eq!(contains(s, p), s.contains(p));
            assert_eq!(starts_with(s, p), s.starts_with(p));
            assert_eq!(ends_with(s, p), s.ends_with(p));
            assert_eq!(strip_prefix(s, p), s.strip_prefix(p));
            assert_eq!(strip_suffix(s, p), s.strip_suffix(p));
            assert_eq!(split_once(s, p), s.split_once(p));
            assert_eq!(split_on(s, p), s.split(p).collect::<Vec<_>>());
            assert_eq!(replace(s, p, "+"), s.replace(p, "+"));
            assert_eq!(strip_prefixes(s, p), s.trim_start_matches(p));
            let chars = |i: usize| s[..i].chars().count();
            assert_eq!(position(s, p), s.find(p).map(chars));
            assert_eq!(last_position(s, p), s.rfind(p).map(chars));
            assert_eq!(same(s, p), s == p);
        }
    }
}

#[test]
fn trims_and_splits_agree() {
    for s in TEXTS {
        assert_eq!(trim(s), s.trim());
        assert_eq!(trim_start(s, CharSet::Space), s.trim_start());
        assert_eq!(trim_end(s, CharSet::Space), s.trim_end());
        assert_eq!(
            split_whitespace(s),
            s.split_whitespace().collect::<Vec<_>>()
        );
        assert_eq!(lines(s), s.lines().collect::<Vec<_>>());
        assert_eq!(
            split(s, CharSet::Is(',')),
            s.split(',').collect::<Vec<_>>()
        );
        assert_eq!(
            trim_end(s, CharSet::Either('b', ',')),
            s.trim_end_matches(['b', ','])
        );
        assert_eq!(
            trim_start(s, CharSet::SpaceOr('-')),
            s.trim_start_matches(|c: char| c.is_whitespace() || c == '-')
        );
        assert_eq!(
            all_chars(s, CharSet::Word),
            s.chars().all(|c| c.is_ascii_alphanumeric() || c == '_')
        );
        assert_eq!(
            all_chars(s, CharSet::Digit),
            s.chars().all(|c| c.is_ascii_digit())
        );
        assert_eq!(
            all_chars(s, CharSet::AnyOf('a', 'b', '+')),
            s.chars().all(|c| "ab+".contains(c))
        );
    }
}

#[test]
fn every_white_space_character_is_known() {
    for n in 0..=0x10ffffu32 {
        if let Some(c) = char::from_u32(n) {
            assert_eq!(CharSet::Space.holds(c), c.is_whitespace(), "{n:x}");
        }
    }
}

#[test]
fn characters_are_found_by_place() {
    let s = to_chars("a, b, c");
    let p = to_chars(", ");
    assert!(occurs_at(&s, &p, 4));
    assert!(!occurs_at(&s, &p, 5));
    assert_eq!(find_chars(&s, &p, 2), Some(4));
    assert_eq!(find_chars(&s, &p, 5), None);
    assert_eq!(seek_chars(&s, CharSet::Is('b'), 0), 3);
    assert_eq!(skip_chars(&s, CharSet::SpaceOr(','), 1), 3);
    assert_eq!(retreat_chars(&s, CharSet::SpaceOr(','), 6), 4);
    assert_eq!(from_chars(&s, 3, 6), "b, ");
}

#[test]
fn numerals_agree() {
    for n in [0u128, 7, 10, 4294967296, u128::MAX] {
        assert_eq!(numeral(n), n.to_string());
    }
    for n in [0i128, -1, 42, i128::MAX, i128::MIN] {
        let mut s = String::from("=");
        put_int(&mut s, n);
        assert_eq!(s, format!("={n}"));
    }
    for s in ["", "+", "0", "007", "+12", "-1", "1 ", "256", "4294967295", "99999999999999999999"] {
        assert_eq!(parse_bounded(s, 255).map(|n| n as u8), s.parse::<u8>().ok());
        assert_eq!(parse_bounded(s, u64::MAX), s.parse::<u64>().ok());
    }
}

#[test]
fn lists_are_joined() {
    let v = |a: &[&str]| a.iter().map(|s| s.to_string()).collect::<Vec<_>>();
    assert_eq!(join(&v(&[]), ", "), "");
    assert_eq!(join(&v(&["a"]), ", "), "a");
    assert_eq!(join(&v(&["a", "b", ""]), ", "), "a, b, ");
}
