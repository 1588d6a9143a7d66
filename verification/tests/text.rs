use matching_engine::text::{
    append_decimal, chars_of, is_whitespace, parse_number, split_words,
};

fn chars(s: &str) -> Vec<char> {
    s.chars().collect()
}

#[test]
fn white_space_is_what_unicode_says() {
    for code in 0..=0x10FFFFu32 {
        if let Some(c) = char::from_u32(code) {
            assert_eq!(is_whitespace(c), c.is_whitespace(), "U+{code:04X}");
        }
    }
}

#[test]
fn chars_of_keeps_every_character() {
    assert_eq!(chars_of(""), vec![]);
    assert_eq!(chars_of("a b"), vec!['a', ' ', 'b']);
    assert_eq!(chars_of("\u{e9}\u{4e16}\u{1f600}"), vec!['\u{e9}', '\u{4e16}', '\u{1f600}']);
}

#[test]
fn split_words_finds_the_runs_without_white_space() {
    assert_eq!(split_words(&chars("")), Vec::<Vec<char>>::new());
    assert_eq!(split_words(&chars(" \t\n")), Vec::<Vec<char>>::new());
    assert_eq!(split_words(&chars("one")), vec![chars("one")]);
    assert_eq!(
        split_words(&chars("  one two\t\tthree\n")),
        vec![chars("one"), chars("two"), chars("three")]
    );
    assert_eq!(split_words(&chars("a\u{2028}b")), vec![chars("a"), chars("b")]);
    assert_eq!(split_words(&chars("a\u{200b}b")), vec![chars("a\u{200b}b")]);
}

#[test]
fn split_words_agrees_with_split_whitespace() {
    for line in ["1: Buy 5 BTC @ 100 USD", " x  y ", "\u{3000}a\u{85}b\u{a0}", "no-space", "tail "] {
        let expected: Vec<Vec<char>> = line.split_whitespace().map(chars).collect();
        assert_eq!(split_words(&chars(line)), expected, "{line}");
    }
}

#[test]
fn parse_number_reads_decimal_digits() {
    assert_eq!(parse_number(&chars("0"), 10), Some(0));
    assert_eq!(parse_number(&chars("7"), 10), Some(7));
    assert_eq!(parse_number(&chars("10"), 10), Some(10));
    assert_eq!(parse_number(&chars("11"), 10), None);
    assert_eq!(parse_number(&chars("+10"), 10), Some(10));
    assert_eq!(parse_number(&chars("0010"), 10), Some(10));
    assert_eq!(parse_number(&chars("1234567890"), u64::MAX), Some(1234567890));
    assert_eq!(parse_number(&chars("18446744073709551615"), u64::MAX), Some(u64::MAX));
    assert_eq!(parse_number(&chars("18446744073709551616"), u64::MAX), None);
    assert_eq!(parse_number(&chars("0"), 0), Some(0));
    assert_eq!(parse_number(&chars("1"), 0), None);
}

#[test]
fn parse_number_refuses_what_is_no_number() {
    for word in ["", "+", "-", "-0", "+-1", "1 ", " 1", "1a", "a1", "1.5", "\u{ff11}"] {
        assert_eq!(parse_number(&chars(word), u64::MAX), None, "{word:?}");
    }
}

#[test]
fn parse_number_agrees_with_the_standard_parser() {
    for word in ["0", "42", "+42", "042", "4294967295", "4294967296", "", "+", "-1", "4 2", "99999999999"] {
        assert_eq!(
            parse_number(&chars(word), u32::MAX as u64),
            word.parse::<u32>().ok().map(u64::from),
            "{word:?}"
        );
    }
}

#[test]
fn append_decimal_writes_behind_what_is_there() {
    let mut out = String::from("n=");
    append_decimal(&mut out, 0);
    assert_eq!(out, "n=0");
    append_decimal(&mut out, 907);
    assert_eq!(out, "n=0907");
    let mut out = String::new();
    append_decimal(&mut out, u64::MAX);
    assert_eq!(out, "18446744073709551615");
}

#[test]
fn what_is_written_reads_back() {
    for n in [0u64, 1, 9, 10, 11, 99, 100, 101, 65535, 4294967295, u64::MAX] {
        let mut out = String::new();
        append_decimal(&mut out, n);
        assert_eq!(out, n.to_string());
        assert_eq!(parse_number(&chars(&out), u64::MAX), Some(n));
    }
}
