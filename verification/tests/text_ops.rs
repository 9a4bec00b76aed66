use lib::text::{
    decimal_chars, join_columns, pad_right_chars, parse_u32, parse_unsigned, same_text,
    split_columns, trim_chars, white_space,
};

fn chars(s: &str) -> Vec<char> {
    s.chars().collect()
}

fn string(v: &[char]) -> String {
    v.iter().collect()
}

#[test]
fn trim_matches_std_trim() {
    let samples = [
        "",
        "   ",
        "abc",
        "  abc  ",
        "\tabc\n",
        "a b",
        "\u{a0}x\u{3000}",
        "\u{2028}\u{85}y z\u{205f}",
        " \u{200b}q ",
        "line\r\n",
    ];
    for s in samples.iter() {
        assert_eq!(string(&trim_chars(&chars(s))), s.trim());
    }
}

#[test]
fn trim_twice_is_trim_once() {
    let s = chars("  \t hello world \n");
    let once = trim_chars(&s);
    let twice = trim_chars(&once);
    assert_eq!(once, twice);
    assert_eq!(string(&once), "hello world");
}

#[test]
fn white_space_matches_std() {
    for code in 0u32..0x3100 {
        if let Some(c) = char::from_u32(code) {
            assert_eq!(white_space(c), c.is_whitespace(), "code point {:x}", code);
        }
    }
}

#[test]
fn split_matches_std_split() {
    let samples = ["", ",", "a", "a,b", "a,,b", "1,10:00,Buy milk,alice, in progress", ",x,"];
    for s in samples.iter() {
        let cols: Vec<String> = split_columns(&chars(s)).iter().map(|c| string(c)).collect();
        let expected: Vec<String> = s.split(',').map(|c| c.to_string()).collect();
        assert_eq!(cols, expected);
    }
}

#[test]
fn join_gives_back_the_line() {
    let line = chars("3,a b ,, c");
    let cols = split_columns(&line);
    assert_eq!(cols.len(), 4);
    assert_eq!(join_columns(&cols), line);
}

#[test]
fn join_puts_commas_between_columns() {
    let cols = vec![chars("1"), chars("bob"), chars("")];
    assert_eq!(string(&join_columns(&cols)), "1,bob,");
    let none: Vec<Vec<char>> = Vec::new();
    assert_eq!(join_columns(&none), Vec::<char>::new());
}

#[test]
fn parse_matches_std_parse() {
    let samples = [
        "0", "42", "+7", "", "+", "-1", "-0", " 1", "1 ", "007", "4294967295", "4294967296",
        "99999999999999999999", "12a", "++1", "٣",
    ];
    for s in samples.iter() {
        assert_eq!(parse_u32(&chars(s)), s.parse::<u32>().ok(), "input {:?}", s);
    }
}

#[test]
fn parse_respects_the_limit() {
    assert_eq!(parse_unsigned(&chars("255"), 255), Some(255));
    assert_eq!(parse_unsigned(&chars("256"), 255), None);
    assert_eq!(parse_unsigned(&chars("18446744073709551615"), u64::MAX), Some(u64::MAX));
    assert_eq!(parse_unsigned(&chars("18446744073709551616"), u64::MAX), None);
}

#[test]
fn decimal_matches_format() {
    for n in [0u64, 7, 10, 99, 120, 4294967295, u64::MAX].iter() {
        assert_eq!(string(&decimal_chars(*n)), format!("{}", n));
    }
}

#[test]
fn decimal_reads_back() {
    for n in [0u64, 1, 58, 1000, 4294967295].iter() {
        assert_eq!(parse_unsigned(&decimal_chars(*n), u64::MAX), Some(*n));
    }
}

#[test]
fn padding_matches_format_width() {
    assert_eq!(string(&pad_right_chars(&chars("12"), 6)), format!("{:<6}", "12"));
    assert_eq!(string(&pad_right_chars(&chars("10:00"), 8)), format!("{:<8}", "10:00"));
    assert_eq!(string(&pad_right_chars(&chars("longer than eight"), 8)), "longer than eight");
    assert_eq!(string(&pad_right_chars(&chars("час"), 8)), format!("{:<8}", "час"));
}

#[test]
fn same_text_compares() {
    assert!(same_text(&chars("abc"), &chars("abc")));
    assert!(!same_text(&chars("abc"), &chars("abd")));
    assert!(!same_text(&chars("abc"), &chars("ab")));
}
