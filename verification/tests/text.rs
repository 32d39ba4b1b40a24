use discord_issue_bot::number::{parse_number, to_decimal, to_hex, NumberError};
use discord_issue_bot::text::{
    blank, contains, control, count_chars, eq_ignore_ascii_case, exchange, first_chars, join,
    lists, replace, same, split, starts_with, strip_prefixes, strip_trailing, trim, white_space,
};

fn every_char() -> Vec<char> {
    (0..=0x10FFFFu32).filter_map(char::from_u32).collect()
}

#[test]
fn character_classes_are_those_of_std() {
    for c in every_char() {
        assert_eq!(white_space(c), c.is_whitespace(), "{:?}", c);
        assert_eq!(control(c), c.is_control(), "{:?}", c);
    }
}

#[test]
fn trimming_is_that_of_std() {
    for s in ["", " ", " a ", "\u{A0}x y\u{3000}", "a\n", "\t\u{200B}b", "plain"] {
        assert_eq!(trim(s), s.trim());
        assert_eq!(blank(s), s.trim().is_empty());
    }
}

#[test]
fn splitting_and_joining_are_those_of_std() {
    for s in ["", ",", "a,b", ",a,,b,", "no separator", "é,ü"] {
        let want: Vec<String> = s.split(',').map(str::to_owned).collect();
        assert_eq!(split(s, ','), want);
        assert_eq!(join(&want, ", "), want.join(", "));
    }
    assert_eq!(join(&[], ", "), "");
}

#[test]
fn stripping_is_that_of_std() {
    for s in ["", "ababx", "ab", "aab", "x///", "///"] {
        assert_eq!(strip_prefixes(s, "ab"), s.trim_start_matches("ab"));
        assert_eq!(strip_trailing(s, '/'), s.trim_end_matches('/'));
    }
}

#[test]
fn searching_and_replacing_are_those_of_std() {
    for s in ["", "aaa", "aaaa", "baab", "xaay", "ünïaa"] {
        assert_eq!(contains(s, "aa"), s.contains("aa"));
        assert_eq!(starts_with(s, "aa"), s.starts_with("aa"));
        assert_eq!(replace(s, "aa", "[]"), s.replace("aa", "[]"));
        assert_eq!(exchange(s, 'a', 'z'), s.replace('a', "z"));
    }
    assert!(contains("x", ""));
}

#[test]
fn counting_and_cutting_go_by_characters() {
    assert_eq!(count_chars("añb"), 3);
    assert_eq!(first_chars("añb", 2), "añ");
    assert_eq!(first_chars("añb", 9), "añb");
    assert!(same("a", "a") && !same("a", "A"));
    assert!(lists(&["a".to_owned()], "a") && !lists(&["a".to_owned()], "b"));
}

#[test]
fn ascii_case_is_that_of_std() {
    for (a, b) in [("Bug", "bUG"), ("é", "É"), ("a", "ab"), ("[", "{"), ("Z", "z"), ("@", "`")] {
        assert_eq!(eq_ignore_ascii_case(a, b), a.eq_ignore_ascii_case(b), "{a} {b}");
    }
}

#[test]
fn numbers_are_written_as_std_does() {
    for n in [0u64, 7, 10, 99, 255, 65_536, u64::MAX] {
        assert_eq!(to_decimal(n as u128), n.to_string());
        assert_eq!(to_hex(n, 16), format!("{n:016x}"));
    }
    assert_eq!(to_decimal(u128::MAX), u128::MAX.to_string());
}

#[test]
fn numbers_are_read_as_std_does() {
    for s in [
        "", "+", "-", "-1", "0", "+5", "++5", "007", "65535", "65536", "1x", "x1", " 1", "99999999x",
        "18446744073709551615", "18446744073709551616", "١",
    ] {
        let got = parse_number(s, u64::MAX);
        let want = s.parse::<u64>();
        assert_eq!(got.is_ok(), want.is_ok(), "{s}");
        match (got, want) {
            (Ok(a), Ok(b)) => assert_eq!(a, b),
            (Err(a), Err(b)) => assert_eq!(a.message(), b.to_string(), "{s}"),
            _ => unreachable!(),
        }
        let got = parse_number(s, u16::MAX as u64);
        let want = s.parse::<u16>();
        match (got, want) {
            (Ok(a), Ok(b)) => assert_eq!(a, b as u64),
            (Err(a), Err(b)) => assert_eq!(a.message(), b.to_string(), "{s}"),
            _ => panic!("{s}"),
        }
    }
    assert_eq!(parse_number("11", 10), Err(NumberError::TooLarge));
}
