use xplatform_memory::geometry::{geometry_fields, value_of};
use xplatform_memory::numparse::{parse_hex, parse_i32};
use xplatform_memory::text::{
    contains, eq_ignore_ascii_case, split_any, split_lines, split_words, starts_with, trim_from,
};

fn cs(s: &str) -> Vec<char> {
    s.chars().collect()
}

fn strings(v: Vec<Vec<char>>) -> Vec<String> {
    v.into_iter().map(|w| w.into_iter().collect()).collect()
}

#[test]
fn words_match_split_whitespace() {
    for s in ["", "  a  b\tc\n", "x\u{3000}y\u{85}z", "one", "\u{a0}\u{2009}"] {
        let expected: Vec<String> = s.split_whitespace().map(|w| w.to_string()).collect();
        assert_eq!(strings(split_words(&cs(s))), expected);
    }
}

#[test]
fn split_keeps_empty_pieces() {
    assert_eq!(strings(split_any(&cs("-a--b-"), &cs("-"))), vec!["", "a", "", "b", ""]);
    assert_eq!(strings(split_any(&cs(""), &cs("-"))), vec![""]);
    assert_eq!(strings(split_any(&cs("C:\\x/y"), &cs("/\\"))), vec!["C:", "x", "y"]);
}

#[test]
fn lines_match_str_lines() {
    for s in ["", "\n", "a", "a\n", "a\r\nb", "foo\nbar\n\r\nbaz\r", "\n\nx\r\r\n"] {
        let expected: Vec<String> = s.lines().map(|l| l.to_string()).collect();
        assert_eq!(strings(split_lines(&cs(s))), expected, "{:?}", s);
    }
}

#[test]
fn contains_and_starts_with() {
    assert!(contains(&cs("/usr/lib/game.so"), &cs("game")));
    assert!(contains(&cs("abc"), &cs("")));
    assert!(!contains(&cs("ab"), &cs("abc")));
    assert!(contains(&cs("abc"), &cs("abc")));
    assert!(starts_with(&cs("r-xp"), &cs("r-x")));
    assert!(!starts_with(&cs("rw-p"), &cs("r-x")));
}

#[test]
fn ascii_case_is_ignored_and_other_case_is_not() {
    assert!(eq_ignore_ascii_case(&cs("TFOC.exe"), &cs("tfoc.EXE")));
    assert!(!eq_ignore_ascii_case(&cs("Ä"), &cs("ä")));
    assert!(!eq_ignore_ascii_case(&cs("ab"), &cs("abc")));
}

#[test]
fn trim_matches_str_trim() {
    for s in ["", "  ", " a b ", "\u{3000}x\t", "xy"] {
        let got: String = trim_from(&cs(s), 0).into_iter().collect();
        assert_eq!(got, s.trim());
    }
    let got: String = trim_from(&cs("WIDTH= 800 "), 6).into_iter().collect();
    assert_eq!(got, "800");
}

#[test]
fn hex_and_decimal_reading_follow_from_str_radix() {
    assert_eq!(parse_hex(&cs("7f0000000000"), u64::MAX), Some(0x7f00_0000_0000));
    assert_eq!(parse_hex(&cs("+FF"), 255), Some(255));
    assert_eq!(parse_hex(&cs("100"), 255), None);
    assert_eq!(parse_hex(&cs("-1"), 255), None);
    assert_eq!(parse_hex(&cs("+"), 255), None);
    assert_eq!(parse_hex(&cs(""), 255), None);
    assert_eq!(parse_hex(&cs("0000000000000000000001"), 255), Some(1));
    assert_eq!(parse_hex(&cs("10000000000000000"), u64::MAX), None);
    assert_eq!(parse_i32(&cs("-2147483648")), Some(i32::MIN));
    assert_eq!(parse_i32(&cs("-2147483649")), None);
    assert_eq!(parse_i32(&cs("2147483647")), Some(i32::MAX));
    assert_eq!(parse_i32(&cs("2147483648")), None);
    assert_eq!(parse_i32(&cs("-")), None);
    assert_eq!(parse_i32(&cs("12a")), None);
    assert_eq!(parse_i32(&cs("+0")), Some(0));
}

#[test]
fn geometry_takes_the_last_value_of_each_field() {
    let text = "WINDOW=123\nWIDTH=1280\nHEIGHT= 720 \nWIDTH=1920\nSCREEN=0\n";
    let (w, h) = geometry_fields(text);
    assert_eq!(w.map(|v| v.into_iter().collect::<String>()), Some("1920".to_string()));
    assert_eq!(h.map(|v| v.into_iter().collect::<String>()), Some("720".to_string()));
    let (w, h) = geometry_fields("nothing here");
    assert!(w.is_none() && h.is_none());
    assert_eq!(value_of("KEY=\n", "KEY=").map(|v| v.len()), Some(0));
}
