use webserver::decimal::{decimal_chars, parse_number};
use webserver::text::{
    bytes_match_at, chars_match_at, find_bytes, find_chars, rfind_chars, rsplit_once_chars,
    split_chars, split_once_bytes, split_once_chars,
};
use webserver::unicode::{chars_of, decode, str_eq, string_of, trim_chars};

fn chars(s: &str) -> Vec<char> {
    s.chars().collect()
}

fn text(v: &[char]) -> String {
    v.iter().collect()
}

#[test]
fn find_gives_the_leftmost_match() {
    assert_eq!(find_bytes(b"abcabc", b"bc"), Some(1));
    assert_eq!(find_bytes(b"abcabc", b"cb"), None);
    assert_eq!(find_bytes(b"abc", b""), Some(0));
    assert_eq!(find_bytes(b"", b""), Some(0));
    assert_eq!(find_bytes(b"ab", b"abc"), None);
    assert_eq!(find_bytes(b"xxabc", b"abc"), Some(2));
    assert_eq!(find_chars(&chars("héllo wörld"), &chars("ö")), Some(7));
}

#[test]
fn rfind_gives_the_rightmost_match() {
    assert_eq!(rfind_chars(&chars("a b c"), &chars(" ")), Some(3));
    assert_eq!(rfind_chars(&chars("abc"), &chars(" ")), None);
    assert_eq!(rfind_chars(&chars("abc"), &chars("")), Some(3));
    assert_eq!(rfind_chars(&chars("abc"), &chars("abc")), Some(0));
}

#[test]
fn match_at_checks_one_place() {
    assert!(bytes_match_at(b"hello", b"ll", 2));
    assert!(!bytes_match_at(b"hello", b"ll", 3));
    assert!(!bytes_match_at(b"hello", b"lo", 4));
    assert!(bytes_match_at(b"hello", b"", 5));
    assert!(!bytes_match_at(b"hello", b"", 6));
    assert!(chars_match_at(&chars("hello"), &chars("lo"), 3));
}

#[test]
fn split_once_cuts_at_the_first_occurrence() {
    assert_eq!(
        split_once_bytes(b"a\r\nb\r\nc", b"\r\n"),
        Some((b"a".to_vec(), b"b\r\nc".to_vec()))
    );
    assert_eq!(split_once_bytes(b"abc", b"\r\n"), None);
    assert_eq!(
        split_once_chars(&chars("k=v=w"), &chars("=")),
        Some((chars("k"), chars("v=w")))
    );
    assert_eq!(
        rsplit_once_chars(&chars("k=v=w"), &chars("=")),
        Some((chars("k=v"), chars("w")))
    );
    assert_eq!(rsplit_once_chars(&chars("kvw"), &chars("=")), None);
}

#[test]
fn split_gives_the_pieces_between_separators() {
    let pieces = split_chars(&chars("a;b;;c;"), &chars(";"));
    let pieces: Vec<String> = pieces.iter().map(|p| text(p)).collect();
    assert_eq!(pieces, vec!["a", "b", "", "c", ""]);
    let whole = split_chars(&chars("abc"), &chars(";"));
    assert_eq!(whole, vec![chars("abc")]);
    let none = split_chars(&chars(""), &chars(";"));
    assert_eq!(none, vec![chars("")]);
}

#[test]
fn split_agrees_with_the_standard_library() {
    for (s, sep) in [("a, b,c", ", "), ("", ""), ("abc", ""), ("aXbXXc", "XX"), ("XX", "X")] {
        let mine: Vec<String> = split_chars(&chars(s), &chars(sep)).iter().map(|p| text(p)).collect();
        let theirs: Vec<String> = s.split(sep).map(|p| p.to_string()).collect();
        assert_eq!(mine, theirs);
    }
}

#[test]
fn trim_agrees_with_the_standard_library() {
    for s in ["  a b  ", "", "   ", "\r\nx\t", "\u{2003}x\u{a0}", "x", " \u{feff}x "] {
        assert_eq!(text(&trim_chars(&chars(s))), s.trim());
    }
}

#[test]
fn strings_and_characters_convert_both_ways() {
    assert_eq!(chars_of("héllo"), chars("héllo"));
    assert_eq!(string_of(&chars("héllo")), "héllo");
    assert_eq!(chars_of(""), Vec::<char>::new());
    assert!(str_eq("abc", "abc"));
    assert!(!str_eq("abc", "abd"));
    assert!(!str_eq("abc", "ab"));
}

#[test]
fn decode_accepts_well_formed_utf8_only() {
    assert_eq!(decode("héllo".as_bytes().to_vec()), Some("héllo".to_string()));
    assert_eq!(decode(vec![0xff, 0xfe]), None);
    assert_eq!(decode(vec![0xc3]), None);
    assert_eq!(decode(Vec::new()), Some(String::new()));
}

#[test]
fn numbers_parse_as_in_the_standard_library() {
    for s in ["0", "7", "007", "+5", "255", "256", "", "+", "-1", "1 ", " 1", "12a", "++1", "٣"] {
        let mine = parse_number(&chars(s), 255);
        let theirs = s.parse::<u8>().ok().map(|n| n as u64);
        assert_eq!(mine, theirs, "for {:?}", s);
    }
    assert_eq!(parse_number(&chars("18446744073709551615"), u64::MAX), Some(u64::MAX));
    assert_eq!(parse_number(&chars("18446744073709551616"), u64::MAX), None);
    assert_eq!(parse_number(&chars("99999999999999999999999"), u64::MAX), None);
    assert_eq!(parse_number(&chars("10"), 9), None);
    assert_eq!(parse_number(&chars("9"), 9), Some(9));
}

#[test]
fn numbers_are_written_in_decimal() {
    assert_eq!(text(&decimal_chars(0)), "0");
    assert_eq!(text(&decimal_chars(9)), "9");
    assert_eq!(text(&decimal_chars(10)), "10");
    assert_eq!(text(&decimal_chars(188)), "188");
    assert_eq!(text(&decimal_chars(u64::MAX)), "18446744073709551615");
}

#[test]
fn written_numbers_read_back() {
    for n in [0u64, 1, 9, 10, 99, 100, 404, 65535, 4294967296, u64::MAX] {
        assert_eq!(parse_number(&decimal_chars(n), u64::MAX), Some(n));
    }
}
