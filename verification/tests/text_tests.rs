use cascading_timers::text::{
    chars_of, decimal_string, is_whitespace_char, lower_ascii_chars, parse_u32, split_chars,
    split_words, string_of, trim_chars,
};

fn v(s: &str) -> Vec<char> {
    s.chars().collect()
}

#[test]
fn chars_and_strings_round_trip() {
    let c = chars_of("héllo wörld");
    assert_eq!(c, v("héllo wörld"));
    assert_eq!(string_of(&c), "héllo wörld");
    assert_eq!(string_of(&Vec::new()), "");
}

#[test]
fn whitespace_is_unicode_white_space() {
    for c in [' ', '\t', '\n', '\r', '\u{b}', '\u{c}', '\u{85}', '\u{a0}', '\u{2003}', '\u{3000}'] {
        assert!(is_whitespace_char(c), "{:?}", c);
        assert_eq!(is_whitespace_char(c), c.is_whitespace());
    }
    for c in ['a', '0', ':', '.', '\u{200b}', '\u{180e}'] {
        assert_eq!(is_whitespace_char(c), c.is_whitespace(), "{:?}", c);
    }
}

#[test]
fn trim_matches_str_trim() {
    for s in ["", "   ", "  a b  ", "\u{3000}x\u{a0}", "abc", "\t1:30\n"] {
        assert_eq!(string_of(&trim_chars(&v(s))), s.trim());
    }
}

#[test]
fn ascii_lowercase_only() {
    assert_eq!(string_of(&lower_ascii_chars(&v("1H 30M 5S"))), "1h 30m 5s");
    assert_eq!(string_of(&lower_ascii_chars(&v("ÀB"))), "Àb");
}

#[test]
fn split_on_colon_keeps_empty_pieces() {
    let parts: Vec<String> = split_chars(&v("1::3:"), ':').iter().map(string_of).collect();
    assert_eq!(parts, vec!["1", "", "3", ""]);
    let parts: Vec<String> = split_chars(&v(""), ':').iter().map(string_of).collect();
    assert_eq!(parts, vec![""]);
}

#[test]
fn words_split_like_split_whitespace() {
    for s in ["", "  ", "1h 30m", "  a\tb \n c  ", "x"] {
        let got: Vec<String> = split_words(&v(s)).iter().map(string_of).collect();
        let want: Vec<String> = s.split_whitespace().map(|w| w.to_string()).collect();
        assert_eq!(got, want);
    }
}

#[test]
fn parse_u32_like_std() {
    for s in ["", "+", "+5", "007", "4294967295", "4294967296", "-1", "1a", "12", " 3", "0"] {
        assert_eq!(parse_u32(s), s.parse::<u32>().ok(), "{:?}", s);
    }
}

#[test]
fn decimal_numerals() {
    assert_eq!(decimal_string(0), "0");
    assert_eq!(decimal_string(7), "7");
    assert_eq!(decimal_string(1234567890123), "1234567890123");
    assert_eq!(decimal_string(u64::MAX), u64::MAX.to_string());
}
