use firm_mesh::chars::{
    after_first_char, chars_of, contains_chars, is_whitespace, join_lines_chars, split_on_char,
    string_from_chars, trim_chars,
};
use firm_mesh::decimal::{decimal_chars, parse_u16_chars, parse_u32_chars, parse_u32_or_zero_chars};

fn c(s: &str) -> Vec<char> {
    s.chars().collect()
}

#[test]
fn parse_like_str_parse() {
    for s in ["0", "7", "+7", "007", "4294967295", "", "+", "-1", "1 ", " 1", "12a", "4294967296", "٣"] {
        assert_eq!(parse_u32_chars(&c(s)), s.parse::<u32>().ok(), "{s:?}");
        assert_eq!(parse_u16_chars(&c(s)), s.parse::<u16>().ok(), "{s:?}");
    }
    assert_eq!(parse_u16_chars(&c("65535")), Some(65535));
    assert_eq!(parse_u16_chars(&c("65536")), None);
    assert_eq!(parse_u32_or_zero_chars(&c("x")), 0);
    assert_eq!(parse_u32_or_zero_chars(&c("12")), 12);
}

#[test]
fn decimal_round_trip() {
    for n in [0u64, 9, 10, 99, 100, 4294967295, u64::MAX] {
        let d: String = decimal_chars(n).into_iter().collect();
        assert_eq!(d, n.to_string());
        if n <= u32::MAX as u64 {
            assert_eq!(parse_u32_chars(&decimal_chars(n)), Some(n as u32));
        }
    }
}

#[test]
fn split_like_str_split() {
    for s in ["", "a", "a\tb", "\t", "a\t\tb\t", "é\tü"] {
        let got: Vec<String> = split_on_char(&c(s), '\t').into_iter().map(|v| v.into_iter().collect()).collect();
        let want: Vec<String> = s.split('\t').map(|x| x.to_string()).collect();
        assert_eq!(got, want);
    }
}

#[test]
fn trim_and_split_once() {
    for s in ["", "  ", " a b ", "\u{2003}x\u{3000}", "\n\tq\r"] {
        let got: String = trim_chars(&c(s)).into_iter().collect();
        assert_eq!(got, s.trim());
    }
    assert!(is_whitespace('\u{85}'));
    assert!(!is_whitespace('x'));
    for s in ["a:b", "no", ":", "a:b:c", ""] {
        let got: Option<String> = after_first_char(&c(s), ':').map(|v| v.into_iter().collect());
        assert_eq!(got, s.split_once(':').map(|(_, b)| b.to_string()));
    }
}

#[test]
fn contains_like_str_contains() {
    for (s, w) in [("Sello", "ell"), ("Sello", "Sello"), ("Sello", "sello"), ("", ""), ("ab", ""), ("a", "ab"), ("ééx", "éx")] {
        assert_eq!(contains_chars(&c(s), &c(w)), s.contains(w), "{s:?} {w:?}");
    }
}

#[test]
fn strings_and_lines() {
    assert_eq!(chars_of("héllo"), c("héllo"));
    assert_eq!(string_from_chars(&c("héllo")), "héllo");
    let lines = vec![c("a"), c(""), c("b")];
    let joined: String = join_lines_chars(&lines).into_iter().collect();
    assert_eq!(joined, "a\n\nb");
    assert!(join_lines_chars(&vec![]).is_empty());
}
