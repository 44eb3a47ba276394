use workshop_timer::number::parse_i64;
use workshop_timer::text::{chars_of, is_white_space, trim_bounds};

#[test]
fn white_space_matches_std_on_every_char() {
    for u in 0u32..=0x10FFFF {
        if let Some(c) = char::from_u32(u) {
            assert_eq!(is_white_space(c), c.is_whitespace(), "char U+{:04X}", u);
        }
    }
}

#[test]
fn trim_matches_std() {
    let cases = [
        "", " ", "  a  ", "\u{3000}x y\u{85}", "abc", "\t\n", " a", "a ", "\u{2028}\u{2029}z\u{205f}",
    ];
    for s in cases {
        let v = chars_of(s);
        let (a, b) = trim_bounds(&v, 0, v.len());
        let got: String = v[a..b].iter().collect();
        assert_eq!(got, s.trim(), "case {:?}", s);
    }
}

#[test]
fn parse_i64_matches_std() {
    let cases = [
        "", "+", "-", "0", "-0", "+0", "42", "-42", "+42", "007", "1a", "a1", " 1", "1 ", "--1", "+-1",
        "9223372036854775807", "9223372036854775808", "-9223372036854775808",
        "-9223372036854775809", "99999999999999999999999", "12345678901234567890",
    ];
    for s in cases {
        let v = chars_of(s);
        assert_eq!(parse_i64(&v, 0, v.len()), s.parse::<i64>().ok(), "case {:?}", s);
    }
}

#[test]
fn chars_of_keeps_order() {
    assert_eq!(chars_of("aé€"), vec!['a', 'é', '€']);
    assert_eq!(chars_of(""), Vec::<char>::new());
}
