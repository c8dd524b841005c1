use mywifistats::number::{decimal_of, parse_i32, parse_u32, parse_u64, signed_decimal_of};
use mywifistats::text;

const SAMPLES: [&str; 12] = [
    "",
    " ",
    "a",
    " a b ",
    "x\ny\r\nz\r",
    "\n\n",
    "aXbXc",
    "XX",
    "\u{2003}é\u{a0}ß ",
    "one two\tthree",
    "a\r\n",
    "AbC dEf",
];

#[test]
fn texts_agree_with_std() {
    for s in SAMPLES {
        assert_eq!(text::trim_str(s), s.trim());
        assert_eq!(text::lines_of(s), s.lines().collect::<Vec<_>>());
        assert_eq!(text::words_of(s), s.split_whitespace().collect::<Vec<_>>());
        assert_eq!(text::lower_str(s), s.to_ascii_lowercase());
        assert_eq!(text::split_str(s, "X"), s.split("X").collect::<Vec<_>>());
        assert_eq!(text::replace_str(s, "X", "yy"), s.replace("X", "yy"));
        assert_eq!(text::trim_end_char_of(s, 'X'), s.trim_end_matches('X'));
        assert_eq!(text::pad(s, 8), format!("{s:<8}"));
        for p in SAMPLES {
            assert_eq!(text::contains_str(s, p), s.contains(p));
            assert_eq!(text::starts_with_str(s, p), s.starts_with(p));
            assert_eq!(text::ends_with_str(s, p), s.ends_with(p));
            assert_eq!(text::same_text(s, p), s == p);
            assert_eq!(text::strip_prefix_str(s, p).as_deref(), s.strip_prefix(p));
            let at = s.find(p);
            assert_eq!(text::until_str(s, p).as_deref(), at.map(|i| &s[..i]));
            assert_eq!(text::starting_at_str(s, p).as_deref(), at.map(|i| &s[i..]));
            assert_eq!(text::behind_str(s, p).as_deref(), at.map(|i| &s[i + p.len()..]));
        }
    }
    let parts = vec!["a".to_owned(), "".to_owned(), "b".to_owned()];
    assert_eq!(text::join_all(&parts, ", "), "a, , b");
    assert_eq!(text::join_all(&Vec::new(), ", "), "");
}

#[test]
fn numbers_agree_with_std() {
    let cases = [
        "", "0", "7", "+7", "-7", "-", "+", "007", "4294967295", "4294967296", "2147483647",
        "2147483648", "-2147483648", "-2147483649", "18446744073709551615", "18446744073709551616",
        "1 ", " 1", "1.0", "x", "٣", "99999999999999999999999999",
    ];
    for c in cases {
        assert_eq!(parse_u64(c), c.parse::<u64>().ok(), "{c}");
        assert_eq!(parse_u32(c), c.parse::<u32>().ok(), "{c}");
        assert_eq!(parse_i32(c), c.parse::<i32>().ok(), "{c}");
    }
    for n in [0, 9, 10, 99, 100, u64::MAX] {
        assert_eq!(decimal_of(n), n.to_string());
        assert_eq!(parse_u64(&decimal_of(n)), Some(n));
    }
    for n in [0, -1, 1, i32::MIN, i32::MAX] {
        assert_eq!(signed_decimal_of(n), n.to_string());
    }
}
