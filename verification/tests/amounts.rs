use mywifistats::model::{format_bytes, format_bps, format_duration, normalize_mac};
use mywifistats::text::is_white_char;

#[test]
fn white_space_is_that_of_unicode() {
    let mut code: u32 = 0;
    while code <= 0x10ffff {
        if let Some(c) = char::from_u32(code) {
            assert_eq!(is_white_char(c), c.is_whitespace());
        }
        code += 1;
    }
}

fn reference_bytes(n: u64) -> String {
    let units = ["B", "KiB", "MiB", "GiB", "TiB"];
    let mut v = n as f64;
    let mut i = 0;
    while v >= 1024.0 && i < units.len() - 1 {
        v /= 1024.0;
        i += 1;
    }
    if i == 0 {
        format!("{n} {}", units[i])
    } else {
        format!("{v:.1} {}", units[i])
    }
}

#[test]
fn bytes_agree_with_double_arithmetic() {
    let mut x: u64 = 0x9e37_79b9_7f4a_7c15;
    for i in 0..200_000u64 {
        x ^= x << 13;
        x ^= x >> 7;
        x ^= x << 17;
        let n = x >> (i % 64);
        assert_eq!(format_bytes(n), reference_bytes(n));
        assert_eq!(format_bps(n), format!("{}/s", reference_bytes(n)));
    }
    for n in [0, 1, 1023, 1024, 1075, 1076, 1126, 1127, 1587, 1588, 1_048_575, 1_048_576, u64::MAX, u64::MAX - 1023, u64::MAX - 1024] {
        assert_eq!(format_bytes(n), reference_bytes(n));
    }
    for k in 0..64u32 {
        let p = 1u64 << k;
        for d in [p - 1, p, p + 1] {
            assert_eq!(format_bytes(d), reference_bytes(d));
        }
    }
}

#[test]
fn durations() {
    assert_eq!(format_duration(0), "0s");
    assert_eq!(format_duration(59), "59s");
    assert_eq!(format_duration(60), "1m00s");
    assert_eq!(format_duration(3599), "59m59s");
    assert_eq!(format_duration(3600), "1h00m");
    assert_eq!(format_duration(360_125), "100h02m");
}

#[test]
fn addresses_in_any_notation() {
    let want = Some("aa:bb:cc:00:11:22".to_string());
    assert_eq!(normalize_mac("AA-BB-CC-00-11-22"), want);
    assert_eq!(normalize_mac("aabb.cc00.1122"), want);
    assert_eq!(normalize_mac("aa:bb:cc:00:11"), None);
    assert_eq!(normalize_mac("aa:bb:cc:00:11:22:3"), None);
}
