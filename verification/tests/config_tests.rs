use hostparser::config::{parse_u32, parse_usize, u32_flag_or, usize_flag_or, Config};

#[test]
fn parses_plain_numbers() {
    assert_eq!(parse_u32(b"1000"), Some(1000));
    assert_eq!(parse_u32(b"0"), Some(0));
    assert_eq!(parse_u32(b"007"), Some(7));
    assert_eq!(parse_usize(b"1"), Some(1));
    assert_eq!(parse_usize(b"65536"), Some(65536));
}

#[test]
fn rejects_non_numeric_text() {
    assert_eq!(parse_u32(b""), None);
    assert_eq!(parse_u32(b"12a"), None);
    assert_eq!(parse_u32(b"-5"), None);
    assert_eq!(parse_u32(b" 7"), None);
    assert_eq!(parse_usize(b"ten"), None);
}

#[test]
fn respects_u32_bounds() {
    assert_eq!(parse_u32(b"4294967295"), Some(u32::MAX));
    assert_eq!(parse_u32(b"4294967296"), None);
    assert_eq!(parse_u32(b"99999999999999999999"), None);
}

#[test]
fn flag_falls_back_to_default() {
    assert_eq!(u32_flag_or(b"250", 1000), (250, true));
    assert_eq!(u32_flag_or(b"fast", 1000), (1000, false));
    assert_eq!(usize_flag_or(b"4", 1), (4, true));
    assert_eq!(usize_flag_or(b"", 1), (1, false));
}

#[test]
fn config_resolves_with_documented_defaults() {
    let c = Config::resolve(b"50", b"xyz", b"2");
    assert_eq!(c.rate, 50);
    assert_eq!(c.concurrency, 100);
    assert_eq!(c.worker_threads, 2);

    let d = Config::resolve(b"oops", b"8", b"");
    assert_eq!(d.rate, 1000);
    assert_eq!(d.concurrency, 8);
    assert_eq!(d.worker_threads, 1);
}
