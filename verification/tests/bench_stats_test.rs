use meow::bench::memory::{parse_rss_kb, rss_bytes};
use meow::bench::stats::{headline_row, median_u64, sampling_window};

#[test]
fn rss_from_ps_output() {
    assert_eq!(parse_rss_kb(b"  12345\n"), Ok(12345));
    assert_eq!(parse_rss_kb(b"+7"), Ok(7));
    assert_eq!(rss_bytes(12345), 12345 * 1024);
}

#[test]
fn rss_parse_errors() {
    assert_eq!(
        parse_rss_kb(b"").unwrap_err(),
        "parse RSS: cannot parse integer from empty string"
    );
    assert_eq!(parse_rss_kb(b"12 kB").unwrap_err(), "parse RSS: invalid digit found in string");
    assert_eq!(
        parse_rss_kb(b"99999999999999999999").unwrap_err(),
        "parse RSS: number too large to fit in target type"
    );
}

#[test]
fn sampling_window_is_middle_third() {
    assert_eq!(sampling_window(30), (10, 20));
    assert_eq!(sampling_window(10), (3, 6));
    assert_eq!(sampling_window(0), (0, 0));
}

#[test]
fn median_is_upper_middle_of_sorted() {
    assert_eq!(median_u64(vec![]), 0);
    assert_eq!(median_u64(vec![5]), 5);
    assert_eq!(median_u64(vec![9, 1, 5]), 5);
    assert_eq!(median_u64(vec![4, 1, 3, 2]), 3);
}

#[test]
fn headline_prefers_64mb_row() {
    let labels = vec!["1 MB".to_string(), "64 MB bulk".to_string(), "64 MB again".to_string()];
    assert_eq!(headline_row(&labels), 1);
    let other = vec!["1 MB".to_string(), "small msgs".to_string()];
    assert_eq!(headline_row(&other), 1);
    let first = vec!["64 MB".to_string()];
    assert_eq!(headline_row(&first), 0);
}

#[test]
fn rss_parse_follows_integer_reading() {
    assert_eq!(parse_rss_kb(b"+").unwrap_err(), "parse RSS: invalid digit found in string");
    assert_eq!(parse_rss_kb(b"-5").unwrap_err(), "parse RSS: invalid digit found in string");
    assert_eq!(parse_rss_kb(b"18446744073709551615"), Ok(u64::MAX));
    assert_eq!(
        parse_rss_kb(b"18446744073709551616").unwrap_err(),
        "parse RSS: number too large to fit in target type"
    );
    assert_eq!(
        parse_rss_kb(b"99999999999999999999x").unwrap_err(),
        "parse RSS: number too large to fit in target type"
    );
    assert_eq!(parse_rss_kb(b"12x99999999999999999999").unwrap_err(), "parse RSS: invalid digit found in string");
    assert_eq!(parse_rss_kb(b"007"), Ok(7));
}
