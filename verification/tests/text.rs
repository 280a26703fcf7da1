use quant_2::text::{after_last_char, contains_str, ends_with_str, parse_i64, parse_u64, trim_char};

#[test]
fn parse_u64_matches_std() {
    let cases = [
        "0", "300", "+7", "007", "", "+", "-1", "-0", " 5", "5 ", "12a", "１２",
        "18446744073709551615", "18446744073709551616", "99999999999999999999999",
    ];
    for c in cases {
        assert_eq!(parse_u64(c), c.parse::<u64>().ok(), "{c:?}");
    }
    assert_eq!(parse_u64("300"), Some(300));
    assert_eq!(parse_u64("18446744073709551615"), Some(u64::MAX));
    assert_eq!(parse_u64("18446744073709551616"), None);
    assert_eq!(parse_u64(""), None);
}

#[test]
fn parse_i64_matches_std() {
    let cases = [
        "0", "-0", "+0", "-", "+", "", "42", "-42", "+42", "--1", "1-",
        "9223372036854775807", "9223372036854775808", "-9223372036854775808",
        "-9223372036854775809", "18446744073709551616",
    ];
    for c in cases {
        assert_eq!(parse_i64(c), c.parse::<i64>().ok(), "{c:?}");
    }
    assert_eq!(parse_i64("-9223372036854775808"), Some(i64::MIN));
    assert_eq!(parse_i64("-3"), Some(-3));
}

#[test]
fn contains_str_finds_substrings() {
    assert!(contains_str("btcusdt@depth5@100ms", "depth5"));
    assert!(contains_str("btcusdt@aggTrade", "aggTrade"));
    assert!(!contains_str("btcusdt@trade", "aggTrade"));
    assert!(contains_str("abc", ""));
    assert!(!contains_str("ab", "abc"));
    assert!(contains_str("aaab", "aab"));
}

#[test]
fn ends_with_str_checks_suffix() {
    assert!(ends_with_str("depth5_tick_20240115.csv", ".csv"));
    assert!(!ends_with_str("depth5_tick_20240115.csv.gz", ".csv"));
    assert!(!ends_with_str("csv", ".csv"));
    assert!(ends_with_str(".csv", ".csv"));
}

#[test]
fn trim_char_matches_std() {
    for c in ["", "/", "///", "btc", "/btc/", "//a/b//", "a/", "/a"] {
        assert_eq!(trim_char(c, '/'), c.trim_matches('/'), "{c:?}");
    }
    assert_eq!(trim_char("/btcusdt/", '/'), "btcusdt");
}

#[test]
fn after_last_char_matches_rsplit() {
    for c in ["a_b_c", "abc", "abc_", "_", "", "depth5_tick_20240115"] {
        assert_eq!(after_last_char(c, '_'), c.rsplit('_').next().unwrap(), "{c:?}");
    }
    assert_eq!(after_last_char("depth5_tick_20240115", '_'), "20240115");
}
