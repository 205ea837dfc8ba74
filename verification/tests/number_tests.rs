use carton::number::{parse_i64, parse_u64, parse_usize, u64_to_decimal};

#[test]
fn parse_i64_reads_integers() {
    assert_eq!(parse_i64("0"), Some(0));
    assert_eq!(parse_i64("42"), Some(42));
    assert_eq!(parse_i64("+7"), Some(7));
    assert_eq!(parse_i64("-13"), Some(-13));
    assert_eq!(parse_i64("007"), Some(7));
    assert_eq!(parse_i64("9223372036854775807"), Some(i64::MAX));
    assert_eq!(parse_i64("-9223372036854775808"), Some(i64::MIN));
}

#[test]
fn parse_i64_refuses_what_std_refuses() {
    for s in ["", "-", "+", "1a", " 1", "1.0", "9223372036854775808", "-9223372036854775809",
        "+-1", "99999999999999999999999"] {
        assert_eq!(parse_i64(s), s.parse::<i64>().ok(), "{}", s);
        assert_eq!(parse_i64(s), None);
    }
}

#[test]
fn parse_usize_matches_std() {
    for s in ["0", "1", "+3", "-1", "", "18446744073709551615", "18446744073709551616", "12x"] {
        assert_eq!(parse_usize(s), s.parse::<usize>().ok(), "{}", s);
    }
}

#[test]
fn decimal_writing() {
    for n in [0u64, 7, 10, 99, 100, 4096, u64::MAX] {
        assert_eq!(u64_to_decimal(n), n.to_string());
        assert_eq!(parse_usize(&u64_to_decimal(n)).map(|v| v as u64), Some(n));
    }
}

#[test]
fn parse_u64_matches_std() {
    for s in ["0", "+5000000000", "-1", "", "18446744073709551615", "18446744073709551616", "4x"] {
        assert_eq!(parse_u64(s), s.parse::<u64>().ok(), "{}", s);
    }
}
