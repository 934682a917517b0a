use pi_telemetry::error::SampleError;
use pi_telemetry::number::{
    decimal_parts, digits_only, digits_to_u64, parse_thousandths, parse_u64, parse_whole,
    point_index, push_decimal, DecimalParts,
};

#[test]
fn parse_u64_reads_digits() {
    assert_eq!(parse_u64(b"0"), Ok(0));
    assert_eq!(parse_u64(b"8000000"), Ok(8000000));
    assert_eq!(parse_u64(b"007"), Ok(7));
    assert_eq!(parse_u64(b"+12"), Ok(12));
    assert_eq!(parse_u64(b"18446744073709551615"), Ok(u64::MAX));
}

#[test]
fn parse_u64_refuses_what_is_no_number() {
    for token in ["", "+", "-1", "kB", "12a", "1 2", " 12", "1.5", "++1", "18446744073709551616",
        "99999999999999999999999"]
    {
        assert_eq!(parse_u64(token.as_bytes()), Err(SampleError::ParseError), "{}", token);
    }
}

#[test]
fn parse_u64_agrees_with_the_standard_reader() {
    for token in ["0", "1", "+5", "42", "0000", "18446744073709551615", "18446744073709551616",
        "x", "", "+", "-0", "1e3"]
    {
        let expected = token.parse::<u64>().map_err(|_| SampleError::ParseError);
        assert_eq!(parse_u64(token.as_bytes()), expected, "{}", token);
    }
}

#[test]
fn parse_whole_reads_the_whole_part_of_a_decimal() {
    assert_eq!(parse_whole(b"45678"), Ok(45678));
    assert_eq!(parse_whole(b"-5000"), Ok(-5000));
    assert_eq!(parse_whole(b"+5000"), Ok(5000));
    assert_eq!(parse_whole(b"-0"), Ok(0));
    assert_eq!(parse_whole(b"45678.5"), Ok(45678));
    assert_eq!(parse_whole(b"45678.999999"), Ok(45678));
    assert_eq!(parse_whole(b"-45678.9"), Ok(-45678));
    assert_eq!(parse_whole(b"45678."), Ok(45678));
    assert_eq!(parse_whole(b".75"), Ok(0));
    assert_eq!(parse_whole(b"000123.0"), Ok(123));
    assert_eq!(parse_whole(b"9223372036854775807"), Ok(i64::MAX));
    assert_eq!(parse_whole(b"-9223372036854775807.99"), Ok(-i64::MAX));
}

#[test]
fn parse_whole_refuses_what_is_no_decimal() {
    for token in ["", "-", "+", ".", "45678\n", "abc", "--1", "4.5.6", "45678.5C", "4 5",
        "9223372036854775808", "-9223372036854775808", "18446744073709551616.0"]
    {
        assert_eq!(parse_whole(token.as_bytes()), Err(SampleError::ParseError), "{}", token);
    }
}

#[test]
fn decimal_parts_takes_a_decimal_apart() {
    assert_eq!(
        decimal_parts(b"45.6"),
        Some(DecimalParts { negative: false, whole: 45, thousandths: 600 })
    );
    assert_eq!(
        decimal_parts(b"-0.0625"),
        Some(DecimalParts { negative: true, whole: 0, thousandths: 62 })
    );
    assert_eq!(
        decimal_parts(b"+18446744073709551615.999"),
        Some(DecimalParts { negative: false, whole: u64::MAX, thousandths: 999 })
    );
    assert_eq!(decimal_parts(b"7"), Some(DecimalParts { negative: false, whole: 7, thousandths: 0 }));
    assert_eq!(decimal_parts(b"18446744073709551616"), None);
    assert_eq!(decimal_parts(b"."), None);
    assert_eq!(decimal_parts(b""), None);
    assert_eq!(decimal_parts(b"1.2x"), None);
}

#[test]
fn parse_thousandths_reads_up_to_three_places_in_full() {
    for whole in ["", "0", "7", "007", "45", "120", "0120"] {
        for fraction in ["", "0", "5", "05", "50", "500", "005", "678", "999"] {
            if whole.is_empty() && fraction.is_empty() {
                continue;
            }
            let token = format!("{}.{}", whole, fraction);
            let padded = format!("{:0<3}", fraction);
            let expected = whole.parse::<i64>().unwrap_or(0) * 1000 + padded.parse::<i64>().unwrap();
            assert_eq!(parse_thousandths(token.as_bytes()), Ok(expected), "{}", token);
            let float = token.parse::<f64>().unwrap();
            assert!((expected as f64 / 1000.0 - float).abs() < 1e-9, "{}", token);
        }
    }
}

#[test]
fn parse_thousandths_reads_decimals() {
    assert_eq!(parse_thousandths(b"45.6"), Ok(45600));
    assert_eq!(parse_thousandths(b"45"), Ok(45000));
    assert_eq!(parse_thousandths(b"45."), Ok(45000));
    assert_eq!(parse_thousandths(b".5"), Ok(500));
    assert_eq!(parse_thousandths(b"0.0"), Ok(0));
    assert_eq!(parse_thousandths(b"120.0"), Ok(120000));
    assert_eq!(parse_thousandths(b"45.678"), Ok(45678));
    assert_eq!(parse_thousandths(b"45.06"), Ok(45060));
    assert_eq!(parse_thousandths(b"-3.25"), Ok(-3250));
    assert_eq!(parse_thousandths(b"+3.25"), Ok(3250));
}

#[test]
fn parse_thousandths_cuts_places_beyond_the_third() {
    assert_eq!(parse_thousandths(b"45.6789"), Ok(45678));
    assert_eq!(parse_thousandths(b"0.0009"), Ok(0));
    assert_eq!(parse_thousandths(b"-1.9999"), Ok(-1999));
}

#[test]
fn parse_thousandths_refuses_what_is_no_decimal() {
    for token in ["", ".", "-", "+.", "4x.6", "45.6C", "4.5.6", "45,6", " 45.6", "1e3",
        "9223372036854775.808", "9223372036854776", "99999999999999999999"]
    {
        assert_eq!(parse_thousandths(token.as_bytes()), Err(SampleError::ParseError), "{}", token);
    }
}

#[test]
fn parse_thousandths_reaches_the_largest_value() {
    assert_eq!(parse_thousandths(b"9223372036854775.807"), Ok(i64::MAX));
    assert_eq!(parse_thousandths(b"-9223372036854775.807"), Ok(-i64::MAX));
}

#[test]
fn digits_only_checks_a_range() {
    assert!(digits_only(b"ab123cd", 2, 5));
    assert!(digits_only(b"ab123cd", 3, 3));
    assert!(!digits_only(b"ab123cd", 1, 5));
    assert!(!digits_only(b"ab123cd", 2, 6));
    assert!(!digits_only(b"/:", 0, 1));
    assert!(!digits_only(b"/:", 1, 2));
}

#[test]
fn digits_to_u64_reads_a_range() {
    assert_eq!(digits_to_u64(b"ab123cd", 2, 5), Some(123));
    assert_eq!(digits_to_u64(b"ab123cd", 2, 2), Some(0));
    assert_eq!(digits_to_u64(b"ab123cd", 1, 5), None);
    assert_eq!(digits_to_u64(b"18446744073709551615", 0, 20), Some(u64::MAX));
    assert_eq!(digits_to_u64(b"18446744073709551616", 0, 20), None);
}

#[test]
fn point_index_finds_the_first_point() {
    assert_eq!(point_index(b"45.6", 0), 2);
    assert_eq!(point_index(b"4.5.6", 0), 1);
    assert_eq!(point_index(b"4.5.6", 2), 3);
    assert_eq!(point_index(b"456", 0), 3);
    assert_eq!(point_index(b"", 0), 0);
}

#[test]
fn push_decimal_appends_the_shortest_notation() {
    for n in [0u64, 1, 9, 10, 11, 99, 100, 12345, u64::MAX] {
        let mut out = b"cpu".to_vec();
        push_decimal(&mut out, n);
        assert_eq!(out, format!("cpu{}", n).into_bytes());
    }
}

#[test]
fn decimal_notation_reads_back() {
    for n in [0u64, 7, 10, 45678, 120000, u64::MAX] {
        let mut out = Vec::new();
        push_decimal(&mut out, n);
        assert_eq!(parse_u64(&out), Ok(n));
    }
}
