use hlc::decimal::{parse_decimal, parse_signed_decimal, render_padded};
use chrono::TimeZone;
use std::str::FromStr;
use hlc::wall_clock::{DATE_MAX_MS, DATE_MIN_MS, YEAR9999_MS};
use hlc::{HlcError, Timestamp};

#[test]
fn test_to_string() {
    let ts = Timestamp::new(0, 0, 0);
    let got = ts.to_string();
    let want = "1970-01-01T00:00:00+00:00-0000-0000000000000000";
    assert_eq!(got, want);
}

#[test]
fn to_string_with_fraction_and_padding() {
    let ts = Timestamp::new(1500, 7, 2);
    assert_eq!(ts.to_string(), "1970-01-01T00:00:01.500+00:00-0007-0000000000000002");
}

#[test]
fn to_string_wide_values_keep_all_digits() {
    let ts = Timestamp::new(1_000_000_000_555, 65535, 12345678901234567);
    assert_eq!(ts.to_string(), "2001-09-09T01:46:40.555+00:00-65535-12345678901234567");
}

#[test]
fn send_same_millisecond_increments_counter() {
    let mut ts = Timestamp::new(1000, 5, 1);
    assert_eq!(ts.send_at(1000), Ok(()));
    assert_eq!(ts, Timestamp::new(1000, 6, 1));
}

#[test]
fn send_later_physical_time_resets_counter() {
    let mut ts = Timestamp::new(1000, 5, 1);
    assert_eq!(ts.send_at(2000), Ok(()));
    assert_eq!(ts, Timestamp::new(2000, 0, 1));
}

#[test]
fn send_clock_behind_keeps_physical() {
    let mut ts = Timestamp::new(1000, 5, 1);
    assert_eq!(ts.send_at(900), Ok(()));
    assert_eq!(ts, Timestamp::new(1000, 6, 1));
}

#[test]
fn send_sequence_strictly_increases() {
    let mut ts = Timestamp::new(0, 0, 3);
    let clock = [10, 10, 10, 11, 11, 40, 40, 40];
    let mut prev = (ts.millis(), ts.counter());
    for phys in clock {
        assert_eq!(ts.send_at(phys), Ok(()));
        let cur = (ts.millis(), ts.counter());
        assert!(cur > prev);
        prev = cur;
    }
    assert_eq!(prev, (40, 2));
}

#[test]
fn send_twice_same_time_counts_by_one() {
    let mut ts = Timestamp::new(500, 9, 3);
    assert_eq!(ts.send_at(700), Ok(()));
    let first = ts;
    assert_eq!(ts.send_at(700), Ok(()));
    assert_eq!(ts.millis(), first.millis());
    assert_eq!(ts.counter(), first.counter() + 1);
}

#[test]
fn send_drift_rejected_and_state_kept() {
    let mut ts = Timestamp::new(70001, 3, 1);
    assert_eq!(ts.send_at(10000), Err(HlcError::ClockDrift));
    assert_eq!(ts, Timestamp::new(70001, 3, 1));
}

#[test]
fn send_drift_at_bound_accepted() {
    let mut ts = Timestamp::new(70000, 3, 1);
    assert_eq!(ts.send_at(10000), Ok(()));
    assert_eq!(ts, Timestamp::new(70000, 4, 1));
}

#[test]
fn send_overflow_rejected_and_state_kept() {
    let mut ts = Timestamp::new(1000, 65535, 1);
    assert_eq!(ts.send_at(1000), Err(HlcError::CounterOverflow));
    assert_eq!(ts, Timestamp::new(1000, 65535, 1));
}

#[test]
fn send_extreme_values_do_not_overflow() {
    let mut ts = Timestamp::new(i64::MAX, i64::MAX, 1);
    assert_eq!(ts.send_at(i64::MIN), Err(HlcError::ClockDrift));
    let mut ts = Timestamp::new(i64::MAX, i64::MAX, 1);
    assert_eq!(ts.send_at(i64::MAX), Err(HlcError::CounterOverflow));
}

#[test]
fn recv_tie_takes_larger_counter() {
    let mut ts = Timestamp::new(1000, 5, 1);
    assert_eq!(ts.recv_at(Timestamp::new(1000, 7, 2), 900), Ok(()));
    assert_eq!(ts, Timestamp::new(1000, 8, 1));
}

#[test]
fn recv_local_ahead() {
    let mut ts = Timestamp::new(1200, 5, 1);
    assert_eq!(ts.recv_at(Timestamp::new(1000, 7, 2), 900), Ok(()));
    assert_eq!(ts, Timestamp::new(1200, 6, 1));
}

#[test]
fn recv_remote_ahead() {
    let mut ts = Timestamp::new(1000, 5, 1);
    assert_eq!(ts.recv_at(Timestamp::new(1100, 7, 2), 900), Ok(()));
    assert_eq!(ts, Timestamp::new(1100, 8, 1));
}

#[test]
fn recv_physical_ahead_resets_counter() {
    let mut ts = Timestamp::new(1000, 5, 1);
    assert_eq!(ts.recv_at(Timestamp::new(1100, 7, 2), 5000), Ok(()));
    assert_eq!(ts, Timestamp::new(5000, 0, 1));
}

#[test]
fn recv_result_is_causal() {
    let cases = [(1000, 2000, 1500), (3000, 2000, 1500), (1000, 1000, 4000), (50, 60, 70)];
    for (local, remote, phys) in cases {
        let mut ts = Timestamp::new(local, 1, 1);
        assert_eq!(ts.recv_at(Timestamp::new(remote, 1, 2), phys), Ok(()));
        assert!(ts.millis() >= local && ts.millis() >= remote && ts.millis() >= phys);
    }
}

#[test]
fn recv_remote_drift_rejected() {
    let mut ts = Timestamp::new(1000, 5, 1);
    assert_eq!(ts.recv_at(Timestamp::new(70001, 7, 2), 10000), Err(HlcError::ClockDrift));
    assert_eq!(ts, Timestamp::new(1000, 5, 1));
}

#[test]
fn recv_local_drift_rejected() {
    let mut ts = Timestamp::new(70001, 5, 1);
    assert_eq!(ts.recv_at(Timestamp::new(1000, 7, 2), 10000), Err(HlcError::ClockDrift));
    assert_eq!(ts, Timestamp::new(70001, 5, 1));
}

#[test]
fn recv_overflow_rejected() {
    let mut ts = Timestamp::new(1000, 5, 1);
    assert_eq!(ts.recv_at(Timestamp::new(1000, 65535, 2), 1000), Err(HlcError::CounterOverflow));
    assert_eq!(ts, Timestamp::new(1000, 5, 1));
}

#[test]
fn recv_duplicate_node_rejected() {
    let mut ts = Timestamp::new(1000, 5, 1);
    assert_eq!(ts.recv_at(Timestamp::new(1000, 7, 1), 1000), Err(HlcError::DuplicateNode));
    assert_eq!(ts, Timestamp::new(1000, 5, 1));
}

#[test]
fn setters_replace_one_field() {
    let mut ts = Timestamp::new(1, 2, 3);
    ts.set_millis(10);
    assert_eq!(ts, Timestamp::new(10, 2, 3));
    ts.set_counter(20);
    assert_eq!(ts, Timestamp::new(10, 20, 3));
    ts.set_node(30);
    assert_eq!(ts, Timestamp::new(10, 20, 30));
}

#[test]
fn parse_round_trips() {
    let values = [
        Timestamp::new(0, 0, 0),
        Timestamp::new(1500, 7, 2),
        Timestamp::new(-86_400_001, 65535, 9),
        Timestamp::new(1_000_000_000_555, 42, i64::MAX),
        Timestamp::new(-62_167_219_200_000, 1, 1),
        Timestamp::new(253_402_300_799_999, 1, 1),
    ];
    for t in values {
        assert_eq!(Timestamp::parse(&t.to_string()), Ok(t));
    }
}

#[test]
fn parse_rejects_non_canonical_text() {
    let bad = [
        "2001-09-09T01:46:40.555Z-0001-0000000000000003",
        "1970-01-01T01:00:00+01:00-0002-0000000000000004",
        "1970-01-01t00:00:00+00:00-0000-0000000000000000",
        "1970-01-01 00:00:00+00:00-0000-0000000000000000",
        "1970-01-01T00:00:00+00:00-1-0000000000000000",
        "1970-01-01T00:00:00+00:00-0000-5",
        "1970-01-01T00:00:00.0005+00:00-0000-0000000000000000",
        "1970-01-01T00:00:00+00:00-0000--0000000000000000",
    ];
    for s in bad {
        assert_eq!(Timestamp::parse(s), Err(HlcError::ParseError), "{}", s);
    }
}

#[test]
fn negative_node_round_trips() {
    let values = [
        Timestamp::new(0, 0, -1),
        Timestamp::new(1500, 7, i64::MIN),
        Timestamp::new(-86_400_001, 12, -123_456_789_012_345_678),
    ];
    for t in values {
        let text = t.to_string();
        assert_eq!(Timestamp::parse(&text), Ok(t), "{}", text);
    }
    assert_eq!(Timestamp::new(0, 0, -1).to_string(), "1970-01-01T00:00:00+00:00-0000--000000000000001");
}

#[test]
fn wide_counter_text_round_trips() {
    let t = Timestamp::new(0, 65536, 1);
    assert_eq!(t.to_string(), "1970-01-01T00:00:00+00:00-65536-0000000000000001");
    assert_eq!(Timestamp::parse(&t.to_string()), Ok(t));
}

#[test]
fn signed_decimal_reading() {
    assert_eq!(parse_signed_decimal("-000000000000001"), Some(-1));
    assert_eq!(parse_signed_decimal("-9223372036854775808"), Some(i64::MIN));
    assert_eq!(parse_signed_decimal("-9223372036854775809"), None);
    assert_eq!(parse_signed_decimal("-"), None);
    assert_eq!(parse_signed_decimal("--1"), None);
    assert_eq!(parse_signed_decimal("17"), Some(17));
}

#[test]
fn parse_rejects_malformed() {
    let bad = [
        "",
        "nonsense",
        "1970-01-01T00:00:00+00:00",
        "1970-01-01T00:00:00+00:00-0000",
        "1970-01-01T00:00:00+00:00-00x0-0000000000000000",
        "1970-01-01T00:00:00+00:00-0000-",
        "1970-01-01T00:00:00+00:00--0000000000000000",
        "1970-13-01T00:00:00+00:00-0000-0000000000000000",
        "1970-01-01T00:00:00+00:00-0000-9223372036854775808",
    ];
    for s in bad {
        assert_eq!(Timestamp::parse(s), Err(HlcError::ParseError), "{}", s);
    }
}

#[test]
fn from_str_parses() {
    let t: Timestamp = "1970-01-01T00:00:00+00:00-0003-0000000000000005".parse().unwrap();
    assert_eq!(t, Timestamp::new(0, 3, 5));
}

#[test]
fn from_fields_needs_all_parts() {
    assert_eq!(Timestamp::from_fields(Some(5), "0001", "2"), Ok(Timestamp::new(5, 1, 2)));
    assert_eq!(Timestamp::from_fields(None, "0001", "2"), Err(HlcError::ParseError));
    assert_eq!(Timestamp::from_fields(Some(5), "", "2"), Err(HlcError::ParseError));
    assert_eq!(Timestamp::from_fields(Some(5), "1", "+2"), Err(HlcError::ParseError));
    assert_eq!(Timestamp::from_fields(Some(5), "1", "-2"), Ok(Timestamp::new(5, 1, -2)));
}

#[test]
fn compose_pads_fields() {
    assert_eq!(hlc::canonical::compose("D", 7, 2), "D-0007-0000000000000002");
}

#[test]
fn hash_is_murmur_of_text() {
    let t = Timestamp::new(1500, 7, 2);
    assert_eq!(t.hash(), fasthash::murmur::hash32(t.to_string()));
    assert_eq!(t.hash(), Timestamp::new(1500, 7, 2).hash());
    assert_ne!(t.hash(), Timestamp::new(1500, 8, 2).hash());
}

#[test]
fn decimal_rendering() {
    assert_eq!(render_padded(0, 4), "0000");
    assert_eq!(render_padded(-5, 4), "-005");
    assert_eq!(render_padded(123456, 4), "123456");
    assert_eq!(render_padded(i64::MIN, 4), "-9223372036854775808");
    assert_eq!(render_padded(7, 0), "7");
}

#[test]
fn decimal_reading() {
    assert_eq!(parse_decimal(""), None);
    assert_eq!(parse_decimal("12a"), None);
    assert_eq!(parse_decimal("-1"), None);
    assert_eq!(parse_decimal("0042"), Some(42));
    assert_eq!(parse_decimal("9223372036854775807"), Some(i64::MAX));
    assert_eq!(parse_decimal("9223372036854775808"), None);
    assert_eq!(parse_decimal("99999999999999999999x"), None);
}

#[test]
fn to_string_at_date_range_ends() {
    let lo = Timestamp::new(DATE_MIN_MS, 0, 0).to_string();
    assert_eq!(lo, "-262143-01-01T00:00:00+00:00-0000-0000000000000000");
    let hi = Timestamp::new(DATE_MAX_MS, 0, 0).to_string();
    assert_eq!(hi, "+262142-12-31T23:59:59.999+00:00-0000-0000000000000000");
}

#[test]
fn date_range_ends_are_chrono_limits() {
    assert!(chrono::Utc.timestamp_millis_opt(DATE_MIN_MS).single().is_some());
    assert!(chrono::Utc.timestamp_millis_opt(DATE_MAX_MS).single().is_some());
    assert!(chrono::Utc.timestamp_millis_opt(DATE_MIN_MS - 1).single().is_none());
    assert!(chrono::Utc.timestamp_millis_opt(DATE_MAX_MS + 1).single().is_none());
}

#[test]
fn five_digit_year_does_not_read_back() {
    let t = Timestamp::new(YEAR9999_MS + 1, 0, 0);
    assert_eq!(Timestamp::parse(&t.to_string()), Err(HlcError::ParseError));
}

#[test]
fn from_str_matches_parse() {
    assert_eq!(
        Timestamp::from_str("1970-01-01T00:00:00+00:00-0000-0000000000000000"),
        Ok(Timestamp::new(0, 0, 0))
    );
    assert_eq!(Timestamp::from_str(""), Err(HlcError::ParseError));
    assert_eq!(
        Timestamp::from_str("1970-01-01T00:00:00+00:00-00x0-0000000000000000"),
        Err(HlcError::ParseError)
    );
    assert_eq!(
        Timestamp::from_str("1970-13-45T99:00:00+00:00-0000-0000000000000000"),
        Err(HlcError::ParseError)
    );
    let t = Timestamp::new(1_000_000_000_555, 65535, 7);
    assert_eq!(Timestamp::from_str(&t.to_string()), Ok(t));
}
