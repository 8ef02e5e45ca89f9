use colstats::number_stats::NumberStats;
use colstats::observation::{classify, Observation, Parsed};

/// What `text` reads as in `f64`, as a caller of the classifier works it out.
fn read(text: &str) -> Parsed {
    match text.parse::<f64>() {
        Ok(v) if v == 0.0 => Parsed::Zero,
        Ok(v) if v.is_infinite() => Parsed::Overflow,
        _ => Parsed::Finite,
    }
}

fn kind(text: &str, zero_as_empty: bool) -> Observation {
    classify(text, zero_as_empty, read(text))
}

#[test]
fn number_stats_test_new() {
    let stats = NumberStats::new();
    assert_eq!(stats.count(), 0);
    assert_eq!(stats.empty_count(), 0);
    assert_eq!(stats.error_count(), 0);
}

#[test]
fn number_stats_test_add() {
    let mut stats = NumberStats::new();
    stats.add();
    stats.add();
    assert_eq!(stats.count(), 2);
    assert_eq!(stats.empty_count(), 0);
    assert_eq!(stats.error_count(), 0);
}

#[test]
fn test_add_empty() {
    let mut stats = NumberStats::new();
    stats.add_empty();
    assert_eq!(stats.empty_count(), 1);
}

#[test]
fn test_add_error() {
    let mut stats = NumberStats::new();
    stats.add_error();
    assert_eq!(stats.error_count(), 1);
}

#[test]
fn every_routed_value_is_counted_once() {
    let values = ["1", "", "x", "2.5", "0", "-", "1e3", "nan", "1e-400", "1e400"];
    let mut stats = NumberStats::new();
    for v in values {
        stats.observe_value(v, true, read(v));
    }
    assert_eq!(stats.count(), 3);
    assert_eq!(stats.empty_count(), 3);
    assert_eq!(stats.error_count(), 4);
    assert_eq!(
        stats.count() + stats.empty_count() + stats.error_count(),
        values.len()
    );
}

#[test]
fn classify_empty_field() {
    assert_eq!(kind("", false), Observation::Empty);
    assert_eq!(kind("", true), Observation::Empty);
}

#[test]
fn classify_numbers() {
    for v in ["1", "-1", "+1", "1.5", ".5", "5.", "1e5", "1E-5", "-2.5e+10", "007"] {
        assert_eq!(kind(v, false), Observation::Numeric, "{}", v);
    }
}

#[test]
fn classify_errors() {
    for v in ["abc", ".", "e5", "1e", "1e+", "1.2.3", " 1", "1 ", "--1", "nan", "inf", "-infinity", "0x10", "1_000"] {
        assert_eq!(kind(v, false), Observation::Error, "{}", v);
    }
}

#[test]
fn classify_zero_as_empty() {
    for v in ["0", "-0", "0.0", ".0", "0e10", "+00.000", "1e-400", "-2.5e-999"] {
        assert_eq!(kind(v, true), Observation::Empty, "{}", v);
        assert_eq!(kind(v, false), Observation::Numeric, "{}", v);
    }
    assert_eq!(kind("0.01", true), Observation::Numeric);
    assert_eq!(kind("4.9e-324", true), Observation::Numeric);
}

#[test]
fn classify_overflow_is_error() {
    assert_eq!(kind("1e400", false), Observation::Error);
    assert_eq!(kind("-1.8e308", false), Observation::Error);
    assert_eq!(kind("1.7e308", false), Observation::Numeric);
}
