use colstats::string_stats::StringStats;

#[test]
fn string_stats_test_new() {
    let stats = StringStats::new(None);
    assert_eq!(stats.count(), 0);
    assert_eq!(stats.null_count(), 0);
    assert_eq!(stats.min(), None);
    assert_eq!(stats.max(), None);
}

#[test]
fn string_stats_test_add() {
    let mut stats = StringStats::new(None);
    stats.add("test".to_string());
    assert_eq!(stats.count(), 1);
    assert_eq!(stats.min(), Some("test".to_string()));
    assert_eq!(stats.max(), Some("test".to_string()));
}

#[test]
fn string_stats_test_add_null() {
    let mut stats = StringStats::new(None);
    stats.add_null();
    assert_eq!(stats.null_count(), 1);
}

#[test]
fn string_stats_test_min_max() {
    let mut stats = StringStats::new(None);
    stats.add("a".to_string());
    stats.add("b".to_string());
    assert_eq!(stats.min(), Some("a".to_string()));
    assert_eq!(stats.max(), Some("b".to_string()));
}

#[test]
fn test_cardinality() {
    let mut stats = StringStats::new(None);
    stats.add("a".to_string());
    stats.add("b".to_string());
    stats.add("a".to_string());
    assert_eq!(stats.cardinality(), 2);
    assert!(!stats.is_cardinality_capped());
}

#[test]
fn test_cardinality_cap() {
    let mut stats = StringStats::new(Some(2));
    stats.add("a".to_string());
    stats.add("b".to_string());
    stats.add("a".to_string());
    assert_eq!(stats.cardinality(), 2);
    assert!(!stats.is_cardinality_capped());

    stats.add("c".to_string());
    assert_eq!(stats.cardinality(), 3);
    assert!(stats.is_cardinality_capped());

    stats.add("d".to_string());
    assert_eq!(stats.cardinality(), 3);
    assert!(stats.is_cardinality_capped());
}

#[test]
fn cardinality_zero_cap_disables_tracking() {
    let mut stats = StringStats::new(Some(0));
    stats.add("a".to_string());
    stats.add("b".to_string());
    assert_eq!(stats.cardinality(), 0);
    assert!(!stats.is_cardinality_capped());
    assert_eq!(stats.count(), 2);
}

#[test]
fn min_max_are_ordinal_extremes() {
    let mut stats = StringStats::new(None);
    for v in ["pear", "Apple", "apple", "zoo", "Zebra", "é"] {
        stats.add(v.to_string());
    }
    assert_eq!(stats.min(), Some("Apple".to_string()));
    assert_eq!(stats.max(), Some("é".to_string()));
    assert_eq!(stats.count(), 6);
}

#[test]
fn prefix_orders_before_longer_string() {
    let mut stats = StringStats::new(None);
    stats.add("ab".to_string());
    stats.add("a".to_string());
    stats.add("abc".to_string());
    assert_eq!(stats.min(), Some("a".to_string()));
    assert_eq!(stats.max(), Some("abc".to_string()));
}

#[test]
fn observe_value_counts_nulls_and_lengths() {
    let mut stats = StringStats::new(None);
    assert_eq!(stats.observe_value(""), None);
    assert_eq!(stats.observe_value("héllo"), Some(6));
    assert_eq!(stats.observe_value("x"), Some(1));
    stats.add_error();
    assert_eq!(stats.null_count(), 1);
    assert_eq!(stats.count(), 2);
    assert_eq!(stats.error_count(), 1);
    assert_eq!(stats.count() + stats.null_count() + stats.error_count(), 4);
}
