use colstats::columns::CsvColumns;
use colstats::groups::{NumberGroups, StringGroups};
use colstats::observation::Parsed;
use colstats::text::{rsplit_once, split_fields};

fn read(text: &str) -> Parsed {
    match text.parse::<f64>() {
        Ok(v) if v == 0.0 => Parsed::Zero,
        Ok(v) if v.is_infinite() => Parsed::Overflow,
        _ => Parsed::Finite,
    }
}

fn value_of(line: &str, d: char) -> Parsed {
    rsplit_once(line, d).map_or(Parsed::Finite, |(_, v)| read(&v))
}

fn row_of(line: &str, d: char) -> Vec<Parsed> {
    split_fields(line, d).iter().map(|f| read(f)).collect()
}

fn slot_of(groups_keys: &[String], key: &str) -> usize {
    groups_keys.iter().position(|k| k == key).unwrap()
}

#[test]
fn grouped_numbers_scenario() {
    let input = "g1,10\ng1,20\ng2,30\nmalformed_line\n";
    let mut groups = NumberGroups::new();
    let mut samples: Vec<(usize, String)> = Vec::new();
    for line in input.lines() {
        if let Some(s) = groups.observe_line(line, ',', false, value_of(line, ',')) {
            samples.push((s.slot, s.text));
        }
    }
    assert_eq!(groups.len(), 3);
    let keys = groups.keys().clone();
    let g1 = slot_of(&keys, "g1");
    let g2 = slot_of(&keys, "g2");
    let bad = slot_of(&keys, "<INVALID>");
    assert_eq!(groups.stats(g1).count(), 2);
    assert_eq!(groups.stats(g2).count(), 1);
    assert_eq!(groups.stats(bad).error_count(), 1);
    assert_eq!(groups.stats(bad).count(), 0);

    let g1_values: Vec<f64> = samples
        .iter()
        .filter(|(slot, _)| *slot == g1)
        .map(|(_, t)| t.parse::<f64>().unwrap())
        .collect();
    assert_eq!(g1_values, vec![10.0, 20.0]);
    let mean: f64 = g1_values.iter().sum::<f64>() / g1_values.len() as f64;
    assert!((mean - 15.0).abs() < 1e-9);
    let g2_values: Vec<f64> = samples
        .iter()
        .filter(|(slot, _)| *slot == g2)
        .map(|(_, t)| t.parse::<f64>().unwrap())
        .collect();
    assert_eq!(g2_values, vec![30.0]);
}

#[test]
fn group_key_is_everything_before_last_delimiter() {
    let mut groups = NumberGroups::new();
    let s = groups.observe_line("a,b,c,7", ',', false, value_of("a,b,c,7", ',')).unwrap();
    assert_eq!(groups.key(s.slot), "a,b,c");
    assert_eq!(s.text, "7");
    assert!(groups.observe_line("a,b,c,", ',', false, value_of("a,b,c,", ',')).is_none());
    assert!(groups.observe_line("a,b,c,oops", ',', false, value_of("a,b,c,oops", ',')).is_none());
    assert!(groups.observe_line("a,b,c,0", ',', true, value_of("a,b,c,0", ',')).is_none());
    assert_eq!(groups.len(), 1);
    let st = groups.stats(0);
    assert_eq!((st.count(), st.empty_count(), st.error_count()), (1, 2, 1));
}

#[test]
fn every_malformed_line_counts_in_sentinel_group() {
    let mut groups = NumberGroups::new();
    for line in ["x", "y", "", "z"] {
        assert!(groups.observe_line(line, ',', false, value_of(line, ',')).is_none());
    }
    assert_eq!(groups.len(), 1);
    assert_eq!(groups.key(0), "<INVALID>");
    assert_eq!(groups.stats(0).error_count(), 4);
}

#[test]
fn grouped_strings_route_values_and_lengths() {
    let mut groups = StringGroups::new(Some(1));
    let a = groups.observe_line("k;apple", ';').unwrap();
    assert_eq!(a.length, 5);
    let b = groups.observe_line("k;fig", ';').unwrap();
    assert_eq!(b.slot, a.slot);
    assert_eq!(b.length, 3);
    assert!(groups.observe_line("k;", ';').is_none());
    assert!(groups.observe_line("nodelimiter", ';').is_none());
    assert!(groups.observe_line("k;kiwi", ';').is_some());
    assert_eq!(groups.len(), 2);
    let k = groups.stats(a.slot);
    assert_eq!(k.count(), 3);
    assert_eq!(k.null_count(), 1);
    assert_eq!(k.min(), Some("apple".to_string()));
    assert_eq!(k.max(), Some("kiwi".to_string()));
    assert_eq!(k.cardinality(), 2);
    assert!(k.is_cardinality_capped());
    let bad = groups.stats(1 - a.slot);
    assert_eq!(groups.key(1 - a.slot), "<INVALID>");
    assert_eq!(bad.error_count(), 1);
    assert_eq!(bad.count(), 0);
}

#[test]
fn zero_test_follows_the_parsed_value() {
    let mut groups = NumberGroups::new();
    assert!(groups.observe_line("g,1e-400", ',', true, value_of("g,1e-400", ',')).is_none());
    assert!(groups.observe_line("g,1e400", ',', true, value_of("g,1e400", ',')).is_none());
    let st = groups.stats(0);
    assert_eq!((st.count(), st.empty_count(), st.error_count()), (0, 1, 1));
}

#[test]
fn csv_columns_scenario() {
    let mut cols = CsvColumns::from_header("a,b", ',', None);
    assert_eq!(cols.len(), 2);
    assert_eq!(cols.header(0), "a");
    assert_eq!(cols.header(1), "b");
    let (numbers, lengths) = cols.observe_row("1,2", ',', false, &row_of("1,2", ','));
    assert_eq!(numbers, vec![Some("1".to_string()), Some("2".to_string())]);
    assert_eq!(lengths, vec![Some(1), Some(1)]);
    for (j, text) in ["1", "2"].iter().enumerate() {
        let s = cols.strings(j);
        assert_eq!(s.count(), 1);
        assert_eq!(s.min(), Some(text.to_string()));
        assert_eq!(s.max(), Some(text.to_string()));
        assert_eq!(cols.numbers(j).count(), 1);
    }
}

#[test]
fn csv_short_and_long_rows() {
    let mut cols = CsvColumns::from_header("a,b,c", ',', None);
    let (numbers, lengths) = cols.observe_row("x", ',', false, &row_of("x", ','));
    assert_eq!(numbers, vec![None, None, None]);
    assert_eq!(lengths, vec![Some(1), None, None]);
    assert_eq!(cols.numbers(0).error_count(), 1);
    assert_eq!(cols.strings(1).count() + cols.strings(1).null_count(), 0);
    let (numbers, lengths) = cols.observe_row("1,,0,9,9", ',', true, &row_of("1,,0,9,9", ','));
    assert_eq!(numbers, vec![Some("1".to_string()), None, None]);
    assert_eq!(lengths, vec![Some(1), None, Some(1)]);
    assert_eq!(cols.numbers(1).empty_count(), 1);
    assert_eq!(cols.strings(1).null_count(), 1);
    assert_eq!(cols.numbers(2).empty_count(), 1);
    assert_eq!(cols.strings(2).count(), 1);
}

#[test]
fn split_matches_std() {
    for (s, d) in [("a,b,,c", ','), ("", ','), (",", ','), ("abc", ';'), ("é|ü|", '|')] {
        let expected: Vec<String> = s.split(d).map(|v| v.to_string()).collect();
        assert_eq!(split_fields(s, d), expected);
    }
}

#[test]
fn rsplit_matches_std() {
    for (s, d) in [("g1,x,10", ','), ("none", ','), (",lead", ','), ("trail,", ','), ("aéb", 'é')] {
        let expected = s.rsplit_once(d).map(|(a, b)| (a.to_string(), b.to_string()));
        assert_eq!(rsplit_once(s, d), expected);
    }
}
