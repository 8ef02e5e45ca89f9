use colstats::columns::CsvColumns;
use colstats::groups::{NumberGroups, StringGroups};
use colstats::number_stats::NumberStats;
use colstats::output_data::{OutputCsvData, OutputData, OutputNumberData, OutputStringData};
use colstats::output_row::OutputRow;
use colstats::string_stats::StringStats;
use colstats::observation::Parsed;
use colstats::text::{decimal_string, join_with, repeat_char};

fn cells(v: &[&str]) -> Vec<String> {
    v.iter().map(|s| s.to_string()).collect()
}

fn number_output(lines: &[&str]) -> Vec<String> {
    let mut groups = NumberGroups::new();
    for line in lines {
        groups.observe_line(line, ',', false, Parsed::Finite);
    }
    let moments: Vec<Vec<String>> = (0..groups.len()).map(|_| cells(&["m"])).collect();
    OutputNumberData::new(&groups, &moments, ',', Some(';'))
        .print()
        .unwrap()
}

#[test]
fn output_row_new_keeps_fields() {
    let row = OutputRow::new(cells(&["a", "b"]), cells(&["1"]));
    assert_eq!(row.group_data, cells(&["a", "b"]));
    assert_eq!(row.stats_data, cells(&["1"]));
}

#[test]
fn grouped_numbers_sorted_descending_with_split_keys() {
    let out = number_output(&["a,x,1", "b,y,2", "a,x,3", "c"]);
    assert_eq!(
        out,
        vec![
            ";;count;empty;error;min;max;sum;mean;stddev".to_string(),
            "b;y;1;0;0;m".to_string(),
            "a;x;2;0;0;m".to_string(),
            "<INVALID>;0;0;1;m".to_string(),
        ]
    );
}

#[test]
fn same_input_gives_same_output() {
    let input = ["z,1", "a,2", "m,x", "", "z,"];
    assert_eq!(number_output(&input), number_output(&input));
}

#[test]
fn order_does_not_depend_on_arrival() {
    let one = number_output(&["k1,1", "k2,2", "k3,3"]);
    let two = number_output(&["k3,3", "k1,1", "k2,2"]);
    assert_eq!(one, two);
}

#[test]
fn table_output_is_signalled_by_none() {
    let groups = NumberGroups::new();
    let data = OutputNumberData::new(&groups, &Vec::new(), ',', None);
    assert!(data.print().is_none());
    assert_eq!(data.group_length, 0);
    assert!(data.output_rows.is_empty());
}

#[test]
fn grouped_strings_cardinality_cells() {
    let mut groups = StringGroups::new(Some(1));
    for line in ["g,b", "g,a", "g,c", "h,q"] {
        groups.observe_line(line, ',');
    }
    let lengths: Vec<Vec<String>> = (0..groups.len()).map(|_| cells(&["L"])).collect();
    let data = OutputStringData::new(&groups, &lengths, ',', Some(','));
    assert_eq!(data.output_rows[0].group_data, cells(&["h"]));
    assert_eq!(data.output_rows[0].stats_data, cells(&["1", "0", "1", "q", "q", "L"]));
    assert_eq!(data.output_rows[1].stats_data, cells(&["3", "0", "1+", "a", "c", "L"]));
    let lines = data.print().unwrap();
    assert_eq!(
        lines[0],
        ",count,empty,cardinality,string_min,string_max,length_min,length_max,length_mean,length_stddev"
    );
    assert_eq!(lines[2], "g,3,0,1+,a,c,L");

    let mut off = StringGroups::new(Some(0));
    off.observe_line("g,b", ',');
    let data = OutputStringData::new(&off, &vec![Vec::new()], ',', None);
    assert_eq!(data.output_rows[0].stats_data[2], "disabled");
}

#[test]
fn csv_output_rows() {
    let mut cols = CsvColumns::from_header("a,b", ',', None);
    cols.observe_row("1,x", ',', false, &vec![Parsed::Finite; 2]);
    cols.observe_row(",y", ',', false, &vec![Parsed::Finite; 2]);
    let moments = vec![cells(&["M"]), cells(&["N"])];
    let data = OutputCsvData::new(&cols, &moments, Some('|'));
    assert_eq!(data.group_length, 1);
    assert_eq!(data.output_rows[0].group_data, cells(&["b"]));
    assert_eq!(
        data.output_rows[0].stats_data,
        cells(&["2", "2", "0", "x", "y", "0", "2", "N"])
    );
    assert_eq!(data.output_rows[1].group_data, cells(&["a"]));
    assert_eq!(
        data.output_rows[1].stats_data,
        cells(&["1", "1", "1", "1", "1", "1", "0", "M"])
    );
    let lines = data.print().unwrap();
    assert_eq!(lines.len(), 3);
    assert!(lines[0].starts_with("|count|cardinality|string_empty|"));
    assert_eq!(lines[1], "b|2|2|0|x|y|0|2|N");
    assert_eq!(lines[2], "a|1|1|1|1|1|1|0|M");
}

#[test]
fn csv_rows_by_descending_header_equal_headers_in_column_order() {
    let mut cols = CsvColumns::from_header("m,z,m,a", ',', None);
    cols.observe_row("1,2,3,4", ',', false, &vec![Parsed::Finite; 4]);
    let moments: Vec<Vec<String>> = (0..4).map(|j| cells(&[&format!("c{}", j)])).collect();
    let data = OutputCsvData::new(&cols, &moments, None);
    let order: Vec<(String, String)> = data
        .output_rows
        .iter()
        .map(|r| (r.group_data[0].clone(), r.stats_data[7].clone()))
        .collect();
    assert_eq!(
        order,
        vec![
            ("z".to_string(), "c1".to_string()),
            ("m".to_string(), "c0".to_string()),
            ("m".to_string(), "c2".to_string()),
            ("a".to_string(), "c3".to_string()),
        ]
    );
}

#[test]
fn single_series_pairs() {
    let mut stats = NumberStats::new();
    stats.add();
    stats.add_error();
    let data = OutputData::numbers(&stats, &cells(&["1", "2", "3", "4", "5"]), Some('='));
    let lines = data.print().unwrap();
    assert_eq!(
        lines,
        cells(&["count=1", "empty=0", "error=1", "min=1", "max=2", "sum=3", "mean=4", "stddev=5"])
    );

    let mut s = StringStats::new(None);
    s.add("b".to_string());
    s.add("a".to_string());
    s.add_null();
    let data = OutputData::strings(&s, &cells(&["1", "1", "1.0", "0.0"]), None);
    assert!(data.print().is_none());
    assert_eq!(data.stats_data, cells(&["2", "1", "2", "a", "b", "1", "1", "1.0", "0.0"]));
}

#[test]
fn text_helpers() {
    assert_eq!(decimal_string(0), "0");
    assert_eq!(decimal_string(1234567890), "1234567890");
    assert_eq!(decimal_string(usize::MAX), usize::MAX.to_string());
    assert_eq!(join_with(&cells(&["a", "", "b"]), '-'), "a--b");
    assert_eq!(join_with(&Vec::new(), '-'), "");
    assert_eq!(repeat_char(',', 3), ",,,");
}
