use vstd::prelude::*;

use crate::cells::{number_cells, string_cells_ok, write_number_cells, write_string_cells};
use crate::columns::CsvColumns;
use crate::groups::{NumberGroups, StringGroups};
use crate::number_stats::NumberStats;
use crate::order::{
    column_order, is_column_order, is_descending_order, lemma_descending_order_unique, sorted_columns,
};
use crate::output_row::{pair_lines, render_pairs, render_table, table_lines, OutputRow};
use crate::string_stats::StringStats;
use crate::text::{split_fields, split_on, views};

verus! {

/// The positions of `keys` by strictly descending key.
pub open spec fn descending(keys: Seq<Seq<char>>) -> Seq<usize> {
    choose|o: Seq<usize>| is_descending_order(keys, o)
}

/// Any order that lists the keys by strictly descending key is the one `descending`
/// names.
proof fn lemma_is_descending(keys: Seq<Seq<char>>, o: Seq<usize>)
    requires
        is_descending_order(keys, o),
    ensures
        o == descending(keys),
{
    let d = descending(keys);
    assert(is_descending_order(keys, d));
    lemma_descending_order_unique(keys, o, d);
}

/// Names of the statistics of a numeric series, in delimited output.
pub open spec fn number_names() -> Seq<Seq<char>> {
    seq!["count"@, "empty"@, "error"@, "min"@, "max"@, "sum"@, "mean"@, "stddev"@]
}

/// Names of the statistics of a string series, in delimited output.
pub open spec fn string_names() -> Seq<Seq<char>> {
    seq![
        "count"@,
        "empty"@,
        "cardinality"@,
        "string_min"@,
        "string_max"@,
        "length_min"@,
        "length_max"@,
        "length_mean"@,
        "length_stddev"@,
    ]
}

/// Names of the statistics of a column, in delimited output.
pub open spec fn column_names() -> Seq<Seq<char>> {
    seq![
        "count"@,
        "cardinality"@,
        "string_empty"@,
        "string_min"@,
        "string_max"@,
        "number_empty"@,
        "number_error"@,
        "number_min"@,
        "number_max"@,
        "number_mean"@,
        "number_stddev"@,
        "length_min"@,
        "length_max"@,
        "length_mean"@,
        "length_stddev"@,
    ]
}

fn owned_names(names: &[&str]) -> (r: Vec<String>)
    ensures
        views(r@) == names@.map_values(|s: &str| s@),
{
    let mut r: Vec<String> = Vec::new();
    let mut i: usize = 0;
    while i < names.len()
        invariant
            i <= names.len(),
            views(r@) == names@.take(i as int).map_values(|s: &str| s@),
        decreases names.len() - i,
    {
        let x = names[i].to_owned();
        let ghost before = views(r@);
        r.push(x);
        assert(views(r@) =~= before.push(names@[i as int]@));
        i += 1;
        assert(views(r@) =~= names@.take(i as int).map_values(|s: &str| s@));
    }
    assert(names@.take(names.len() as int) =~= names@);
    r
}

fn write_number_names() -> (r: Vec<String>)
    ensures
        views(r@) == number_names(),
{
    let a = ["count", "empty", "error", "min", "max", "sum", "mean", "stddev"];
    let r = owned_names(&a);
    assert(views(r@) =~= number_names());
    r
}

fn write_string_names() -> (r: Vec<String>)
    ensures
        views(r@) == string_names(),
{
    let a = [
        "count",
        "empty",
        "cardinality",
        "string_min",
        "string_max",
        "length_min",
        "length_max",
        "length_mean",
        "length_stddev",
    ];
    let r = owned_names(&a);
    assert(views(r@) =~= string_names());
    r
}

fn write_column_names() -> (r: Vec<String>)
    ensures
        views(r@) == column_names(),
{
    let a = [
        "count",
        "cardinality",
        "string_empty",
        "string_min",
        "string_max",
        "number_empty",
        "number_error",
        "number_min",
        "number_max",
        "number_mean",
        "number_stddev",
        "length_min",
        "length_max",
        "length_mean",
        "length_stddev",
    ];
    let r = owned_names(&a);
    assert(views(r@) =~= column_names());
    r
}

/// `v` followed by the strings of `w`.
fn concat(v: Vec<String>, w: &Vec<String>) -> (r: Vec<String>)
    ensures
        views(r@) == views(v@) + views(w@),
{
    let mut r = v;
    let mut i: usize = 0;
    while i < w.len()
        invariant
            i <= w.len(),
            views(r@) == views(v@) + views(w@.take(i as int)),
        decreases w.len() - i,
    {
        let x = w[i].clone();
        let ghost before = views(r@);
        r.push(x);
        assert(views(r@) =~= before.push(w@[i as int]@));
        i += 1;
        assert(views(r@) =~= views(v@) + views(w@.take(i as int)));
    }
    assert(w@.take(w.len() as int) =~= w@);
    r
}

/// The number of key components the header makes room for: those of the first row,
/// or none when there is no row.
pub open spec fn first_group_length(rows: Seq<OutputRow>) -> nat {
    if rows.len() == 0 {
        0
    } else {
        rows[0].group_data@.len()
    }
}

fn group_length_of(rows: &Vec<OutputRow>) -> (r: usize)
    ensures
        r == first_group_length(rows@),
{
    if rows.len() == 0 {
        0
    } else {
        rows[0].group_data.len()
    }
}

/// Rows of the grouped numeric mode, by descending group key, ready for a renderer.
pub struct OutputNumberData {
    pub output_rows: Vec<OutputRow>,
    pub group_length: usize,
    pub output_delimiter: Option<char>,
}

impl OutputNumberData {
    /// One row per group, by descending key: the key split on `input_delimiter`, then
    /// the group's tallies and the cells `moments` holds for its slot (its minimum,
    /// maximum, sum, mean and standard deviation, written by the caller).
    pub fn new(
        groups: &NumberGroups,
        moments: &Vec<Vec<String>>,
        input_delimiter: char,
        output_delimiter: Option<char>,
    ) -> (r: OutputNumberData)
        requires
            groups.wf(),
            moments.len() == groups.spec_keys().len(),
        ensures
            is_descending_order(groups.spec_keys(), descending(groups.spec_keys())),
            r.output_rows.len() == groups.spec_keys().len(),
            forall|k: int|
                0 <= k < r.output_rows.len() ==> {
                    let slot = descending(groups.spec_keys())[k] as int;
                    &&& views((#[trigger] r.output_rows@[k]).group_data@) == split_on(
                        groups.spec_keys()[slot],
                        input_delimiter,
                    )
                    &&& views(r.output_rows@[k].stats_data@) == number_cells(
                        groups.spec_stats()[slot],
                    ) + views(moments@[slot]@)
                },
            r.group_length == first_group_length(r.output_rows@),
            r.output_delimiter == output_delimiter,
    {
        let order = groups.descending();
        proof {
            lemma_is_descending(groups.spec_keys(), order@);
        }
        let mut rows: Vec<OutputRow> = Vec::new();
        let mut k: usize = 0;
        while k < order.len()
            invariant
                groups.wf(),
                moments.len() == groups.spec_keys().len(),
                is_descending_order(groups.spec_keys(), order@),
                order@ == descending(groups.spec_keys()),
                k <= order.len(),
                rows.len() == k,
                forall|j: int|
                    0 <= j < k ==> {
                        let slot = order@[j] as int;
                        &&& views((#[trigger] rows@[j]).group_data@) == split_on(
                            groups.spec_keys()[slot],
                            input_delimiter,
                        )
                        &&& views(rows@[j].stats_data@) == number_cells(groups.spec_stats()[slot])
                            + views(moments@[slot]@)
                    },
            decreases order.len() - k,
        {
            let slot = order[k];
            let group_data = split_fields(groups.key(slot).as_str(), input_delimiter);
            let stats_data = concat(write_number_cells(groups.stats(slot)), &moments[slot]);
            rows.push(OutputRow::new(group_data, stats_data));
            k += 1;
        }
        let group_length = group_length_of(&rows);
        OutputNumberData { output_rows: rows, group_length, output_delimiter }
    }

    /// The delimited-text lines of the rows, or `None` when no output delimiter was
    /// given and a table is to be drawn instead.
    pub fn print(&self) -> (r: Option<Vec<String>>)
        ensures
            r is None <==> self.output_delimiter is None,
            r matches Some(lines) ==> views(lines@) == table_lines(
                self.output_delimiter->0,
                self.group_length as nat,
                number_names(),
                self.output_rows@,
            ),
    {
        match self.output_delimiter {
            None => None,
            Some(d) => Some(render_table(d, self.group_length, &write_number_names(), &self.output_rows)),
        }
    }
}


/// Rows of the grouped string mode, by descending group key, ready for a renderer.
pub struct OutputStringData {
    pub output_rows: Vec<OutputRow>,
    pub group_length: usize,
    pub output_delimiter: Option<char>,
}

impl OutputStringData {
    /// One row per group, by descending key: the key split on `input_delimiter`, then
    /// the cells of the group's string accumulator and the cells `lengths` holds for
    /// its slot (minimum, maximum, mean and standard deviation of the value lengths,
    /// written by the caller).
    pub fn new(
        groups: &StringGroups,
        lengths: &Vec<Vec<String>>,
        input_delimiter: char,
        output_delimiter: Option<char>,
    ) -> (r: OutputStringData)
        requires
            groups.wf(),
            lengths.len() == groups.spec_keys().len(),
        ensures
            is_descending_order(groups.spec_keys(), descending(groups.spec_keys())),
            r.output_rows.len() == groups.spec_keys().len(),
            forall|k: int|
                0 <= k < r.output_rows.len() ==> {
                    let slot = descending(groups.spec_keys())[k] as int;
                    let stats = views((#[trigger] r.output_rows@[k]).stats_data@);
                    &&& views(r.output_rows@[k].group_data@) == split_on(
                        groups.spec_keys()[slot],
                        input_delimiter,
                    )
                    &&& stats.len() == 5 + lengths@[slot]@.len()
                    &&& string_cells_ok(stats.take(5), groups.spec_stats()[slot])
                    &&& stats.skip(5) == views(lengths@[slot]@)
                },
            r.group_length == first_group_length(r.output_rows@),
            r.output_delimiter == output_delimiter,
    {
        let order = groups.descending();
        proof {
            lemma_is_descending(groups.spec_keys(), order@);
        }
        let mut rows: Vec<OutputRow> = Vec::new();
        let mut k: usize = 0;
        while k < order.len()
            invariant
                groups.wf(),
                lengths.len() == groups.spec_keys().len(),
                is_descending_order(groups.spec_keys(), order@),
                order@ == descending(groups.spec_keys()),
                k <= order.len(),
                rows.len() == k,
                forall|j: int|
                    0 <= j < k ==> {
                        let slot = order@[j] as int;
                        let stats = views((#[trigger] rows@[j]).stats_data@);
                        &&& views(rows@[j].group_data@) == split_on(
                            groups.spec_keys()[slot],
                            input_delimiter,
                        )
                        &&& stats.len() == 5 + lengths@[slot]@.len()
                        &&& string_cells_ok(stats.take(5), groups.spec_stats()[slot])
                        &&& stats.skip(5) == views(lengths@[slot]@)
                    },
            decreases order.len() - k,
        {
            let slot = order[k];
            let group_data = split_fields(groups.key(slot).as_str(), input_delimiter);
            let cells = write_string_cells(groups.stats(slot));
            let stats_data = concat(cells, &lengths[slot]);
            proof {
                let st = views(stats_data@);
                assert(st.take(5) =~= views(cells@));
                assert(st.skip(5) =~= views(lengths@[slot as int]@));
            }
            rows.push(OutputRow::new(group_data, stats_data));
            k += 1;
        }
        let group_length = group_length_of(&rows);
        OutputStringData { output_rows: rows, group_length, output_delimiter }
    }

    /// The delimited-text lines of the rows, or `None` when no output delimiter was
    /// given and a table is to be drawn instead.
    pub fn print(&self) -> (r: Option<Vec<String>>)
        ensures
            r is None <==> self.output_delimiter is None,
            r matches Some(lines) ==> views(lines@) == table_lines(
                self.output_delimiter->0,
                self.group_length as nat,
                string_names(),
                self.output_rows@,
            ),
    {
        match self.output_delimiter {
            None => None,
            Some(d) => Some(render_table(d, self.group_length, &write_string_names(), &self.output_rows)),
        }
    }
}

/// The cells of a column before the caller's: count, cardinality, empty, minimum,
/// maximum of its strings, then the empty and error tallies of its numbers.
pub open spec fn column_cells_ok(cells: Seq<Seq<char>>, s: StringStats, n: NumberStats) -> bool {
    &&& cells.len() == 7
    &&& string_cells_ok(seq![cells[0], cells[2], cells[1], cells[3], cells[4]], s)
    &&& cells[5] == number_cells(n)[1]
    &&& cells[6] == number_cells(n)[2]
}

/// Rows of the per-column mode, in column order, ready for a renderer.
pub struct OutputCsvData {
    pub output_rows: Vec<OutputRow>,
    pub group_length: usize,
    pub output_delimiter: Option<char>,
}

impl OutputCsvData {
    /// One row per column, by descending header and, among equal headers, in column
    /// order: the header, then the column's string and number cells and the cells
    /// `moments` holds for it (number minimum, maximum, mean, standard deviation, then
    /// the same of the value lengths, written by the caller).
    pub fn new(columns: &CsvColumns, moments: &Vec<Vec<String>>, output_delimiter: Option<char>) -> (r: OutputCsvData)
        requires
            columns.wf(),
            moments.len() == columns.spec_headers().len(),
        ensures
            is_column_order(columns.spec_headers(), column_order(columns.spec_headers())),
            r.output_rows.len() == columns.spec_headers().len(),
            forall|k: int|
                0 <= k < r.output_rows.len() ==> {
                    let c = column_order(columns.spec_headers())[k] as int;
                    let stats = views((#[trigger] r.output_rows@[k]).stats_data@);
                    &&& views(r.output_rows@[k].group_data@) == seq![columns.spec_headers()[c]]
                    &&& stats.len() == 7 + moments@[c]@.len()
                    &&& column_cells_ok(
                        stats.take(7),
                        columns.spec_strings()[c],
                        columns.spec_numbers()[c],
                    )
                    &&& stats.skip(7) == views(moments@[c]@)
                },
            r.group_length == first_group_length(r.output_rows@),
            r.output_delimiter == output_delimiter,
    {
        let order = sorted_columns(columns.headers());
        let mut rows: Vec<OutputRow> = Vec::new();
        let mut k: usize = 0;
        while k < order.len()
            invariant
                columns.wf(),
                moments.len() == columns.spec_headers().len(),
                is_column_order(columns.spec_headers(), order@),
                order@ == column_order(columns.spec_headers()),
                k <= order.len(),
                rows.len() == k,
                forall|j: int|
                    0 <= j < k ==> {
                        let c = order@[j] as int;
                        let stats = views((#[trigger] rows@[j]).stats_data@);
                        &&& views(rows@[j].group_data@) == seq![columns.spec_headers()[c]]
                        &&& stats.len() == 7 + moments@[c]@.len()
                        &&& column_cells_ok(
                            stats.take(7),
                            columns.spec_strings()[c],
                            columns.spec_numbers()[c],
                        )
                        &&& stats.skip(7) == views(moments@[c]@)
                    },
            decreases order.len() - k,
        {
            let c = order[k];
            let sc = write_string_cells(columns.strings(c));
            let nc = write_number_cells(columns.numbers(c));
            assert(views(sc@).len() == sc@.len() && views(nc@).len() == nc@.len());
            let mut cells: Vec<String> = Vec::new();
            cells.push(sc[0].clone());
            cells.push(sc[2].clone());
            cells.push(sc[1].clone());
            cells.push(sc[3].clone());
            cells.push(sc[4].clone());
            cells.push(nc[1].clone());
            cells.push(nc[2].clone());
            let ghost c7 = views(cells@);
            proof {
                let s5 = views(sc@);
                assert(seq![c7[0], c7[2], c7[1], c7[3], c7[4]] =~= s5);
            }
            let stats_data = concat(cells, &moments[c]);
            proof {
                let st = views(stats_data@);
                assert(st.take(7) =~= c7);
                assert(st.skip(7) =~= views(moments@[c as int]@));
            }
            let mut group_data: Vec<String> = Vec::new();
            group_data.push(columns.header(c).clone());
            assert(views(group_data@) =~= seq![columns.spec_headers()[c as int]]);
            rows.push(OutputRow::new(group_data, stats_data));
            k += 1;
        }
        let group_length = group_length_of(&rows);
        OutputCsvData { output_rows: rows, group_length, output_delimiter }
    }

    /// The delimited-text lines of the rows, or `None` when no output delimiter was
    /// given and a table is to be drawn instead.
    pub fn print(&self) -> (r: Option<Vec<String>>)
        ensures
            r is None <==> self.output_delimiter is None,
            r matches Some(lines) ==> views(lines@) == table_lines(
                self.output_delimiter->0,
                self.group_length as nat,
                column_names(),
                self.output_rows@,
            ),
    {
        match self.output_delimiter {
            None => None,
            Some(d) => Some(render_table(d, self.group_length, &write_column_names(), &self.output_rows)),
        }
    }
}

/// The statistics of a single series, each beside its name, ready for a renderer.
pub struct OutputData {
    pub stats_names: Vec<String>,
    pub stats_data: Vec<String>,
    pub output_delimiter: Option<char>,
}

impl OutputData {
    /// A numeric series: its tallies, then the cells `moments` holds (minimum,
    /// maximum, sum, mean, standard deviation, written by the caller).
    pub fn numbers(stats: &NumberStats, moments: &Vec<String>, output_delimiter: Option<char>) -> (r: OutputData)
        ensures
            views(r.stats_names@) == number_names(),
            views(r.stats_data@) == number_cells(*stats) + views(moments@),
            r.output_delimiter == output_delimiter,
    {
        OutputData {
            stats_names: write_number_names(),
            stats_data: concat(write_number_cells(stats), moments),
            output_delimiter,
        }
    }

    /// A string series: the cells of its accumulator, then the cells `lengths` holds
    /// (minimum, maximum, mean, standard deviation of the value lengths, written by
    /// the caller).
    pub fn strings(stats: &StringStats, lengths: &Vec<String>, output_delimiter: Option<char>) -> (r: OutputData)
        requires
            stats.wf(),
        ensures
            views(r.stats_names@) == string_names(),
            views(r.stats_data@).len() == 5 + lengths@.len(),
            string_cells_ok(views(r.stats_data@).take(5), *stats),
            views(r.stats_data@).skip(5) == views(lengths@),
            r.output_delimiter == output_delimiter,
    {
        let cells = write_string_cells(stats);
        let stats_data = concat(cells, lengths);
        proof {
            let st = views(stats_data@);
            assert(st.take(5) =~= views(cells@));
            assert(st.skip(5) =~= views(lengths@));
        }
        OutputData { stats_names: write_string_names(), stats_data, output_delimiter }
    }

    /// One `name, delimiter, value` line per statistic, or `None` when no output
    /// delimiter was given and a table is to be drawn instead.
    pub fn print(&self) -> (r: Option<Vec<String>>)
        ensures
            r is None <==> self.output_delimiter is None,
            r matches Some(lines) ==> views(lines@) == pair_lines(
                self.output_delimiter->0,
                views(self.stats_names@),
                views(self.stats_data@),
            ),
    {
        match self.output_delimiter {
            None => None,
            Some(d) => Some(render_pairs(d, &self.stats_names, &self.stats_data)),
        }
    }
}

} // verus!
