use vstd::prelude::*;

use crate::text::{join, join_with, push_char, push_str, repeat, repeat_char, views};

verus! {

/// One output row: the components of its group key, then its statistics, each
/// already written out.
pub struct OutputRow {
    pub group_data: Vec<String>,
    pub stats_data: Vec<String>,
}

impl OutputRow {
    pub fn new(group_data: Vec<String>, stats_data: Vec<String>) -> (r: OutputRow)
        ensures
            r.group_data == group_data,
            r.stats_data == stats_data,
    {
        OutputRow { group_data, stats_data }
    }
}

/// The delimited-text header: one delimiter per key component, then the statistic
/// names joined with the delimiter.
pub open spec fn header_line(d: char, group_length: nat, names: Seq<Seq<char>>) -> Seq<char> {
    repeat(d, group_length) + join(names, d)
}

/// A delimited-text row: the key components, the delimiter, then the statistics.
pub open spec fn row_line(d: char, row: OutputRow) -> Seq<char> {
    join(views(row.group_data@), d).push(d) + join(views(row.stats_data@), d)
}

/// The lines of delimited text for a table of rows: the header line, then one line
/// per row in order.
pub open spec fn table_lines(d: char, group_length: nat, names: Seq<Seq<char>>, rows: Seq<OutputRow>) -> Seq<Seq<char>> {
    seq![header_line(d, group_length, names)] + rows.map_values(|row: OutputRow| row_line(d, row))
}

/// Writes a table of rows as delimited text.
pub fn render_table(d: char, group_length: usize, names: &Vec<String>, rows: &Vec<OutputRow>) -> (r: Vec<String>)
    ensures
        views(r@) == table_lines(d, group_length as nat, views(names@), rows@),
{
    let mut header = repeat_char(d, group_length);
    let joined = join_with(names, d);
    push_str(&mut header, joined.as_str());
    let mut lines: Vec<String> = Vec::new();
    lines.push(header);
    let mut i: usize = 0;
    while i < rows.len()
        invariant
            i <= rows.len(),
            views(lines@) == table_lines(d, group_length as nat, views(names@), rows@.take(i as int)),
        decreases rows.len() - i,
    {
        let mut line = join_with(&rows[i].group_data, d);
        push_char(&mut line, d);
        let stats = join_with(&rows[i].stats_data, d);
        push_str(&mut line, stats.as_str());
        let ghost before = views(lines@);
        lines.push(line);
        proof {
            assert(views(lines@) =~= before.push(row_line(d, rows@[i as int])));
            assert(rows@.take(i + 1) =~= rows@.take(i as int).push(rows@[i as int]));
            assert(table_lines(d, group_length as nat, views(names@), rows@.take(i + 1)) =~= before.push(
                row_line(d, rows@[i as int]),
            ));
        }
        i += 1;
    }
    assert(rows@.take(rows.len() as int) =~= rows@);
    lines
}

/// The lines of delimited text for a single series: one `name, delimiter, value`
/// line per statistic, as far as both lists go.
pub open spec fn pair_lines(d: char, names: Seq<Seq<char>>, values: Seq<Seq<char>>) -> Seq<Seq<char>> {
    Seq::new(
        if names.len() <= values.len() { names.len() } else { values.len() },
        |i: int| names[i].push(d) + values[i],
    )
}

/// Writes a single series as delimited text.
pub fn render_pairs(d: char, names: &Vec<String>, values: &Vec<String>) -> (r: Vec<String>)
    ensures
        views(r@) == pair_lines(d, views(names@), views(values@)),
{
    let n = if names.len() <= values.len() {
        names.len()
    } else {
        values.len()
    };
    let mut lines: Vec<String> = Vec::new();
    let mut i: usize = 0;
    while i < n
        invariant
            i <= n,
            n <= names.len(),
            n <= values.len(),
            views(lines@) == pair_lines(d, views(names@), views(values@)).take(i as int),
        decreases n - i,
    {
        let mut line = names[i].clone();
        push_char(&mut line, d);
        push_str(&mut line, values[i].as_str());
        let ghost before = views(lines@);
        let ghost lv = line@;
        assert(lv == views(names@)[i as int].push(d) + views(values@)[i as int]);
        lines.push(line);
        assert(views(lines@) =~= before.push(lv));
        assert(views(lines@) =~= pair_lines(d, views(names@), views(values@)).take(i + 1));
        i += 1;
    }
    assert(views(lines@) =~= pair_lines(d, views(names@), views(values@)));
    lines
}

} // verus!
