use vstd::prelude::*;

use crate::number_stats::NumberStats;
use crate::string_stats::{capped_cardinality, is_greatest, is_least, StringStats};
use crate::text::{decimal, decimal_string, push_char, views};

verus! {

/// The tallies of a numeric accumulator, written out: count, empty, error.
pub open spec fn number_cells(s: NumberStats) -> Seq<Seq<char>> {
    seq![
        decimal(s.spec_count() as nat),
        decimal(s.spec_empty_count() as nat),
        decimal(s.spec_error_count() as nat),
    ]
}

/// The distinct-value count as reported: `disabled` under a zero cap, the cap
/// followed by `+` once it stopped the tracking, else the count itself.
pub open spec fn cardinality_cell(s: StringStats) -> Seq<char> {
    match s.spec_cap() {
        Some(c) => if c == 0 {
            "disabled"@
        } else if s.seen().len() > c {
            decimal(c as nat).push('+')
        } else {
            decimal(capped_cardinality(s.spec_cap(), s.seen().len()))
        },
        None => decimal(s.seen().len()),
    }
}

/// `cell` is the least string seen by `s`, or empty when it saw none.
pub open spec fn least_cell(cell: Seq<char>, s: StringStats) -> bool {
    if s.seen() == Set::<Seq<char>>::empty() {
        cell.len() == 0
    } else {
        is_least(cell, s.seen())
    }
}

/// `cell` is the greatest string seen by `s`, or empty when it saw none.
pub open spec fn greatest_cell(cell: Seq<char>, s: StringStats) -> bool {
    if s.seen() == Set::<Seq<char>>::empty() {
        cell.len() == 0
    } else {
        is_greatest(cell, s.seen())
    }
}

/// The cells of a string accumulator: count, empty, cardinality, minimum, maximum.
pub open spec fn string_cells_ok(cells: Seq<Seq<char>>, s: StringStats) -> bool {
    &&& cells.len() == 5
    &&& cells[0] == decimal(s.spec_count() as nat)
    &&& cells[1] == decimal(s.spec_null_count() as nat)
    &&& cells[2] == cardinality_cell(s)
    &&& least_cell(cells[3], s)
    &&& greatest_cell(cells[4], s)
}

/// Writes the tallies of `s` as decimal cells.
pub fn write_number_cells(s: &NumberStats) -> (r: Vec<String>)
    ensures
        views(r@) == number_cells(*s),
{
    let mut r: Vec<String> = Vec::new();
    r.push(decimal_string(s.count()));
    r.push(decimal_string(s.empty_count()));
    r.push(decimal_string(s.error_count()));
    assert(views(r@) =~= number_cells(*s));
    r
}

/// Writes the distinct-value count of `s` as `cardinality_cell` describes.
pub fn write_cardinality(s: &StringStats) -> (r: String)
    requires
        s.wf(),
    ensures
        r@ == cardinality_cell(*s),
{
    let n = s.cardinality();
    match s.cardinality_cap() {
        Some(c) => if c == 0 {
            "disabled".to_owned()
        } else if s.is_cardinality_capped() {
            let mut r = decimal_string(c);
            push_char(&mut r, '+');
            r
        } else {
            decimal_string(n)
        },
        None => decimal_string(n),
    }
}

/// Writes the cells of `s`: count, empty, cardinality, minimum, maximum.
pub fn write_string_cells(s: &StringStats) -> (r: Vec<String>)
    requires
        s.wf(),
    ensures
        string_cells_ok(views(r@), *s),
{
    let mut r: Vec<String> = Vec::new();
    r.push(decimal_string(s.count()));
    r.push(decimal_string(s.null_count()));
    r.push(write_cardinality(s));
    r.push(
        match s.min() {
            Some(m) => m,
            None => String::new(),
        },
    );
    r.push(
        match s.max() {
            Some(m) => m,
            None => String::new(),
        },
    );
    assert(views(r@).len() == 5);
    r
}

} // verus!
