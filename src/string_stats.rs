use vstd::prelude::*;
use vstd::string::StringSliceAdditionalSpecFns;

use crate::number_stats::bump;
use crate::text::{lemma_lex_lt_total, lemma_lex_lt_transitive, lex_lt, str_lt, views};

verus! {

broadcast use {vstd::seq_lib::seq_to_set_is_finite, Seq::lemma_to_set_insert_commutes};

/// How many distinct values the accumulator reports when `n` distinct values were
/// seen under the cap `cap`: all of them without a cap, none when the cap is zero,
/// and at most one more than the cap otherwise.
pub open spec fn capped_cardinality(cap: Option<usize>, n: nat) -> nat {
    match cap {
        None => n,
        Some(c) => if c == 0 {
            0
        } else if n <= c + 1 {
            n
        } else {
            (c + 1) as nat
        },
    }
}

/// Whether `m` is the least of `vals` in ordinal order.
pub open spec fn is_least(m: Seq<char>, vals: Set<Seq<char>>) -> bool {
    vals.contains(m) && forall|y: Seq<char>| vals.contains(y) ==> !lex_lt(y, m)
}

/// Whether `m` is the greatest of `vals` in ordinal order.
pub open spec fn is_greatest(m: Seq<char>, vals: Set<Seq<char>>) -> bool {
    vals.contains(m) && forall|y: Seq<char>| vals.contains(y) ==> !lex_lt(m, y)
}

/// Statistics over a sequence of string observations: counts, ordinal minimum and
/// maximum, and the number of distinct values, tracked exactly up to a cap.
pub struct StringStats {
    count: usize,
    null_count: usize,
    error_count: usize,
    min: Option<String>,
    max: Option<String>,
    distinct: Vec<String>,
    cardinality_cap: Option<usize>,
    values: Ghost<Set<Seq<char>>>,
}

fn contains(v: &Vec<String>, s: &String) -> (r: bool)
    ensures
        r == views(v@).contains(s@),
{
    let mut i: usize = 0;
    while i < v.len()
        invariant
            i <= v.len(),
            forall|j: int| 0 <= j < i ==> v@[j]@ != s@,
        decreases v.len() - i,
    {
        if v[i] == *s {
            assert(views(v@)[i as int] == s@);
            return true;
        }
        i += 1;
    }
    assert forall|j: int| 0 <= j < views(v@).len() implies views(v@)[j] != s@ by {
        assert(views(v@)[j] == v@[j]@);
    }
    false
}

impl StringStats {
    /// The distinct non-empty strings observed so far.
    pub closed spec fn seen(&self) -> Set<Seq<char>> {
        self.values@
    }

    pub closed spec fn spec_count(&self) -> usize {
        self.count
    }

    pub closed spec fn spec_null_count(&self) -> usize {
        self.null_count
    }

    pub closed spec fn spec_error_count(&self) -> usize {
        self.error_count
    }

    pub closed spec fn spec_cap(&self) -> Option<usize> {
        self.cardinality_cap
    }

    /// `next` is this accumulator after the non-empty string `v`.
    pub open spec fn added(self, next: StringStats, v: Seq<char>) -> bool {
        &&& next.wf()
        &&& next.seen().finite()
        &&& next.seen() == self.seen().insert(v)
        &&& next.spec_count() == bump(self.spec_count())
        &&& next.spec_null_count() == self.spec_null_count()
        &&& next.spec_error_count() == self.spec_error_count()
        &&& next.spec_cap() == self.spec_cap()
    }

    /// `next` is this accumulator after one empty observation.
    pub open spec fn added_null(self, next: StringStats) -> bool {
        &&& next.wf()
        &&& next.seen().finite()
        &&& next.seen() == self.seen()
        &&& next.spec_count() == self.spec_count()
        &&& next.spec_null_count() == bump(self.spec_null_count())
        &&& next.spec_error_count() == self.spec_error_count()
        &&& next.spec_cap() == self.spec_cap()
    }

    /// `next` is this accumulator after one erroneous observation.
    pub open spec fn added_error(self, next: StringStats) -> bool {
        &&& next.wf()
        &&& next.seen().finite()
        &&& next.seen() == self.seen()
        &&& next.spec_count() == self.spec_count()
        &&& next.spec_null_count() == self.spec_null_count()
        &&& next.spec_error_count() == bump(self.spec_error_count())
        &&& next.spec_cap() == self.spec_cap()
    }

    /// `next` is this accumulator after the raw value `v`: a null when `v` is empty,
    /// else the string itself.
    pub open spec fn observed(self, next: StringStats, v: Seq<char>) -> bool {
        if v.len() == 0 {
            self.added_null(next)
        } else {
            self.added(next, v)
        }
    }

    pub closed spec fn wf(&self) -> bool {
        let d = views(self.distinct@);
        &&& self.values@.finite()
        &&& (self.count == 0) == (self.values@ == Set::<Seq<char>>::empty())
        &&& d.no_duplicates()
        &&& forall|i: int| 0 <= i < d.len() ==> self.values@.contains(#[trigger] d[i])
        &&& match self.cardinality_cap {
            None => d.to_set() == self.values@,
            Some(c) => if c == 0 {
                d.len() == 0
            } else {
                d.len() <= c + 1 && (d.len() <= c ==> d.to_set() == self.values@)
            },
        }
        &&& match self.min {
            None => self.count == 0,
            Some(m) => is_least(m@, self.values@),
        }
        &&& match self.max {
            None => self.count == 0,
            Some(m) => is_greatest(m@, self.values@),
        }
    }

    /// An accumulator with no observation. `None` tracks every distinct value,
    /// `Some(0)` disables tracking, and `Some(c)` stops tracking new values once more
    /// than `c` are held.
    pub fn new(cardinality_cap: Option<usize>) -> (r: StringStats)
        ensures
            r.wf(),
            r.seen().finite(),
            r.seen() == Set::<Seq<char>>::empty(),
            r.spec_count() == 0,
            r.spec_null_count() == 0,
            r.spec_error_count() == 0,
            r.spec_cap() == cardinality_cap,
    {
        let r = StringStats {
            count: 0,
            null_count: 0,
            error_count: 0,
            min: None,
            max: None,
            distinct: Vec::new(),
            cardinality_cap,
            values: Ghost(Set::empty()),
        };
        assert(views(r.distinct@).to_set() =~= Set::<Seq<char>>::empty());
        r
    }

    /// Records one non-empty string.
    pub fn add(&mut self, string: String)
        requires
            old(self).wf(),
        ensures
            old(self).added(*final(self), string@),
    {
        let ghost old_values = self.values@;
        let ghost x = string@;
        let below_min = match &self.min {
            None => true,
            Some(m) => str_lt(string.as_str(), m.as_str()),
        };
        if below_min {
            self.min = Some(string.clone());
        }
        let above_max = match &self.max {
            None => true,
            Some(m) => str_lt(m.as_str(), string.as_str()),
        };
        if above_max {
            self.max = Some(string.clone());
        }
        proof {
            lemma_lex_lt_total(x, x);
            let vals = old_values.insert(x);
            if self.min is Some {
                let m = self.min->0@;
                assert forall|y: Seq<char>| vals.contains(y) implies !lex_lt(y, m) by {
                    if below_min && y != x {
                        if lex_lt(y, x) {
                            lemma_lex_lt_transitive(y, x, old(self).min->0@);
                        }
                    }
                }
            }
            if self.max is Some {
                let m = self.max->0@;
                assert forall|y: Seq<char>| vals.contains(y) implies !lex_lt(m, y) by {
                    if above_max && y != x {
                        if lex_lt(x, y) {
                            lemma_lex_lt_transitive(old(self).max->0@, x, y);
                        }
                    }
                }
            }
        }
        let track = match self.cardinality_cap {
            None => true,
            Some(c) => c > 0 && self.distinct.len() <= c,
        };
        let ghost before = views(self.distinct@);
        if track {
            if !contains(&self.distinct, &string) {
                self.distinct.push(string);
                assert(views(self.distinct@) =~= before.push(x));
                assert(before.push(x) =~= before + seq![x]);
                assert((before + seq![x]).to_set() =~= before.to_set().insert(x));
            } else {
                assert(before.to_set().contains(x));
                assert(old_values.insert(x) =~= old_values);
            }
        }
        self.count = if self.count < usize::MAX {
            self.count + 1
        } else {
            self.count
        };
        self.values = Ghost(old_values.insert(x));
        proof {
            let d = views(self.distinct@);
            assert(self.values@.contains(x));
            assert(forall|i: int| 0 <= i < d.len() ==> self.values@.contains(#[trigger] d[i]));
            assert(self.values@ != Set::<Seq<char>>::empty());
        }
    }

    /// Records the raw value `value`: a null when it is empty, else the string. For a
    /// non-empty value, returns its length in bytes.
    pub fn observe_value(&mut self, value: &str) -> (r: Option<usize>)
        requires
            old(self).wf(),
        ensures
            old(self).observed(*final(self), value@),
            r is None <==> value@.len() == 0,
            r matches Some(n) ==> n == value.spec_bytes().len() as usize,
    {
        if value.is_empty() {
            self.add_null();
            None
        } else {
            let n = value.len();
            self.add(value.to_owned());
            Some(n)
        }
    }

    /// Records one empty observation.
    pub fn add_null(&mut self)
        requires
            old(self).wf(),
        ensures
            old(self).added_null(*final(self)),
    {
        self.null_count = if self.null_count < usize::MAX {
            self.null_count + 1
        } else {
            self.null_count
        };
    }

    /// Records one observation that could not be read as a value.
    pub fn add_error(&mut self)
        requires
            old(self).wf(),
        ensures
            old(self).added_error(*final(self)),
    {
        self.error_count = if self.error_count < usize::MAX {
            self.error_count + 1
        } else {
            self.error_count
        };
    }

    pub fn cardinality_cap(&self) -> (r: Option<usize>)
        ensures
            r == self.spec_cap(),
    {
        self.cardinality_cap
    }

    /// Number of non-empty strings observed.
    pub fn count(&self) -> (r: usize)
        ensures
            r == self.spec_count(),
    {
        self.count
    }

    /// Number of empty observations.
    pub fn null_count(&self) -> (r: usize)
        ensures
            r == self.spec_null_count(),
    {
        self.null_count
    }

    pub fn error_count(&self) -> (r: usize)
        ensures
            r == self.spec_error_count(),
    {
        self.error_count
    }

    /// The least string observed, absent before the first one.
    pub fn min(&self) -> (r: Option<String>)
        requires
            self.wf(),
        ensures
            r is None <==> self.spec_count() == 0,
            r is None <==> self.seen() == Set::<Seq<char>>::empty(),
            r matches Some(m) ==> is_least(m@, self.seen()),
    {
        match &self.min {
            Some(m) => Some(m.clone()),
            None => None,
        }
    }

    /// The greatest string observed, absent before the first one.
    pub fn max(&self) -> (r: Option<String>)
        requires
            self.wf(),
        ensures
            r is None <==> self.spec_count() == 0,
            r is None <==> self.seen() == Set::<Seq<char>>::empty(),
            r matches Some(m) ==> is_greatest(m@, self.seen()),
    {
        match &self.max {
            Some(m) => Some(m.clone()),
            None => None,
        }
    }

    /// Number of distinct strings held, as `capped_cardinality` describes.
    pub fn cardinality(&self) -> (r: usize)
        requires
            self.wf(),
        ensures
            r == capped_cardinality(self.spec_cap(), self.seen().len()),
    {
        proof {
            self.lemma_cardinality();
        }
        self.distinct.len()
    }

    /// Whether the cap stopped the tracking of new values: a non-zero cap `c` with
    /// more than `c` distinct values seen.
    pub fn is_cardinality_capped(&self) -> (r: bool)
        requires
            self.wf(),
        ensures
            r == (self.spec_cap() matches Some(c) && c > 0 && self.seen().len() > c),
    {
        proof {
            self.lemma_cardinality();
        }
        match self.cardinality_cap {
            Some(c) => self.distinct.len() > c,
            None => false,
        }
    }

    pub open spec fn total(&self) -> int {
        self.spec_count() + self.spec_null_count() + self.spec_error_count()
    }

    proof fn lemma_cardinality(&self)
        requires
            self.wf(),
        ensures
            self.distinct.len() == capped_cardinality(self.cardinality_cap, self.values@.len()),
            self.cardinality_cap matches Some(c) ==> (self.distinct.len() > c <==> (c > 0
                && self.values@.len() > c)),
    {
        let d = views(self.distinct@);
        d.unique_seq_to_set();
        assert(d.to_set().subset_of(self.values@));
        vstd::set_lib::lemma_len_subset(d.to_set(), self.values@);
    }
}

/// The strings seen by a well-formed accumulator form a finite set.
pub proof fn lemma_seen_finite(s: StringStats)
    requires
        s.wf(),
    ensures
        s.seen().finite(),
{
}

/// Adding a string never lowers the reported cardinality, and once the cap stopped
/// the tracking, it stays stopped and the cardinality stays where it was.
pub proof fn lemma_add_keeps_cardinality(a: StringStats, b: StringStats, v: Seq<char>)
    requires
        a.wf(),
        a.added(b, v),
    ensures
        capped_cardinality(b.spec_cap(), b.seen().len()) >= capped_cardinality(a.spec_cap(), a.seen().len()),
        (a.spec_cap() is Some && a.spec_cap()->0 > 0 && a.seen().len() > a.spec_cap()->0) ==> {
            &&& b.seen().len() > a.spec_cap()->0
            &&& capped_cardinality(b.spec_cap(), b.seen().len()) == capped_cardinality(
                a.spec_cap(),
                a.seen().len(),
            )
        },
{
    assert(a.seen().subset_of(b.seen()));
    vstd::set_lib::lemma_len_subset(a.seen(), b.seen());
}

/// Every raw value routed into a string accumulator is counted exactly once, as a
/// string or as a null, short of saturation.
pub proof fn lemma_value_counted_once(a: StringStats, b: StringStats, v: Seq<char>)
    requires
        a.observed(b, v),
        a.total() < usize::MAX,
    ensures
        b.total() == a.total() + 1,
{
}

/// A string accumulator that starts with no observation and is fed the raw values
/// `vals` one by one (`states[i + 1]` being `states[i]` after `vals[i]`) counts
/// every value once: `count + null_count + error_count` equals the number of values.
pub proof fn lemma_every_string_counted(states: Seq<StringStats>, vals: Seq<Seq<char>>)
    requires
        states.len() == vals.len() + 1,
        vals.len() < usize::MAX,
        states[0].total() == 0,
        forall|i: int| 0 <= i < vals.len() ==> states[i].observed(states[i + 1], #[trigger] vals[i]),
    ensures
        states.last().total() == vals.len(),
{
    lemma_prefix_counted(states, vals, vals.len() as int);
}

proof fn lemma_prefix_counted(states: Seq<StringStats>, vals: Seq<Seq<char>>, n: int)
    requires
        states.len() == vals.len() + 1,
        vals.len() < usize::MAX,
        0 <= n <= vals.len(),
        states[0].total() == 0,
        forall|i: int| 0 <= i < vals.len() ==> states[i].observed(states[i + 1], #[trigger] vals[i]),
    ensures
        states[n].total() == n,
    decreases n,
{
    if n > 0 {
        lemma_prefix_counted(states, vals, n - 1);
        assert(states[n - 1].observed(states[n], vals[n - 1]));
        lemma_value_counted_once(states[n - 1], states[n], vals[n - 1]);
    }
}

} // verus!
