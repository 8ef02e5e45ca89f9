use vstd::prelude::*;

use crate::observation::{classify, classify_spec, Observation, Parsed};

verus! {

/// One more, stopping at `usize::MAX`.
pub open spec fn bump(n: usize) -> usize {
    if n < usize::MAX {
        (n + 1) as usize
    } else {
        n
    }
}

fn bump_exec(n: usize) -> (r: usize)
    ensures
        r == bump(n),
{
    if n < usize::MAX {
        n + 1
    } else {
        n
    }
}

/// The tallies of a numeric accumulator: how many observations were numeric, empty or
/// erroneous. Any three counts make a valid accumulator. The running moments of the
/// numeric values (sum, mean, variance, extremes) are floating point and are kept
/// beside it by the caller.
#[derive(Clone, Copy)]
pub struct NumberStats {
    pub count: usize,
    pub empty_count: usize,
    pub error_count: usize,
}

impl NumberStats {
    pub open spec fn spec_count(&self) -> usize {
        self.count
    }

    pub open spec fn spec_empty_count(&self) -> usize {
        self.empty_count
    }

    pub open spec fn spec_error_count(&self) -> usize {
        self.error_count
    }

    /// The accumulator with no observation.
    pub open spec fn spec_new() -> NumberStats {
        NumberStats { count: 0, empty_count: 0, error_count: 0 }
    }

    /// The accumulator after one more observation `o`.
    pub open spec fn after(self, o: Observation) -> NumberStats {
        match o {
            Observation::Numeric => NumberStats { count: bump(self.count), ..self },
            Observation::Empty => NumberStats { empty_count: bump(self.empty_count), ..self },
            Observation::Error => NumberStats { error_count: bump(self.error_count), ..self },
        }
    }

    /// The accumulator after the observations `obs`, in order.
    pub open spec fn after_all(self, obs: Seq<Observation>) -> NumberStats
        decreases obs.len(),
    {
        if obs.len() == 0 {
            self
        } else {
            self.after_all(obs.drop_last()).after(obs.last())
        }
    }

    pub open spec fn total(&self) -> int {
        self.spec_count() + self.spec_empty_count() + self.spec_error_count()
    }

    pub fn new() -> (r: NumberStats)
        ensures
            r == NumberStats::spec_new(),
            r.spec_count() == 0,
            r.spec_empty_count() == 0,
            r.spec_error_count() == 0,
    {
        NumberStats { count: 0, empty_count: 0, error_count: 0 }
    }

    /// Records one numeric observation.
    pub fn add(&mut self)
        ensures
            *final(self) == old(self).after(Observation::Numeric),
    {
        self.count = bump_exec(self.count);
    }

    /// Records one empty observation.
    pub fn add_empty(&mut self)
        ensures
            *final(self) == old(self).after(Observation::Empty),
    {
        self.empty_count = bump_exec(self.empty_count);
    }

    /// Records one observation that is not a number.
    pub fn add_error(&mut self)
        ensures
            *final(self) == old(self).after(Observation::Error),
    {
        self.error_count = bump_exec(self.error_count);
    }

    /// Records an observation of whichever kind `o` is.
    pub fn observe(&mut self, o: Observation)
        ensures
            *final(self) == old(self).after(o),
    {
        match o {
            Observation::Numeric => self.add(),
            Observation::Empty => self.add_empty(),
            Observation::Error => self.add_error(),
        }
    }

    /// Classifies `raw`, whose value reads as `parsed`, and records it; returns the
    /// classification.
    pub fn observe_value(&mut self, raw: &str, zero_or_empty_as_null: bool, parsed: Parsed) -> (r: Observation)
        ensures
            r == classify_spec(raw@, zero_or_empty_as_null, parsed),
            *final(self) == old(self).after(r),
    {
        let o = classify(raw, zero_or_empty_as_null, parsed);
        self.observe(o);
        o
    }

    pub fn count(&self) -> (r: usize)
        ensures
            r == self.spec_count(),
    {
        self.count
    }

    pub fn empty_count(&self) -> (r: usize)
        ensures
            r == self.spec_empty_count(),
    {
        self.empty_count
    }

    pub fn error_count(&self) -> (r: usize)
        ensures
            r == self.spec_error_count(),
    {
        self.error_count
    }
}

/// Each observation moves exactly one of the three tallies up by one, short of
/// saturation.
pub proof fn lemma_after_total(s: NumberStats, o: Observation)
    requires
        s.total() < usize::MAX,
    ensures
        s.after(o).total() == s.total() + 1,
        s.after(o).spec_count() == s.spec_count() + (if o == Observation::Numeric { 1int } else { 0 }),
        s.after(o).spec_empty_count() == s.spec_empty_count() + (if o == Observation::Empty { 1int } else { 0 }),
        s.after(o).spec_error_count() == s.spec_error_count() + (if o == Observation::Error { 1int } else { 0 }),
{
}

/// Number of times `o` occurs in `obs`.
pub open spec fn occurrences(obs: Seq<Observation>, o: Observation) -> nat
    decreases obs.len(),
{
    if obs.len() == 0 {
        0
    } else {
        occurrences(obs.drop_last(), o) + if obs.last() == o {
            1nat
        } else {
            0nat
        }
    }
}

/// A fresh accumulator fed the observations `obs` counts each kind as often as it
/// occurs, so `count + empty_count + error_count` is the number of observations.
pub proof fn lemma_every_observation_counted(obs: Seq<Observation>)
    requires
        obs.len() < usize::MAX,
    ensures
        NumberStats::spec_new().after_all(obs).count == occurrences(obs, Observation::Numeric),
        NumberStats::spec_new().after_all(obs).empty_count == occurrences(obs, Observation::Empty),
        NumberStats::spec_new().after_all(obs).error_count == occurrences(obs, Observation::Error),
        NumberStats::spec_new().after_all(obs).total() == obs.len(),
    decreases obs.len(),
{
    if obs.len() > 0 {
        lemma_every_observation_counted(obs.drop_last());
        lemma_after_total(NumberStats::spec_new().after_all(obs.drop_last()), obs.last());
    }
}

/// The observations of the raw values `vals`, the value of `vals[i]` reading as
/// `parsed[i]`.
pub open spec fn classify_all(vals: Seq<Seq<char>>, zero_or_empty_as_null: bool, parsed: Seq<Parsed>) -> Seq<Observation> {
    Seq::new(vals.len(), |i: int| classify_spec(vals[i], zero_or_empty_as_null, parsed[i]))
}

/// Every value routed into one accumulator is counted exactly once:
/// `count + empty_count + error_count` equals the number of values.
pub proof fn lemma_every_value_counted(vals: Seq<Seq<char>>, zero_or_empty_as_null: bool, parsed: Seq<Parsed>)
    requires
        vals.len() < usize::MAX,
        parsed.len() == vals.len(),
    ensures
        NumberStats::spec_new().after_all(classify_all(vals, zero_or_empty_as_null, parsed)).total()
            == vals.len(),
{
    lemma_every_observation_counted(classify_all(vals, zero_or_empty_as_null, parsed));
}

} // verus!
