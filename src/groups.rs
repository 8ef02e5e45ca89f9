use vstd::prelude::*;
use vstd::string::StringSliceAdditionalSpecFns;

use crate::number_stats::{lemma_after_total, NumberStats};
use crate::observation::{classify_spec, Observation, Parsed};
use crate::string_stats::StringStats;
use crate::keys::{lemma_slot_of_bounds, slot_of, GroupKeys};
use crate::order::is_descending_order;
use crate::text::{rsplit_once, rsplit_once_spec};

verus! {

/// The key of the group that collects lines without a delimiter.
pub open spec fn invalid_key() -> Seq<char> {
    seq!['<', 'I', 'N', 'V', 'A', 'L', 'I', 'D', '>']
}

/// The group key of a grouped-mode line: all before its last delimiter, or the
/// sentinel key when it has none.
pub open spec fn line_key(line: Seq<char>, d: char) -> Seq<char> {
    match rsplit_once_spec(line, d) {
        Some((g, _)) => g,
        None => invalid_key(),
    }
}

/// The value of a grouped-mode line: all after its last delimiter.
pub open spec fn line_value(line: Seq<char>, d: char) -> Option<Seq<char>> {
    match rsplit_once_spec(line, d) {
        Some((_, v)) => Some(v),
        None => None,
    }
}

/// What a grouped numeric line contributes: the classification of its value, which
/// reads as `parsed`, or an error for a line without a delimiter.
pub open spec fn line_observation(line: Seq<char>, d: char, zero_or_empty_as_null: bool, parsed: Parsed) -> Observation {
    match line_value(line, d) {
        Some(v) => classify_spec(v, zero_or_empty_as_null, parsed),
        None => Observation::Error,
    }
}

/// A numeric observation handed to the caller, which keeps the floating-point moments
/// of each slot: the slot it was routed to and the field's text.
pub struct NumberSample {
    pub slot: usize,
    pub text: String,
}

/// The length in bytes of a non-empty string observation, and the slot it was
/// routed to.
pub struct LengthSample {
    pub slot: usize,
    pub length: usize,
}

fn invalid_key_string() -> (r: String)
    ensures
        r@ == invalid_key(),
{
    let r = "<INVALID>".to_owned();
    proof {
        reveal_strlit("<INVALID>");
    }
    assert(r@ =~= invalid_key());
    r
}

/// The grouped numeric table: a numeric accumulator for each group key, in the order
/// the keys first appeared.
pub struct NumberGroups {
    keys: GroupKeys,
    stats: Vec<NumberStats>,
}

impl NumberGroups {
    pub closed spec fn spec_keys(&self) -> Seq<Seq<char>> {
        self.keys.spec_keys()
    }

    pub closed spec fn spec_stats(&self) -> Seq<NumberStats> {
        self.stats@
    }

    pub closed spec fn keys_wf(&self) -> bool {
        self.keys.wf()
    }

    pub open spec fn wf(&self) -> bool {
        &&& self.keys_wf()
        &&& self.spec_keys().len() == self.spec_stats().len()
    }

    /// The table after routing one observation `o` to the group `k`, which is created
    /// on first use.
    pub open spec fn routed(self, next: NumberGroups, k: Seq<char>, o: Observation) -> bool {
        &&& next.wf()
        &&& (next.spec_keys(), next.spec_stats()) == route_step(self.spec_keys(), self.spec_stats(), k, o)
    }

    pub fn new() -> (r: NumberGroups)
        ensures
            r.wf(),
            r.spec_keys() == Seq::<Seq<char>>::empty(),
    {
        NumberGroups { keys: GroupKeys::new(), stats: Vec::new() }
    }

    pub fn keys(&self) -> (r: &Vec<String>)
        ensures
            crate::text::views(r@) == self.spec_keys(),
    {
        self.keys.keys()
    }

    pub fn len(&self) -> (r: usize)
        ensures
            r == self.spec_keys().len(),
    {
        self.keys.len()
    }

    pub fn key(&self, slot: usize) -> (r: &String)
        requires
            slot < self.spec_keys().len(),
        ensures
            r@ == self.spec_keys()[slot as int],
    {
        self.keys.key(slot)
    }

    pub fn stats(&self, slot: usize) -> (r: &NumberStats)
        requires
            self.wf(),
            slot < self.spec_keys().len(),
        ensures
            *r == self.spec_stats()[slot as int],
    {
        &self.stats[slot]
    }

    /// The slots by strictly descending key.
    pub fn descending(&self) -> (r: Vec<usize>)
        requires
            self.wf(),
        ensures
            is_descending_order(self.spec_keys(), r@),
    {
        self.keys.descending()
    }

    /// Routes the observation `o` to the group `k`, creating the group if needed;
    /// returns its slot.
    fn route(&mut self, k: String, o: Observation) -> (slot: usize)
        requires
            old(self).wf(),
        ensures
            old(self).routed(*final(self), k@, o),
            slot == slot_of(final(self).spec_keys(), k@),
            slot < final(self).spec_keys().len(),
    {
        let ghost kv = k@;
        let slot = self.keys.slot(k);
        if slot < self.stats.len() {
            self.stats[slot].observe(o);
        } else {
            let mut s = NumberStats::new();
            s.observe(o);
            self.stats.push(s);
        }
        proof {
            lemma_slot_of_bounds(old(self).spec_keys(), kv);
            if slot_of(old(self).spec_keys(), kv) >= 0 {
                assert(self.spec_stats() =~= old(self).spec_stats().update(
                    slot as int,
                    old(self).spec_stats()[slot as int].after(o),
                ));
            } else {
                assert(self.spec_stats() =~= old(self).spec_stats().push(
                    NumberStats::spec_new().after(o),
                ));
            }
        }
        slot
    }

    /// Routes one line: the text after its last `delimiter` is classified and
    /// observed in the group named by the text before it; a line without the
    /// delimiter counts as an error of the sentinel group. `parsed` is what the value
    /// reads as. Returns the sample whose value the caller adds to the slot's
    /// moments, for a numeric observation.
    pub fn observe_line(
        &mut self,
        line: &str,
        delimiter: char,
        zero_or_empty_as_null: bool,
        parsed: Parsed,
    ) -> (r: Option<NumberSample>)
        requires
            old(self).wf(),
        ensures
            old(self).routed(
                *final(self),
                line_key(line@, delimiter),
                line_observation(line@, delimiter, zero_or_empty_as_null, parsed),
            ),
            r is Some <==> line_observation(line@, delimiter, zero_or_empty_as_null, parsed) == Observation::Numeric,
            r matches Some(s) ==> {
                &&& s.slot == slot_of(final(self).spec_keys(), line_key(line@, delimiter))
                &&& s.slot < final(self).spec_keys().len()
                &&& line_value(line@, delimiter) == Some(s.text@)
            },
    {
        match rsplit_once(line, delimiter) {
            Some((group, value)) => {
                let o = crate::observation::classify(value.as_str(), zero_or_empty_as_null, parsed);
                let slot = self.route(group, o);
                if o == Observation::Numeric {
                    Some(NumberSample { slot, text: value })
                } else {
                    None
                }
            },
            None => {
                self.route(invalid_key_string(), Observation::Error);
                None
            },
        }
    }
}

/// Keys and accumulators after routing the observation `o` to the group `k`: the
/// group's accumulator records it, and a new group is added when `k` is new.
pub open spec fn route_step(keys: Seq<Seq<char>>, stats: Seq<NumberStats>, k: Seq<char>, o: Observation) -> (
    Seq<Seq<char>>,
    Seq<NumberStats>,
) {
    let i = slot_of(keys, k);
    if i >= 0 {
        (keys, stats.update(i, stats[i].after(o)))
    } else {
        (keys.push(k), stats.push(NumberStats::spec_new().after(o)))
    }
}

/// Keys and accumulators of a grouped numeric table fed `lines` in order, starting
/// empty; the value of `lines[i]` reads as `parsed[i]`.
pub open spec fn route_all(lines: Seq<Seq<char>>, d: char, zero_or_empty_as_null: bool, parsed: Seq<Parsed>) -> (
    Seq<Seq<char>>,
    Seq<NumberStats>,
)
    decreases lines.len(),
{
    if lines.len() == 0 || parsed.len() != lines.len() {
        (Seq::empty(), Seq::empty())
    } else {
        let prev = route_all(lines.drop_last(), d, zero_or_empty_as_null, parsed.drop_last());
        route_step(
            prev.0,
            prev.1,
            line_key(lines.last(), d),
            line_observation(lines.last(), d, zero_or_empty_as_null, parsed.last()),
        )
    }
}

/// Number of lines whose group key is `k`.
pub open spec fn lines_routed_to(lines: Seq<Seq<char>>, d: char, k: Seq<char>) -> nat
    decreases lines.len(),
{
    if lines.len() == 0 {
        0
    } else {
        lines_routed_to(lines.drop_last(), d, k) + if line_key(lines.last(), d) == k {
            1nat
        } else {
            0nat
        }
    }
}

proof fn lemma_routed_to_bound(lines: Seq<Seq<char>>, d: char, k: Seq<char>)
    ensures
        lines_routed_to(lines, d, k) <= lines.len(),
    decreases lines.len(),
{
    if lines.len() > 0 {
        lemma_routed_to_bound(lines.drop_last(), d, k);
    }
}

/// In a grouped numeric table fed a finite sequence of lines, each group's
/// `count + empty_count + error_count` is the number of lines routed to it, and every
/// line's group exists.
pub proof fn lemma_every_line_counted(
    lines: Seq<Seq<char>>,
    d: char,
    zero_or_empty_as_null: bool,
    parsed: Seq<Parsed>,
)
    requires
        lines.len() < usize::MAX,
        parsed.len() == lines.len(),
    ensures
        ({
            let (keys, stats) = route_all(lines, d, zero_or_empty_as_null, parsed);
            &&& keys.len() == stats.len()
            &&& keys.no_duplicates()
            &&& forall|i: int|
                0 <= i < keys.len() ==> (#[trigger] stats[i]).total() == lines_routed_to(lines, d, keys[i])
            &&& forall|j: int| 0 <= j < lines.len() ==> keys.contains(line_key(#[trigger] lines[j], d))
        }),
    decreases lines.len(),
{
    if lines.len() > 0 {
        let pl = lines.drop_last();
        let pp = parsed.drop_last();
        lemma_every_line_counted(pl, d, zero_or_empty_as_null, pp);
        let (keys0, stats0) = route_all(pl, d, zero_or_empty_as_null, pp);
        let k = line_key(lines.last(), d);
        let o = line_observation(lines.last(), d, zero_or_empty_as_null, parsed.last());
        let (keys, stats) = route_all(lines, d, zero_or_empty_as_null, parsed);
        assert((keys, stats) == route_step(keys0, stats0, k, o));
        let i = slot_of(keys0, k);
        lemma_slot_of_bounds(keys0, k);
        assert forall|j: int| 0 <= j < keys0.len() implies (#[trigger] stats0[j]).total() < usize::MAX by {
            lemma_routed_to_bound(pl, d, keys0[j]);
        }
        if i >= 0 {
            lemma_after_total(stats0[i], o);
            assert forall|j: int| 0 <= j < keys.len() implies (#[trigger] stats[j]).total()
                == lines_routed_to(lines, d, keys[j]) by {
                if j != i {
                    assert(keys0[j] != k) by {
                        assert(keys0.no_duplicates());
                    }
                }
            }
        } else {
            lemma_after_total(NumberStats::spec_new(), o);
            assert(!keys0.contains(k)) by {
                if keys0.contains(k) {
                    let j = choose|j: int| 0 <= j < keys0.len() && keys0[j] == k;
                    lemma_absent(keys0, k, j);
                }
            }
            assert(lines_routed_to(pl, d, k) == 0) by {
                if lines_routed_to(pl, d, k) > 0 {
                    lemma_routed_to_positive(pl, d, k);
                    let j = choose|j: int| 0 <= j < pl.len() && line_key(pl[j], d) == k;
                    assert(keys0.contains(line_key(pl[j], d)));
                }
            }
            assert forall|a: int, b: int|
                0 <= a < keys.len() && 0 <= b < keys.len() && a != b implies keys[a] != keys[b] by {
                if a < keys0.len() && b == keys0.len() {
                    assert(keys0.contains(keys0[a]));
                }
                if b < keys0.len() && a == keys0.len() {
                    assert(keys0.contains(keys0[b]));
                }
            }
            assert forall|j: int| 0 <= j < keys.len() implies (#[trigger] stats[j]).total()
                == lines_routed_to(lines, d, keys[j]) by {
                if j < keys0.len() {
                    assert(keys0[j] != k) by {
                        assert(keys0.contains(keys0[j]));
                    }
                }
            }
        }
        assert forall|j: int| 0 <= j < lines.len() implies keys.contains(line_key(#[trigger] lines[j], d)) by {
            if j < pl.len() {
                assert(pl[j] == lines[j]);
                let x = line_key(lines[j], d);
                assert(keys0.contains(x));
                let m = choose|m: int| 0 <= m < keys0.len() && keys0[m] == x;
                assert(keys[m] == x);
            } else {
                lemma_slot_of_bounds(keys, k);
                if i >= 0 {
                    assert(keys[i] == k);
                } else {
                    assert(keys[keys0.len() as int] == k);
                }
            }
        }
    }
}

proof fn lemma_routed_to_positive(lines: Seq<Seq<char>>, d: char, k: Seq<char>)
    requires
        lines_routed_to(lines, d, k) > 0,
    ensures
        exists|j: int| 0 <= j < lines.len() && line_key(lines[j], d) == k,
    decreases lines.len(),
{
    if line_key(lines.last(), d) == k {
        assert(line_key(lines[lines.len() - 1], d) == k);
    } else {
        lemma_routed_to_positive(lines.drop_last(), d, k);
        let j = choose|j: int| 0 <= j < lines.len() - 1 && line_key(lines.drop_last()[j], d) == k;
        assert(lines[j] == lines.drop_last()[j]);
    }
}

/// A routed line is counted exactly once, in the group its key names, and leaves
/// every other group as it was.
pub proof fn lemma_line_counted_once(a: NumberGroups, b: NumberGroups, k: Seq<char>, o: Observation)
    requires
        a.wf(),
        a.routed(b, k, o),
        forall|j: int| 0 <= j < a.spec_stats().len() ==> (#[trigger] a.spec_stats()[j]).total() < usize::MAX,
    ensures
        ({
            let i = slot_of(b.spec_keys(), k);
            &&& 0 <= i < b.spec_stats().len()
            &&& b.spec_keys()[i] == k
            &&& b.spec_stats()[i].total() == (if i < a.spec_stats().len() {
                a.spec_stats()[i].total()
            } else {
                0
            }) + 1
            &&& forall|j: int|
                0 <= j < a.spec_stats().len() && j != i ==> b.spec_stats()[j] == a.spec_stats()[j]
        }),
{
    let i = slot_of(a.spec_keys(), k);
    lemma_slot_of_bounds(a.spec_keys(), k);
    lemma_slot_of_bounds(b.spec_keys(), k);
    if i >= 0 {
        lemma_after_total(a.spec_stats()[i], o);
    } else {
        assert(b.spec_keys()[a.spec_keys().len() as int] == k);
        if slot_of(b.spec_keys(), k) != a.spec_keys().len() {
            assert(slot_of(b.spec_keys(), k) < a.spec_keys().len());
            assert(a.spec_keys()[slot_of(b.spec_keys(), k)] == k);
            assert(a.spec_keys().contains(k));
            let j = slot_of(b.spec_keys(), k);
            assert(false) by {
                // `k` was absent from `a`
                assert(b.spec_keys()[j] == a.spec_keys()[j]);
                lemma_absent(a.spec_keys(), k, j);
            }
        }
        lemma_after_total(NumberStats::spec_new(), o);
    }
}

proof fn lemma_absent(keys: Seq<Seq<char>>, k: Seq<char>, j: int)
    requires
        slot_of(keys, k) < 0,
        0 <= j < keys.len(),
    ensures
        keys[j] != k,
    decreases keys.len(),
{
    if keys.last() != k && j < keys.len() - 1 {
        lemma_absent(keys.drop_last(), k, j);
    }
}

/// The grouped string table: a string accumulator for each group key, in the order
/// the keys first appeared, all with one cardinality cap.
pub struct StringGroups {
    keys: GroupKeys,
    stats: Vec<StringStats>,
    cardinality_cap: Option<usize>,
}

impl StringGroups {
    pub closed spec fn spec_keys(&self) -> Seq<Seq<char>> {
        self.keys.spec_keys()
    }

    pub closed spec fn spec_stats(&self) -> Seq<StringStats> {
        self.stats@
    }

    pub closed spec fn spec_cap(&self) -> Option<usize> {
        self.cardinality_cap
    }

    pub closed spec fn keys_wf(&self) -> bool {
        self.keys.wf()
    }

    pub open spec fn wf(&self) -> bool {
        &&& self.keys_wf()
        &&& self.spec_keys().len() == self.spec_stats().len()
        &&& forall|i: int|
            0 <= i < self.spec_stats().len() ==> (#[trigger] self.spec_stats()[i]).wf()
                && self.spec_stats()[i].spec_cap() == self.spec_cap()
    }

    /// The table after routing the raw value `v` to the group `k`, created on first
    /// use; `None` stands for a line without a delimiter, counted as an error.
    pub open spec fn routed(self, next: StringGroups, k: Seq<char>, v: Option<Seq<char>>) -> bool {
        let i = slot_of(self.spec_keys(), k);
        &&& next.wf()
        &&& next.spec_cap() == self.spec_cap()
        &&& if i >= 0 {
            &&& next.spec_keys() == self.spec_keys()
            &&& next.spec_stats().len() == self.spec_stats().len()
            &&& string_step(self.spec_stats()[i], next.spec_stats()[i], v)
            &&& forall|j: int|
                0 <= j < self.spec_stats().len() && j != i ==> next.spec_stats()[j]
                    == self.spec_stats()[j]
        } else {
            &&& next.spec_keys() == self.spec_keys().push(k)
            &&& next.spec_stats().drop_last() == self.spec_stats()
            &&& string_start(next.spec_stats().last(), self.spec_cap(), v)
        }
    }

    pub fn new(cardinality_cap: Option<usize>) -> (r: StringGroups)
        ensures
            r.wf(),
            r.spec_keys() == Seq::<Seq<char>>::empty(),
            r.spec_cap() == cardinality_cap,
    {
        StringGroups { keys: GroupKeys::new(), stats: Vec::new(), cardinality_cap }
    }

    pub fn keys(&self) -> (r: &Vec<String>)
        ensures
            crate::text::views(r@) == self.spec_keys(),
    {
        self.keys.keys()
    }

    pub fn len(&self) -> (r: usize)
        ensures
            r == self.spec_keys().len(),
    {
        self.keys.len()
    }

    pub fn key(&self, slot: usize) -> (r: &String)
        requires
            slot < self.spec_keys().len(),
        ensures
            r@ == self.spec_keys()[slot as int],
    {
        self.keys.key(slot)
    }

    pub fn stats(&self, slot: usize) -> (r: &StringStats)
        requires
            self.wf(),
            slot < self.spec_keys().len(),
        ensures
            *r == self.spec_stats()[slot as int],
            r.wf(),
    {
        &self.stats[slot]
    }

    /// The slots by strictly descending key.
    pub fn descending(&self) -> (r: Vec<usize>)
        requires
            self.wf(),
        ensures
            is_descending_order(self.spec_keys(), r@),
    {
        self.keys.descending()
    }

    /// Routes one line: the text after its last `delimiter` is observed in the group
    /// named by the text before it; a line without the delimiter counts as an error
    /// of the sentinel group. Returns the length sample of a non-empty value.
    pub fn observe_line(&mut self, line: &str, delimiter: char) -> (r: Option<LengthSample>)
        requires
            old(self).wf(),
        ensures
            old(self).routed(*final(self), line_key(line@, delimiter), line_value(line@, delimiter)),
            r is Some <==> (line_value(line@, delimiter) matches Some(v) && v.len() > 0),
            r matches Some(s) ==> {
                &&& s.slot == slot_of(final(self).spec_keys(), line_key(line@, delimiter))
                &&& s.slot < final(self).spec_keys().len()
                &&& line_value(line@, delimiter) matches Some(v) && s.length == v_bytes(v)
            },
    {
        let (k, value) = match rsplit_once(line, delimiter) {
            Some((group, value)) => (group, Some(value)),
            None => (invalid_key_string(), None),
        };
        let ghost v = if value is Some {
            Some(value->0@)
        } else {
            None::<Seq<char>>
        };
        let ghost kv = k@;
        let slot = self.keys.slot(k);
        if slot == self.stats.len() {
            self.stats.push(StringStats::new(self.cardinality_cap));
        }
        let ghost before = self.stats@[slot as int];
        let length = match &value {
            Some(x) => self.stats[slot].observe_value(x.as_str()),
            None => {
                self.stats[slot].add_error();
                None
            },
        };
        proof {
            lemma_slot_of_bounds(old(self).spec_keys(), kv);
            assert(string_step(before, self.stats@[slot as int], v));
            if slot_of(old(self).spec_keys(), kv) < 0 {
                assert(self.spec_stats().drop_last() =~= old(self).spec_stats());
            }
            assert(forall|i: int|
                0 <= i < self.spec_stats().len() ==> (#[trigger] self.spec_stats()[i]).wf()
                    && self.spec_stats()[i].spec_cap() == self.spec_cap());
        }
        match length {
            Some(n) => Some(LengthSample { slot, length: n }),
            None => None,
        }
    }
}

/// The change of one group's accumulator for the raw value `v`, or for an error
/// when `v` is `None`.
pub open spec fn string_step(a: StringStats, b: StringStats, v: Option<Seq<char>>) -> bool {
    match v {
        Some(x) => a.observed(b, x),
        None => a.added_error(b),
    }
}

/// `b` is a new accumulator with cap `cap` after the raw value `v`, or after an error
/// when `v` is `None`.
pub open spec fn string_start(b: StringStats, cap: Option<usize>, v: Option<Seq<char>>) -> bool {
    &&& b.wf()
    &&& b.spec_cap() == cap
    &&& match v {
        Some(x) => if x.len() == 0 {
            b.seen() == Set::<Seq<char>>::empty() && b.spec_count() == 0 && b.spec_null_count() == 1
                && b.spec_error_count() == 0
        } else {
            b.seen() == Set::<Seq<char>>::empty().insert(x) && b.spec_count() == 1
                && b.spec_null_count() == 0 && b.spec_error_count() == 0
        },
        None => b.seen() == Set::<Seq<char>>::empty() && b.spec_count() == 0 && b.spec_null_count()
            == 0 && b.spec_error_count() == 1,
    }
}

/// Length in bytes of the UTF-8 encoding of `v`.
pub open spec fn v_bytes(v: Seq<char>) -> usize {
    vstd::utf8::encode_utf8(v).len() as usize
}

} // verus!
