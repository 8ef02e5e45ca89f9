use vstd::prelude::*;

use crate::text::chars_of;

verus! {

/// How one raw field is classified.
#[derive(PartialEq, Eq, Structural, Clone, Copy, Debug)]
pub enum Observation {
    Numeric,
    Empty,
    Error,
}

pub open spec fn is_digit(c: char) -> bool {
    '0' <= c && c <= '9'
}

pub open spec fn all_digits(s: Seq<char>) -> bool {
    forall|i: int| 0 <= i < s.len() ==> is_digit(#[trigger] s[i])
}

pub open spec fn is_sign(c: char) -> bool {
    c == '+' || c == '-'
}

/// `s` without its leading sign, if it has one.
pub open spec fn unsigned(s: Seq<char>) -> Seq<char> {
    if s.len() > 0 && is_sign(s[0]) {
        s.drop_first()
    } else {
        s
    }
}

/// Index of the first `a` or `b` in `s`, or `s.len()` when there is none.
pub open spec fn first_index_of(s: Seq<char>, a: char, b: char) -> int
    decreases s.len(),
{
    if s.len() == 0 {
        0
    } else if s[0] == a || s[0] == b {
        0
    } else {
        1 + first_index_of(s.drop_first(), a, b)
    }
}

/// `Digit+ | Digit+ '.' Digit* | Digit* '.' Digit+`
pub open spec fn is_mantissa(m: Seq<char>) -> bool {
    let p = first_index_of(m, '.', '.');
    if p == m.len() {
        m.len() > 0 && all_digits(m)
    } else {
        all_digits(m.take(p)) && all_digits(m.skip(p + 1)) && m.len() > 1
    }
}

/// `Sign? Digit+`
pub open spec fn is_exponent(x: Seq<char>) -> bool {
    unsigned(x).len() > 0 && all_digits(unsigned(x))
}

/// A finite decimal floating-point literal: `Sign? Mantissa (('e' | 'E') Sign? Digit+)?`,
/// the grammar that `f64::from_str` accepts, without its `inf`, `infinity` and `nan`
/// spellings, which break the total order of the values. Whether the value is then
/// representable in `f64` is not part of the grammar.
pub open spec fn is_decimal_literal(s: Seq<char>) -> bool {
    let b = unsigned(s);
    let e = first_index_of(b, 'e', 'E');
    is_mantissa(b.take(e)) && (e == b.len() || is_exponent(b.skip(e + 1)))
}

/// What reading a field as an `f64` gives, for a field that is a decimal literal:
/// zero (a literal too small for `f64` included, as it reads as zero), infinity (a
/// literal too large for `f64`), or another finite value. Reading the value is
/// floating point, so the caller does it and hands over this outcome.
#[derive(PartialEq, Eq, Structural, Clone, Copy, Debug)]
pub enum Parsed {
    Zero,
    Finite,
    Overflow,
}

/// The classification of a raw field whose value reads as `parsed`: the empty field
/// is `Empty`; text that is not a finite decimal literal, or whose value overflows,
/// is `Error`; a zero value is `Empty` when `zero_or_empty_as_null` is set; any other
/// literal is `Numeric`.
pub open spec fn classify_spec(raw: Seq<char>, zero_or_empty_as_null: bool, parsed: Parsed) -> Observation {
    if raw.len() == 0 {
        Observation::Empty
    } else if !is_decimal_literal(raw) || parsed == Parsed::Overflow {
        Observation::Error
    } else if zero_or_empty_as_null && parsed == Parsed::Zero {
        Observation::Empty
    } else {
        Observation::Numeric
    }
}

proof fn lemma_first_index(s: Seq<char>, a: char, b: char, k: int)
    requires
        0 <= k <= s.len(),
        forall|j: int| 0 <= j < k ==> s[j] != a && s[j] != b,
        k < s.len() ==> (s[k] == a || s[k] == b),
    ensures
        first_index_of(s, a, b) == k,
    decreases k,
{
    if k > 0 {
        assert(s.len() > 0 && s[0] != a && s[0] != b);
        lemma_first_index(s.drop_first(), a, b, k - 1);
    }
}

/// First index in `lo..hi` holding `a` or `b`, or `hi`.
fn find_in(v: &Vec<char>, lo: usize, hi: usize, a: char, b: char) -> (k: usize)
    requires
        lo <= hi <= v.len(),
    ensures
        lo <= k <= hi,
        k - lo == first_index_of(v@.subrange(lo as int, hi as int), a, b),
{
    let mut k: usize = lo;
    while k < hi && v[k] != a && v[k] != b
        invariant
            lo <= k <= hi <= v.len(),
            forall|j: int| lo <= j < k ==> v@[j] != a && v@[j] != b,
        decreases hi - k,
    {
        k += 1;
    }
    proof {
        let s = v@.subrange(lo as int, hi as int);
        assert forall|j: int| 0 <= j < k - lo implies s[j] != a && s[j] != b by {
            assert(s[j] == v@[lo + j]);
        }
        lemma_first_index(s, a, b, k - lo);
    }
    k
}

/// Whether `v[lo..hi]` holds only digits.
fn digits_in(v: &Vec<char>, lo: usize, hi: usize) -> (r: bool)
    requires
        lo <= hi <= v.len(),
    ensures
        r == all_digits(v@.subrange(lo as int, hi as int)),
{
    let mut k: usize = lo;
    while k < hi && '0' <= v[k] && v[k] <= '9'
        invariant
            lo <= k <= hi <= v.len(),
            forall|j: int| lo <= j < k ==> is_digit(v@[j]),
        decreases hi - k,
    {
        k += 1;
    }
    let ghost s = v@.subrange(lo as int, hi as int);
    if k < hi {
        assert(!is_digit(s[k - lo]));
        false
    } else {
        assert forall|j: int| 0 <= j < s.len() implies is_digit(#[trigger] s[j]) by {
            assert(s[j] == v@[lo + j]);
        }
        true
    }
}

/// Classifies one raw field whose value reads as `parsed`, as `classify_spec` says.
pub fn classify(raw: &str, zero_or_empty_as_null: bool, parsed: Parsed) -> (r: Observation)
    ensures
        r == classify_spec(raw@, zero_or_empty_as_null, parsed),
{
    let v = chars_of(raw);
    let n = v.len();
    if n == 0 {
        return Observation::Empty;
    }
    let start: usize = if v[0] == '+' || v[0] == '-' {
        1
    } else {
        0
    };
    let ghost b = unsigned(raw@);
    assert(b =~= v@.subrange(start as int, n as int));
    let e = find_in(&v, start, n, 'e', 'E');
    let ghost m = b.take(e - start);
    assert(m =~= v@.subrange(start as int, e as int));
    let p = find_in(&v, start, e, '.', '.');
    let mantissa_ok = if p == e {
        e > start && digits_in(&v, start, e)
    } else {
        assert(m.take(p - start) =~= v@.subrange(start as int, p as int));
        assert(m.skip(p - start + 1) =~= v@.subrange(p + 1, e as int));
        digits_in(&v, start, p) && digits_in(&v, p + 1, e) && e - start > 1
    };
    let exponent_ok = if e == n {
        true
    } else {
        let ghost x = b.skip(e - start + 1);
        assert(x =~= v@.subrange(e + 1, n as int));
        let s2: usize = if e + 1 < n && (v[e + 1] == '+' || v[e + 1] == '-') {
            e + 2
        } else {
            e + 1
        };
        assert(unsigned(x) =~= v@.subrange(s2 as int, n as int));
        s2 < n && digits_in(&v, s2, n)
    };
    if !(mantissa_ok && exponent_ok) || parsed == Parsed::Overflow {
        Observation::Error
    } else if zero_or_empty_as_null && parsed == Parsed::Zero {
        Observation::Empty
    } else {
        Observation::Numeric
    }
}

} // verus!
