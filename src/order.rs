use vstd::prelude::*;

use crate::text::{lemma_lex_lt_total, lemma_lex_lt_transitive, lex_lt, str_lt, views};

verus! {

/// `order` lists every position of `keys` once, by strictly descending key.
pub open spec fn is_descending_order(keys: Seq<Seq<char>>, order: Seq<usize>) -> bool {
    &&& order.len() == keys.len()
    &&& forall|k: int| 0 <= k < order.len() ==> (#[trigger] order[k]) < keys.len()
    &&& forall|s: usize| s < keys.len() ==> #[trigger] order.contains(s)
    &&& forall|a: int, b: int|
        0 <= a < b < order.len() ==> lex_lt(keys[#[trigger] order[b] as int], keys[#[trigger] order[a] as int])
}

/// The descending order of a set of keys is unique: two orders that both list every
/// position by strictly descending key are the same, so the rows come out the same
/// whatever order the groups were created in.
pub proof fn lemma_descending_order_unique(keys: Seq<Seq<char>>, o1: Seq<usize>, o2: Seq<usize>)
    requires
        is_descending_order(keys, o1),
        is_descending_order(keys, o2),
    ensures
        o1 == o2,
{
    assert forall|k: int| 0 <= k < o1.len() implies o1[k] == o2[k] by {
        lemma_same_at(keys, o1, o2, k);
    }
    assert(o1 =~= o2);
}

proof fn lemma_same_at(keys: Seq<Seq<char>>, o1: Seq<usize>, o2: Seq<usize>, k: int)
    requires
        is_descending_order(keys, o1),
        is_descending_order(keys, o2),
        0 <= k < o1.len(),
    ensures
        o1[k] == o2[k],
    decreases k,
{
    if o1[k] != o2[k] {
        let x = o1[k];
        let y = o2[k];
        assert(o2.contains(x));
        assert(o1.contains(y));
        let p = choose|p: int| 0 <= p < o1.len() && o1[p] == y;
        let q = choose|q: int| 0 <= q < o2.len() && o2[q] == x;
        // earlier positions agree, so `y` sits after `k` in `o1` and `x` after `k` in `o2`
        if p < k {
            lemma_same_at(keys, o1, o2, p);
            assert(lex_lt(keys[o2[k] as int], keys[o2[p] as int]));
            lemma_lex_lt_total(keys[y as int], keys[y as int]);
        }
        if q < k {
            lemma_same_at(keys, o1, o2, q);
            assert(lex_lt(keys[o1[k] as int], keys[o1[q] as int]));
            lemma_lex_lt_total(keys[x as int], keys[x as int]);
        }
        if p > k && q > k {
            assert(lex_lt(keys[o1[p] as int], keys[o1[k] as int]));
            assert(lex_lt(keys[o2[q] as int], keys[o2[k] as int]));
            lemma_lex_lt_total(keys[x as int], keys[y as int]);
        }
    }
}

/// Column `x` comes before column `y`: its header is greater, or the headers are
/// equal and `x` stands first.
pub open spec fn column_before(keys: Seq<Seq<char>>, x: usize, y: usize) -> bool {
    lex_lt(keys[y as int], keys[x as int]) || (keys[x as int] == keys[y as int] && x < y)
}

/// `order` lists every column once, by descending header, columns with equal headers
/// in the order they stand.
pub open spec fn is_column_order(keys: Seq<Seq<char>>, order: Seq<usize>) -> bool {
    &&& order.len() == keys.len()
    &&& forall|k: int| 0 <= k < order.len() ==> (#[trigger] order[k]) < keys.len()
    &&& forall|s: usize| s < keys.len() ==> #[trigger] order.contains(s)
    &&& forall|a: int, b: int|
        0 <= a < b < order.len() ==> column_before(keys, #[trigger] order[a], #[trigger] order[b])
}

/// The column order of a list of headers.
pub open spec fn column_order(keys: Seq<Seq<char>>) -> Seq<usize> {
    choose|o: Seq<usize>| is_column_order(keys, o)
}

proof fn lemma_column_before_asymmetric(keys: Seq<Seq<char>>, x: usize, y: usize)
    requires
        x < keys.len(),
        y < keys.len(),
    ensures
        !(column_before(keys, x, y) && column_before(keys, y, x)),
        !column_before(keys, x, x),
{
    lemma_lex_lt_total(keys[x as int], keys[y as int]);
    lemma_lex_lt_total(keys[x as int], keys[x as int]);
}

proof fn lemma_column_same_at(keys: Seq<Seq<char>>, o1: Seq<usize>, o2: Seq<usize>, k: int)
    requires
        is_column_order(keys, o1),
        is_column_order(keys, o2),
        0 <= k < o1.len(),
    ensures
        o1[k] == o2[k],
    decreases k,
{
    if o1[k] != o2[k] {
        let x = o1[k];
        let y = o2[k];
        assert(o2.contains(x));
        assert(o1.contains(y));
        let p = choose|p: int| 0 <= p < o1.len() && o1[p] == y;
        let q = choose|q: int| 0 <= q < o2.len() && o2[q] == x;
        if p < k {
            lemma_column_same_at(keys, o1, o2, p);
            assert(column_before(keys, o2[p], o2[k]));
            lemma_column_before_asymmetric(keys, y, y);
        }
        if q < k {
            lemma_column_same_at(keys, o1, o2, q);
            assert(column_before(keys, o1[q], o1[k]));
            lemma_column_before_asymmetric(keys, x, x);
        }
        if p > k && q > k {
            assert(column_before(keys, o1[k], o1[p]));
            assert(column_before(keys, o2[k], o2[q]));
            lemma_column_before_asymmetric(keys, x, y);
        }
    }
}

/// The column order of a list of headers is unique, so `column_order` names the one
/// that `sorted_columns` computes.
pub proof fn lemma_column_order_unique(keys: Seq<Seq<char>>, o: Seq<usize>)
    requires
        is_column_order(keys, o),
    ensures
        o == column_order(keys),
{
    let c = column_order(keys);
    assert(is_column_order(keys, c));
    assert forall|k: int| 0 <= k < o.len() implies o[k] == c[k] by {
        lemma_column_same_at(keys, o, c, k);
    }
    assert(o =~= c);
}

/// The columns by descending header, equal headers in the order they stand.
pub fn sorted_columns(keys: &Vec<String>) -> (r: Vec<usize>)
    ensures
        is_column_order(views(keys@), r@),
        r@ == column_order(views(keys@)),
{
    let ghost ks = views(keys@);
    let mut r: Vec<usize> = Vec::new();
    let mut i: usize = 0;
    while i < keys.len()
        invariant
            i <= keys.len(),
            ks == views(keys@),
            r.len() == i,
            forall|k: int| 0 <= k < r.len() ==> (#[trigger] r@[k]) < i,
            forall|s: usize| s < i ==> #[trigger] r@.contains(s),
            forall|a: int, b: int|
                0 <= a < b < r.len() ==> column_before(ks, #[trigger] r@[a], #[trigger] r@[b]),
        decreases keys.len() - i,
    {
        let mut p: usize = 0;
        while p < r.len() && !str_lt(keys[r[p]].as_str(), keys[i].as_str())
            invariant
                i < keys.len(),
                ks == views(keys@),
                p <= r.len(),
                forall|k: int| 0 <= k < r.len() ==> (#[trigger] r@[k]) < i,
                forall|k: int| 0 <= k < p ==> !lex_lt(ks[r@[k] as int], ks[i as int]),
            decreases r.len() - p,
        {
            assert(keys@[r@[p as int] as int]@ == ks[r@[p as int] as int]);
            assert(keys@[i as int]@ == ks[i as int]);
            p += 1;
        }
        if p < r.len() {
            assert(keys@[r@[p as int] as int]@ == ks[r@[p as int] as int]);
            assert(keys@[i as int]@ == ks[i as int]);
        }
        let ghost before = r@;
        r.insert(p, i);
        proof {
            assert(r@ == before.insert(p as int, i));
            assert forall|k: int| 0 <= k < p implies column_before(ks, before[k], i) by {
                lemma_lex_lt_total(ks[before[k] as int], ks[i as int]);
            }
            assert forall|k: int| p <= k < before.len() implies lex_lt(ks[before[k] as int], ks[i as int]) by {
                if k > p {
                    assert(column_before(ks, before[p as int], before[k]));
                    if ks[before[k] as int] != ks[before[p as int] as int] {
                        lemma_lex_lt_transitive(ks[before[k] as int], ks[before[p as int] as int], ks[i as int]);
                    }
                }
            }
            assert forall|a: int, b: int|
                0 <= a < b < r.len() implies column_before(ks, #[trigger] r@[a], #[trigger] r@[b]) by {
                if a < p && b < p {
                    assert(r@[a] == before[a] && r@[b] == before[b]);
                } else if a < p && b == p {
                } else if a < p {
                    assert(r@[a] == before[a] && r@[b] == before[b - 1]);
                } else if a == p {
                    assert(r@[b] == before[b - 1]);
                } else {
                    assert(r@[a] == before[a - 1] && r@[b] == before[b - 1]);
                }
            }
            assert forall|s: usize| s < i + 1 implies #[trigger] r@.contains(s) by {
                if s == i {
                    assert(r@[p as int] == i);
                } else {
                    assert(before.contains(s));
                    let k = choose|k: int| 0 <= k < before.len() && before[k] == s;
                    if k < p {
                        assert(r@[k] == s);
                    } else {
                        assert(r@[k + 1] == s);
                    }
                }
            }
            assert forall|k: int| 0 <= k < r.len() implies (#[trigger] r@[k]) < i + 1 by {
                if k < p {
                    assert(r@[k] == before[k]);
                } else if k > p {
                    assert(r@[k] == before[k - 1]);
                }
            }
        }
        i += 1;
    }
    proof {
        lemma_column_order_unique(ks, r@);
    }
    r
}

} // verus!
