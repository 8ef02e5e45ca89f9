use vstd::prelude::*;

use crate::order::is_descending_order;
use crate::text::{lemma_lex_lt_total, lemma_lex_lt_transitive, lex_lt, str_lt, views};

verus! {

/// Position of `k` in `keys`, or -1 when it is absent.
pub open spec fn slot_of(keys: Seq<Seq<char>>, k: Seq<char>) -> int
    decreases keys.len(),
{
    if keys.len() == 0 {
        -1
    } else if keys.last() == k {
        keys.len() - 1
    } else {
        slot_of(keys.drop_last(), k)
    }
}

/// `order` lists every position of `keys` once, by strictly ascending key.
pub open spec fn is_ascending_order(keys: Seq<Seq<char>>, order: Seq<usize>) -> bool {
    &&& order.len() == keys.len()
    &&& forall|k: int| 0 <= k < order.len() ==> (#[trigger] order[k]) < keys.len()
    &&& forall|s: usize| s < keys.len() ==> #[trigger] order.contains(s)
    &&& forall|a: int, b: int|
        0 <= a < b < order.len() ==> lex_lt(keys[#[trigger] order[a] as int], keys[#[trigger] order[b] as int])
}

proof fn lemma_slot_of(keys: Seq<Seq<char>>, k: Seq<char>, i: int)
    requires
        keys.no_duplicates(),
        -1 <= i < keys.len(),
        i >= 0 ==> keys[i] == k,
        i < 0 ==> !keys.contains(k),
    ensures
        slot_of(keys, k) == i,
    decreases keys.len(),
{
    if keys.len() > 0 && keys.len() - 1 != i {
        assert(keys.last() != k);
        if i < 0 {
            assert(!keys.drop_last().contains(k)) by {
                if keys.drop_last().contains(k) {
                    let j = choose|j: int| 0 <= j < keys.drop_last().len() && keys.drop_last()[j] == k;
                    assert(keys[j] == k);
                }
            }
        }
        lemma_slot_of(keys.drop_last(), k, i);
    }
}

pub(crate) proof fn lemma_slot_of_bounds(keys: Seq<Seq<char>>, k: Seq<char>)
    ensures
        -1 <= slot_of(keys, k) < keys.len(),
        slot_of(keys, k) >= 0 ==> keys[slot_of(keys, k)] == k,
    decreases keys.len(),
{
    if keys.len() > 0 && keys.last() != k {
        lemma_slot_of_bounds(keys.drop_last(), k);
    }
}

/// The distinct group keys of a table, in the order they first appeared, with an
/// index that lists them by ascending key.
pub struct GroupKeys {
    keys: Vec<String>,
    by_key: Vec<usize>,
}

impl GroupKeys {
    pub closed spec fn spec_keys(&self) -> Seq<Seq<char>> {
        views(self.keys@)
    }

    pub closed spec fn wf(&self) -> bool {
        &&& views(self.keys@).no_duplicates()
        &&& is_ascending_order(views(self.keys@), self.by_key@)
    }

    pub fn new() -> (r: GroupKeys)
        ensures
            r.wf(),
            r.spec_keys() == Seq::<Seq<char>>::empty(),
    {
        let r = GroupKeys { keys: Vec::new(), by_key: Vec::new() };
        assert(views(r.keys@) =~= Seq::<Seq<char>>::empty());
        r
    }

    pub fn len(&self) -> (r: usize)
        ensures
            r == self.spec_keys().len(),
    {
        self.keys.len()
    }

    pub fn keys(&self) -> (r: &Vec<String>)
        ensures
            views(r@) == self.spec_keys(),
    {
        &self.keys
    }

    pub fn key(&self, slot: usize) -> (r: &String)
        requires
            slot < self.spec_keys().len(),
        ensures
            r@ == self.spec_keys()[slot as int],
    {
        &self.keys[slot]
    }

    /// The slot of `k`, or where its slot belongs in the ascending index.
    fn search(&self, k: &String) -> (r: Result<usize, usize>)
        requires
            self.wf(),
        ensures
            r matches Ok(slot) ==> slot < self.spec_keys().len() && self.spec_keys()[slot as int] == k@,
            r matches Err(pos) ==> {
                &&& pos <= self.by_key.len()
                &&& !self.spec_keys().contains(k@)
                &&& forall|j: int| 0 <= j < pos ==> lex_lt(self.spec_keys()[#[trigger] self.by_key@[j] as int], k@)
                &&& forall|j: int|
                    pos <= j < self.by_key.len() ==> lex_lt(k@, self.spec_keys()[#[trigger] self.by_key@[j] as int])
            },
    {
        let ghost ks = views(self.keys@);
        let mut lo: usize = 0;
        let mut hi: usize = self.by_key.len();
        while lo < hi
            invariant
                self.wf(),
                ks == views(self.keys@),
                lo <= hi <= self.by_key.len(),
                forall|j: int| 0 <= j < lo ==> lex_lt(ks[#[trigger] self.by_key@[j] as int], k@),
                forall|j: int| hi <= j < self.by_key.len() ==> lex_lt(k@, ks[#[trigger] self.by_key@[j] as int]),
            decreases hi - lo,
        {
            let mid = lo + (hi - lo) / 2;
            let slot = self.by_key[mid];
            let here = self.keys[slot].as_str();
            assert(here@ == ks[slot as int]);
            if str_lt(here, k.as_str()) {
                assert forall|j: int| 0 <= j < mid + 1 implies lex_lt(ks[#[trigger] self.by_key@[j] as int], k@) by {
                    if j < mid {
                        lemma_lex_lt_transitive(ks[self.by_key@[j] as int], here@, k@);
                    }
                }
                lo = mid + 1;
            } else if str_lt(k.as_str(), here) {
                assert forall|j: int| mid <= j < self.by_key.len() implies lex_lt(k@, ks[#[trigger] self.by_key@[j] as int]) by {
                    if j > mid {
                        lemma_lex_lt_transitive(k@, here@, ks[self.by_key@[j] as int]);
                    }
                }
                hi = mid;
            } else {
                proof {
                    lemma_lex_lt_total(here@, k@);
                }
                return Ok(slot);
            }
        }
        assert(!ks.contains(k@)) by {
            if ks.contains(k@) {
                let s = choose|s: int| 0 <= s < ks.len() && ks[s] == k@;
                assert(self.by_key@.contains(s as usize));
                let j = choose|j: int| 0 <= j < self.by_key@.len() && self.by_key@[j] == s as usize;
                lemma_lex_lt_total(k@, k@);
            }
        }
        Err(lo)
    }

    /// The slot of `k`, which is added after the existing keys when it is new.
    pub fn slot(&mut self, k: String) -> (slot: usize)
        requires
            old(self).wf(),
        ensures
            final(self).wf(),
            slot_of(old(self).spec_keys(), k@) >= 0 ==> final(self).spec_keys() == old(self).spec_keys(),
            slot_of(old(self).spec_keys(), k@) < 0 ==> final(self).spec_keys() == old(self).spec_keys().push(k@),
            slot == slot_of(final(self).spec_keys(), k@),
            slot < final(self).spec_keys().len(),
    {
        match self.search(&k) {
            Ok(slot) => {
                proof {
                    lemma_slot_of(self.spec_keys(), k@, slot as int);
                }
                slot
            },
            Err(pos) => {
                proof {
                    lemma_slot_of(self.spec_keys(), k@, -1);
                }
                let ghost ks = self.spec_keys();
                let ghost before = self.by_key@;
                let ghost kv = k@;
                let slot = self.keys.len();
                self.keys.push(k);
                self.by_key.insert(pos, slot);
                proof {
                    let nk = views(self.keys@);
                    assert(nk =~= ks.push(kv));
                    assert forall|i: int, j: int|
                        0 <= i < nk.len() && 0 <= j < nk.len() && i != j implies nk[i] != nk[j] by {
                        if i < ks.len() && j == ks.len() {
                            assert(ks.contains(ks[i]));
                        }
                        if j < ks.len() && i == ks.len() {
                            assert(ks.contains(ks[j]));
                        }
                    }
                    lemma_slot_of(nk, kv, slot as int);
                    let bk = self.by_key@;
                    assert(bk == before.insert(pos as int, slot));
                    assert forall|a: int, b: int|
                        0 <= a < b < bk.len() implies lex_lt(nk[#[trigger] bk[a] as int], nk[#[trigger] bk[b] as int]) by {
                        if b < pos {
                            assert(bk[a] == before[a] && bk[b] == before[b]);
                        } else if b == pos {
                            assert(bk[a] == before[a]);
                        } else if a < pos {
                            assert(bk[a] == before[a] && bk[b] == before[b - 1]);
                            lemma_lex_lt_transitive(ks[before[a] as int], kv, ks[before[b - 1] as int]);
                        } else if a == pos {
                            assert(bk[b] == before[b - 1]);
                        } else {
                            assert(bk[a] == before[a - 1] && bk[b] == before[b - 1]);
                        }
                    }
                    assert forall|s: usize| s < nk.len() implies #[trigger] bk.contains(s) by {
                        if s == slot {
                            assert(bk[pos as int] == slot);
                        } else {
                            assert(before.contains(s));
                            let k2 = choose|k2: int| 0 <= k2 < before.len() && before[k2] == s;
                            if k2 < pos {
                                assert(bk[k2] == s);
                            } else {
                                assert(bk[k2 + 1] == s);
                            }
                        }
                    }
                    assert forall|k2: int| 0 <= k2 < bk.len() implies (#[trigger] bk[k2]) < nk.len() by {
                        if k2 < pos {
                            assert(bk[k2] == before[k2]);
                        } else if k2 > pos {
                            assert(bk[k2] == before[k2 - 1]);
                        }
                    }
                }
                slot
            },
        }
    }

    /// The slots by strictly descending key.
    pub fn descending(&self) -> (r: Vec<usize>)
        requires
            self.wf(),
        ensures
            is_descending_order(self.spec_keys(), r@),
    {
        let ghost ks = self.spec_keys();
        let n = self.by_key.len();
        let mut r: Vec<usize> = Vec::new();
        let mut i: usize = 0;
        while i < n
            invariant
                self.wf(),
                ks == self.spec_keys(),
                n == self.by_key.len(),
                i <= n,
                r.len() == i,
                forall|k: int| 0 <= k < i ==> r@[k] == self.by_key@[n - 1 - k],
            decreases n - i,
        {
            r.push(self.by_key[n - 1 - i]);
            i += 1;
        }
        proof {
            let bk = self.by_key@;
            assert forall|a: int, b: int|
                0 <= a < b < r.len() implies lex_lt(ks[#[trigger] r@[b] as int], ks[#[trigger] r@[a] as int]) by {
                assert(r@[a] == bk[n - 1 - a] && r@[b] == bk[n - 1 - b]);
            }
            assert forall|s: usize| s < ks.len() implies #[trigger] r@.contains(s) by {
                assert(bk.contains(s));
                let j = choose|j: int| 0 <= j < bk.len() && bk[j] == s;
                assert(r@[n - 1 - j] == s);
            }
            assert forall|k: int| 0 <= k < r.len() implies (#[trigger] r@[k]) < ks.len() by {
                assert(r@[k] == bk[n - 1 - k]);
            }
        }
        r
    }
}

} // verus!
