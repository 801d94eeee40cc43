//! Maps from strings to values, kept as vectors of entries sorted by key
//! (the order of a `BTreeMap<String, _>`).

use vstd::prelude::*;
use crate::text::{seq_lt, compare_chars, chars_of, lemma_seq_lt_irreflexive, lemma_seq_lt_trans,
    lemma_seq_lt_total};

verus! {

/// Keys strictly increase.
pub open spec fn sorted_keys<V>(e: Seq<(String, V)>) -> bool {
    forall|i: int, j: int| 0 <= i < j < e.len() ==> seq_lt(#[trigger] e[i].0@, #[trigger] e[j].0@)
}

/// The index of the entry with key `k`, if any.
pub open spec fn find_key<V>(e: Seq<(String, V)>, k: Seq<char>) -> Option<int> {
    if exists|i: int| 0 <= i < e.len() && (#[trigger] e[i]).0@ == k {
        Some(choose|i: int| 0 <= i < e.len() && (#[trigger] e[i]).0@ == k)
    } else {
        None
    }
}

/// The keys of a map, in order.
pub open spec fn keys_of<V>(e: Seq<(String, V)>) -> Seq<Seq<char>> {
    e.map_values(|p: (String, V)| p.0@)
}

pub proof fn lemma_find_key_unique<V>(e: Seq<(String, V)>, k: Seq<char>, i: int)
    requires
        sorted_keys(e),
        0 <= i < e.len(),
        e[i].0@ == k,
    ensures
        find_key(e, k) == Some(i),
{
    assert(exists|x: int| 0 <= x < e.len() && (#[trigger] e[x]).0@ == k) by {
        assert(e[i].0@ == k);
    }
    let j = find_key(e, k)->0;
    assert(0 <= j < e.len() && e[j].0@ == k);
    if j != i {
        lemma_seq_lt_irreflexive(k);
        if j < i {
            assert(seq_lt(e[j].0@, e[i].0@));
        } else {
            assert(seq_lt(e[i].0@, e[j].0@));
        }
    }
}

fn key_below(a: &String, kc: &Vec<char>) -> (r: bool)
    ensures
        r == seq_lt(a@, kc@),
{
    let x = chars_of(a.as_str());
    compare_chars(&x, kc) == -1
}

fn key_equal(a: &String, kc: &Vec<char>) -> (r: bool)
    ensures
        r == (a@ == kc@),
{
    let x = chars_of(a.as_str());
    compare_chars(&x, kc) == 0
}

/// The index of the entry with key `k`.
pub fn smap_find<V>(e: &Vec<(String, V)>, k: &str) -> (r: Option<usize>)
    requires
        sorted_keys(e@),
    ensures
        match r {
            Some(i) => find_key(e@, k@) == Some(i as int),
            None => find_key(e@, k@) is None,
        },
{
    let kc = chars_of(k);
    let mut i: usize = 0;
    while i < e.len()
        invariant
            i <= e@.len(),
            kc@ == k@,
            sorted_keys(e@),
            forall|j: int| 0 <= j < i ==> (#[trigger] e@[j]).0@ != k@,
        decreases e.len() - i,
    {
        if key_equal(&e[i].0, &kc) {
            proof {
                lemma_find_key_unique(e@, k@, i as int);
            }
            return Some(i);
        }
        i = i + 1;
    }
    None
}

/// Stores `v` under `k`, replacing what was there; the returned index is where
/// the entry now stands.
pub fn smap_insert<V>(e: &mut Vec<(String, V)>, k: String, v: V) -> (r: usize)
    requires
        sorted_keys(old(e)@),
    ensures
        sorted_keys(final(e)@),
        r < final(e)@.len(),
        r <= old(e)@.len(),
        final(e)@[r as int] == (k, v),
        find_key(old(e)@, k@) is Some ==> final(e)@.len() == old(e)@.len()
            && forall|j: int| 0 <= j < old(e)@.len() && j != r ==> final(e)@[j] == old(e)@[j],
        find_key(old(e)@, k@) is None ==> final(e)@ == old(e)@.insert(r as int, (k, v)),
        forall|k2: Seq<char>| k2 != k@ ==> (find_key(final(e)@, k2) is Some <==> find_key(old(e)@, k2) is Some),
        forall|k2: Seq<char>| k2 != k@ && find_key(old(e)@, k2) is Some ==> final(e)@[find_key(final(e)@, k2)->0]
            == old(e)@[find_key(old(e)@, k2)->0],
{
    let kc = chars_of(k.as_str());
    let mut i: usize = 0;
    while i < e.len() && key_below(&e[i].0, &kc)
        invariant
            i <= e@.len(),
            e@ == old(e)@,
            kc@ == k@,
            sorted_keys(e@),
            forall|j: int| 0 <= j < i ==> seq_lt(#[trigger] e@[j].0@, k@),
        decreases e.len() - i,
    {
        i = i + 1;
    }
    let found = i < e.len() && key_equal(&e[i].0, &kc);
    let ghost old_e = e@;
    if found {
        e.set(i, (k, v));
        proof {
            let ne = e@;
            assert forall|a: int, b: int| 0 <= a < b < ne.len() implies seq_lt(#[trigger] ne[a].0@, #[trigger] ne[b].0@) by {
                assert(seq_lt(old_e[a].0@, old_e[b].0@));
            }
            lemma_find_key_unique(old_e, k@, i as int);
            assert forall|k2: Seq<char>| k2 != k@ implies (find_key(ne, k2) is Some <==> find_key(old_e, k2) is Some) by {
                if find_key(old_e, k2) is Some {
                    let j = find_key(old_e, k2)->0;
                    assert(ne[j].0@ == k2);
                }
                if find_key(ne, k2) is Some {
                    let j = find_key(ne, k2)->0;
                    assert(old_e[j].0@ == k2);
                }
            }
            assert forall|k2: Seq<char>| k2 != k@ && find_key(old_e, k2) is Some implies ne[find_key(ne, k2)->0]
                == old_e[find_key(old_e, k2)->0] by {
                let j = find_key(old_e, k2)->0;
                lemma_find_key_unique(old_e, k2, j);
                assert(ne[j].0@ == k2);
                lemma_find_key_unique(ne, k2, j);
            }
        }
        i
    } else {
        proof {
            if i < old_e.len() {
                lemma_seq_lt_total(old_e[i as int].0@, k@);
                assert(seq_lt(k@, old_e[i as int].0@));
            }
            if find_key(old_e, k@) is Some {
                let j = find_key(old_e, k@)->0;
                lemma_seq_lt_irreflexive(k@);
                if j < i {
                    assert(seq_lt(old_e[j].0@, k@));
                } else if j > i {
                    assert(seq_lt(old_e[i as int].0@, old_e[j].0@));
                    lemma_seq_lt_trans(k@, old_e[i as int].0@, old_e[j].0@);
                }
            }
        }
        e.insert(i, (k, v));
        proof {
            let ne = e@;
            assert(ne =~= old_e.insert(i as int, ne[i as int]));
            assert forall|j: int| 0 <= j < i implies ne[j] == old_e[j] by {}
            assert forall|j: int| i < j < ne.len() implies ne[j] == old_e[j - 1] by {}
            assert forall|a: int, b: int| 0 <= a < b < ne.len() implies seq_lt(#[trigger] ne[a].0@, #[trigger] ne[b].0@) by {
                if b < i {
                    assert(seq_lt(old_e[a].0@, old_e[b].0@));
                } else if b == i {
                    assert(seq_lt(old_e[a].0@, k@));
                } else if a == i {
                    if b - 1 > i {
                        assert(seq_lt(old_e[i as int].0@, old_e[b - 1].0@));
                        lemma_seq_lt_trans(k@, old_e[i as int].0@, old_e[b - 1].0@);
                    }
                } else if a < i {
                    assert(seq_lt(old_e[a].0@, k@));
                    if b - 1 > i {
                        assert(seq_lt(old_e[i as int].0@, old_e[b - 1].0@));
                        lemma_seq_lt_trans(k@, old_e[i as int].0@, old_e[b - 1].0@);
                    }
                    lemma_seq_lt_trans(old_e[a].0@, k@, old_e[b - 1].0@);
                } else {
                    assert(seq_lt(old_e[a - 1].0@, old_e[b - 1].0@));
                }
            }
            assert forall|k2: Seq<char>| k2 != k@ implies (find_key(ne, k2) is Some <==> find_key(old_e, k2) is Some) by {
                if find_key(old_e, k2) is Some {
                    let j = find_key(old_e, k2)->0;
                    if j < i {
                        assert(ne[j].0@ == k2);
                    } else {
                        assert(ne[j + 1].0@ == k2);
                    }
                }
                if find_key(ne, k2) is Some {
                    let j = find_key(ne, k2)->0;
                    if j < i {
                        assert(old_e[j].0@ == k2);
                    } else if j > i {
                        assert(old_e[j - 1].0@ == k2);
                    }
                }
            }
            assert forall|k2: Seq<char>| k2 != k@ && find_key(old_e, k2) is Some implies ne[find_key(ne, k2)->0]
                == old_e[find_key(old_e, k2)->0] by {
                let j = find_key(old_e, k2)->0;
                lemma_find_key_unique(old_e, k2, j);
                if j < i {
                    assert(ne[j].0@ == k2);
                    lemma_find_key_unique(ne, k2, j);
                } else {
                    assert(ne[j + 1].0@ == k2);
                    lemma_find_key_unique(ne, k2, j + 1);
                }
            }
        }
        i
    }
}

} // verus!
