//! Putting named things in order: a stable sort by a text key, so that
//! things whose keys are equal keep the order they came in.
use vstd::prelude::*;

use crate::batch::{lemma_lex_total, lemma_lex_transitive, lex_lt};

verus! {

/// Where an item keyed `k` goes among ordered items: after every item whose
/// key is not greater, so equal keys keep their order.
pub open spec fn slot<T>(r: Seq<(Vec<char>, T)>, k: Seq<char>) -> int
    decreases r.len(),
{
    if r.len() == 0 {
        0
    } else if lex_lt(k, r.last().0@) {
        slot(r.drop_last(), k)
    } else {
        r.len() as int
    }
}

/// Items put in order of their keys, one at a time, each after every item
/// already placed whose key is not greater.
pub open spec fn sorted_by_key<T>(s: Seq<(Vec<char>, T)>) -> Seq<(Vec<char>, T)>
    decreases s.len(),
{
    if s.len() == 0 {
        Seq::empty()
    } else {
        let r = sorted_by_key(s.drop_last());
        r.insert(slot(r, s.last().0@), s.last())
    }
}

/// Whether items are in order of their keys.
pub open spec fn in_key_order<T>(r: Seq<(Vec<char>, T)>) -> bool {
    forall|i: int, j: int| 0 <= i < j < r.len() ==> !lex_lt(#[trigger] r[j].0@, #[trigger] r[i].0@)
}

proof fn lemma_slot<T>(r: Seq<(Vec<char>, T)>, k: Seq<char>)
    requires
        in_key_order(r),
    ensures
        0 <= slot(r, k) <= r.len(),
        forall|i: int| 0 <= i < slot(r, k) ==> !lex_lt(k, #[trigger] r[i].0@),
        forall|i: int| slot(r, k) <= i < r.len() ==> lex_lt(k, #[trigger] r[i].0@),
    decreases r.len(),
{
    if r.len() > 0 {
        let init = r.drop_last();
        assert(in_key_order(init)) by {
            assert forall|i: int, j: int| 0 <= i < j < init.len() implies !lex_lt(#[trigger] init[j].0@, #[trigger] init[i].0@) by {
                assert(init[i] == r[i] && init[j] == r[j]);
            }
        }
        lemma_slot(init, k);
        if lex_lt(k, r.last().0@) {
            assert forall|i: int| 0 <= i < slot(r, k) implies !lex_lt(k, #[trigger] r[i].0@) by {
                assert(r[i] == init[i]);
            }
            assert forall|i: int| slot(r, k) <= i < r.len() implies lex_lt(k, #[trigger] r[i].0@) by {
                if i < r.len() - 1 {
                    assert(r[i] == init[i]);
                }
            }
        } else {
            assert forall|i: int| 0 <= i < slot(r, k) implies !lex_lt(k, #[trigger] r[i].0@) by {
                if i < r.len() - 1 {
                    // r[i] is not after the last item, and k is not before the last.
                    lemma_lex_total(r[i].0@, r.last().0@);
                    if lex_lt(k, r[i].0@) {
                        if lex_lt(r[i].0@, r.last().0@) {
                            lemma_lex_transitive(k, r[i].0@, r.last().0@);
                        } else {
                            assert(!lex_lt(r.last().0@, r[i].0@));
                        }
                    }
                }
            }
        }
    }
}

/// Sorting puts items in order of their keys.
pub proof fn lemma_sorted_in_order<T>(s: Seq<(Vec<char>, T)>)
    ensures
        in_key_order(sorted_by_key(s)),
        sorted_by_key(s).len() == s.len(),
    decreases s.len(),
{
    if s.len() > 0 {
        let r = sorted_by_key(s.drop_last());
        lemma_sorted_in_order(s.drop_last());
        let x = s.last();
        let p = slot(r, x.0@);
        lemma_slot(r, x.0@);
        let out = r.insert(p, x);
        assert forall|i: int, j: int| 0 <= i < j < out.len() implies !lex_lt(#[trigger] out[j].0@, #[trigger] out[i].0@) by {
            if j < p {
                assert(out[i] == r[i] && out[j] == r[j]);
            } else if j == p {
                assert(out[i] == r[i]);
                assert(!lex_lt(x.0@, r[i].0@));
            } else if i < p {
                assert(out[i] == r[i] && out[j] == r[j - 1]);
            } else if i == p {
                assert(out[j] == r[j - 1]);
                assert(lex_lt(x.0@, r[j - 1].0@));
                lemma_lex_total(x.0@, r[j - 1].0@);
            } else {
                assert(out[i] == r[i - 1] && out[j] == r[j - 1]);
            }
        }
    }
}

/// Sorting keeps every item, each as many times as it came.
pub proof fn lemma_sorted_permutes<T>(s: Seq<(Vec<char>, T)>)
    ensures
        sorted_by_key(s).to_multiset() == s.to_multiset(),
    decreases s.len(),
{
    if s.len() > 0 {
        let init = s.drop_last();
        lemma_sorted_permutes(init);
        lemma_sorted_in_order(init);
        let r = sorted_by_key(init);
        lemma_slot(r, s.last().0@);
        vstd::seq_lib::to_multiset_insert(r, slot(r, s.last().0@), s.last());
        vstd::seq_lib::to_multiset_build(init, s.last());
        assert(init.push(s.last()) =~= s);
        assert(sorted_by_key(s) == r.insert(slot(r, s.last().0@), s.last()));
        assert(sorted_by_key(s).to_multiset() =~= s.to_multiset());
    } else {
        assert(sorted_by_key(s) =~= s);
    }
}

/// Sort items by their keys, keeping the order of items whose keys are
/// equal.
pub fn sort_by_key<T>(items: Vec<(Vec<char>, T)>) -> (r: Vec<(Vec<char>, T)>)
    ensures
        r@ == sorted_by_key(items@),
{
    let mut rest = items;
    let ghost all = rest@;
    let mut out: Vec<(Vec<char>, T)> = Vec::new();
    let ghost mut done: int = 0;
    while rest.len() > 0
        invariant
            0 <= done <= all.len(),
            rest@ == all.subrange(done, all.len() as int),
            out@ == sorted_by_key(all.take(done)),
        decreases rest@.len(),
    {
        let item = rest.remove(0);
        proof {
            assert(item == all[done]);
            assert(all.take(done + 1).drop_last() =~= all.take(done));
            assert(all.take(done + 1).last() == item);
            assert(rest@ =~= all.subrange(done + 1, all.len() as int));
        }
        // Find the slot from the back: past every item whose key is greater.
        let mut p: usize = out.len();
        assert(out@.take(p as int) =~= out@);
        while p > 0 && crate::batch::lex_less(&item.0, &out[p - 1].0)
            invariant
                p <= out@.len(),
                slot(out@, item.0@) == slot(out@.take(p as int), item.0@),
            decreases p,
        {
            assert(out@.take(p as int).drop_last() =~= out@.take(p - 1));
            p = p - 1;
        }
        proof {
            assert(slot(out@.take(p as int), item.0@) == p);
        }
        out.insert(p, item);
        proof {
            done = done + 1;
        }
    }
    assert(all.take(done) =~= all);
    out
}


/// Whether every item's key is what `key` makes of the item itself.
pub open spec fn keyed_by<T>(s: Seq<(Vec<char>, T)>, key: spec_fn(T) -> Seq<char>) -> bool {
    forall|i: int| 0 <= i < s.len() ==> (#[trigger] s[i]).0@ == key(s[i].1)
}

/// Sorting moves whole items: an item keyed by what it is stays keyed so.
pub proof fn lemma_sorted_keeps_keys<T>(s: Seq<(Vec<char>, T)>, key: spec_fn(T) -> Seq<char>)
    requires
        keyed_by(s, key),
    ensures
        keyed_by(sorted_by_key(s), key),
{
    lemma_sorted_permutes(s);
    lemma_sorted_in_order(s);
    let r = sorted_by_key(s);
    assert forall|i: int| 0 <= i < r.len() implies (#[trigger] r[i]).0@ == key(r[i].1) by {
        assert(r.contains(r[i]));
        vstd::seq_lib::to_multiset_contains(r, r[i]);
        vstd::seq_lib::to_multiset_contains(s, r[i]);
        let k = choose|k: int| 0 <= k < s.len() && s[k] == r[i];
        assert(s[k].0@ == key(s[k].1));
    }
}

/// Sort items by their keys, keeping the order of items whose keys are
/// equal, and hand back the items alone.
pub fn sorted_items<T>(items: Vec<(Vec<char>, T)>) -> (r: Vec<T>)
    ensures
        r@ == sorted_by_key(items@).map_values(|p: (Vec<char>, T)| p.1),
{
    let sorted = sort_by_key(items);
    let mut out: Vec<T> = Vec::new();
    let mut rest = sorted;
    let ghost all = rest@;
    let ghost mut k: int = 0;
    while rest.len() > 0
        invariant
            0 <= k <= all.len(),
            rest@ == all.subrange(k, all.len() as int),
            out@ == all.take(k).map_values(|p: (Vec<char>, T)| p.1),
        decreases rest@.len(),
    {
        let pair = rest.remove(0);
        proof {
            assert(pair == all[k]);
            assert(rest@ =~= all.subrange(k + 1, all.len() as int));
        }
        out.push(pair.1);
        proof {
            k = k + 1;
            assert(out@ =~= all.take(k).map_values(|p: (Vec<char>, T)| p.1));
        }
    }
    assert(all.take(k) =~= all);
    out
}

} // verus!
