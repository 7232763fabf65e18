//! What holds of a set that only `new` and `insert` have touched.
use vstd::prelude::*;

use crate::chimera::{Chimera, INLINE_CAP};
use crate::order::{lemma_add_fresh, lemma_sorted_distinct_strict, lemma_strict_distinct, strictly_sorted};

verus! {

/// `c` is a state that `new`, followed by `insert` of each value of `s` in
/// order, can leave.
pub open spec fn built_by_inserts(c: Chimera, s: Seq<u16>) -> bool
    decreases s.len(),
{
    if s.len() == 0 {
        c.wf() && c is Inline && c.view() == Seq::<u16>::empty()
    } else {
        exists|p: Chimera|
            built_by_inserts(p, s.drop_last()) && #[trigger] Chimera::insert_post(p, s.last(), c)
    }
}

/// One `insert` on a set of the insert-built shape keeps that shape, and adds
/// exactly the inserted value; a value not held before makes it one longer,
/// and while the buffer has room it goes at the back, inline.
proof fn lemma_insert_step(p: Chimera, x: u16, c: Chimera)
    requires
        p.insert_built(),
        Chimera::insert_post(p, x, c),
    ensures
        c.insert_built(),
        forall|v: u16| c.view().contains(v) <==> (p.view().contains(v) || v == x),
        !p.view().contains(x) ==> c.view().len() == p.view().len() + 1,
        !p.view().contains(x) && p.view().len() < INLINE_CAP ==> (c is Inline && c.view()
            == p.view().push(x)),
{
    broadcast use vstd::seq_lib::group_to_multiset_ensures;

    if p.view().contains(x) {
        if p is Heap {
            assert(c.view() == p.view());
        }
    } else {
        match p {
            Chimera::Inline { len, .. } => {
                lemma_add_fresh(p.view(), x, c.view());
                if (len as usize) >= INLINE_CAP {
                    lemma_sorted_distinct_strict(c.view());
                }
            },
            Chimera::Heap(_) => {
                lemma_strict_distinct(p.view());
                let i = choose|i: int|
                    0 <= i <= p.view().len() && c.view() == p.view().insert(i, x);
                assert(c.view().to_multiset() == p.view().push(x).to_multiset());
                lemma_add_fresh(p.view(), x, c.view());
                lemma_sorted_distinct_strict(c.view());
            },
        }
    }
}

/// Induction over the inserted values.
proof fn lemma_built_by_inserts(c: Chimera, s: Seq<u16>)
    requires
        built_by_inserts(c, s),
    ensures
        c.insert_built(),
        forall|v: u16| c.view().contains(v) <==> s.contains(v),
        s.no_duplicates() ==> c.view().len() == s.len(),
        s.no_duplicates() && s.len() <= INLINE_CAP ==> (c is Inline && c.view() == s),
    decreases s.len(),
{
    if s.len() == 0 {
        assert(c.view().len() == 0);
    } else {
        let prev = s.drop_last();
        let x = s.last();
        let p = choose|p: Chimera| built_by_inserts(p, prev) && #[trigger] Chimera::insert_post(p, x, c);
        lemma_built_by_inserts(p, prev);
        lemma_insert_step(p, x, c);
        assert(s == prev.push(x));
        assert forall|v: u16| c.view().contains(v) <==> s.contains(v) by {
            assert(s.contains(v) <==> (prev.contains(v) || v == x)) by {
                if s.contains(v) {
                    let k = choose|k: int| 0 <= k < s.len() && s[k] == v;
                    if k < prev.len() {
                        assert(prev[k] == v);
                    }
                }
                if prev.contains(v) {
                    let k = choose|k: int| 0 <= k < prev.len() && prev[k] == v;
                    assert(s[k] == v);
                }
                if v == x {
                    assert(s[s.len() - 1] == v);
                }
            }
        }
        if s.no_duplicates() {
            assert(prev.no_duplicates());
            assert(!prev.contains(x)) by {
                if prev.contains(x) {
                    let k = choose|k: int| 0 <= k < prev.len() && prev[k] == x;
                    assert(s[k] == s[s.len() - 1]);
                }
            }
        }
    }
}

/// A value re-inserted into a set built by inserts changes nothing that can
/// be read: the held values stay the same, in the same order.
pub proof fn law_reinsert_unchanged(s: Seq<u16>, c: Chimera, x: u16, d: Chimera)
    requires
        built_by_inserts(c, s),
        c.view().contains(x),
        Chimera::insert_post(c, x, d),
    ensures
        d.view() == c.view(),
{
    lemma_built_by_inserts(c, s);
}

/// After any run of inserts from an empty set, a value is held exactly when it
/// was inserted at least once, and `contains` answers exactly.
pub proof fn law_contains_iff_inserted(s: Seq<u16>, c: Chimera, v: u16)
    requires
        built_by_inserts(c, s),
    ensures
        c.view().contains(v) <==> s.contains(v),
        c.search_exact(),
{
    lemma_built_by_inserts(c, s);
}

/// Once a set built by inserts has spilled, its values are strictly ascending,
/// after every later insert too.
pub proof fn law_spilled_sorted(s: Seq<u16>, c: Chimera)
    requires
        built_by_inserts(c, s),
        c is Heap,
    ensures
        strictly_sorted(c.view()),
{
    lemma_built_by_inserts(c, s);
}

/// Inserting distinct values: up to sixteen stay inline in insertion order;
/// from the seventeenth on, the set has spilled and holds all of them,
/// ascending.
pub proof fn law_capacity_boundary(s: Seq<u16>, c: Chimera)
    requires
        built_by_inserts(c, s),
        s.no_duplicates(),
    ensures
        s.len() <= INLINE_CAP ==> (c is Inline && c.view() == s),
        s.len() > INLINE_CAP ==> {
            &&& c is Heap
            &&& c.view().len() == s.len()
            &&& strictly_sorted(c.view())
            &&& forall|v: u16| c.view().contains(v) <==> s.contains(v)
        },
{
    lemma_built_by_inserts(c, s);
}

} // verus!
