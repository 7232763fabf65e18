use vstd::prelude::*;

verus! {

/// Every element is at most the ones after it.
pub open spec fn sorted(s: Seq<u16>) -> bool {
    forall|i: int, j: int| 0 <= i < j < s.len() ==> s[i] <= s[j]
}

/// Every element is below the ones after it: sorted and without repeats.
pub open spec fn strictly_sorted(s: Seq<u16>) -> bool {
    forall|i: int, j: int| 0 <= i < j < s.len() ==> s[i] < s[j]
}

/// A sorted sequence without repeats is strictly sorted.
pub proof fn lemma_sorted_distinct_strict(s: Seq<u16>)
    requires
        sorted(s),
        s.no_duplicates(),
    ensures
        strictly_sorted(s),
{
    assert forall|i: int, j: int| 0 <= i < j < s.len() implies s[i] < s[j] by {
        assert(s[i] <= s[j]);
        assert(s[i] != s[j]);
    }
}

/// A strictly sorted sequence has no repeats.
pub proof fn lemma_strict_distinct(s: Seq<u16>)
    requires
        strictly_sorted(s),
    ensures
        s.no_duplicates(),
{
    assert forall|i: int, j: int| 0 <= i < s.len() && 0 <= j < s.len() && i != j implies s[i]
        != s[j] by {
        if i < j {
            assert(s[i] < s[j]);
        } else {
            assert(s[j] < s[i]);
        }
    }
}

/// Inserting `x` at a place with smaller values before it and larger ones
/// after it keeps a sorted sequence sorted, and a strictly sorted one
/// strictly sorted.
pub proof fn lemma_insert_in_order(s: Seq<u16>, i: int, x: u16)
    requires
        0 <= i <= s.len(),
        forall|j: int| 0 <= j < i ==> s[j] < x,
        forall|j: int| i <= j < s.len() ==> x < s[j],
    ensures
        sorted(s) ==> sorted(s.insert(i, x)),
        strictly_sorted(s) ==> strictly_sorted(s.insert(i, x)),
{
    let t = s.insert(i, x);
    assert forall|a: int, b: int| 0 <= a < b < t.len() implies (sorted(s) ==> t[a] <= t[b]) && (
    strictly_sorted(s) ==> t[a] < t[b]) by {
        if b == i {
            assert(t[b] == x);
        } else if b > i {
            assert(t[b] == s[b - 1]);
        }
    }
}

/// Rearranging distinct values together with one more value that is not among
/// them gives distinct values: those before and the new one, one more in all.
pub proof fn lemma_add_fresh(before: Seq<u16>, x: u16, after: Seq<u16>)
    requires
        before.no_duplicates(),
        !before.contains(x),
        after.to_multiset() == before.push(x).to_multiset(),
    ensures
        after.no_duplicates(),
        after.len() == before.len() + 1,
        forall|v: u16| after.contains(v) <==> (before.contains(v) || v == x),
{
    broadcast use vstd::seq_lib::group_to_multiset_ensures;

    let full = before.push(x);
    assert(full.no_duplicates()) by {
        assert forall|i: int, j: int|
            0 <= i < full.len() && 0 <= j < full.len() && i != j implies full[i] != full[j] by {
            if i < before.len() && j < before.len() {
            } else if i < before.len() {
                assert(before.contains(full[i]));
            } else {
                assert(before.contains(full[j]));
            }
        }
    }
    full.lemma_multiset_has_no_duplicates();
    after.lemma_multiset_has_no_duplicates_conv();
    assert(after.len() == after.to_multiset().len());
    assert(full.len() == full.to_multiset().len());
    assert forall|v: u16| after.contains(v) <==> (before.contains(v) || v == x) by {
        assert(after.to_multiset().count(v) == full.to_multiset().count(v));
        assert(full.contains(v) <==> (before.contains(v) || v == x));
    }
}

} // verus!
