use vstd::prelude::*;

use vstd::slice::slice_subrange;

use crate::order::{
    lemma_add_fresh, lemma_insert_in_order, lemma_sorted_distinct_strict, sorted, strictly_sorted,
};
use crate::small::{
    small_as_slice, small_binary_search, small_from_buf, small_from_vec, small_insert,
    small_items, small_len_limit, small_push, small_sort, PortVec,
};

verus! {

/// How many values the inline buffer holds before the set spills.
pub const INLINE_CAP: usize = 16;

/// A set of `u16` that stores up to sixteen values inline, in insertion
/// order, and past that a sorted `SmallVec`.
pub enum Chimera {
    /// The first `len` slots of `buf` hold the values; the rest are unused.
    Inline { len: u8, buf: [u16; 16] },
    /// The values, ascending when they arrived through `insert`.
    Heap(PortVec),
}

impl Chimera {
    /// The values held, in stored order.
    pub open spec fn view(&self) -> Seq<u16> {
        match self {
            Chimera::Inline { len, buf } => buf@.subrange(0, *len as int),
            Chimera::Heap(v) => small_items(*v),
        }
    }

    /// The inline length never exceeds the buffer.
    pub open spec fn wf(&self) -> bool {
        match self {
            Chimera::Inline { len, .. } => *len as usize <= INLINE_CAP,
            Chimera::Heap(_) => true,
        }
    }

    /// Where the set spilled, its values are ascending, so that a binary
    /// search over them is exact.
    pub open spec fn search_exact(&self) -> bool {
        self is Heap ==> sorted(self.view())
    }

    /// The shape that `new` and `insert` alone produce: inline values are
    /// distinct, and spilled ones, more than sixteen, are strictly ascending.
    pub open spec fn insert_built(&self) -> bool {
        &&& self.wf()
        &&& match self {
            Chimera::Inline { .. } => self.view().no_duplicates(),
            Chimera::Heap(_) => strictly_sorted(self.view()) && self.view().len() > INLINE_CAP,
        }
    }

    /// What `insert(x)` makes of `old`: `new` is one of the results allowed.
    pub open spec fn insert_post(old: Chimera, x: u16, new: Chimera) -> bool {
        &&& new.wf()
        &&& match old {
            Chimera::Inline { len, .. } => if old.view().contains(x) {
                new == old
            } else if (len as usize) < INLINE_CAP {
                new is Inline && new.view() == old.view().push(x)
            } else {
                &&& new is Heap
                &&& sorted(new.view())
                &&& new.view().to_multiset() == old.view().push(x).to_multiset()
            },
            Chimera::Heap(_) => {
                &&& new is Heap
                &&& if sorted(old.view()) {
                    if old.view().contains(x) {
                        new.view() == old.view()
                    } else {
                        sorted(new.view()) && exists|i: int|
                            0 <= i <= old.view().len() && new.view() == old.view().insert(i, x)
                    }
                } else {
                    ||| new.view() == old.view()
                    ||| exists|i: int|
                        0 <= i <= old.view().len() && new.view() == old.view().insert(i, x)
                }
            },
        }
    }

    /// An empty set, inline.
    pub fn new() -> (r: Self)
        ensures
            r.wf(),
            r is Inline,
            r.view() == Seq::<u16>::empty(),
    {
        Chimera::Inline { len: 0, buf: [0u16; 16] }
    }

    /// The set holding `k` as given, in order, duplicates included: inline
    /// when `k` has at most sixteen values, spilled (and not sorted) beyond.
    pub fn from_vec(k: Vec<u16>) -> (r: Self)
        ensures
            r.wf(),
            r.view() == k@,
            r is Inline <==> k@.len() <= INLINE_CAP,
    {
        let n = k.len();
        if n <= INLINE_CAP {
            let mut buf = [0u16; 16];
            let mut i: usize = 0;
            while i < n
                invariant
                    n == k@.len(),
                    n <= INLINE_CAP,
                    i <= n,
                    buf@.len() == INLINE_CAP,
                    forall|j: int| 0 <= j < i ==> buf@[j] == k@[j],
                decreases n - i,
            {
                buf[i] = k[i];
                i = i + 1;
            }
            assert(buf@.subrange(0, n as int) =~= k@);
            Chimera::Inline { len: n as u8, buf }
        } else {
            Chimera::Heap(small_from_vec(k))
        }
    }

    /// Adds `port` unless it is held already. Inline, a new value goes at the
    /// back; with the buffer full, all seventeen values move to the heap in
    /// ascending order. Spilled, the value goes to its sorted place.
    pub fn insert(&mut self, port: u16)
        requires
            old(self).wf(),
            old(self).view().len() < small_len_limit(),
        ensures
            Chimera::insert_post(*old(self), port, *final(self)),
            old(self).insert_built() ==> final(self).insert_built(),
    {
        match self {
            Chimera::Inline { len, buf } => {
                let n = *len as usize;
                if slice_contains(slice_subrange(buf.as_slice(), 0, n), port) {
                    return;
                }
                if n < INLINE_CAP {
                    buf[n] = port;
                    *len = (n + 1) as u8;
                    assert(buf@.subrange(0, n + 1) =~= old(self).view().push(port));
                } else {
                    let ghost before = old(self).view();
                    assert(buf@ =~= before);
                    let mut v = small_from_buf(*buf);
                    small_push(&mut v, port);
                    small_sort(&mut v);
                    proof {
                        if old(self).insert_built() {
                            lemma_add_fresh(before, port, small_items(v));
                            lemma_sorted_distinct_strict(small_items(v));
                        }
                    }
                    *self = Chimera::Heap(v);
                }
            },
            Chimera::Heap(v) => {
                match small_binary_search(v, port) {
                    Ok(_) => {},
                    Err(i) => {
                        if i <= v.len() {
                            let ghost before = small_items(*v);
                            small_insert(v, i, port);
                            proof {
                                if sorted(before) {
                                    lemma_insert_in_order(before, i as int, port);
                                }
                            }
                        }
                    },
                }
            },
        }
    }

    /// Whether `port` is held. Inline this is a scan, exact in any order;
    /// spilled it is a binary search, exact on sorted values; on unsorted
    /// spilled values the answer is not specified.
    pub fn contains(&self, port: &u16) -> (r: bool)
        requires
            self.wf(),
        ensures
            self.search_exact() ==> (r == self.view().contains(*port)),
    {
        match self {
            Chimera::Inline { .. } => slice_contains(self.as_slice(), *port),
            Chimera::Heap(v) => small_binary_search(v, *port).is_ok(),
        }
    }

    /// The values held, in stored order.
    pub fn as_slice(&self) -> (r: &[u16])
        requires
            self.wf(),
        ensures
            r@ == self.view(),
    {
        match self {
            Chimera::Inline { len, buf } => slice_subrange(buf.as_slice(), 0, *len as usize),
            Chimera::Heap(v) => small_as_slice(v),
        }
    }
}

/// Whether `x` is among the values of `s`, by a scan from the front.
fn slice_contains(s: &[u16], x: u16) -> (r: bool)
    ensures
        r == s@.contains(x),
{
    let mut i: usize = 0;
    while i < s.len()
        invariant
            i <= s@.len(),
            forall|j: int| 0 <= j < i ==> s@[j] != x,
        decreases s@.len() - i,
    {
        if s[i] == x {
            return true;
        }
        i = i + 1;
    }
    false
}

} // verus!
