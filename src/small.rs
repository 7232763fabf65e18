//! The heap-side storage: `smallvec::SmallVec` holding sixteen `u16` inline,
//! and the std slice searches and sorts applied to it.
use smallvec::SmallVec;
use vstd::prelude::*;

use crate::order::sorted;

verus! {

/// A `SmallVec<[u16; 16]>`, opaque to proofs: what it holds is
/// `small_items`, kept up to date by the functions below.
#[verifier::external_body]
pub struct PortVec {
    inner: SmallVec<[u16; 16]>,
}

/// The values a `PortVec` holds, front to back.
pub uninterp spec fn small_items(v: PortVec) -> Seq<u16>;

/// The largest length at which one more element can be added without
/// smallvec's "capacity overflow" panic: the grown capacity, a power of two,
/// must still give a layout of at most `isize::MAX` bytes of `u16`.
pub open spec fn small_len_limit() -> int {
    usize::MAX as int / 8
}

/// Relies on `SmallVec::from_vec`: the vector's elements, in order.
#[verifier::external_body]
pub(crate) fn small_from_vec(k: Vec<u16>) -> (r: PortVec)
    ensures
        small_items(r) == k@,
{
    PortVec { inner: SmallVec::from_vec(k) }
}

/// Relies on `SmallVec::from_buf`: all sixteen values of the buffer, in order.
#[verifier::external_body]
pub(crate) fn small_from_buf(buf: [u16; 16]) -> (r: PortVec)
    ensures
        small_items(r) == buf@,
{
    PortVec { inner: SmallVec::from_buf(buf) }
}

/// Relies on `SmallVec::push`: appends the value at the back.
#[verifier::external_body]
pub(crate) fn small_push(v: &mut PortVec, x: u16)
    requires
        small_items(*old(v)).len() < small_len_limit(),
    ensures
        small_items(*final(v)) == small_items(*old(v)).push(x),
{
    v.inner.push(x)
}

/// Relies on `SmallVec::insert`: places the value at `i`, shifting the rest
/// one place back; it panics only where `i` is past the end.
#[verifier::external_body]
pub(crate) fn small_insert(v: &mut PortVec, i: usize, x: u16)
    requires
        i <= small_items(*old(v)).len(),
        small_items(*old(v)).len() < small_len_limit(),
    ensures
        small_items(*final(v)) == small_items(*old(v)).insert(i as int, x),
{
    v.inner.insert(i, x)
}

/// Relies on `SmallVec::as_slice`: a view of the whole vector.
#[verifier::external_body]
pub(crate) fn small_as_slice(v: &PortVec) -> (r: &[u16])
    ensures
        r@ == small_items(*v),
{
    v.inner.as_slice()
}

/// Relies on `<[u16]>::sort_unstable`, through the vector's slice: the same
/// values, ascending.
#[verifier::external_body]
pub(crate) fn small_sort(v: &mut PortVec)
    ensures
        sorted(small_items(*final(v))),
        small_items(*final(v)).to_multiset() == small_items(*old(v)).to_multiset(),
{
    v.inner.sort_unstable()
}

/// Relies on `<[u16]>::binary_search`, through the vector's slice. On sorted
/// contents, `Ok(i)` gives the index of an element equal to `x`, and `Err(i)`
/// says that `x` is absent and that inserting it at `i` keeps the order. On
/// other contents the result is unspecified, so nothing is promised there.
#[verifier::external_body]
pub(crate) fn small_binary_search(v: &PortVec, x: u16) -> (r: Result<usize, usize>)
    ensures
        sorted(small_items(*v)) ==> match r {
            Ok(i) => i < small_items(*v).len() && small_items(*v)[i as int] == x,
            Err(i) => {
                &&& i <= small_items(*v).len()
                &&& !small_items(*v).contains(x)
                &&& forall|j: int| 0 <= j < i ==> small_items(*v)[j] < x
                &&& forall|j: int| i <= j < small_items(*v).len() ==> x < small_items(*v)[j]
            },
        },
{
    v.inner.binary_search(&x)
}

impl PortVec {
    /// The values held, front to back.
    pub fn as_slice(&self) -> (r: &[u16])
        ensures
            r@ == small_items(*self),
    {
        small_as_slice(self)
    }

    /// How many values are held.
    pub fn len(&self) -> (r: usize)
        ensures
            r == small_items(*self).len(),
    {
        small_as_slice(self).len()
    }
}

} // verus!
