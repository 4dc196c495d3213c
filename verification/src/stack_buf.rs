//! Inline storage for the small-set representation.
//!
//! The elements live in a `smallvec::SmallVec`, which keeps them on the
//! stack while they fit in its fixed-size array and spills to the heap
//! otherwise.  The vector is hidden behind `StackBuf`; the rest of the
//! crate reads and writes it only through the wrappers below, whose
//! contracts speak of the abstract contents `stack_elems`.

use vstd::prelude::*;

verus! {

/// An ordered buffer of elements in insertion order, backed by
/// `smallvec::SmallVec`.
#[verifier::external_body]
pub struct StackBuf {
    buf: smallvec::SmallVec<[u64; 8]>,
}

/// The sequence of elements a `StackBuf` holds, in order.
pub uninterp spec fn stack_elems(b: StackBuf) -> Seq<u64>;

/// Relies on smallvec::SmallVec::new: creates an empty vector.
#[verifier::external_body]
pub(crate) fn buf_new() -> (b: StackBuf)
    ensures
        stack_elems(b) == Seq::<u64>::empty(),
{
    StackBuf { buf: smallvec::SmallVec::new() }
}

/// Relies on smallvec::SmallVec::len: the number of elements held.
#[verifier::external_body]
pub(crate) fn buf_len(b: &StackBuf) -> (n: usize)
    ensures
        n == stack_elems(*b).len(),
{
    b.buf.len()
}

/// Relies on the slice indexing that smallvec::SmallVec offers through
/// its deref to `[u64]`: returns the element at `i`.
#[verifier::external_body]
pub(crate) fn buf_get(b: &StackBuf, i: usize) -> (x: u64)
    requires
        i < stack_elems(*b).len(),
    ensures
        x == stack_elems(*b)[i as int],
{
    b.buf[i]
}

/// Relies on smallvec::SmallVec::push: appends one element at the end.
#[verifier::external_body]
pub(crate) fn buf_push(b: &mut StackBuf, x: u64)
    requires
        stack_elems(*old(b)).len() < usize::MAX,
    ensures
        stack_elems(*final(b)) == stack_elems(*old(b)).push(x),
{
    b.buf.push(x)
}

/// Relies on smallvec::SmallVec::remove: takes out the element at `i`,
/// shifting the later ones left (it panics when `i` is out of bounds,
/// which the precondition rules out).
#[verifier::external_body]
pub(crate) fn buf_remove(b: &mut StackBuf, i: usize) -> (x: u64)
    requires
        i < stack_elems(*old(b)).len(),
    ensures
        x == stack_elems(*old(b))[i as int],
        stack_elems(*final(b)) == stack_elems(*old(b)).remove(i as int),
{
    b.buf.remove(i)
}

/// Relies on smallvec::SmallVec::clear: removes every element.
#[verifier::external_body]
pub(crate) fn buf_clear(b: &mut StackBuf)
    ensures
        stack_elems(*final(b)) == Seq::<u64>::empty(),
{
    b.buf.clear()
}

/// Relies on smallvec::SmallVec::clone, which copies the elements one
/// by one; cloning a `u64` keeps its value.
#[verifier::external_body]
pub(crate) fn buf_clone(b: &StackBuf) -> (c: StackBuf)
    ensures
        stack_elems(c) == stack_elems(*b),
{
    StackBuf { buf: b.buf.clone() }
}

} // verus!
