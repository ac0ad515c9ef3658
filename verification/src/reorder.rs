//! The reorder buffer's storage: a small-vector from an outside crate, held
//! in an opaque struct and seen by the rest of the library only through the
//! `buffered` contents function and the wrappers below.

use vstd::prelude::*;
use crate::receive::State;

verus! {

/// Storage for out-of-order messages: a smallvec::SmallVec that keeps up to
/// 32 entries inline, one slot per worker being the steady-state need.
#[verifier::external_body]
pub struct ReorderBuffer {
    items: smallvec::SmallVec<[State; 32]>,
}

/// The messages held by the reorder buffer, oldest first.
pub uninterp spec fn buffered(v: ReorderBuffer) -> Seq<State>;

impl ReorderBuffer {
    /// Relies on smallvec::SmallVec::new: constructs an empty vector.
    #[verifier::external_body]
    pub(crate) fn new() -> (r: ReorderBuffer)
        ensures
            buffered(r) == Seq::<State>::empty(),
    {
        ReorderBuffer { items: smallvec::SmallVec::new() }
    }

    /// Relies on smallvec::SmallVec::push: appends the element at the end.
    #[verifier::external_body]
    pub(crate) fn push(&mut self, s: State)
        ensures
            buffered(*final(self)) == buffered(*old(self)).push(s),
    {
        self.items.push(s)
    }

    /// Relies on smallvec::SmallVec::len: the number of elements held.
    #[verifier::external_body]
    pub(crate) fn len(&self) -> (r: usize)
        ensures
            r == buffered(*self).len(),
    {
        self.items.len()
    }

    /// Relies on the slice indexing that smallvec::SmallVec offers through
    /// its Deref to a slice: the element at `i`. Only the id is copied out.
    #[verifier::external_body]
    pub(crate) fn id_at(&self, i: usize) -> (r: usize)
        requires
            i < buffered(*self).len(),
        ensures
            r == buffered(*self)[i as int].id(),
    {
        match &self.items[i] {
            State::Completed(id, _) => *id,
            State::Error(id, _) => *id,
        }
    }

    /// Relies on smallvec::SmallVec::remove: takes out and returns the
    /// element at position `i`, shifting later elements one to the left.
    #[verifier::external_body]
    pub(crate) fn remove(&mut self, i: usize) -> (r: State)
        requires
            i < buffered(*old(self)).len(),
        ensures
            r == buffered(*old(self))[i as int],
            buffered(*final(self)) == buffered(*old(self)).remove(i as int),
    {
        self.items.remove(i)
    }
}

} // verus!
