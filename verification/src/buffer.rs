//! The lifecycle of result buffers that are handed across a boundary by
//! handle: each buffer is registered once, read while it is live, and
//! released exactly once.

use vstd::prelude::*;
use crate::error::AttributionError;

verus! {

/// The buffers that have been handed out and not yet released.
///
/// A handle is the number of buffers registered before it, so no handle is
/// ever issued twice and a released handle stays invalid for good.
pub struct BufferPool {
    slots: Vec<Option<Vec<i64>>>,
}

impl View for BufferPool {
    type V = Map<usize, Seq<i64>>;

    /// The live buffers, by handle.
    closed spec fn view(&self) -> Map<usize, Seq<i64>> {
        Map::new(
            |h: usize| h < self.slots.len() && self.slots[h as int] is Some,
            |h: usize| self.slots[h as int].unwrap()@,
        )
    }
}

impl BufferPool {
    /// How many handles have been issued so far, released or not.
    pub closed spec fn issued(&self) -> nat {
        self.slots.len() as nat
    }

    /// Every live handle is one that was issued.
    pub proof fn lemma_live_handles_were_issued(&self, handle: usize)
        requires
            self@.dom().contains(handle),
        ensures
            handle < self.issued(),
    {
    }

    /// A pool with no buffers.
    pub fn new() -> (pool: BufferPool)
        ensures
            pool@ == Map::<usize, Seq<i64>>::empty(),
            pool.issued() == 0,
    {
        let pool = BufferPool { slots: Vec::new() };
        assert(pool@ =~= Map::<usize, Seq<i64>>::empty());
        pool
    }

    /// Registers a buffer and returns its handle, which was never issued
    /// before. All other buffers stay as they are.
    pub fn allocate(&mut self, data: Vec<i64>) -> (handle: usize)
        ensures
            handle == old(self).issued(),
            !old(self)@.dom().contains(handle),
            final(self)@ == old(self)@.insert(handle, data@),
            final(self).issued() == old(self).issued() + 1,
    {
        let handle = self.slots.len();
        let ghost contents = data@;
        self.slots.push(Some(data));
        assert(self@ =~= old(self)@.insert(handle, contents));
        handle
    }

    /// Whether `handle` names a live buffer.
    pub fn is_live(&self, handle: usize) -> (live: bool)
        ensures
            live == self@.dom().contains(handle),
    {
        handle < self.slots.len() && self.slots[handle].is_some()
    }

    /// The buffer that `handle` names, or `InvalidHandle` when it names
    /// none.
    pub fn get(&self, handle: usize) -> (r: Result<&Vec<i64>, AttributionError>)
        ensures
            match r {
                Ok(data) => self@.dom().contains(handle) && data@ == self@[handle],
                Err(e) => !self@.dom().contains(handle) && e == AttributionError::InvalidHandle,
            },
    {
        if handle >= self.slots.len() {
            return Err(AttributionError::InvalidHandle);
        }
        match &self.slots[handle] {
            Some(data) => Ok(data),
            None => Err(AttributionError::InvalidHandle),
        }
    }
}

/// Releases the buffer that `handle` names. A handle that was never issued,
/// or whose buffer was already released, is refused with `InvalidHandle`
/// and the pool is left as it was.
pub fn free_memory(pool: &mut BufferPool, handle: usize) -> (r: Result<(), AttributionError>)
    ensures
        final(pool).issued() == old(pool).issued(),
        match r {
            Ok(_) => old(pool)@.dom().contains(handle) && final(pool)@ == old(pool)@.remove(handle),
            Err(e) => {
                &&& !old(pool)@.dom().contains(handle)
                &&& e == AttributionError::InvalidHandle
                &&& final(pool)@ == old(pool)@
            },
        },
{
    if !pool.is_live(handle) {
        return Err(AttributionError::InvalidHandle);
    }
    pool.slots[handle] = None;
    assert(pool@ =~= old(pool)@.remove(handle));
    Ok(())
}

} // verus!
