use vstd::prelude::*;

use crate::error::EngineError;

verus! {

/// A table of long-lived objects addressed by index. An index is issued once
/// and never reused, so an index that was released, or never issued, is
/// reported as `InvalidHandle` instead of reaching a stale object.
pub struct Registry<T> {
    slots: Vec<Option<T>>,
}

impl<T> Registry<T> {
    /// Slot `i` holds the object issued under index `i`, or nothing once it
    /// was released.
    pub closed spec fn slots(&self) -> Seq<Option<T>> {
        self.slots@
    }

    /// Whether index `id` names a live object.
    pub open spec fn live(&self, id: int) -> bool {
        0 <= id < self.slots().len() && self.slots()[id] is Some
    }

    /// An empty table.
    pub fn new() -> (r: Self)
        ensures
            r.slots() == Seq::<Option<T>>::empty(),
    {
        Registry { slots: Vec::new() }
    }

    /// Stores `v` under the next fresh index and returns that index.
    pub fn insert(&mut self, v: T) -> (id: usize)
        ensures
            id == old(self).slots().len(),
            final(self).slots() == old(self).slots().push(Some(v)),
    {
        let id = self.slots.len();
        self.slots.push(Some(v));
        id
    }

    /// The object under `id`, or `InvalidHandle` if `id` is not live.
    pub fn get(&self, id: usize) -> (r: Result<&T, EngineError>)
        ensures
            self.live(id as int) ==> (r matches Ok(v) && Some(*v) == self.slots()[id as int]),
            !self.live(id as int) ==> r == Err::<&T, EngineError>(EngineError::InvalidHandle),
    {
        if id >= self.slots.len() {
            return Err(EngineError::InvalidHandle);
        }
        match &self.slots[id] {
            Some(v) => Ok(v),
            None => Err(EngineError::InvalidHandle),
        }
    }

    /// Removes and returns the object under `id`; every later use of `id` is
    /// `InvalidHandle`. A release of an index that is not live changes nothing.
    pub fn release(&mut self, id: usize) -> (r: Result<T, EngineError>)
        ensures
            old(self).live(id as int) ==> (r matches Ok(v) && Some(v) == old(self).slots()[id as int]
                && final(self).slots() == old(self).slots().update(id as int, None)),
            !old(self).live(id as int) ==> r == Err::<T, EngineError>(EngineError::InvalidHandle)
                && final(self).slots() == old(self).slots(),
    {
        if id >= self.slots.len() {
            return Err(EngineError::InvalidHandle);
        }
        match self.slots[id].take() {
            Some(v) => Ok(v),
            None => Err(EngineError::InvalidHandle),
        }
    }
}

/// After a release, the index stays dead: a second release and any lookup
/// report `InvalidHandle`, and every other index keeps its object.
pub proof fn law_release_invalidates<T>(before: Registry<T>, after: Registry<T>, id: int)
    requires
        before.live(id),
        after.slots() == before.slots().update(id, None),
    ensures
        !after.live(id),
        forall|j: int| j != id ==> (after.live(j) <==> before.live(j)),
        forall|j: int| #![auto] j != id && after.live(j) ==> after.slots()[j] == before.slots()[j],
{
}

} // verus!
