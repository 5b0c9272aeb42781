//! Single-assignment promises. Every outbound frame and every expected reply
//! carries the id of a slot in the [`PromiseStore`]; the slot is resolved by
//! whichever side completes it (the scheduler on failure, the reply path on
//! success) and never changes again.

use vstd::prelude::*;
use crate::error::Error;

verus! {

/// The state of one promise slot.
#[derive(Debug, PartialEq, Eq)]
pub enum PromiseState {
    /// Created, not yet completed.
    Pending,
    /// Completed with success.
    Resolved,
    /// Completed with the given error (failed or cancelled).
    Failed(Error),
}

impl PromiseState {
    pub fn duplicate(&self) -> (r: PromiseState)
        ensures
            r == *self,
    {
        match self {
            PromiseState::Pending => PromiseState::Pending,
            PromiseState::Resolved => PromiseState::Resolved,
            PromiseState::Failed(e) => PromiseState::Failed(e.duplicate()),
        }
    }
}

/// All promise slots of one connection, addressed by index. Slots are only
/// ever appended, and a completed slot is never rewritten.
#[derive(Debug)]
pub struct PromiseStore {
    pub slots: Vec<PromiseState>,
}

/// What `complete` does to the store: a pending slot takes the outcome, a
/// completed slot is left exactly as it was.
pub open spec fn complete_post(
    pre: PromiseStore,
    post: PromiseStore,
    id: int,
    outcome: PromiseState,
) -> bool {
    post.slots@ == if pre.slots@[id] is Pending {
        pre.slots@.update(id, outcome)
    } else {
        pre.slots@
    }
}

impl PromiseStore {
    pub open spec fn len(self) -> nat {
        self.slots@.len()
    }

    pub open spec fn slot(self, id: int) -> PromiseState {
        self.slots@[id]
    }

    pub open spec fn is_pending(self, id: int) -> bool {
        0 <= id < self.len() && self.slot(id) is Pending
    }

    pub fn new() -> (r: PromiseStore)
        ensures
            r.len() == 0,
    {
        PromiseStore { slots: Vec::new() }
    }

    /// A fresh pending slot; its id is the previous slot count.
    pub fn create(&mut self) -> (id: usize)
        requires
            old(self).len() < usize::MAX,
        ensures
            id == old(self).len(),
            final(self).slots@ == old(self).slots@.push(PromiseState::Pending),
            final(self).is_pending(id as int),
    {
        let id = self.slots.len();
        self.slots.push(PromiseState::Pending);
        id
    }

    /// Complete slot `id` with `outcome`. A slot that was already completed
    /// keeps its first outcome: completion is single-assignment.
    pub fn complete(&mut self, id: usize, outcome: PromiseState)
        requires
            id < old(self).len(),
            !(outcome is Pending),
        ensures
            complete_post(*old(self), *final(self), id as int, outcome),
            final(self).len() == old(self).len(),
    {
        match self.slots[id] {
            PromiseState::Pending => {
                self.slots[id] = outcome;
            },
            _ => {},
        }
    }

    pub fn state_of(&self, id: usize) -> (r: &PromiseState)
        requires
            id < self.len(),
        ensures
            *r == self.slot(id as int),
    {
        &self.slots[id]
    }
}

/// Law: a promise resolves exactly once. Once a pending slot has been
/// completed with outcome `first`, any later completion of the same slot —
/// with any outcome — leaves the first outcome in place.
pub proof fn lemma_resolve_once(
    pre: PromiseStore,
    mid: PromiseStore,
    post: PromiseStore,
    id: int,
    first: PromiseState,
    second: PromiseState,
)
    requires
        pre.is_pending(id),
        !(first is Pending),
        !(second is Pending),
        complete_post(pre, mid, id, first),
        complete_post(mid, post, id, second),
    ensures
        mid.slot(id) == first,
        post.slot(id) == first,
{
}

/// Law: completing one slot never disturbs any other slot.
pub proof fn lemma_complete_frame(
    pre: PromiseStore,
    post: PromiseStore,
    id: int,
    outcome: PromiseState,
    other: int,
)
    requires
        0 <= id < pre.len(),
        0 <= other < pre.len(),
        other != id,
        complete_post(pre, post, id, outcome),
    ensures
        post.slot(other) == pre.slot(other),
{
}

} // verus!
