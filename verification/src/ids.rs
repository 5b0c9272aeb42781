//! Identifier allocation: contiguous channel ids starting at 1, reused
//! lowest-free first, bounded by the negotiated `channel_max`.

use vstd::prelude::*;
use crate::error::Error;

verus! {

/// Hands out channel ids `1..=channel_max`, skipping 0. Released ids go to a
/// free list and are handed out again before any never-used id.
#[derive(Debug)]
pub struct ChannelIdAllocator {
    /// Highest id this allocator may hand out.
    pub channel_max: u16,
    /// The next never-used id; every id below it (and at least 1) has been
    /// handed out at some point.
    pub next: u32,
    /// Released ids, kept strictly descending so the minimum sits last.
    pub free: Vec<u16>,
}

impl ChannelIdAllocator {
    pub open spec fn wf(self) -> bool {
        &&& 1 <= self.next <= self.channel_max + 1
        &&& forall|k: int|
            0 <= k < self.free@.len() ==> 1 <= #[trigger] self.free@[k] < self.next
        &&& forall|k: int, l: int|
            0 <= k < l < self.free@.len() ==> #[trigger] self.free@[k] > #[trigger] self.free@[l]
    }

    /// True while the id has been handed out and not released.
    pub open spec fn is_allocated(self, id: u16) -> bool {
        1 <= id < self.next && !self.free@.contains(id)
    }

    pub fn new(channel_max: u16) -> (r: ChannelIdAllocator)
        ensures
            r.wf(),
            r.channel_max == channel_max,
            forall|id: u16| !r.is_allocated(id),
    {
        ChannelIdAllocator { channel_max, next: 1, free: Vec::new() }
    }

    /// The lowest free id, or the next never-used id, or
    /// `ChannelsLimitReached` once `channel_max` ids are in use at once.
    pub fn allocate(&mut self) -> (r: Result<u16, Error>)
        requires
            old(self).wf(),
        ensures
            final(self).wf(),
            final(self).channel_max == old(self).channel_max,
            match r {
                Ok(id) => {
                    &&& !old(self).is_allocated(id)
                    &&& final(self).is_allocated(id)
                    // lowest-free first: nothing free is below the result
                    &&& forall|k: int|
                        0 <= k < old(self).free@.len() ==> id <= #[trigger] old(self).free@[k]
                    // every id allocated before stays allocated
                    &&& forall|o: u16|
                        old(self).is_allocated(o) ==> final(self).is_allocated(o)
                },
                Err(e) => {
                    &&& e == Error::ChannelsLimitReached
                    // exhausted: nothing in the free set and no never-used id left
                    &&& old(self).free@.len() == 0
                    &&& old(self).next > old(self).channel_max
                    &&& final(self).free@ == old(self).free@
                    &&& final(self).next == old(self).next
                    &&& forall|o: u16| final(self).is_allocated(o) == old(self).is_allocated(o)
                },
            },
    {
        match self.free.pop() {
            Some(id) => {
                proof {
                    let n = old(self).free@.len();
                    assert(old(self).free@[n - 1] == id);
                    assert(old(self).free@.contains(id));
                    assert(1 <= id < old(self).next);
                    assert forall|k: int| 0 <= k < self.free@.len() implies #[trigger] self.free@[k]
                        != id by {
                        assert(old(self).free@[k] > old(self).free@[n - 1]);
                    }
                    assert(!self.free@.contains(id));
                    assert forall|o: u16| self.free@.contains(o) implies old(self).free@.contains(
                        o,
                    ) by {
                        let k = choose|k: int| 0 <= k < self.free@.len() && self.free@[k] == o;
                        assert(old(self).free@[k] == o);
                    }
                    assert forall|k: int| 0 <= k < n implies id <= #[trigger] old(self).free@[k] by {
                        if k < n - 1 {
                            assert(old(self).free@[k] > old(self).free@[n - 1]);
                        }
                    }
                }
                Ok(id)
            },
            None => {
                if self.next <= self.channel_max as u32 {
                    let id = self.next as u16;
                    self.next = self.next + 1;
                    proof {
                        assert forall|k: int| 0 <= k < self.free@.len() implies #[trigger] self
                            .free@[k] != id by {}
                        assert(!self.free@.contains(id));
                    }
                    Ok(id)
                } else {
                    Err(Error::ChannelsLimitReached)
                }
            },
        }
    }

    /// Return an allocated id to the free set, keeping it strictly
    /// descending. Ids that are not currently allocated are left alone.
    pub fn release(&mut self, id: u16)
        requires
            old(self).wf(),
        ensures
            final(self).wf(),
            final(self).channel_max == old(self).channel_max,
            !final(self).is_allocated(id),
            forall|o: u16|
                o != id && old(self).is_allocated(o) ==> final(self).is_allocated(o),
            forall|o: u16| !old(self).is_allocated(o) ==> !final(self).is_allocated(o),
    {
        if id == 0 || id as u32 >= self.next {
            return ;
        }
        let mut k: usize = 0;
        while k < self.free.len() && self.free[k] > id
            invariant
                self.wf(),
                k <= self.free@.len(),
                forall|j: int| 0 <= j < k ==> #[trigger] self.free@[j] > id,
                1 <= id < self.next,
                *self == *old(self),
            decreases self.free@.len() - k,
        {
            k = k + 1;
        }
        if k < self.free.len() && self.free[k] == id {
            // already free
            proof {
                assert(self.free@.contains(id)) by {
                    assert(self.free@[k as int] == id);
                }
            }
            return ;
        }
        self.free.insert(k, id);
        proof {
            let pre = old(self).free@;
            let ki = k as int;
            assert(self.free@ == pre.insert(ki, id));
            assert(self.free@[ki] == id);
            assert forall|j: int| 0 <= j < self.free@.len() && j != ki implies #[trigger] self
                .free@[j] == if j < ki {
                pre[j]
            } else {
                pre[j - 1]
            } by {}
            assert forall|a: int, b: int|
                0 <= a < b < self.free@.len() implies #[trigger] self.free@[a]
                > #[trigger] self.free@[b] by {
                if b < ki {
                } else if a == ki {
                    // pre[b - 1] <= pre[ki] < id
                    if b - 1 > ki {
                        assert(pre[ki] > pre[b - 1]);
                    }
                } else if b == ki {
                    // pre[a] > id since a < k
                } else if a < ki && b > ki {
                    // a <= b - 2 < b - 1, both sides are pre entries around the insertion
                    assert(self.free@[a] == pre[a]);
                    assert(self.free@[b] == pre[b - 1]);
                    if a < b - 1 {
                        assert(pre[a] > pre[b - 1]);
                    }
                } else {
                    assert(self.free@[a] == pre[a - 1]);
                    assert(self.free@[b] == pre[b - 1]);
                }
            }
            assert(self.free@.contains(id)) by {
                assert(self.free@[ki] == id);
            }
            // membership other than `id` is unchanged by the insertion
            assert forall|o: u16| o != id implies (self.free@.contains(o) == pre.contains(
                o,
            )) by {
                if self.free@.contains(o) {
                    let j = choose|j: int| 0 <= j < self.free@.len() && self.free@[j] == o;
                    if j < ki {
                        assert(pre[j] == o);
                    } else {
                        assert(j != ki);
                        assert(pre[j - 1] == o);
                    }
                    assert(pre.contains(o));
                }
                if pre.contains(o) {
                    let j = choose|j: int| 0 <= j < pre.len() && pre[j] == o;
                    if j < ki {
                        assert(self.free@[j] == o);
                    } else {
                        assert(self.free@[j + 1] == o);
                    }
                    assert(self.free@.contains(o));
                }
            }
        }
    }
}

} // verus!
