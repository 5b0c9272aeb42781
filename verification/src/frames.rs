//! The outbound frame scheduler: four FIFO lanes — retry, publish-sequence,
//! normal, low-priority — drained in that order. A `basic.publish` batch
//! (method, header, bodies) is pushed to the low-priority lane; when its
//! method frame is popped, the header and the consecutive body frames behind
//! it migrate to the publish-sequence lane, which outranks the normal and
//! low-priority lanes until it is empty. That keeps the run contiguous on the
//! wire: the broker closes the connection on any interleaved frame.

use vstd::prelude::*;
use crate::error::Error;
use crate::frame::Frame;
use crate::promise::{complete_post, PromiseState, PromiseStore};

verus! {

/// One queued outbound frame, with the promise slot to resolve once the
/// transport has written it (`None` for frames nobody awaits).
#[derive(Debug, PartialEq, Eq)]
pub struct QueuedFrame {
    pub frame: Frame,
    pub resolver: Option<usize>,
}

/// Length of the body-frame prefix of `s`.
pub open spec fn body_prefix_len(s: Seq<QueuedFrame>) -> int
    decreases s.len(),
{
    if s.len() == 0 {
        0
    } else if !s[0].frame.is_body() {
        0
    } else {
        1 + body_prefix_len(s.drop_first())
    }
}

/// How many frames at the head of `s` belong to a publish run: a content
/// header followed by consecutive content bodies, or nothing.
pub open spec fn publish_run_len(s: Seq<QueuedFrame>) -> int {
    if s.len() == 0 || !s[0].frame.is_header() {
        0
    } else {
        1 + body_prefix_len(s.drop_first())
    }
}

pub proof fn lemma_body_prefix_is(s: Seq<QueuedFrame>, i: int)
    requires
        0 <= i <= s.len(),
        forall|x: int| 0 <= x < i ==> (#[trigger] s[x]).frame.is_body(),
        i == s.len() || !s[i].frame.is_body(),
    ensures
        body_prefix_len(s) == i,
    decreases s.len(),
{
    if i == 0 {
    } else {
        assert(s[0].frame.is_body());
        lemma_body_prefix_is(s.drop_first(), i - 1);
    }
}

pub proof fn lemma_body_prefix_props(s: Seq<QueuedFrame>)
    ensures
        0 <= body_prefix_len(s) <= s.len(),
        forall|x: int| 0 <= x < body_prefix_len(s) ==> (#[trigger] s[x]).frame.is_body(),
    decreases s.len(),
{
    if s.len() == 0 || !s[0].frame.is_body() {
    } else {
        lemma_body_prefix_props(s.drop_first());
        assert forall|x: int| 0 <= x < body_prefix_len(s) implies (#[trigger] s[x]).frame.is_body()
            by {
            if x > 0 {
                assert(s.drop_first()[x - 1].frame.is_body());
            }
        }
    }
}

/// The body bytes a run of queued frames carries, in order; frames that are
/// not content bodies contribute nothing.
pub open spec fn bodies_bytes(s: Seq<QueuedFrame>) -> Seq<u8>
    decreases s.len(),
{
    if s.len() == 0 {
        Seq::empty()
    } else {
        (match s[0].frame {
            Frame::Body(_, b) => b@,
            _ => Seq::empty(),
        }) + bodies_bytes(s.drop_first())
    }
}

/// Queued frames built from a list of chunks carry exactly those chunks'
/// bytes.
pub proof fn lemma_bodies_bytes_of(qs: Seq<QueuedFrame>, views: Seq<Seq<u8>>)
    requires
        qs.len() == views.len(),
        forall|x: int|
            0 <= x < qs.len() ==> ((#[trigger] qs[x]).frame matches Frame::Body(c, b) && b@
                == views[x]),
    ensures
        bodies_bytes(qs) == crate::frame::concat_bytes(views),
    decreases qs.len(),
{
    if qs.len() == 0 {
    } else {
        assert(qs[0].frame matches Frame::Body(c, b) && b@ == views[0]);
        assert forall|x: int|
            0 <= x < qs.drop_first().len() implies ((#[trigger] qs.drop_first()[x]).frame matches
            Frame::Body(c, b) && b@ == views.drop_first()[x]) by {
            assert(qs.drop_first()[x] == qs[x + 1]);
            assert(views.drop_first()[x] == views[x + 1]);
        }
        lemma_bodies_bytes_of(qs.drop_first(), views.drop_first());
    }
}

/// The four outbound lanes.
#[derive(Debug)]
pub struct Frames {
    pub retry_frames: Vec<QueuedFrame>,
    pub publish_frames: Vec<QueuedFrame>,
    pub frames: Vec<QueuedFrame>,
    pub low_prio_frames: Vec<QueuedFrame>,
}

/// What one call of `pop` does, as a relation between the state before,
/// the state after, and the frame handed out.
pub open spec fn pop_post(pre: Frames, post: Frames, r: Option<QueuedFrame>, flow: bool) -> bool {
    if pre.retry_frames@.len() > 0 {
        &&& r == Some(pre.retry_frames@[0])
        &&& post.retry_frames@ == pre.retry_frames@.drop_first()
        &&& post.publish_frames@ == pre.publish_frames@
        &&& post.frames@ == pre.frames@
        &&& post.low_prio_frames@ == pre.low_prio_frames@
    } else if pre.publish_frames@.len() > 0 {
        &&& r == Some(pre.publish_frames@[0])
        &&& post.retry_frames@ == pre.retry_frames@
        &&& post.publish_frames@ == pre.publish_frames@.drop_first()
        &&& post.frames@ == pre.frames@
        &&& post.low_prio_frames@ == pre.low_prio_frames@
    } else if pre.frames@.len() > 0 {
        &&& r == Some(pre.frames@[0])
        &&& post.retry_frames@ == pre.retry_frames@
        &&& post.publish_frames@ == pre.publish_frames@
        &&& post.frames@ == pre.frames@.drop_first()
        &&& post.low_prio_frames@ == pre.low_prio_frames@
    } else if flow && pre.low_prio_frames@.len() > 0 {
        let rest = pre.low_prio_frames@.drop_first();
        let run = publish_run_len(rest);
        &&& r == Some(pre.low_prio_frames@[0])
        &&& post.retry_frames@ == pre.retry_frames@
        &&& post.publish_frames@ == rest.take(run)
        &&& post.frames@ == pre.frames@
        &&& post.low_prio_frames@ == rest.skip(run)
    } else {
        &&& r is None
        &&& post.retry_frames@ == pre.retry_frames@
        &&& post.publish_frames@ == pre.publish_frames@
        &&& post.frames@ == pre.frames@
        &&& post.low_prio_frames@ == pre.low_prio_frames@
    }
}

/// Every frame in the publish-sequence lane is content: a header or a body.
pub open spec fn publish_lane_content_only(f: Frames) -> bool {
    forall|x: int|
        0 <= x < f.publish_frames@.len() ==> (#[trigger] f.publish_frames@[x]).frame.is_content()
}

/// Every resolver id a lane carries points into the promise store.
pub open spec fn lane_resolvers_valid(s: Seq<QueuedFrame>, n: nat) -> bool {
    forall|x: int|
        0 <= x < s.len() ==> match (#[trigger] s[x]).resolver {
            Some(id) => id < n,
            None => true,
        }
}

/// Whether some frame of the lane carries resolver `id`.
pub open spec fn lane_references(s: Seq<QueuedFrame>, id: int) -> bool {
    exists|x: int|
        0 <= x < s.len() && ((#[trigger] s[x]).resolver matches Some(r) && r as int == id)
}

impl Frames {
    pub open spec fn resolvers_valid(self, n: nat) -> bool {
        &&& lane_resolvers_valid(self.retry_frames@, n)
        &&& lane_resolvers_valid(self.publish_frames@, n)
        &&& lane_resolvers_valid(self.frames@, n)
        &&& lane_resolvers_valid(self.low_prio_frames@, n)
    }

    pub open spec fn references(self, id: int) -> bool {
        ||| lane_references(self.retry_frames@, id)
        ||| lane_references(self.publish_frames@, id)
        ||| lane_references(self.frames@, id)
        ||| lane_references(self.low_prio_frames@, id)
    }

    pub fn new() -> (r: Frames)
        ensures
            r.retry_frames@.len() == 0,
            r.publish_frames@.len() == 0,
            r.frames@.len() == 0,
            r.low_prio_frames@.len() == 0,
    {
        Frames {
            retry_frames: Vec::new(),
            publish_frames: Vec::new(),
            frames: Vec::new(),
            low_prio_frames: Vec::new(),
        }
    }

    /// Queue one frame in the normal lane with its write resolver.
    pub fn push(&mut self, frame: Frame, resolver: usize)
        ensures
            final(self).frames@ == old(self).frames@.push(
                QueuedFrame { frame, resolver: Some(resolver) },
            ),
            final(self).retry_frames@ == old(self).retry_frames@,
            final(self).publish_frames@ == old(self).publish_frames@,
            final(self).low_prio_frames@ == old(self).low_prio_frames@,
    {
        self.frames.push(QueuedFrame { frame, resolver: Some(resolver) });
    }

    /// Queue a batch in the low-priority lane. Only the last frame carries a
    /// resolver: the returned promise resolves when the whole batch has been
    /// written. An empty batch resolves immediately.
    pub fn push_frames(&mut self, batch: Vec<Frame>, promises: &mut PromiseStore) -> (pid: usize)
        requires
            old(promises).len() < usize::MAX,
        ensures
            pid == old(promises).len(),
            final(promises).len() == old(promises).len() + 1,
            forall|x: int| 0 <= x < old(promises).len() ==> final(promises).slot(x) == old(promises).slot(x),
            batch@.len() == 0 ==> {
                &&& final(promises).slot(pid as int) == PromiseState::Resolved
                &&& final(self).low_prio_frames@ == old(self).low_prio_frames@
            },
            batch@.len() > 0 ==> {
                &&& final(promises).slot(pid as int) == PromiseState::Pending
                &&& final(self).low_prio_frames@.len() == old(self).low_prio_frames@.len()
                    + batch@.len()
                &&& final(self).low_prio_frames@.take(old(self).low_prio_frames@.len() as int)
                    == old(self).low_prio_frames@
                &&& forall|x: int|
                    0 <= x < batch@.len() - 1 ==> #[trigger] final(self).low_prio_frames@[old(self).low_prio_frames@.len() + x] == (QueuedFrame {
                        frame: batch@[x],
                        resolver: None,
                    })
                &&& final(self).low_prio_frames@.last() == (QueuedFrame {
                    frame: batch@.last(),
                    resolver: Some(pid),
                })
            },
            final(self).retry_frames@ == old(self).retry_frames@,
            final(self).publish_frames@ == old(self).publish_frames@,
            final(self).frames@ == old(self).frames@,
    {
        let pid = promises.create();
        let mut batch = batch;
        if batch.len() == 0 {
            promises.complete(pid, PromiseState::Resolved);
            return pid;
        }
        let ghost orig = batch@;
        let ghost base = self.low_prio_frames@.len() as int;
        proof {
            assert(batch@ =~= orig.skip(orig.len() - batch@.len()));
            assert(self.low_prio_frames@.take(base) =~= old(self).low_prio_frames@);
        }
        while batch.len() > 1
            invariant
                base == old(self).low_prio_frames@.len(),
                1 <= batch@.len() <= orig.len(),
                batch@ == orig.skip(orig.len() - batch@.len()),
                self.low_prio_frames@.len() == base + orig.len() - batch@.len(),
                self.low_prio_frames@.take(base) == old(self).low_prio_frames@,
                forall|x: int|
                    0 <= x < orig.len() - batch@.len() ==> #[trigger] self.low_prio_frames@[base
                        + x] == (QueuedFrame { frame: orig[x], resolver: None }),
                self.retry_frames@ == old(self).retry_frames@,
                self.publish_frames@ == old(self).publish_frames@,
                self.frames@ == old(self).frames@,
            decreases batch@.len(),
        {
            let ghost batch_pre = batch@;
            let ghost low_pre = self.low_prio_frames@;
            let ghost k = orig.len() - batch_pre.len();
            let f = batch.remove(0);
            self.low_prio_frames.push(QueuedFrame { frame: f, resolver: None });
            proof {
                assert(f == orig[k]) by {
                    assert(batch_pre[0] == orig.skip(k)[0]);
                }
                assert(batch@ =~= orig.skip(k + 1)) by {
                    assert forall|x: int| 0 <= x < batch@.len() implies batch@[x] == orig.skip(
                        k + 1,
                    )[x] by {
                        assert(batch@[x] == batch_pre[x + 1]);
                        assert(batch_pre[x + 1] == orig.skip(k)[x + 1]);
                    }
                }
                assert(self.low_prio_frames@.take(base) =~= low_pre.take(base));
                assert forall|x: int|
                    0 <= x < orig.len() - batch@.len() implies #[trigger] self.low_prio_frames@[base
                    + x] == (QueuedFrame { frame: orig[x], resolver: None }) by {
                    if x < k {
                        assert(self.low_prio_frames@[base + x] == low_pre[base + x]);
                    } else {
                        assert(x == k);
                    }
                }
            }
        }
        let ghost batch_pre = batch@;
        let ghost low_pre = self.low_prio_frames@;
        let ghost k = orig.len() - batch_pre.len();
        let f = batch.remove(0);
        self.low_prio_frames.push(QueuedFrame { frame: f, resolver: Some(pid) });
        proof {
            assert(f == orig[k]) by {
                assert(batch_pre[0] == orig.skip(k)[0]);
            }
            assert(k == orig.len() - 1);
            assert(self.low_prio_frames@.take(base) =~= low_pre.take(base));
            assert forall|x: int|
                0 <= x < orig.len() - 1 implies #[trigger] self.low_prio_frames@[base + x]
                == (QueuedFrame { frame: orig[x], resolver: None }) by {
                assert(self.low_prio_frames@[base + x] == low_pre[base + x]);
            }
            assert(self.low_prio_frames@.last() == (QueuedFrame {
                frame: orig.last(),
                resolver: Some(pid),
            }));
        }
        pid
    }

    /// Re-queue a frame that could not be written, ahead of everything else.
    pub fn retry(&mut self, frame: QueuedFrame)
        ensures
            final(self).retry_frames@ == old(self).retry_frames@.push(frame),
            final(self).publish_frames@ == old(self).publish_frames@,
            final(self).frames@ == old(self).frames@,
            final(self).low_prio_frames@ == old(self).low_prio_frames@,
    {
        self.retry_frames.push(frame);
    }

    /// Hand out the next frame to write: retry first, then the
    /// publish-sequence lane, then normal traffic; the low-priority lane only
    /// while `flow` is enabled. Popping a publish method frame from the
    /// low-priority lane migrates its content header and the consecutive body
    /// frames behind it into the publish-sequence lane, so the run stays
    /// contiguous whatever is pushed meanwhile.
    pub fn pop(&mut self, flow: bool) -> (r: Option<QueuedFrame>)
        ensures
            pop_post(*old(self), *final(self), r, flow),
    {
        if self.retry_frames.len() > 0 {
            return Some(self.retry_frames.remove(0));
        }
        if self.publish_frames.len() > 0 {
            return Some(self.publish_frames.remove(0));
        }
        if self.frames.len() > 0 {
            return Some(self.frames.remove(0));
        }
        if flow && self.low_prio_frames.len() > 0 {
            let frame = self.low_prio_frames.remove(0);
            let ghost rest = self.low_prio_frames@;
            if self.low_prio_frames.len() > 0 && self.low_prio_frames[0].frame.check_header() {
                let header = self.low_prio_frames.remove(0);
                self.publish_frames.push(header);
                proof {
                    assert(self.publish_frames@ =~= rest.take(1));
                    assert(self.low_prio_frames@ =~= rest.skip(1));
                }
                while self.low_prio_frames.len() > 0 && self.low_prio_frames[0].frame.check_body()
                    invariant
                        rest.len() > 0,
                        rest[0].frame.is_header(),
                        1 <= self.publish_frames@.len() <= rest.len(),
                        self.publish_frames@ == rest.take(self.publish_frames@.len() as int),
                        self.low_prio_frames@ == rest.skip(self.publish_frames@.len() as int),
                        forall|x: int|
                            1 <= x < self.publish_frames@.len() ==> (#[trigger] rest[x]).frame.is_body(),
                        self.retry_frames@ == old(self).retry_frames@,
                        self.frames@ == old(self).frames@,
                    decreases self.low_prio_frames@.len(),
                {
                    let ghost n = self.publish_frames@.len() as int;
                    let body = self.low_prio_frames.remove(0);
                    self.publish_frames.push(body);
                    proof {
                        assert(rest.skip(n)[0] == rest[n]);
                        assert(self.publish_frames@ =~= rest.take(n + 1));
                        assert(self.low_prio_frames@ =~= rest.skip(n + 1));
                    }
                }
                proof {
                    let n = self.publish_frames@.len() as int;
                    if n < rest.len() {
                        assert(rest.skip(n)[0] == rest[n]);
                        assert(!rest[n].frame.is_body());
                    }
                    assert forall|x: int|
                        0 <= x < n - 1 implies (#[trigger] rest.drop_first()[x]).frame.is_body() by {
                        assert(rest[x + 1].frame.is_body());
                    }
                    if n - 1 < rest.drop_first().len() {
                        assert(rest.drop_first()[n - 1] == rest[n]);
                    }
                    lemma_body_prefix_is(rest.drop_first(), n - 1);
                    assert(publish_run_len(rest) == n);
                }
            } else {
                proof {
                    assert(publish_run_len(rest) == 0);
                    assert(self.publish_frames@ =~= rest.take(0));
                    assert(self.low_prio_frames@ =~= rest.skip(0));
                }
            }
            return Some(frame);
        }
        None
    }

    /// Whether any lane still holds a frame to write.
    pub fn has_pending(&self) -> (r: bool)
        ensures
            r == (self.retry_frames@.len() > 0 || self.publish_frames@.len() > 0
                || self.frames@.len() > 0 || self.low_prio_frames@.len() > 0),
    {
        !(self.retry_frames.is_empty() && self.publish_frames.is_empty() && self.frames.is_empty()
            && self.low_prio_frames.is_empty())
    }

    /// Fail every pending write resolver with `error` and empty all lanes.
    /// Slots no lane references are untouched; a slot that was already
    /// completed keeps its first outcome.
    pub fn drop_pending(&mut self, error: &Error, promises: &mut PromiseStore)
        requires
            old(self).resolvers_valid(old(promises).len()),
        ensures
            final(self).retry_frames@.len() == 0,
            final(self).publish_frames@.len() == 0,
            final(self).frames@.len() == 0,
            final(self).low_prio_frames@.len() == 0,
            final(promises).len() == old(promises).len(),
            forall|id: int|
                0 <= id < old(promises).len() && !old(self).references(id) ==> final(promises).slot(
                    id,
                ) == old(promises).slot(id),
            forall|id: int|
                0 <= id < old(promises).len() && old(promises).slot(id) is Pending && old(self).references(id) ==> final(promises).slot(id) == PromiseState::Failed(*error),
            forall|id: int|
                0 <= id < old(promises).len() && !(old(promises).slot(id) is Pending) ==> final(promises).slot(id) == old(promises).slot(id),
    {
        fail_lane(&mut self.retry_frames, error, promises);
        fail_lane(&mut self.publish_frames, error, promises);
        fail_lane(&mut self.frames, error, promises);
        fail_lane(&mut self.low_prio_frames, error, promises);
    }
}

/// Fail every resolver the lane carries with `error`, then empty the lane.
fn fail_lane(lane: &mut Vec<QueuedFrame>, error: &Error, promises: &mut PromiseStore)
    requires
        lane_resolvers_valid(old(lane)@, old(promises).len()),
    ensures
        final(lane)@.len() == 0,
        final(promises).len() == old(promises).len(),
        forall|id: int|
            0 <= id < old(promises).len() && !lane_references(old(lane)@, id) ==> final(promises).slot(id) == old(promises).slot(id),
        forall|id: int|
            0 <= id < old(promises).len() && old(promises).slot(id) is Pending && lane_references(
                old(lane)@,
                id,
            ) ==> final(promises).slot(id) == PromiseState::Failed(*error),
        forall|id: int|
            0 <= id < old(promises).len() && !(old(promises).slot(id) is Pending) ==> final(promises).slot(id) == old(promises).slot(id),
{
    proof {
        assert(lane@ =~= old(lane)@.take(lane@.len() as int));
    }
    loop
        invariant
            lane_resolvers_valid(old(lane)@, old(promises).len()),
            lane@.len() <= old(lane)@.len(),
            lane@ == old(lane)@.take(lane@.len() as int),
            promises.len() == old(promises).len(),
            forall|id: int|
                0 <= id < old(promises).len() && !lane_references(
                    old(lane)@.skip(lane@.len() as int),
                    id,
                ) ==> promises.slot(id) == old(promises).slot(id),
            forall|id: int|
                0 <= id < old(promises).len() && old(promises).slot(id) is Pending
                    && lane_references(old(lane)@.skip(lane@.len() as int), id) ==> promises.slot(
                    id,
                ) == PromiseState::Failed(*error),
            forall|id: int|
                0 <= id < old(promises).len() && !(old(promises).slot(id) is Pending)
                    ==> promises.slot(id) == old(promises).slot(id),
        ensures
            lane@.len() == 0,
        decreases lane@.len(),
    {
        let ghost n = lane@.len() as int;
        let qf = match lane.pop() {
            Some(qf) => qf,
            None => {
                break ;
            },
        };
        proof {
            assert(lane@ =~= old(lane)@.take(n - 1));
            assert(qf == old(lane)@[n - 1]);
        }
        match qf.resolver {
            Some(id) => {
                proof {
                    assert(old(lane)@[n - 1].resolver == Some(id));
                    assert(id < old(promises).len());
                }
                let ghost pre_promises = *promises;
                promises.complete(id, PromiseState::Failed(error.duplicate()));
                proof {
                    let orig_promises = *old(promises);
                    lemma_fail_step(
                        old(lane)@,
                        n - 1,
                        id,
                        pre_promises,
                        *promises,
                        orig_promises,
                        *error,
                    );
                }
            },
            None => {
                proof {
                    assert forall|id: int|
                        0 <= id < old(promises).len() && !lane_references(
                            old(lane)@.skip(n - 1),
                            id,
                        ) implies promises.slot(id) == old(promises).slot(id) by {
                        if lane_references(old(lane)@.skip(n), id) {
                            let x = choose|x: int|
                                0 <= x < old(lane)@.skip(n).len() && ((#[trigger] old(lane)@.skip(
                                    n,
                                )[x]).resolver matches Some(r) && r as int == id);
                            assert(old(lane)@.skip(n - 1)[x + 1] == old(lane)@.skip(n)[x]);
                            assert(lane_references(old(lane)@.skip(n - 1), id));
                        }
                    }
                    assert forall|id: int|
                        0 <= id < old(promises).len() && old(promises).slot(id) is Pending
                            && lane_references(old(lane)@.skip(n - 1), id) implies promises.slot(
                        id,
                    ) == PromiseState::Failed(*error) by {
                        let x = choose|x: int|
                            0 <= x < old(lane)@.skip(n - 1).len() && ((#[trigger] old(lane)@.skip(
                                n - 1,
                            )[x]).resolver matches Some(r) && r as int == id);
                        assert(old(lane)@.skip(n - 1)[0] == old(lane)@[n - 1]);
                        assert(x != 0);
                        assert(old(lane)@.skip(n)[x - 1] == old(lane)@.skip(n - 1)[x]);
                        assert(lane_references(old(lane)@.skip(n), id));
                    }
                }
            },
        }
    }
}

/// One step of `fail_lane`: completing the resolver at position `p` extends
/// the two invariant clauses from the frames after `p` to the frames from `p`
/// on.
proof fn lemma_fail_step(
    lane: Seq<QueuedFrame>,
    p: int,
    id: usize,
    pre: PromiseStore,
    post: PromiseStore,
    orig: PromiseStore,
    error: Error,
)
    requires
        0 <= p < lane.len(),
        lane[p].resolver == Some(id),
        id < orig.len(),
        pre.len() == orig.len(),
        post.len() == orig.len(),
        complete_post(pre, post, id as int, PromiseState::Failed(error)),
        forall|i: int|
            0 <= i < orig.len() && !lane_references(lane.skip(p + 1), i) ==> pre.slot(i)
                == orig.slot(i),
        forall|i: int|
            0 <= i < orig.len() && orig.slot(i) is Pending && lane_references(lane.skip(p + 1), i)
                ==> pre.slot(i) == PromiseState::Failed(error),
        forall|i: int|
            0 <= i < orig.len() && !(orig.slot(i) is Pending) ==> pre.slot(i) == orig.slot(i),
    ensures
        forall|i: int|
            0 <= i < orig.len() && !lane_references(lane.skip(p), i) ==> post.slot(i) == orig.slot(
                i,
            ),
        forall|i: int|
            0 <= i < orig.len() && orig.slot(i) is Pending && lane_references(lane.skip(p), i)
                ==> post.slot(i) == PromiseState::Failed(error),
        forall|i: int|
            0 <= i < orig.len() && !(orig.slot(i) is Pending) ==> post.slot(i) == orig.slot(i),
{
    assert(lane.skip(p)[0] == lane[p]);
    assert(lane_references(lane.skip(p), id as int));
    assert forall|i: int|
        0 <= i < orig.len() && !lane_references(lane.skip(p), i) implies post.slot(i) == orig.slot(
        i,
    ) by {
        if lane_references(lane.skip(p + 1), i) {
            let x = choose|x: int|
                0 <= x < lane.skip(p + 1).len() && ((#[trigger] lane.skip(p + 1)[x]).resolver
                    matches Some(r) && r as int == i);
            assert(lane.skip(p)[x + 1] == lane.skip(p + 1)[x]);
            assert(lane_references(lane.skip(p), i));
        }
        assert(pre.slot(i) == orig.slot(i));
        assert(i != id as int);
    }
    assert forall|i: int|
        0 <= i < orig.len() && orig.slot(i) is Pending && lane_references(
            lane.skip(p),
            i,
        ) implies post.slot(i) == PromiseState::Failed(error) by {
        if i == id as int {
            if pre.slot(i) is Pending {
            } else {
                assert(lane_references(lane.skip(p + 1), i) || pre.slot(i) == orig.slot(i));
                if !lane_references(lane.skip(p + 1), i) {
                    assert(pre.slot(i) == orig.slot(i));
                    assert(false);
                }
            }
        } else {
            let x = choose|x: int|
                0 <= x < lane.skip(p).len() && ((#[trigger] lane.skip(p)[x]).resolver
                    matches Some(r) && r as int == i);
            assert(lane.skip(p)[0] == lane[p]);
            assert(x != 0);
            assert(lane.skip(p + 1)[x - 1] == lane.skip(p)[x]);
            assert(lane_references(lane.skip(p + 1), i));
        }
    }
}

/// Law: scheduler atomicity. While the publish-sequence lane is non-empty
/// (and nothing awaits a retry), `pop` hands out exactly its head — a content
/// frame — and leaves every other lane untouched, whatever was pushed to the
/// normal or low-priority lanes meanwhile. So between a publish run's method
/// frame and its last body frame, no frame from any other lane is emitted.
pub proof fn lemma_publish_run_atomic(pre: Frames, post: Frames, r: Option<QueuedFrame>, flow: bool)
    requires
        pop_post(pre, post, r, flow),
        publish_lane_content_only(pre),
        pre.retry_frames@.len() == 0,
        pre.publish_frames@.len() > 0,
    ensures
        r == Some(pre.publish_frames@[0]),
        pre.publish_frames@[0].frame.is_content(),
        post.publish_frames@ == pre.publish_frames@.drop_first(),
        post.retry_frames@ == pre.retry_frames@,
        post.frames@ == pre.frames@,
        post.low_prio_frames@ == pre.low_prio_frames@,
{
}

/// Law: the publish-sequence lane only ever holds content frames. `pop`
/// preserves this — in particular the migration step only moves a content
/// header and content bodies — and no push touches the publish lane.
pub proof fn lemma_pop_preserves_content_only(
    pre: Frames,
    post: Frames,
    r: Option<QueuedFrame>,
    flow: bool,
)
    requires
        pop_post(pre, post, r, flow),
        publish_lane_content_only(pre),
    ensures
        publish_lane_content_only(post),
{
    if pre.retry_frames@.len() == 0 && pre.publish_frames@.len() == 0 && pre.frames@.len() == 0
        && flow && pre.low_prio_frames@.len() > 0 {
        let rest = pre.low_prio_frames@.drop_first();
        let run = publish_run_len(rest);
        if rest.len() > 0 && rest[0].frame.is_header() {
            lemma_body_prefix_props(rest.drop_first());
            assert(run == 1 + body_prefix_len(rest.drop_first()));
            assert forall|x: int|
                0 <= x < post.publish_frames@.len() implies (#[trigger] post.publish_frames@[x]).frame.is_content()
                by {
                assert(post.publish_frames@[x] == rest[x]);
                if x > 0 {
                    assert(rest.drop_first()[x - 1].frame.is_body());
                }
            }
        } else {
            assert(post.publish_frames@ =~= Seq::<QueuedFrame>::empty());
        }
    }
}

} // verus!
