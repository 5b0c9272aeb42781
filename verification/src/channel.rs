//! Per-channel state: the lifecycle state machine, the FIFO of expected
//! replies, and the channel's queues with their bindings and consumers.

use vstd::prelude::*;
use crate::consumer::{Consumer, Delivery, DeliveryOutcome};
use crate::error::Error;
use crate::frame::BasicProperties;

verus! {

/// Identifies one synchronous request within a connection; never reused.
pub type RequestId = u64;

/// Lifecycle state of one channel. The content states are transient: they
/// must converge back to `Connected` once the announced content has passed.
#[derive(Debug, PartialEq, Eq)]
pub enum ChannelState {
    Initial,
    Connected,
    Closed,
    Error,
    SendingContent(usize),
    WillReceiveContent(String, String),
    ReceivingContent(String, String, u64),
}

/// One synchronous request kind awaiting its reply, with the request id and
/// whatever caller-supplied context the reply needs to be applied.
#[derive(Debug, PartialEq, Eq)]
pub enum Answer {
    AwaitingChannelOpenOk(RequestId),
    AwaitingChannelFlowOk(RequestId),
    AwaitingChannelCloseOk(RequestId),
    AwaitingAccessRequestOk(RequestId),
    AwaitingExchangeDeclareOk(RequestId),
    AwaitingExchangeDeleteOk(RequestId),
    AwaitingExchangeBindOk(RequestId),
    AwaitingExchangeUnbindOk(RequestId),
    AwaitingQueueDeclareOk(RequestId),
    AwaitingQueueBindOk(RequestId, String, String),
    AwaitingQueuePurgeOk(RequestId, String),
    AwaitingQueueDeleteOk(RequestId, String),
    AwaitingQueueUnbindOk(RequestId, String, String),
    AwaitingBasicQosOk(RequestId, u32, u16, bool),
    AwaitingBasicConsumeOk(RequestId, String, String, bool, bool, bool, bool),
    AwaitingBasicCancelOk(RequestId),
    AwaitingBasicGetAnswer(RequestId),
    AwaitingBasicRecoverOk(RequestId),
    AwaitingTxSelectOk(RequestId),
    AwaitingTxCommitOk(RequestId),
    AwaitingTxRollbackOk(RequestId),
    AwaitingConfirmSelectOk(RequestId),
}

/// An expected reply: the answer kind to match and the promise slot that
/// resolves (or is cancelled) when the reply is processed.
#[derive(Debug, PartialEq, Eq)]
pub struct ExpectedReply {
    pub answer: Answer,
    pub resolver: usize,
}

/// A queue binding; `active` is flipped when the broker confirms it.
#[derive(Debug, PartialEq, Eq)]
pub struct Binding {
    pub exchange: String,
    pub routing_key: String,
    pub nowait: bool,
    pub active: bool,
}

impl Binding {
    pub fn new(exchange: String, routing_key: String, nowait: bool) -> (r: Binding)
        ensures
            r == (Binding { exchange, routing_key, nowait, active: false }),
    {
        Binding { exchange, routing_key, nowait, active: false }
    }
}

/// Whether a binding survives `queue.unbind` of `(exchange, routing_key)`.
pub open spec fn keeps_binding(b: Binding, exchange: Seq<char>, routing_key: Seq<char>) -> bool {
    !(b.exchange@ == exchange && b.routing_key@ == routing_key)
}

/// The bindings left after every binding to the key is removed.
pub open spec fn bindings_without(
    s: Seq<Binding>,
    exchange: Seq<char>,
    routing_key: Seq<char>,
) -> Seq<Binding> {
    s.filter(|b: Binding| keeps_binding(b, exchange, routing_key))
}

/// A queue as `queue.declare` first records it: the requested flags, no
/// counts yet, not confirmed, no bindings, no consumers.
pub open spec fn fresh_queue(
    q: Queue,
    name: Seq<char>,
    passive: bool,
    durable: bool,
    exclusive: bool,
    auto_delete: bool,
) -> bool {
    &&& q.name@ == name
    &&& q.passive == passive
    &&& q.durable == durable
    &&& q.exclusive == exclusive
    &&& q.auto_delete == auto_delete
    &&& q.message_count == 0
    &&& q.consumer_count == 0
    &&& !q.created
    &&& q.bindings@.len() == 0
    &&& q.consumers@.len() == 0
}

/// The channel's model of one queue it has declared.
#[derive(Debug)]
pub struct Queue {
    pub name: String,
    pub passive: bool,
    pub durable: bool,
    pub exclusive: bool,
    pub auto_delete: bool,
    pub message_count: u32,
    pub consumer_count: u32,
    /// Set once the broker's `declare-ok` has confirmed the queue.
    pub created: bool,
    pub bindings: Vec<Binding>,
    pub consumers: Vec<Consumer>,
}

impl Queue {
    pub fn new(
        name: String,
        passive: bool,
        durable: bool,
        exclusive: bool,
        auto_delete: bool,
    ) -> (r: Queue)
        ensures
            r.name@ == name@,
            r.passive == passive,
            r.durable == durable,
            r.exclusive == exclusive,
            r.auto_delete == auto_delete,
            r.message_count == 0,
            r.consumer_count == 0,
            !r.created,
            r.bindings@.len() == 0,
            r.consumers@.len() == 0,
    {
        Queue {
            name,
            passive,
            durable,
            exclusive,
            auto_delete,
            message_count: 0,
            consumer_count: 0,
            created: false,
            bindings: Vec::new(),
            consumers: Vec::new(),
        }
    }

    /// Insert `c`, replacing the consumer that already carries its tag.
    pub fn upsert_consumer(&mut self, c: Consumer)
        requires
            old(self).consumers_unique(),
        ensures
            *final(self) == (Queue { consumers: final(self).consumers, ..*old(self) }),
            final(self).consumers_unique(),
            if old(self).has_consumer(c.tag@) {
                final(self).consumers@ == old(self).consumers@.update(
                    old(self).consumer_idx(c.tag@),
                    c,
                )
            } else {
                final(self).consumers@ == old(self).consumers@.push(c)
            },
    {
        let k = self.find_consumer(&c.tag);
        match k {
            Some(k) => {
                proof {
                    old(self).lemma_consumer_idx(c.tag@, k as int);
                }
                self.consumers[k] = c;
                proof {
                    assert forall|a: int, b: int|
                        0 <= a < b < self.consumers@.len() implies #[trigger] self.consumers@[a].tag@
                        != #[trigger] self.consumers@[b].tag@ by {
                        assert(old(self).consumers@[a].tag@ != old(self).consumers@[b].tag@);
                    }
                }
            },
            None => {
                self.consumers.push(c);
                proof {
                    assert forall|a: int, b: int|
                        0 <= a < b < self.consumers@.len() implies #[trigger] self.consumers@[a].tag@
                        != #[trigger] self.consumers@[b].tag@ by {
                        if b < self.consumers@.len() - 1 {
                            assert(old(self).consumers@[a].tag@ != old(self).consumers@[b].tag@);
                        } else {
                            assert(old(self).consumers@[a].tag@ != c.tag@);
                        }
                    }
                }
            },
        }
    }

    /// Remove the consumer carrying `tag`, if any.
    pub fn remove_consumer(&mut self, tag: &String)
        requires
            old(self).consumers_unique(),
        ensures
            *final(self) == (Queue { consumers: final(self).consumers, ..*old(self) }),
            final(self).consumers_unique(),
            if old(self).has_consumer(tag@) {
                final(self).consumers@ == old(self).consumers@.remove(
                    old(self).consumer_idx(tag@),
                )
            } else {
                final(self).consumers@ == old(self).consumers@
            },
    {
        let k = self.find_consumer(tag);
        match k {
            Some(k) => {
                proof {
                    old(self).lemma_consumer_idx(tag@, k as int);
                }
                self.consumers.remove(k);
                proof {
                    assert forall|a: int, b: int|
                        0 <= a < b < self.consumers@.len() implies #[trigger] self.consumers@[a].tag@
                        != #[trigger] self.consumers@[b].tag@ by {
                        let pa: int = if a < k { a } else { a + 1 };
                        let pb: int = if b < k { b } else { b + 1 };
                        assert(self.consumers@[a] == old(self).consumers@[pa]);
                        assert(self.consumers@[b] == old(self).consumers@[pb]);
                        assert(old(self).consumers@[pa].tag@ != old(self).consumers@[pb].tag@);
                    }
                }
            },
            None => {},
        }
    }

    pub open spec fn has_consumer(self, tag: Seq<char>) -> bool {
        exists|k: int| 0 <= k < self.consumers@.len() && self.consumers@[k].tag@ == tag
    }

    pub open spec fn consumer_idx(self, tag: Seq<char>) -> int {
        choose|k: int| 0 <= k < self.consumers@.len() && self.consumers@[k].tag@ == tag
    }

    pub open spec fn the_consumer(self, tag: Seq<char>) -> Consumer {
        self.consumers@[self.consumer_idx(tag)]
    }

    pub open spec fn consumers_unique(self) -> bool {
        forall|a: int, b: int|
            0 <= a < b < self.consumers@.len() ==> #[trigger] self.consumers@[a].tag@
                != #[trigger] self.consumers@[b].tag@
    }

    pub proof fn lemma_consumer_idx(self, tag: Seq<char>, k: int)
        requires
            self.consumers_unique(),
            0 <= k < self.consumers@.len(),
            self.consumers@[k].tag@ == tag,
        ensures
            self.has_consumer(tag),
            self.consumer_idx(tag) == k,
    {
        assert(self.has_consumer(tag));
        let i = self.consumer_idx(tag);
        if i != k {
            if i < k {
                assert(self.consumers@[i].tag@ != self.consumers@[k].tag@);
            } else {
                assert(self.consumers@[k].tag@ != self.consumers@[i].tag@);
            }
        }
    }

    pub fn find_consumer(&self, tag: &String) -> (r: Option<usize>)
        ensures
            match r {
                Some(k) => k < self.consumers@.len() && self.consumers@[k as int].tag@ == tag@,
                None => forall|k: int|
                    0 <= k < self.consumers@.len() ==> #[trigger] self.consumers@[k].tag@ != tag@,
            },
    {
        let mut k: usize = 0;
        while k < self.consumers.len()
            invariant
                k <= self.consumers@.len(),
                forall|x: int| 0 <= x < k ==> #[trigger] self.consumers@[x].tag@ != tag@,
            decreases self.consumers@.len() - k,
        {
            if self.consumers[k].tag == *tag {
                return Some(k);
            }
            k = k + 1;
        }
        None
    }

    /// Remove every binding to `(exchange, routing_key)`.
    pub fn remove_bindings(&mut self, exchange: &String, routing_key: &String)
        ensures
            *final(self) == (Queue { bindings: final(self).bindings, ..*old(self) }),
            final(self).bindings@ == bindings_without(old(self).bindings@, exchange@, routing_key@),
    {
        let ghost pre = self.bindings@;
        let ghost keep = |b: Binding| keeps_binding(b, exchange@, routing_key@);
        let ghost mut m: int = 0;
        let mut k: usize = 0;
        proof {
            reveal(Seq::filter);
            assert(pre.take(0) =~= Seq::<Binding>::empty());
            assert(self.bindings@ =~= pre.take(0).filter(keep) + pre.skip(0));
        }
        while k < self.bindings.len()
            invariant
                0 <= m <= pre.len(),
                self.bindings@ == pre.take(m).filter(keep) + pre.skip(m),
                k == pre.take(m).filter(keep).len(),
                *self == (Queue { bindings: self.bindings, ..*old(self) }),
                exchange@ == exchange@ && routing_key@ == routing_key@,
                keep == (|b: Binding| keeps_binding(b, exchange@, routing_key@)),
                pre == old(self).bindings@,
            decreases pre.len() - m,
        {
            proof {
                reveal(Seq::filter);
                assert(pre.skip(m).len() > 0);
                assert(self.bindings@[k as int] == pre.skip(m)[0]);
                assert(pre.skip(m)[0] == pre[m]);
                assert(pre.take(m + 1) =~= pre.take(m).push(pre[m]));
                assert(pre.take(m + 1).drop_last() =~= pre.take(m));
                assert(pre.take(m + 1).filter(keep) == if keep(pre[m]) {
                    pre.take(m).filter(keep).push(pre[m])
                } else {
                    pre.take(m).filter(keep)
                });
            }
            let is_match = self.bindings[k].exchange == *exchange && self.bindings[k].routing_key
                == *routing_key;
            if is_match {
                self.bindings.remove(k);
                proof {
                    assert(!keep(pre[m]));
                    assert(self.bindings@ =~= pre.take(m + 1).filter(keep) + pre.skip(m + 1));
                    m = m + 1;
                }
            } else {
                k = k + 1;
                proof {
                    assert(keep(pre[m]));
                    assert(self.bindings@ =~= pre.take(m + 1).filter(keep) + pre.skip(m + 1));
                    m = m + 1;
                }
            }
        }
        proof {
            reveal(Seq::filter);
            assert(m == pre.len());
            assert(pre.take(m) =~= pre);
            assert(self.bindings@ =~= pre.filter(keep));
            assert((|b: Binding| keeps_binding(b, exchange@, routing_key@)) =~= keep);
        }
    }

    /// Mark every binding to `(exchange, routing_key)` active.
    pub fn activate_bindings(&mut self, exchange: &String, routing_key: &String)
        ensures
            *final(self) == (Queue { bindings: final(self).bindings, ..*old(self) }),
            final(self).bindings@.len() == old(self).bindings@.len(),
            forall|x: int|
                0 <= x < old(self).bindings@.len() ==> #[trigger] final(self).bindings@[x] == (if (
                old(self).bindings@[x].exchange@ == exchange@ && old(self).bindings@[x].routing_key@ == routing_key@) {
                    Binding { active: true, ..old(self).bindings@[x] }
                } else {
                    old(self).bindings@[x]
                }),
    {
        let mut k: usize = 0;
        while k < self.bindings.len()
            invariant
                k <= self.bindings@.len(),
                self.bindings@.len() == old(self).bindings@.len(),
                *self == (Queue { bindings: self.bindings, ..*old(self) }),
                forall|x: int|
                    0 <= x < k ==> #[trigger] self.bindings@[x] == (if (old(self).bindings@[x].exchange@ == exchange@ && old(self).bindings@[x].routing_key@
                        == routing_key@) {
                        Binding { active: true, ..old(self).bindings@[x] }
                    } else {
                        old(self).bindings@[x]
                    }),
                forall|x: int|
                    k <= x < self.bindings@.len() ==> #[trigger] self.bindings@[x] == old(self).bindings@[x],
            decreases self.bindings@.len() - k,
        {
            let is_match = self.bindings[k].exchange == *exchange && self.bindings[k].routing_key
                == *routing_key;
            if is_match {
                self.bindings[k].active = true;
            }
            k = k + 1;
        }
    }

    /// Insert a binding for `(exchange, routing_key)`, replacing the first
    /// existing one with the same key.
    pub fn upsert_binding(&mut self, binding: Binding)
        ensures
            *final(self) == (Queue { bindings: final(self).bindings, ..*old(self) }),
            if (exists|x: int|
                0 <= x < old(self).bindings@.len() && (#[trigger] old(self).bindings@[x]).exchange@ == binding.exchange@ && old(self).bindings@[x].routing_key@ == binding.routing_key@) {
                exists|k: int|
                    0 <= k < old(self).bindings@.len() && (#[trigger] old(self).bindings@[k]).exchange@ == binding.exchange@ && old(self).bindings@[k].routing_key@ == binding.routing_key@ && final(self).bindings@
                        == old(self).bindings@.update(k, binding)
            } else {
                final(self).bindings@ == old(self).bindings@.push(binding)
            },
    {
        let k = self.find_binding(&binding.exchange, &binding.routing_key);
        match k {
            Some(k) => {
                self.bindings[k] = binding;
            },
            None => {
                self.bindings.push(binding);
            },
        }
    }

    pub fn find_binding(&self, exchange: &String, routing_key: &String) -> (r: Option<usize>)
        ensures
            match r {
                Some(k) => k < self.bindings@.len() && self.bindings@[k as int].exchange@
                    == exchange@ && self.bindings@[k as int].routing_key@ == routing_key@,
                None => forall|x: int|
                    0 <= x < self.bindings@.len() ==> !(#[trigger] self.bindings@[x].exchange@
                        == exchange@ && self.bindings@[x].routing_key@ == routing_key@),
            },
    {
        let mut k: usize = 0;
        while k < self.bindings.len()
            invariant
                k <= self.bindings@.len(),
                forall|x: int|
                    0 <= x < k ==> !(#[trigger] self.bindings@[x].exchange@ == exchange@
                        && self.bindings@[x].routing_key@ == routing_key@),
            decreases self.bindings@.len() - k,
        {
            if self.bindings[k].exchange == *exchange && self.bindings[k].routing_key
                == *routing_key {
                return Some(k);
            }
            k = k + 1;
        }
        None
    }
}

/// Everything of a channel except its lifecycle state and its queues.
pub open spec fn frame_fields(pre: Channel, post: Channel) -> bool {
    &&& post.id == pre.id
    &&& post.send_flow == pre.send_flow
    &&& post.receive_flow == pre.receive_flow
    &&& post.awaiting@ == pre.awaiting@
    &&& post.prefetch_size == pre.prefetch_size
    &&& post.prefetch_count == pre.prefetch_count
}

/// The queue is untouched except for the consumer carrying `tag`.
pub open spec fn queue_same_but(pre: Queue, post: Queue, tag: Seq<char>) -> bool {
    &&& post == (Queue { consumers: post.consumers, ..pre })
    &&& post.consumers@.len() == pre.consumers@.len()
    &&& forall|k: int|
        0 <= k < pre.consumers@.len() ==> (#[trigger] post.consumers@[k]).tag@
            == pre.consumers@[k].tag@
    &&& forall|k: int|
        0 <= k < pre.consumers@.len() && pre.consumers@[k].tag@ != tag ==> #[trigger] post
            .consumers@[k] == pre.consumers@[k]
}

/// The channel's queues are untouched except for the consumer carrying `tag`
/// in the queue named `qn`.
pub open spec fn queues_same_but(pre: Channel, post: Channel, qn: Seq<char>, tag: Seq<char>) -> bool {
    &&& post.queues@.len() == pre.queues@.len()
    &&& forall|x: int|
        0 <= x < pre.queues@.len() ==> (#[trigger] post.queues@[x]).name@ == pre.queues@[x].name@
    &&& forall|x: int|
        0 <= x < pre.queues@.len() && pre.queues@[x].name@ != qn ==> #[trigger] post.queues@[x]
            == pre.queues@[x]
    &&& forall|x: int|
        0 <= x < pre.queues@.len() && pre.queues@[x].name@ == qn ==> queue_same_but(
            #[trigger] pre.queues@[x],
            post.queues@[x],
            tag,
        )
}

/// What `basic.deliver` does to a channel, as a relation: on success the
/// channel is assembling a delivery for the named consumer; an unknown
/// consumer tag is a protocol violation and the channel is in `Error`.
pub open spec fn deliver_step(
    pre: Channel,
    post: Channel,
    consumer_tag: Seq<char>,
    delivery_tag: u64,
    exchange: Seq<char>,
    routing_key: Seq<char>,
    redelivered: bool,
    r: Result<(), Error>,
) -> bool {
    &&& frame_fields(pre, post)
    &&& match r {
        Ok(()) => {
            &&& post.state matches ChannelState::WillReceiveContent(q, t) && t@ == consumer_tag
                && pre.has_queue(q@) && pre.the_queue(q@).has_consumer(consumer_tag)
                && queues_same_but(pre, post, q@, consumer_tag) && (post.the_queue(
                q@,
            ).the_consumer(t@).current_message matches Some(m) && m.delivery_tag == delivery_tag
                && m.exchange@ == exchange && m.routing_key@ == routing_key && m.redelivered
                == redelivered && m.body@.len() == 0 && m.body_size == 0) && post.the_queue(
                q@,
            ).the_consumer(t@) == (Consumer {
                current_message: post.the_queue(q@).the_consumer(t@).current_message,
                ..pre.the_queue(q@).the_consumer(t@)
            })
        },
        Err(e) => {
            &&& e == Error::ProtocolUnexpectedFrame
            &&& forall|x: int|
                0 <= x < pre.queues@.len() ==> !(#[trigger] pre.queues@[x]).has_consumer(
                    consumer_tag,
                )
            &&& post.state is Error
            &&& post.queues@ == pre.queues@
        },
    }
}

/// What a content header does to a channel, as a relation: in
/// `WillReceiveContent` it stamps the delivery and either completes it
/// (`body_size == 0`, with an empty body matching the announced size) or
/// moves to `ReceivingContent(body_size)`; in any other state it is a
/// protocol violation.
pub open spec fn content_header_step(
    pre: Channel,
    post: Channel,
    body_size: u64,
    properties: BasicProperties,
    r: Result<(), Error>,
) -> bool {
    &&& frame_fields(pre, post)
    &&& match pre.state {
        ChannelState::WillReceiveContent(q, t) => {
            &&& r is Ok
            &&& queues_same_but(pre, post, q@, t@)
            &&& if body_size == 0 {
                &&& post.state is Connected
                &&& Consumer::publishes_completion(
                    pre.the_queue(q@).the_consumer(t@),
                    post.the_queue(q@).the_consumer(t@),
                )
                &&& (Consumer::completion_outcome(
                    pre.the_queue(q@).the_consumer(t@),
                    post.the_queue(q@).the_consumer(t@),
                ) matches DeliveryOutcome::Delivered(m) && m.body@.len() == 0 && m.body@.len()
                    == m.body_size && m.properties == properties && (pre.the_queue(
                    q@,
                ).the_consumer(t@).current_message matches Some(m0) && m.delivery_tag
                    == m0.delivery_tag && m.exchange@ == m0.exchange@ && m.routing_key@
                    == m0.routing_key@ && m.redelivered == m0.redelivered))
                &&& post.the_queue(q@).the_consumer(t@).current_message is None
            } else {
                &&& post.state matches ChannelState::ReceivingContent(q2, t2, rem) && q2@ == q@
                    && t2@ == t@ && rem == body_size
                &&& (post.the_queue(q@).the_consumer(t@).current_message matches Some(m) && (
                pre.the_queue(q@).the_consumer(t@).current_message matches Some(m0) && m == (
                Delivery { properties, body_size, ..m0 })))
            }
        },
        _ => r == Err::<(), Error>(Error::ProtocolUnexpectedFrame) && post.state is Error,
    }
}

/// What a content-body frame does to a channel, as a relation: in
/// `ReceivingContent` the payload joins the delivery being assembled, and
/// covering exactly the remaining bytes completes it — the finished body has
/// exactly the size the header announced. Anything else is a protocol
/// violation.
pub open spec fn body_frame_step(
    pre: Channel,
    post: Channel,
    payload: Seq<u8>,
    r: Result<(), Error>,
) -> bool {
    &&& frame_fields(pre, post)
    &&& match pre.state {
        ChannelState::ReceivingContent(q, t, remaining) => {
            if payload.len() <= remaining {
                &&& r is Ok
                &&& queues_same_but(pre, post, q@, t@)
                &&& if payload.len() == remaining {
                    &&& post.state is Connected
                    &&& Consumer::publishes_completion(
                        pre.the_queue(q@).the_consumer(t@),
                        post.the_queue(q@).the_consumer(t@),
                    )
                    &&& (Consumer::completion_outcome(
                        pre.the_queue(q@).the_consumer(t@),
                        post.the_queue(q@).the_consumer(t@),
                    ) matches DeliveryOutcome::Delivered(m) && (pre.the_queue(q@).the_consumer(
                        t@,
                    ).current_message matches Some(m0) && m.body@ == m0.body@ + payload
                        && m.body@.len() == m.body_size && m.body_size == m0.body_size
                        && m.delivery_tag == m0.delivery_tag && m.exchange@ == m0.exchange@
                        && m.routing_key@ == m0.routing_key@ && m.redelivered == m0.redelivered
                        && m.properties == m0.properties))
                    &&& post.the_queue(q@).the_consumer(t@).current_message is None
                } else {
                    &&& post.state matches ChannelState::ReceivingContent(q2, t2, rem2) && q2@
                        == q@ && t2@ == t@ && rem2 == remaining - payload.len()
                    &&& (post.the_queue(q@).the_consumer(t@).current_message matches Some(m) && (
                    pre.the_queue(q@).the_consumer(t@).current_message matches Some(m0) && m.body@
                        == m0.body@ + payload && m == (Delivery { body: m.body, ..m0 })))
                }
            } else {
                r == Err::<(), Error>(Error::ProtocolUnexpectedFrame) && post.state is Error
            }
        },
        _ => r == Err::<(), Error>(Error::ProtocolUnexpectedFrame) && post.state is Error,
    }
}

/// One channel of a connection.
#[derive(Debug)]
pub struct Channel {
    pub id: u16,
    pub state: ChannelState,
    /// Broker-requested pause of our publishes on this channel. Recorded
    /// here for the I/O layer, which holds back this channel's publishes
    /// while the flag is off; the scheduler itself consults only the global
    /// flow flag, so control traffic and already-started publish runs keep
    /// draining.
    pub send_flow: bool,
    /// Our requested pause of broker deliveries on this channel.
    pub receive_flow: bool,
    /// Expected replies, oldest first; the broker answers in this order.
    pub awaiting: Vec<ExpectedReply>,
    pub queues: Vec<Queue>,
    pub prefetch_size: u32,
    pub prefetch_count: u16,
}

impl Channel {
    pub fn new(id: u16) -> (r: Channel)
        ensures
            r.id == id,
            r.state is Initial,
            r.send_flow,
            r.receive_flow,
            r.awaiting@.len() == 0,
            r.queues@.len() == 0,
            r.prefetch_size == 0,
            r.prefetch_count == 0,
            r.wf(),
    {
        Channel {
            id,
            state: ChannelState::Initial,
            send_flow: true,
            receive_flow: true,
            awaiting: Vec::new(),
            queues: Vec::new(),
            prefetch_size: 0,
            prefetch_count: 0,
        }
    }

    pub open spec fn connected(self) -> bool {
        self.state is Connected
    }

    pub open spec fn has_queue(self, name: Seq<char>) -> bool {
        exists|j: int| 0 <= j < self.queues@.len() && self.queues@[j].name@ == name
    }

    pub open spec fn queue_idx(self, name: Seq<char>) -> int {
        choose|j: int| 0 <= j < self.queues@.len() && self.queues@[j].name@ == name
    }

    pub open spec fn the_queue(self, name: Seq<char>) -> Queue {
        self.queues@[self.queue_idx(name)]
    }

    pub open spec fn queues_unique(self) -> bool {
        forall|a: int, b: int|
            0 <= a < b < self.queues@.len() ==> #[trigger] self.queues@[a].name@
                != #[trigger] self.queues@[b].name@
    }

    /// The transient content states always point at a live consumer whose
    /// in-flight delivery accounts for every body byte still expected. This
    /// is what makes a completed delivery's body match its announced size.
    pub open spec fn content_wf(self) -> bool {
        match self.state {
            ChannelState::WillReceiveContent(q, t) => {
                &&& self.has_queue(q@)
                &&& self.the_queue(q@).has_consumer(t@)
                &&& match self.the_queue(q@).the_consumer(t@).current_message {
                    Some(m) => m.body@.len() == 0 && m.body_size == 0,
                    None => false,
                }
            },
            ChannelState::ReceivingContent(q, t, remaining) => {
                &&& self.has_queue(q@)
                &&& self.the_queue(q@).has_consumer(t@)
                &&& match self.the_queue(q@).the_consumer(t@).current_message {
                    Some(m) => m.body@.len() + remaining == m.body_size,
                    None => false,
                }
            },
            _ => true,
        }
    }

    pub open spec fn wf(self) -> bool {
        &&& self.queues_unique()
        &&& forall|j: int|
            0 <= j < self.queues@.len() ==> (#[trigger] self.queues@[j]).consumers_unique()
        &&& self.content_wf()
    }

    pub proof fn lemma_queue_idx(self, name: Seq<char>, j: int)
        requires
            self.queues_unique(),
            0 <= j < self.queues@.len(),
            self.queues@[j].name@ == name,
        ensures
            self.has_queue(name),
            self.queue_idx(name) == j,
    {
        assert(self.has_queue(name));
        let i = self.queue_idx(name);
        if i != j {
            if i < j {
                assert(self.queues@[i].name@ != self.queues@[j].name@);
            } else {
                assert(self.queues@[j].name@ != self.queues@[i].name@);
            }
        }
    }

    pub fn is_connected(&self) -> (r: bool)
        ensures
            r == self.connected(),
    {
        match self.state {
            ChannelState::Connected => true,
            _ => false,
        }
    }

    pub fn is_initial(&self) -> (r: bool)
        ensures
            r == (self.state is Initial),
    {
        match self.state {
            ChannelState::Initial => true,
            _ => false,
        }
    }

    pub fn find_queue(&self, name: &String) -> (r: Option<usize>)
        ensures
            match r {
                Some(j) => j < self.queues@.len() && self.queues@[j as int].name@ == name@,
                None => forall|x: int|
                    0 <= x < self.queues@.len() ==> #[trigger] self.queues@[x].name@ != name@,
            },
    {
        let mut j: usize = 0;
        while j < self.queues.len()
            invariant
                j <= self.queues@.len(),
                forall|x: int| 0 <= x < j ==> #[trigger] self.queues@[x].name@ != name@,
            decreases self.queues@.len() - j,
        {
            if self.queues[j].name == *name {
                return Some(j);
            }
            j = j + 1;
        }
        None
    }

    /// Insert `q`, replacing the queue that already carries its name. Only
    /// called while the channel is `Connected`, so no content transfer can be
    /// pointing into the replaced queue.
    pub fn upsert_queue(&mut self, q: Queue)
        requires
            old(self).wf(),
            old(self).connected(),
            q.consumers_unique(),
        ensures
            final(self).wf(),
            *final(self) == (Channel { queues: final(self).queues, ..*old(self) }),
            if old(self).has_queue(q.name@) {
                final(self).queues@ == old(self).queues@.update(old(self).queue_idx(q.name@), q)
            } else {
                final(self).queues@ == old(self).queues@.push(q)
            },
    {
        let j = self.find_queue(&q.name);
        match j {
            Some(j) => {
                proof {
                    old(self).lemma_queue_idx(q.name@, j as int);
                }
                self.queues[j] = q;
                proof {
                    assert forall|a: int, b: int|
                        0 <= a < b < self.queues@.len() implies #[trigger] self.queues@[a].name@
                        != #[trigger] self.queues@[b].name@ by {
                        assert(old(self).queues@[a].name@ != old(self).queues@[b].name@);
                    }
                }
            },
            None => {
                self.queues.push(q);
                proof {
                    assert forall|a: int, b: int|
                        0 <= a < b < self.queues@.len() implies #[trigger] self.queues@[a].name@
                        != #[trigger] self.queues@[b].name@ by {
                        if b < self.queues@.len() - 1 {
                            assert(old(self).queues@[a].name@ != old(self).queues@[b].name@);
                        } else {
                            assert(old(self).queues@[a].name@ != q.name@);
                        }
                    }
                }
            },
        }
    }

    /// Remove the queue carrying `name`, if any.
    pub fn remove_queue(&mut self, name: &String)
        requires
            old(self).wf(),
            old(self).connected(),
        ensures
            final(self).wf(),
            *final(self) == (Channel { queues: final(self).queues, ..*old(self) }),
            if old(self).has_queue(name@) {
                final(self).queues@ == old(self).queues@.remove(old(self).queue_idx(name@))
            } else {
                final(self).queues@ == old(self).queues@
            },
    {
        let j = self.find_queue(name);
        match j {
            Some(j) => {
                proof {
                    old(self).lemma_queue_idx(name@, j as int);
                }
                self.queues.remove(j);
                proof {
                    assert forall|a: int, b: int|
                        0 <= a < b < self.queues@.len() implies #[trigger] self.queues@[a].name@
                        != #[trigger] self.queues@[b].name@ by {
                        let pa: int = if a < j { a } else { a + 1 };
                        let pb: int = if b < j { b } else { b + 1 };
                        assert(self.queues@[a] == old(self).queues@[pa]);
                        assert(self.queues@[b] == old(self).queues@[pb]);
                        assert(old(self).queues@[pa].name@ != old(self).queues@[pb].name@);
                    }
                }
            },
            None => {},
        }
    }

    /// Apply a `queue.declare-ok`: record the broker's counts and mark the
    /// queue created.
    pub fn apply_queue_declare_ok(&mut self, name: &String, message_count: u32, consumer_count: u32)
        requires
            old(self).wf(),
            old(self).connected(),
        ensures
            final(self).wf(),
            *final(self) == (Channel { queues: final(self).queues, ..*old(self) }),
            if old(self).has_queue(name@) {
                final(self).queues@ == old(self).queues@.update(
                    old(self).queue_idx(name@),
                    Queue {
                        message_count,
                        consumer_count,
                        created: true,
                        ..old(self).the_queue(name@)
                    },
                )
            } else {
                final(self).queues@ == old(self).queues@
            },
    {
        let j = match self.find_queue(name) {
            Some(j) => j,
            None => {
                return ;
            },
        };
        proof {
            old(self).lemma_queue_idx(name@, j as int);
        }
        self.queues[j].message_count = message_count;
        self.queues[j].consumer_count = consumer_count;
        self.queues[j].created = true;
        proof {
            assert(self.queues@ =~= old(self).queues@.update(
                j as int,
                Queue {
                    message_count,
                    consumer_count,
                    created: true,
                    ..old(self).the_queue(name@)
                },
            ));
            assert forall|a: int, b: int|
                0 <= a < b < self.queues@.len() implies #[trigger] self.queues@[a].name@
                != #[trigger] self.queues@[b].name@ by {
                assert(old(self).queues@[a].name@ != old(self).queues@[b].name@);
            }
        }
    }

    /// Record a requested binding on the queue, inactive until the broker
    /// confirms it.
    pub fn insert_binding(&mut self, queue_name: &String, binding: Binding)
        requires
            old(self).wf(),
            old(self).connected(),
        ensures
            final(self).wf(),
            *final(self) == (Channel { queues: final(self).queues, ..*old(self) }),
            final(self).queues@.len() == old(self).queues@.len(),
            forall|x: int|
                0 <= x < old(self).queues@.len() ==> #[trigger] final(self).queues@[x] == (Queue {
                    bindings: final(self).queues@[x].bindings,
                    ..old(self).queues@[x]
                }),
            forall|x: int|
                0 <= x < old(self).queues@.len() && old(self).queues@[x].name@ != queue_name@
                    ==> #[trigger] final(self).queues@[x] == old(self).queues@[x],
            old(self).has_queue(queue_name@) ==> final(self).the_queue(queue_name@).bindings@.len()
                > 0 && final(self).the_queue(queue_name@).bindings@.contains(binding),
    {
        let j = match self.find_queue(queue_name) {
            Some(j) => j,
            None => {
                return ;
            },
        };
        proof {
            old(self).lemma_queue_idx(queue_name@, j as int);
        }
        self.queues[j].upsert_binding(binding);
        proof {
            assert forall|a: int, b: int|
                0 <= a < b < self.queues@.len() implies #[trigger] self.queues@[a].name@
                != #[trigger] self.queues@[b].name@ by {
                assert(old(self).queues@[a].name@ != old(self).queues@[b].name@);
            }
            self.lemma_queue_idx(queue_name@, j as int);
            assert(self.queues@[j as int].bindings@.contains(binding)) by {
                let q0 = old(self).queues@[j as int];
                let q1 = self.queues@[j as int];
                if exists|x: int|
                    0 <= x < q0.bindings@.len() && (#[trigger] q0.bindings@[x]).exchange@
                        == binding.exchange@ && q0.bindings@[x].routing_key@
                        == binding.routing_key@ {
                    let k = choose|k: int|
                        0 <= k < q0.bindings@.len() && (#[trigger] q0.bindings@[k]).exchange@
                            == binding.exchange@ && q0.bindings@[k].routing_key@
                            == binding.routing_key@ && q1.bindings@ == q0.bindings@.update(
                            k,
                            binding,
                        );
                    assert(q1.bindings@[k] == binding);
                } else {
                    assert(q1.bindings@.last() == binding);
                }
            }
        }
    }

    /// Apply a `queue.bind-ok`: mark every binding to the key active, in
    /// every queue of the channel.
    pub fn activate_bindings_all(&mut self, exchange: &String, routing_key: &String)
        requires
            old(self).wf(),
            old(self).connected(),
        ensures
            final(self).wf(),
            *final(self) == (Channel { queues: final(self).queues, ..*old(self) }),
            final(self).queues@.len() == old(self).queues@.len(),
            forall|x: int|
                0 <= x < old(self).queues@.len() ==> {
                    &&& #[trigger] final(self).queues@[x] == (Queue {
                        bindings: final(self).queues@[x].bindings,
                        ..old(self).queues@[x]
                    })
                    &&& final(self).queues@[x].bindings@.len() == old(self).queues@[x].bindings@.len()
                    &&& forall|b: int|
                        0 <= b < old(self).queues@[x].bindings@.len() ==> #[trigger] final(self).queues@[x].bindings@[b] == (if (old(self).queues@[x].bindings@[b].exchange@ == exchange@ && old(self).queues@[x].bindings@[b].routing_key@ == routing_key@) {
                            Binding { active: true, ..old(self).queues@[x].bindings@[b] }
                        } else {
                            old(self).queues@[x].bindings@[b]
                        })
                },
    {
        let mut j: usize = 0;
        while j < self.queues.len()
            invariant
                old(self).wf(),
                old(self).connected(),
                j <= self.queues@.len(),
                self.queues@.len() == old(self).queues@.len(),
                *self == (Channel { queues: self.queues, ..*old(self) }),
                forall|x: int|
                    j <= x < old(self).queues@.len() ==> #[trigger] self.queues@[x] == old(self).queues@[x],
                forall|x: int|
                    0 <= x < j ==> {
                        &&& #[trigger] self.queues@[x] == (Queue {
                            bindings: self.queues@[x].bindings,
                            ..old(self).queues@[x]
                        })
                        &&& self.queues@[x].bindings@.len() == old(self).queues@[x].bindings@.len()
                        &&& forall|b: int|
                            0 <= b < old(self).queues@[x].bindings@.len() ==> #[trigger] self
                                .queues@[x].bindings@[b] == (if (old(self).queues@[x].bindings@[b].exchange@ == exchange@ && old(self).queues@[x].bindings@[b].routing_key@ == routing_key@) {
                                Binding { active: true, ..old(self).queues@[x].bindings@[b] }
                            } else {
                                old(self).queues@[x].bindings@[b]
                            })
                    },
            decreases self.queues@.len() - j,
        {
            self.queues[j].activate_bindings(exchange, routing_key);
            j = j + 1;
        }
        proof {
            assert forall|a: int, b: int|
                0 <= a < b < self.queues@.len() implies #[trigger] self.queues@[a].name@
                != #[trigger] self.queues@[b].name@ by {
                assert(old(self).queues@[a].name@ != old(self).queues@[b].name@);
            }
        }
    }

    /// Apply a `queue.unbind-ok`: drop every binding to the key, in every
    /// queue of the channel.
    pub fn remove_bindings_all(&mut self, exchange: &String, routing_key: &String)
        requires
            old(self).wf(),
            old(self).connected(),
        ensures
            final(self).wf(),
            *final(self) == (Channel { queues: final(self).queues, ..*old(self) }),
            final(self).queues@.len() == old(self).queues@.len(),
            forall|x: int|
                0 <= x < old(self).queues@.len() ==> {
                    &&& #[trigger] final(self).queues@[x] == (Queue {
                        bindings: final(self).queues@[x].bindings,
                        ..old(self).queues@[x]
                    })
                    &&& final(self).queues@[x].bindings@ == bindings_without(
                        old(self).queues@[x].bindings@,
                        exchange@,
                        routing_key@,
                    )
                },
    {
        let mut j: usize = 0;
        while j < self.queues.len()
            invariant
                old(self).wf(),
                old(self).connected(),
                j <= self.queues@.len(),
                self.queues@.len() == old(self).queues@.len(),
                *self == (Channel { queues: self.queues, ..*old(self) }),
                forall|x: int|
                    j <= x < old(self).queues@.len() ==> #[trigger] self.queues@[x] == old(self).queues@[x],
                forall|x: int|
                    0 <= x < j ==> {
                        &&& #[trigger] self.queues@[x] == (Queue {
                            bindings: self.queues@[x].bindings,
                            ..old(self).queues@[x]
                        })
                        &&& self.queues@[x].bindings@ == bindings_without(
                            old(self).queues@[x].bindings@,
                            exchange@,
                            routing_key@,
                        )
                    },
            decreases self.queues@.len() - j,
        {
            self.queues[j].remove_bindings(exchange, routing_key);
            j = j + 1;
        }
        proof {
            assert forall|a: int, b: int|
                0 <= a < b < self.queues@.len() implies #[trigger] self.queues@[a].name@
                != #[trigger] self.queues@[b].name@ by {
                assert(old(self).queues@[a].name@ != old(self).queues@[b].name@);
            }
        }
    }

    /// Apply a `basic.consume-ok`: install the consumer, under its
    /// (server-assigned) tag, on the queue it subscribed to.
    pub fn install_consumer(&mut self, queue_name: &String, c: Consumer)
        requires
            old(self).wf(),
            old(self).connected(),
        ensures
            final(self).wf(),
            *final(self) == (Channel { queues: final(self).queues, ..*old(self) }),
            if old(self).has_queue(queue_name@) {
                final(self).queues@ == old(self).queues@.update(
                    old(self).queue_idx(queue_name@),
                    final(self).queues@[old(self).queue_idx(queue_name@)],
                ) && {
                    let q0 = old(self).the_queue(queue_name@);
                    let q1 = final(self).queues@[old(self).queue_idx(queue_name@)];
                    &&& q1 == (Queue { consumers: q1.consumers, ..q0 })
                    &&& if q0.has_consumer(c.tag@) {
                        q1.consumers@ == q0.consumers@.update(q0.consumer_idx(c.tag@), c)
                    } else {
                        q1.consumers@ == q0.consumers@.push(c)
                    }
                }
            } else {
                final(self).queues@ == old(self).queues@
            },
    {
        let j = match self.find_queue(queue_name) {
            Some(j) => j,
            None => {
                return ;
            },
        };
        proof {
            old(self).lemma_queue_idx(queue_name@, j as int);
        }
        self.queues[j].upsert_consumer(c);
        proof {
            assert(self.queues@ =~= old(self).queues@.update(j as int, self.queues@[j as int]));
            assert forall|a: int, b: int|
                0 <= a < b < self.queues@.len() implies #[trigger] self.queues@[a].name@
                != #[trigger] self.queues@[b].name@ by {
                assert(old(self).queues@[a].name@ != old(self).queues@[b].name@);
            }
        }
    }

    /// Apply a `basic.cancel-ok`: remove the consumer carrying the tag from
    /// every queue of the channel.
    pub fn remove_consumer_everywhere(&mut self, tag: &String)
        requires
            old(self).wf(),
            old(self).connected(),
        ensures
            final(self).wf(),
            *final(self) == (Channel { queues: final(self).queues, ..*old(self) }),
            final(self).queues@.len() == old(self).queues@.len(),
            forall|x: int|
                0 <= x < old(self).queues@.len() ==> {
                    &&& #[trigger] final(self).queues@[x] == (Queue {
                        consumers: final(self).queues@[x].consumers,
                        ..old(self).queues@[x]
                    })
                    &&& if old(self).queues@[x].has_consumer(tag@) {
                        final(self).queues@[x].consumers@ == old(self).queues@[x].consumers@.remove(old(self).queues@[x].consumer_idx(tag@))
                    } else {
                        final(self).queues@[x].consumers@ == old(self).queues@[x].consumers@
                    }
                },
    {
        let mut j: usize = 0;
        while j < self.queues.len()
            invariant
                old(self).wf(),
                old(self).connected(),
                j <= self.queues@.len(),
                self.queues@.len() == old(self).queues@.len(),
                *self == (Channel { queues: self.queues, ..*old(self) }),
                forall|x: int|
                    j <= x < old(self).queues@.len() ==> #[trigger] self.queues@[x] == old(self).queues@[x],
                forall|x: int|
                    0 <= x < j ==> {
                        &&& #[trigger] self.queues@[x] == (Queue {
                            consumers: self.queues@[x].consumers,
                            ..old(self).queues@[x]
                        })
                        &&& if old(self).queues@[x].has_consumer(tag@) {
                            self.queues@[x].consumers@ == old(self).queues@[x].consumers@.remove(
                                old(self).queues@[x].consumer_idx(tag@),
                            )
                        } else {
                            self.queues@[x].consumers@ == old(self).queues@[x].consumers@
                        }
                    },
            decreases self.queues@.len() - j,
        {
            proof {
                assert(self.queues@[j as int].consumers_unique()) by {
                    assert(old(self).queues@[j as int].consumers_unique());
                }
            }
            self.queues[j].remove_consumer(tag);
            j = j + 1;
        }
        proof {
            assert forall|a: int, b: int|
                0 <= a < b < self.queues@.len() implies #[trigger] self.queues@[a].name@
                != #[trigger] self.queues@[b].name@ by {
                assert(old(self).queues@[a].name@ != old(self).queues@[b].name@);
            }
        }
    }

    /// Apply a channel-level `basic.qos-ok`.
    pub fn set_qos(&mut self, prefetch_size: u32, prefetch_count: u16)
        ensures
            *final(self) == (Channel { prefetch_size, prefetch_count, ..*old(self) }),
    {
        self.prefetch_size = prefetch_size;
        self.prefetch_count = prefetch_count;
    }

    /// Register one more expected reply at the back of the FIFO.
    pub fn push_answer(&mut self, reply: ExpectedReply)
        ensures
            *final(self) == (Channel { awaiting: final(self).awaiting, ..*old(self) }),
            final(self).awaiting@ == old(self).awaiting@.push(reply),
    {
        self.awaiting.push(reply);
    }

    /// Find, across all queues, the first one with a consumer carrying `tag`.
    pub fn find_consumer_anywhere(&self, tag: &String) -> (r: Option<(usize, usize)>)
        ensures
            match r {
                Some((j, k)) => {
                    &&& j < self.queues@.len()
                    &&& k < self.queues@[j as int].consumers@.len()
                    &&& self.queues@[j as int].consumers@[k as int].tag@ == tag@
                },
                None => forall|x: int|
                    0 <= x < self.queues@.len() ==> !(#[trigger] self.queues@[x]).has_consumer(
                        tag@,
                    ),
            },
    {
        let mut j: usize = 0;
        while j < self.queues.len()
            invariant
                j <= self.queues@.len(),
                forall|x: int| 0 <= x < j ==> !(#[trigger] self.queues@[x]).has_consumer(tag@),
            decreases self.queues@.len() - j,
        {
            match self.queues[j].find_consumer(tag) {
                Some(k) => {
                    return Some((j, k));
                },
                None => {
                    proof {
                        assert(!self.queues@[j as int].has_consumer(tag@));
                    }
                },
            }
            j = j + 1;
        }
        None
    }

    /// `basic.deliver`: locate the consumer by tag across the channel's
    /// queues, begin assembling a delivery for it, and move to
    /// `WillReceiveContent`. A deliver for an unknown consumer tag is a
    /// protocol violation: the channel moves to `Error`.
    pub fn on_deliver(
        &mut self,
        consumer_tag: &String,
        delivery_tag: u64,
        exchange: String,
        routing_key: String,
        redelivered: bool,
    ) -> (r: Result<(), Error>)
        requires
            old(self).wf(),
        ensures
            final(self).wf(),
            deliver_step(
                *old(self),
                *final(self),
                consumer_tag@,
                delivery_tag,
                exchange@,
                routing_key@,
                redelivered,
                r,
            ),
            frame_fields(*old(self), *final(self)),
            match r {
                Ok(()) => {
                    &&& final(self).state matches ChannelState::WillReceiveContent(q, t)
                        && t@ == consumer_tag@ && old(self).has_queue(q@) && old(self).the_queue(
                        q@,
                    ).has_consumer(consumer_tag@) && queues_same_but(
                        *old(self),
                        *final(self),
                        q@,
                        consumer_tag@,
                    ) && (final(self).the_queue(q@).the_consumer(t@).current_message matches Some(
                        m,
                    ) && m.delivery_tag == delivery_tag && m.exchange@ == exchange@
                        && m.routing_key@ == routing_key@ && m.redelivered == redelivered
                        && m.body@.len() == 0 && m.body_size == 0) && final(self).the_queue(
                        q@,
                    ).the_consumer(t@) == (Consumer {
                        current_message: final(self).the_queue(q@).the_consumer(
                            t@,
                        ).current_message,
                        ..old(self).the_queue(q@).the_consumer(t@)
                    })
                },
                Err(e) => {
                    &&& e == Error::ProtocolUnexpectedFrame
                    &&& forall|x: int|
                        0 <= x < old(self).queues@.len() ==> !(#[trigger] old(self).queues@[x]).has_consumer(consumer_tag@)
                    &&& final(self).state is Error
                    &&& final(self).queues@ == old(self).queues@
                },
            },
    {
        match self.find_consumer_anywhere(consumer_tag) {
            Some((j, k)) => {
                let qname = self.queues[j].name.clone();
                let delivery = Delivery::new(delivery_tag, exchange, routing_key, redelivered);
                self.queues[j].consumers[k].start_new_delivery(delivery);
                self.state = ChannelState::WillReceiveContent(qname, consumer_tag.clone());
                proof {
                    let pre = *old(self);
                    let qn = pre.queues@[j as int].name@;
                    let tg = consumer_tag@;
                    assert(self.queues@ =~= pre.queues@.update(
                        j as int,
                        self.queues@[j as int],
                    ));
                    assert(self.queues@[j as int].consumers@ =~= pre.queues@[
                        j as int
                    ].consumers@.update(k as int, self.queues@[j as int].consumers@[k as int]));
                    assert(self.queues_unique());
                    self.lemma_queue_idx(qn, j as int);
                    pre.lemma_queue_idx(qn, j as int);
                    self.queues@[j as int].lemma_consumer_idx(tg, k as int);
                    pre.queues@[j as int].lemma_consumer_idx(tg, k as int);
                    assert(queues_same_but(pre, *self, qn, tg));
                }
                Ok(())
            },
            None => {
                self.state = ChannelState::Error;
                Err(Error::ProtocolUnexpectedFrame)
            },
        }
    }

    /// A protocol violation while content may be in flight: discard any
    /// delivery being assembled (no partial delivery is ever surfaced) and
    /// move the channel to `Error`.
    pub fn abort_current_delivery(&mut self)
        requires
            old(self).wf(),
        ensures
            final(self).wf(),
            frame_fields(*old(self), *final(self)),
            final(self).state is Error,
            match old(self).state {
                ChannelState::WillReceiveContent(q, t) => queues_same_but(
                    *old(self),
                    *final(self),
                    q@,
                    t@,
                ) && final(self).the_queue(q@).the_consumer(t@).current_message is None,
                ChannelState::ReceivingContent(q, t, remaining) => queues_same_but(
                    *old(self),
                    *final(self),
                    q@,
                    t@,
                ) && final(self).the_queue(q@).the_consumer(t@).current_message is None,
                _ => final(self).queues@ == old(self).queues@,
            },
    {
        let info: Option<(String, String)> = match &self.state {
            ChannelState::WillReceiveContent(q, t) => Some((q.clone(), t.clone())),
            ChannelState::ReceivingContent(q, t, _) => Some((q.clone(), t.clone())),
            _ => None,
        };
        match info {
            Some((qname, tag)) => {
                let j = match self.find_queue(&qname) {
                    Some(j) => j,
                    None => {
                        proof {
                            let jj = old(self).queue_idx(qname@);
                            assert(old(self).queues@[jj].name@ == qname@);
                            assert(false);
                        }
                        self.state = ChannelState::Error;
                        return ;
                    },
                };
                let k = match self.queues[j].find_consumer(&tag) {
                    Some(k) => k,
                    None => {
                        proof {
                            old(self).lemma_queue_idx(old(self).queues@[j as int].name@, j as int);
                            let kk = old(self).queues@[j as int].consumer_idx(tag@);
                            assert(old(self).queues@[j as int].consumers@[kk].tag@ == tag@);
                            assert(false);
                        }
                        self.state = ChannelState::Error;
                        return ;
                    },
                };
                self.queues[j].consumers[k].abort_delivery();
                self.state = ChannelState::Error;
                proof {
                    let pre = *old(self);
                    let qn = pre.queues@[j as int].name@;
                    let tg = tag@;
                    assert(self.queues@ =~= pre.queues@.update(j as int, self.queues@[j as int]));
                    assert(self.queues@[j as int].consumers@ =~= pre.queues@[
                        j as int
                    ].consumers@.update(k as int, self.queues@[j as int].consumers@[k as int]));
                    assert(self.queues_unique());
                    self.lemma_queue_idx(qn, j as int);
                    pre.lemma_queue_idx(qn, j as int);
                    self.queues@[j as int].lemma_consumer_idx(tg, k as int);
                    pre.queues@[j as int].lemma_consumer_idx(tg, k as int);
                    assert(queues_same_but(pre, *self, qn, tg));
                }
            },
            None => {
                self.state = ChannelState::Error;
            },
        }
    }

    /// A content header while in `WillReceiveContent`: record the announced
    /// properties and body size on the delivery being assembled. A size of
    /// zero completes the delivery at once; otherwise the channel waits for
    /// exactly `body_size` bytes of content body. In any other state the
    /// header is a protocol violation.
    #[verifier::rlimit(30)]
    pub fn on_content_header(
        &mut self,
        class_id: u16,
        body_size: u64,
        properties: BasicProperties,
    ) -> (r: Result<(), Error>)
        requires
            old(self).wf(),
        ensures
            final(self).wf(),
            content_header_step(*old(self), *final(self), body_size, properties, r),
            frame_fields(*old(self), *final(self)),
            match old(self).state {
                ChannelState::WillReceiveContent(q, t) => {
                    &&& r is Ok
                    &&& queues_same_but(*old(self), *final(self), q@, t@)
                    &&& if body_size == 0 {
                        &&& final(self).state is Connected
                        &&& Consumer::publishes_completion(
                            old(self).the_queue(q@).the_consumer(t@),
                            final(self).the_queue(q@).the_consumer(t@),
                        )
                        &&& (Consumer::completion_outcome(
                            old(self).the_queue(q@).the_consumer(t@),
                            final(self).the_queue(q@).the_consumer(t@),
                        ) matches DeliveryOutcome::Delivered(m) && m.body@.len() == 0
                            && m.body@.len() == m.body_size && m.properties == properties && (old(self).the_queue(q@).the_consumer(t@).current_message matches Some(m0)
                            && m.delivery_tag == m0.delivery_tag && m.exchange@ == m0.exchange@
                            && m.routing_key@ == m0.routing_key@ && m.redelivered
                            == m0.redelivered))
                        &&& final(self).the_queue(q@).the_consumer(t@).current_message is None
                    } else {
                        &&& final(self).state matches ChannelState::ReceivingContent(q2, t2, rem)
                            && q2@ == q@ && t2@ == t@ && rem == body_size
                        &&& (final(self).the_queue(q@).the_consumer(t@).current_message matches Some(
                            m,
                        ) && (old(self).the_queue(q@).the_consumer(t@).current_message matches Some(
                            m0,
                        ) && m == (Delivery { properties, body_size, ..m0 })))
                    }
                },
                _ => r == Err::<(), Error>(Error::ProtocolUnexpectedFrame) && final(self).state is Error,
            },
    {
        let info: Option<(String, String)> = match &self.state {
            ChannelState::WillReceiveContent(q, t) => Some((q.clone(), t.clone())),
            _ => None,
        };
        let (qname, tag) = match info {
            Some(x) => x,
            None => {
                self.abort_current_delivery();
                return Err(Error::ProtocolUnexpectedFrame);
            },
        };
        let j = match self.find_queue(&qname) {
            Some(j) => j,
            None => {
                proof {
                    let jj = old(self).queue_idx(qname@);
                    assert(old(self).queues@[jj].name@ == qname@);
                    assert(false);
                }
                return Err(Error::ProtocolUnexpectedFrame);
            },
        };
        let k = match self.queues[j].find_consumer(&tag) {
            Some(k) => k,
            None => {
                proof {
                    old(self).lemma_queue_idx(old(self).queues@[j as int].name@, j as int);
                    let kk = old(self).queues@[j as int].consumer_idx(tag@);
                    assert(old(self).queues@[j as int].consumers@[kk].tag@ == tag@);
                    assert(false);
                }
                return Err(Error::ProtocolUnexpectedFrame);
            },
        };
        self.queues[j].consumers[k].set_delivery_header(properties, body_size);
        if body_size == 0 {
            self.queues[j].consumers[k].new_delivery_complete();
            self.state = ChannelState::Connected;
        } else {
            self.state = ChannelState::ReceivingContent(qname, tag, body_size);
        }
        proof {
            let pre = *old(self);
            let qn = pre.queues@[j as int].name@;
            let tg = tag@;
            assert(self.queues@ =~= pre.queues@.update(j as int, self.queues@[j as int]));
            assert(self.queues@[j as int].consumers@ =~= pre.queues@[j as int].consumers@.update(
                k as int,
                self.queues@[j as int].consumers@[k as int],
            ));
            assert(self.queues_unique());
            self.lemma_queue_idx(qn, j as int);
            pre.lemma_queue_idx(qn, j as int);
            self.queues@[j as int].lemma_consumer_idx(tg, k as int);
            pre.queues@[j as int].lemma_consumer_idx(tg, k as int);
            assert(queues_same_but(pre, *self, qn, tg));
            let c0 = pre.the_queue(qn).the_consumer(tg);
            let c2 = self.the_queue(qn).the_consumer(tg);
            if body_size == 0 && c0.current_message is Some {
                if c0.has_delegate {
                    assert(c2.delegated@.take(c0.delegated@.len() as int) =~= c0.delegated@);
                } else {
                    assert(c2.deliveries@.take(c0.deliveries@.len() as int) =~= c0.deliveries@);
                }
            }
        }
        Ok(())
    }

    /// A content-body frame while in `ReceivingContent`: append the payload
    /// to the delivery being assembled. When the payload covers exactly the
    /// remaining bytes the delivery completes — with a body of exactly the
    /// announced size — and the channel returns to `Connected`. A payload
    /// larger than what remains, or a body frame in any other state, is a
    /// protocol violation.
    #[verifier::rlimit(30)]
    pub fn on_body_frame(&mut self, payload: Vec<u8>) -> (r: Result<(), Error>)
        requires
            old(self).wf(),
        ensures
            final(self).wf(),
            body_frame_step(*old(self), *final(self), payload@, r),
            frame_fields(*old(self), *final(self)),
            match old(self).state {
                ChannelState::ReceivingContent(q, t, remaining) => {
                    if payload@.len() <= remaining {
                        &&& r is Ok
                        &&& queues_same_but(*old(self), *final(self), q@, t@)
                        &&& if payload@.len() == remaining {
                            &&& final(self).state is Connected
                            &&& Consumer::publishes_completion(
                                old(self).the_queue(q@).the_consumer(t@),
                                final(self).the_queue(q@).the_consumer(t@),
                            )
                            &&& (Consumer::completion_outcome(
                                old(self).the_queue(q@).the_consumer(t@),
                                final(self).the_queue(q@).the_consumer(t@),
                            ) matches DeliveryOutcome::Delivered(m) && (old(self).the_queue(
                                q@,
                            ).the_consumer(t@).current_message matches Some(m0) && m.body@
                                == m0.body@ + payload@ && m.body@.len() == m.body_size
                                && m.body_size == m0.body_size && m.delivery_tag == m0.delivery_tag
                                && m.exchange@ == m0.exchange@ && m.routing_key@ == m0.routing_key@
                                && m.redelivered == m0.redelivered && m.properties
                                == m0.properties))
                            &&& final(self).the_queue(q@).the_consumer(
                                t@,
                            ).current_message is None
                        } else {
                            &&& final(self).state matches ChannelState::ReceivingContent(
                                q2,
                                t2,
                                rem2,
                            ) && q2@ == q@ && t2@ == t@ && rem2 == remaining - payload@.len()
                            &&& (final(self).the_queue(q@).the_consumer(
                                t@,
                            ).current_message matches Some(m) && (old(self).the_queue(
                                q@,
                            ).the_consumer(t@).current_message matches Some(m0) && m.body@
                                == m0.body@ + payload@ && m == (Delivery { body: m.body, ..m0 })))
                        }
                    } else {
                        r == Err::<(), Error>(Error::ProtocolUnexpectedFrame) && final(self).state is Error
                    }
                },
                _ => r == Err::<(), Error>(Error::ProtocolUnexpectedFrame) && final(self).state is Error,
            },
    {
        let info: Option<(String, String, u64)> = match &self.state {
            ChannelState::ReceivingContent(q, t, rem) => Some((q.clone(), t.clone(), *rem)),
            _ => None,
        };
        let (qname, tag, remaining) = match info {
            Some(x) => x,
            None => {
                self.abort_current_delivery();
                return Err(Error::ProtocolUnexpectedFrame);
            },
        };
        let len = payload.len() as u64;
        if len > remaining {
            self.abort_current_delivery();
            return Err(Error::ProtocolUnexpectedFrame);
        }
        let j = match self.find_queue(&qname) {
            Some(j) => j,
            None => {
                proof {
                    let jj = old(self).queue_idx(qname@);
                    assert(old(self).queues@[jj].name@ == qname@);
                    assert(false);
                }
                return Err(Error::ProtocolUnexpectedFrame);
            },
        };
        let k = match self.queues[j].find_consumer(&tag) {
            Some(k) => k,
            None => {
                proof {
                    old(self).lemma_queue_idx(old(self).queues@[j as int].name@, j as int);
                    let kk = old(self).queues@[j as int].consumer_idx(tag@);
                    assert(old(self).queues@[j as int].consumers@[kk].tag@ == tag@);
                    assert(false);
                }
                return Err(Error::ProtocolUnexpectedFrame);
            },
        };
        self.queues[j].consumers[k].receive_delivery_content(payload);
        if len == remaining {
            self.queues[j].consumers[k].new_delivery_complete();
            self.state = ChannelState::Connected;
        } else {
            self.state = ChannelState::ReceivingContent(qname, tag, remaining - len);
        }
        proof {
            let pre = *old(self);
            let qn = pre.queues@[j as int].name@;
            let tg = tag@;
            assert(self.queues@ =~= pre.queues@.update(j as int, self.queues@[j as int]));
            assert(self.queues@[j as int].consumers@ =~= pre.queues@[j as int].consumers@.update(
                k as int,
                self.queues@[j as int].consumers@[k as int],
            ));
            assert(self.queues_unique());
            self.lemma_queue_idx(qn, j as int);
            pre.lemma_queue_idx(qn, j as int);
            self.queues@[j as int].lemma_consumer_idx(tg, k as int);
            pre.queues@[j as int].lemma_consumer_idx(tg, k as int);
            assert(queues_same_but(pre, *self, qn, tg));
            let c0 = pre.the_queue(qn).the_consumer(tg);
            let c2 = self.the_queue(qn).the_consumer(tg);
            if len == remaining && c0.current_message is Some {
                if c0.has_delegate {
                    assert(c2.delegated@.take(c0.delegated@.len() as int) =~= c0.delegated@);
                } else {
                    assert(c2.deliveries@.take(c0.deliveries@.len() as int) =~= c0.deliveries@);
                }
            }
        }
        Ok(())
    }

    /// Pop the oldest expected reply. Replies leave the FIFO strictly in the
    /// order they were registered.
    pub fn next_expected_reply(&mut self) -> (r: Option<ExpectedReply>)
        ensures
            *final(self) == (Channel { awaiting: final(self).awaiting, ..*old(self) }),
            match r {
                Some(reply) => old(self).awaiting@.len() > 0 && reply == old(self).awaiting@[0]
                    && final(self).awaiting@ == old(self).awaiting@.drop_first(),
                None => old(self).awaiting@.len() == 0 && final(self).awaiting@ == old(self).awaiting@,
            },
    {
        if self.awaiting.len() == 0 {
            None
        } else {
            Some(self.awaiting.remove(0))
        }
    }
}

/// Law: content assembly is exact. Whenever a content-body frame completes
/// a delivery — it covers exactly the bytes still expected, and the channel
/// returns to `Connected` — the delivered body holds exactly `body_size`
/// bytes: the sum of the body frames' payload lengths equals the size the
/// content header announced.
pub proof fn lemma_content_assembly(pre: Channel, post: Channel, payload: Seq<u8>, r: Result<
    (),
    Error,
>)
    requires
        body_frame_step(pre, post, payload, r),
        pre.state matches ChannelState::ReceivingContent(q, t, remaining) && payload.len()
            == remaining,
    ensures
        post.state is Connected,
        pre.state matches ChannelState::ReceivingContent(q, t, remaining) ==> (
        Consumer::completion_outcome(
            pre.the_queue(q@).the_consumer(t@),
            post.the_queue(q@).the_consumer(t@),
        ) matches DeliveryOutcome::Delivered(m) && m.body@.len() == m.body_size),
{
}

/// Law: replies leave the awaiting FIFO strictly in the order they were
/// registered. Taking the head twice yields the first two expectations, in
/// order, and leaves exactly the rest.
pub proof fn lemma_awaiting_fifo(
    c0: Channel,
    c1: Channel,
    c2: Channel,
    r1: ExpectedReply,
    r2: ExpectedReply,
)
    requires
        c0.awaiting@.len() >= 2,
        r1 == c0.awaiting@[0],
        c1.awaiting@ == c0.awaiting@.drop_first(),
        r2 == c1.awaiting@[0],
        c2.awaiting@ == c1.awaiting@.drop_first(),
    ensures
        r1 == c0.awaiting@[0],
        r2 == c0.awaiting@[1],
        c2.awaiting@ == c0.awaiting@.skip(2),
{
    assert(c1.awaiting@[0] == c0.awaiting@[1]);
    assert(c2.awaiting@ =~= c0.awaiting@.skip(2));
}

} // verus!
