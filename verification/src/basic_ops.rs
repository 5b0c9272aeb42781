//! The `basic.*` class: qos, consume, cancel, publish, get, ack/reject/nack,
//! recover, and the routing of their replies and of inbound deliveries.

use vstd::prelude::*;
use crate::channel::{deliver_step, Answer, Channel, Queue, RequestId};
use crate::connection::{
    channels_frame, config_unchanged, frames_unchanged, op_failed, recv_matched, recv_mismatch,
    recv_refused, requested, sent, Connection,
};
use crate::consumer::Consumer;
use crate::error::Error;
use crate::frame::{chunk_payload, BasicProperties, FieldTable, Frame, Method};
use crate::frames::{bodies_bytes, lemma_bodies_bytes_of, QueuedFrame};
use crate::promise::PromiseState;

verus! {

/// What `receive_basic_qos_ok` does, as a relation.
pub open spec fn receive_basic_qos_ok_post(
    pre: Connection,
    post: Connection,
    channel_id: u16,
    r: Result<(), Error>,
) -> bool {
    match r {
        Ok(()) => {
            &&& pre.the_channel(channel_id).connected()
            &&& pre.the_channel(channel_id).awaiting@.len() > 0
            &&& (pre.the_channel(channel_id).awaiting@[0].answer matches
                Answer::AwaitingBasicQosOk(rid, ps, pc, global) && recv_matched(
                pre,
                post,
                channel_id,
                rid,
            ) && if global {
                &&& post.prefetch_size == ps
                &&& post.prefetch_count == pc
                &&& post.the_channel(channel_id) == (Channel {
                    awaiting: post.the_channel(channel_id).awaiting,
                    ..pre.the_channel(channel_id)
                })
            } else {
                &&& post.prefetch_size == pre.prefetch_size
                &&& post.prefetch_count == pre.prefetch_count
                &&& post.the_channel(channel_id) == (Channel {
                    prefetch_size: ps,
                    prefetch_count: pc,
                    awaiting: post.the_channel(channel_id).awaiting,
                    ..pre.the_channel(channel_id)
                })
            })
        },
        Err(e) => {
            if e == Error::UnexpectedAnswer {
                &&& pre.the_channel(channel_id).connected()
                &&& recv_mismatch(pre, post, channel_id)
                &&& post.prefetch_size == pre.prefetch_size
                &&& post.prefetch_count == pre.prefetch_count
                &&& !(pre.the_channel(channel_id).awaiting@.len() > 0 && pre.the_channel(channel_id).awaiting@[0].answer matches
                    Answer::AwaitingBasicQosOk(rid, ps, pc, global))
            } else {
                recv_refused(pre, post, channel_id, e)
            }
        },
    }
}

/// What `receive_basic_consume_ok` does, as a relation.
pub open spec fn receive_basic_consume_ok_post(
    pre: Connection,
    post: Connection,
    channel_id: u16,
    consumer_tag: String,
    r: Result<(), Error>,
) -> bool {
    match r {
        Ok(()) => {
            &&& pre.the_channel(channel_id).connected()
            &&& pre.the_channel(channel_id).awaiting@.len() > 0
            &&& (pre.the_channel(channel_id).awaiting@[0].answer matches
                Answer::AwaitingBasicConsumeOk(rid, q, t, no_local, no_ack, exclusive, nowait)
                && recv_matched(pre, post, channel_id, rid) && {
                let c0 = pre.the_channel(channel_id);
                let c1 = post.the_channel(channel_id);
                &&& c1 == (Channel { awaiting: c1.awaiting, queues: c1.queues, ..c0 })
                &&& if c0.has_queue(q@) {
                    &&& c1.has_queue(q@)
                    &&& c1.the_queue(q@).has_consumer(consumer_tag@)
                    &&& {
                        let c = c1.the_queue(q@).the_consumer(consumer_tag@);
                        &&& c.tag@ == consumer_tag@
                        &&& c.no_local == no_local
                        &&& c.no_ack == no_ack
                        &&& c.exclusive == exclusive
                        &&& c.nowait == nowait
                        &&& c.current_message is None
                        &&& c.deliveries@.len() == 0
                        &&& !c.has_delegate
                    }
                    &&& forall|x: int|
                        0 <= x < c0.queues@.len() && c0.queues@[x].name@ != q@
                            ==> #[trigger] c1.queues@[x] == c0.queues@[x]
                } else {
                    c1.queues@ == c0.queues@
                }
            })
            &&& post.prefetch_size == pre.prefetch_size
            &&& post.prefetch_count == pre.prefetch_count
        },
        Err(e) => {
            if e == Error::UnexpectedAnswer {
                &&& pre.the_channel(channel_id).connected()
                &&& recv_mismatch(pre, post, channel_id)
                &&& !(pre.the_channel(channel_id).awaiting@.len() > 0 && pre.the_channel(channel_id).awaiting@[0].answer matches
                    Answer::AwaitingBasicConsumeOk(rid, q, t, nl, na, ex, nw))
            } else {
                recv_refused(pre, post, channel_id, e)
            }
        },
    }
}

/// What `receive_basic_cancel_ok` does, as a relation.
pub open spec fn receive_basic_cancel_ok_post(
    pre: Connection,
    post: Connection,
    channel_id: u16,
    consumer_tag: String,
    r: Result<(), Error>,
) -> bool {
    match r {
        Ok(()) => {
            &&& pre.the_channel(channel_id).connected()
            &&& pre.the_channel(channel_id).awaiting@.len() > 0
            &&& (pre.the_channel(channel_id).awaiting@[0].answer matches
                Answer::AwaitingBasicCancelOk(rid) && recv_matched(
                pre,
                post,
                channel_id,
                rid,
            ))
            &&& {
                let c0 = pre.the_channel(channel_id);
                let c1 = post.the_channel(channel_id);
                &&& c1 == (Channel { awaiting: c1.awaiting, queues: c1.queues, ..c0 })
                &&& c1.queues@.len() == c0.queues@.len()
                &&& forall|x: int|
                    0 <= x < c0.queues@.len() ==> {
                        &&& (#[trigger] c1.queues@[x]) == (Queue {
                            consumers: c1.queues@[x].consumers,
                            ..c0.queues@[x]
                        })
                        &&& if c0.queues@[x].has_consumer(consumer_tag@) {
                            c1.queues@[x].consumers@ == c0.queues@[x].consumers@.remove(
                                c0.queues@[x].consumer_idx(consumer_tag@),
                            )
                        } else {
                            c1.queues@[x].consumers@ == c0.queues@[x].consumers@
                        }
                    }
            }
            &&& post.prefetch_size == pre.prefetch_size
            &&& post.prefetch_count == pre.prefetch_count
        },
        Err(e) => {
            if e == Error::UnexpectedAnswer {
                &&& pre.the_channel(channel_id).connected()
                &&& recv_mismatch(pre, post, channel_id)
                &&& !(pre.the_channel(channel_id).awaiting@.len() > 0 && pre.the_channel(channel_id).awaiting@[0].answer matches
                    Answer::AwaitingBasicCancelOk(rid))
            } else {
                recv_refused(pre, post, channel_id, e)
            }
        },
    }
}

/// What `receive_basic_deliver` does, as a relation.
pub open spec fn receive_basic_deliver_post(
    pre: Connection,
    post: Connection,
    channel_id: u16,
    consumer_tag: String,
    delivery_tag: u64,
    exchange: String,
    routing_key: String,
    redelivered: bool,
    r: Result<(), Error>,
) -> bool {
    match r {
        Ok(()) => {
            &&& pre.the_channel(channel_id).connected()
            &&& channels_frame(pre, post, channel_id)
            &&& deliver_step(
                pre.the_channel(channel_id),
                post.the_channel(channel_id),
                consumer_tag@,
                delivery_tag,
                exchange@,
                routing_key@,
                redelivered,
                r,
            )
            &&& frames_unchanged(pre, post)
            &&& post.promises.slots@ == pre.promises.slots@
            &&& config_unchanged(pre, post)
        },
        Err(e) => {
            if e == Error::ProtocolUnexpectedFrame {
                &&& pre.the_channel(channel_id).connected()
                &&& channels_frame(pre, post, channel_id)
                &&& deliver_step(
                    pre.the_channel(channel_id),
                    post.the_channel(channel_id),
                    consumer_tag@,
                    delivery_tag,
                    exchange@,
                    routing_key@,
                    redelivered,
                    r,
                )
                &&& frames_unchanged(pre, post)
                &&& post.promises.slots@ == pre.promises.slots@
                &&& config_unchanged(pre, post)
            } else {
                recv_refused(pre, post, channel_id, e)
            }
        },
    }
}

/// What `receive_basic_amqp_return` does, as a relation.
pub open spec fn receive_basic_amqp_return_post(
    pre: Connection,
    post: Connection,
    channel_id: u16,
    r: Result<(), Error>,
) -> bool {
    match r {
        Ok(()) => pre.the_channel(channel_id).connected() && crate::connection::unchanged(
            pre,
            post,
        ),
        Err(e) => recv_refused(pre, post, channel_id, e),
    }
}

/// What `receive_basic_get_ok` and `receive_basic_get_empty` do, as a relation: either reply satisfies the one `AwaitingBasicGetAnswer` expectation.
pub open spec fn receive_basic_get_answer_post(
    pre: Connection,
    post: Connection,
    channel_id: u16,
    r: Result<(), Error>,
) -> bool {
    match r {
        Ok(()) => {
            &&& pre.the_channel(channel_id).connected()
            &&& pre.the_channel(channel_id).awaiting@.len() > 0
            &&& (pre.the_channel(channel_id).awaiting@[0].answer matches
                Answer::AwaitingBasicGetAnswer(rid) && recv_matched(
                pre,
                post,
                channel_id,
                rid,
            ))
            &&& post.prefetch_size == pre.prefetch_size
            &&& post.prefetch_count == pre.prefetch_count
            &&& post.the_channel(channel_id) == (Channel {
                awaiting: post.the_channel(channel_id).awaiting,
                ..pre.the_channel(channel_id)
            })
        },
        Err(e) => {
            if e == Error::UnexpectedAnswer {
                &&& pre.the_channel(channel_id).connected()
                &&& recv_mismatch(pre, post, channel_id)
                &&& !(pre.the_channel(channel_id).awaiting@.len() > 0 && pre.the_channel(channel_id).awaiting@[0].answer matches
                    Answer::AwaitingBasicGetAnswer(rid))
            } else {
                recv_refused(pre, post, channel_id, e)
            }
        },
    }
}

/// What `receive_basic_recover_ok` does, as a relation.
pub open spec fn receive_basic_recover_ok_post(
    pre: Connection,
    post: Connection,
    channel_id: u16,
    r: Result<(), Error>,
) -> bool {
    match r {
        Ok(()) => {
            &&& pre.the_channel(channel_id).connected()
            &&& pre.the_channel(channel_id).awaiting@.len() > 0
            &&& (pre.the_channel(channel_id).awaiting@[0].answer matches
                Answer::AwaitingBasicRecoverOk(rid) && recv_matched(
                pre,
                post,
                channel_id,
                rid,
            ))
            &&& post.prefetch_size == pre.prefetch_size
            &&& post.prefetch_count == pre.prefetch_count
            &&& post.the_channel(channel_id) == (Channel {
                awaiting: post.the_channel(channel_id).awaiting,
                ..pre.the_channel(channel_id)
            })
        },
        Err(e) => {
            if e == Error::UnexpectedAnswer {
                &&& pre.the_channel(channel_id).connected()
                &&& recv_mismatch(pre, post, channel_id)
                &&& !(pre.the_channel(channel_id).awaiting@.len() > 0 && pre.the_channel(channel_id).awaiting@[0].answer matches
                    Answer::AwaitingBasicRecoverOk(rid))
            } else {
                recv_refused(pre, post, channel_id, e)
            }
        },
    }
}

impl Connection {
    /// `basic.qos`: ask for a prefetch window, channel- or connection-wide.
    pub fn basic_qos(
        &mut self,
        channel_id: u16,
        prefetch_size: u32,
        prefetch_count: u16,
        global: bool,
    ) -> (r: Result<RequestId, Error>)
        requires
            old(self).wf(),
            old(self).can_request(),
        ensures
            final(self).wf(),
            match r {
                Ok(rid) => {
                    &&& rid == old(self).request_index
                    &&& old(self).the_channel(channel_id).connected()
                    &&& requested(
                        *old(self),
                        *final(self),
                        channel_id,
                        Method::BasicQos { prefetch_size, prefetch_count, global },
                        Answer::AwaitingBasicQosOk(rid, prefetch_size, prefetch_count, global),
                    )
                    &&& final(self).the_channel(channel_id).queues@ == old(self).the_channel(
                        channel_id,
                    ).queues@
                },
                Err(e) => op_failed(*old(self), *final(self), channel_id, e),
            },
    {
        let i = match self.require_connected_state(channel_id) {
            Ok(i) => i,
            Err(e) => {
                return Err(e);
            },
        };
        let request_id = self.next_request_id();
        self.submit(
            i,
            channel_id,
            Method::BasicQos { prefetch_size, prefetch_count, global },
            Answer::AwaitingBasicQosOk(request_id, prefetch_size, prefetch_count, global),
        );
        Ok(request_id)
    }

    /// `basic.qos-ok`: the oldest expectation must be `AwaitingBasicQosOk`;
    /// its window lands on the connection when it was global, on the channel
    /// otherwise.
    pub fn receive_basic_qos_ok(&mut self, channel_id: u16) -> (r: Result<(), Error>)
        requires
            old(self).wf(),
        ensures
            final(self).wf(),
            receive_basic_qos_ok_post(*old(self), *final(self), channel_id, r),
    {
        let i = match self.check_connected(channel_id) {
            Ok(i) => i,
            Err(e) => {
                return Err(e);
            },
        };
        let popped = self.pop_answer(i, channel_id);
        let reply = match popped {
            Some(reply) => reply,
            None => {
                self.mark_unexpected(i, channel_id, None);
                return Err(Error::UnexpectedAnswer);
            },
        };
        let resolver = reply.resolver;
        match reply.answer {
            Answer::AwaitingBasicQosOk(request_id, prefetch_size, prefetch_count, global) => {
                if global {
                    self.prefetch_size = prefetch_size;
                    self.prefetch_count = prefetch_count;
                } else {
                    self.channels[i].set_qos(prefetch_size, prefetch_count);
                }
                self.promises.complete(resolver, PromiseState::Resolved);
                self.finished_reqs.push(request_id);
                proof {
                    let pre = *old(self);
                    assert(self.channels@ =~= pre.channels@.update(
                        i as int,
                        self.channels@[i as int],
                    ));
                    assert(self.channels_unique());
                    self.lemma_channel_idx(channel_id, i as int);
                }
                Ok(())
            },
            _ => {
                self.mark_unexpected(i, channel_id, Some(resolver));
                Err(Error::UnexpectedAnswer)
            },
        }
    }

    /// `basic.consume`: subscribe to a queue; the consumer is installed when
    /// `consume-ok` brings the (possibly server-assigned) tag back.
    pub fn basic_consume(
        &mut self,
        channel_id: u16,
        ticket: u16,
        queue: String,
        consumer_tag: String,
        no_local: bool,
        no_ack: bool,
        exclusive: bool,
        nowait: bool,
        arguments: FieldTable,
    ) -> (r: Result<RequestId, Error>)
        requires
            old(self).wf(),
            old(self).can_request(),
        ensures
            final(self).wf(),
            match r {
                Ok(rid) => {
                    &&& rid == old(self).request_index
                    &&& old(self).the_channel(channel_id).connected()
                    &&& requested(
                        *old(self),
                        *final(self),
                        channel_id,
                        Method::BasicConsume {
                            ticket,
                            queue,
                            consumer_tag,
                            no_local,
                            no_ack,
                            exclusive,
                            nowait,
                            arguments,
                        },
                        Answer::AwaitingBasicConsumeOk(
                            rid,
                            queue,
                            consumer_tag,
                            no_local,
                            no_ack,
                            exclusive,
                            nowait,
                        ),
                    )
                    &&& final(self).the_channel(channel_id).queues@ == old(self).the_channel(
                        channel_id,
                    ).queues@
                },
                Err(e) => op_failed(*old(self), *final(self), channel_id, e),
            },
    {
        let i = match self.require_connected_state(channel_id) {
            Ok(i) => i,
            Err(e) => {
                return Err(e);
            },
        };
        let request_id = self.next_request_id();
        let queue_ctx = queue.clone();
        let tag_ctx = consumer_tag.clone();
        self.submit(
            i,
            channel_id,
            Method::BasicConsume {
                ticket,
                queue,
                consumer_tag,
                no_local,
                no_ack,
                exclusive,
                nowait,
                arguments,
            },
            Answer::AwaitingBasicConsumeOk(
                request_id,
                queue_ctx,
                tag_ctx,
                no_local,
                no_ack,
                exclusive,
                nowait,
            ),
        );
        Ok(request_id)
    }

    /// `basic.consume-ok`: the oldest expectation must be
    /// `AwaitingBasicConsumeOk`; a fresh consumer is installed on the queue
    /// it subscribed to, under the tag the broker assigned.
    pub fn receive_basic_consume_ok(&mut self, channel_id: u16, consumer_tag: String) -> (r: Result<
        (),
        Error,
    >)
        requires
            old(self).wf(),
        ensures
            final(self).wf(),
            receive_basic_consume_ok_post(*old(self), *final(self), channel_id, consumer_tag, r),
    {
        let i = match self.check_connected(channel_id) {
            Ok(i) => i,
            Err(e) => {
                return Err(e);
            },
        };
        let popped = self.pop_answer(i, channel_id);
        let reply = match popped {
            Some(reply) => reply,
            None => {
                self.mark_unexpected(i, channel_id, None);
                return Err(Error::UnexpectedAnswer);
            },
        };
        let resolver = reply.resolver;
        match reply.answer {
            Answer::AwaitingBasicConsumeOk(
                request_id,
                queue,
                _tag,
                no_local,
                no_ack,
                exclusive,
                nowait,
            ) => {
                let mut consumer = Consumer::new(consumer_tag);
                consumer.no_local = no_local;
                consumer.no_ack = no_ack;
                consumer.exclusive = exclusive;
                consumer.nowait = nowait;
                let ghost cval = consumer;
                let ghost mid = *self;
                self.channels[i].install_consumer(&queue, consumer);
                self.promises.complete(resolver, PromiseState::Resolved);
                self.finished_reqs.push(request_id);
                proof {
                    let pre = *old(self);
                    assert(self.channels@ =~= pre.channels@.update(
                        i as int,
                        self.channels@[i as int],
                    ));
                    assert(self.channels_unique());
                    self.lemma_channel_idx(channel_id, i as int);
                    let c0 = mid.channels@[i as int];
                    let c1 = self.channels@[i as int];
                    assert(c0.queues@ == pre.channels@[i as int].queues@);
                    if c0.has_queue(queue@) {
                        let j = c0.queue_idx(queue@);
                        assert(c0.queues@[j].name@ == queue@);
                        assert(c1.queues@[j].name@ == queue@);
                        assert(c1.wf());
                        c1.lemma_queue_idx(queue@, j);
                        let q0 = c0.the_queue(queue@);
                        let q1 = c1.queues@[j];
                        if q0.has_consumer(cval.tag@) {
                            assert(q1.consumers@[q0.consumer_idx(cval.tag@)] == cval);
                            q1.lemma_consumer_idx(cval.tag@, q0.consumer_idx(cval.tag@));
                        } else {
                            assert(q1.consumers@.last() == cval);
                            q1.lemma_consumer_idx(cval.tag@, q1.consumers@.len() - 1);
                        }
                    }
                }
                Ok(())
            },
            _ => {
                self.mark_unexpected(i, channel_id, Some(resolver));
                Err(Error::UnexpectedAnswer)
            },
        }
    }

    /// `basic.cancel`: unsubscribe a consumer tag; the consumer is dropped
    /// when `cancel-ok` confirms.
    pub fn basic_cancel(&mut self, channel_id: u16, consumer_tag: String, nowait: bool) -> (r:
        Result<RequestId, Error>)
        requires
            old(self).wf(),
            old(self).can_request(),
        ensures
            final(self).wf(),
            match r {
                Ok(rid) => {
                    &&& rid == old(self).request_index
                    &&& old(self).the_channel(channel_id).connected()
                    &&& requested(
                        *old(self),
                        *final(self),
                        channel_id,
                        Method::BasicCancel { consumer_tag, nowait },
                        Answer::AwaitingBasicCancelOk(rid),
                    )
                    &&& final(self).the_channel(channel_id).queues@ == old(self).the_channel(
                        channel_id,
                    ).queues@
                },
                Err(e) => op_failed(*old(self), *final(self), channel_id, e),
            },
    {
        let i = match self.require_connected_state(channel_id) {
            Ok(i) => i,
            Err(e) => {
                return Err(e);
            },
        };
        let request_id = self.next_request_id();
        self.submit(
            i,
            channel_id,
            Method::BasicCancel { consumer_tag, nowait },
            Answer::AwaitingBasicCancelOk(request_id),
        );
        Ok(request_id)
    }

    /// `basic.cancel-ok`: the oldest expectation must be
    /// `AwaitingBasicCancelOk`; the consumer carrying the confirmed tag is
    /// removed from every queue of the channel.
    pub fn receive_basic_cancel_ok(&mut self, channel_id: u16, consumer_tag: String) -> (r: Result<
        (),
        Error,
    >)
        requires
            old(self).wf(),
        ensures
            final(self).wf(),
            receive_basic_cancel_ok_post(*old(self), *final(self), channel_id, consumer_tag, r),
    {
        let i = match self.check_connected(channel_id) {
            Ok(i) => i,
            Err(e) => {
                return Err(e);
            },
        };
        let popped = self.pop_answer(i, channel_id);
        let reply = match popped {
            Some(reply) => reply,
            None => {
                self.mark_unexpected(i, channel_id, None);
                return Err(Error::UnexpectedAnswer);
            },
        };
        let resolver = reply.resolver;
        match reply.answer {
            Answer::AwaitingBasicCancelOk(request_id) => {
                let ghost mid = *self;
                self.channels[i].remove_consumer_everywhere(&consumer_tag);
                self.promises.complete(resolver, PromiseState::Resolved);
                self.finished_reqs.push(request_id);
                proof {
                    let pre = *old(self);
                    assert(self.channels@ =~= pre.channels@.update(
                        i as int,
                        self.channels@[i as int],
                    ));
                    assert(self.channels_unique());
                    self.lemma_channel_idx(channel_id, i as int);
                    assert(mid.channels@[i as int].queues@ == pre.channels@[i as int].queues@);
                }
                Ok(())
            },
            _ => {
                self.mark_unexpected(i, channel_id, Some(resolver));
                Err(Error::UnexpectedAnswer)
            },
        }
    }

    /// `basic.deliver`: the broker starts pushing a message to one of our
    /// consumers. The channel locates the consumer by tag and begins
    /// assembling the delivery; the next frame must be its content header.
    pub fn receive_basic_deliver(
        &mut self,
        channel_id: u16,
        consumer_tag: String,
        delivery_tag: u64,
        exchange: String,
        routing_key: String,
        redelivered: bool,
    ) -> (r: Result<(), Error>)
        requires
            old(self).wf(),
        ensures
            final(self).wf(),
            receive_basic_deliver_post(*old(self), *final(self), channel_id, consumer_tag, delivery_tag, exchange, routing_key, redelivered, r),
    {
        let i = match self.check_connected(channel_id) {
            Ok(i) => i,
            Err(e) => {
                return Err(e);
            },
        };
        let r = self.channels[i].on_deliver(
            &consumer_tag,
            delivery_tag,
            exchange,
            routing_key,
            redelivered,
        );
        proof {
            let pre = *old(self);
            assert(self.channels@ =~= pre.channels@.update(i as int, self.channels@[i as int]));
            assert(self.channels_unique());
            self.lemma_channel_idx(channel_id, i as int);
            pre.lemma_channel_idx(channel_id, i as int);
        }
        r
    }

    /// `basic.return`: an unroutable mandatory publish comes back. It arrives
    /// out-of-band — the awaiting FIFO is not consulted — and is surfaced to
    /// the application's return handler; the channel model is untouched.
    pub fn receive_basic_amqp_return(
        &mut self,
        channel_id: u16,
        reply_code: u16,
        reply_text: String,
        exchange: String,
        routing_key: String,
    ) -> (r: Result<(), Error>)
        requires
            old(self).wf(),
        ensures
            final(self).wf(),
            receive_basic_amqp_return_post(*old(self), *final(self), channel_id, r),
    {
        match self.check_connected(channel_id) {
            Ok(_) => Ok(()),
            Err(e) => Err(e),
        }
    }

    /// `basic.get`: poll one message. The single expectation is satisfied by
    /// either `get-ok` or `get-empty`.
    pub fn basic_get(&mut self, channel_id: u16, ticket: u16, queue: String, no_ack: bool) -> (r:
        Result<RequestId, Error>)
        requires
            old(self).wf(),
            old(self).can_request(),
        ensures
            final(self).wf(),
            match r {
                Ok(rid) => {
                    &&& rid == old(self).request_index
                    &&& old(self).the_channel(channel_id).connected()
                    &&& requested(
                        *old(self),
                        *final(self),
                        channel_id,
                        Method::BasicGet { ticket, queue, no_ack },
                        Answer::AwaitingBasicGetAnswer(rid),
                    )
                    &&& final(self).the_channel(channel_id).queues@ == old(self).the_channel(
                        channel_id,
                    ).queues@
                },
                Err(e) => op_failed(*old(self), *final(self), channel_id, e),
            },
    {
        let i = match self.require_connected_state(channel_id) {
            Ok(i) => i,
            Err(e) => {
                return Err(e);
            },
        };
        let request_id = self.next_request_id();
        self.submit(
            i,
            channel_id,
            Method::BasicGet { ticket, queue, no_ack },
            Answer::AwaitingBasicGetAnswer(request_id),
        );
        Ok(request_id)
    }

    /// `basic.get-ok`: satisfies an outstanding `AwaitingBasicGetAnswer`
    /// (content frames follow out of band).
    pub fn receive_basic_get_ok(&mut self, channel_id: u16) -> (r: Result<(), Error>)
        requires
            old(self).wf(),
        ensures
            final(self).wf(),
            receive_basic_get_answer_post(*old(self), *final(self), channel_id, r),
    {
        let i = match self.check_connected(channel_id) {
            Ok(i) => i,
            Err(e) => {
                return Err(e);
            },
        };
        let popped = self.pop_answer(i, channel_id);
        let reply = match popped {
            Some(reply) => reply,
            None => {
                self.mark_unexpected(i, channel_id, None);
                return Err(Error::UnexpectedAnswer);
            },
        };
        let resolver = reply.resolver;
        match reply.answer {
            Answer::AwaitingBasicGetAnswer(request_id) => {
                self.promises.complete(resolver, PromiseState::Resolved);
                self.finished_reqs.push(request_id);
                proof {
                    self.lemma_channel_idx(channel_id, i as int);
                }
                Ok(())
            },
            _ => {
                self.mark_unexpected(i, channel_id, Some(resolver));
                Err(Error::UnexpectedAnswer)
            },
        }
    }

    /// `basic.get-empty`: the queue had nothing; satisfies the same
    /// `AwaitingBasicGetAnswer` expectation as `get-ok`.
    pub fn receive_basic_get_empty(&mut self, channel_id: u16) -> (r: Result<(), Error>)
        requires
            old(self).wf(),
        ensures
            final(self).wf(),
            receive_basic_get_answer_post(*old(self), *final(self), channel_id, r),
    {
        let i = match self.check_connected(channel_id) {
            Ok(i) => i,
            Err(e) => {
                return Err(e);
            },
        };
        let popped = self.pop_answer(i, channel_id);
        let reply = match popped {
            Some(reply) => reply,
            None => {
                self.mark_unexpected(i, channel_id, None);
                return Err(Error::UnexpectedAnswer);
            },
        };
        let resolver = reply.resolver;
        match reply.answer {
            Answer::AwaitingBasicGetAnswer(request_id) => {
                self.promises.complete(resolver, PromiseState::Resolved);
                self.finished_reqs.push(request_id);
                proof {
                    self.lemma_channel_idx(channel_id, i as int);
                }
                Ok(())
            },
            _ => {
                self.mark_unexpected(i, channel_id, Some(resolver));
                Err(Error::UnexpectedAnswer)
            },
        }
    }

    /// `basic.ack`: acknowledge; asynchronous, no reply.
    pub fn basic_ack(&mut self, channel_id: u16, delivery_tag: u64, multiple: bool) -> (r: Result<
        (),
        Error,
    >)
        requires
            old(self).wf(),
            old(self).can_request(),
        ensures
            final(self).wf(),
            match r {
                Ok(()) => old(self).the_channel(channel_id).connected() && sent(
                    *old(self),
                    *final(self),
                    channel_id,
                    Method::BasicAck { delivery_tag, multiple },
                ),
                Err(e) => op_failed(*old(self), *final(self), channel_id, e),
            },
    {
        match self.require_connected_state(channel_id) {
            Ok(_) => {},
            Err(e) => {
                return Err(e);
            },
        }
        self.send_async(channel_id, Method::BasicAck { delivery_tag, multiple });
        Ok(())
    }

    /// `basic.reject`: refuse one delivery; asynchronous, no reply.
    pub fn basic_reject(&mut self, channel_id: u16, delivery_tag: u64, requeue: bool) -> (r: Result<
        (),
        Error,
    >)
        requires
            old(self).wf(),
            old(self).can_request(),
        ensures
            final(self).wf(),
            match r {
                Ok(()) => old(self).the_channel(channel_id).connected() && sent(
                    *old(self),
                    *final(self),
                    channel_id,
                    Method::BasicReject { delivery_tag, requeue },
                ),
                Err(e) => op_failed(*old(self), *final(self), channel_id, e),
            },
    {
        match self.require_connected_state(channel_id) {
            Ok(_) => {},
            Err(e) => {
                return Err(e);
            },
        }
        self.send_async(channel_id, Method::BasicReject { delivery_tag, requeue });
        Ok(())
    }

    /// `basic.recover-async`: redeliver unacknowledged messages; no reply.
    pub fn basic_recover_async(&mut self, channel_id: u16, requeue: bool) -> (r: Result<(), Error>)
        requires
            old(self).wf(),
            old(self).can_request(),
        ensures
            final(self).wf(),
            match r {
                Ok(()) => old(self).the_channel(channel_id).connected() && sent(
                    *old(self),
                    *final(self),
                    channel_id,
                    Method::BasicRecoverAsync { requeue },
                ),
                Err(e) => op_failed(*old(self), *final(self), channel_id, e),
            },
    {
        match self.require_connected_state(channel_id) {
            Ok(_) => {},
            Err(e) => {
                return Err(e);
            },
        }
        self.send_async(channel_id, Method::BasicRecoverAsync { requeue });
        Ok(())
    }

    /// `basic.recover`: like `recover-async` but confirmed by `recover-ok`.
    pub fn basic_recover(&mut self, channel_id: u16, requeue: bool) -> (r: Result<RequestId, Error>)
        requires
            old(self).wf(),
            old(self).can_request(),
        ensures
            final(self).wf(),
            match r {
                Ok(rid) => {
                    &&& rid == old(self).request_index
                    &&& old(self).the_channel(channel_id).connected()
                    &&& requested(
                        *old(self),
                        *final(self),
                        channel_id,
                        Method::BasicRecover { requeue },
                        Answer::AwaitingBasicRecoverOk(rid),
                    )
                    &&& final(self).the_channel(channel_id).queues@ == old(self).the_channel(
                        channel_id,
                    ).queues@
                },
                Err(e) => op_failed(*old(self), *final(self), channel_id, e),
            },
    {
        let i = match self.require_connected_state(channel_id) {
            Ok(i) => i,
            Err(e) => {
                return Err(e);
            },
        };
        let request_id = self.next_request_id();
        self.submit(
            i,
            channel_id,
            Method::BasicRecover { requeue },
            Answer::AwaitingBasicRecoverOk(request_id),
        );
        Ok(request_id)
    }

    /// `basic.recover-ok`: the oldest expectation must be
    /// `AwaitingBasicRecoverOk`; nothing else changes.
    pub fn receive_basic_recover_ok(&mut self, channel_id: u16) -> (r: Result<(), Error>)
        requires
            old(self).wf(),
        ensures
            final(self).wf(),
            receive_basic_recover_ok_post(*old(self), *final(self), channel_id, r),
    {
        let i = match self.check_connected(channel_id) {
            Ok(i) => i,
            Err(e) => {
                return Err(e);
            },
        };
        let popped = self.pop_answer(i, channel_id);
        let reply = match popped {
            Some(reply) => reply,
            None => {
                self.mark_unexpected(i, channel_id, None);
                return Err(Error::UnexpectedAnswer);
            },
        };
        let resolver = reply.resolver;
        match reply.answer {
            Answer::AwaitingBasicRecoverOk(request_id) => {
                self.promises.complete(resolver, PromiseState::Resolved);
                self.finished_reqs.push(request_id);
                proof {
                    self.lemma_channel_idx(channel_id, i as int);
                }
                Ok(())
            },
            _ => {
                self.mark_unexpected(i, channel_id, Some(resolver));
                Err(Error::UnexpectedAnswer)
            },
        }
    }

    /// `basic.publish`: queue the whole publish — method frame, content
    /// header, and one content-body frame per `frame_max - 8` bytes of
    /// payload — as one batch in the low-priority lane. The scheduler keeps
    /// the batch contiguous on the wire. The returned promise (the last
    /// frame's resolver) resolves once the whole batch has been written; an
    /// empty payload produces no body frames at all.
    #[verifier::rlimit(50)]
    pub fn basic_publish(
        &mut self,
        channel_id: u16,
        ticket: u16,
        exchange: String,
        routing_key: String,
        mandatory: bool,
        immediate: bool,
        payload: Vec<u8>,
        properties: BasicProperties,
    ) -> (r: Result<(), Error>)
        requires
            old(self).wf(),
            old(self).promises.len() < usize::MAX,
            old(self).frame_max == 0 || old(self).frame_max > 8,
        ensures
            final(self).wf(),
            match r {
                Ok(()) => {
                    let n = old(self).frames.low_prio_frames@.len() as int;
                    &&& old(self).the_channel(channel_id).connected()
                    &&& final(self).channels@ == old(self).channels@
                    &&& config_unchanged(*old(self), *final(self))
                    &&& final(self).promises.slots@ == old(self).promises.slots@.push(
                        PromiseState::Pending,
                    )
                    &&& final(self).frames.retry_frames@ == old(self).frames.retry_frames@
                    &&& final(self).frames.publish_frames@ == old(self).frames.publish_frames@
                    &&& final(self).frames.frames@ == old(self).frames.frames@
                    &&& final(self).frames.low_prio_frames@.len() >= n + 2
                    &&& final(self).frames.low_prio_frames@.take(n) == old(self).frames.low_prio_frames@
                    &&& final(self).frames.low_prio_frames@[n].frame == Frame::Method(
                        channel_id,
                        Method::BasicPublish { ticket, exchange, routing_key, mandatory, immediate },
                    )
                    &&& final(self).frames.low_prio_frames@[n].resolver is None
                    &&& final(self).frames.low_prio_frames@[n + 1].frame == Frame::Header(
                        channel_id,
                        60,
                        payload@.len() as u64,
                        properties,
                    )
                    &&& forall|x: int|
                        n + 2 <= x < final(self).frames.low_prio_frames@.len() ==> ((
                        #[trigger] final(self).frames.low_prio_frames@[x]).frame matches
                            Frame::Body(c, b) && c == channel_id)
                    &&& bodies_bytes(final(self).frames.low_prio_frames@.skip(n + 2)) == payload@
                    &&& (payload@.len() == 0 <==> final(self).frames.low_prio_frames@.len() == n
                        + 2)
                    &&& (final(self).frames.low_prio_frames@.last().resolver matches Some(w) && (w
                        as int) == old(self).promises.len())
                    &&& (old(self).frame_max > 0 ==> forall|x: int|
                        n + 2 <= x < final(self).frames.low_prio_frames@.len() ==> ((
                        #[trigger] final(self).frames.low_prio_frames@[x]).frame matches
                            Frame::Body(c, b) && b@.len() <= old(self).frame_max - 8))
                },
                Err(e) => op_failed(*old(self), *final(self), channel_id, e),
            },
    {
        match self.require_connected_state(channel_id) {
            Ok(_) => {},
            Err(e) => {
                return Err(e);
            },
        }
        let max_chunk: usize = if self.frame_max == 0 {
            if payload.len() == 0 {
                1
            } else {
                payload.len()
            }
        } else {
            (self.frame_max - 8) as usize
        };
        let chunks = chunk_payload(&payload, max_chunk);
        let ghost cviews = chunks@.map_values(|v: Vec<u8>| v@);
        let mut batch: Vec<Frame> = Vec::new();
        batch.push(
            Frame::Method(
                channel_id,
                Method::BasicPublish { ticket, exchange, routing_key, mandatory, immediate },
            ),
        );
        batch.push(Frame::Header(channel_id, 60, payload.len() as u64, properties));
        let ghost method_frame = batch@[0];
        let ghost header_frame = batch@[1];
        let mut remaining = chunks;
        proof {
            assert(remaining@.map_values(|v: Vec<u8>| v@) =~= cviews.skip(0));
        }
        while remaining.len() > 0
            invariant
                remaining@.len() <= cviews.len(),
                batch@.len() == 2 + cviews.len() - remaining@.len(),
                batch@[0] == method_frame,
                batch@[1] == header_frame,
                forall|x: int|
                    2 <= x < batch@.len() ==> ((#[trigger] batch@[x]) matches Frame::Body(c, b)
                        && c == channel_id && b@ == cviews[x - 2]),
                remaining@.map_values(|v: Vec<u8>| v@) == cviews.skip(
                    cviews.len() - remaining@.len(),
                ),
            decreases remaining@.len(),
        {
            let ghost consumed = cviews.len() - remaining@.len();
            let ghost rem_pre = remaining@;
            let c = remaining.remove(0);
            proof {
                assert(rem_pre.map_values(|v: Vec<u8>| v@)[0] == c@);
                assert(cviews.skip(consumed as int)[0] == cviews[consumed as int]);
                assert(c@ == cviews[consumed as int]);
            }
            batch.push(Frame::Body(channel_id, c));
            proof {
                assert(remaining@.map_values(|v: Vec<u8>| v@) =~= cviews.skip(
                    cviews.len() - remaining@.len(),
                )) by {
                    assert forall|x: int|
                        0 <= x < remaining@.len() implies remaining@.map_values(|v: Vec<u8>| v@)[x]
                        == #[trigger] cviews.skip(cviews.len() - remaining@.len())[x] by {
                        assert(remaining@[x] == rem_pre[x + 1]);
                        assert(rem_pre.map_values(|v: Vec<u8>| v@)[x + 1] == rem_pre[x + 1]@);
                        assert(cviews.skip(consumed as int)[x + 1] == cviews[consumed + 1 + x]);
                    }
                }
            }
        }
        let ghost batch_view = batch@;
        let ghost n = self.frames.low_prio_frames@.len() as int;
        let pid = self.frames.push_frames(batch, &mut self.promises);
        proof {
            let lane = self.frames.low_prio_frames@;
            assert(lane.len() == n + batch_view.len());
            assert(lane[n] == (QueuedFrame { frame: method_frame, resolver: None })) by {
                if batch_view.len() > 1 {
                    assert(lane[n + 0] == (QueuedFrame { frame: batch_view[0], resolver: None }));
                }
            }
            assert(lane[n + 1].frame == header_frame) by {
                if batch_view.len() > 2 {
                    assert(lane[n + 1] == (QueuedFrame { frame: batch_view[1], resolver: None }));
                } else {
                    assert(lane.last() == (QueuedFrame {
                        frame: batch_view.last(),
                        resolver: Some(pid),
                    }));
                }
            }
            assert forall|x: int|
                n + 2 <= x < lane.len() implies ((#[trigger] lane[x]).frame matches Frame::Body(
                c,
                b,
            ) && c == channel_id && b@ == cviews[x - n - 2]) by {
                if x < lane.len() - 1 {
                    assert(lane[n + (x - n)] == (QueuedFrame {
                        frame: batch_view[x - n],
                        resolver: None,
                    }));
                } else {
                    assert(lane.last() == (QueuedFrame {
                        frame: batch_view.last(),
                        resolver: Some(pid),
                    }));
                    assert(batch_view.last() == batch_view[x - n]);
                }
                assert(batch_view[x - n] matches Frame::Body(c, b) && c == channel_id && b@
                    == cviews[x - n - 2]);
            }
            assert(bodies_bytes(lane.skip(n + 2)) == payload@) by {
                assert forall|x: int|
                    0 <= x < lane.skip(n + 2).len() implies ((#[trigger] lane.skip(n + 2)[x]).frame
                    matches Frame::Body(c, b) && b@ == cviews[x]) by {
                    assert(lane.skip(n + 2)[x] == lane[n + 2 + x]);
                }
                lemma_bodies_bytes_of(lane.skip(n + 2), cviews);
            }
            assert(lane.take(n) =~= old(self).frames.low_prio_frames@);
            assert(self.promises.slots@ =~= old(self).promises.slots@.push(
                PromiseState::Pending,
            )) by {
                assert(self.promises.slot(pid as int) is Pending);
                assert forall|x: int|
                    0 <= x < self.promises.slots@.len() implies #[trigger] self.promises.slots@[x]
                    == old(self).promises.slots@.push(PromiseState::Pending)[x] by {
                    if x < old(self).promises.len() {
                        assert(self.promises.slot(x) == old(self).promises.slot(x));
                    }
                }
            }
            // the fresh resolver is in range, so every lane stays valid
            assert(self.frames.resolvers_valid(self.promises.len())) by {
                assert forall|x: int|
                    0 <= x < lane.len() implies match (#[trigger] lane[x]).resolver {
                    Some(id) => id < self.promises.len(),
                    None => true,
                } by {
                    if x < n {
                        assert(lane[x] == old(self).frames.low_prio_frames@[x]);
                    } else if x < lane.len() - 1 {
                        assert(lane[n + (x - n)] == (QueuedFrame {
                            frame: batch_view[x - n],
                            resolver: None,
                        }));
                    } else {
                        assert(lane.last() == (QueuedFrame {
                            frame: batch_view.last(),
                            resolver: Some(pid),
                        }));
                    }
                }
            }
        }
        Ok(())
    }

    /// `basic.nack`: refuse one or many deliveries; asynchronous, no reply.
    pub fn basic_nack(
        &mut self,
        channel_id: u16,
        delivery_tag: u64,
        multiple: bool,
        requeue: bool,
    ) -> (r: Result<(), Error>)
        requires
            old(self).wf(),
            old(self).can_request(),
        ensures
            final(self).wf(),
            match r {
                Ok(()) => old(self).the_channel(channel_id).connected() && sent(
                    *old(self),
                    *final(self),
                    channel_id,
                    Method::BasicNack { delivery_tag, multiple, requeue },
                ),
                Err(e) => op_failed(*old(self), *final(self), channel_id, e),
            },
    {
        match self.require_connected_state(channel_id) {
            Ok(_) => {},
            Err(e) => {
                return Err(e);
            },
        }
        self.send_async(channel_id, Method::BasicNack { delivery_tag, multiple, requeue });
        Ok(())
    }
}

} // verus!
