//! The `queue.*` class: declare, bind, purge, delete, unbind, and the
//! routing of their replies. Every call runs through the connection's state test
//! (the channel must exist and be `Connected`), queues its method frame, and
//! registers the expected reply; every reply must match the oldest
//! expectation or the channel turns to `Error`.

use vstd::prelude::*;
use crate::channel::{
    bindings_without, fresh_queue, Answer, Binding, Channel, ChannelState, Queue, RequestId,
};
use crate::connection::{
    op_failed, recv_matched, recv_mismatch, recv_refused, requested, Connection,
};
use crate::error::Error;
use crate::frame::{FieldTable, Method};
use crate::promise::PromiseState;

verus! {

/// What `receive_queue_declare_ok` does, as a relation.
pub open spec fn receive_queue_declare_ok_post(
    pre: Connection,
    post: Connection,
    channel_id: u16,
    queue: String,
    message_count: u32,
    consumer_count: u32,
    r: Result<(), Error>,
) -> bool {
    match r {
        Ok(()) => {
            &&& pre.the_channel(channel_id).connected()
            &&& pre.the_channel(channel_id).awaiting@.len() > 0
            &&& (pre.the_channel(channel_id).awaiting@[0].answer matches
                Answer::AwaitingQueueDeclareOk(rid) && recv_matched(
                pre,
                post,
                channel_id,
                rid,
            ))
            &&& post.prefetch_size == pre.prefetch_size
            &&& post.prefetch_count == pre.prefetch_count
            &&& {
                let c0 = pre.the_channel(channel_id);
                let c1 = post.the_channel(channel_id);
                &&& c1 == (Channel { awaiting: c1.awaiting, queues: c1.queues, ..c0 })
                &&& if c0.has_queue(queue@) {
                    c1.queues@ == c0.queues@.update(
                        c0.queue_idx(queue@),
                        Queue {
                            message_count,
                            consumer_count,
                            created: true,
                            ..c0.the_queue(queue@)
                        },
                    )
                } else {
                    c1.queues@ == c0.queues@
                }
            }
        },
        Err(e) => {
            if e == Error::UnexpectedAnswer {
                &&& pre.the_channel(channel_id).connected()
                &&& recv_mismatch(pre, post, channel_id)
                &&& !(pre.the_channel(channel_id).awaiting@.len() > 0 && pre.the_channel(channel_id).awaiting@[0].answer matches
                    Answer::AwaitingQueueDeclareOk(rid))
            } else {
                recv_refused(pre, post, channel_id, e)
            }
        },
    }
}

/// What `receive_queue_bind_ok` does, as a relation.
pub open spec fn receive_queue_bind_ok_post(
    pre: Connection,
    post: Connection,
    channel_id: u16,
    r: Result<(), Error>,
) -> bool {
    match r {
        Ok(()) => {
            &&& pre.the_channel(channel_id).connected()
            &&& pre.the_channel(channel_id).awaiting@.len() > 0
            &&& (pre.the_channel(channel_id).awaiting@[0].answer matches
                Answer::AwaitingQueueBindOk(rid, ex, rk) && recv_matched(
                pre,
                post,
                channel_id,
                rid,
            ) && {
                let c0 = pre.the_channel(channel_id);
                let c1 = post.the_channel(channel_id);
                &&& c1 == (Channel { awaiting: c1.awaiting, queues: c1.queues, ..c0 })
                &&& c1.queues@.len() == c0.queues@.len()
                &&& forall|x: int|
                    0 <= x < c0.queues@.len() ==> {
                        &&& (#[trigger] c1.queues@[x]) == (Queue {
                            bindings: c1.queues@[x].bindings,
                            ..c0.queues@[x]
                        })
                        &&& c1.queues@[x].bindings@.len() == c0.queues@[x].bindings@.len()
                        &&& forall|b: int|
                            0 <= b < c0.queues@[x].bindings@.len() ==> #[trigger] c1
                                .queues@[x].bindings@[b] == (if (
                            c0.queues@[x].bindings@[b].exchange@ == ex@
                                && c0.queues@[x].bindings@[b].routing_key@ == rk@) {
                                Binding { active: true, ..c0.queues@[x].bindings@[b] }
                            } else {
                                c0.queues@[x].bindings@[b]
                            })
                    }
            })
            &&& post.prefetch_size == pre.prefetch_size
            &&& post.prefetch_count == pre.prefetch_count
        },
        Err(e) => {
            if e == Error::UnexpectedAnswer {
                &&& pre.the_channel(channel_id).connected()
                &&& recv_mismatch(pre, post, channel_id)
                &&& !(pre.the_channel(channel_id).awaiting@.len() > 0 && pre.the_channel(channel_id).awaiting@[0].answer matches
                    Answer::AwaitingQueueBindOk(rid, ex, rk))
            } else {
                recv_refused(pre, post, channel_id, e)
            }
        },
    }
}

/// What `receive_queue_purge_ok` does, as a relation.
pub open spec fn receive_queue_purge_ok_post(
    pre: Connection,
    post: Connection,
    channel_id: u16,
    r: Result<(), Error>,
) -> bool {
    match r {
        Ok(()) => {
            &&& pre.the_channel(channel_id).connected()
            &&& pre.the_channel(channel_id).awaiting@.len() > 0
            &&& (pre.the_channel(channel_id).awaiting@[0].answer matches
                Answer::AwaitingQueuePurgeOk(rid, q) && recv_matched(
                pre,
                post,
                channel_id,
                rid,
            ))
            &&& post.prefetch_size == pre.prefetch_size
            &&& post.prefetch_count == pre.prefetch_count
            &&& post.the_channel(channel_id) == (Channel {
                awaiting: post.the_channel(channel_id).awaiting,
                ..pre.the_channel(channel_id)
            })
        },
        Err(e) => {
            if e == Error::UnexpectedAnswer {
                &&& pre.the_channel(channel_id).connected()
                &&& recv_mismatch(pre, post, channel_id)
                &&& !(pre.the_channel(channel_id).awaiting@.len() > 0 && pre.the_channel(channel_id).awaiting@[0].answer matches
                    Answer::AwaitingQueuePurgeOk(rid, q))
            } else {
                recv_refused(pre, post, channel_id, e)
            }
        },
    }
}

/// What `receive_queue_delete_ok` does, as a relation.
pub open spec fn receive_queue_delete_ok_post(
    pre: Connection,
    post: Connection,
    channel_id: u16,
    r: Result<(), Error>,
) -> bool {
    match r {
        Ok(()) => {
            &&& pre.the_channel(channel_id).connected()
            &&& pre.the_channel(channel_id).awaiting@.len() > 0
            &&& (pre.the_channel(channel_id).awaiting@[0].answer matches
                Answer::AwaitingQueueDeleteOk(rid, q) && recv_matched(
                pre,
                post,
                channel_id,
                rid,
            ) && {
                let c0 = pre.the_channel(channel_id);
                let c1 = post.the_channel(channel_id);
                &&& c1 == (Channel { awaiting: c1.awaiting, queues: c1.queues, ..c0 })
                &&& if c0.has_queue(q@) {
                    c1.queues@ == c0.queues@.remove(c0.queue_idx(q@))
                } else {
                    c1.queues@ == c0.queues@
                }
            })
            &&& post.prefetch_size == pre.prefetch_size
            &&& post.prefetch_count == pre.prefetch_count
        },
        Err(e) => {
            if e == Error::UnexpectedAnswer {
                &&& pre.the_channel(channel_id).connected()
                &&& recv_mismatch(pre, post, channel_id)
                &&& !(pre.the_channel(channel_id).awaiting@.len() > 0 && pre.the_channel(channel_id).awaiting@[0].answer matches
                    Answer::AwaitingQueueDeleteOk(rid, q))
            } else {
                recv_refused(pre, post, channel_id, e)
            }
        },
    }
}

/// What `receive_queue_unbind_ok` does, as a relation.
pub open spec fn receive_queue_unbind_ok_post(
    pre: Connection,
    post: Connection,
    channel_id: u16,
    r: Result<(), Error>,
) -> bool {
    match r {
        Ok(()) => {
            &&& pre.the_channel(channel_id).connected()
            &&& pre.the_channel(channel_id).awaiting@.len() > 0
            &&& (pre.the_channel(channel_id).awaiting@[0].answer matches
                Answer::AwaitingQueueUnbindOk(rid, ex, rk) && recv_matched(
                pre,
                post,
                channel_id,
                rid,
            ) && {
                let c0 = pre.the_channel(channel_id);
                let c1 = post.the_channel(channel_id);
                &&& c1 == (Channel { awaiting: c1.awaiting, queues: c1.queues, ..c0 })
                &&& c1.queues@.len() == c0.queues@.len()
                &&& forall|x: int|
                    0 <= x < c0.queues@.len() ==> {
                        &&& (#[trigger] c1.queues@[x]) == (Queue {
                            bindings: c1.queues@[x].bindings,
                            ..c0.queues@[x]
                        })
                        &&& c1.queues@[x].bindings@ == bindings_without(
                            c0.queues@[x].bindings@,
                            ex@,
                            rk@,
                        )
                    }
            })
            &&& post.prefetch_size == pre.prefetch_size
            &&& post.prefetch_count == pre.prefetch_count
        },
        Err(e) => {
            if e == Error::UnexpectedAnswer {
                &&& pre.the_channel(channel_id).connected()
                &&& recv_mismatch(pre, post, channel_id)
                &&& !(pre.the_channel(channel_id).awaiting@.len() > 0 && pre.the_channel(channel_id).awaiting@[0].answer matches
                    Answer::AwaitingQueueUnbindOk(rid, ex, rk))
            } else {
                recv_refused(pre, post, channel_id, e)
            }
        },
    }
}

impl Connection {
    /// `queue.declare`: record the queue under its name (flags as requested,
    /// nothing confirmed yet) and await `declare-ok`.
    pub fn queue_declare(
        &mut self,
        channel_id: u16,
        ticket: u16,
        queue: String,
        passive: bool,
        durable: bool,
        exclusive: bool,
        auto_delete: bool,
        nowait: bool,
        arguments: FieldTable,
    ) -> (r: Result<RequestId, Error>)
        requires
            old(self).wf(),
            old(self).can_request(),
        ensures
            final(self).wf(),
            match r {
                Ok(rid) => {
                    &&& rid == old(self).request_index
                    &&& old(self).the_channel(channel_id).connected()
                    &&& requested(
                        *old(self),
                        *final(self),
                        channel_id,
                        Method::QueueDeclare {
                            ticket,
                            queue,
                            passive,
                            durable,
                            exclusive,
                            auto_delete,
                            nowait,
                            arguments,
                        },
                        Answer::AwaitingQueueDeclareOk(rid),
                    )
                    &&& {
                        let c0 = old(self).the_channel(channel_id);
                        let c1 = final(self).the_channel(channel_id);
                        &&& c1.has_queue(queue@)
                        &&& fresh_queue(
                            c1.the_queue(queue@),
                            queue@,
                            passive,
                            durable,
                            exclusive,
                            auto_delete,
                        )
                        &&& if c0.has_queue(queue@) {
                            c1.queues@ == c0.queues@.update(
                                c0.queue_idx(queue@),
                                c1.the_queue(queue@),
                            )
                        } else {
                            c1.queues@ == c0.queues@.push(c1.the_queue(queue@))
                        }
                    }
                },
                Err(e) => op_failed(*old(self), *final(self), channel_id, e),
            },
    {
        let i = match self.require_connected_state(channel_id) {
            Ok(i) => i,
            Err(e) => {
                return Err(e);
            },
        };
        let request_id = self.next_request_id();
        let q = Queue::new(queue.clone(), passive, durable, exclusive, auto_delete);
        self.channels[i].upsert_queue(q);
        proof {
            let pre = *old(self);
            assert(self.channels@ =~= pre.channels@.update(i as int, self.channels@[i as int]));
            assert(self.channels_unique());
            self.lemma_channel_idx(channel_id, i as int);
            pre.lemma_channel_idx(channel_id, i as int);
            assert forall|x: int|
                0 <= x < self.channels@.len() implies crate::connection::awaiting_resolvers_valid(
                (#[trigger] self.channels@[x]).awaiting@,
                self.promises.len(),
            ) by {
                assert(crate::connection::awaiting_resolvers_valid(
                    pre.channels@[x].awaiting@,
                    pre.promises.len(),
                ));
            }
            let c1 = self.channels@[i as int];
            assert(c1.has_queue(queue@)) by {
                let c0 = pre.channels@[i as int];
                if c0.has_queue(queue@) {
                    assert(c1.queues@[c0.queue_idx(queue@)].name@ == queue@);
                } else {
                    assert(c1.queues@.last().name@ == queue@);
                }
            }
            c1.lemma_queue_idx(queue@, c1.queue_idx(queue@));
        }
        let ghost mid = *self;
        self.submit(
            i,
            channel_id,
            Method::QueueDeclare {
                ticket,
                queue,
                passive,
                durable,
                exclusive,
                auto_delete,
                nowait,
                arguments,
            },
            Answer::AwaitingQueueDeclareOk(request_id),
        );
        proof {
            assert(final(self).the_channel(channel_id).queues@ == mid.the_channel(
                channel_id,
            ).queues@);
        }
        Ok(request_id)
    }

    /// `queue.declare-ok`: the oldest expectation must be
    /// `AwaitingQueueDeclareOk`; the named queue takes the broker's counts
    /// and is marked created.
    pub fn receive_queue_declare_ok(
        &mut self,
        channel_id: u16,
        queue: String,
        message_count: u32,
        consumer_count: u32,
    ) -> (r: Result<(), Error>)
        requires
            old(self).wf(),
        ensures
            final(self).wf(),
            receive_queue_declare_ok_post(*old(self), *final(self), channel_id, queue, message_count, consumer_count, r),
    {
        let i = match self.check_connected(channel_id) {
            Ok(i) => i,
            Err(e) => {
                return Err(e);
            },
        };
        let popped = self.pop_answer(i, channel_id);
        let reply = match popped {
            Some(reply) => reply,
            None => {
                self.mark_unexpected(i, channel_id, None);
                return Err(Error::UnexpectedAnswer);
            },
        };
        let resolver = reply.resolver;
        match reply.answer {
            Answer::AwaitingQueueDeclareOk(request_id) => {
                let ghost mid = *self;
                self.channels[i].apply_queue_declare_ok(&queue, message_count, consumer_count);
                self.promises.complete(resolver, PromiseState::Resolved);
                self.finished_reqs.push(request_id);
                proof {
                    let pre = *old(self);
                    assert(self.channels@ =~= pre.channels@.update(
                        i as int,
                        self.channels@[i as int],
                    ));
                    assert(self.channels_unique());
                    self.lemma_channel_idx(channel_id, i as int);
                    assert(mid.channels@[i as int].queues@ == pre.channels@[i as int].queues@);
                }
                Ok(())
            },
            _ => {
                self.mark_unexpected(i, channel_id, Some(resolver));
                Err(Error::UnexpectedAnswer)
            },
        }
    }

    /// `queue.bind`: record the requested binding (inactive until confirmed)
    /// and await `bind-ok`.
    pub fn queue_bind(
        &mut self,
        channel_id: u16,
        ticket: u16,
        queue: String,
        exchange: String,
        routing_key: String,
        nowait: bool,
        arguments: FieldTable,
    ) -> (r: Result<RequestId, Error>)
        requires
            old(self).wf(),
            old(self).can_request(),
        ensures
            final(self).wf(),
            match r {
                Ok(rid) => {
                    &&& rid == old(self).request_index
                    &&& old(self).the_channel(channel_id).connected()
                    &&& requested(
                        *old(self),
                        *final(self),
                        channel_id,
                        Method::QueueBind {
                            ticket,
                            queue,
                            exchange,
                            routing_key,
                            nowait,
                            arguments,
                        },
                        Answer::AwaitingQueueBindOk(rid, exchange, routing_key),
                    )
                    &&& {
                        let c0 = old(self).the_channel(channel_id);
                        let c1 = final(self).the_channel(channel_id);
                        &&& c1.queues@.len() == c0.queues@.len()
                        &&& forall|x: int|
                            0 <= x < c0.queues@.len() ==> (#[trigger] c1.queues@[x]) == (Queue {
                                bindings: c1.queues@[x].bindings,
                                ..c0.queues@[x]
                            })
                        &&& forall|x: int|
                            0 <= x < c0.queues@.len() && c0.queues@[x].name@ != queue@
                                ==> #[trigger] c1.queues@[x] == c0.queues@[x]
                        &&& c0.has_queue(queue@) ==> c1.the_queue(queue@).bindings@.contains(
                            Binding {
                                exchange,
                                routing_key,
                                nowait,
                                active: false,
                            },
                        )
                    }
                },
                Err(e) => op_failed(*old(self), *final(self), channel_id, e),
            },
    {
        let i = match self.require_connected_state(channel_id) {
            Ok(i) => i,
            Err(e) => {
                return Err(e);
            },
        };
        let request_id = self.next_request_id();
        let binding = Binding::new(exchange.clone(), routing_key.clone(), nowait);
        proof {
            assert(binding == (Binding { exchange: binding.exchange, routing_key: binding.routing_key, nowait, active: false }));
        }
        self.channels[i].insert_binding(&queue, binding);
        proof {
            let pre = *old(self);
            assert(self.channels@ =~= pre.channels@.update(i as int, self.channels@[i as int]));
            assert(self.channels_unique());
            self.lemma_channel_idx(channel_id, i as int);
            pre.lemma_channel_idx(channel_id, i as int);
            assert forall|x: int|
                0 <= x < self.channels@.len() implies crate::connection::awaiting_resolvers_valid(
                (#[trigger] self.channels@[x]).awaiting@,
                self.promises.len(),
            ) by {
                assert(crate::connection::awaiting_resolvers_valid(
                    pre.channels@[x].awaiting@,
                    pre.promises.len(),
                ));
            }
        }
        let exchange_ctx = exchange.clone();
        let routing_key_ctx = routing_key.clone();
        let ghost mid = *self;
        self.submit(
            i,
            channel_id,
            Method::QueueBind { ticket, queue, exchange, routing_key, nowait, arguments },
            Answer::AwaitingQueueBindOk(request_id, exchange_ctx, routing_key_ctx),
        );
        proof {
            let pre = *old(self);
            let c0 = pre.the_channel(channel_id);
            let cm = mid.the_channel(channel_id);
            let c1 = final(self).the_channel(channel_id);
            assert(cm.queues@ == c1.queues@);
            assert(mid.channels@[i as int].wf());
            assert(final(self).channels@[i as int].wf());
            if c0.has_queue(queue@) {
                let b = Binding { exchange, routing_key, nowait, active: false };
                let j = c0.queue_idx(queue@);
                assert(c0.queues@[j].name@ == queue@);
                assert(cm.queues@[j].name@ == queue@);
                cm.lemma_queue_idx(queue@, j);
                assert(cm.the_queue(queue@).bindings@.contains(b));
                c1.lemma_queue_idx(queue@, j);
                assert(c1.the_queue(queue@) == cm.the_queue(queue@));
            }
        }
        Ok(request_id)
    }

    /// `queue.bind-ok`: the oldest expectation must be `AwaitingQueueBindOk`;
    /// every binding to its key, in every queue of the channel, is marked
    /// active.
    pub fn receive_queue_bind_ok(&mut self, channel_id: u16) -> (r: Result<(), Error>)
        requires
            old(self).wf(),
        ensures
            final(self).wf(),
            receive_queue_bind_ok_post(*old(self), *final(self), channel_id, r),
    {
        let i = match self.check_connected(channel_id) {
            Ok(i) => i,
            Err(e) => {
                return Err(e);
            },
        };
        let popped = self.pop_answer(i, channel_id);
        let reply = match popped {
            Some(reply) => reply,
            None => {
                self.mark_unexpected(i, channel_id, None);
                return Err(Error::UnexpectedAnswer);
            },
        };
        let resolver = reply.resolver;
        match reply.answer {
            Answer::AwaitingQueueBindOk(request_id, exchange, routing_key) => {
                let ghost mid = *self;
                self.channels[i].activate_bindings_all(&exchange, &routing_key);
                self.promises.complete(resolver, PromiseState::Resolved);
                self.finished_reqs.push(request_id);
                proof {
                    let pre = *old(self);
                    assert(self.channels@ =~= pre.channels@.update(
                        i as int,
                        self.channels@[i as int],
                    ));
                    assert(self.channels_unique());
                    self.lemma_channel_idx(channel_id, i as int);
                    assert(mid.channels@[i as int].queues@ == pre.channels@[i as int].queues@);
                }
                Ok(())
            },
            _ => {
                self.mark_unexpected(i, channel_id, Some(resolver));
                Err(Error::UnexpectedAnswer)
            },
        }
    }

    /// `queue.purge`: await `purge-ok`; the channel model is untouched.
    pub fn queue_purge(
        &mut self,
        channel_id: u16,
        ticket: u16,
        queue: String,
        nowait: bool,
    ) -> (r: Result<RequestId, Error>)
        requires
            old(self).wf(),
            old(self).can_request(),
        ensures
            final(self).wf(),
            match r {
                Ok(rid) => {
                    &&& rid == old(self).request_index
                    &&& old(self).the_channel(channel_id).connected()
                    &&& requested(
                        *old(self),
                        *final(self),
                        channel_id,
                        Method::QueuePurge { ticket, queue, nowait },
                        Answer::AwaitingQueuePurgeOk(rid, queue),
                    )
                    &&& final(self).the_channel(channel_id).queues@ == old(self).the_channel(
                        channel_id,
                    ).queues@
                },
                Err(e) => op_failed(*old(self), *final(self), channel_id, e),
            },
    {
        let i = match self.require_connected_state(channel_id) {
            Ok(i) => i,
            Err(e) => {
                return Err(e);
            },
        };
        let request_id = self.next_request_id();
        let queue_ctx = queue.clone();
        self.submit(
            i,
            channel_id,
            Method::QueuePurge { ticket, queue, nowait },
            Answer::AwaitingQueuePurgeOk(request_id, queue_ctx),
        );
        proof {
            assert(Answer::AwaitingQueuePurgeOk(request_id, queue_ctx)
                == Answer::AwaitingQueuePurgeOk(request_id, queue)) by {
                assert(queue_ctx@ == queue@);
            }
        }
        Ok(request_id)
    }

    /// `queue.purge-ok`: the oldest expectation must be
    /// `AwaitingQueuePurgeOk`; nothing else changes.
    pub fn receive_queue_purge_ok(&mut self, channel_id: u16, message_count: u32) -> (r: Result<
        (),
        Error,
    >)
        requires
            old(self).wf(),
        ensures
            final(self).wf(),
            receive_queue_purge_ok_post(*old(self), *final(self), channel_id, r),
    {
        let i = match self.check_connected(channel_id) {
            Ok(i) => i,
            Err(e) => {
                return Err(e);
            },
        };
        let popped = self.pop_answer(i, channel_id);
        let reply = match popped {
            Some(reply) => reply,
            None => {
                self.mark_unexpected(i, channel_id, None);
                return Err(Error::UnexpectedAnswer);
            },
        };
        let resolver = reply.resolver;
        match reply.answer {
            Answer::AwaitingQueuePurgeOk(request_id, _queue) => {
                self.promises.complete(resolver, PromiseState::Resolved);
                self.finished_reqs.push(request_id);
                proof {
                    self.lemma_channel_idx(channel_id, i as int);
                }
                Ok(())
            },
            _ => {
                self.mark_unexpected(i, channel_id, Some(resolver));
                Err(Error::UnexpectedAnswer)
            },
        }
    }

    /// `queue.delete`: await `delete-ok` carrying the queue name to drop.
    pub fn queue_delete(
        &mut self,
        channel_id: u16,
        ticket: u16,
        queue: String,
        if_unused: bool,
        if_empty: bool,
        nowait: bool,
    ) -> (r: Result<RequestId, Error>)
        requires
            old(self).wf(),
            old(self).can_request(),
        ensures
            final(self).wf(),
            match r {
                Ok(rid) => {
                    &&& rid == old(self).request_index
                    &&& old(self).the_channel(channel_id).connected()
                    &&& requested(
                        *old(self),
                        *final(self),
                        channel_id,
                        Method::QueueDelete { ticket, queue, if_unused, if_empty, nowait },
                        Answer::AwaitingQueueDeleteOk(rid, queue),
                    )
                    &&& final(self).the_channel(channel_id).queues@ == old(self).the_channel(
                        channel_id,
                    ).queues@
                },
                Err(e) => op_failed(*old(self), *final(self), channel_id, e),
            },
    {
        let i = match self.require_connected_state(channel_id) {
            Ok(i) => i,
            Err(e) => {
                return Err(e);
            },
        };
        let request_id = self.next_request_id();
        let queue_ctx = queue.clone();
        self.submit(
            i,
            channel_id,
            Method::QueueDelete { ticket, queue, if_unused, if_empty, nowait },
            Answer::AwaitingQueueDeleteOk(request_id, queue_ctx),
        );
        proof {
            assert(Answer::AwaitingQueueDeleteOk(request_id, queue_ctx)
                == Answer::AwaitingQueueDeleteOk(request_id, queue)) by {
                assert(queue_ctx@ == queue@);
            }
        }
        Ok(request_id)
    }

    /// `queue.delete-ok`: the oldest expectation must be
    /// `AwaitingQueueDeleteOk`; the queue it named is dropped from the
    /// channel.
    pub fn receive_queue_delete_ok(&mut self, channel_id: u16, message_count: u32) -> (r: Result<
        (),
        Error,
    >)
        requires
            old(self).wf(),
        ensures
            final(self).wf(),
            receive_queue_delete_ok_post(*old(self), *final(self), channel_id, r),
    {
        let i = match self.check_connected(channel_id) {
            Ok(i) => i,
            Err(e) => {
                return Err(e);
            },
        };
        let popped = self.pop_answer(i, channel_id);
        let reply = match popped {
            Some(reply) => reply,
            None => {
                self.mark_unexpected(i, channel_id, None);
                return Err(Error::UnexpectedAnswer);
            },
        };
        let resolver = reply.resolver;
        match reply.answer {
            Answer::AwaitingQueueDeleteOk(request_id, queue) => {
                let ghost mid = *self;
                self.channels[i].remove_queue(&queue);
                self.promises.complete(resolver, PromiseState::Resolved);
                self.finished_reqs.push(request_id);
                proof {
                    let pre = *old(self);
                    assert(self.channels@ =~= pre.channels@.update(
                        i as int,
                        self.channels@[i as int],
                    ));
                    assert(self.channels_unique());
                    self.lemma_channel_idx(channel_id, i as int);
                    assert(mid.channels@[i as int].queues@ == pre.channels@[i as int].queues@);
                }
                Ok(())
            },
            _ => {
                self.mark_unexpected(i, channel_id, Some(resolver));
                Err(Error::UnexpectedAnswer)
            },
        }
    }

    /// `queue.unbind`: await `unbind-ok` carrying the key to remove.
    pub fn queue_unbind(
        &mut self,
        channel_id: u16,
        ticket: u16,
        queue: String,
        exchange: String,
        routing_key: String,
        arguments: FieldTable,
    ) -> (r: Result<RequestId, Error>)
        requires
            old(self).wf(),
            old(self).can_request(),
        ensures
            final(self).wf(),
            match r {
                Ok(rid) => {
                    &&& rid == old(self).request_index
                    &&& old(self).the_channel(channel_id).connected()
                    &&& requested(
                        *old(self),
                        *final(self),
                        channel_id,
                        Method::QueueUnbind { ticket, queue, exchange, routing_key, arguments },
                        Answer::AwaitingQueueUnbindOk(rid, exchange, routing_key),
                    )
                    &&& final(self).the_channel(channel_id).queues@ == old(self).the_channel(
                        channel_id,
                    ).queues@
                },
                Err(e) => op_failed(*old(self), *final(self), channel_id, e),
            },
    {
        let i = match self.require_connected_state(channel_id) {
            Ok(i) => i,
            Err(e) => {
                return Err(e);
            },
        };
        let request_id = self.next_request_id();
        let exchange_ctx = exchange.clone();
        let routing_key_ctx = routing_key.clone();
        self.submit(
            i,
            channel_id,
            Method::QueueUnbind { ticket, queue, exchange, routing_key, arguments },
            Answer::AwaitingQueueUnbindOk(request_id, exchange_ctx, routing_key_ctx),
        );
        proof {
            assert(Answer::AwaitingQueueUnbindOk(request_id, exchange_ctx, routing_key_ctx)
                == Answer::AwaitingQueueUnbindOk(request_id, exchange, routing_key)) by {
                assert(exchange_ctx@ == exchange@);
                assert(routing_key_ctx@ == routing_key@);
            }
        }
        Ok(request_id)
    }

    /// `queue.unbind-ok`: the oldest expectation must be
    /// `AwaitingQueueUnbindOk`; every binding to its key, in every queue of
    /// the channel, is removed.
    pub fn receive_queue_unbind_ok(&mut self, channel_id: u16) -> (r: Result<(), Error>)
        requires
            old(self).wf(),
        ensures
            final(self).wf(),
            receive_queue_unbind_ok_post(*old(self), *final(self), channel_id, r),
    {
        let i = match self.check_connected(channel_id) {
            Ok(i) => i,
            Err(e) => {
                return Err(e);
            },
        };
        let popped = self.pop_answer(i, channel_id);
        let reply = match popped {
            Some(reply) => reply,
            None => {
                self.mark_unexpected(i, channel_id, None);
                return Err(Error::UnexpectedAnswer);
            },
        };
        let resolver = reply.resolver;
        match reply.answer {
            Answer::AwaitingQueueUnbindOk(request_id, exchange, routing_key) => {
                let ghost mid = *self;
                self.channels[i].remove_bindings_all(&exchange, &routing_key);
                self.promises.complete(resolver, PromiseState::Resolved);
                self.finished_reqs.push(request_id);
                proof {
                    let pre = *old(self);
                    assert(self.channels@ =~= pre.channels@.update(
                        i as int,
                        self.channels@[i as int],
                    ));
                    assert(self.channels_unique());
                    self.lemma_channel_idx(channel_id, i as int);
                    assert(mid.channels@[i as int].queues@ == pre.channels@[i as int].queues@);
                }
                Ok(())
            },
            _ => {
                self.mark_unexpected(i, channel_id, Some(resolver));
                Err(Error::UnexpectedAnswer)
            },
        }
    }
}

} // verus!
