//! The consumer delivery pipeline: assembly of one in-flight delivery at a
//! time, a FIFO of completed deliveries shared with the subscriber, and an
//! optional delegate that takes deliveries as they complete.
//!
//! The subscriber-facing queue is modelled directly: `deliveries` holds what
//! the subscriber has not yet pulled, `delegated` holds what has been handed
//! to the delegate for dispatch, and `wakes`/`waker_registered` model the
//! stream waker handshake.

use vstd::prelude::*;
use crate::error::Error;
use crate::frame::BasicProperties;

verus! {

/// One assembled message as handed to a subscriber.
#[derive(Debug, PartialEq, Eq)]
pub struct Delivery {
    pub delivery_tag: u64,
    pub exchange: String,
    pub routing_key: String,
    pub redelivered: bool,
    pub properties: BasicProperties,
    /// The size announced by the content header; a completed delivery's body
    /// always has exactly this many bytes.
    pub body_size: u64,
    pub body: Vec<u8>,
}

impl Delivery {
    /// A delivery as first seen from `basic.deliver`: no properties, no body.
    pub fn new(
        delivery_tag: u64,
        exchange: String,
        routing_key: String,
        redelivered: bool,
    ) -> (r: Delivery)
        ensures
            r.delivery_tag == delivery_tag,
            r.exchange@ == exchange@,
            r.routing_key@ == routing_key@,
            r.redelivered == redelivered,
            r.properties == (BasicProperties {
                content_type: None,
                content_encoding: None,
                correlation_id: None,
                delivery_mode: None,
                priority: None,
            }),
            r.body_size == 0,
            r.body@.len() == 0,
    {
        Delivery {
            delivery_tag,
            exchange,
            routing_key,
            redelivered,
            properties: BasicProperties::new(),
            body_size: 0,
            body: Vec::new(),
        }
    }
}

/// What a subscriber observes: a delivery, the end of the subscription, or an
/// error. Mirrors the resolution kinds of the delivery channel.
#[derive(Debug, PartialEq, Eq)]
pub enum DeliveryOutcome {
    Delivered(Delivery),
    Canceled,
    Failed(Error),
}

/// The result of polling a consumer as a stream.
#[derive(Debug, PartialEq, Eq)]
pub enum ConsumerPoll {
    Pending,
    Ready(Option<Result<Delivery, Error>>),
}

/// A push-style handler: the application installs one and every completed
/// delivery is handed to it instead of the pull queue.
pub trait ConsumerDelegate {
    fn on_new_delivery(&self, delivery: &DeliveryOutcome);

    fn drop_prefetched_messages(&self) {
    }
}

/// `wakes` after one wake of the registered task.
pub open spec fn wake_bump(w: u64) -> u64 {
    if w == u64::MAX {
        w
    } else {
        (w + 1) as u64
    }
}

/// Continuously consumes messages from one queue, under one consumer tag.
#[derive(Debug)]
pub struct Consumer {
    pub tag: String,
    pub no_local: bool,
    pub no_ack: bool,
    pub exclusive: bool,
    pub nowait: bool,
    /// The delivery currently being assembled from content frames.
    pub current_message: Option<Delivery>,
    /// Completed outcomes the subscriber has not pulled yet.
    pub deliveries: Vec<DeliveryOutcome>,
    pub has_delegate: bool,
    /// Outcomes handed over for delegate dispatch, oldest first.
    pub delegated: Vec<DeliveryOutcome>,
    /// Whether a stream task is registered to be woken.
    pub waker_registered: bool,
    /// How many times the registered task has been woken (saturating).
    pub wakes: u64,
}

impl Consumer {
    /// The consumer's identity and flags, which no operation changes.
    pub open spec fn same_identity(pre: Consumer, post: Consumer) -> bool {
        &&& post.tag@ == pre.tag@
        &&& post.no_local == pre.no_local
        &&& post.no_ack == pre.no_ack
        &&& post.exclusive == pre.exclusive
        &&& post.nowait == pre.nowait
    }

    /// Exactly one outcome was appended to the side completed deliveries go
    /// to; everything already queued is untouched.
    pub open spec fn publishes_completion(pre: Consumer, post: Consumer) -> bool {
        if pre.has_delegate {
            &&& post.delegated@.len() == pre.delegated@.len() + 1
            &&& post.delegated@.take(pre.delegated@.len() as int) == pre.delegated@
            &&& post.deliveries@ == pre.deliveries@
        } else {
            &&& post.deliveries@.len() == pre.deliveries@.len() + 1
            &&& post.deliveries@.take(pre.deliveries@.len() as int) == pre.deliveries@
            &&& post.delegated@ == pre.delegated@
        }
    }

    /// The outcome appended by the step from `pre` to `post`.
    pub open spec fn completion_outcome(pre: Consumer, post: Consumer) -> DeliveryOutcome {
        if pre.has_delegate {
            post.delegated@.last()
        } else {
            post.deliveries@.last()
        }
    }

    /// Where a completed outcome goes: to the delegate when one is installed,
    /// to the subscriber queue otherwise.
    pub open spec fn published(pre: Consumer, post: Consumer, outcome: DeliveryOutcome) -> bool {
        if pre.has_delegate {
            post.delegated@ == pre.delegated@.push(outcome) && post.deliveries@ == pre.deliveries@
        } else {
            post.deliveries@ == pre.deliveries@.push(outcome) && post.delegated@ == pre.delegated@
        }
    }

    pub fn new(consumer_tag: String) -> (r: Consumer)
        ensures
            r.tag@ == consumer_tag@,
            !r.no_local && !r.no_ack && !r.exclusive && !r.nowait,
            r.current_message is None,
            r.deliveries@.len() == 0,
            !r.has_delegate,
            r.delegated@.len() == 0,
            !r.waker_registered,
            r.wakes == 0,
    {
        Consumer {
            tag: consumer_tag,
            no_local: false,
            no_ack: false,
            exclusive: false,
            nowait: false,
            current_message: None,
            deliveries: Vec::new(),
            has_delegate: false,
            delegated: Vec::new(),
            waker_registered: false,
            wakes: 0,
        }
    }

    /// The consumer tag (server-assigned when the subscription gave none).
    pub fn tag(&self) -> (r: String)
        ensures
            r == self.tag,
    {
        self.tag.clone()
    }

    /// Begin assembling a new delivery.
    pub fn start_new_delivery(&mut self, delivery: Delivery)
        ensures
            *final(self) == (Consumer { current_message: Some(delivery), ..*old(self) }),
    {
        self.current_message = Some(delivery);
    }

    /// Store the content header's properties on the delivery being assembled.
    pub fn set_delivery_properties(&mut self, properties: BasicProperties)
        ensures
            match old(self).current_message {
                Some(m) => *final(self) == (Consumer {
                    current_message: Some(Delivery { properties, ..m }),
                    ..*old(self)
                }),
                None => *final(self) == (Consumer { current_message: None, ..*old(self) }),
            },
    {
        match &mut self.current_message {
            Some(delivery) => {
                delivery.properties = properties;
            },
            None => {},
        }
    }

    /// Record the body size announced by the content header.
    pub fn set_delivery_size(&mut self, body_size: u64)
        ensures
            match old(self).current_message {
                Some(m) => *final(self) == (Consumer {
                    current_message: Some(Delivery { body_size, ..m }),
                    ..*old(self)
                }),
                None => *final(self) == (Consumer { current_message: None, ..*old(self) }),
            },
    {
        match &mut self.current_message {
            Some(delivery) => {
                delivery.body_size = body_size;
            },
            None => {},
        }
    }

    /// Store the content header's properties and announced body size on the
    /// delivery being assembled, in one step.
    pub fn set_delivery_header(&mut self, properties: BasicProperties, body_size: u64)
        ensures
            match old(self).current_message {
                Some(m) => *final(self) == (Consumer {
                    current_message: Some(Delivery { properties, body_size, ..m }),
                    ..*old(self)
                }),
                None => *final(self) == (Consumer { current_message: None, ..*old(self) }),
            },
    {
        match &mut self.current_message {
            Some(delivery) => {
                delivery.properties = properties;
                delivery.body_size = body_size;
            },
            None => {},
        }
    }

    /// Discard the delivery being assembled: on error no partial delivery is
    /// surfaced.
    pub fn abort_delivery(&mut self)
        ensures
            *final(self) == (Consumer { current_message: None, ..*old(self) }),
    {
        self.current_message = None;
    }

    /// Append one content-body frame's payload to the delivery being
    /// assembled.
    pub fn receive_delivery_content(&mut self, payload: Vec<u8>)
        ensures
            match old(self).current_message {
                Some(m) => {
                    &&& final(self).current_message matches Some(m2)
                    &&& m2 == (Delivery { body: m2.body, ..m })
                    &&& m2.body@ == m.body@ + payload@
                    &&& *final(self) == (Consumer {
                        current_message: final(self).current_message,
                        ..*old(self)
                    })
                },
                None => *final(self) == (Consumer { current_message: None, ..*old(self) }),
            },
    {
        let mut payload = payload;
        match &mut self.current_message {
            Some(delivery) => {
                delivery.body.append(&mut payload);
            },
            None => {},
        }
    }

    /// Take the assembled delivery and publish it: to the delegate when one
    /// is installed, else to the subscriber queue, waking any registered
    /// task.
    pub fn new_delivery_complete(&mut self)
        ensures
            match old(self).current_message {
                Some(m) => {
                    &&& Consumer::same_identity(*old(self), *final(self))
                    &&& final(self).current_message is None
                    &&& Consumer::published(
                        *old(self),
                        *final(self),
                        DeliveryOutcome::Delivered(m),
                    )
                    &&& final(self).has_delegate == old(self).has_delegate
                    &&& final(self).waker_registered == old(self).waker_registered
                    &&& final(self).wakes == if old(self).waker_registered {
                        wake_bump(old(self).wakes)
                    } else {
                        old(self).wakes
                    }
                },
                None => *final(self) == *old(self),
            },
    {
        let current = self.current_message.take();
        match current {
            Some(delivery) => {
                if self.has_delegate {
                    self.delegated.push(DeliveryOutcome::Delivered(delivery));
                } else {
                    self.deliveries.push(DeliveryOutcome::Delivered(delivery));
                }
                if self.waker_registered && self.wakes < u64::MAX {
                    self.wakes = self.wakes + 1;
                }
            },
            None => {},
        }
    }

    /// Pop the oldest outcome the subscriber has not seen yet.
    pub fn next_delivery(&mut self) -> (r: Option<DeliveryOutcome>)
        ensures
            *final(self) == (Consumer { deliveries: final(self).deliveries, ..*old(self) }),
            match r {
                Some(outcome) => old(self).deliveries@.len() > 0 && outcome == old(
                    self,
                ).deliveries@[0] && final(self).deliveries@ == old(self).deliveries@.drop_first(),
                None => old(self).deliveries@.len() == 0 && final(self).deliveries@ == old(
                    self,
                ).deliveries@,
            },
    {
        if self.deliveries.len() == 0 {
            None
        } else {
            Some(self.deliveries.remove(0))
        }
    }

    /// Install a delegate. Outcomes already queued are flushed to it in
    /// order, so no message is dropped on the hand-off.
    pub fn set_delegate<D: ConsumerDelegate>(&mut self, delegate: &D)
        ensures
            Consumer::same_identity(*old(self), *final(self)),
            final(self).current_message == old(self).current_message,
            final(self).deliveries@.len() == 0,
            final(self).delegated@ == old(self).delegated@ + old(self).deliveries@,
            final(self).has_delegate,
            final(self).waker_registered == old(self).waker_registered,
            final(self).wakes == old(self).wakes,
    {
        loop
            invariant
                Consumer::same_identity(*old(self), *self),
                self.current_message == old(self).current_message,
                self.has_delegate == old(self).has_delegate,
                self.waker_registered == old(self).waker_registered,
                self.wakes == old(self).wakes,
                self.delegated@ + self.deliveries@ == old(self).delegated@ + old(
                    self,
                ).deliveries@,
            ensures
                self.deliveries@.len() == 0,
            decreases self.deliveries@.len(),
        {
            let outcome = match self.next_delivery() {
                Some(outcome) => outcome,
                None => {
                    break ;
                },
            };
            delegate.on_new_delivery(&outcome);
            self.delegated.push(outcome);
            proof {
                assert(self.delegated@ + self.deliveries@ == old(self).delegated@ + old(
                    self,
                ).deliveries@);
            }
        }
        self.has_delegate = true;
        proof {
            assert(self.deliveries@.len() == 0);
            assert(self.delegated@ == self.delegated@ + self.deliveries@);
        }
    }

    /// Drain everything the subscriber has not pulled. When a delegate is
    /// installed, telling it about the drain is the embedder's job: the
    /// consumer records only that a delegate exists (`has_delegate`), while
    /// the delegate object itself lives with the embedder, who calls its
    /// `drop_prefetched_messages` alongside this.
    pub fn drop_prefetched_messages(&mut self)
        ensures
            *final(self) == (Consumer { deliveries: final(self).deliveries, ..*old(self) }),
            final(self).deliveries@.len() == 0,
    {
        self.deliveries.clear();
    }

    /// Send the end-of-subscription sentinel and wake any registered task.
    pub fn cancel(&mut self)
        ensures
            Consumer::same_identity(*old(self), *final(self)),
            final(self).current_message == old(self).current_message,
            final(self).has_delegate == old(self).has_delegate,
            Consumer::published(*old(self), *final(self), DeliveryOutcome::Canceled),
            !final(self).waker_registered,
            final(self).wakes == if old(self).waker_registered {
                wake_bump(old(self).wakes)
            } else {
                old(self).wakes
            },
    {
        if self.has_delegate {
            self.delegated.push(DeliveryOutcome::Canceled);
        } else {
            self.deliveries.push(DeliveryOutcome::Canceled);
        }
        if self.waker_registered {
            if self.wakes < u64::MAX {
                self.wakes = self.wakes + 1;
            }
            self.waker_registered = false;
        }
    }

    /// Send the error to the subscriber, then cancel.
    pub fn set_error(&mut self, error: Error)
        ensures
            Consumer::same_identity(*old(self), *final(self)),
            final(self).current_message == old(self).current_message,
            final(self).has_delegate == old(self).has_delegate,
            if old(self).has_delegate {
                final(self).delegated@ == old(self).delegated@.push(
                    DeliveryOutcome::Failed(error),
                ).push(DeliveryOutcome::Canceled) && final(self).deliveries@ == old(
                    self,
                ).deliveries@
            } else {
                final(self).deliveries@ == old(self).deliveries@.push(
                    DeliveryOutcome::Failed(error),
                ).push(DeliveryOutcome::Canceled) && final(self).delegated@ == old(
                    self,
                ).delegated@
            },
            !final(self).waker_registered,
            final(self).wakes == if old(self).waker_registered {
                wake_bump(old(self).wakes)
            } else {
                old(self).wakes
            },
    {
        if self.has_delegate {
            self.delegated.push(DeliveryOutcome::Failed(error));
        } else {
            self.deliveries.push(DeliveryOutcome::Failed(error));
        }
        self.cancel();
    }

    /// Poll the consumer as a stream: register the task's interest, then
    /// either hand out the oldest outcome or report `Pending`.
    pub fn poll_next(&mut self) -> (r: ConsumerPoll)
        ensures
            Consumer::same_identity(*old(self), *final(self)),
            final(self).current_message == old(self).current_message,
            final(self).has_delegate == old(self).has_delegate,
            final(self).delegated@ == old(self).delegated@,
            final(self).wakes == old(self).wakes,
            match r {
                ConsumerPoll::Pending => {
                    &&& old(self).deliveries@.len() == 0
                    &&& final(self).deliveries@ == old(self).deliveries@
                    &&& final(self).waker_registered
                },
                ConsumerPoll::Ready(item) => {
                    &&& old(self).deliveries@.len() > 0
                    &&& final(self).deliveries@ == old(self).deliveries@.drop_first()
                    &&& final(self).waker_registered
                    &&& match old(self).deliveries@[0] {
                        DeliveryOutcome::Delivered(m) => item == Some(Ok::<Delivery, Error>(m)),
                        DeliveryOutcome::Canceled => item is None,
                        DeliveryOutcome::Failed(e) => item == Some(Err::<Delivery, Error>(e)),
                    }
                },
            },
    {
        self.waker_registered = true;
        match self.next_delivery() {
            Some(DeliveryOutcome::Delivered(delivery)) => ConsumerPoll::Ready(Some(Ok(delivery))),
            Some(DeliveryOutcome::Canceled) => ConsumerPoll::Ready(None),
            Some(DeliveryOutcome::Failed(error)) => ConsumerPoll::Ready(Some(Err(error))),
            None => ConsumerPoll::Pending,
        }
    }

    /// How many times the registered stream task has been woken.
    pub fn wake_count(&self) -> (r: u64)
        ensures
            r == self.wakes,
    {
        self.wakes
    }
}

} // verus!
