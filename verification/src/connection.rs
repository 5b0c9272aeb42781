//! The connection: owner of the channel map, the outbound frame scheduler,
//! the promise store and the handshake state machine. Every synchronous
//! method on `channel.*`, `queue.*` and `basic.*` goes through here: it
//! checks the channel's state, queues the method frame, registers the
//! expected reply, and later matches the broker's answer against the oldest
//! expectation.

use vstd::prelude::*;
use crate::channel::{Answer, Channel, ChannelState, ExpectedReply, RequestId};
use crate::error::Error;
use crate::frame::{Frame, Method};
use crate::frames::Frames;
use crate::ids::ChannelIdAllocator;
use crate::promise::{complete_post, PromiseState, PromiseStore};

verus! {

/// Connection-level lifecycle, from the protocol header to `Connected`.
#[derive(Debug, PartialEq, Eq)]
pub enum ConnectionState {
    PreInit,
    SentProtocolHeader,
    ReceivedStart,
    SentStartOk,
    ReceivedTune,
    SentTuneOk,
    SentOpen,
    Connected,
    Closing,
    Closed,
    Error,
}

/// One step of the connection handshake, as observed by the state machine.
#[derive(Debug, PartialEq, Eq)]
pub enum HandshakeEvent {
    ProtocolHeaderSent,
    StartReceived,
    StartOkSent,
    /// The broker's tune offer: `channel_max`, `frame_max`, `heartbeat`.
    TuneReceived(u16, u32, u16),
    TuneOkSent,
    OpenSent,
    OpenOkReceived,
}

/// `min(client, server)` with 0 meaning "no limit".
pub open spec fn spec_negotiate_u16(client: u16, server: u16) -> u16 {
    if client == 0 {
        server
    } else if server == 0 {
        client
    } else if client < server {
        client
    } else {
        server
    }
}

/// `min(client, server)` with 0 meaning "no limit".
pub open spec fn spec_negotiate_u32(client: u32, server: u32) -> u32 {
    if client == 0 {
        server
    } else if server == 0 {
        client
    } else if client < server {
        client
    } else {
        server
    }
}

pub fn negotiate_u16(client: u16, server: u16) -> (r: u16)
    ensures
        r == spec_negotiate_u16(client, server),
{
    if client == 0 {
        server
    } else if server == 0 {
        client
    } else if client < server {
        client
    } else {
        server
    }
}

pub fn negotiate_u32(client: u32, server: u32) -> (r: u32)
    ensures
        r == spec_negotiate_u32(client, server),
{
    if client == 0 {
        server
    } else if server == 0 {
        client
    } else if client < server {
        client
    } else {
        server
    }
}

/// The handshake chain: each event is legal in exactly one state.
pub open spec fn handshake_legal(status: ConnectionState, event: HandshakeEvent) -> bool {
    match (status, event) {
        (ConnectionState::PreInit, HandshakeEvent::ProtocolHeaderSent) => true,
        (ConnectionState::SentProtocolHeader, HandshakeEvent::StartReceived) => true,
        (ConnectionState::ReceivedStart, HandshakeEvent::StartOkSent) => true,
        (ConnectionState::SentStartOk, HandshakeEvent::TuneReceived(..)) => true,
        (ConnectionState::ReceivedTune, HandshakeEvent::TuneOkSent) => true,
        (ConnectionState::SentTuneOk, HandshakeEvent::OpenSent) => true,
        (ConnectionState::SentOpen, HandshakeEvent::OpenOkReceived) => true,
        _ => false,
    }
}

/// Every resolver id the FIFO carries points into the promise store.
pub open spec fn awaiting_resolvers_valid(s: Seq<ExpectedReply>, n: nat) -> bool {
    forall|x: int| 0 <= x < s.len() ==> (#[trigger] s[x]).resolver < n
}

/// Whether some expected reply of the FIFO carries resolver `id`.
pub open spec fn awaiting_references(s: Seq<ExpectedReply>, id: int) -> bool {
    exists|x: int| 0 <= x < s.len() && (#[trigger] s[x]).resolver as int == id
}

/// One connection to a broker.
#[derive(Debug)]
pub struct Connection {
    pub status: ConnectionState,
    pub channels: Vec<Channel>,
    pub frames: Frames,
    pub promises: PromiseStore,
    pub allocator: ChannelIdAllocator,
    /// Request ids whose replies have been processed, for idempotent lookup.
    pub finished_reqs: Vec<RequestId>,
    /// The next request id; monotonic, never reused within the connection.
    pub request_index: u64,
    /// Connection-level prefetch window (`basic.qos` with `global`).
    pub prefetch_size: u32,
    pub prefetch_count: u16,
    pub channel_max: u16,
    pub frame_max: u32,
    pub heartbeat: u16,
    /// Global flow: cleared by `connection.blocked`, set by `unblocked`.
    pub flow_enabled: bool,
}

/// The scheduler lanes are untouched.
pub open spec fn frames_unchanged(pre: Connection, post: Connection) -> bool {
    &&& post.frames.retry_frames@ == pre.frames.retry_frames@
    &&& post.frames.publish_frames@ == pre.frames.publish_frames@
    &&& post.frames.frames@ == pre.frames.frames@
    &&& post.frames.low_prio_frames@ == pre.frames.low_prio_frames@
}

/// Everything except the channels, the lanes and the promises is untouched.
pub open spec fn config_unchanged(pre: Connection, post: Connection) -> bool {
    &&& post.status == pre.status
    &&& post.allocator == pre.allocator
    &&& post.finished_reqs@ == pre.finished_reqs@
    &&& post.request_index == pre.request_index
    &&& post.prefetch_size == pre.prefetch_size
    &&& post.prefetch_count == pre.prefetch_count
    &&& post.channel_max == pre.channel_max
    &&& post.frame_max == pre.frame_max
    &&& post.heartbeat == pre.heartbeat
    &&& post.flow_enabled == pre.flow_enabled
}

/// Nothing observable changed at all.
pub open spec fn unchanged(pre: Connection, post: Connection) -> bool {
    &&& post.channels@ == pre.channels@
    &&& frames_unchanged(pre, post)
    &&& post.promises.slots@ == pre.promises.slots@
    &&& config_unchanged(pre, post)
}

/// The channel set is the same and every channel other than `id` is
/// untouched.
pub open spec fn channels_frame(pre: Connection, post: Connection, id: u16) -> bool {
    &&& post.channels@.len() == pre.channels@.len()
    &&& forall|x: int|
        0 <= x < pre.channels@.len() ==> (#[trigger] post.channels@[x]).id == pre.channels@[x].id
    &&& forall|x: int|
        0 <= x < pre.channels@.len() && pre.channels@[x].id != id ==> #[trigger] post.channels@[x]
            == pre.channels@[x]
}

/// The channel moved to `Error`; nothing else changed.
pub open spec fn to_error(pre: Connection, post: Connection, id: u16) -> bool {
    &&& channels_frame(pre, post, id)
    &&& pre.has_channel(id)
    &&& post.the_channel(id) == (Channel { state: ChannelState::Error, ..pre.the_channel(id) })
    &&& frames_unchanged(pre, post)
    &&& post.promises.slots@ == pre.promises.slots@
    &&& config_unchanged(pre, post)
}

/// Reply routing when the head of the FIFO was missing or not the expected
/// kind: the channel moves to `Error` and the popped promise (if any) fails
/// with `UnexpectedAnswer`.
pub open spec fn recv_mismatch(pre: Connection, post: Connection, channel_id: u16) -> bool {
    &&& pre.has_channel(channel_id)
    &&& channels_frame(pre, post, channel_id)
    &&& frames_unchanged(pre, post)
    &&& config_unchanged(pre, post)
    &&& {
        let c0 = pre.the_channel(channel_id);
        let c1 = post.the_channel(channel_id);
        &&& c1.state is Error
        &&& c1 == (Channel { state: c1.state, awaiting: c1.awaiting, ..c0 })
        &&& if c0.awaiting@.len() == 0 {
            c1.awaiting@ == c0.awaiting@ && post.promises.slots@ == pre.promises.slots@
        } else {
            c1.awaiting@ == c0.awaiting@.drop_first() && complete_post(
                pre.promises,
                post.promises,
                c0.awaiting@[0].resolver as int,
                PromiseState::Failed(Error::UnexpectedAnswer),
            )
        }
    }
}

/// Reply routing when the head matched: it left the FIFO in order, its
/// promise resolved with success, and its request id was recorded. What else
/// the reply did to the channel is stated by each handler.
pub open spec fn recv_matched(
    pre: Connection,
    post: Connection,
    channel_id: u16,
    rid: RequestId,
) -> bool {
    &&& pre.has_channel(channel_id)
    &&& channels_frame(pre, post, channel_id)
    &&& frames_unchanged(pre, post)
    &&& post.status == pre.status
    &&& post.allocator == pre.allocator
    &&& post.request_index == pre.request_index
    &&& post.channel_max == pre.channel_max
    &&& post.frame_max == pre.frame_max
    &&& post.heartbeat == pre.heartbeat
    &&& post.flow_enabled == pre.flow_enabled
    &&& post.finished_reqs@ == pre.finished_reqs@.push(rid)
    &&& {
        let c0 = pre.the_channel(channel_id);
        let c1 = post.the_channel(channel_id);
        &&& c0.awaiting@.len() > 0
        &&& c1.awaiting@ == c0.awaiting@.drop_first()
        &&& complete_post(
            pre.promises,
            post.promises,
            c0.awaiting@[0].resolver as int,
            PromiseState::Resolved,
        )
    }
}

/// What an asynchronous method send does: one method frame in the normal
/// lane carrying a fresh write promise; nothing else moves.
pub open spec fn sent(pre: Connection, post: Connection, channel_id: u16, m: Method) -> bool {
    &&& pre.has_channel(channel_id)
    &&& post.channels@ == pre.channels@
    &&& config_unchanged(pre, post)
    &&& post.promises.slots@ == pre.promises.slots@.push(PromiseState::Pending)
    &&& post.frames.frames@.len() == pre.frames.frames@.len() + 1
    &&& post.frames.frames@.take(pre.frames.frames@.len() as int) == pre.frames.frames@
    &&& post.frames.frames@.last().frame == Frame::Method(channel_id, m)
    &&& (post.frames.frames@.last().resolver matches Some(w) && w as int == pre.promises.len())
    &&& post.frames.retry_frames@ == pre.frames.retry_frames@
    &&& post.frames.publish_frames@ == pre.frames.publish_frames@
    &&& post.frames.low_prio_frames@ == pre.frames.low_prio_frames@
}

/// What every synchronous method call does on success: one method frame in
/// the normal lane carrying a fresh write promise, one expected reply at the
/// back of the channel's FIFO carrying a fresh reply promise, the request
/// counter advanced. The channel's queues may change too; each operation
/// states that itself.
pub open spec fn requested(
    pre: Connection,
    post: Connection,
    channel_id: u16,
    m: Method,
    reply: Answer,
) -> bool {
    &&& pre.has_channel(channel_id)
    &&& post.request_index == pre.request_index + 1
    &&& post.finished_reqs@ == pre.finished_reqs@
    &&& post.status == pre.status
    &&& post.allocator == pre.allocator
    &&& post.prefetch_size == pre.prefetch_size
    &&& post.prefetch_count == pre.prefetch_count
    &&& post.channel_max == pre.channel_max
    &&& post.frame_max == pre.frame_max
    &&& post.heartbeat == pre.heartbeat
    &&& post.flow_enabled == pre.flow_enabled
    &&& post.promises.slots@ == pre.promises.slots@.push(PromiseState::Pending).push(
        PromiseState::Pending,
    )
    &&& post.frames.frames@.len() == pre.frames.frames@.len() + 1
    &&& post.frames.frames@.take(pre.frames.frames@.len() as int) == pre.frames.frames@
    &&& post.frames.frames@.last().frame == Frame::Method(channel_id, m)
    &&& (post.frames.frames@.last().resolver matches Some(w) && w as int == pre.promises.len())
    &&& post.frames.retry_frames@ == pre.frames.retry_frames@
    &&& post.frames.publish_frames@ == pre.frames.publish_frames@
    &&& post.frames.low_prio_frames@ == pre.frames.low_prio_frames@
    &&& channels_frame(pre, post, channel_id)
    &&& {
        let c0 = pre.the_channel(channel_id);
        let c1 = post.the_channel(channel_id);
        &&& c1.awaiting@.len() == c0.awaiting@.len() + 1
        &&& c1.awaiting@.take(c0.awaiting@.len() as int) == c0.awaiting@
        &&& c1.awaiting@.last().answer == reply
        &&& c1.awaiting@.last().resolver as int == pre.promises.len() + 1
        &&& c1.state == c0.state
        &&& c1.id == c0.id
        &&& c1.send_flow == c0.send_flow
        &&& c1.receive_flow == c0.receive_flow
        &&& c1.prefetch_size == c0.prefetch_size
        &&& c1.prefetch_count == c0.prefetch_count
    }
}

/// What `receive_channel_flow_ok` does, as a relation.
pub open spec fn receive_channel_flow_ok_post(
    pre: Connection,
    post: Connection,
    channel_id: u16,
    active: bool,
    r: Result<(), Error>,
) -> bool {
    match r {
        Ok(()) => {
            &&& pre.the_channel(channel_id).connected()
            &&& pre.the_channel(channel_id).awaiting@.len() > 0
            &&& (pre.the_channel(channel_id).awaiting@[0].answer matches
                Answer::AwaitingChannelFlowOk(rid) && recv_matched(
                pre,
                post,
                channel_id,
                rid,
            ))
            &&& post.prefetch_size == pre.prefetch_size
            &&& post.prefetch_count == pre.prefetch_count
            &&& post.the_channel(channel_id) == (Channel {
                receive_flow: active,
                awaiting: post.the_channel(channel_id).awaiting,
                ..pre.the_channel(channel_id)
            })
        },
        Err(e) => {
            if e == Error::UnexpectedAnswer {
                &&& pre.the_channel(channel_id).connected()
                &&& recv_mismatch(pre, post, channel_id)
                &&& !(pre.the_channel(channel_id).awaiting@.len() > 0 && pre.the_channel(channel_id).awaiting@[0].answer matches
                    Answer::AwaitingChannelFlowOk(rid))
            } else {
                recv_refused(pre, post, channel_id, e)
            }
        },
    }
}

/// What `receive_channel_open_ok` does, as a relation.
pub open spec fn receive_channel_open_ok_post(
    pre: Connection,
    post: Connection,
    channel_id: u16,
    r: Result<(), Error>,
) -> bool {
    match r {
        Ok(()) => {
            &&& pre.the_channel(channel_id).state is Initial
            &&& pre.the_channel(channel_id).awaiting@.len() > 0
            &&& (pre.the_channel(channel_id).awaiting@[0].answer matches
                Answer::AwaitingChannelOpenOk(rid) && recv_matched(
                pre,
                post,
                channel_id,
                rid,
            ))
            &&& post.prefetch_size == pre.prefetch_size
            &&& post.prefetch_count == pre.prefetch_count
            &&& post.the_channel(channel_id) == (Channel {
                state: ChannelState::Connected,
                awaiting: post.the_channel(channel_id).awaiting,
                ..pre.the_channel(channel_id)
            })
        },
        Err(e) => {
            if e == Error::InvalidChannel {
                &&& !pre.has_channel(channel_id)
                &&& unchanged(pre, post)
            } else if e == Error::InvalidState {
                &&& pre.has_channel(channel_id)
                &&& !(pre.the_channel(channel_id).state is Initial)
                &&& to_error(pre, post, channel_id)
            } else {
                &&& e == Error::UnexpectedAnswer
                &&& pre.the_channel(channel_id).state is Initial
                &&& recv_mismatch(pre, post, channel_id)
                &&& !(pre.the_channel(channel_id).awaiting@.len() > 0 && pre.the_channel(channel_id).awaiting@[0].answer matches
                    Answer::AwaitingChannelOpenOk(rid))
            }
        },
    }
}

/// What `receive_channel_flow` does, as a relation.
pub open spec fn receive_channel_flow_post(
    pre: Connection,
    post: Connection,
    channel_id: u16,
    active: bool,
    r: Result<(), Error>,
) -> bool {
    match r {
        Ok(()) => {
            &&& pre.the_channel(channel_id).connected()
            &&& channels_frame(pre, post, channel_id)
            &&& post.the_channel(channel_id) == (Channel {
                send_flow: active,
                ..pre.the_channel(channel_id)
            })
            &&& post.promises.slots@ == pre.promises.slots@.push(
                PromiseState::Pending,
            )
            &&& post.frames.frames@.len() == pre.frames.frames@.len() + 1
            &&& post.frames.frames@.take(pre.frames.frames@.len() as int)
                == pre.frames.frames@
            &&& post.frames.frames@.last().frame == Frame::Method(
                channel_id,
                Method::ChannelFlowOk { active },
            )
            &&& (post.frames.frames@.last().resolver matches Some(w) && w as int
                == pre.promises.len())
            &&& post.frames.retry_frames@ == pre.frames.retry_frames@
            &&& post.frames.publish_frames@ == pre.frames.publish_frames@
            &&& post.frames.low_prio_frames@ == pre.frames.low_prio_frames@
            &&& config_unchanged(pre, post)
        },
        Err(e) => recv_refused(pre, post, channel_id, e),
    }
}

/// What `receive_channel_close_ok` does, as a relation.
pub open spec fn receive_channel_close_ok_post(
    pre: Connection,
    post: Connection,
    channel_id: u16,
    r: Result<(), Error>,
) -> bool {
    match r {
        Ok(()) => {
            &&& pre.the_channel(channel_id).connected()
            &&& pre.the_channel(channel_id).awaiting@.len() > 0
            &&& (pre.the_channel(channel_id).awaiting@[0].answer matches
                Answer::AwaitingChannelCloseOk(rid) && recv_matched(
                pre,
                post,
                channel_id,
                rid,
            ))
            &&& post.prefetch_size == pre.prefetch_size
            &&& post.prefetch_count == pre.prefetch_count
            &&& post.the_channel(channel_id) == (Channel {
                state: ChannelState::Closed,
                awaiting: post.the_channel(channel_id).awaiting,
                ..pre.the_channel(channel_id)
            })
        },
        Err(e) => {
            if e == Error::UnexpectedAnswer {
                &&& pre.the_channel(channel_id).connected()
                &&& recv_mismatch(pre, post, channel_id)
                &&& !(pre.the_channel(channel_id).awaiting@.len() > 0 && pre.the_channel(channel_id).awaiting@[0].answer matches
                    Answer::AwaitingChannelCloseOk(rid))
            } else {
                recv_refused(pre, post, channel_id, e)
            }
        },
    }
}

/// What `receive_channel_close` does, as a relation: on a `Connected`
/// channel, every pending expectation fails with the close reason, the
/// channel is `Closed` with an empty FIFO, and a `channel.close-ok` with a
/// fresh write promise sits at the back of the normal lane.
pub open spec fn receive_channel_close_post(
    pre: Connection,
    post: Connection,
    channel_id: u16,
    reply_code: u16,
    reply_text: String,
    r: Result<(), Error>,
) -> bool {
    match r {
        Ok(()) => {
            &&& pre.the_channel(channel_id).connected()
            &&& channels_frame(pre, post, channel_id)
            &&& post.the_channel(channel_id) == (Channel {
                state: ChannelState::Closed,
                awaiting: post.the_channel(channel_id).awaiting,
                ..pre.the_channel(channel_id)
            })
            &&& post.the_channel(channel_id).awaiting@.len() == 0
            &&& post.promises.len() == pre.promises.len() + 1
            &&& post.promises.slot(pre.promises.len() as int) is Pending
            &&& forall|id: int|
                0 <= id < pre.promises.len() && !awaiting_references(
                    pre.the_channel(channel_id).awaiting@,
                    id,
                ) ==> post.promises.slot(id) == pre.promises.slot(id)
            &&& forall|id: int|
                0 <= id < pre.promises.len() && pre.promises.slot(id) is Pending
                    && awaiting_references(pre.the_channel(channel_id).awaiting@, id)
                    ==> post.promises.slot(id) == PromiseState::Failed(
                    Error::ChannelClosed(reply_code, reply_text),
                )
            &&& forall|id: int|
                0 <= id < pre.promises.len() && !(pre.promises.slot(id) is Pending)
                    ==> post.promises.slot(id) == pre.promises.slot(id)
            &&& post.frames.frames@.len() == pre.frames.frames@.len() + 1
            &&& post.frames.frames@.take(pre.frames.frames@.len() as int) == pre.frames.frames@
            &&& post.frames.frames@.last().frame == Frame::Method(
                channel_id,
                Method::ChannelCloseOk,
            )
            &&& post.frames.retry_frames@ == pre.frames.retry_frames@
            &&& post.frames.publish_frames@ == pre.frames.publish_frames@
            &&& post.frames.low_prio_frames@ == pre.frames.low_prio_frames@
            &&& config_unchanged(pre, post)
        },
        Err(e) => recv_refused(pre, post, channel_id, e),
    }
}

impl Connection {
    pub open spec fn has_channel(self, id: u16) -> bool {
        exists|x: int| 0 <= x < self.channels@.len() && self.channels@[x].id == id
    }

    pub open spec fn channel_idx(self, id: u16) -> int {
        choose|x: int| 0 <= x < self.channels@.len() && self.channels@[x].id == id
    }

    pub open spec fn the_channel(self, id: u16) -> Channel {
        self.channels@[self.channel_idx(id)]
    }

    pub open spec fn channels_unique(self) -> bool {
        forall|a: int, b: int|
            0 <= a < b < self.channels@.len() ==> (#[trigger] self.channels@[a]).id
                != (#[trigger] self.channels@[b]).id
    }

    /// Everything the connection's operations preserve: distinct channel ids
    /// drawn from the allocator, well-formed channels, and every resolver id
    /// pointing into the promise store.
    pub open spec fn wf(self) -> bool {
        &&& self.channels_unique()
        &&& forall|x: int| 0 <= x < self.channels@.len() ==> (#[trigger] self.channels@[x]).wf()
        &&& forall|x: int|
            0 <= x < self.channels@.len() ==> self.allocator.is_allocated(
                (#[trigger] self.channels@[x]).id,
            )
        &&& self.allocator.wf()
        &&& self.frames.resolvers_valid(self.promises.len())
        &&& forall|x: int|
            0 <= x < self.channels@.len() ==> awaiting_resolvers_valid(
                (#[trigger] self.channels@[x]).awaiting@,
                self.promises.len(),
            )
    }

    /// Room for one more request: a fresh request id and two promise slots.
    pub open spec fn can_request(self) -> bool {
        &&& self.request_index < u64::MAX
        &&& self.promises.len() + 2 <= usize::MAX
    }

    pub proof fn lemma_channel_idx(self, id: u16, i: int)
        requires
            self.channels_unique(),
            0 <= i < self.channels@.len(),
            self.channels@[i].id == id,
        ensures
            self.has_channel(id),
            self.channel_idx(id) == i,
    {
        assert(self.has_channel(id));
        let j = self.channel_idx(id);
        if i != j {
            if i < j {
                assert(self.channels@[i].id != self.channels@[j].id);
            } else {
                assert(self.channels@[j].id != self.channels@[i].id);
            }
        }
    }

    /// A fresh connection with the caller's preferences for the negotiation.
    pub fn new(channel_max: u16, frame_max: u32, heartbeat: u16) -> (r: Connection)
        ensures
            r.wf(),
            r.status is PreInit,
            r.channels@.len() == 0,
            r.frames.retry_frames@.len() == 0,
            r.frames.publish_frames@.len() == 0,
            r.frames.frames@.len() == 0,
            r.frames.low_prio_frames@.len() == 0,
            r.promises.len() == 0,
            r.finished_reqs@.len() == 0,
            r.request_index == 0,
            r.prefetch_size == 0,
            r.prefetch_count == 0,
            r.channel_max == channel_max,
            r.frame_max == frame_max,
            r.heartbeat == heartbeat,
            r.flow_enabled,
    {
        Connection {
            status: ConnectionState::PreInit,
            channels: Vec::new(),
            frames: Frames::new(),
            promises: PromiseStore::new(),
            allocator: ChannelIdAllocator::new(channel_max),
            finished_reqs: Vec::new(),
            request_index: 0,
            prefetch_size: 0,
            prefetch_count: 0,
            channel_max,
            frame_max,
            heartbeat,
            flow_enabled: true,
        }
    }

    /// Advance the handshake by one event. Each event is legal in exactly one
    /// state; anything out of order is connection-fatal. `TuneReceived`
    /// negotiates every limit as the minimum of the client's preference and
    /// the broker's offer, with 0 meaning "no limit".
    pub fn on_handshake(&mut self, event: HandshakeEvent) -> (r: Result<(), Error>)
        requires
            old(self).wf(),
            old(self).channels@.len() == 0,
        ensures
            final(self).wf(),
            final(self).channels@ == old(self).channels@,
            frames_unchanged(*old(self), *final(self)),
            final(self).promises.slots@ == old(self).promises.slots@,
            final(self).finished_reqs@ == old(self).finished_reqs@,
            final(self).request_index == old(self).request_index,
            final(self).prefetch_size == old(self).prefetch_size,
            final(self).prefetch_count == old(self).prefetch_count,
            final(self).flow_enabled == old(self).flow_enabled,
            r is Ok <==> handshake_legal(old(self).status, event),
            match r {
                Ok(()) => {
                    &&& match event {
                        HandshakeEvent::ProtocolHeaderSent => old(self).status is PreInit && final(self).status is SentProtocolHeader,
                        HandshakeEvent::StartReceived => old(self).status is SentProtocolHeader && final(self).status is ReceivedStart,
                        HandshakeEvent::StartOkSent => old(self).status is ReceivedStart && final(self).status is SentStartOk,
                        HandshakeEvent::TuneReceived(cm, fm, hb) => {
                            &&& old(self).status is SentStartOk
                            &&& final(self).status is ReceivedTune
                            &&& final(self).channel_max == spec_negotiate_u16(
                                old(self).channel_max,
                                cm,
                            )
                            &&& final(self).frame_max == spec_negotiate_u32(
                                old(self).frame_max,
                                fm,
                            )
                            &&& final(self).heartbeat == spec_negotiate_u16(
                                old(self).heartbeat,
                                hb,
                            )
                            &&& final(self).allocator.channel_max == final(self).channel_max
                            &&& forall|id: u16| !final(self).allocator.is_allocated(id)
                        },
                        HandshakeEvent::TuneOkSent => old(self).status is ReceivedTune && final(self).status is SentTuneOk,
                        HandshakeEvent::OpenSent => old(self).status is SentTuneOk && final(self).status is SentOpen,
                        HandshakeEvent::OpenOkReceived => old(self).status is SentOpen && final(self).status is Connected,
                    }
                    &&& (event matches HandshakeEvent::TuneReceived(..) || (final(self).channel_max
                        == old(self).channel_max && final(self).frame_max == old(self).frame_max
                        && final(self).heartbeat == old(self).heartbeat && final(self).allocator
                        == old(self).allocator))
                },
                Err(e) => {
                    &&& e == Error::InvalidState
                    &&& final(self).status is Error
                    &&& final(self).channel_max == old(self).channel_max
                    &&& final(self).frame_max == old(self).frame_max
                    &&& final(self).heartbeat == old(self).heartbeat
                    &&& final(self).allocator == old(self).allocator
                },
            },
    {
        let legal = match (&self.status, &event) {
            (ConnectionState::PreInit, HandshakeEvent::ProtocolHeaderSent) => true,
            (ConnectionState::SentProtocolHeader, HandshakeEvent::StartReceived) => true,
            (ConnectionState::ReceivedStart, HandshakeEvent::StartOkSent) => true,
            (ConnectionState::SentStartOk, HandshakeEvent::TuneReceived(..)) => true,
            (ConnectionState::ReceivedTune, HandshakeEvent::TuneOkSent) => true,
            (ConnectionState::SentTuneOk, HandshakeEvent::OpenSent) => true,
            (ConnectionState::SentOpen, HandshakeEvent::OpenOkReceived) => true,
            _ => false,
        };
        if !legal {
            self.status = ConnectionState::Error;
            return Err(Error::InvalidState);
        }
        match event {
            HandshakeEvent::ProtocolHeaderSent => {
                self.status = ConnectionState::SentProtocolHeader;
            },
            HandshakeEvent::StartReceived => {
                self.status = ConnectionState::ReceivedStart;
            },
            HandshakeEvent::StartOkSent => {
                self.status = ConnectionState::SentStartOk;
            },
            HandshakeEvent::TuneReceived(cm, fm, hb) => {
                self.channel_max = negotiate_u16(self.channel_max, cm);
                self.frame_max = negotiate_u32(self.frame_max, fm);
                self.heartbeat = negotiate_u16(self.heartbeat, hb);
                self.allocator = ChannelIdAllocator::new(self.channel_max);
                self.status = ConnectionState::ReceivedTune;
            },
            HandshakeEvent::TuneOkSent => {
                self.status = ConnectionState::SentTuneOk;
            },
            HandshakeEvent::OpenSent => {
                self.status = ConnectionState::SentOpen;
            },
            HandshakeEvent::OpenOkReceived => {
                self.status = ConnectionState::Connected;
            },
        }
        Ok(())
    }

    /// `connection.blocked` / `connection.unblocked`: toggle the global flow
    /// flag the scheduler is driven with.
    pub fn set_blocked(&mut self, blocked: bool)
        ensures
            *final(self) == (Connection { flow_enabled: !blocked, ..*old(self) }),
    {
        self.flow_enabled = !blocked;
    }

    pub fn find_channel(&self, id: u16) -> (r: Option<usize>)
        ensures
            match r {
                Some(i) => i < self.channels@.len() && self.channels@[i as int].id == id,
                None => forall|x: int|
                    0 <= x < self.channels@.len() ==> (#[trigger] self.channels@[x]).id != id,
            },
    {
        let mut i: usize = 0;
        while i < self.channels.len()
            invariant
                i <= self.channels@.len(),
                forall|x: int| 0 <= x < i ==> (#[trigger] self.channels@[x]).id != id,
            decreases self.channels@.len() - i,
        {
            if self.channels[i].id == id {
                return Some(i);
            }
            i = i + 1;
        }
        None
    }

    /// Open a fresh channel slot: lowest free id first, `Initial` state.
    /// Fails with `ChannelsLimitReached` once `channel_max` ids are in use.
    pub fn create_channel(&mut self) -> (r: Result<u16, Error>)
        requires
            old(self).wf(),
            old(self).status is Connected,
        ensures
            final(self).wf(),
            frames_unchanged(*old(self), *final(self)),
            final(self).promises.slots@ == old(self).promises.slots@,
            final(self).status == old(self).status,
            final(self).finished_reqs@ == old(self).finished_reqs@,
            final(self).request_index == old(self).request_index,
            match r {
                Ok(id) => {
                    &&& !old(self).has_channel(id)
                    &&& final(self).has_channel(id)
                    &&& final(self).channels@.len() == old(self).channels@.len() + 1
                    &&& final(self).channels@.take(old(self).channels@.len() as int) == old(self).channels@
                    &&& final(self).channels@.last().id == id
                    &&& final(self).channels@.last().state is Initial
                    &&& final(self).channels@.last().awaiting@.len() == 0
                    &&& final(self).channels@.last().queues@.len() == 0
                },
                Err(e) => {
                    &&& e == Error::ChannelsLimitReached
                    // only when the allocator is exhausted: no released id to
                    // reuse and no never-used id below `channel_max` left
                    &&& old(self).allocator.free@.len() == 0
                    &&& old(self).allocator.next > old(self).allocator.channel_max
                    &&& final(self).channels@ == old(self).channels@
                    &&& final(self).allocator.free@ == old(self).allocator.free@
                    &&& final(self).allocator.next == old(self).allocator.next
                    &&& final(self).allocator.channel_max == old(self).allocator.channel_max
                },
            },
    {
        let id = match self.allocator.allocate() {
            Ok(id) => id,
            Err(e) => {
                return Err(e);
            },
        };
        let ghost pre_channels = self.channels@;
        let channel = Channel::new(id);
        self.channels.push(channel);
        proof {
            assert forall|x: int|
                0 <= x < pre_channels.len() implies (#[trigger] self.channels@[x]) == pre_channels[x]
                by {}
            assert forall|a: int, b: int|
                0 <= a < b < self.channels@.len() implies (#[trigger] self.channels@[a]).id
                != (#[trigger] self.channels@[b]).id by {
                if b < self.channels@.len() - 1 {
                    assert(old(self).channels@[a].id != old(self).channels@[b].id);
                } else {
                    assert(old(self).allocator.is_allocated(old(self).channels@[a].id));
                }
            }
            assert(self.channels@.last().id == id);
            self.lemma_channel_idx(id, self.channels@.len() - 1);
            assert(self.channels@.take(pre_channels.len() as int) =~= pre_channels);
        }
        Ok(id)
    }

    /// Advance the request counter; each id is handed out once.
    pub(crate) fn next_request_id(&mut self) -> (r: u64)
        requires
            old(self).request_index < u64::MAX,
        ensures
            r == old(self).request_index,
            *final(self) == (Connection {
                request_index: (old(self).request_index + 1) as u64,
                ..*old(self)
            }),
    {
        let id = self.request_index;
        self.request_index = self.request_index + 1;
        id
    }

    /// Whether the reply to request `id` has been processed.
    pub fn is_finished(&self, id: RequestId) -> (r: bool)
        ensures
            r == self.finished_reqs@.contains(id),
    {
        let mut i: usize = 0;
        while i < self.finished_reqs.len()
            invariant
                i <= self.finished_reqs@.len(),
                forall|x: int| 0 <= x < i ==> self.finished_reqs@[x] != id,
            decreases self.finished_reqs@.len() - i,
        {
            if self.finished_reqs[i] == id {
                proof {
                    assert(self.finished_reqs@[i as int] == id);
                }
                return true;
            }
            i = i + 1;
        }
        false
    }

    /// The door every operation passes: the channel must exist and be
    /// `Connected`. A missing channel is `InvalidChannel`; a channel in any
    /// other state answers `InvalidState` and moves to `Error`.
    pub(crate) fn require_connected_state(&mut self, channel_id: u16) -> (r: Result<usize, Error>)
        requires
            old(self).wf(),
        ensures
            final(self).wf(),
            match r {
                Ok(i) => {
                    &&& *final(self) == *old(self)
                    &&& old(self).has_channel(channel_id)
                    &&& i == old(self).channel_idx(channel_id)
                    &&& i < old(self).channels@.len()
                    &&& old(self).the_channel(channel_id).connected()
                },
                Err(e) => {
                    if e == Error::InvalidChannel {
                        &&& !old(self).has_channel(channel_id)
                        &&& *final(self) == *old(self)
                    } else {
                        &&& e == Error::InvalidState
                        &&& old(self).has_channel(channel_id)
                        &&& !old(self).the_channel(channel_id).connected()
                        &&& to_error(*old(self), *final(self), channel_id)
                    }
                },
            },
    {
        let i = match self.find_channel(channel_id) {
            Some(i) => i,
            None => {
                return Err(Error::InvalidChannel);
            },
        };
        proof {
            old(self).lemma_channel_idx(channel_id, i as int);
        }
        if self.channels[i].is_connected() {
            Ok(i)
        } else {
            self.channels[i].state = ChannelState::Error;
            proof {
                assert(self.channels@ =~= old(self).channels@.update(
                    i as int,
                    self.channels@[i as int],
                ));
                assert(self.channels_unique());
                self.lemma_channel_idx(channel_id, i as int);
            }
            Err(Error::InvalidState)
        }
    }

    /// The state test for `channel.open`: the channel must exist and still be
    /// `Initial`.
    pub(crate) fn require_initial_state(&mut self, channel_id: u16) -> (r: Result<usize, Error>)
        requires
            old(self).wf(),
        ensures
            final(self).wf(),
            match r {
                Ok(i) => {
                    &&& *final(self) == *old(self)
                    &&& old(self).has_channel(channel_id)
                    &&& i == old(self).channel_idx(channel_id)
                    &&& i < old(self).channels@.len()
                    &&& old(self).the_channel(channel_id).state is Initial
                },
                Err(e) => {
                    if e == Error::InvalidChannel {
                        &&& !old(self).has_channel(channel_id)
                        &&& *final(self) == *old(self)
                    } else {
                        &&& e == Error::InvalidState
                        &&& old(self).has_channel(channel_id)
                        &&& !(old(self).the_channel(channel_id).state is Initial)
                        &&& to_error(*old(self), *final(self), channel_id)
                    }
                },
            },
    {
        let i = match self.find_channel(channel_id) {
            Some(i) => i,
            None => {
                return Err(Error::InvalidChannel);
            },
        };
        proof {
            old(self).lemma_channel_idx(channel_id, i as int);
        }
        if self.channels[i].is_initial() {
            Ok(i)
        } else {
            self.channels[i].state = ChannelState::Error;
            proof {
                assert(self.channels@ =~= old(self).channels@.update(
                    i as int,
                    self.channels@[i as int],
                ));
                assert(self.channels_unique());
                self.lemma_channel_idx(channel_id, i as int);
            }
            Err(Error::InvalidState)
        }
    }

    /// The read-only check the receive path uses: no state transition on
    /// failure, the reply is simply refused.
    pub(crate) fn check_connected(&self, channel_id: u16) -> (r: Result<usize, Error>)
        ensures
            match r {
                Ok(i) => {
                    &&& self.has_channel(channel_id)
                    &&& self.channels_unique() ==> i == self.channel_idx(channel_id)
                    &&& i < self.channels@.len()
                    &&& self.channels@[i as int].id == channel_id
                    &&& self.channels@[i as int].connected()
                },
                Err(e) => {
                    if e == Error::InvalidChannel {
                        !self.has_channel(channel_id)
                    } else {
                        &&& e == Error::InvalidState
                        &&& self.has_channel(channel_id)
                        &&& exists|x: int|
                            0 <= x < self.channels@.len() && (#[trigger] self.channels@[x]).id
                                == channel_id && !self.channels@[x].connected()
                    }
                },
            },
    {
        let i = match self.find_channel(channel_id) {
            Some(i) => i,
            None => {
                return Err(Error::InvalidChannel);
            },
        };
        proof {
            assert(self.has_channel(channel_id)) by {
                assert(self.channels@[i as int].id == channel_id);
            }
            if self.channels_unique() {
                self.lemma_channel_idx(channel_id, i as int);
            }
        }
        if self.channels[i].is_connected() {
            Ok(i)
        } else {
            Err(Error::InvalidState)
        }
    }

    /// Queue the method frame with a fresh write promise and register the
    /// expected reply with a fresh reply promise, at the back of the
    /// channel's FIFO.
    pub(crate) fn submit(&mut self, i: usize, channel_id: u16, m: Method, answer: Answer)
        requires
            old(self).wf(),
            old(self).promises.len() + 2 <= usize::MAX,
            i < old(self).channels@.len(),
            old(self).channels@[i as int].id == channel_id,
        ensures
            final(self).wf(),
            final(self).request_index == old(self).request_index,
            final(self).finished_reqs@ == old(self).finished_reqs@,
            final(self).status == old(self).status,
            final(self).allocator == old(self).allocator,
            final(self).prefetch_size == old(self).prefetch_size,
            final(self).prefetch_count == old(self).prefetch_count,
            final(self).channel_max == old(self).channel_max,
            final(self).frame_max == old(self).frame_max,
            final(self).heartbeat == old(self).heartbeat,
            final(self).flow_enabled == old(self).flow_enabled,
            final(self).promises.slots@ == old(self).promises.slots@.push(
                PromiseState::Pending,
            ).push(PromiseState::Pending),
            final(self).frames.frames@.len() == old(self).frames.frames@.len() + 1,
            final(self).frames.frames@.take(old(self).frames.frames@.len() as int) == old(self).frames.frames@,
            final(self).frames.frames@.last().frame == Frame::Method(channel_id, m),
            (final(self).frames.frames@.last().resolver matches Some(w) && w as int == old(self).promises.len()),
            final(self).frames.retry_frames@ == old(self).frames.retry_frames@,
            final(self).frames.publish_frames@ == old(self).frames.publish_frames@,
            final(self).frames.low_prio_frames@ == old(self).frames.low_prio_frames@,
            channels_frame(*old(self), *final(self), channel_id),
            final(self).channels@[i as int] == (Channel {
                awaiting: final(self).channels@[i as int].awaiting,
                ..old(self).channels@[i as int]
            }),
            final(self).channels@[i as int].awaiting@.len() == old(self).channels@[i as int].awaiting@.len() + 1,
            final(self).channels@[i as int].awaiting@.take(
                old(self).channels@[i as int].awaiting@.len() as int,
            ) == old(self).channels@[i as int].awaiting@,
            final(self).channels@[i as int].awaiting@.last().answer == answer,
            final(self).channels@[i as int].awaiting@.last().resolver as int == old(self).promises.len() + 1,
            final(self).channel_idx(channel_id) == i,
            old(self).channel_idx(channel_id) == i,
    {
        proof {
            old(self).lemma_channel_idx(channel_id, i as int);
        }
        let write_pid = self.promises.create();
        let reply_pid = self.promises.create();
        self.frames.push(Frame::Method(channel_id, m), write_pid);
        self.channels[i].push_answer(ExpectedReply { answer, resolver: reply_pid });
        proof {
            assert(self.channels@ =~= old(self).channels@.update(
                i as int,
                self.channels@[i as int],
            ));
            assert(self.channels_unique());
            self.lemma_channel_idx(channel_id, i as int);
            assert(self.frames.frames@.take(old(self).frames.frames@.len() as int)
                =~= old(self).frames.frames@);
            assert(self.channels@[i as int].awaiting@.take(
                old(self).channels@[i as int].awaiting@.len() as int,
            ) =~= old(self).channels@[i as int].awaiting@);
            assert forall|x: int|
                0 <= x < self.channels@.len() implies awaiting_resolvers_valid(
                (#[trigger] self.channels@[x]).awaiting@,
                self.promises.len(),
            ) by {
                assert(awaiting_resolvers_valid(
                    old(self).channels@[x].awaiting@,
                    old(self).promises.len(),
                ));
                if x == i {
                    assert forall|k: int|
                        0 <= k < self.channels@[x].awaiting@.len() implies (
                    #[trigger] self.channels@[x].awaiting@[k]).resolver < self.promises.len() by {
                        if k < self.channels@[x].awaiting@.len() - 1 {
                            assert(self.channels@[x].awaiting@[k] == old(self).channels@[x].awaiting@[k]);
                        }
                    }
                }
            }
        }
    }

    /// Queue one method frame with a fresh write promise; no reply expected.
    pub(crate) fn send_async(&mut self, channel_id: u16, m: Method)
        requires
            old(self).wf(),
            old(self).promises.len() < usize::MAX,
            old(self).has_channel(channel_id),
        ensures
            final(self).wf(),
            sent(*old(self), *final(self), channel_id, m),
    {
        let write_pid = self.promises.create();
        self.frames.push(Frame::Method(channel_id, m), write_pid);
        proof {
            assert(self.frames.frames@.take(old(self).frames.frames@.len() as int)
                =~= old(self).frames.frames@);
        }
    }
}

/// How an operation fails its state test: a missing channel leaves everything
/// untouched; a channel in the wrong state answers `InvalidState` and moves
/// to `Error`.
pub open spec fn op_failed(pre: Connection, post: Connection, channel_id: u16, e: Error) -> bool {
    if e == Error::InvalidChannel {
        !pre.has_channel(channel_id) && unchanged(pre, post)
    } else {
        &&& e == Error::InvalidState
        &&& pre.has_channel(channel_id)
        &&& !pre.the_channel(channel_id).connected()
        &&& to_error(pre, post, channel_id)
    }
}

/// How `channel.open` fails its state test: it requires `Initial` instead of
/// `Connected`.
pub open spec fn op_failed_initial(
    pre: Connection,
    post: Connection,
    channel_id: u16,
    e: Error,
) -> bool {
    if e == Error::InvalidChannel {
        !pre.has_channel(channel_id) && unchanged(pre, post)
    } else {
        &&& e == Error::InvalidState
        &&& pre.has_channel(channel_id)
        &&& !(pre.the_channel(channel_id).state is Initial)
        &&& to_error(pre, post, channel_id)
    }
}

/// How the receive path refuses a reply before looking at the FIFO: a
/// missing channel or one not `Connected`, nothing touched.
pub open spec fn recv_refused(pre: Connection, post: Connection, channel_id: u16, e: Error) -> bool {
    &&& unchanged(pre, post)
    &&& if e == Error::InvalidChannel {
        !pre.has_channel(channel_id)
    } else {
        e == Error::InvalidState && pre.has_channel(channel_id) && !pre.the_channel(
            channel_id,
        ).connected()
    }
}

impl Connection {
    /// `channel.open`: legal only while the channel is still `Initial`.
    pub fn channel_open(&mut self, channel_id: u16, out_of_band: String) -> (r: Result<
        RequestId,
        Error,
    >)
        requires
            old(self).wf(),
            old(self).can_request(),
        ensures
            final(self).wf(),
            match r {
                Ok(rid) => {
                    &&& rid == old(self).request_index
                    &&& old(self).the_channel(channel_id).state is Initial
                    &&& requested(
                        *old(self),
                        *final(self),
                        channel_id,
                        Method::ChannelOpen { out_of_band },
                        Answer::AwaitingChannelOpenOk(rid),
                    )
                    &&& final(self).the_channel(channel_id).queues@ == old(self).the_channel(
                        channel_id,
                    ).queues@
                },
                Err(e) => op_failed_initial(*old(self), *final(self), channel_id, e),
            },
    {
        let i = match self.require_initial_state(channel_id) {
            Ok(i) => i,
            Err(e) => {
                return Err(e);
            },
        };
        let request_id = self.next_request_id();
        self.submit(
            i,
            channel_id,
            Method::ChannelOpen { out_of_band },
            Answer::AwaitingChannelOpenOk(request_id),
        );
        Ok(request_id)
    }

    /// `channel.flow`: ask the broker to pause or resume deliveries to us.
    pub fn channel_flow(&mut self, channel_id: u16, active: bool) -> (r: Result<RequestId, Error>)
        requires
            old(self).wf(),
            old(self).can_request(),
        ensures
            final(self).wf(),
            match r {
                Ok(rid) => {
                    &&& rid == old(self).request_index
                    &&& old(self).the_channel(channel_id).connected()
                    &&& requested(
                        *old(self),
                        *final(self),
                        channel_id,
                        Method::ChannelFlow { active },
                        Answer::AwaitingChannelFlowOk(rid),
                    )
                    &&& final(self).the_channel(channel_id).queues@ == old(self).the_channel(
                        channel_id,
                    ).queues@
                },
                Err(e) => op_failed(*old(self), *final(self), channel_id, e),
            },
    {
        let i = match self.require_connected_state(channel_id) {
            Ok(i) => i,
            Err(e) => {
                return Err(e);
            },
        };
        let request_id = self.next_request_id();
        self.submit(
            i,
            channel_id,
            Method::ChannelFlow { active },
            Answer::AwaitingChannelFlowOk(request_id),
        );
        Ok(request_id)
    }

    /// `channel.flow-ok`: our answer to the broker's flow request; no reply
    /// is expected.
    pub fn channel_flow_ok(&mut self, channel_id: u16, active: bool) -> (r: Result<(), Error>)
        requires
            old(self).wf(),
            old(self).can_request(),
        ensures
            final(self).wf(),
            match r {
                Ok(()) => {
                    &&& old(self).the_channel(channel_id).connected()
                    &&& sent(
                        *old(self),
                        *final(self),
                        channel_id,
                        Method::ChannelFlowOk { active },
                    )
                },
                Err(e) => op_failed(*old(self), *final(self), channel_id, e),
            },
    {
        match self.require_connected_state(channel_id) {
            Ok(_) => {},
            Err(e) => {
                return Err(e);
            },
        }
        self.send_async(channel_id, Method::ChannelFlowOk { active });
        Ok(())
    }

    /// `channel.close`, client-initiated: the caller's promise resolves on
    /// the broker's `close-ok`.
    pub fn channel_close(
        &mut self,
        channel_id: u16,
        reply_code: u16,
        reply_text: String,
        class_id: u16,
        method_id: u16,
    ) -> (r: Result<RequestId, Error>)
        requires
            old(self).wf(),
            old(self).can_request(),
        ensures
            final(self).wf(),
            match r {
                Ok(rid) => {
                    &&& rid == old(self).request_index
                    &&& old(self).the_channel(channel_id).connected()
                    &&& requested(
                        *old(self),
                        *final(self),
                        channel_id,
                        Method::ChannelClose { reply_code, reply_text, class_id, method_id },
                        Answer::AwaitingChannelCloseOk(rid),
                    )
                    &&& final(self).the_channel(channel_id).queues@ == old(self).the_channel(
                        channel_id,
                    ).queues@
                },
                Err(e) => op_failed(*old(self), *final(self), channel_id, e),
            },
    {
        let i = match self.require_connected_state(channel_id) {
            Ok(i) => i,
            Err(e) => {
                return Err(e);
            },
        };
        let request_id = self.next_request_id();
        self.submit(
            i,
            channel_id,
            Method::ChannelClose { reply_code, reply_text, class_id, method_id },
            Answer::AwaitingChannelCloseOk(request_id),
        );
        Ok(request_id)
    }

    /// `channel.close-ok`, sent by us after a broker-initiated close. Legal
    /// while `Connected` or already `Closed`.
    pub fn channel_close_ok(&mut self, channel_id: u16) -> (r: Result<(), Error>)
        requires
            old(self).wf(),
            old(self).can_request(),
        ensures
            final(self).wf(),
            match r {
                Ok(()) => {
                    &&& (old(self).the_channel(channel_id).connected() || old(self).the_channel(
                        channel_id,
                    ).state is Closed)
                    &&& sent(*old(self), *final(self), channel_id, Method::ChannelCloseOk)
                },
                Err(e) => {
                    if e == Error::InvalidChannel {
                        &&& !old(self).has_channel(channel_id)
                        &&& unchanged(*old(self), *final(self))
                    } else {
                        &&& e == Error::InvalidState
                        &&& old(self).has_channel(channel_id)
                        &&& !(old(self).the_channel(channel_id).connected() || old(self).the_channel(channel_id).state is Closed)
                        &&& to_error(*old(self), *final(self), channel_id)
                    }
                },
            },
    {
        let i = match self.find_channel(channel_id) {
            Some(i) => i,
            None => {
                return Err(Error::InvalidChannel);
            },
        };
        proof {
            old(self).lemma_channel_idx(channel_id, i as int);
        }
        let legal = match self.channels[i].state {
            ChannelState::Connected => true,
            ChannelState::Closed => true,
            _ => false,
        };
        if !legal {
            self.channels[i].state = ChannelState::Error;
            proof {
                assert(self.channels@ =~= old(self).channels@.update(
                    i as int,
                    self.channels@[i as int],
                ));
                assert(self.channels_unique());
                self.lemma_channel_idx(channel_id, i as int);
            }
            return Err(Error::InvalidState);
        }
        self.send_async(channel_id, Method::ChannelCloseOk);
        Ok(())
    }

    /// Take the head of the channel's FIFO, bounds already implied by
    /// well-formedness.
    pub(crate) fn pop_answer(&mut self, i: usize, channel_id: u16) -> (r: Option<ExpectedReply>)
        requires
            old(self).wf(),
            i < old(self).channels@.len(),
            old(self).channels@[i as int].id == channel_id,
        ensures
            final(self).wf(),
            channels_frame(*old(self), *final(self), channel_id),
            frames_unchanged(*old(self), *final(self)),
            final(self).promises.slots@ == old(self).promises.slots@,
            config_unchanged(*old(self), *final(self)),
            final(self).channels@[i as int] == (Channel {
                awaiting: final(self).channels@[i as int].awaiting,
                ..old(self).channels@[i as int]
            }),
            old(self).channel_idx(channel_id) == i,
            final(self).channel_idx(channel_id) == i,
            match r {
                Some(reply) => {
                    &&& old(self).channels@[i as int].awaiting@.len() > 0
                    &&& reply == old(self).channels@[i as int].awaiting@[0]
                    &&& reply.resolver < old(self).promises.len()
                    &&& final(self).channels@[i as int].awaiting@ == old(self).channels@[i as int].awaiting@.drop_first()
                },
                None => {
                    &&& old(self).channels@[i as int].awaiting@.len() == 0
                    &&& final(self).channels@[i as int].awaiting@ == old(self).channels@[i as int].awaiting@
                },
            },
    {
        proof {
            old(self).lemma_channel_idx(channel_id, i as int);
        }
        let r = self.channels[i].next_expected_reply();
        proof {
            assert(self.channels@ =~= old(self).channels@.update(
                i as int,
                self.channels@[i as int],
            ));
            assert(self.channels_unique());
            self.lemma_channel_idx(channel_id, i as int);
            assert forall|x: int|
                0 <= x < self.channels@.len() implies awaiting_resolvers_valid(
                (#[trigger] self.channels@[x]).awaiting@,
                self.promises.len(),
            ) by {
                assert(awaiting_resolvers_valid(
                    old(self).channels@[x].awaiting@,
                    old(self).promises.len(),
                ));
                if x == i {
                    assert forall|k: int|
                        0 <= k < self.channels@[x].awaiting@.len() implies (
                    #[trigger] self.channels@[x].awaiting@[k]).resolver < self.promises.len() by {
                        assert(self.channels@[x].awaiting@[k] == old(self).channels@[x].awaiting@[k + 1]);
                    }
                }
            }
            match &r {
                Some(reply) => {
                    assert(*reply == old(self).channels@[i as int].awaiting@[0]);
                },
                None => {},
            }
        }
        r
    }

    /// The shared failure path of reply routing: the head did not match (or
    /// was missing), so the channel moves to `Error` and the popped promise,
    /// if any, fails with `UnexpectedAnswer`.
    pub(crate) fn mark_unexpected(&mut self, i: usize, channel_id: u16, resolver: Option<usize>)
        requires
            old(self).wf(),
            i < old(self).channels@.len(),
            old(self).channels@[i as int].id == channel_id,
            resolver matches Some(id) ==> id < old(self).promises.len(),
        ensures
            final(self).wf(),
            channels_frame(*old(self), *final(self), channel_id),
            frames_unchanged(*old(self), *final(self)),
            config_unchanged(*old(self), *final(self)),
            final(self).channels@[i as int] == (Channel {
                state: ChannelState::Error,
                ..old(self).channels@[i as int]
            }),
            final(self).channel_idx(channel_id) == i,
            old(self).channel_idx(channel_id) == i,
            match resolver {
                Some(id) => complete_post(
                    old(self).promises,
                    final(self).promises,
                    id as int,
                    PromiseState::Failed(Error::UnexpectedAnswer),
                ),
                None => final(self).promises.slots@ == old(self).promises.slots@,
            },
    {
        proof {
            old(self).lemma_channel_idx(channel_id, i as int);
        }
        self.channels[i].state = ChannelState::Error;
        match resolver {
            Some(id) => {
                self.promises.complete(
                    id,
                    PromiseState::Failed(Error::UnexpectedAnswer),
                );
            },
            None => {},
        }
        proof {
            assert(self.channels@ =~= old(self).channels@.update(
                i as int,
                self.channels@[i as int],
            ));
            assert(self.channels_unique());
            self.lemma_channel_idx(channel_id, i as int);
        }
    }

    /// `channel.flow-ok` from the broker: the oldest expectation must be
    /// `AwaitingChannelFlowOk`; its `active` answer is recorded on the
    /// channel.
    pub fn receive_channel_flow_ok(&mut self, channel_id: u16, active: bool) -> (r: Result<
        (),
        Error,
    >)
        requires
            old(self).wf(),
        ensures
            final(self).wf(),
            receive_channel_flow_ok_post(*old(self), *final(self), channel_id, active, r),
    {
        let i = match self.check_connected(channel_id) {
            Ok(i) => i,
            Err(e) => {
                return Err(e);
            },
        };
        let popped = self.pop_answer(i, channel_id);
        let reply = match popped {
            Some(reply) => reply,
            None => {
                self.mark_unexpected(i, channel_id, None);
                return Err(Error::UnexpectedAnswer);
            },
        };
        let resolver = reply.resolver;
        match reply.answer {
            Answer::AwaitingChannelFlowOk(request_id) => {
                self.channels[i].receive_flow = active;
                self.promises.complete(resolver, PromiseState::Resolved);
                self.finished_reqs.push(request_id);
                proof {
                    let pre = *old(self);
                    assert(self.channels@ =~= pre.channels@.update(
                        i as int,
                        self.channels@[i as int],
                    ));
                    assert(self.channels_unique());
                    self.lemma_channel_idx(channel_id, i as int);
                }
                Ok(())
            },
            _ => {
                self.mark_unexpected(i, channel_id, Some(resolver));
                Err(Error::UnexpectedAnswer)
            },
        }
    }

    /// `channel.open-ok` from the broker: legal only while the channel is
    /// still `Initial`; the channel becomes `Connected`.
    pub fn receive_channel_open_ok(&mut self, channel_id: u16) -> (r: Result<(), Error>)
        requires
            old(self).wf(),
        ensures
            final(self).wf(),
            receive_channel_open_ok_post(*old(self), *final(self), channel_id, r),
    {
        let i = match self.find_channel(channel_id) {
            Some(i) => i,
            None => {
                return Err(Error::InvalidChannel);
            },
        };
        proof {
            old(self).lemma_channel_idx(channel_id, i as int);
        }
        if !self.channels[i].is_initial() {
            self.channels[i].state = ChannelState::Error;
            proof {
                assert(self.channels@ =~= old(self).channels@.update(
                    i as int,
                    self.channels@[i as int],
                ));
                assert(self.channels_unique());
                self.lemma_channel_idx(channel_id, i as int);
            }
            return Err(Error::InvalidState);
        }
        let popped = self.pop_answer(i, channel_id);
        let reply = match popped {
            Some(reply) => reply,
            None => {
                self.mark_unexpected(i, channel_id, None);
                return Err(Error::UnexpectedAnswer);
            },
        };
        let resolver = reply.resolver;
        match reply.answer {
            Answer::AwaitingChannelOpenOk(request_id) => {
                self.channels[i].state = ChannelState::Connected;
                self.promises.complete(resolver, PromiseState::Resolved);
                self.finished_reqs.push(request_id);
                proof {
                    let pre = *old(self);
                    assert(self.channels@ =~= pre.channels@.update(
                        i as int,
                        self.channels@[i as int],
                    ));
                    assert(self.channels_unique());
                    self.lemma_channel_idx(channel_id, i as int);
                }
                Ok(())
            },
            _ => {
                self.mark_unexpected(i, channel_id, Some(resolver));
                Err(Error::UnexpectedAnswer)
            },
        }
    }

    /// `channel.flow` from the broker: record whether we may publish on this
    /// channel and confirm with `channel.flow-ok`, echoing the flag. The
    /// recorded `send_flow` is the embedder's signal to stop queueing
    /// publishes on this channel; the scheduler's own pop policy is driven by
    /// the global flow flag alone, so frames already queued still drain.
    pub fn receive_channel_flow(&mut self, channel_id: u16, active: bool) -> (r: Result<(), Error>)
        requires
            old(self).wf(),
            old(self).promises.len() < usize::MAX,
        ensures
            final(self).wf(),
            receive_channel_flow_post(*old(self), *final(self), channel_id, active, r),
    {
        let i = match self.check_connected(channel_id) {
            Ok(i) => i,
            Err(e) => {
                return Err(e);
            },
        };
        self.send_async(channel_id, Method::ChannelFlowOk { active });
        self.channels[i].send_flow = active;
        proof {
            let pre = *old(self);
            assert(self.channels@ =~= pre.channels@.update(i as int, self.channels@[i as int]));
            assert(self.channels_unique());
            self.lemma_channel_idx(channel_id, i as int);
            pre.lemma_channel_idx(channel_id, i as int);
            assert(self.frames.frames@.take(pre.frames.frames@.len() as int)
                =~= pre.frames.frames@);
        }
        Ok(())
    }

    /// `channel.close-ok` from the broker: the close we asked for is done;
    /// the channel is `Closed`.
    pub fn receive_channel_close_ok(&mut self, channel_id: u16) -> (r: Result<(), Error>)
        requires
            old(self).wf(),
        ensures
            final(self).wf(),
            receive_channel_close_ok_post(*old(self), *final(self), channel_id, r),
    {
        let i = match self.check_connected(channel_id) {
            Ok(i) => i,
            Err(e) => {
                return Err(e);
            },
        };
        let popped = self.pop_answer(i, channel_id);
        let reply = match popped {
            Some(reply) => reply,
            None => {
                self.mark_unexpected(i, channel_id, None);
                return Err(Error::UnexpectedAnswer);
            },
        };
        let resolver = reply.resolver;
        match reply.answer {
            Answer::AwaitingChannelCloseOk(request_id) => {
                self.channels[i].state = ChannelState::Closed;
                self.promises.complete(resolver, PromiseState::Resolved);
                self.finished_reqs.push(request_id);
                proof {
                    let pre = *old(self);
                    assert(self.channels@ =~= pre.channels@.update(
                        i as int,
                        self.channels@[i as int],
                    ));
                    assert(self.channels_unique());
                    self.lemma_channel_idx(channel_id, i as int);
                }
                Ok(())
            },
            _ => {
                self.mark_unexpected(i, channel_id, Some(resolver));
                Err(Error::UnexpectedAnswer)
            },
        }
    }

    /// `channel.close` from the broker: every pending expectation on the
    /// channel fails with the close reason, we confirm with
    /// `channel.close-ok`, and the channel is `Closed`.
    #[verifier::rlimit(80)]
    #[verifier::spinoff_prover]
    pub fn receive_channel_close(
        &mut self,
        channel_id: u16,
        reply_code: u16,
        reply_text: String,
        class_id: u16,
        method_id: u16,
    ) -> (r: Result<(), Error>)
        requires
            old(self).wf(),
            old(self).promises.len() < usize::MAX,
        ensures
            final(self).wf(),
            receive_channel_close_post(
                *old(self),
                *final(self),
                channel_id,
                reply_code,
                reply_text,
                r,
            ),
    {
        let i = match self.check_connected(channel_id) {
            Ok(i) => i,
            Err(e) => {
                return Err(e);
            },
        };
        let close_error = Error::ChannelClosed(reply_code, reply_text);
        proof {
            assert(awaiting_resolvers_valid(
                self.channels@[i as int].awaiting@,
                self.promises.len(),
            ));
        }
        fail_awaiting(&mut self.channels[i].awaiting, &close_error, &mut self.promises);
        self.channels[i].state = ChannelState::Closed;
        proof {
            let pre = *old(self);
            assert(self.channels@ =~= pre.channels@.update(i as int, self.channels@[i as int]));
            assert(self.channels_unique());
            self.lemma_channel_idx(channel_id, i as int);
            pre.lemma_channel_idx(channel_id, i as int);
        }
        let ghost mid = *self;
        self.send_async(channel_id, Method::ChannelCloseOk);
        proof {
            let pre = *old(self);
            assert(self.the_channel(channel_id) == self.channels@[i as int]);
            assert(self.the_channel(channel_id).awaiting@.len() == 0);
            assert(self.frames.frames@.take(pre.frames.frames@.len() as int)
                =~= pre.frames.frames@);
            assert forall|id: int|
                0 <= id < pre.promises.len() && pre.promises.slot(id) is Pending
                    && awaiting_references(
                    pre.the_channel(channel_id).awaiting@,
                    id,
                ) implies self.promises.slot(id) == PromiseState::Failed(
                Error::ChannelClosed(reply_code, reply_text),
            ) by {
                assert(awaiting_references(pre.channels@[i as int].awaiting@, id));
                assert(mid.promises.slot(id) == PromiseState::Failed(close_error));
                assert(self.promises.slot(id) == mid.promises.slot(id));
            }
        }
        Ok(())
    }
}

/// Whether any of the first `upto` channels' FIFOs references resolver `id`.
pub open spec fn channels_reference_upto(channels: Seq<Channel>, upto: int, id: int) -> bool {
    exists|c: int|
        0 <= c < upto && awaiting_references((#[trigger] channels[c]).awaiting@, id)
}

proof fn lemma_upto_extend(channels: Seq<Channel>, x: int, id: int)
    requires
        0 <= x < channels.len(),
    ensures
        channels_reference_upto(channels, x + 1, id) <==> (channels_reference_upto(
            channels,
            x,
            id,
        ) || awaiting_references(channels[x].awaiting@, id)),
{
    if channels_reference_upto(channels, x + 1, id) {
        let c = choose|c: int|
            0 <= c < x + 1 && awaiting_references((#[trigger] channels[c]).awaiting@, id);
        if c < x {
            assert(channels_reference_upto(channels, x, id));
        } else {
            assert(c == x);
        }
    }
    if channels_reference_upto(channels, x, id) {
        let c = choose|c: int|
            0 <= c < x && awaiting_references((#[trigger] channels[c]).awaiting@, id);
        assert(channels_reference_upto(channels, x + 1, id));
    }
    if awaiting_references(channels[x].awaiting@, id) {
        assert(channels_reference_upto(channels, x + 1, id));
    }
}

impl Connection {
    /// A content header arrives: route it to the channel, which must be in
    /// `WillReceiveContent` (see [`crate::channel::content_header_step`]).
    pub fn receive_content_header(
        &mut self,
        channel_id: u16,
        class_id: u16,
        body_size: u64,
        properties: crate::frame::BasicProperties,
    ) -> (r: Result<(), Error>)
        requires
            old(self).wf(),
        ensures
            final(self).wf(),
            !old(self).has_channel(channel_id) ==> r == Err::<(), Error>(Error::InvalidChannel)
                && unchanged(*old(self), *final(self)),
            old(self).has_channel(channel_id) ==> {
                &&& channels_frame(*old(self), *final(self), channel_id)
                &&& crate::channel::content_header_step(
                    old(self).the_channel(channel_id),
                    final(self).the_channel(channel_id),
                    body_size,
                    properties,
                    r,
                )
                &&& frames_unchanged(*old(self), *final(self))
                &&& final(self).promises.slots@ == old(self).promises.slots@
                &&& config_unchanged(*old(self), *final(self))
            },
    {
        let i = match self.find_channel(channel_id) {
            Some(i) => i,
            None => {
                return Err(Error::InvalidChannel);
            },
        };
        proof {
            old(self).lemma_channel_idx(channel_id, i as int);
        }
        let r = self.channels[i].on_content_header(class_id, body_size, properties);
        proof {
            let pre = *old(self);
            assert(self.channels@ =~= pre.channels@.update(i as int, self.channels@[i as int]));
            assert(self.channels_unique());
            self.lemma_channel_idx(channel_id, i as int);
        }
        r
    }

    /// A content-body frame arrives: route it to the channel, which must be
    /// in `ReceivingContent` (see [`crate::channel::body_frame_step`]).
    pub fn receive_body_frame(&mut self, channel_id: u16, payload: Vec<u8>) -> (r: Result<
        (),
        Error,
    >)
        requires
            old(self).wf(),
        ensures
            final(self).wf(),
            !old(self).has_channel(channel_id) ==> r == Err::<(), Error>(Error::InvalidChannel)
                && unchanged(*old(self), *final(self)),
            old(self).has_channel(channel_id) ==> {
                &&& channels_frame(*old(self), *final(self), channel_id)
                &&& crate::channel::body_frame_step(
                    old(self).the_channel(channel_id),
                    final(self).the_channel(channel_id),
                    payload@,
                    r,
                )
                &&& frames_unchanged(*old(self), *final(self))
                &&& final(self).promises.slots@ == old(self).promises.slots@
                &&& config_unchanged(*old(self), *final(self))
            },
    {
        let i = match self.find_channel(channel_id) {
            Some(i) => i,
            None => {
                return Err(Error::InvalidChannel);
            },
        };
        proof {
            old(self).lemma_channel_idx(channel_id, i as int);
        }
        let r = self.channels[i].on_body_frame(payload);
        proof {
            let pre = *old(self);
            assert(self.channels@ =~= pre.channels@.update(i as int, self.channels@[i as int]));
            assert(self.channels_unique());
            self.lemma_channel_idx(channel_id, i as int);
        }
        r
    }

    /// Cancel every expected reply of one channel with `error`, leaving the
    /// channel otherwise untouched: used when a channel dies with work still
    /// pending. Slots the FIFO does not reference keep their state; a
    /// completed promise keeps its first outcome.
    pub fn clear_expected_replies(&mut self, channel_id: u16, error: &Error)
        requires
            old(self).wf(),
        ensures
            final(self).wf(),
            !old(self).has_channel(channel_id) ==> unchanged(*old(self), *final(self)),
            old(self).has_channel(channel_id) ==> {
                &&& channels_frame(*old(self), *final(self), channel_id)
                &&& final(self).the_channel(channel_id) == (Channel {
                    awaiting: final(self).the_channel(channel_id).awaiting,
                    ..old(self).the_channel(channel_id)
                })
                &&& final(self).the_channel(channel_id).awaiting@.len() == 0
                &&& final(self).promises.len() == old(self).promises.len()
                &&& forall|id: int|
                    0 <= id < old(self).promises.len() && !awaiting_references(
                        old(self).the_channel(channel_id).awaiting@,
                        id,
                    ) ==> final(self).promises.slot(id) == old(self).promises.slot(id)
                &&& forall|id: int|
                    0 <= id < old(self).promises.len() && old(self).promises.slot(id) is Pending
                        && awaiting_references(old(self).the_channel(channel_id).awaiting@, id)
                        ==> final(self).promises.slot(id) == PromiseState::Failed(*error)
                &&& forall|id: int|
                    0 <= id < old(self).promises.len() && !(old(self).promises.slot(
                        id,
                    ) is Pending) ==> final(self).promises.slot(id) == old(self).promises.slot(id)
                &&& frames_unchanged(*old(self), *final(self))
                &&& config_unchanged(*old(self), *final(self))
            },
    {
        let i = match self.find_channel(channel_id) {
            Some(i) => i,
            None => {
                return ;
            },
        };
        proof {
            old(self).lemma_channel_idx(channel_id, i as int);
            assert(awaiting_resolvers_valid(
                self.channels@[i as int].awaiting@,
                self.promises.len(),
            ));
        }
        fail_awaiting(&mut self.channels[i].awaiting, error, &mut self.promises);
        proof {
            let pre = *old(self);
            assert(self.channels@ =~= pre.channels@.update(i as int, self.channels@[i as int]));
            assert(self.channels_unique());
            self.lemma_channel_idx(channel_id, i as int);
        }
    }

    /// Connection-fatal teardown: fail every pending frame resolver and every
    /// expected reply with `error`, empty the lanes and every FIFO, and move
    /// the connection to `Error`. Completed promises keep their first
    /// outcome; slots nothing referenced are untouched.
    #[verifier::rlimit(80)]
    #[verifier::spinoff_prover]
    pub fn drop_pending(&mut self, error: &Error)
        requires
            old(self).wf(),
        ensures
            final(self).wf(),
            final(self).status is Error,
            final(self).frames.retry_frames@.len() == 0,
            final(self).frames.publish_frames@.len() == 0,
            final(self).frames.frames@.len() == 0,
            final(self).frames.low_prio_frames@.len() == 0,
            final(self).channels@.len() == old(self).channels@.len(),
            forall|x: int|
                0 <= x < old(self).channels@.len() ==> (#[trigger] final(self).channels@[x])
                    == (Channel {
                    awaiting: final(self).channels@[x].awaiting,
                    ..old(self).channels@[x]
                }) && final(self).channels@[x].awaiting@.len() == 0,
            final(self).promises.len() == old(self).promises.len(),
            forall|id: int|
                0 <= id < old(self).promises.len() && !old(self).frames.references(id)
                    && !channels_reference_upto(
                    old(self).channels@,
                    old(self).channels@.len() as int,
                    id,
                ) ==> final(self).promises.slot(id) == old(self).promises.slot(id),
            forall|id: int|
                0 <= id < old(self).promises.len() && old(self).promises.slot(id) is Pending && (
                old(self).frames.references(id) || channels_reference_upto(
                    old(self).channels@,
                    old(self).channels@.len() as int,
                    id,
                )) ==> final(self).promises.slot(id) == PromiseState::Failed(*error),
            forall|id: int|
                0 <= id < old(self).promises.len() && !(old(self).promises.slot(id) is Pending)
                    ==> final(self).promises.slot(id) == old(self).promises.slot(id),
            final(self).allocator == old(self).allocator,
            final(self).finished_reqs@ == old(self).finished_reqs@,
            final(self).request_index == old(self).request_index,
            final(self).prefetch_size == old(self).prefetch_size,
            final(self).prefetch_count == old(self).prefetch_count,
            final(self).channel_max == old(self).channel_max,
            final(self).frame_max == old(self).frame_max,
            final(self).heartbeat == old(self).heartbeat,
            final(self).flow_enabled == old(self).flow_enabled,
    {
        self.frames.drop_pending(error, &mut self.promises);
        let ghost n = old(self).promises.len();
        let mut x: usize = 0;
        while x < self.channels.len()
            invariant
                self.channels@.len() == old(self).channels@.len(),
                x <= self.channels@.len(),
                forall|c: int|
                    x <= c < self.channels@.len() ==> #[trigger] self.channels@[c] == old(self).channels@[c],
                forall|c: int|
                    0 <= c < x ==> (#[trigger] self.channels@[c]) == (Channel {
                        awaiting: self.channels@[c].awaiting,
                        ..old(self).channels@[c]
                    }) && self.channels@[c].awaiting@.len() == 0,
                n == old(self).promises.len(),
                self.promises.len() == n,
                forall|c: int|
                    0 <= c < old(self).channels@.len() ==> awaiting_resolvers_valid(
                        (#[trigger] old(self).channels@[c]).awaiting@,
                        n,
                    ),
                forall|id: int|
                    0 <= id < n && !old(self).frames.references(id) && !channels_reference_upto(
                        old(self).channels@,
                        x as int,
                        id,
                    ) ==> self.promises.slot(id) == old(self).promises.slot(id),
                forall|id: int|
                    0 <= id < n && old(self).promises.slot(id) is Pending && (old(self).frames.references(id) || channels_reference_upto(
                        old(self).channels@,
                        x as int,
                        id,
                    )) ==> self.promises.slot(id) == PromiseState::Failed(*error),
                forall|id: int|
                    0 <= id < n && !(old(self).promises.slot(id) is Pending) ==> self.promises.slot(
                        id,
                    ) == old(self).promises.slot(id),
                self.frames.retry_frames@.len() == 0,
                self.frames.publish_frames@.len() == 0,
                self.frames.frames@.len() == 0,
                self.frames.low_prio_frames@.len() == 0,
                self.status == old(self).status,
                self.allocator == old(self).allocator,
                self.finished_reqs@ == old(self).finished_reqs@,
                self.request_index == old(self).request_index,
                self.prefetch_size == old(self).prefetch_size,
                self.prefetch_count == old(self).prefetch_count,
                self.channel_max == old(self).channel_max,
                self.frame_max == old(self).frame_max,
                self.heartbeat == old(self).heartbeat,
                self.flow_enabled == old(self).flow_enabled,
            decreases self.channels@.len() - x,
        {
            let ghost pp = self.promises;
            let ghost xi = x as int;
            proof {
                assert(self.channels@[xi] == old(self).channels@[xi]);
                assert(awaiting_resolvers_valid(self.channels@[xi].awaiting@, pp.len()));
            }
            fail_awaiting(&mut self.channels[x].awaiting, error, &mut self.promises);
            proof {
                assert forall|id: int|
                    0 <= id < n && !old(self).frames.references(id) && !channels_reference_upto(
                        old(self).channels@,
                        xi + 1,
                        id,
                    ) implies self.promises.slot(id) == old(self).promises.slot(id) by {
                    lemma_upto_extend(old(self).channels@, xi, id);
                    assert(pp.slot(id) == old(self).promises.slot(id));
                }
                assert forall|id: int|
                    0 <= id < n && old(self).promises.slot(id) is Pending && (old(self).frames.references(id) || channels_reference_upto(
                        old(self).channels@,
                        xi + 1,
                        id,
                    )) implies self.promises.slot(id) == PromiseState::Failed(*error) by {
                    lemma_upto_extend(old(self).channels@, xi, id);
                    if old(self).frames.references(id) || channels_reference_upto(
                        old(self).channels@,
                        xi,
                        id,
                    ) {
                        assert(pp.slot(id) == PromiseState::Failed(*error));
                        assert(!(pp.slot(id) is Pending));
                    } else {
                        assert(awaiting_references(old(self).channels@[xi].awaiting@, id));
                        assert(pp.slot(id) == old(self).promises.slot(id));
                    }
                }
            }
            x = x + 1;
        }
        self.status = ConnectionState::Error;
    }
}

/// The methods a client can receive; anything else arriving from the wire is
/// refused.
pub open spec fn server_to_client(m: Method) -> bool {
    match m {
        Method::ChannelOpenOk => true,
        Method::ChannelFlow { .. } => true,
        Method::ChannelFlowOk { .. } => true,
        Method::ChannelClose { .. } => true,
        Method::ChannelCloseOk => true,
        Method::QueueDeclareOk { .. } => true,
        Method::QueueBindOk => true,
        Method::QueuePurgeOk { .. } => true,
        Method::QueueDeleteOk { .. } => true,
        Method::QueueUnbindOk => true,
        Method::BasicQosOk => true,
        Method::BasicConsumeOk { .. } => true,
        Method::BasicCancelOk { .. } => true,
        Method::BasicReturn { .. } => true,
        Method::BasicDeliver { .. } => true,
        Method::BasicGetOk { .. } => true,
        Method::BasicGetEmpty => true,
        Method::BasicRecoverOk => true,
        _ => false,
    }
}

/// What routing one inbound method does: for every method the client can
/// receive, exactly the matching handler's relation holds between the states
/// before and after and the result; any other method is refused with
/// `InvalidState` and nothing changes.
pub open spec fn receive_method_post(
    pre: Connection,
    post: Connection,
    channel_id: u16,
    method: Method,
    r: Result<(), Error>,
) -> bool {
    match method {
        Method::ChannelOpenOk => receive_channel_open_ok_post(pre, post, channel_id, r),
        Method::ChannelFlow { active } => receive_channel_flow_post(pre, post, channel_id, active, r),
        Method::ChannelFlowOk { active } => receive_channel_flow_ok_post(
            pre,
            post,
            channel_id,
            active,
            r,
        ),
        Method::ChannelClose { reply_code, reply_text, class_id, method_id } => receive_channel_close_post(
            pre,
            post,
            channel_id,
            reply_code,
            reply_text,
            r,
        ),
        Method::ChannelCloseOk => receive_channel_close_ok_post(pre, post, channel_id, r),
        Method::QueueDeclareOk { queue, message_count, consumer_count } => crate::queue_ops::receive_queue_declare_ok_post(
            pre,
            post,
            channel_id,
            queue,
            message_count,
            consumer_count,
            r,
        ),
        Method::QueueBindOk => crate::queue_ops::receive_queue_bind_ok_post(pre, post, channel_id, r),
        Method::QueuePurgeOk { message_count } => crate::queue_ops::receive_queue_purge_ok_post(
            pre,
            post,
            channel_id,
            r,
        ),
        Method::QueueDeleteOk { message_count } => crate::queue_ops::receive_queue_delete_ok_post(
            pre,
            post,
            channel_id,
            r,
        ),
        Method::QueueUnbindOk => crate::queue_ops::receive_queue_unbind_ok_post(
            pre,
            post,
            channel_id,
            r,
        ),
        Method::BasicQosOk => crate::basic_ops::receive_basic_qos_ok_post(pre, post, channel_id, r),
        Method::BasicConsumeOk { consumer_tag } => crate::basic_ops::receive_basic_consume_ok_post(
            pre,
            post,
            channel_id,
            consumer_tag,
            r,
        ),
        Method::BasicCancelOk { consumer_tag } => crate::basic_ops::receive_basic_cancel_ok_post(
            pre,
            post,
            channel_id,
            consumer_tag,
            r,
        ),
        Method::BasicReturn { reply_code, reply_text, exchange, routing_key } => crate::basic_ops::receive_basic_amqp_return_post(
            pre,
            post,
            channel_id,
            r,
        ),
        Method::BasicDeliver { consumer_tag, delivery_tag, redelivered, exchange, routing_key } => crate::basic_ops::receive_basic_deliver_post(
            pre,
            post,
            channel_id,
            consumer_tag,
            delivery_tag,
            exchange,
            routing_key,
            redelivered,
            r,
        ),
        Method::BasicGetOk { delivery_tag, redelivered, exchange, routing_key, message_count } => crate::basic_ops::receive_basic_get_answer_post(
            pre,
            post,
            channel_id,
            r,
        ),
        Method::BasicGetEmpty => crate::basic_ops::receive_basic_get_answer_post(
            pre,
            post,
            channel_id,
            r,
        ),
        Method::BasicRecoverOk => crate::basic_ops::receive_basic_recover_ok_post(
            pre,
            post,
            channel_id,
            r,
        ),
        _ => r == Err::<(), Error>(Error::InvalidState) && unchanged(pre, post),
    }
}

impl Connection {
    /// Route one inbound method to its handler: for every method the client
    /// can receive, the matching handler's relation holds (see
    /// `receive_method_post`); a method the client can never receive is
    /// refused with `InvalidState` and changes nothing.
    pub fn receive_method(&mut self, channel_id: u16, method: Method) -> (r: Result<(), Error>)
        requires
            old(self).wf(),
            old(self).can_request(),
        ensures
            final(self).wf(),
            receive_method_post(*old(self), *final(self), channel_id, method, r),
            !server_to_client(method) ==> r == Err::<(), Error>(Error::InvalidState) && unchanged(
                *old(self),
                *final(self),
            ),
    {
        match method {
            Method::ChannelOpenOk => self.receive_channel_open_ok(channel_id),
            Method::ChannelFlow { active } => self.receive_channel_flow(channel_id, active),
            Method::ChannelFlowOk { active } => self.receive_channel_flow_ok(channel_id, active),
            Method::ChannelClose { reply_code, reply_text, class_id, method_id } => self
                .receive_channel_close(channel_id, reply_code, reply_text, class_id, method_id),
            Method::ChannelCloseOk => self.receive_channel_close_ok(channel_id),
            Method::QueueDeclareOk { queue, message_count, consumer_count } => self
                .receive_queue_declare_ok(channel_id, queue, message_count, consumer_count),
            Method::QueueBindOk => self.receive_queue_bind_ok(channel_id),
            Method::QueuePurgeOk { message_count } => self.receive_queue_purge_ok(
                channel_id,
                message_count,
            ),
            Method::QueueDeleteOk { message_count } => self.receive_queue_delete_ok(
                channel_id,
                message_count,
            ),
            Method::QueueUnbindOk => self.receive_queue_unbind_ok(channel_id),
            Method::BasicQosOk => self.receive_basic_qos_ok(channel_id),
            Method::BasicConsumeOk { consumer_tag } => self.receive_basic_consume_ok(
                channel_id,
                consumer_tag,
            ),
            Method::BasicCancelOk { consumer_tag } => self.receive_basic_cancel_ok(
                channel_id,
                consumer_tag,
            ),
            Method::BasicReturn { reply_code, reply_text, exchange, routing_key } => self
                .receive_basic_amqp_return(channel_id, reply_code, reply_text, exchange, routing_key),
            Method::BasicDeliver {
                consumer_tag,
                delivery_tag,
                redelivered,
                exchange,
                routing_key,
            } => self.receive_basic_deliver(
                channel_id,
                consumer_tag,
                delivery_tag,
                exchange,
                routing_key,
                redelivered,
            ),
            Method::BasicGetOk { .. } => self.receive_basic_get_ok(channel_id),
            Method::BasicGetEmpty => self.receive_basic_get_empty(channel_id),
            Method::BasicRecoverOk => self.receive_basic_recover_ok(channel_id),
            _ => Err(Error::InvalidState),
        }
    }

    /// Dispatch one decoded inbound frame. A method frame while its channel
    /// is mid-content is a protocol violation: the partial delivery is
    /// discarded and the channel moves to `Error`. Heartbeats are ignored; a
    /// protocol header cannot arrive after the handshake.
    pub fn dispatch_frame(&mut self, frame: Frame) -> (r: Result<(), Error>)
        requires
            old(self).wf(),
            old(self).can_request(),
        ensures
            final(self).wf(),
            frame is Heartbeat ==> r is Ok && unchanged(*old(self), *final(self)),
            frame is ProtocolHeader ==> r == Err::<(), Error>(Error::ProtocolDecode) && unchanged(
                *old(self),
                *final(self),
            ),
            frame matches Frame::Method(ch, m) ==> ((old(self).has_channel(ch) && (old(self).the_channel(ch).state is WillReceiveContent || old(self).the_channel(
                ch,
            ).state is ReceivingContent)) ==> r == Err::<(), Error>(
                Error::ProtocolUnexpectedFrame,
            ) && final(self).the_channel(ch).state is Error && channels_frame(
                *old(self),
                *final(self),
                ch,
            ) && frames_unchanged(*old(self), *final(self)) && final(self).promises.slots@ == old(self).promises.slots@ && config_unchanged(*old(self), *final(self))),
            frame matches Frame::Method(ch, m) ==> (!(old(self).has_channel(ch) && (old(
                self,
            ).the_channel(ch).state is WillReceiveContent || old(self).the_channel(
                ch,
            ).state is ReceivingContent)) ==> receive_method_post(
                *old(self),
                *final(self),
                ch,
                m,
                r,
            )),
            frame matches Frame::Header(ch, cls, size, props) ==> (old(self).has_channel(ch) ==> {
                &&& channels_frame(*old(self), *final(self), ch)
                &&& crate::channel::content_header_step(
                    old(self).the_channel(ch),
                    final(self).the_channel(ch),
                    size,
                    props,
                    r,
                )
                &&& frames_unchanged(*old(self), *final(self))
                &&& final(self).promises.slots@ == old(self).promises.slots@
                &&& config_unchanged(*old(self), *final(self))
            }),
            frame matches Frame::Body(ch, payload) ==> (old(self).has_channel(ch) ==> {
                &&& channels_frame(*old(self), *final(self), ch)
                &&& crate::channel::body_frame_step(
                    old(self).the_channel(ch),
                    final(self).the_channel(ch),
                    payload@,
                    r,
                )
                &&& frames_unchanged(*old(self), *final(self))
                &&& final(self).promises.slots@ == old(self).promises.slots@
                &&& config_unchanged(*old(self), *final(self))
            }),
            frame matches Frame::Header(ch, cls, size, props) ==> (!old(self).has_channel(ch) ==> r
                == Err::<(), Error>(Error::InvalidChannel) && unchanged(*old(self), *final(self))),
            frame matches Frame::Body(ch, payload) ==> (!old(self).has_channel(ch) ==> r == Err::<
                (),
                Error,
            >(Error::InvalidChannel) && unchanged(*old(self), *final(self))),
    {
        match frame {
            Frame::ProtocolHeader => Err(Error::ProtocolDecode),
            Frame::Heartbeat(_) => Ok(()),
            Frame::Method(channel_id, method) => {
                let i_opt = self.find_channel(channel_id);
                match i_opt {
                    Some(i) => {
                        proof {
                            old(self).lemma_channel_idx(channel_id, i as int);
                        }
                        let in_content = match self.channels[i].state {
                            ChannelState::WillReceiveContent(..) => true,
                            ChannelState::ReceivingContent(..) => true,
                            _ => false,
                        };
                        if in_content {
                            self.channels[i].abort_current_delivery();
                            proof {
                                let pre = *old(self);
                                assert(self.channels@ =~= pre.channels@.update(
                                    i as int,
                                    self.channels@[i as int],
                                ));
                                assert(self.channels_unique());
                                self.lemma_channel_idx(channel_id, i as int);
                            }
                            return Err(Error::ProtocolUnexpectedFrame);
                        }
                    },
                    None => {},
                }
                self.receive_method(channel_id, method)
            },
            Frame::Header(channel_id, class_id, body_size, properties) => self
                .receive_content_header(channel_id, class_id, body_size, properties),
            Frame::Body(channel_id, payload) => self.receive_body_frame(channel_id, payload),
        }
    }
}

/// Law: state gating. For an operation that requires `Connected`, given the
/// contract every such operation carries, exactly one of two things happened:
/// it succeeded and the channel was `Connected`, or it failed with
/// `InvalidState` and the channel moved to `Error` (a missing channel id
/// answers `InvalidChannel` and changes nothing; that case is excluded here
/// by requiring the channel to exist).
pub proof fn lemma_state_gate(
    pre: Connection,
    post: Connection,
    channel_id: u16,
    m: Method,
    reply: Answer,
    r: Result<RequestId, Error>,
)
    requires
        pre.has_channel(channel_id),
        match r {
            Ok(rid) => requested(pre, post, channel_id, m, reply) && pre.the_channel(
                channel_id,
            ).connected(),
            Err(e) => op_failed(pre, post, channel_id, e),
        },
    ensures
        r is Ok ==> pre.the_channel(channel_id).connected(),
        r is Err ==> !pre.the_channel(channel_id).connected() && r == Err::<RequestId, Error>(
            Error::InvalidState,
        ) && post.the_channel(channel_id).state is Error,
{
}

/// Fail every expected reply of the FIFO with `error`, then empty it. Slots
/// the FIFO does not reference are untouched; a slot that was already
/// completed keeps its first outcome.
fn fail_awaiting(awaiting: &mut Vec<ExpectedReply>, error: &Error, promises: &mut PromiseStore)
    requires
        awaiting_resolvers_valid(old(awaiting)@, old(promises).len()),
    ensures
        final(awaiting)@.len() == 0,
        final(promises).len() == old(promises).len(),
        forall|id: int|
            0 <= id < old(promises).len() && !awaiting_references(old(awaiting)@, id) ==> final(promises).slot(id) == old(promises).slot(id),
        forall|id: int|
            0 <= id < old(promises).len() && old(promises).slot(id) is Pending
                && awaiting_references(old(awaiting)@, id) ==> final(promises).slot(id)
                == PromiseState::Failed(*error),
        forall|id: int|
            0 <= id < old(promises).len() && !(old(promises).slot(id) is Pending) ==> final(promises).slot(id) == old(promises).slot(id),
{
    proof {
        assert(awaiting@ =~= old(awaiting)@.take(awaiting@.len() as int));
    }
    loop
        invariant
            awaiting_resolvers_valid(old(awaiting)@, old(promises).len()),
            awaiting@.len() <= old(awaiting)@.len(),
            awaiting@ == old(awaiting)@.take(awaiting@.len() as int),
            promises.len() == old(promises).len(),
            forall|id: int|
                0 <= id < old(promises).len() && !awaiting_references(
                    old(awaiting)@.skip(awaiting@.len() as int),
                    id,
                ) ==> promises.slot(id) == old(promises).slot(id),
            forall|id: int|
                0 <= id < old(promises).len() && old(promises).slot(id) is Pending
                    && awaiting_references(old(awaiting)@.skip(awaiting@.len() as int), id)
                    ==> promises.slot(id) == PromiseState::Failed(*error),
            forall|id: int|
                0 <= id < old(promises).len() && !(old(promises).slot(id) is Pending)
                    ==> promises.slot(id) == old(promises).slot(id),
        ensures
            awaiting@.len() == 0,
        decreases awaiting@.len(),
    {
        let ghost n = awaiting@.len() as int;
        let reply = match awaiting.pop() {
            Some(reply) => reply,
            None => {
                break ;
            },
        };
        proof {
            assert(awaiting@ =~= old(awaiting)@.take(n - 1));
            assert(reply == old(awaiting)@[n - 1]);
            assert(reply.resolver < old(promises).len());
        }
        let ghost pre_promises = *promises;
        promises.complete(reply.resolver, PromiseState::Failed(error.duplicate()));
        proof {
            let orig_promises = *old(promises);
            lemma_fail_awaiting_step(
                old(awaiting)@,
                n - 1,
                reply.resolver,
                pre_promises,
                *promises,
                orig_promises,
                *error,
            );
        }
    }
}

/// One step of `fail_awaiting`: completing the resolver at position `p`
/// extends the invariant from the replies after `p` to the replies from `p`
/// on.
proof fn lemma_fail_awaiting_step(
    s: Seq<ExpectedReply>,
    p: int,
    id: usize,
    pre: PromiseStore,
    post: PromiseStore,
    orig: PromiseStore,
    error: Error,
)
    requires
        0 <= p < s.len(),
        s[p].resolver == id,
        id < orig.len(),
        pre.len() == orig.len(),
        post.len() == orig.len(),
        complete_post(pre, post, id as int, PromiseState::Failed(error)),
        forall|i: int|
            0 <= i < orig.len() && !awaiting_references(s.skip(p + 1), i) ==> pre.slot(i)
                == orig.slot(i),
        forall|i: int|
            0 <= i < orig.len() && orig.slot(i) is Pending && awaiting_references(s.skip(p + 1), i)
                ==> pre.slot(i) == PromiseState::Failed(error),
        forall|i: int|
            0 <= i < orig.len() && !(orig.slot(i) is Pending) ==> pre.slot(i) == orig.slot(i),
    ensures
        forall|i: int|
            0 <= i < orig.len() && !awaiting_references(s.skip(p), i) ==> post.slot(i) == orig.slot(
                i,
            ),
        forall|i: int|
            0 <= i < orig.len() && orig.slot(i) is Pending && awaiting_references(s.skip(p), i)
                ==> post.slot(i) == PromiseState::Failed(error),
        forall|i: int|
            0 <= i < orig.len() && !(orig.slot(i) is Pending) ==> post.slot(i) == orig.slot(i),
{
    assert(s.skip(p)[0] == s[p]);
    assert(awaiting_references(s.skip(p), id as int));
    assert forall|i: int|
        0 <= i < orig.len() && !awaiting_references(s.skip(p), i) implies post.slot(i) == orig.slot(
        i,
    ) by {
        if awaiting_references(s.skip(p + 1), i) {
            let x = choose|x: int|
                0 <= x < s.skip(p + 1).len() && (#[trigger] s.skip(p + 1)[x]).resolver as int == i;
            assert(s.skip(p)[x + 1] == s.skip(p + 1)[x]);
            assert(awaiting_references(s.skip(p), i));
        }
        assert(pre.slot(i) == orig.slot(i));
        assert(i != id as int);
    }
    assert forall|i: int|
        0 <= i < orig.len() && orig.slot(i) is Pending && awaiting_references(
            s.skip(p),
            i,
        ) implies post.slot(i) == PromiseState::Failed(error) by {
        if i == id as int {
            if pre.slot(i) is Pending {
            } else {
                if !awaiting_references(s.skip(p + 1), i) {
                    assert(pre.slot(i) == orig.slot(i));
                    assert(false);
                }
            }
        } else {
            let x = choose|x: int|
                0 <= x < s.skip(p).len() && (#[trigger] s.skip(p)[x]).resolver as int == i;
            assert(x != 0);
            assert(s.skip(p + 1)[x - 1] == s.skip(p)[x]);
            assert(awaiting_references(s.skip(p + 1), i));
        }
    }
}

} // verus!
