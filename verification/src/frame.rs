//! Typed frames: the unit of exchange between the codec and the state
//! machines. The wire codec itself (byte layout) is an external collaborator;
//! this crate works on the decoded shape of each frame.

use vstd::prelude::*;

verus! {

/// A field table attached to a method (queue arguments, consume arguments).
/// The table is carried through unchanged; this layer never interprets it.
#[derive(Debug, PartialEq, Eq)]
pub struct FieldTable {
    pub entries: Vec<(String, String)>,
}

impl FieldTable {
    pub fn new() -> (r: FieldTable)
        ensures
            r.entries@.len() == 0,
    {
        FieldTable { entries: Vec::new() }
    }
}

/// The standard content properties carried by a content header frame.
#[derive(Clone, Debug, PartialEq, Eq)]
pub struct BasicProperties {
    pub content_type: Option<String>,
    pub content_encoding: Option<String>,
    pub correlation_id: Option<String>,
    pub delivery_mode: Option<u8>,
    pub priority: Option<u8>,
}

impl BasicProperties {
    pub fn new() -> (r: BasicProperties)
        ensures
            r == (BasicProperties {
                content_type: None,
                content_encoding: None,
                correlation_id: None,
                delivery_mode: None,
                priority: None,
            }),
    {
        BasicProperties {
            content_type: None,
            content_encoding: None,
            correlation_id: None,
            delivery_mode: None,
            priority: None,
        }
    }
}

/// The bytes of a list of chunks, in order.
pub open spec fn concat_bytes(s: Seq<Seq<u8>>) -> Seq<u8>
    decreases s.len(),
{
    if s.len() == 0 {
        Seq::empty()
    } else {
        s[0] + concat_bytes(s.drop_first())
    }
}

pub proof fn lemma_concat_bytes_push(s: Seq<Seq<u8>>, c: Seq<u8>)
    ensures
        concat_bytes(s.push(c)) == concat_bytes(s) + c,
    decreases s.len(),
{
    if s.len() == 0 {
        assert(s.push(c).drop_first() =~= Seq::<Seq<u8>>::empty());
        assert(s.push(c)[0] == c);
        assert(concat_bytes(s.push(c).drop_first()) == Seq::<u8>::empty());
        assert(concat_bytes(s.push(c)) == c + Seq::<u8>::empty());
        assert(c + Seq::<u8>::empty() =~= c);
        assert(concat_bytes(s) == Seq::<u8>::empty());
        assert(Seq::<u8>::empty() + c =~= c);
    } else {
        assert(s.push(c).drop_first() =~= s.drop_first().push(c));
        lemma_concat_bytes_push(s.drop_first(), c);
        assert(s.push(c)[0] == s[0]);
        assert(concat_bytes(s.push(c)) == s[0] + (concat_bytes(s.drop_first()) + c));
        assert(s[0] + (concat_bytes(s.drop_first()) + c) =~= (s[0] + concat_bytes(s.drop_first()))
            + c);
    }
}

/// Split a payload into content-body chunks of at most `max_chunk` bytes:
/// every chunk but the last is full, together they are exactly the payload,
/// and an empty payload yields no chunks.
pub fn chunk_payload(payload: &Vec<u8>, max_chunk: usize) -> (r: Vec<Vec<u8>>)
    requires
        max_chunk > 0,
    ensures
        concat_bytes(r@.map_values(|v: Vec<u8>| v@)) == payload@,
        forall|x: int| 0 <= x < r@.len() ==> 0 < (#[trigger] r@[x])@.len() <= max_chunk,
        forall|x: int| 0 <= x < r@.len() - 1 ==> (#[trigger] r@[x])@.len() == max_chunk,
        payload@.len() == 0 <==> r@.len() == 0,
{
    let mut chunks: Vec<Vec<u8>> = Vec::new();
    let mut i: usize = 0;
    proof {
        assert(chunks@.map_values(|v: Vec<u8>| v@) =~= Seq::<Seq<u8>>::empty());
        assert(payload@.take(0) =~= Seq::<u8>::empty());
    }
    while i < payload.len()
        invariant
            max_chunk > 0,
            i <= payload@.len(),
            concat_bytes(chunks@.map_values(|v: Vec<u8>| v@)) == payload@.take(i as int),
            forall|x: int| 0 <= x < chunks@.len() ==> 0 < (#[trigger] chunks@[x])@.len() <= max_chunk,
            i < payload@.len() ==> forall|x: int|
                0 <= x < chunks@.len() ==> (#[trigger] chunks@[x])@.len() == max_chunk,
            forall|x: int|
                0 <= x < chunks@.len() - 1 ==> (#[trigger] chunks@[x])@.len() == max_chunk,
            i == 0 <==> chunks@.len() == 0,
        decreases payload@.len() - i,
    {
        let end: usize = if payload.len() - i > max_chunk {
            i + max_chunk
        } else {
            payload.len()
        };
        let mut chunk: Vec<u8> = Vec::new();
        let mut p: usize = i;
        while p < end
            invariant
                i <= p <= end <= payload@.len(),
                chunk@ == payload@.subrange(i as int, p as int),
            decreases end - p,
        {
            chunk.push(payload[p]);
            proof {
                assert(chunk@ =~= payload@.subrange(i as int, p + 1));
            }
            p = p + 1;
        }
        let ghost pre_chunks = chunks@;
        chunks.push(chunk);
        proof {
            assert(chunks@.map_values(|v: Vec<u8>| v@) =~= pre_chunks.map_values(
                |v: Vec<u8>| v@,
            ).push(payload@.subrange(i as int, end as int)));
            lemma_concat_bytes_push(
                pre_chunks.map_values(|v: Vec<u8>| v@),
                payload@.subrange(i as int, end as int),
            );
            assert(payload@.take(i as int) + payload@.subrange(i as int, end as int)
                =~= payload@.take(end as int));
        }
        i = end;
    }
    proof {
        assert(payload@.take(payload@.len() as int) =~= payload@);
    }
    chunks
}

/// A method frame's payload: one variant per AMQP method this layer sends or
/// receives, each carrying the method's fields as plain values.
#[derive(Debug, PartialEq, Eq)]
pub enum Method {
    ChannelOpen { out_of_band: String },
    ChannelOpenOk,
    ChannelFlow { active: bool },
    ChannelFlowOk { active: bool },
    ChannelClose { reply_code: u16, reply_text: String, class_id: u16, method_id: u16 },
    ChannelCloseOk,
    QueueDeclare {
        ticket: u16,
        queue: String,
        passive: bool,
        durable: bool,
        exclusive: bool,
        auto_delete: bool,
        nowait: bool,
        arguments: FieldTable,
    },
    QueueDeclareOk { queue: String, message_count: u32, consumer_count: u32 },
    QueueBind {
        ticket: u16,
        queue: String,
        exchange: String,
        routing_key: String,
        nowait: bool,
        arguments: FieldTable,
    },
    QueueBindOk,
    QueuePurge { ticket: u16, queue: String, nowait: bool },
    QueuePurgeOk { message_count: u32 },
    QueueDelete { ticket: u16, queue: String, if_unused: bool, if_empty: bool, nowait: bool },
    QueueDeleteOk { message_count: u32 },
    QueueUnbind {
        ticket: u16,
        queue: String,
        exchange: String,
        routing_key: String,
        arguments: FieldTable,
    },
    QueueUnbindOk,
    BasicQos { prefetch_size: u32, prefetch_count: u16, global: bool },
    BasicQosOk,
    BasicConsume {
        ticket: u16,
        queue: String,
        consumer_tag: String,
        no_local: bool,
        no_ack: bool,
        exclusive: bool,
        nowait: bool,
        arguments: FieldTable,
    },
    BasicConsumeOk { consumer_tag: String },
    BasicCancel { consumer_tag: String, nowait: bool },
    BasicCancelOk { consumer_tag: String },
    BasicPublish {
        ticket: u16,
        exchange: String,
        routing_key: String,
        mandatory: bool,
        immediate: bool,
    },
    BasicReturn { reply_code: u16, reply_text: String, exchange: String, routing_key: String },
    BasicDeliver {
        consumer_tag: String,
        delivery_tag: u64,
        redelivered: bool,
        exchange: String,
        routing_key: String,
    },
    BasicGet { ticket: u16, queue: String, no_ack: bool },
    BasicGetOk {
        delivery_tag: u64,
        redelivered: bool,
        exchange: String,
        routing_key: String,
        message_count: u32,
    },
    BasicGetEmpty,
    BasicAck { delivery_tag: u64, multiple: bool },
    BasicReject { delivery_tag: u64, requeue: bool },
    BasicRecoverAsync { requeue: bool },
    BasicRecover { requeue: bool },
    BasicRecoverOk,
    BasicNack { delivery_tag: u64, multiple: bool, requeue: bool },
}

/// One frame on the wire. `channel_id` 0 is reserved for connection-level
/// methods. A `Header` announces `body_size` bytes of content to follow in
/// `Body` frames on the same channel.
#[derive(Debug, PartialEq, Eq)]
pub enum Frame {
    ProtocolHeader,
    Method(u16, Method),
    Header(u16, u16, u64, BasicProperties),
    Body(u16, Vec<u8>),
    Heartbeat(u16),
}

impl Frame {
    pub open spec fn is_header(self) -> bool {
        self is Header
    }

    pub open spec fn is_body(self) -> bool {
        self is Body
    }

    /// True for the frames a publish run is made of: content headers and
    /// content bodies.
    pub open spec fn is_content(self) -> bool {
        self is Header || self is Body
    }

    pub fn check_header(&self) -> (r: bool)
        ensures
            r == self.is_header(),
    {
        match self {
            Frame::Header(..) => true,
            _ => false,
        }
    }

    pub fn check_body(&self) -> (r: bool)
        ensures
            r == self.is_body(),
    {
        match self {
            Frame::Body(..) => true,
            _ => false,
        }
    }
}

} // verus!
