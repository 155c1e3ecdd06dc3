//! What a connection does, as a mathematical function from messages to
//! replies, deliveries and changes of the log and the subscription table.

use crate::protocol::codec;
use crate::protocol::frame;
use crate::protocol::frame::{Message, Op};
use crate::store::log;
use crate::store::log::{Log, StoreError};
use crate::store::record;
use crate::subscription::shard;
use crate::subscription::shard::Subscriber;
use vstd::prelude::*;

verus! {

/// Why a connection is closed by the broker.
#[derive(Debug, Clone, Copy, PartialEq, Eq, Structural)]
pub enum CloseReason {
    /// A command came before the token.
    AuthRequired,
    /// The token was wrong.
    BadToken,
    /// The token did not come in time.
    AuthTimeout,
    /// A record was too large for the log.
    RecordTooLarge,
}

/// Something that is counted.
#[derive(Debug, Clone, Copy, PartialEq, Eq, Structural)]
pub enum Event {
    Authenticated,
    AuthFailed,
    /// A record was appended and acknowledged.
    Published { bytes: usize },
    /// A record was handed to so many subscriptions.
    Delivered { copies: usize, bytes: usize },
    /// A record was refused because undelivered ones are in its way.
    Rejected,
    /// A subscription was made and acknowledged.
    Subscribed,
}

/// A frame that leaves the broker.
#[verifier::ext_equal]
pub enum Out {
    /// To the connection itself.
    Reply(Seq<u8>),
    /// To each of the named connections.
    Fanout(Seq<u8>, Seq<u64>),
}

/// What is fixed for a connection.
#[verifier::ext_equal]
pub struct Policy {
    pub id: u64,
    /// The token that is asked for, where one is.
    pub secret: Option<Seq<u8>>,
    /// Acknowledgements wait until the log is safe.
    pub durable_acks: bool,
    /// A fetch of what is not kept is answered with an empty acknowledgement.
    pub ack_failed_fetch: bool,
}

/// What a connection's messages change.
#[verifier::ext_equal]
pub struct State {
    pub authenticated: bool,
    /// The topics that the connection subscribed to, in order.
    pub topics: Seq<Seq<u8>>,
    pub log: Log,
    pub table: Map<Seq<u8>, Seq<Subscriber>>,
    /// The frames that left, in order.
    pub out: Seq<Out>,
    pub events: Seq<Event>,
    /// The log must be safe up to here before the frames leave.
    pub wait_for: Option<nat>,
    pub close: Option<CloseReason>,
}

/// `w` says how far every subscriber of the table has been served.
pub open spec fn is_watermark(table: Map<Seq<u8>, Seq<Subscriber>>, w: u64) -> bool {
    &&& forall|t: Seq<u8>, k: int|
        table.contains_key(t) && 0 <= k < table[t].len() ==> w <= (#[trigger] table[t][k]).sent
    &&& w == u64::MAX || exists|t: Seq<u8>, k: int|
        table.contains_key(t) && 0 <= k < table[t].len() && w == (#[trigger] table[t][k]).sent
}

/// How far every subscriber has been served.
pub open spec fn watermark(table: Map<Seq<u8>, Seq<Subscriber>>) -> u64 {
    choose|w: u64| is_watermark(table, w)
}

/// There is one watermark.
pub proof fn watermark_is_unique(table: Map<Seq<u8>, Seq<Subscriber>>, w: u64)
    requires
        is_watermark(table, w),
    ensures
        watermark(table) == w,
{
    let v = watermark(table);
    assert(is_watermark(table, v));
    if v < w {
        let (t, k) = choose|t: Seq<u8>, k: int|
            table.contains_key(t) && 0 <= k < table[t].len() && v == (#[trigger] table[t][k]).sent;
        assert(w <= table[t][k].sent);
    }
    if w < v {
        let (t, k) = choose|t: Seq<u8>, k: int|
            table.contains_key(t) && 0 <= k < table[t].len() && w == (#[trigger] table[t][k]).sent;
        assert(v <= table[t][k].sent);
    }
}

/// The acknowledgement of a record.
pub open spec fn ack(topic: Seq<u8>, offset: u64, len: u32) -> Seq<u8> {
    (Message { op: Op::Ack, topic, payload: frame::locator(offset, len) }).encoded()
}

/// A record on its way to a subscriber.
pub open spec fn data(topic: Seq<u8>, payload: Seq<u8>) -> Seq<u8> {
    (Message { op: Op::Data, topic, payload }).encoded()
}

/// The refusal of a record.
pub open spec fn refusal(topic: Seq<u8>) -> Seq<u8> {
    (Message { op: Op::Error, topic, payload: overflow_text() }).encoded()
}

/// The text of a refusal: `overflow`.
pub open spec fn overflow_text() -> Seq<u8> {
    vstd::utf8::encode_utf8("overflow"@)
}

/// How long the text of a refusal is.
pub proof fn overflow_text_len()
    ensures
        overflow_text().len() == 8,
{
    reveal_strlit("overflow");
    vstd::utf8::is_ascii_chars_encode_utf8("overflow"@);
}

/// The topic of the answer to a ping: `pong`.
pub open spec fn pong_topic() -> Seq<u8> {
    seq![112u8, 111u8, 110u8, 103u8]
}

/// The connections behind subscriptions.
pub open spec fn ids(list: Seq<Subscriber>) -> Seq<u64> {
    list.map_values(|s: Subscriber| s.id)
}

impl State {
    pub open spec fn replied(self, frame: Seq<u8>) -> State {
        State { out: self.out.push(Out::Reply(frame)), ..self }
    }

    pub open spec fn counted(self, e: Event) -> State {
        State { events: self.events.push(e), ..self }
    }

    pub open spec fn closed(self, why: CloseReason) -> State {
        State { close: Some(why), ..self }
    }

    /// A record is appended, acknowledged, and handed to the subscribers of
    /// its topic. One that would overwrite undelivered records is refused
    /// where the log says so; one that is too large ends the connection.
    pub open spec fn published(self, p: Policy, topic: Seq<u8>, payload: Seq<u8>) -> State {
        let rec = log::record(topic, payload);
        let before = self.log.with_watermark(watermark(self.table));
        let after = before.appended(rec);
        let here = State { log: before, ..self };
        let bytes = payload.len() as usize;
        match before.append_result(rec) {
            Ok((offset, len)) => {
                let stored = State {
                    log: after,
                    wait_for: if p.durable_acks {
                        Some(after.end)
                    } else {
                        self.wait_for
                    },
                    ..self
                }.replied(ack(topic, offset, len)).counted(Event::Published { bytes });
                if self.table.contains_key(topic) {
                    let list = self.table[topic];
                    State {
                        table: shard::marked_sent(self.table, topic, after.end as u64),
                        out: stored.out.push(Out::Fanout(data(topic, payload), ids(list))),
                        ..stored
                    }.counted(Event::Delivered { copies: list.len() as usize, bytes })
                } else {
                    stored
                }
            },
            Err(StoreError::Overflow) => here.replied(refusal(topic)).counted(Event::Rejected),
            Err(_) => here.closed(CloseReason::RecordTooLarge),
        }
    }

    /// The connection listens to a topic from here on.
    pub open spec fn subscribed(self, p: Policy, topic: Seq<u8>) -> State {
        State {
            table: shard::subscribed(
                self.table,
                topic,
                Subscriber { id: p.id, sent: self.log.end as u64 },
            ),
            topics: self.topics.push(topic),
            ..self
        }.replied(ack(topic, 0, 0)).counted(Event::Subscribed)
    }

    /// A record is read back and sent. A request that names no record has no
    /// effect.
    pub open spec fn fetched(self, p: Policy, topic: Seq<u8>, request: Seq<u8>) -> State {
        match frame::located(request) {
            None => self,
            Some((offset, len)) => if self.log.read_result(offset as int, len as int) is Ok {
                match record::decoded(self.log.at(offset as int, len as int)) {
                    Some((t, content)) => self.replied(data(t, content)),
                    None => self,
                }
            } else if p.ack_failed_fetch {
                self.replied(ack(topic, 0, 0))
            } else {
                self
            },
        }
    }

    /// The token is checked. Nothing else is done before it was right.
    pub open spec fn presented(self, p: Policy, m: Message) -> State {
        if m.op != Op::Auth {
            self.counted(Event::AuthFailed).closed(CloseReason::AuthRequired)
        } else if p.secret is None || p.secret == Some(m.payload) {
            State { authenticated: true, ..self }.replied(ack(codec::auth_topic(), 0, 0)).counted(
                Event::Authenticated,
            )
        } else {
            self.counted(Event::AuthFailed).closed(CloseReason::BadToken)
        }
    }

    /// What one message does.
    pub open spec fn step(self, p: Policy, m: Message) -> State {
        if !self.authenticated {
            self.presented(p, m)
        } else {
            match m.op {
                Op::Publish => self.published(p, m.topic, m.payload),
                Op::Subscribe => self.subscribed(p, m.topic),
                Op::Fetch => self.fetched(p, m.topic, m.payload),
                Op::Ping => self.replied(ack(pong_topic(), 0, 0)),
                Op::Auth => self.replied(ack(codec::auth_topic(), 0, 0)),
                _ => self,
            }
        }
    }

    /// What several messages do, one after the other, until the connection
    /// is closed.
    pub open spec fn run(self, p: Policy, ms: Seq<Message>) -> State
        decreases ms.len(),
    {
        if ms.len() == 0 || self.close is Some {
            self
        } else {
            self.step(p, ms[0]).run(p, ms.skip(1))
        }
    }
}

/// The table after `id` has left several topics.
pub open spec fn left(
    table: Map<Seq<u8>, Seq<Subscriber>>,
    topics: Seq<Seq<u8>>,
    id: u64,
) -> Map<Seq<u8>, Seq<Subscriber>>
    decreases topics.len(),
{
    if topics.len() == 0 {
        table
    } else {
        shard::unsubscribed(left(table, topics.drop_last(), id), topics.last(), id)
    }
}

} // verus!
