//! Frame layout, all integers big-endian:
//!
//! ```text
//! [0..4]    total length of what follows
//! [4]       operation
//! [5..9]    topic length
//! [9..13]   payload length
//! [13..]    topic, then payload
//! ```

use super::wire;
use vstd::prelude::*;

verus! {

broadcast use crate::protocol::wire::be32_len;

/// Bytes in front of the topic.
pub const HEADER_SIZE: usize = 13;

/// Bytes of the length prefix, which does not count itself.
pub const LEN_PREFIX: usize = 4;

/// Smallest total length: operation and two lengths, nothing else.
pub const MIN_FRAME: usize = 9;

/// Largest total length that the parser accepts.
pub const MAX_FRAME: usize = 16777216;

#[derive(Debug, Clone, Copy, PartialEq, Eq, Structural)]
pub enum Op {
    Publish,
    Subscribe,
    Fetch,
    Ping,
    Ack,
    Notify,
    Data,
    Auth,
    Error,
}

impl Op {
    /// The byte that stands for the operation on the wire.
    pub open spec fn code(self) -> u8 {
        match self {
            Op::Publish => 1,
            Op::Subscribe => 2,
            Op::Fetch => 3,
            Op::Ping => 4,
            Op::Ack => 5,
            Op::Notify => 6,
            Op::Data => 7,
            Op::Auth => 8,
            Op::Error => 9,
        }
    }

    /// The operation that a byte stands for.
    pub open spec fn of_code(v: u8) -> Option<Op> {
        if exists|op: Op| op.code() == v {
            Some(choose|op: Op| op.code() == v)
        } else {
            None
        }
    }

    /// A code names one operation, and the codes are those from 1 to 9.
    pub proof fn codes_are_distinct(self)
        ensures
            Op::of_code(self.code()) == Some(self),
            1 <= self.code() <= 9,
    {
        let back = choose|op: Op| op.code() == self.code();
        assert(back.code() == self.code());
    }

    pub fn from_u8(v: u8) -> (op: Option<Op>)
        ensures
            op == Op::of_code(v),
            op is Some <==> 1 <= v <= 9,
            op matches Some(o) ==> o.code() == v,
    {
        let op = match v {
            1 => Op::Publish,
            2 => Op::Subscribe,
            3 => Op::Fetch,
            4 => Op::Ping,
            5 => Op::Ack,
            6 => Op::Notify,
            7 => Op::Data,
            8 => Op::Auth,
            9 => Op::Error,
            _ => {
                assert forall|op: Op| op.code() != v by {
                    op.codes_are_distinct();
                }
                return None;
            },
        };
        proof {
            op.codes_are_distinct();
        }
        Some(op)
    }

    pub fn to_u8(self) -> (v: u8)
        ensures
            v == self.code(),
    {
        match self {
            Op::Publish => 1,
            Op::Subscribe => 2,
            Op::Fetch => 3,
            Op::Ping => 4,
            Op::Ack => 5,
            Op::Notify => 6,
            Op::Data => 7,
            Op::Auth => 8,
            Op::Error => 9,
        }
    }
}

/// What a frame says.
#[verifier::ext_equal]
pub struct Message {
    pub op: Op,
    pub topic: Seq<u8>,
    pub payload: Seq<u8>,
}

impl Message {
    /// The total length that the length prefix announces.
    pub open spec fn body_len(self) -> nat {
        9 + self.topic.len() + self.payload.len()
    }

    /// The bytes that carry the message. Lengths are written modulo 2^32.
    pub open spec fn encoded(self) -> Seq<u8> {
        wire::be32(self.body_len() as u32) + seq![self.op.code()] + wire::be32(
            self.topic.len() as u32,
        ) + wire::be32(self.payload.len() as u32) + self.topic + self.payload
    }

    /// Short enough for the parser.
    pub open spec fn fits(self) -> bool {
        self.body_len() <= MAX_FRAME
    }
}

/// Position and length as acknowledgements and fetches carry them.
pub open spec fn locator(offset: u64, len: u32) -> Seq<u8> {
    wire::be64(offset) + wire::be32(len)
}

/// A log position and a record length at the front of a payload.
pub open spec fn located(payload: Seq<u8>) -> Option<(u64, u32)> {
    if payload.len() >= 12 {
        Some((wire::u64_at(payload, 0), wire::u32_at(payload, 8)))
    } else {
        None
    }
}

/// A locator reads back as the numbers it was made of, whatever follows it.
pub proof fn locator_round_trip(offset: u64, len: u32, rest: Seq<u8>)
    ensures
        located(locator(offset, len) + rest) == Some((offset, len)),
{
    let s = locator(offset, len) + rest;
    assert(s.subrange(0, 8) =~= wire::be64(offset));
    assert(s.subrange(8, 12) =~= wire::be32(len));
    wire::u64_round_trip(offset, s, 0);
    wire::u32_round_trip(len, s, 8);
}

/// Reads the position and length at the front of a payload.
pub fn read_locator(payload: &[u8]) -> (r: Option<(u64, u32)>)
    ensures
        r == located(payload@),
{
    if payload.len() >= 12 {
        Some((wire::get_u64(payload, 0), wire::get_u32(payload, 8)))
    } else {
        None
    }
}

/// A frame whose topic and payload borrow from the parser's buffer.
#[derive(Debug)]
pub struct FrameRef<'a> {
    pub op: Op,
    pub topic: &'a [u8],
    pub payload: &'a [u8],
    /// Log position, for `Ack` and `Notify`.
    pub offset: Option<u64>,
    /// Record length, for `Ack` and `Notify`.
    pub len: Option<u32>,
}

impl<'a> View for FrameRef<'a> {
    type V = Message;

    open spec fn view(&self) -> Message {
        Message { op: self.op, topic: self.topic@, payload: self.payload@ }
    }
}

impl<'a> FrameRef<'a> {
    /// `offset` and `len` are the locator of an acknowledgement or a
    /// notification, and absent on everything else.
    pub open spec fn wf(self) -> bool {
        if self.op == Op::Ack || self.op == Op::Notify {
            match located(self.payload@) {
                Some((offset, len)) => self.offset == Some(offset) && self.len == Some(len),
                None => self.offset is None && self.len is None,
            }
        } else {
            self.offset is None && self.len is None
        }
    }
}

/// How a frame is laid out: its length behind the length field, the code of its
/// operation, the lengths of topic and payload, and these two, in this order.
pub proof fn frames_are_laid_out(m: Message)
    requires
        9 + m.topic.len() + m.payload.len() <= u32::MAX,
    ensures
        ({
            let s = m.encoded();
            let (t, p) = (m.topic.len() as int, m.payload.len() as int);
            &&& s.len() == 13 + t + p
            &&& wire::u32_at(s, 0) == s.len() - 4
            &&& s[4] == m.op.code()
            &&& wire::u32_at(s, 5) == t
            &&& wire::u32_at(s, 9) == p
            &&& s.subrange(13, 13 + t) == m.topic
            &&& s.subrange(13 + t, 13 + t + p) == m.payload
        }),
{
    broadcast use crate::protocol::wire::be32_len;

    let s = m.encoded();
    let (t, p) = (m.topic.len() as int, m.payload.len() as int);
    assert(s.subrange(0, 4) =~= wire::be32(m.body_len() as u32));
    assert(s.subrange(5, 9) =~= wire::be32(t as u32));
    assert(s.subrange(9, 13) =~= wire::be32(p as u32));
    wire::u32_round_trip(m.body_len() as u32, s, 0);
    wire::u32_round_trip(t as u32, s, 5);
    wire::u32_round_trip(p as u32, s, 9);
    assert(s.subrange(13, 13 + t) =~= m.topic);
    assert(s.subrange(13 + t, 13 + t + p) =~= m.payload);
}

/// The code of each operation.
pub proof fn codes_are_fixed(op: Op)
    ensures
        op.code() == match op {
            Op::Publish => 1u8,
            Op::Subscribe => 2,
            Op::Fetch => 3,
            Op::Ping => 4,
            Op::Ack => 5,
            Op::Notify => 6,
            Op::Data => 7,
            Op::Auth => 8,
            Op::Error => 9,
        },
{
}

/// A locator has the position in its first eight bytes and the length in the
/// four behind them.
pub proof fn locators_are_laid_out(offset: u64, len: u32)
    ensures
        locator(offset, len).len() == 12,
        locator(offset, len).take(8) == wire::be64(offset),
        locator(offset, len).skip(8) == wire::be32(len),
{
    broadcast use crate::protocol::wire::be32_len;

    assert(locator(offset, len).take(8) =~= wire::be64(offset));
    assert(locator(offset, len).skip(8) =~= wire::be32(len));
}

} // verus!
