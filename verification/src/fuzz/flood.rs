//! Floods: frames of all sorts for a live broker, good and bad.

use super::random::{random_below, random_byte};
use crate::protocol::codec::{encode_fetch, encode_publish, encode_subscribe};
use crate::protocol::frame;
use crate::protocol::frame::{Message, Op};
use crate::protocol::stream;
use crate::protocol::wire;
use crate::protocol::wire::put_u32;
use vstd::prelude::*;

verus! {

broadcast use crate::protocol::wire::be32_len;

/// What is sent next.
#[derive(Debug, Clone, Copy, PartialEq, Eq, Structural)]
pub enum Flood {
    /// A record on one of a few topics.
    Publish { topic: usize, len: usize },
    /// A subscription.
    Subscribe { topic: usize },
    /// A request for a record, likely not there.
    Fetch { offset: u64, len: u32 },
    /// Bytes without sense.
    Garbage { byte: u8, n: usize },
    /// A length that claims far more than comes.
    Phantom { claimed: u32, byte: u8 },
    /// A length too small for a frame.
    Tiny { claimed: u32, byte: u8 },
}

/// `b`, several times.
pub open spec fn filled(b: u8, n: nat) -> Seq<u8> {
    Seq::new(n, |i: int| b)
}

/// A number below one hundred, in decimal.
pub open spec fn decimal(n: usize) -> Seq<u8> {
    if n < 10 {
        seq![(48 + n) as u8]
    } else {
        seq![(48 + n / 10) as u8, (48 + n % 10) as u8]
    }
}

/// `topic`, and a number.
pub open spec fn topic_name(n: usize) -> Seq<u8> {
    seq![116u8, 111u8, 112u8, 105u8, 99u8] + decimal(n)
}

/// `.sub`.
pub open spec fn sub_suffix() -> Seq<u8> {
    seq![46u8, 115u8, 117u8, 98u8]
}

impl Flood {
    /// The bytes that are sent.
    pub open spec fn bytes(self) -> Seq<u8> {
        match self {
            Flood::Publish { topic, len } => (Message {
                op: Op::Publish,
                topic: topic_name(topic),
                payload: filled(120, len as nat),
            }).encoded(),
            Flood::Subscribe { topic } => (Message {
                op: Op::Subscribe,
                topic: topic_name(topic) + sub_suffix(),
                payload: Seq::empty(),
            }).encoded(),
            Flood::Fetch { offset, len } => (Message {
                op: Op::Fetch,
                topic: topic_name(0),
                payload: frame::locator(offset, len),
            }).encoded(),
            Flood::Garbage { byte, n } => filled(byte, n as nat),
            Flood::Phantom { claimed, byte } => wire::be32(claimed) + filled(byte, 4),
            Flood::Tiny { claimed, byte } => wire::be32(claimed) + filled(byte, 2),
        }
    }

    /// The numbers are in their ranges.
    pub open spec fn wf(self) -> bool {
        match self {
            Flood::Publish { topic, len } => topic < 16 && len < 64,
            Flood::Subscribe { topic } => topic < 16,
            Flood::Fetch { offset, len } => offset < 1_000_000 && len < 256,
            Flood::Garbage { byte, n } => 1 <= n < 64,
            Flood::Phantom { claimed, byte } => 2 <= claimed < 1_000_000,
            Flood::Tiny { claimed, byte } => claimed < 9,
        }
    }
}

fn filled_bytes(b: u8, n: usize) -> (v: Vec<u8>)
    ensures
        v@ == filled(b, n as nat),
{
    let v: Vec<u8> = vec![b; n];
    assert(v@ =~= filled(b, n as nat));
    v
}

fn topic_bytes(n: usize) -> (v: Vec<u8>)
    requires
        n < 100,
    ensures
        v@ == topic_name(n),
        v@.len() <= 7,
{
    let mut v: Vec<u8> = vec![116u8, 111u8, 112u8, 105u8, 99u8];
    if n >= 10 {
        v.push((48 + n / 10) as u8);
    }
    v.push((48 + n % 10) as u8);
    assert(v@ =~= topic_name(n));
    v
}

/// The bytes of a flood's next frame.
pub fn flood_frame(f: Flood) -> (v: Vec<u8>)
    requires
        f.wf(),
    ensures
        v@ == f.bytes(),
{
    let mut v: Vec<u8> = Vec::new();
    match f {
        Flood::Publish { topic, len } => {
            encode_publish(
                &mut v,
                topic_bytes(topic).as_slice(),
                filled_bytes(120, len).as_slice(),
            );
        },
        Flood::Subscribe { topic } => {
            let mut name = topic_bytes(topic);
            name.push(46u8);
            name.push(115u8);
            name.push(117u8);
            name.push(98u8);
            assert(name@ =~= topic_name(topic) + sub_suffix());
            encode_subscribe(&mut v, name.as_slice());
        },
        Flood::Fetch { offset, len } => {
            encode_fetch(&mut v, topic_bytes(0).as_slice(), offset, len);
        },
        Flood::Garbage { byte, n } => {
            v = filled_bytes(byte, n);
        },
        Flood::Phantom { claimed, byte } => {
            put_u32(&mut v, claimed);
            wire::put_bytes(&mut v, filled_bytes(byte, 4).as_slice());
        },
        Flood::Tiny { claimed, byte } => {
            put_u32(&mut v, claimed);
            wire::put_bytes(&mut v, filled_bytes(byte, 2).as_slice());
        },
    }
    assert(v@ =~= f.bytes());
    v
}

/// The sort of frame that a draw from one hundred gives.
pub fn flood_of_draw(draw: usize, topic: usize, len: usize, byte: u8, number: u32) -> (f: Flood)
    ensures
        f == if draw <= 34 {
            Flood::Publish { topic, len }
        } else if draw <= 49 {
            Flood::Subscribe { topic }
        } else if draw <= 61 {
            Flood::Fetch { offset: number as u64, len: len as u32 }
        } else if draw <= 74 {
            Flood::Garbage { byte, n: len }
        } else if draw <= 89 {
            Flood::Phantom { claimed: number, byte }
        } else {
            Flood::Tiny { claimed: number, byte }
        },
{
    if draw <= 34 {
        Flood::Publish { topic, len }
    } else if draw <= 49 {
        Flood::Subscribe { topic }
    } else if draw <= 61 {
        Flood::Fetch { offset: number as u64, len: len as u32 }
    } else if draw <= 74 {
        Flood::Garbage { byte, n: len }
    } else if draw <= 89 {
        Flood::Phantom { claimed: number, byte }
    } else {
        Flood::Tiny { claimed: number, byte }
    }
}

/// A random frame for a flood.
pub fn random_flood() -> (f: Flood)
    ensures
        f.wf(),
{
    let draw: usize = random_below(100);
    let topic: usize = random_below(16);
    let byte: u8 = random_byte();
    if draw <= 49 {
        flood_of_draw(draw, topic, random_below(64), byte, 0)
    } else if draw <= 61 {
        flood_of_draw(draw, topic, random_below(256), byte, random_below(1_000_000) as u32)
    } else if draw <= 74 {
        flood_of_draw(draw, topic, 1 + random_below(63), byte, 0)
    } else if draw <= 89 {
        flood_of_draw(draw, topic, 0, byte, 2 + random_below(999_998) as u32)
    } else {
        flood_of_draw(draw, topic, 0, byte, random_below(9) as u32)
    }
}

/// How many bytes a connection floods in so many seconds.
pub fn flood_bytes(seconds: u64) -> (n: usize)
    ensures
        n == if seconds as usize * 200_000 > usize::MAX {
            usize::MAX
        } else if seconds as usize * 200_000 < 100_000 {
            100_000
        } else {
            (seconds as usize * 200_000) as usize
        },
{
    let s: usize = seconds as usize;
    let n: usize = if s > usize::MAX / 200_000 {
        usize::MAX
    } else {
        s * 200_000
    };
    if n < 100_000 {
        100_000
    } else {
        n
    }
}

/// How many connections flood: at least one.
pub fn flood_threads(conns: usize) -> (n: usize)
    ensures
        n == if conns == 0 {
            1
        } else {
            conns
        },
{
    if conns == 0 {
        1
    } else {
        conns
    }
}

/// A flood's good frames are what they say: a parser takes each for a record,
/// a subscription or a request, on the topic of its number.
pub proof fn good_floods_parse(f: Flood, more: Seq<u8>)
    requires
        f.wf(),
        f is Publish || f is Subscribe || f is Fetch,
    ensures
        stream::front(f.bytes() + more) matches stream::Front::Frame(m, n) && {
            &&& n == f.bytes().len()
            &&& match f {
                Flood::Publish { topic, len } => m.op == Op::Publish && m.topic == topic_name(topic)
                    && m.payload.len() == len && forall|i: int|
                    0 <= i < len ==> m.payload[i] == 'x' as u8,
                Flood::Subscribe { topic } => m.op == Op::Subscribe && m.payload.len() == 0
                    && m.topic.len() == topic_name(topic).len() + 4 && m.topic.take(
                    topic_name(topic).len() as int,
                ) == topic_name(topic),
                Flood::Fetch { offset, len } => m.op == Op::Fetch && m.topic == topic_name(0)
                    && frame::located(m.payload) == Some((offset, len)),
                _ => false,
            }
        },
{
    match f {
        Flood::Publish { topic, len } => {
            let m = Message {
                op: Op::Publish,
                topic: topic_name(topic),
                payload: filled(120, len as nat),
            };
            stream::parse_undoes_encode(m, more);
        },
        Flood::Subscribe { topic } => {
            let m = Message {
                op: Op::Subscribe,
                topic: topic_name(topic) + sub_suffix(),
                payload: Seq::empty(),
            };
            stream::parse_undoes_encode(m, more);
            assert(m.topic.take(topic_name(topic).len() as int) =~= topic_name(topic));
        },
        Flood::Fetch { offset, len } => {
            let m = Message {
                op: Op::Fetch,
                topic: topic_name(0),
                payload: frame::locator(offset, len),
            };
            frame::locator_round_trip(offset, len, Seq::empty());
            assert(frame::locator(offset, len) + Seq::<u8>::empty() =~= m.payload);
            stream::parse_undoes_encode(m, more);
        },
        _ => {},
    }
}

/// A phantom announces the length it claims, and less than that follows where
/// it claims more than four bytes: a parser waits.
pub proof fn phantoms_leave_parsers_waiting(claimed: u32, byte: u8)
    requires
        4 < claimed <= frame::MAX_FRAME,
    ensures
        stream::front((Flood::Phantom { claimed, byte }).bytes()) is Incomplete,
        stream::announced((Flood::Phantom { claimed, byte }).bytes()) == claimed,
{
    let s = (Flood::Phantom { claimed, byte }).bytes();
    assert(s.subrange(0, 4) =~= wire::be32(claimed));
    wire::u32_round_trip(claimed, s, 0);
}

/// A tiny frame announces less than a header takes: no parser takes it for a
/// frame, whatever follows.
pub proof fn tiny_floods_are_no_frames(claimed: u32, byte: u8, more: Seq<u8>)
    requires
        claimed < 9,
    ensures
        !(stream::front((Flood::Tiny { claimed, byte }).bytes() + more) is Frame),
        stream::announced((Flood::Tiny { claimed, byte }).bytes() + more) == claimed,
{
    let s = (Flood::Tiny { claimed, byte }).bytes() + more;
    assert(s.subrange(0, 4) =~= wire::be32(claimed));
    wire::u32_round_trip(claimed, s, 0);
}

/// Two topics of a flood have the same name only where they have the same
/// number, and the name is `topic` with the number in decimal behind it.
pub proof fn topics_are_numbered(m: usize, n: usize)
    requires
        m < 100,
        n < 100,
    ensures
        topic_name(m) == topic_name(n) ==> m == n,
        topic_name(n).take(5) == vstd::utf8::encode_utf8("topic"@),
        n < 10 ==> topic_name(n).len() == 6 && topic_name(n)[5] - '0' as u8 == n,
        n >= 10 ==> topic_name(n).len() == 7 && (topic_name(n)[5] - '0' as u8) * 10 + (topic_name(
            n,
        )[6] - '0' as u8) == n,
{
    reveal_strlit("topic");
    vstd::utf8::is_ascii_chars_encode_utf8("topic"@);
    assert(topic_name(n).take(5) =~= vstd::utf8::encode_utf8("topic"@));
    let (a, b) = (topic_name(m), topic_name(n));
    if a == b {
        assert(a.len() == b.len());
        assert(a[5] == b[5]);
        if m >= 10 {
            assert(a[6] == b[6]);
        }
    }
}

} // verus!
