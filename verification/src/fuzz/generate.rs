//! Generation of protocol byte strings: mostly valid frames, and some hostile
//! ones.

use super::random::{random_below, random_byte, random_bytes, random_u64};
use crate::protocol::codec::encode_frame;
use crate::protocol::frame;
use crate::protocol::frame::{Message, Op};
use crate::protocol::stream;
use crate::protocol::wire::{put_bytes, put_u32, put_u64};
use vstd::prelude::*;
use vstd::slice::slice_subrange;

verus! {

broadcast use crate::protocol::wire::be32_len;

/// Streams of valid frames in a seed corpus.
pub const VALID_SEEDS: usize = 48;

/// The operation that two draws give: now and then that of a random byte, or
/// a ping where the byte has no meaning; else one of the eight that clients
/// and brokers exchange.
pub open spec fn drawn_op(garbage: bool, byte: u8, choice: usize) -> Op {
    if garbage {
        match Op::of_code(byte) {
            Some(op) => op,
            None => Op::Ping,
        }
    } else {
        match choice {
            0usize => Op::Publish,
            1usize => Op::Subscribe,
            2usize => Op::Fetch,
            3usize => Op::Ping,
            4usize => Op::Ack,
            5usize => Op::Notify,
            6usize => Op::Data,
            _ => Op::Auth,
        }
    }
}

/// The operation that two draws give.
pub fn op_of_draw(garbage: bool, byte: u8, choice: usize) -> (op: Op)
    ensures
        op == drawn_op(garbage, byte, choice),
{
    if garbage {
        match Op::from_u8(byte) {
            Some(op) => op,
            None => Op::Ping,
        }
    } else {
        match choice {
            0 => Op::Publish,
            1 => Op::Subscribe,
            2 => Op::Fetch,
            3 => Op::Ping,
            4 => Op::Ack,
            5 => Op::Notify,
            6 => Op::Data,
            _ => Op::Auth,
        }
    }
}

/// A random operation, one in sixteen times that of a random byte.
pub fn rand_op() -> (op: Op)
    ensures
        exists|garbage: bool, byte: u8, choice: usize|
            choice < 8 && op == #[trigger] drawn_op(garbage, byte, choice),
{
    let garbage = random_below(16) == 0;
    let byte: u8 = random_byte();
    let choice: usize = random_below(8);
    op_of_draw(garbage, byte, choice)
}

/// A payload that begins with a log position and a record length.
pub fn overlay_locator(payload: &Vec<u8>, offset: u64, len: u32) -> (out: Vec<u8>)
    requires
        payload@.len() >= 12,
    ensures
        out@ == frame::locator(offset, len) + payload@.skip(12),
{
    let mut out: Vec<u8> = Vec::with_capacity(payload.len());
    put_u64(&mut out, offset);
    put_u32(&mut out, len);
    let rest = slice_subrange(payload.as_slice(), 12, payload.len());
    put_bytes(&mut out, rest);
    assert(out@ =~= frame::locator(offset, len) + payload@.skip(12));
    out
}

/// A frame that a parser takes: a topic of less than 64 bytes and a payload of
/// less than 256.
pub open spec fn is_plausible(m: Message) -> bool {
    m.topic.len() < 64 && m.payload.len() < 256
}

/// Appends one random frame that a parser takes.
pub fn push_frame(out: &mut Vec<u8>)
    ensures
        exists|m: Message| #[trigger]
            is_plausible(m) && final(out)@ == old(out)@ + m.encoded(),
{
    let op = rand_op();
    let topic_len: usize = random_below(64);
    let payload_len: usize = random_below(256);
    let topic = random_bytes(topic_len);
    let mut payload = random_bytes(payload_len);
    if payload_len >= 12 && random_below(2) == 0 {
        payload = overlay_locator(&payload, random_u64(), (random_u64() % 0x1_0000_0000) as u32);
    }
    encode_frame(out, op, topic.as_slice(), payload.as_slice());
    assert(is_plausible(Message { op, topic: topic@, payload: payload@ }));
}

/// The byte strings of a list.
pub open spec fn contents(v: Seq<Vec<u8>>) -> Seq<Seq<u8>> {
    v.map_values(|s: Vec<u8>| s@)
}

/// Frames that break the rules of the protocol in one way each.
pub open spec fn hostile() -> Seq<Seq<u8>> {
    seq![
        // A length of zero.
        seq![0u8, 0, 0, 0],
        // An absurd length.
        seq![0xFFu8, 0xFF, 0xFF, 0xFF],
        // An operation without meaning.
        seq![0u8, 0, 0, 17, 0xFF],
        // No body.
        seq![0u8, 0, 0, 13],
        // A publish with more length than fields.
        seq![0u8, 0, 0, 13, 1, 0, 0, 0, 0, 0, 0, 0, 0],
        // A subscribe with one byte more.
        seq![0u8, 0, 0, 14, 2, 0, 0, 0, 0, 0, 0, 0, 0, 0],
        // A length below that of the header.
        seq![0u8, 0, 0, 12],
        // A length far beyond the limit.
        seq![0x7Fu8, 0xFF, 0xFF, 0xFF, 1, 0, 0, 0, 0, 0, 0, 0, 0],
        // A long frame that never comes.
        seq![0u8, 1, 0, 0, 3],
        // A token behind lengths of zero.
        seq![0u8, 0, 0, 17, 8, 0, 0, 0, 0, 0, 0, 0, 0, 98, 97, 100, 0],
        // A fetch with a short payload.
        seq![0u8, 0, 0, 14, 3, 0, 0, 0, 0, 0, 0, 0, 0, 0],
        // A fetch with lengths of zero and a payload.
        seq![0u8, 0, 0, 25, 3, 0, 0, 0, 0, 0, 0, 0, 0, 0, 0, 0, 0, 0, 0, 0, 0, 0, 0, 0, 0, 0],
    ]
}

/// Frames that break the rules of the protocol in one way each.
pub fn hostile_seeds() -> (v: Vec<Vec<u8>>)
    ensures
        contents(v@) == hostile(),
{
    let v: Vec<Vec<u8>> = vec![
        vec![0u8, 0, 0, 0],
        vec![0xFFu8, 0xFF, 0xFF, 0xFF],
        vec![0u8, 0, 0, 17, 0xFF],
        vec![0u8, 0, 0, 13],
        vec![0u8, 0, 0, 13, 1, 0, 0, 0, 0, 0, 0, 0, 0],
        vec![0u8, 0, 0, 14, 2, 0, 0, 0, 0, 0, 0, 0, 0, 0],
        vec![0u8, 0, 0, 12],
        vec![0x7Fu8, 0xFF, 0xFF, 0xFF, 1, 0, 0, 0, 0, 0, 0, 0, 0],
        vec![0u8, 1, 0, 0, 3],
        vec![0u8, 0, 0, 17, 8, 0, 0, 0, 0, 0, 0, 0, 0, 98, 97, 100, 0],
        vec![0u8, 0, 0, 14, 3, 0, 0, 0, 0, 0, 0, 0, 0, 0],
        vec![0u8, 0, 0, 25, 3, 0, 0, 0, 0, 0, 0, 0, 0, 0, 0, 0, 0, 0, 0, 0, 0, 0, 0, 0, 0, 0],
    ];
    proof {
        let c = contents(v@);
        let h = hostile();
        assert(c[0] =~= h[0]);
        assert(c[1] =~= h[1]);
        assert(c[2] =~= h[2]);
        assert(c[3] =~= h[3]);
        assert(c[4] =~= h[4]);
        assert(c[5] =~= h[5]);
        assert(c[6] =~= h[6]);
        assert(c[7] =~= h[7]);
        assert(c[8] =~= h[8]);
        assert(c[9] =~= h[9]);
        assert(c[10] =~= h[10]);
        assert(c[11] =~= h[11]);
        assert(c =~= h);
    }
    v
}

/// `s` is the encoding of one to eight plausible frames.
pub open spec fn is_valid_seed(s: Seq<u8>) -> bool {
    exists|ms: Seq<Message>| #[trigger]
        stream::encodings(ms) == s && 1 <= ms.len() <= 8 && forall|i: int|
            0 <= i < ms.len() ==> is_plausible(#[trigger] ms[i])
}

/// A stream of one to eight random frames.
fn valid_seed() -> (s: Vec<u8>)
    ensures
        is_valid_seed(s@),
{
    let mut s: Vec<u8> = Vec::new();
    let n: usize = 1 + random_below(8);
    let ghost mut ms: Seq<Message> = Seq::empty();
    let mut i: usize = 0;
    while i < n
        invariant
            i <= n,
            1 <= n <= 8,
            ms.len() == i,
            s@ == stream::encodings(ms),
            forall|k: int| 0 <= k < ms.len() ==> is_plausible(#[trigger] ms[k]),
        decreases n - i,
    {
        let ghost before = s@;
        push_frame(&mut s);
        proof {
            let m = choose|m: Message| #[trigger] is_plausible(m) && s@ == before + m.encoded();
            stream::encodings_push(ms, m);
            ms = ms.push(m);
        }
        i = i + 1;
    }
    s
}

/// The first corpus: random valid streams, then the hostile frames.
pub fn seed_corpus() -> (seeds: Vec<Vec<u8>>)
    ensures
        seeds@.len() == VALID_SEEDS + 12,
        seeds@.len() == 60,
        forall|i: int| 0 <= i < VALID_SEEDS ==> is_valid_seed((#[trigger] seeds@[i])@),
        contents(seeds@).skip(VALID_SEEDS as int) == hostile(),
{
    let mut seeds: Vec<Vec<u8>> = Vec::new();
    while seeds.len() < VALID_SEEDS
        invariant
            seeds@.len() <= VALID_SEEDS,
            forall|i: int| 0 <= i < seeds@.len() ==> is_valid_seed((#[trigger] seeds@[i])@),
        decreases VALID_SEEDS - seeds@.len(),
    {
        seeds.push(valid_seed());
    }
    let mut rest = hostile_seeds();
    let ghost valid = seeds@;
    let ghost bad = rest@;
    seeds.append(&mut rest);
    proof {
        assert(contents(bad).len() == bad.len());
        assert(hostile().len() == 12);
        assert forall|i: int| 0 <= i < VALID_SEEDS implies is_valid_seed(
            (#[trigger] seeds@[i])@,
        ) by {
            assert(seeds@[i] == valid[i]);
        }
        assert(contents(seeds@).skip(VALID_SEEDS as int) =~= contents(bad));
    }
    seeds
}

/// A parser takes every frame of a valid seed.
pub proof fn valid_seeds_parse(s: Seq<u8>)
    requires
        is_valid_seed(s),
    ensures
        stream::frames(s).len() >= 1,
        stream::encodings(stream::frames(s)) == s,
        stream::rest(s) == Seq::<u8>::empty(),
{
    let ms = choose|ms: Seq<Message>| #[trigger]
        stream::encodings(ms) == s && 1 <= ms.len() <= 8 && forall|i: int|
            0 <= i < ms.len() ==> is_plausible(#[trigger] ms[i]);
    assert forall|i: int| 0 <= i < ms.len() implies (#[trigger] ms[i]).fits() by {
        assert(is_plausible(ms[i]));
    }
    stream::stream_yields_messages(ms, Seq::empty());
    assert(stream::encodings(ms) + Seq::<u8>::empty() =~= s);
}

/// What may be drawn: without garbage each of the eight operations that are
/// exchanged, by another choice each; with it, the one whose code the byte is,
/// and a ping where it is no code.
pub proof fn draws_cover_the_operations(a: usize, b: usize, byte: u8, choice: usize)
    requires
        a < 8,
        b < 8,
    ensures
        drawn_op(false, byte, a) == drawn_op(false, byte, b) ==> a == b,
        drawn_op(false, byte, a).code() <= 8,
        drawn_op(true, byte, choice).code() == byte || drawn_op(true, byte, choice) == Op::Ping,
        (exists|op: Op| #[trigger] op.code() == byte) ==> drawn_op(true, byte, choice).code()
            == byte,
{
    if exists|op: Op| #[trigger] op.code() == byte {
        let op = choose|op: Op| #[trigger] op.code() == byte;
        op.codes_are_distinct();
    }
    if let Some(op) = Op::of_code(byte) {
        op.codes_are_distinct();
    }
}

/// No parser takes the first of the hostile frames for frames: those that are
/// short, too long, or of no operation.
pub proof fn hostile_lengths_are_no_frames()
    ensures
        stream::frames(hostile()[0]).len() == 0,
        stream::frames(hostile()[1]).len() == 0,
        stream::frames(hostile()[2]).len() == 0,
        stream::frames(hostile()[3]).len() == 0,
        stream::frames(hostile()[6]).len() == 0,
        stream::frames(hostile()[7]).len() == 0,
        stream::frames(hostile()[8]).len() == 0,
{
    reveal(crate::protocol::wire::u32_at);
}

/// The byte strings of a list stand in its order.
pub proof fn contents_keep_the_order(v: Seq<Vec<u8>>, i: int)
    requires
        0 <= i < v.len(),
    ensures
        contents(v).len() == v.len(),
        contents(v)[i] == v[i]@,
{
}

} // verus!
