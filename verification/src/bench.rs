//! The client side of a benchmark: batches, acknowledgements, deliveries, and
//! the comparison of acknowledged records with what a ring file holds.

use crate::protocol::codec::encode_publish;
use crate::protocol::frame;
use crate::protocol::frame::{Message, Op};
use crate::protocol::parser::Parser;
use crate::protocol::stream;
use crate::protocol::wire;
use crate::store::header::FILE_HEADER_SIZE;
use vstd::prelude::*;

verus! {

broadcast use crate::protocol::wire::be32_len;

/// Every so many acknowledgements, one is sampled.
pub const SAMPLE_EVERY: usize = 64;

/// How many samples are held.
pub const MAX_SAMPLES: usize = 4096;

/// Direct reads start and end at multiples of this.
pub const BLOCK: u64 = 4096;

/// Latencies from here on do not count: one minute, in nanoseconds.
pub const MAX_LATENCY_NS: u64 = 60_000_000_000;

/// How many messages the next batch has: a full batch where time decides, else
/// what is left of the target.
pub fn batch_size(target: Option<usize>, done: usize, batch: usize) -> (n: usize)
    requires
        target matches Some(t) ==> done <= t,
    ensures
        n == match target {
            Some(t) => if t - done < batch {
                (t - done) as usize
            } else {
                batch
            },
            None => batch,
        },
{
    match target {
        Some(t) => if t - done < batch {
            t - done
        } else {
            batch
        },
        None => batch,
    }
}

/// A payload that begins with a time stamp; the rest is filled with `x`.
pub open spec fn stamped(stamp: u64, size: nat) -> Seq<u8> {
    wire::be64(stamp) + Seq::new((size - 8) as nat, |i: int| 120u8)
}

/// A payload that begins with a time stamp.
pub fn stamped_payload(stamp: u64, size: usize) -> (payload: Vec<u8>)
    requires
        size >= 8,
    ensures
        payload@ == stamped(stamp, size as nat),
{
    let mut payload: Vec<u8> = Vec::with_capacity(size);
    wire::put_u64(&mut payload, stamp);
    let fill: Vec<u8> = vec![120u8; size - 8];
    wire::put_bytes(&mut payload, fill.as_slice());
    assert(payload@ =~= stamped(stamp, size as nat));
    payload
}

/// The records of a batch.
pub open spec fn batch_messages(topic: Seq<u8>, size: nat, stamps: Seq<u64>) -> Seq<Message> {
    stamps.map_values(
        |t: u64| Message { op: Op::Publish, topic, payload: stamped(t, size) },
    )
}

/// The bytes of a batch: one record for each time stamp.
pub fn encode_batch(topic: &[u8], size: usize, stamps: &Vec<u64>) -> (out: Vec<u8>)
    requires
        size >= 8,
        13 + topic@.len() + size <= usize::MAX,
    ensures
        out@ == stream::encodings(batch_messages(topic@, size as nat, stamps@)),
{
    let mut out: Vec<u8> = Vec::new();
    let ghost all = batch_messages(topic@, size as nat, stamps@);
    let mut i: usize = 0;
    assert(all.take(0) =~= Seq::<Message>::empty());
    while i < stamps.len()
        invariant
            i <= stamps@.len(),
            size >= 8,
            13 + topic@.len() + size <= usize::MAX,
            all == batch_messages(topic@, size as nat, stamps@),
            out@ == stream::encodings(all.take(i as int)),
        decreases stamps@.len() - i,
    {
        let payload = stamped_payload(stamps[i], size);
        assert(payload@.len() == size);
        encode_publish(&mut out, topic, payload.as_slice());
        proof {
            assert(all.take(i + 1) =~= all.take(i as int).push(all[i as int]));
            stream::encodings_push(all.take(i as int), all[i as int]);
        }
        i = i + 1;
    }
    assert(all.take(i as int) =~= all);
    out
}

/// A record whose payload is `x` throughout.
pub open spec fn plain_message(topic: Seq<u8>, size: nat) -> Message {
    Message { op: Op::Publish, topic, payload: Seq::new(size, |i: int| 120u8) }
}

/// The bytes of a batch of `n` records whose payloads are `x` throughout.
pub fn plain_batch(topic: &[u8], size: usize, n: usize) -> (out: Vec<u8>)
    requires
        13 + topic@.len() + size <= usize::MAX,
    ensures
        out@ == stream::encodings(Seq::new(n as nat, |i: int| plain_message(topic@, size as nat))),
{
    let payload: Vec<u8> = vec![120u8; size];
    assert(payload@ =~= plain_message(topic@, size as nat).payload);
    let mut out: Vec<u8> = Vec::new();
    let ghost all = Seq::new(n as nat, |i: int| plain_message(topic@, size as nat));
    let mut i: usize = 0;
    assert(all.take(0) =~= Seq::<Message>::empty());
    while i < n
        invariant
            i <= n,
            13 + topic@.len() + size <= usize::MAX,
            payload@ == plain_message(topic@, size as nat).payload,
            payload@.len() == size,
            all == Seq::new(n as nat, |i: int| plain_message(topic@, size as nat)),
            out@ == stream::encodings(all.take(i as int)),
        decreases n - i,
    {
        encode_publish(&mut out, topic, payload.as_slice());
        proof {
            assert(all.take(i + 1) =~= all.take(i as int).push(all[i as int]));
            stream::encodings_push(all.take(i as int), all[i as int]);
        }
        i = i + 1;
    }
    assert(all.take(i as int) =~= all);
    out
}

/// How many acknowledgements may be outstanding before a producer that does
/// not wait for them reads some.
pub const DRAIN_ABOVE: usize = 1000;

/// How long a run is watched at most, in seconds.
pub const WATCHED_SECONDS: u64 = 30;

/// Whether a run is watched on: until all was produced and consumed, but not
/// too long.
pub fn monitor_goes_on(elapsed_s: u64, produced: u64, consumed: u64, msgs: u64) -> (yes: bool)
    ensures
        yes == (elapsed_s < WATCHED_SECONDS && (produced < msgs || consumed < msgs)),
        yes ==> elapsed_s < 30,
        !yes ==> elapsed_s >= 30 || (produced >= msgs && consumed >= msgs),
{
    elapsed_s < WATCHED_SECONDS && (produced < msgs || consumed < msgs)
}

/// Whether consumers have caught up with producers.
pub fn caught_up(produced: u64, consumed: u64) -> (yes: bool)
    ensures
        yes == (consumed >= produced && consumed > 0),
{
    consumed >= produced && consumed > 0
}

/// How many acknowledgements are still outstanding after some came.
pub fn outstanding(pending: usize, acks: u64) -> (left: usize)
    ensures
        left == if acks > pending {
            0
        } else {
            pending - acks
        },
{
    if acks > pending as u64 {
        0
    } else {
        pending - acks as usize
    }
}

/// An acknowledged record: position, length and the time stamp it was sent
/// with.
#[derive(Debug, Clone, Copy, PartialEq, Eq, Structural)]
pub struct Sample {
    pub offset: u64,
    pub len: u32,
    pub stamp: u64,
}

/// The acknowledgements of a batch, as values.
#[verifier::ext_equal]
pub struct AckState {
    /// How many came.
    pub got: nat,
    /// How many were sampled, ever.
    pub sampled: nat,
    pub samples: Seq<Sample>,
}

impl AckState {
    /// A sample comes in: behind the others, or, where there are enough, in
    /// the place of the oldest.
    pub open spec fn sampled_one(self, m: Message, stamp: u64) -> AckState {
        let samples = match frame::located(m.payload) {
            None => self.samples,
            Some((offset, len)) => {
                let s = Sample { offset, len, stamp };
                if self.samples.len() < MAX_SAMPLES {
                    self.samples.push(s)
                } else {
                    self.samples.update(self.sampled as int % MAX_SAMPLES as int, s)
                }
            },
        };
        AckState { samples, sampled: self.sampled + 1, ..self }
    }

    /// A frame comes in.
    pub open spec fn step(self, stamps: Seq<u64>, m: Message) -> AckState {
        if m.op != Op::Ack {
            self
        } else {
            let got = self.got + 1;
            let next = AckState { got, ..self };
            if got % SAMPLE_EVERY as nat == 0 {
                let stamp = if got <= stamps.len() {
                    stamps[got - 1]
                } else {
                    0
                };
                next.sampled_one(m, stamp)
            } else {
                next
            }
        }
    }

    /// Several frames come in.
    pub open spec fn run(self, stamps: Seq<u64>, ms: Seq<Message>) -> AckState
        decreases ms.len(),
    {
        if ms.len() == 0 {
            self
        } else {
            self.step(stamps, ms[0]).run(stamps, ms.skip(1))
        }
    }
}

/// Counts the acknowledgements of a producer's batches.
pub struct AckCounter {
    parser: Parser,
    got: usize,
    sampled: u64,
}

impl AckCounter {
    pub closed spec fn wf(&self) -> bool {
        self.parser.wf()
    }

    pub closed spec fn pending(&self) -> Seq<u8> {
        self.parser@
    }

    /// The state with the samples of all producers.
    pub closed spec fn state(&self, samples: Seq<Sample>) -> AckState {
        AckState { got: self.got as nat, sampled: self.sampled as nat, samples }
    }

    pub fn new() -> (c: AckCounter)
        ensures
            c.wf(),
            c.pending() == Seq::<u8>::empty(),
            forall|s: Seq<Sample>| #[trigger]
                c.state(s) == (AckState { got: 0, sampled: 0, samples: s }),
    {
        AckCounter { parser: Parser::new(262144), got: 0, sampled: 0 }
    }

    /// Starts the next batch.
    pub fn next_batch(&mut self)
        requires
            old(self).wf(),
        ensures
            final(self).wf(),
            final(self).pending() == old(self).pending(),
            forall|s: Seq<Sample>| #[trigger]
                final(self).state(s) == (AckState { got: 0, ..old(self).state(s) }),
    {
        self.got = 0;
    }

    /// How many acknowledgements of the batch came.
    pub fn got(&self) -> (n: usize)
        ensures
            forall|s: Seq<Sample>| n == (#[trigger] self.state(s)).got,
    {
        self.got
    }

    /// Takes in received bytes.
    pub fn on_read(&mut self, bytes: &[u8], stamps: &Vec<u64>, samples: &mut Vec<Sample>)
        requires
            old(self).wf(),
            old(self).state(old(samples)@).got + old(self).pending().len() + bytes@.len()
                <= usize::MAX,
            old(self).state(old(samples)@).sampled + old(self).pending().len() + bytes@.len()
                <= u64::MAX,
            old(samples)@.len() <= MAX_SAMPLES,
        ensures
            final(self).wf(),
            final(samples)@.len() <= MAX_SAMPLES,
            final(self).pending() == stream::rest(old(self).pending() + bytes@),
            final(self).state(final(samples)@) == old(self).state(old(samples)@).run(
                stamps@,
                stream::frames(old(self).pending() + bytes@),
            ),
    {
        let ghost received = self.pending() + bytes@;
        let ghost last = self.state(samples@).run(stamps@, stream::frames(received));
        self.parser.feed(bytes);
        let ghost mut todo = stream::frames(received);
        loop
            invariant_except_break
                todo == stream::frames(self.parser@),
                stream::rest(self.parser@) == stream::rest(received),
                self.got + self.parser@.len() <= usize::MAX,
                self.sampled + self.parser@.len() <= u64::MAX,
            invariant
                self.parser.wf(),
                samples@.len() <= MAX_SAMPLES,
                last == self.state(samples@).run(stamps@, todo),
            ensures
                todo.len() == 0,
                self.parser@ == stream::rest(received),
            decreases self.parser@.len(),
        {
            let ghost s = self.parser@;
            proof {
                stream::front_bounds(s);
            }
            let ghost before = self.state(samples@);
            let ack: Option<Option<(u64, u32)>> = match self.parser.try_parse() {
                None => {
                    break;
                },
                Some(f) => {
                    assert(todo[0] == f@);
                    if f.op == Op::Ack {
                        Some(frame::read_locator(f.payload))
                    } else {
                        None
                    }
                },
            };
            self.parser.consume();
            if let Some(located) = ack {
                self.got = self.got + 1;
                if self.got % SAMPLE_EVERY == 0 {
                    let stamp: u64 = if self.got <= stamps.len() {
                        stamps[self.got - 1]
                    } else {
                        0
                    };
                    if let Some((offset, len)) = located {
                        let sample = Sample { offset, len, stamp };
                        if samples.len() < MAX_SAMPLES {
                            samples.push(sample);
                        } else {
                            let i: usize = (self.sampled % (MAX_SAMPLES as u64)) as usize;
                            samples[i] = sample;
                        }
                    }
                    self.sampled = self.sampled + 1;
                }
            }
            proof {
                assert(self.state(samples@) =~= before.step(stamps@, todo[0]));
                todo = todo.skip(1);
                assert(todo =~= stream::frames(self.parser@));
            }
        }
    }
}

/// How many of the messages have an operation.
pub open spec fn count_op(ms: Seq<Message>, op: Op) -> nat
    decreases ms.len(),
{
    if ms.len() == 0 {
        0
    } else {
        count_op(ms.skip(1), op) + if ms[0].op == op {
            1nat
        } else {
            0nat
        }
    }
}

/// The time stamps of delivered records: those of `Data` frames with at least
/// eight bytes.
pub open spec fn delivered(ms: Seq<Message>) -> Seq<u64>
    decreases ms.len(),
{
    if ms.len() == 0 {
        Seq::empty()
    } else if ms[0].op == Op::Data && ms[0].payload.len() >= 8 {
        seq![wire::u64_at(ms[0].payload, 0)] + delivered(ms.skip(1))
    } else {
        delivered(ms.skip(1))
    }
}

/// What a read brought.
pub struct Received {
    /// Acknowledgements.
    pub acks: u64,
    /// `Data` frames.
    pub data: u64,
    /// The time stamps of those with at least eight bytes.
    pub stamps: Vec<u64>,
}

/// Takes in received bytes and counts what they bring.
pub fn receive(parser: &mut Parser, bytes: &[u8]) -> (r: Received)
    requires
        old(parser).wf(),
        old(parser)@.len() + bytes@.len() <= u64::MAX,
    ensures
        final(parser).wf(),
        final(parser)@ == stream::rest(old(parser)@ + bytes@),
        r.acks == count_op(stream::frames(old(parser)@ + bytes@), Op::Ack),
        r.data == count_op(stream::frames(old(parser)@ + bytes@), Op::Data),
        r.stamps@ == delivered(stream::frames(old(parser)@ + bytes@)),
{
    let ghost received = parser@ + bytes@;
    let ghost all = stream::frames(received);
    parser.feed(bytes);
    let mut r = Received { acks: 0, data: 0, stamps: Vec::new() };
    let ghost mut todo = all;
    loop
        invariant_except_break
            todo == stream::frames(parser@),
            stream::rest(parser@) == stream::rest(received),
            r.acks + parser@.len() <= u64::MAX,
            r.data + parser@.len() <= u64::MAX,
        invariant
            parser.wf(),
            count_op(all, Op::Ack) == r.acks + count_op(todo, Op::Ack),
            count_op(all, Op::Data) == r.data + count_op(todo, Op::Data),
            delivered(all) == r.stamps@ + delivered(todo),
        ensures
            todo.len() == 0,
            parser@ == stream::rest(received),
        decreases parser@.len(),
    {
        let ghost s = parser@;
        proof {
            stream::front_bounds(s);
        }
        match parser.try_parse() {
            None => {
                break;
            },
            Some(f) => {
                assert(todo[0] == f@);
                let ghost before = r.stamps@;
                if f.op == Op::Ack {
                    r.acks = r.acks + 1;
                }
                if f.op == Op::Data {
                    r.data = r.data + 1;
                    if f.payload.len() >= 8 {
                        r.stamps.push(wire::get_u64(f.payload, 0));
                    }
                }
                assert(r.stamps@ + delivered(todo.skip(1)) =~= before + delivered(todo));
            },
        }
        parser.consume();
        proof {
            todo = todo.skip(1);
            assert(todo =~= stream::frames(parser@));
        }
    }
    assert(r.stamps@ + delivered(todo) =~= r.stamps@);
    r
}

/// Notes how long a record took, where there is room and it is not too long.
pub fn record_latency(latencies: &mut Vec<u64>, room: usize, now: u64, stamp: u64)
    ensures
        final(latencies)@ == ({
            let d = if now > stamp {
                now - stamp
            } else {
                0
            };
            if old(latencies)@.len() < room && d < MAX_LATENCY_NS {
                old(latencies)@.push(d as u64)
            } else {
                old(latencies)@
            }
        }),
        final(latencies)@.len() > old(latencies)@.len() ==> final(latencies)@.last()
            < 60_000_000_000 && stamp + final(latencies)@.last() == if now > stamp {
            now
        } else {
            stamp
        },
{
    if latencies.len() < room {
        let d: u64 = now.saturating_sub(stamp);
        if d < MAX_LATENCY_NS {
            latencies.push(d);
        }
    }
}

/// What came of a login.
#[derive(Debug, Clone, Copy, PartialEq, Eq, Structural)]
pub enum Login {
    /// No answer yet.
    Waiting,
    Accepted,
    Refused,
}

/// What the first answer of a broker says of a login.
pub fn login_state(parser: &mut Parser) -> (l: Login)
    requires
        old(parser).wf(),
    ensures
        final(parser).wf(),
        l == match stream::front(old(parser)@) {
            stream::Front::Frame(m, n) => if m.op == Op::Ack {
                Login::Accepted
            } else {
                Login::Refused
            },
            _ => Login::Waiting,
        },
        final(parser)@ == match stream::front(old(parser)@) {
            stream::Front::Malformed(n) => old(parser)@.skip(n),
            _ => old(parser)@,
        },
{
    match parser.try_parse() {
        None => Login::Waiting,
        Some(f) => if f.op == Op::Ack {
            Login::Accepted
        } else {
            Login::Refused
        },
    }
}

/// Where in a ring file a record lies, as a direct read needs it.
#[derive(Debug, Clone, Copy, PartialEq, Eq, Structural)]
pub struct Span {
    /// Where to read from: a multiple of the block size.
    pub start: u64,
    /// Up to where: a multiple of the block size.
    pub end: u64,
    /// How many bytes before the record were read with it.
    pub skip: u64,
}

/// Where the record of `len` bytes at `offset` lies in a file of `file_size`
/// bytes; nothing where it goes round the end of the ring.
pub fn record_span(offset: u64, len: u64, file_size: u64) -> (span: Option<Span>)
    requires
        file_size <= i64::MAX,
    ensures
        span is Some <==> file_size > FILE_HEADER_SIZE && offset as int % (file_size
            - FILE_HEADER_SIZE) + len <= file_size - FILE_HEADER_SIZE,
        span matches Some(s) ==> {
            let place = FILE_HEADER_SIZE + offset as int % (file_size - FILE_HEADER_SIZE);
            &&& s.start % BLOCK == 0
            &&& s.end % BLOCK == 0
            &&& s.start + s.skip == place
            &&& s.skip < BLOCK
            &&& place + len <= s.end < place + len + BLOCK
            &&& s.skip < 4096
            &&& s.start % 4096 == 0
            &&& s.start + s.skip == 128 + offset as int % (file_size - 128)
        },
{
    if file_size <= FILE_HEADER_SIZE as u64 {
        return None;
    }
    let ring: u64 = file_size - FILE_HEADER_SIZE as u64;
    let slot: u64 = offset % ring;
    if len > ring - slot {
        return None;
    }
    let place: u64 = FILE_HEADER_SIZE as u64 + slot;
    let skip: u64 = place % BLOCK;
    let behind: u64 = (place + len) % BLOCK;
    let pad: u64 = if behind == 0 {
        0
    } else {
        BLOCK - behind
    };
    Some(Span { start: place - skip, end: place + len + pad, skip })
}

/// A record is what was sent: topic and payload of the right lengths, the time
/// stamp, and nothing but fill behind it.
pub open spec fn is_sent(rec: Seq<u8>, topic_len: nat, size: nat, stamp: u64) -> bool {
    let p = rec.skip((8 + topic_len) as int);
    &&& rec.len() >= 8 + topic_len + size
    &&& wire::u32_at(rec, 0) == topic_len
    &&& wire::u32_at(rec, 4) == size
    &&& wire::u64_at(p, 0) == stamp
    &&& forall|i: int| 8 <= i < p.len() ==> p[i] == 120
}

/// Whether a record that was read back is what was sent.
pub fn record_matches(rec: &[u8], topic_len: usize, size: usize, stamp: u64) -> (yes: bool)
    requires
        size >= 8,
        8 + topic_len + size <= usize::MAX,
    ensures
        yes == is_sent(rec@, topic_len as nat, size as nat, stamp),
{
    if rec.len() < 8 + topic_len + size {
        return false;
    }
    if wire::get_u32(rec, 0) as usize != topic_len || wire::get_u32(rec, 4) as usize != size {
        return false;
    }
    let p = vstd::slice::slice_subrange(rec, 8 + topic_len, rec.len());
    assert(p@ =~= rec@.skip(8 + topic_len));
    if wire::get_u64(p, 0) != stamp {
        return false;
    }
    let mut i: usize = 8;
    while i < p.len()
        invariant
            8 <= i <= p@.len(),
            p@ == rec@.skip((8 + topic_len) as int),
            forall|j: int| 8 <= j < i ==> p@[j] == 120,
        decreases p@.len() - i,
    {
        if p[i] != 120 {
            assert(rec@.skip((8 + topic_len) as int)[i as int] != 120);
            return false;
        }
        i = i + 1;
    }
    true
}

/// A record that was stored as it was sent is recognised.
pub proof fn stored_record_matches(topic: Seq<u8>, size: nat, stamp: u64)
    requires
        size >= 8,
        topic.len() <= u32::MAX,
        size <= u32::MAX,
    ensures
        is_sent(
            crate::store::log::record(topic, stamped(stamp, size)),
            topic.len(),
            size,
            stamp,
        ),
{
    let payload = stamped(stamp, size);
    let rec = crate::store::log::record(topic, payload);
    assert(rec.subrange(0, 4) =~= wire::be32(topic.len() as u32));
    assert(rec.subrange(4, 8) =~= wire::be32(payload.len() as u32));
    wire::u32_round_trip(topic.len() as u32, rec, 0);
    wire::u32_round_trip(payload.len() as u32, rec, 4);
    let p = rec.skip((8 + topic.len()) as int);
    assert(p =~= payload);
    assert(p.subrange(0, 8) =~= wire::be64(stamp));
    wire::u64_round_trip(stamp, p, 0);
}

/// A payload with a stamp has the size that was asked for and gives the stamp
/// back; behind it there is nothing but fill.
pub proof fn stamps_are_read_back(stamp: u64, size: nat, i: int)
    requires
        size >= 8,
    ensures
        stamped(stamp, size).len() == size,
        wire::u64_at(stamped(stamp, size), 0) == stamp,
        8 <= i < size ==> stamped(stamp, size)[i] == 'x' as u8,
{
    let p = stamped(stamp, size);
    assert(p.subrange(0, 8) =~= wire::be64(stamp));
    wire::u64_round_trip(stamp, p, 0);
}

/// A parser takes a batch for as many records as there are stamps, in order,
/// each on the topic and with its stamp.
pub proof fn batches_parse(topic: Seq<u8>, size: nat, stamps: Seq<u64>)
    requires
        size >= 8,
        9 + topic.len() + size <= frame::MAX_FRAME,
    ensures
        ({
            let got = stream::frames(stream::encodings(batch_messages(topic, size, stamps)));
            &&& got.len() == stamps.len()
            &&& forall|i: int|
                0 <= i < stamps.len() ==> {
                    let m = #[trigger] got[i];
                    &&& m.op == Op::Publish
                    &&& m.topic == topic
                    &&& m.payload.len() == size
                    &&& wire::u64_at(m.payload, 0) == stamps[i]
                }
        }),
{
    let ms = batch_messages(topic, size, stamps);
    assert forall|i: int| 0 <= i < ms.len() implies (#[trigger] ms[i]).fits() && ms[
        i
    ].payload.len() == size && wire::u64_at(ms[i].payload, 0) == stamps[i] by {
        stamps_are_read_back(stamps[i], size, 8);
    }
    stream::stream_yields_messages(ms, Seq::empty());
    assert(stream::encodings(ms) + Seq::<u8>::empty() =~= stream::encodings(ms));
}

/// Counting goes on where it stopped: what comes later adds to what came
/// before, and every message counts once, for its operation.
pub proof fn counts_add_up(a: Seq<Message>, b: Seq<Message>, m: Message, op: Op)
    ensures
        count_op(a + b, op) == count_op(a, op) + count_op(b, op),
        count_op(seq![m], op) == if m.op == op {
            1nat
        } else {
            0
        },
        count_op(a, op) <= a.len(),
    decreases a.len(),
{
    assert(seq![m].skip(1) =~= Seq::<Message>::empty());
    reveal_with_fuel(count_op, 2);
    if a.len() == 0 {
        assert(a + b =~= b);
    } else {
        assert((a + b).skip(1) =~= a.skip(1) + b);
        counts_add_up(a.skip(1), b, m, op);
    }
}

/// Stamps are read from deliveries in the order in which they come: what comes
/// later stands behind what came before, a record that carries a stamp gives
/// it, and nothing else gives any.
pub proof fn stamps_come_in_order(a: Seq<Message>, b: Seq<Message>, m: Message)
    ensures
        delivered(a + b) == delivered(a) + delivered(b),
        m.op == Op::Data && m.payload.len() >= 8 ==> delivered(seq![m]) == seq![
            wire::u64_at(m.payload, 0),
        ],
        m.op != Op::Data || m.payload.len() < 8 ==> delivered(seq![m]) == Seq::<u64>::empty(),
    decreases a.len(),
{
    assert(seq![m].skip(1) =~= Seq::<Message>::empty());
    assert(delivered(Seq::<Message>::empty()) =~= Seq::<u64>::empty());
    assert(delivered(seq![m]) =~= if m.op == Op::Data && m.payload.len() >= 8 {
        seq![wire::u64_at(m.payload, 0)]
    } else {
        Seq::<u64>::empty()
    });
    if a.len() == 0 {
        assert(a + b =~= b);
    } else {
        assert((a + b).skip(1) =~= a.skip(1) + b);
        stamps_come_in_order(a.skip(1), b, m);
    }
    assert(delivered(a + b) =~= delivered(a) + delivered(b));
}

/// Every acknowledgement counts, and nothing else does; one in sixty-four is
/// sampled, and the samples that are held are never more than may be.
pub proof fn acknowledgements_are_counted(s: AckState, stamps: Seq<u64>, ms: Seq<Message>)
    requires
        s.samples.len() <= 4096,
    ensures
        s.run(stamps, ms).got == s.got + count_op(ms, Op::Ack),
        s.run(stamps, ms).sampled - s.sampled == s.run(stamps, ms).got / 64 - s.got / 64,
        s.samples.len() <= s.run(stamps, ms).samples.len() <= 4096,
    decreases ms.len(),
{
    if ms.len() > 0 {
        acknowledgements_are_counted(s.step(stamps, ms[0]), stamps, ms.skip(1));
    }
}

/// A sample is what was acknowledged: the place that the sixty-fourth
/// acknowledgement names, with the stamp of the record that it is for.
pub proof fn samples_are_what_was_acknowledged(
    s: AckState,
    stamps: Seq<u64>,
    m: Message,
    offset: u64,
    len: u32,
)
    requires
        m.op == Op::Ack,
        m.payload == frame::locator(offset, len),
        (s.got + 1) % 64 == 0,
        s.got < stamps.len(),
        s.samples.len() <= 4096,
        s.samples.len() == 4096 || s.sampled == s.samples.len(),
    ensures
        ({
            let after = s.step(stamps, m).samples;
            let at = s.sampled as int % 4096;
            &&& after.len() == if s.samples.len() < 4096 {
                s.samples.len() + 1
            } else {
                4096
            }
            &&& after[at].offset == offset
            &&& after[at].len == len
            &&& after[at].stamp == stamps[s.got as int]
            &&& forall|i: int| 0 <= i < s.samples.len() && i != at ==> after[i] == s.samples[i]
        }),
{
    frame::locator_round_trip(offset, len, Seq::empty());
    assert(frame::locator(offset, len) + Seq::<u8>::empty() =~= m.payload);
}

/// A record that is taken for what was sent is it: topic and payload decode,
/// the payload with its stamp, and with the size that was sent.
pub proof fn matching_records_were_sent(rec: Seq<u8>, topic_len: nat, size: nat, stamp: u64)
    requires
        size >= 8,
        is_sent(rec, topic_len, size, stamp),
    ensures
        crate::store::record::decoded(rec) matches Some((topic, payload)) && topic.len()
            == topic_len && payload == stamped(stamp, size),
{
    let (topic, payload) = crate::store::record::decoded(rec)->0;
    let p = rec.skip((8 + topic_len) as int);
    wire::bytes_round_trip(p, 0);
    wire::bytes_round_trip(p, 4);
    let (upper, lower) = (wire::u32_at(p, 0), wire::u32_at(p, 4));
    wire::be64_is_positional(stamp, upper, lower);
    assert(wire::be64(stamp) =~= p.subrange(0, 8));
    assert forall|i: int| 0 <= i < size implies payload[i] == stamped(stamp, size)[i] by {
        assert(payload[i] == p[i]);
        if i < 8 {
            assert(wire::be64(stamp)[i] == p[i]);
        }
    }
    assert(payload =~= stamped(stamp, size));
}

} // verus!
