//! An incremental parser: bytes go in as they arrive, frames come out by
//! reference to its buffer.

use super::calls::Calls;
use super::frame;
use super::frame::{FrameRef, Message, Op, LEN_PREFIX, MAX_FRAME, MIN_FRAME};
use super::stream;
use super::wire;
use vstd::prelude::*;
use vstd::slice::slice_subrange;

verus! {

/// The handler `f` was called on a frame that says `m`.
pub open spec fn handled<F: FnMut(FrameRef<'_>)>(f: F, m: Message) -> bool {
    exists|fr: FrameRef<'_>| fr@ == m && #[trigger] call_ensures(f, (fr,), ())
}

/// What the messages of frames are.
pub open spec fn messages(v: Seq<FrameRef<'_>>) -> Seq<Message> {
    v.map_values(|f: FrameRef<'_>| f@)
}

/// What stands at a place of a buffer.
enum Peek<'a> {
    /// A frame, and how many bytes it takes.
    Frame(FrameRef<'a>, usize),
    /// Something malformed, and how many bytes to drop for it.
    Malformed(usize),
    /// Nothing that could be taken.
    Nothing,
}

/// Looks at what stands at `start`.
fn peek(buf: &[u8], start: usize) -> (r: Peek<'_>)
    requires
        start <= buf@.len(),
    ensures
        match stream::front(buf@.skip(start as int)) {
            stream::Front::Frame(m, n) => r matches Peek::Frame(f, k) && f@ == m && f.wf() && k == n
                && 0 < n <= buf@.len() - start,
            stream::Front::Malformed(n) => r matches Peek::Malformed(k) && k == n && 0 < n
                <= buf@.len() - start,
            _ => r is Nothing,
        },
{
    let ghost s = buf@.skip(start as int);
    let avail: usize = buf.len() - start;
    if avail < LEN_PREFIX {
        return Peek::Nothing;
    }
    let total_len: usize = wire::get_u32(buf, start) as usize;
    proof {
        wire::u32_at_depends_on_bytes(s, 0, buf@, start as int);
    }
    if total_len > MAX_FRAME {
        return Peek::Malformed(LEN_PREFIX);
    }
    if avail < LEN_PREFIX + total_len {
        return Peek::Nothing;
    }
    let frame_start: usize = start + LEN_PREFIX;
    if avail > LEN_PREFIX && Op::from_u8(buf[frame_start]).is_none() {
        assert(s[4] == buf@[frame_start as int]);
        return Peek::Nothing;
    }
    if total_len < MIN_FRAME {
        return Peek::Malformed(LEN_PREFIX + total_len);
    }
    let topic_len: usize = wire::get_u32(buf, frame_start + 1) as usize;
    let payload_len: usize = wire::get_u32(buf, frame_start + 5) as usize;
    assert(s[4] == buf@[frame_start as int]);
    proof {
        wire::u32_at_depends_on_bytes(s, 5, buf@, start + 5);
        wire::u32_at_depends_on_bytes(s, 9, buf@, start + 9);
    }
    if topic_len as u64 + payload_len as u64 != (total_len - MIN_FRAME) as u64 {
        return Peek::Malformed(LEN_PREFIX + total_len);
    }
    let topic_start: usize = frame_start + MIN_FRAME;
    let payload_start: usize = topic_start + topic_len;
    let topic = slice_subrange(buf, topic_start, payload_start);
    let payload = slice_subrange(buf, payload_start, payload_start + payload_len);
    assert(topic@ =~= s.subrange(13, 13 + topic_len));
    assert(payload@ =~= s.subrange(13 + topic_len, 13 + topic_len + payload_len));
    match Op::from_u8(buf[frame_start]) {
        Some(op) => {
            let located = if op == Op::Ack || op == Op::Notify {
                frame::read_locator(payload)
            } else {
                None
            };
            let f = match located {
                Some((offset, len)) => FrameRef {
                    op,
                    topic,
                    payload,
                    offset: Some(offset),
                    len: Some(len),
                },
                None => FrameRef { op, topic, payload, offset: None, len: None },
            };
            Peek::Frame(f, LEN_PREFIX + total_len)
        },
        None => Peek::Nothing,
    }
}

/// Received bytes; those before `start` have been consumed.
pub struct Parser {
    buf: Vec<u8>,
    start: usize,
}

impl View for Parser {
    type V = Seq<u8>;

    /// The bytes received and not yet consumed.
    closed spec fn view(&self) -> Seq<u8> {
        self.buf@.skip(self.start as int)
    }
}

impl Parser {
    pub closed spec fn wf(&self) -> bool {
        self.start <= self.buf@.len()
    }

    /// An empty parser with room for `cap` bytes.
    pub fn new(cap: usize) -> (p: Parser)
        requires
            cap <= isize::MAX,
        ensures
            p.wf(),
            p@ == Seq::<u8>::empty(),
    {
        let p = Parser { buf: Vec::with_capacity(cap), start: 0 };
        assert(p@ =~= Seq::<u8>::empty());
        p
    }

    /// The same as `new`.
    pub fn with_capacity(cap: usize) -> (p: Parser)
        requires
            cap <= isize::MAX,
        ensures
            p.wf(),
            p@ == Seq::<u8>::empty(),
    {
        Parser::new(cap)
    }

    /// How many bytes wait to be parsed.
    pub fn buffered(&self) -> (n: usize)
        requires
            self.wf(),
        ensures
            n == self@.len(),
    {
        self.buf.len() - self.start
    }

    /// Takes in bytes that were received.
    pub fn feed(&mut self, data: &[u8])
        requires
            old(self).wf(),
        ensures
            final(self).wf(),
            final(self)@ == old(self)@ + data@,
    {
        if self.start > 0 && (self.start > 4096 || self.buf.len() > 64 * 1024) {
            self.compact();
        }
        wire::put_bytes(&mut self.buf, data);
        assert(self@ =~= old(self)@ + data@);
    }

    /// Makes room for `want` more bytes and lends it out: what is written
    /// there counts as received.
    pub fn spare_mut(&mut self, want: usize) -> (room: &mut [u8])
        requires
            old(self).wf(),
            old(self)@.len() + want <= isize::MAX,
        ensures
            room@ == Seq::new(want as nat, |i: int| 0u8),
            final(self).wf(),
            final(self)@ == old(self)@ + final(room)@,
    {
        if self.start > 4096 || want > usize::MAX - self.buf.len() {
            self.compact();
        }
        let old_len: usize = self.buf.len();
        self.buf.resize(old_len + want, 0);
        let ghost start = self.start as int;
        assert(self.buf@.take(old_len as int).skip(start) =~= old(self)@);
        let (kept, room) = self.buf.as_mut_slice().split_at_mut(old_len);
        assert(kept@.skip(start) =~= old(self)@);
        assert(room@ =~= Seq::new(want as nat, |i: int| 0u8));
        assert(has_resolved(kept));
        assert((kept@ + final(room)@).skip(start) =~= old(self)@ + final(room)@);
        room
    }

    /// Ends a read into lent room. A read of nothing drops all that waits;
    /// any other keeps it.
    pub fn commit(&mut self, n: usize)
        requires
            old(self).wf(),
        ensures
            final(self).wf(),
            final(self)@ == if n == 0 {
                Seq::<u8>::empty()
            } else {
                old(self)@
            },
    {
        if n == 0 {
            self.buf.truncate(self.start);
            assert(self@ =~= Seq::<u8>::empty());
        }
    }

    /// Frees the space of what was consumed.
    fn compact(&mut self)
        requires
            old(self).wf(),
        ensures
            final(self).wf(),
            final(self)@ == old(self)@,
            final(self).start == 0,
    {
        if self.start > 0 {
            self.buf = self.buf.split_off(self.start);
            self.start = 0;
        }
        assert(self@ =~= old(self)@);
    }

    /// The frame at the front, where a complete one is there. It stays until
    /// `consume`. A malformed one is dropped; an unknown operation stays.
    pub fn try_parse(&mut self) -> (r: Option<FrameRef<'_>>)
        requires
            old(self).wf(),
        ensures
            final(self).wf(),
            match stream::front(old(self)@) {
                stream::Front::Frame(m, n) => {
                    &&& r is Some
                    &&& r->0@ == m
                    &&& r->0.wf()
                    &&& final(self)@ == old(self)@
                },
                stream::Front::Malformed(n) => r is None && final(self)@ == old(self)@.skip(n),
                _ => r is None && final(self)@ == old(self)@,
            },
    {
        let start: usize = self.start;
        match peek(self.buf.as_slice(), start) {
            Peek::Frame(f, _) => Some(f),
            Peek::Malformed(n) => {
                assert(start + n <= self.buf.len());
                self.start = start + n;
                assert(self@ =~= old(self)@.skip(n as int));
                None
            },
            Peek::Nothing => None,
        }
    }

    /// Drops the frame at the front, which must be complete.
    pub fn consume(&mut self)
        requires
            old(self).wf(),
            old(self)@.len() >= 4,
            old(self)@.len() >= 4 + stream::announced(old(self)@),
        ensures
            final(self).wf(),
            final(self)@ == old(self)@.skip(4 + stream::announced(old(self)@)),
    {
        let ghost s = self@;
        let start: usize = self.start;
        let total_len: usize = wire::get_u32(self.buf.as_slice(), start) as usize;
        proof {
            wire::u32_at_depends_on_bytes(s, 0, self.buf@, start as int);
        }
        assert(start + 4 + total_len <= self.buf.len());
        self.advance(LEN_PREFIX + total_len);
    }

    /// The bytes of the frame at the front, with its length prefix, where
    /// they are all there.
    pub fn current_frame_raw(&self) -> (r: Option<&[u8]>)
        requires
            self.wf(),
        ensures
            r is Some <==> {
                &&& self@.len() >= 4
                &&& stream::announced(self@) <= MAX_FRAME
                &&& self@.len() >= 4 + stream::announced(self@)
            },
            r matches Some(raw) ==> raw@ == self@.take(4 + stream::announced(self@)),
    {
        let ghost s = self@;
        let avail: usize = self.buffered();
        if avail < LEN_PREFIX {
            return None;
        }
        let start: usize = self.start;
        assert(start + avail == self.buf.len());
        let total_len: usize = wire::get_u32(self.buf.as_slice(), start) as usize;
        proof {
            wire::u32_at_depends_on_bytes(s, 0, self.buf@, start as int);
        }
        if total_len > MAX_FRAME || avail < LEN_PREFIX + total_len {
            return None;
        }
        let raw = slice_subrange(self.buf.as_slice(), start, start + LEN_PREFIX + total_len);
        assert(raw@ =~= s.take(4 + total_len as int));
        Some(raw)
    }

    /// All complete frames, in order, and how many bytes they take together
    /// with the malformed ones that are passed over.
    pub fn complete_frames(&self) -> (r: (Vec<FrameRef<'_>>, usize))
        requires
            self.wf(),
        ensures
            messages(r.0@) == stream::all_frames(self@),
            forall|i: int| 0 <= i < r.0@.len() ==> (#[trigger] r.0@[i]).wf(),
            r.1 <= self@.len(),
            self@.skip(r.1 as int) == stream::unread(self@),
    {
        let mut list: Vec<FrameRef<'_>> = Vec::new();
        let mut at: usize = self.start;
        assert(messages(list@) =~= Seq::<Message>::empty());
        assert(Seq::<Message>::empty() + stream::all_frames(self@) =~= stream::all_frames(self@));
        loop
            invariant
                self.wf(),
                self.start <= at <= self.buf@.len(),
                forall|i: int| 0 <= i < list@.len() ==> (#[trigger] list@[i]).wf(),
                messages(list@) + stream::all_frames(self.buf@.skip(at as int))
                    == stream::all_frames(self@),
                stream::unread(self.buf@.skip(at as int)) == stream::unread(self@),
            decreases self.buf@.len() - at,
        {
            let ghost s = self.buf@.skip(at as int);
            let ghost before = messages(list@);
            match peek(self.buf.as_slice(), at) {
                Peek::Frame(f, n) => {
                    list.push(f);
                    assert(messages(list@) =~= before.push(f@));
                    assert(s.skip(n as int) =~= self.buf@.skip(at + n));
                    assert(messages(list@) + stream::all_frames(s.skip(n as int)) =~= before
                        + stream::all_frames(s));
                    assert(at + n <= self.buf.len());
                    at = at + n;
                },
                Peek::Malformed(n) => {
                    assert(s.skip(n as int) =~= self.buf@.skip(at + n));
                    assert(at + n <= self.buf.len());
                    at = at + n;
                },
                Peek::Nothing => {
                    assert(messages(list@) + stream::all_frames(s) =~= messages(list@));
                    assert(self@.skip(at - self.start) =~= s);
                    return (list, at - self.start);
                },
            }
        }
    }

    /// Hands every complete frame to `f`, in order, and consumes it. Malformed
    /// frames are dropped. `calls` is what `f` was called on, call by call.
    pub fn drain<F: FnMut(FrameRef<'_>)>(&mut self, f: F) -> (calls: Calls<F>)
        requires
            old(self).wf(),
            forall|fr: FrameRef<'_>|
                fr.wf() && stream::all_frames(old(self)@).contains(fr@) ==> call_requires(
                    f,
                    (fr,),
                ),
        ensures
            final(self).wf(),
            final(self)@ == stream::unread(old(self)@),
            calls@ == stream::all_frames(old(self)@),
            calls.handler() == f,
            forall|i: int|
                0 <= i < stream::all_frames(old(self)@).len() ==> handled(
                    f,
                    #[trigger] stream::all_frames(old(self)@)[i],
                ),
    {
        let ghost all = stream::all_frames(self@);
        let (list, taken) = self.complete_frames();
        let mut calls = Calls::new(f);
        assert(all.take(0) =~= Seq::<Message>::empty());
        let mut i: usize = 0;
        while i < list.len()
            invariant
                calls.handler() == f,
                i <= list@.len(),
                messages(list@) == all,
                calls@ == all.take(i as int),
                forall|k: int| 0 <= k < list@.len() ==> (#[trigger] list@[k]).wf(),
                forall|fr: FrameRef<'_>|
                    fr.wf() && all.contains(fr@) ==> call_requires(f, (fr,)),
                forall|k: int| 0 <= k < i ==> handled(f, #[trigger] all[k]),
            decreases list@.len() - i,
        {
            let l: &FrameRef<'_> = &list[i];
            let frame = FrameRef {
                op: l.op,
                topic: l.topic,
                payload: l.payload,
                offset: l.offset,
                len: l.len,
            };
            assert(messages(list@)[i as int] == frame@);
            assert(all[i as int] == frame@);
            calls = calls.call(frame);
            assert(calls@ =~= all.take(i + 1));
            i = i + 1;
        }
        assert(messages(list@).len() == list@.len());
        assert(all.take(i as int) =~= all);
        self.advance(taken);
        calls
    }

    /// Drops the first `n` bytes.
    fn advance(&mut self, n: usize)
        requires
            old(self).wf(),
            n <= old(self)@.len(),
        ensures
            final(self).wf(),
            final(self)@ == old(self)@.skip(n as int),
    {
        assert(self.start + n <= self.buf.len());
        self.start = self.start + n;
        assert(self@ =~= old(self)@.skip(n as int));
        if self.start > 32 * 1024 && self.start > self.buf.len() / 2 {
            self.compact();
        }
        if self.start == self.buf.len() {
            self.buf.clear();
            self.start = 0;
            assert(self@ =~= old(self)@.skip(n as int));
        }
    }
}

/// The messages of frames are what they hold, frame by frame.
pub proof fn messages_are_what_frames_hold(v: Seq<FrameRef<'_>>, i: int)
    requires
        0 <= i < v.len(),
    ensures
        messages(v).len() == v.len(),
        messages(v)[i].op == v[i].op,
        messages(v)[i].topic == v[i].topic@,
        messages(v)[i].payload == v[i].payload@,
{
}

} // verus!
