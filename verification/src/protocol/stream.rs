//! What a stream of bytes says: the frame at its front, and all of its
//! complete frames.

use super::frame::{Message, Op, LEN_PREFIX, MAX_FRAME, MIN_FRAME};
use super::wire;
use vstd::prelude::*;

verus! {

broadcast use crate::protocol::wire::be32_len;

/// What the front of a stream holds.
#[verifier::ext_equal]
pub enum Front {
    /// Too few bytes to tell.
    Incomplete,
    /// A complete frame, with the number of bytes it takes.
    Frame(Message, int),
    /// A malformed frame, with the number of bytes that are dropped for it.
    Malformed(int),
    /// A frame with an operation that has no meaning; it blocks the stream.
    UnknownOp,
}

/// The total length that the first four bytes announce.
pub open spec fn announced(s: Seq<u8>) -> int {
    wire::u32_at(s, 0) as int
}

/// What stands at the front of `s`.
pub open spec fn front(s: Seq<u8>) -> Front {
    let total = announced(s);
    let topic_len = wire::u32_at(s, 5) as int;
    let payload_len = wire::u32_at(s, 9) as int;
    if s.len() < LEN_PREFIX {
        Front::Incomplete
    } else if total > MAX_FRAME {
        Front::Malformed(LEN_PREFIX as int)
    } else if s.len() < LEN_PREFIX + total {
        Front::Incomplete
    } else if s.len() > LEN_PREFIX && Op::of_code(s[4]) is None {
        Front::UnknownOp
    } else if total < MIN_FRAME || total != MIN_FRAME + topic_len + payload_len {
        Front::Malformed(LEN_PREFIX + total)
    } else {
        Front::Frame(
            Message {
                op: Op::of_code(s[4])->0,
                topic: s.subrange(13, 13 + topic_len),
                payload: s.subrange(13 + topic_len, 13 + topic_len + payload_len),
            },
            LEN_PREFIX + total,
        )
    }
}

/// The complete frames at the front of `s`, up to the first place where
/// there is none.
pub open spec fn frames(s: Seq<u8>) -> Seq<Message>
    decreases s.len(),
{
    match front(s) {
        Front::Frame(m, n) => if 0 < n <= s.len() {
            seq![m] + frames(s.skip(n))
        } else {
            Seq::empty()
        },
        _ => Seq::empty(),
    }
}

/// What is left of `s` behind its complete frames. The malformed frame that
/// ends them, where there is one, is dropped.
pub open spec fn rest(s: Seq<u8>) -> Seq<u8>
    decreases s.len(),
{
    match front(s) {
        Front::Frame(m, n) => if 0 < n <= s.len() {
            rest(s.skip(n))
        } else {
            s
        },
        Front::Malformed(n) => s.skip(n),
        _ => s,
    }
}

/// All complete frames of `s`: malformed ones are passed over, and one with
/// an unknown operation ends them.
pub open spec fn all_frames(s: Seq<u8>) -> Seq<Message>
    decreases s.len(),
{
    match front(s) {
        Front::Frame(m, n) => if 0 < n <= s.len() {
            seq![m] + all_frames(s.skip(n))
        } else {
            Seq::empty()
        },
        Front::Malformed(n) => if 0 < n <= s.len() {
            all_frames(s.skip(n))
        } else {
            Seq::empty()
        },
        _ => Seq::empty(),
    }
}

/// What is left of `s` when all complete frames are taken and all malformed
/// ones dropped.
pub open spec fn unread(s: Seq<u8>) -> Seq<u8>
    decreases s.len(),
{
    match front(s) {
        Front::Frame(m, n) => if 0 < n <= s.len() {
            unread(s.skip(n))
        } else {
            s
        },
        Front::Malformed(n) => if 0 < n <= s.len() {
            unread(s.skip(n))
        } else {
            s
        },
        _ => s,
    }
}

/// `s` holds complete frames, then perhaps the beginning of one more.
pub open spec fn sound(s: Seq<u8>) -> bool
    decreases s.len(),
{
    match front(s) {
        Front::Frame(m, n) => 0 < n <= s.len() && sound(s.skip(n)),
        Front::Incomplete => true,
        _ => false,
    }
}

/// The encodings of several messages, one behind the other.
pub open spec fn encodings(ms: Seq<Message>) -> Seq<u8>
    decreases ms.len(),
{
    if ms.len() == 0 {
        Seq::empty()
    } else {
        ms[0].encoded() + encodings(ms.skip(1))
    }
}

/// One message more is one encoding more.
pub proof fn encodings_push(ms: Seq<Message>, m: Message)
    ensures
        encodings(ms.push(m)) == encodings(ms) + m.encoded(),
    decreases ms.len(),
{
    if ms.len() == 0 {
        assert(ms.push(m).skip(1) =~= Seq::<Message>::empty());
        assert(encodings(Seq::<Message>::empty()) =~= Seq::<u8>::empty());
        assert(ms.push(m)[0] == m);
    } else {
        assert(ms.push(m).skip(1) =~= ms.skip(1).push(m));
        encodings_push(ms.skip(1), m);
    }
    assert(encodings(ms.push(m)) =~= encodings(ms) + m.encoded());
}

/// Bounds on what `front` reports.
pub proof fn front_bounds(s: Seq<u8>)
    ensures
        front(s) matches Front::Frame(m, n) ==> 13 <= n <= s.len() && n == 4 + m.body_len()
            && m.fits(),
        front(s) matches Front::Malformed(n) ==> 4 <= n <= s.len(),
{
    if s.len() > 4 {
        if let Some(op) = Op::of_code(s[4]) {
            assert(op.code() == s[4]);
        }
    }
}

/// A frame that is complete stays what it is when more bytes arrive.
pub proof fn front_is_stable(s: Seq<u8>, more: Seq<u8>)
    requires
        front(s) is Frame,
    ensures
        front(s + more) == front(s),
{
    front_bounds(s);
    let t = s + more;
    wire::u32_at_depends_on_bytes(t, 0, s, 0);
    wire::u32_at_depends_on_bytes(t, 5, s, 5);
    wire::u32_at_depends_on_bytes(t, 9, s, 9);
    assert(t[4] == s[4]);
    assert(front(t)->Frame_0.topic =~= front(s)->Frame_0.topic);
    assert(front(t)->Frame_0.payload =~= front(s)->Frame_0.payload);
}

/// Parsing undoes encoding: the encoding of a message, whatever follows it,
/// has that message at its front and takes as many bytes as were written.
pub proof fn parse_undoes_encode(m: Message, more: Seq<u8>)
    requires
        m.fits(),
    ensures
        front(m.encoded() + more) == Front::Frame(m, m.encoded().len() as int),
        m.encoded().len() == 4 + m.body_len(),
{
    let s = m.encoded() + more;
    let t = m.topic.len() as int;
    let p = m.payload.len() as int;
    assert(s.subrange(0, 4) =~= wire::be32(m.body_len() as u32));
    assert(s.subrange(5, 9) =~= wire::be32(t as u32));
    assert(s.subrange(9, 13) =~= wire::be32(p as u32));
    wire::u32_round_trip(m.body_len() as u32, s, 0);
    wire::u32_round_trip(t as u32, s, 5);
    wire::u32_round_trip(p as u32, s, 9);
    assert(s[4] == m.op.code());
    m.op.codes_are_distinct();
    assert(s.subrange(13, 13 + t) =~= m.topic);
    assert(s.subrange(13 + t, 13 + t + p) =~= m.payload);
}

/// Messages that fit and have equal encodings are equal.
pub proof fn encoding_is_injective(a: Message, b: Message)
    requires
        a.fits(),
        b.fits(),
        a.encoded() == b.encoded(),
    ensures
        a == b,
{
    parse_undoes_encode(a, Seq::empty());
    parse_undoes_encode(b, Seq::empty());
}

/// A frame cut short anywhere is never taken for a frame: the parser waits.
pub proof fn cut_frame_waits(m: Message, k: int)
    requires
        m.fits(),
        0 <= k < m.encoded().len(),
    ensures
        front(m.encoded().take(k)) is Incomplete,
{
    let s = m.encoded().take(k);
    if k >= 4 {
        assert(s.subrange(0, 4) =~= wire::be32(m.body_len() as u32));
        wire::u32_round_trip(m.body_len() as u32, s, 0);
    }
}

/// A stream of encodings, with the beginning of a further frame behind them,
/// yields the messages in order and keeps the beginning.
pub proof fn stream_yields_messages(ms: Seq<Message>, tail: Seq<u8>)
    requires
        forall|i: int| 0 <= i < ms.len() ==> (#[trigger] ms[i]).fits(),
        front(tail) is Incomplete,
    ensures
        frames(encodings(ms) + tail) == ms,
        rest(encodings(ms) + tail) == tail,
        sound(encodings(ms) + tail),
    decreases ms.len(),
{
    let s = encodings(ms) + tail;
    if ms.len() == 0 {
        assert(s =~= tail);
        assert(frames(s) =~= ms);
    } else {
        let later = ms.skip(1);
        let more = encodings(later) + tail;
        assert(s =~= ms[0].encoded() + more);
        parse_undoes_encode(ms[0], more);
        assert(s.skip(ms[0].encoded().len() as int) =~= more);
        assert forall|i: int| 0 <= i < later.len() implies (#[trigger] later[i]).fits() by {
            assert(later[i] == ms[i + 1]);
        }
        stream_yields_messages(later, tail);
        assert(seq![ms[0]] + later =~= ms);
    }
}

/// How a sound stream is cut into reads does not matter: parsing what came
/// first, then what it left together with the rest of the stream, yields the
/// same frames as parsing all of it at once.
pub proof fn chunking_is_invisible(first: Seq<u8>, second: Seq<u8>)
    requires
        sound(first),
    ensures
        frames(first + second) == frames(first) + frames(rest(first) + second),
        rest(first + second) == rest(rest(first) + second),
    decreases first.len(),
{
    match front(first) {
        Front::Frame(m, n) => {
            front_bounds(first);
            front_is_stable(first, second);
            assert((first + second).skip(n) =~= first.skip(n) + second);
            chunking_is_invisible(first.skip(n), second);
            assert(frames(first + second) =~= frames(first) + frames(rest(first) + second));
        },
        _ => {
            assert(frames(first) =~= Seq::empty());
            assert(rest(first) == first);
            assert(frames(first + second) =~= frames(first) + frames(rest(first) + second));
        },
    }
}

/// What is left when all is taken begins no frame and nothing malformed: more
/// bytes must come, or an unknown operation blocks.
pub proof fn unread_holds_no_frame(s: Seq<u8>)
    ensures
        front(unread(s)) is Incomplete || front(unread(s)) is UnknownOp,
        all_frames(unread(s)) == Seq::<Message>::empty(),
        unread(s).len() <= s.len(),
        unread(s) == s.skip(s.len() - unread(s).len()),
    decreases s.len(),
{
    front_bounds(s);
    match front(s) {
        Front::Frame(m, n) => {
            unread_holds_no_frame(s.skip(n));
            let t = s.skip(n);
            assert(t.skip(t.len() - unread(t).len()) =~= s.skip(s.len() - unread(s).len()));
        },
        Front::Malformed(n) => {
            unread_holds_no_frame(s.skip(n));
            let t = s.skip(n);
            assert(t.skip(t.len() - unread(t).len()) =~= s.skip(s.len() - unread(s).len()));
        },
        _ => {
            assert(s.skip(0) =~= s);
        },
    }
}

/// On a sound stream, taking all frames is taking those at the front.
pub proof fn sound_streams_hold_no_more(s: Seq<u8>)
    requires
        sound(s),
    ensures
        all_frames(s) == frames(s),
        unread(s) == rest(s),
    decreases s.len(),
{
    if let Front::Frame(m, n) = front(s) {
        sound_streams_hold_no_more(s.skip(n));
    }
}

/// Frames behind one another, with a proper beginning of a further frame
/// behind them, are all taken, in order, and the beginning is left.
pub proof fn all_messages_are_taken(ms: Seq<Message>, last: Message, k: int)
    requires
        forall|i: int| 0 <= i < ms.len() ==> (#[trigger] ms[i]).fits(),
        last.fits(),
        0 <= k < last.encoded().len(),
    ensures
        all_frames(encodings(ms) + last.encoded().take(k)) == ms,
        unread(encodings(ms) + last.encoded().take(k)) == last.encoded().take(k),
{
    cut_frame_waits(last, k);
    stream_yields_messages(ms, last.encoded().take(k));
    sound_streams_hold_no_more(encodings(ms) + last.encoded().take(k));
}

/// A malformed frame costs only itself: what stands behind it is taken as if
/// it were not there.
pub proof fn malformed_frames_are_passed_over(s: Seq<u8>, n: int)
    requires
        front(s) == Front::Malformed(n),
    ensures
        all_frames(s) == all_frames(s.skip(n)),
        unread(s) == unread(s.skip(n)),
{
    front_bounds(s);
}

/// A delivered frame is the published one with only its operation changed.
pub proof fn delivery_changes_only_the_operation(topic: Seq<u8>, payload: Seq<u8>)
    requires
        9 + topic.len() + payload.len() <= u32::MAX,
    ensures
        ({
            let q = (Message { op: Op::Publish, topic, payload }).encoded();
            let d = (Message { op: Op::Data, topic, payload }).encoded();
            &&& d.len() == q.len() == 13 + topic.len() + payload.len()
            &&& forall|i: int| 0 <= i < d.len() && i != 4 ==> #[trigger] d[i] == q[i]
            &&& q[4] == 1
            &&& d[4] == 7
        }),
{
}

/// A frame at the front is an encoding: encoding what it says gives its bytes.
pub proof fn encode_undoes_parse(s: Seq<u8>)
    requires
        front(s) is Frame,
    ensures
        front(s)->Frame_0.encoded() == s.take(front(s)->Frame_1),
        front(s)->Frame_0.fits(),
{
    front_bounds(s);
    let m = front(s)->Frame_0;
    let n = front(s)->Frame_1;
    wire::bytes_round_trip(s, 0);
    wire::bytes_round_trip(s, 5);
    wire::bytes_round_trip(s, 9);
    let t = m.topic.len() as int;
    let e = m.encoded();
    assert(s[4] == m.op.code());
    assert forall|i: int| 0 <= i < n implies e[i] == s[i] by {
        if i < 4 {
            assert(s.subrange(0, 4)[i] == s[i]);
        } else if 5 <= i < 9 {
            assert(s.subrange(5, 9)[i - 5] == s[i]);
        } else if 9 <= i < 13 {
            assert(s.subrange(9, 13)[i - 9] == s[i]);
        }
    }
    assert(e =~= s.take(n));
}

/// The front is a frame where, and only where, the stream begins with an
/// encoding that fits.
pub proof fn frames_begin_with_encodings(s: Seq<u8>)
    ensures
        front(s) is Frame <==> exists|m: Message|
            m.fits() && #[trigger] m.encoded().len() <= s.len() && s.take(
                m.encoded().len() as int,
            ) == m.encoded(),
{
    if front(s) is Frame {
        encode_undoes_parse(s);
        front_bounds(s);
        let m = front(s)->Frame_0;
        assert(m.fits() && m.encoded().len() <= s.len() && s.take(m.encoded().len() as int)
            == m.encoded());
    }
    if exists|m: Message|
        m.fits() && #[trigger] m.encoded().len() <= s.len() && s.take(m.encoded().len() as int)
            == m.encoded() {
        let m = choose|m: Message|
            m.fits() && #[trigger] m.encoded().len() <= s.len() && s.take(m.encoded().len() as int)
                == m.encoded();
        let more = s.skip(m.encoded().len() as int);
        assert(m.encoded() + more =~= s);
        parse_undoes_encode(m, more);
    }
}

/// What a malformed frame costs: where it announces no more than a frame may
/// have, all that it announces, and else its length alone.
pub proof fn malformed_frames_cost_what_they_announce(s: Seq<u8>)
    requires
        front(s) is Malformed,
    ensures
        ({
            let announces = wire::u32_at(s, 0);
            front(s)->Malformed_0 == if announces <= 16777216 {
                4 + announces
            } else {
                4
            }
        }),
{
}

/// The parser waits only for what is announced and has not come.
pub proof fn waiting_is_for_what_is_announced(s: Seq<u8>)
    ensures
        front(s) is Incomplete <==> s.len() < 4 || (wire::u32_at(s, 0) <= 16777216 && s.len() < 4
            + wire::u32_at(s, 0)),
{
}

/// A sound stream is the encodings of its frames, and what is left.
pub proof fn sound_streams_are_encodings(s: Seq<u8>)
    requires
        sound(s),
    ensures
        encodings(frames(s)) + rest(s) == s,
        encodings(all_frames(s)) + unread(s) == s,
        front(rest(s)) is Incomplete,
    decreases s.len(),
{
    sound_streams_hold_no_more(s);
    if let Front::Frame(m, n) = front(s) {
        encode_undoes_parse(s);
        front_bounds(s);
        sound_streams_are_encodings(s.skip(n));
        let later = frames(s.skip(n));
        assert(frames(s)[0] == m);
        assert(frames(s).skip(1) =~= later);
        assert(s.take(n) + s.skip(n) =~= s);
        assert(encodings(frames(s)) + rest(s) =~= m.encoded() + (encodings(later) + rest(
            s.skip(n),
        )));
    } else {
        assert(encodings(frames(s)) + rest(s) =~= s);
    }
}

/// Taking the frames at the front, and then all of what that leaves, is taking
/// all at once.
pub proof fn taking_goes_on_where_it_stopped(s: Seq<u8>)
    ensures
        all_frames(s) == frames(s) + all_frames(rest(s)),
        unread(s) == unread(rest(s)),
    decreases s.len(),
{
    front_bounds(s);
    match front(s) {
        Front::Frame(m, n) => {
            taking_goes_on_where_it_stopped(s.skip(n));
            assert(all_frames(s) =~= frames(s) + all_frames(rest(s)));
        },
        _ => {
            assert(all_frames(s) =~= frames(s) + all_frames(rest(s)));
        },
    }
}

/// A message stands in a stream at a place.
pub open spec fn stands_at(s: Seq<u8>, m: Message, at: int) -> bool {
    &&& 0 <= at
    &&& at + m.encoded().len() <= s.len()
    &&& s.subrange(at, at + m.encoded().len()) == m.encoded()
}

/// No frame is made up: all that is taken stands in the stream, each frame
/// wholly behind the one before it.
pub proof fn frames_stand_in_the_stream(s: Seq<u8>) -> (places: Seq<int>)
    ensures
        places.len() == all_frames(s).len(),
        forall|i: int|
            0 <= i < places.len() ==> stands_at(s, all_frames(s)[i], #[trigger] places[i]),
        forall|i: int, j: int|
            0 <= i < j < places.len() ==> #[trigger] places[i] + all_frames(s)[i].encoded().len()
                <= #[trigger] places[j],
    decreases s.len(),
{
    front_bounds(s);
    match front(s) {
        Front::Frame(m, n) => {
            encode_undoes_parse(s);
            let later = frames_stand_in_the_stream(s.skip(n));
            let places = seq![0int] + later.map_values(|p: int| p + n);
            assert(s.subrange(0, n) =~= s.take(n));
            assert forall|i: int| 0 <= i < places.len() implies stands_at(
                s,
                all_frames(s)[i],
                #[trigger] places[i],
            ) by {
                if i > 0 {
                    let f = all_frames(s.skip(n))[i - 1];
                    assert(stands_at(s.skip(n), f, later[i - 1]));
                    assert(s.skip(n).subrange(later[i - 1], later[i - 1] + f.encoded().len())
                        =~= s.subrange(places[i], places[i] + f.encoded().len()));
                }
            }
            assert forall|i: int, j: int| 0 <= i < j < places.len() implies #[trigger] places[i]
                + all_frames(s)[i].encoded().len() <= #[trigger] places[j] by {
                assert(stands_at(s.skip(n), all_frames(s.skip(n))[j - 1], later[j - 1]));
                if i > 0 {
                    assert(later[i - 1] + all_frames(s.skip(n))[i - 1].encoded().len() <= later[j
                        - 1]);
                }
            }
            places
        },
        Front::Malformed(n) => {
            let later = frames_stand_in_the_stream(s.skip(n));
            let places = later.map_values(|p: int| p + n);
            assert forall|i: int| 0 <= i < places.len() implies stands_at(
                s,
                all_frames(s)[i],
                #[trigger] places[i],
            ) by {
                let f = all_frames(s)[i];
                assert(stands_at(s.skip(n), f, later[i]));
                assert(s.skip(n).subrange(later[i], later[i] + f.encoded().len()) =~= s.subrange(
                    places[i],
                    places[i] + f.encoded().len(),
                ));
            }
            assert forall|i: int, j: int| 0 <= i < j < places.len() implies #[trigger] places[i]
                + all_frames(s)[i].encoded().len() <= #[trigger] places[j] by {
                assert(later[i] + all_frames(s)[i].encoded().len() <= later[j]);
            }
            places
        },
        _ => Seq::empty(),
    }
}

/// A complete frame whose operation has no meaning blocks the stream, whatever
/// else is wrong with it: nothing is taken and nothing dropped.
pub proof fn unknown_operations_block(s: Seq<u8>)
    requires
        s.len() > 4,
        announced(s) <= 16777216,
        s.len() >= 4 + announced(s),
        forall|op: Op| #[trigger] op.code() != s[4],
    ensures
        front(s) is UnknownOp,
        frames(s) == Seq::<Message>::empty(),
        all_frames(s) == Seq::<Message>::empty(),
        rest(s) == s,
        unread(s) == s,
{
}

/// Frames in front of a malformed one are taken, in order; it is dropped itself,
/// with as many bytes as it costs, and what stands behind it is left.
pub proof fn malformed_frames_end_a_read(ms: Seq<Message>, bad: Seq<u8>, n: int)
    requires
        forall|i: int| 0 <= i < ms.len() ==> (#[trigger] ms[i]).fits(),
        front(bad) == Front::Malformed(n),
    ensures
        frames(encodings(ms) + bad) == ms,
        rest(encodings(ms) + bad) == bad.skip(n),
    decreases ms.len(),
{
    let s = encodings(ms) + bad;
    if ms.len() == 0 {
        assert(s =~= bad);
        assert(frames(s) =~= ms);
    } else {
        let later = ms.skip(1);
        let more = encodings(later) + bad;
        assert(s =~= ms[0].encoded() + more);
        parse_undoes_encode(ms[0], more);
        assert(s.skip(ms[0].encoded().len() as int) =~= more);
        assert forall|i: int| 0 <= i < later.len() implies (#[trigger] later[i]).fits() by {
            assert(later[i] == ms[i + 1]);
        }
        malformed_frames_end_a_read(later, bad, n);
        assert(seq![ms[0]] + later =~= ms);
    }
}

} // verus!
