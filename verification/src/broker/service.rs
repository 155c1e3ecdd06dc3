//! Laws of what a client gets: the frames that it reads, and what a message
//! changes and leaves.

use super::laws;
use super::model;
use super::model::{CloseReason, Event, Out, Policy, State};
use crate::protocol::codec;
use crate::protocol::frame;
use crate::protocol::frame::{Message, Op};
use crate::protocol::stream;
use crate::store::log;
use crate::store::log::StoreError;
use crate::store::record;
use crate::store::retention;
use crate::subscription::shard;
use crate::subscription::shard::Subscriber;
use vstd::prelude::*;

verus! {

broadcast use crate::protocol::wire::be32_len;

/// What left is one frame to the connection itself, which reads as `m`.
pub open spec fn answers(o: Out, m: Message) -> bool {
    o matches Out::Reply(bytes) && stream::front(bytes) == stream::Front::Frame(
        m,
        bytes.len() as int,
    )
}

/// What left is one frame to the connection itself: the acknowledgement of a
/// position and a length under a topic.
pub open spec fn acknowledges(o: Out, topic: Seq<u8>, offset: u64, len: u32) -> bool {
    &&& o matches Out::Reply(bytes)
    &&& stream::front(bytes) matches stream::Front::Frame(m, n)
    &&& n == bytes.len()
    &&& m.op == Op::Ack
    &&& m.topic == topic
    &&& m.payload.len() == 12
    &&& frame::located(m.payload) == Some((offset, len))
}

/// Topics and payloads are short enough for every frame that carries them.
pub open spec fn carried(topic: Seq<u8>, payload: Seq<u8>) -> bool {
    9 + topic.len() + payload.len() <= 16777216 && 21 + topic.len() <= 16777216
}

proof fn acks_acknowledge(topic: Seq<u8>, offset: u64, len: u32)
    requires
        21 + topic.len() <= 16777216,
    ensures
        acknowledges(Out::Reply(model::ack(topic, offset, len)), topic, offset, len),
{
    let m = Message { op: Op::Ack, topic, payload: frame::locator(offset, len) };
    stream::parse_undoes_encode(m, Seq::empty());
    assert(m.encoded() + Seq::<u8>::empty() =~= m.encoded());
    frame::locator_round_trip(offset, len, Seq::empty());
    assert(frame::locator(offset, len) + Seq::<u8>::empty() =~= frame::locator(offset, len));
}

proof fn encodings_answer(m: Message)
    requires
        m.fits(),
    ensures
        stream::front(m.encoded()) == stream::Front::Frame(m, m.encoded().len() as int),
{
    stream::parse_undoes_encode(m, Seq::empty());
    assert(m.encoded() + Seq::<u8>::empty() =~= m.encoded());
}

/// A publisher whose record is accepted reads its acknowledgement first. By
/// the position and length in it the log gives back the topic and the payload.
pub proof fn publishers_read_an_ack(p: Policy, s: State, topic: Seq<u8>, payload: Seq<u8>)
    requires
        s.log.wf(),
        laws::accepts(s, topic, payload),
        carried(topic, payload),
        s.log.end + 8 + topic.len() + payload.len() <= u64::MAX,
    ensures
        ({
            let after = s.step(p, Message { op: Op::Publish, topic, payload });
            let offset = s.log.end as u64;
            let len = (8 + topic.len() + payload.len()) as u32;
            &&& after.out.len() > s.out.len()
            &&& after.out.take(s.out.len() as int) == s.out
            &&& acknowledges(after.out[s.out.len() as int], topic, offset, len)
            &&& after.log.end == offset + len
            &&& after.log.at(offset as int, len as int) == log::record(topic, payload)
            &&& record::decoded(after.log.at(offset as int, len as int)) == Some((topic, payload))
            &&& after.close is None
            &&& after.authenticated
            &&& after.topics == s.topics
        }),
{
    laws::ack_names_the_record(p, s, topic, payload);
    acks_acknowledge(topic, s.log.end as u64, (8 + topic.len() + payload.len()) as u32);
    let after = s.step(p, Message { op: Op::Publish, topic, payload });
    assert(after.out.take(s.out.len() as int) =~= s.out);
}

/// Each subscription of a topic gets an accepted record once, and nothing else
/// leaves but the acknowledgement: the frame that goes out reads as the topic
/// and the payload, to the connections behind the subscriptions, in their
/// order.
pub proof fn subscribers_read_the_record(p: Policy, s: State, topic: Seq<u8>, payload: Seq<u8>)
    requires
        laws::accepts(s, topic, payload),
        carried(topic, payload),
    ensures
        ({
            let after = s.step(p, Message { op: Op::Publish, topic, payload });
            let n = s.out.len() as int;
            if s.table.contains_key(topic) {
                &&& after.out.len() == n + 2
                &&& after.out[n + 1] matches Out::Fanout(bytes, to)
                &&& stream::front(bytes) == stream::Front::Frame(
                    Message { op: Op::Data, topic, payload },
                    bytes.len() as int,
                )
                &&& to.len() == s.table[topic].len()
                &&& forall|k: int| 0 <= k < to.len() ==> #[trigger] to[k] == s.table[topic][k].id
            } else {
                after.out.len() == n + 1
            }
        }),
{
    encodings_answer(Message { op: Op::Data, topic, payload });
    laws::fanout_is_exact(p, s, topic, payload);
}

/// What an accepted record is counted as: published once, and delivered once
/// for each subscription of its topic, with the bytes of its payload.
pub proof fn publishes_are_counted(p: Policy, s: State, topic: Seq<u8>, payload: Seq<u8>)
    requires
        laws::accepts(s, topic, payload),
    ensures
        ({
            let after = s.step(p, Message { op: Op::Publish, topic, payload });
            let bytes = payload.len() as usize;
            let published = Event::Published { bytes };
            if s.table.contains_key(topic) {
                let copies = s.table[topic].len() as usize;
                after.events == s.events + seq![published, Event::Delivered { copies, bytes }]
            } else {
                after.events == s.events + seq![published]
            }
        }),
{
    let after = s.step(p, Message { op: Op::Publish, topic, payload });
    let bytes = payload.len() as usize;
    if s.table.contains_key(topic) {
        assert(after.events =~= s.events + seq![
            Event::Published { bytes },
            Event::Delivered { copies: s.table[topic].len() as usize, bytes },
        ]);
    } else {
        assert(after.events =~= s.events + seq![Event::Published { bytes }]);
    }
}

/// After an accepted record every subscriber of its topic has been served up to
/// the end of the log. Who they are stays, and so does everyone else.
pub proof fn publishing_serves_every_subscriber(
    p: Policy,
    s: State,
    topic: Seq<u8>,
    payload: Seq<u8>,
)
    requires
        laws::accepts(s, topic, payload),
        s.log.end + 8 + topic.len() + payload.len() <= u64::MAX,
    ensures
        ({
            let after = s.step(p, Message { op: Op::Publish, topic, payload });
            &&& forall|t: Seq<u8>| #[trigger]
                after.table.contains_key(t) <==> s.table.contains_key(t)
            &&& forall|t: Seq<u8>|
                t != topic && #[trigger] s.table.contains_key(t) ==> after.table[t] == s.table[t]
            &&& s.table.contains_key(topic) ==> {
                &&& after.table[topic].len() == s.table[topic].len()
                &&& forall|k: int|
                    0 <= k < s.table[topic].len() ==> (#[trigger] after.table[topic][k]).sent
                        >= after.log.end && after.table[topic][k].id == s.table[topic][k].id
                        && after.table[topic][k].sent >= s.table[topic][k].sent
            }
        }),
{
    let end = s.log.with_watermark(model::watermark(s.table)).appended(
        log::record(topic, payload),
    ).end;
    shard::serving_moves_everyone(s.table, topic, end as u64);
}

/// Publishes on one topic.
pub open spec fn publishes(topic: Seq<u8>, payloads: Seq<Seq<u8>>) -> Seq<Message> {
    payloads.map_values(|payload: Seq<u8>| Message { op: Op::Publish, topic, payload })
}

/// How many bytes the records of payloads take.
pub open spec fn volume(topic: Seq<u8>, payloads: Seq<Seq<u8>>) -> nat
    decreases payloads.len(),
{
    if payloads.len() == 0 {
        0
    } else {
        8 + topic.len() + payloads[0].len() + volume(topic, payloads.skip(1))
    }
}

/// Everyone who listens listens to this topic, and has been served up to the
/// end of the log.
pub open spec fn all_served(s: State, topic: Seq<u8>) -> bool {
    &&& forall|t: Seq<u8>| #[trigger] s.table.contains_key(t) ==> t == topic
    &&& s.table.contains_key(topic) ==> forall|k: int|
        0 <= k < s.table[topic].len() ==> (#[trigger] s.table[topic][k]).sent >= s.log.end
}

proof fn served_by_the_end(s: State, topic: Seq<u8>)
    requires
        all_served(s, topic),
        s.log.end <= u64::MAX,
    ensures
        model::watermark(s.table) >= s.log.end,
{
    let list = laws::listeners(s.table, topic);
    shard::least_sent_is_least(list);
    let w = shard::least_sent(list);
    if list.len() > 0 {
        let i = choose|i: int| 0 <= i < list.len() && w == (#[trigger] list[i]).sent;
        assert(s.table.contains_key(topic) && s.table[topic][i].sent == w);
    }
    assert forall|t: Seq<u8>, k: int|
        s.table.contains_key(t) && 0 <= k < s.table[t].len() implies w <= (
    #[trigger] s.table[t][k]).sent by {
        assert(t == topic);
        assert(list[k] == s.table[t][k]);
    }
    model::watermark_is_unique(s.table, w);
}

/// Subscribers that get every record are in nobody's way: where all listen to
/// the topic that is published, no record that fits the log is ever refused,
/// however many there are, and whatever the log does on overflow.
pub proof fn served_subscribers_block_nothing(
    p: Policy,
    s: State,
    topic: Seq<u8>,
    payloads: Seq<Seq<u8>>,
)
    requires
        s.log.wf(),
        s.authenticated,
        s.close is None,
        all_served(s, topic),
        s.log.end + volume(topic, payloads) <= u64::MAX,
        forall|i: int|
            0 <= i < payloads.len() ==> 8 + topic.len() + (#[trigger] payloads[i]).len()
                <= s.log.capacity / 2,
    ensures
        ({
            let after = s.run(p, publishes(topic, payloads));
            &&& after.close is None
            &&& after.log.end == s.log.end + volume(topic, payloads)
            &&& after.events.len() >= s.events.len()
            &&& forall|i: int|
                s.events.len() <= i < after.events.len() ==> #[trigger] after.events[i]
                    != Event::Rejected
            &&& all_served(after, topic)
        }),
    decreases payloads.len(),
{
    if payloads.len() > 0 {
        let ms = publishes(topic, payloads);
        let payload = payloads[0];
        let later = payloads.skip(1);
        let rec = log::record(topic, payload);
        served_by_the_end(s, topic);
        let l = s.log.with_watermark(model::watermark(s.table));
        assert(laws::accepts(s, topic, payload));
        let next = s.step(p, ms[0]);
        retention::append_keeps_wf(l, rec);
        publishing_serves_every_subscriber(p, s, topic, payload);
        publishes_are_counted(p, s, topic, payload);
        assert(next.log == l.after_append(rec));
        assert(ms.skip(1) =~= publishes(topic, later));
        assert forall|i: int| 0 <= i < later.len() implies 8 + topic.len() + (
        #[trigger] later[i]).len() <= next.log.capacity / 2 by {
            assert(later[i] == payloads[i + 1]);
        }
        served_subscribers_block_nothing(p, next, topic, later);
        let after = s.run(p, ms);
        assert(after == next.run(p, ms.skip(1)));
        laws::runs_only_add(p, next, ms.skip(1));
        assert forall|i: int| s.events.len() <= i < after.events.len() implies (
        #[trigger] after.events[i]) != Event::Rejected by {
            if i < next.events.len() {
                assert(after.events[i] == next.events[i]);
            }
        }
    }
}

/// A record is refused only for cause: someone listens who has not been handed
/// a byte that the record would overwrite.
pub proof fn refusals_have_a_cause(s: State, topic: Seq<u8>, payload: Seq<u8>, w: u64)
    requires
        model::is_watermark(s.table, w),
        s.log.end + 8 + topic.len() + payload.len() <= u64::MAX,
        s.log.with_watermark(model::watermark(s.table)).append_result(log::record(topic, payload))
            == Err::<(u64, u32), StoreError>(StoreError::Overflow),
    ensures
        exists|t: Seq<u8>, k: int|
            s.table.contains_key(t) && 0 <= k < s.table[t].len() && (#[trigger] s.table[t][k]).sent
                + s.log.capacity < s.log.end + 8 + topic.len() + payload.len(),
{
    model::watermark_is_unique(s.table, w);
    let (t, k) = choose|t: Seq<u8>, k: int|
        s.table.contains_key(t) && 0 <= k < s.table[t].len() && w == (#[trigger] s.table[t][k]).sent;
    assert(s.table[t][k].sent == w);
}

/// A refused publisher reads an error with its topic and the text `overflow`;
/// nothing else leaves, and nothing is lost.
pub proof fn refused_publishers_read_an_error(
    p: Policy,
    s: State,
    topic: Seq<u8>,
    payload: Seq<u8>,
)
    requires
        s.authenticated,
        17 + topic.len() <= 16777216,
        s.log.with_watermark(model::watermark(s.table)).append_result(log::record(topic, payload))
            == Err::<(u64, u32), StoreError>(StoreError::Overflow),
    ensures
        ({
            let after = s.step(p, Message { op: Op::Publish, topic, payload });
            &&& after.out.len() == s.out.len() + 1
            &&& after.out.take(s.out.len() as int) == s.out
            &&& answers(
                after.out.last(),
                Message {
                    op: Op::Error,
                    topic,
                    payload: vstd::utf8::encode_utf8("overflow"@),
                },
            )
            &&& after.log.end == s.log.end
            &&& after.log.bytes == s.log.bytes
            &&& after.table == s.table
            &&& after.close == s.close
            &&& after.events == s.events.push(Event::Rejected)
        }),
{
    model::overflow_text_len();
    encodings_answer(
        Message { op: Op::Error, topic, payload: vstd::utf8::encode_utf8("overflow"@) },
    );
    let after = s.step(p, Message { op: Op::Publish, topic, payload });
    assert(after.out.take(s.out.len() as int) =~= s.out);
}

/// A record that takes more than half of the log ends the connection: nothing
/// leaves, and the log and everyone's subscriptions stay.
pub proof fn oversized_records_end_the_connection(
    p: Policy,
    s: State,
    topic: Seq<u8>,
    payload: Seq<u8>,
)
    requires
        s.authenticated,
        8 + topic.len() + payload.len() > s.log.capacity / 2,
    ensures
        ({
            let after = s.step(p, Message { op: Op::Publish, topic, payload });
            &&& after.close == Some(CloseReason::RecordTooLarge)
            &&& after.out == s.out
            &&& after.events == s.events
            &&& after.log.end == s.log.end
            &&& after.log.bytes == s.log.bytes
            &&& after.table == s.table
        }),
{
}

/// A subscriber reads an acknowledgement, and stands once more in the topic's
/// list, at its end, from the end of the log on. Nobody else is touched.
pub proof fn subscribing_adds_the_subscriber(p: Policy, s: State, topic: Seq<u8>, payload: Seq<u8>)
    requires
        s.authenticated,
        21 + topic.len() <= 16777216,
        s.log.end <= u64::MAX,
    ensures
        ({
            let after = s.step(p, Message { op: Op::Subscribe, topic, payload });
            let before = laws::listeners(s.table, topic);
            let list = laws::listeners(after.table, topic);
            &&& list.len() == before.len() + 1
            &&& list.last().id == p.id
            &&& list.last().sent == s.log.end
            &&& list.take(before.len() as int) == before
            &&& forall|t: Seq<u8>|
                t != topic ==> #[trigger] laws::listeners(after.table, t) == laws::listeners(
                    s.table,
                    t,
                )
            &&& after.out.len() == s.out.len() + 1
            &&& after.out.take(s.out.len() as int) == s.out
            &&& acknowledges(after.out.last(), topic, 0, 0)
            &&& after.events == s.events.push(Event::Subscribed)
            &&& after.topics == s.topics.push(topic)
            &&& after.log == s.log
            &&& after.close == s.close
            &&& after.wait_for == s.wait_for
        }),
{
    let after = s.step(p, Message { op: Op::Subscribe, topic, payload });
    let sub = Subscriber { id: p.id, sent: s.log.end as u64 };
    shard::a_subscription_adds_one_entry(s.table, topic, sub, p.id);
    acks_acknowledge(topic, 0, 0);
    let before = laws::listeners(s.table, topic);
    assert(laws::listeners(after.table, topic).take(before.len() as int) =~= before);
    assert(after.out.take(s.out.len() as int) =~= s.out);
}

/// How many of the messages subscribe to a topic.
pub open spec fn subscribes(ms: Seq<Message>, topic: Seq<u8>) -> nat
    decreases ms.len(),
{
    if ms.len() == 0 {
        0
    } else {
        subscribes(ms.skip(1), topic) + if ms[0].op == Op::Subscribe && ms[0].topic == topic {
            1nat
        } else {
            0nat
        }
    }
}

/// A connection that subscribed to a topic so often stands so often in its
/// list, whatever else it sent, and puts no one else there.
pub proof fn subscriptions_are_counted(
    p: Policy,
    s: State,
    ms: Seq<Message>,
    topic: Seq<u8>,
    id: u64,
)
    requires
        s.authenticated,
        s.run(p, ms).close is None,
    ensures
        shard::occurrences(laws::listeners(s.run(p, ms).table, topic), id)
            == shard::occurrences(laws::listeners(s.table, topic), id) + (if id == p.id {
            subscribes(ms, topic)
        } else {
            0
        }),
    decreases ms.len(),
{
    if ms.len() > 0 && s.close is None {
        let m = ms[0];
        let next = s.step(p, m);
        if next.close is Some {
            assert(next.run(p, ms.skip(1)) == next);
        }
        let end = s.log.with_watermark(model::watermark(s.table)).appended(
            log::record(m.topic, m.payload),
        ).end;
        shard::serving_moves_everyone(s.table, m.topic, end as u64);
        let sub = Subscriber { id: p.id, sent: s.log.end as u64 };
        shard::a_subscription_adds_one_entry(s.table, m.topic, sub, id);
        if m.op == Op::Publish {
            let (a, b) = (laws::listeners(s.table, topic), laws::listeners(next.table, topic));
            assert(a.len() == b.len());
            assert forall|k: int| 0 <= k < a.len() implies (#[trigger] a[k]).id == b[k].id by {
                if topic == m.topic && next.table != s.table {
                    assert(next.table[topic][k].id == s.table[topic][k].id);
                }
            }
            shard::occurrences_depend_on_connections(a, b, id);
        }
        subscriptions_are_counted(p, next, ms.skip(1), topic, id);
    }
}

/// A ping is answered with an acknowledgement under the topic `pong`, and
/// changes nothing.
pub proof fn pings_are_answered(p: Policy, s: State, m: Message)
    requires
        s.authenticated,
        m.op == Op::Ping,
    ensures
        ({
            let after = s.step(p, m);
            &&& after.out.len() == s.out.len() + 1
            &&& acknowledges(after.out.last(), vstd::utf8::encode_utf8("pong"@), 0, 0)
            &&& after == (State { out: s.out.push(after.out.last()), ..s })
        }),
{
    reveal_strlit("pong");
    vstd::utf8::is_ascii_chars_encode_utf8("pong"@);
    assert(vstd::utf8::encode_utf8("pong"@) =~= model::pong_topic());
    acks_acknowledge(model::pong_topic(), 0, 0);
}

/// The right token is answered with an acknowledgement under the topic `auth`,
/// and opens the connection; so does any token where none is asked for. To
/// present one again changes nothing.
pub proof fn tokens_are_answered(p: Policy, s: State, m: Message)
    requires
        m.op == Op::Auth,
        s.authenticated || p.secret is None || p.secret == Some(m.payload),
    ensures
        ({
            let after = s.step(p, m);
            &&& after.authenticated
            &&& after.out.len() == s.out.len() + 1
            &&& acknowledges(after.out.last(), vstd::utf8::encode_utf8("auth"@), 0, 0)
            &&& after == (State {
                authenticated: true,
                out: s.out.push(after.out.last()),
                events: if s.authenticated {
                    s.events
                } else {
                    s.events.push(Event::Authenticated)
                },
                ..s
            })
        }),
{
    reveal_strlit("auth");
    vstd::utf8::is_ascii_chars_encode_utf8("auth"@);
    assert(vstd::utf8::encode_utf8("auth"@) =~= codec::auth_topic());
    acks_acknowledge(codec::auth_topic(), 0, 0);
}

/// Without the right token the first message ends the connection, with nothing
/// but the failure counted.
pub proof fn strangers_are_turned_away(p: Policy, s: State, m: Message)
    requires
        !s.authenticated,
        m.op != Op::Auth || (p.secret is Some && p.secret != Some(m.payload)),
    ensures
        s.step(p, m) == (State {
            events: s.events.push(Event::AuthFailed),
            close: Some(
                if m.op == Op::Auth {
                    CloseReason::BadToken
                } else {
                    CloseReason::AuthRequired
                },
            ),
            ..s
        }),
{
}

/// A fetch of a record that the log keeps is answered with its topic and its
/// payload, and changes nothing. More bytes than the record has do not matter.
pub proof fn fetches_are_answered(
    p: Policy,
    s: State,
    m: Message,
    offset: u64,
    len: u32,
    topic: Seq<u8>,
    payload: Seq<u8>,
    more: Seq<u8>,
)
    requires
        s.authenticated,
        m.op == Op::Fetch,
        frame::located(m.payload) == Some((offset, len)),
        s.log.wf(),
        s.log.holds(offset as int, len as int),
        s.log.at(offset as int, len as int) == log::record(topic, payload) + more,
        carried(topic, payload),
    ensures
        ({
            let after = s.step(p, m);
            &&& after.out.len() == s.out.len() + 1
            &&& answers(after.out.last(), Message { op: Op::Data, topic, payload })
            &&& after == (State { out: s.out.push(after.out.last()), ..s })
        }),
{
    record::record_round_trip(topic, payload, more);
    encodings_answer(Message { op: Op::Data, topic, payload });
}

/// A fetch of what the log does not keep changes nothing, and is answered,
/// where it is at all, with an empty acknowledgement under its own topic.
pub proof fn vain_fetches_change_nothing(p: Policy, s: State, m: Message, offset: u64, len: u32)
    requires
        s.authenticated,
        m.op == Op::Fetch,
        frame::located(m.payload) == Some((offset, len)),
        !s.log.holds(offset as int, len as int),
        21 + m.topic.len() <= 16777216,
    ensures
        ({
            let after = s.step(p, m);
            if p.ack_failed_fetch {
                &&& after.out.len() == s.out.len() + 1
                &&& acknowledges(after.out.last(), m.topic, 0, 0)
                &&& after == (State { out: s.out.push(after.out.last()), ..s })
            } else {
                after == s
            }
        }),
{
    acks_acknowledge(m.topic, 0, 0);
}

/// A fetch that names no position, and a frame that only brokers send, have no
/// effect.
pub proof fn idle_frames_have_no_effect(p: Policy, s: State, m: Message)
    requires
        s.authenticated,
        (m.op == Op::Fetch && m.payload.len() < 12) || m.op == Op::Ack || m.op == Op::Notify
            || m.op == Op::Data || m.op == Op::Error,
    ensures
        s.step(p, m) == s,
{
}

/// Only publishes write to the log; only they and subscriptions touch the
/// table.
pub proof fn only_publishes_write(p: Policy, s: State, m: Message)
    requires
        m.op != Op::Publish,
    ensures
        s.step(p, m).log == s.log,
        s.step(p, m).wait_for == s.wait_for,
        m.op != Op::Subscribe ==> s.step(p, m).table == s.table && s.step(p, m).topics == s.topics,
{
}

/// Where acknowledgements need not wait for the disk, nothing waits.
pub proof fn nothing_waits_unasked(p: Policy, s: State, ms: Seq<Message>)
    requires
        !p.durable_acks,
    ensures
        s.run(p, ms).wait_for == s.wait_for,
    decreases ms.len(),
{
    if ms.len() > 0 && s.close is None {
        nothing_waits_unasked(p, s.step(p, ms[0]), ms.skip(1));
    }
}

/// A closed connection does nothing more.
pub proof fn closed_connections_are_deaf(p: Policy, s: State, ms: Seq<Message>)
    requires
        s.close is Some,
    ensures
        s.run(p, ms) == s,
{
}

/// A connection that goes leaves every other connection its own entries, in
/// their order, under every topic.
pub proof fn leaving_spares_others(
    table: Map<Seq<u8>, Seq<Subscriber>>,
    topics: Seq<Seq<u8>>,
    id: u64,
    other: u64,
    t: Seq<u8>,
)
    requires
        other != id,
    ensures
        laws::listeners(model::left(table, topics, id), t).filter(|s: Subscriber| s.id == other)
            == laws::listeners(table, t).filter(|s: Subscriber| s.id == other),
        topics.contains(t) ==> shard::occurrences(
            laws::listeners(model::left(table, topics, id), t),
            id,
        ) == 0,
        !topics.contains(t) ==> laws::listeners(model::left(table, topics, id), t)
            == laws::listeners(table, t),
    decreases topics.len(),
{
    if topics.len() > 0 {
        let before = model::left(table, topics.drop_last(), id);
        let after = model::left(table, topics, id);
        leaving_spares_others(table, topics.drop_last(), id, other, t);
        shard::leaving_takes_own_entries_only(before, topics.last(), id, other);
        if topics.contains(t) && t != topics.last() {
            let i = choose|i: int| 0 <= i < topics.len() && topics[i] == t;
            assert(topics.drop_last()[i] == t);
        }
        if t == topics.last() {
            assert(topics[topics.len() - 1] == t);
        }
        if topics.drop_last().contains(t) {
            let i = choose|i: int| 0 <= i < topics.drop_last().len() && topics.drop_last()[i] == t;
            assert(topics[i] == t);
        }
        if t != topics.last() {
            assert(laws::listeners(after, t) == laws::listeners(before, t));
        }
    }
}

/// A fetch of kept bytes that begin with no record has no effect.
pub proof fn fetches_between_records_have_no_effect(
    p: Policy,
    s: State,
    m: Message,
    offset: u64,
    len: u32,
)
    requires
        s.authenticated,
        m.op == Op::Fetch,
        frame::located(m.payload) == Some((offset, len)),
        s.log.holds(offset as int, len as int),
        forall|topic: Seq<u8>, payload: Seq<u8>, more: Seq<u8>|
            s.log.at(offset as int, len as int) != #[trigger] (log::record(topic, payload) + more),
    ensures
        s.step(p, m) == s,
{
    let raw = s.log.at(offset as int, len as int);
    if record::decoded(raw) is Some {
        record::decoded_records_are_there(raw);
        let (topic, payload) = record::decoded(raw)->0;
        let n = (8 + topic.len() + payload.len()) as int;
        assert(raw =~= log::record(topic, payload) + raw.skip(n));
    }
}

} // verus!
