//! Laws of a connection.

use super::model;
use super::model::{CloseReason, Event, Out, Policy, State};
use crate::protocol::frame;
use crate::protocol::frame::{Message, Op};
use crate::protocol::stream;
use crate::store::file;
use crate::store::flusher;
use crate::store::header;
use crate::store::header::RingHeader;
use crate::store::log;
use crate::store::log::{Log, StoreError};
use crate::store::record;
use crate::store::retention;
use crate::subscription::shard;
use crate::subscription::shard::Subscriber;
use vstd::prelude::*;

verus! {

broadcast use crate::protocol::wire::be32_len;

/// The token is in none of the messages.
pub open spec fn without_token(p: Policy, ms: Seq<Message>) -> bool {
    &&& p.secret is Some
    &&& forall|i: int|
        0 <= i < ms.len() ==> !((#[trigger] ms[i]).op == Op::Auth && Some(ms[i].payload)
            == p.secret)
}

/// Nothing is done, and nothing is sent, before the token was presented.
pub proof fn nothing_before_the_token(p: Policy, s: State, ms: Seq<Message>)
    requires
        !s.authenticated,
        without_token(p, ms),
    ensures
        ({
            let after = s.run(p, ms);
            &&& !after.authenticated
            &&& after.log == s.log
            &&& after.table == s.table
            &&& after.topics == s.topics
            &&& after.out == s.out
            &&& ms.len() > 0 ==> after.close is Some
        }),
    decreases ms.len(),
{
    if ms.len() > 0 && s.close is None {
        let next = s.step(p, ms[0]);
        let later = ms.skip(1);
        assert forall|i: int| 0 <= i < later.len() implies !((#[trigger] later[i]).op == Op::Auth
            && Some(later[i].payload) == p.secret) by {
            assert(later[i] == ms[i + 1]);
        }
        nothing_before_the_token(p, next, later);
    }
}

/// A connection that is authenticated stays so, and is not closed for want of
/// a token.
pub proof fn authentication_lasts(p: Policy, s: State, ms: Seq<Message>)
    requires
        s.authenticated,
        s.close is None,
    ensures
        s.run(p, ms).authenticated,
        s.run(p, ms).close is None || s.run(p, ms).close == Some(CloseReason::RecordTooLarge),
    decreases ms.len(),
{
    if ms.len() > 0 {
        let next = s.step(p, ms[0]);
        if next.close is None {
            authentication_lasts(p, next, ms.skip(1));
        } else {
            assert(next.run(p, ms.skip(1)) == next);
        }
    }
}

/// Running one list of messages behind another is running both at once.
pub proof fn runs_compose(p: Policy, s: State, first: Seq<Message>, second: Seq<Message>)
    ensures
        s.run(p, first + second) == s.run(p, first).run(p, second),
    decreases first.len(),
{
    if first.len() == 0 {
        assert(first + second =~= second);
    } else if s.close is None {
        assert((first + second).skip(1) =~= first.skip(1) + second);
        assert((first + second)[0] == first[0]);
        runs_compose(p, s.step(p, first[0]), first.skip(1), second);
    }
}

/// The state without what was sent so far.
pub open spec fn unsent(s: State) -> State {
    State { out: Seq::empty(), events: Seq::empty(), wait_for: None, ..s }
}

/// `after`, with what `before` had sent in front of what it sent.
pub open spec fn resumed(before: State, after: State) -> State {
    State {
        out: before.out + after.out,
        events: before.events + after.events,
        wait_for: if after.wait_for is Some {
            after.wait_for
        } else {
            before.wait_for
        },
        ..after
    }
}

proof fn step_only_adds(p: Policy, s: State, m: Message)
    ensures
        s.step(p, m) == resumed(s, unsent(s).step(p, m)),
{
    assert(s.step(p, m) =~= resumed(s, unsent(s).step(p, m)));
}

/// What was sent before does not matter for what is sent now: messages only
/// add to it.
pub proof fn runs_only_add(p: Policy, s: State, ms: Seq<Message>)
    ensures
        s.run(p, ms) == resumed(s, unsent(s).run(p, ms)),
    decreases ms.len(),
{
    if ms.len() == 0 || s.close is Some {
        assert(s =~= resumed(s, unsent(s)));
    } else {
        let u = unsent(s);
        let next = s.step(p, ms[0]);
        let unext = u.step(p, ms[0]);
        step_only_adds(p, s, ms[0]);
        runs_only_add(p, next, ms.skip(1));
        runs_only_add(p, unext, ms.skip(1));
        assert(unsent(next) =~= unsent(unext));
        assert(s.run(p, ms) =~= resumed(s, u.run(p, ms)));
    }
}

/// How a sound stream is cut into reads does not matter to the broker:
/// handling it in two reads does what handling it in one does, with the
/// frames of the second read behind those of the first.
pub proof fn reads_compose(p: Policy, s: State, first: Seq<u8>, second: Seq<u8>)
    requires
        stream::sound(first),
    ensures
        s.run(p, stream::frames(first + second)) == ({
            let between = s.run(p, stream::frames(first));
            resumed(
                between,
                unsent(between).run(p, stream::frames(stream::rest(first) + second)),
            )
        }),
{
    stream::chunking_is_invisible(first, second);
    let between = s.run(p, stream::frames(first));
    runs_compose(p, s, stream::frames(first), stream::frames(stream::rest(first) + second));
    runs_only_add(p, between, stream::frames(stream::rest(first) + second));
}

/// Whatever a connection sends, the log only grows: what it keeps is what it
/// held.
pub proof fn runs_extend_the_log(p: Policy, s: State, ms: Seq<Message>)
    requires
        s.log.wf(),
    ensures
        retention::extends(s.log, s.run(p, ms).log),
    decreases ms.len(),
{
    retention::append_extends(s.log, 0, Seq::empty());
    if ms.len() > 0 && s.close is None {
        let next = s.step(p, ms[0]);
        retention::append_extends(
            s.log,
            model::watermark(s.table),
            log::record(ms[0].topic, ms[0].payload),
        );
        assert(retention::extends(s.log, next.log));
        runs_extend_the_log(p, next, ms.skip(1));
        retention::extends_is_transitive(s.log, next.log, s.run(p, ms).log);
    }
}

/// A record was accepted: the connection is authenticated, and the log has
/// taken it.
pub open spec fn accepts(s: State, topic: Seq<u8>, payload: Seq<u8>) -> bool {
    &&& s.authenticated
    &&& s.close is None
    &&& s.log.with_watermark(model::watermark(s.table)).append_result(
        log::record(topic, payload),
    ) is Ok
}

/// An acknowledgement names the record: the position and the length in it are
/// where the log holds the topic and the payload that were published.
pub proof fn ack_names_the_record(p: Policy, s: State, topic: Seq<u8>, payload: Seq<u8>)
    requires
        s.log.wf(),
        accepts(s, topic, payload),
        topic.len() <= u32::MAX,
        payload.len() <= u32::MAX,
    ensures
        ({
            let after = s.step(p, Message { op: Op::Publish, topic, payload });
            let offset = s.log.end as int;
            let len = (8 + topic.len() + payload.len()) as int;
            &&& after.out[s.out.len() as int] == Out::Reply(
                model::ack(topic, offset as u64, len as u32),
            )
            &&& after.log.wf()
            &&& after.log.holds(offset, len)
            &&& after.log.at(offset, len) == log::record(topic, payload)
            &&& record::decoded(after.log.at(offset, len)) == Some((topic, payload))
        }),
{
    let l = s.log.with_watermark(model::watermark(s.table));
    let rec = log::record(topic, payload);
    retention::append_then_read(l, topic, payload);
    retention::append_keeps_wf(l, rec);
    let after = s.step(p, Message { op: Op::Publish, topic, payload });
    assert(after.log == l.after_append(rec));
}

/// A record that was acknowledged can be fetched by the position and length
/// of its acknowledgement, by any connection and however the log has grown
/// since, until it has grown by its capacity: what comes back is what was
/// published.
pub proof fn published_can_be_fetched(
    publisher: Policy,
    s: State,
    topic: Seq<u8>,
    payload: Seq<u8>,
    reader: Policy,
    r: State,
    named: Seq<u8>,
)
    requires
        s.log.wf(),
        accepts(s, topic, payload),
        s.log.end + 8 + topic.len() + payload.len() <= u64::MAX,
        8 + topic.len() + payload.len() <= u32::MAX,
        r.authenticated,
        retention::extends(
            s.step(publisher, Message { op: Op::Publish, topic, payload }).log,
            r.log,
        ),
        r.log.end <= s.log.end + s.log.capacity,
    ensures
        ({
            let offset = s.log.end as u64;
            let len = (8 + topic.len() + payload.len()) as u32;
            let request = Message {
                op: Op::Fetch,
                topic: named,
                payload: frame::locator(offset, len),
            };
            r.step(reader, request) == r.replied(model::data(topic, payload))
        }),
{
    let offset = s.log.end as u64;
    let len = (8 + topic.len() + payload.len()) as u32;
    let after = s.step(publisher, Message { op: Op::Publish, topic, payload });
    ack_names_the_record(publisher, s, topic, payload);
    retention::reads_survive_growth(after.log, r.log, offset as int, len as int);
    frame::locator_round_trip(offset, len, Seq::empty());
    assert(frame::locator(offset, len) + Seq::<u8>::empty() =~= frame::locator(offset, len));
}

/// No acknowledgement outruns the disk: whatever else comes in the same read,
/// the acknowledgement of a record leaves only when the log is durable beyond
/// the end of the record.
pub proof fn no_ack_outruns_the_disk(
    p: Policy,
    s: State,
    earlier: Seq<Message>,
    topic: Seq<u8>,
    payload: Seq<u8>,
    later: Seq<Message>,
    durable: nat,
)
    requires
        p.durable_acks,
        s.log.wf(),
        accepts(s.run(p, earlier), topic, payload),
        ({
            let all = earlier + seq![Message { op: Op::Publish, topic, payload }] + later;
            s.run(p, all).wait_for matches Some(w) ==> w <= durable
        }),
    ensures
        ({
            let here = s.run(p, earlier);
            let all = earlier + seq![Message { op: Op::Publish, topic, payload }] + later;
            let offset = here.log.end;
            let len = 8 + topic.len() + payload.len();
            &&& s.run(p, all).out.len() > here.out.len()
            &&& s.run(p, all).out[here.out.len() as int] == Out::Reply(
                model::ack(topic, offset as u64, len as u32),
            )
            &&& durable >= offset + len
        }),
{
    let m = Message { op: Op::Publish, topic, payload };
    let here = s.run(p, earlier);
    let all = earlier + seq![m] + later;
    let next = here.step(p, m);
    runs_extend_the_log(p, s, earlier);
    runs_compose(p, s, earlier + seq![m], later);
    runs_compose(p, s, earlier, seq![m]);
    assert(seq![m].skip(1).len() == 0);
    assert(here.run(p, seq![m]) == next.run(p, seq![m].skip(1)));
    assert(here.run(p, seq![m]) == next);
    runs_extend_the_log(p, here, seq![m]);
    runs_only_add(p, next, later);
    waiting_covers_every_ack(p, next, later);
    runs_extend_the_log(p, next, later);
    assert(next.out[here.out.len() as int] == Out::Reply(
        model::ack(topic, here.log.end as u64, (8 + topic.len() + payload.len()) as u32),
    ));
}

/// Where acknowledgements wait for the disk, they wait for all of it: after
/// any messages that grew the log, the position waited for is the end of the
/// log, which no acknowledged record lies beyond.
pub proof fn waiting_covers_every_ack(p: Policy, s: State, ms: Seq<Message>)
    requires
        p.durable_acks,
        s.log.wf(),
    ensures
        ({
            let after = s.run(p, ms);
            &&& after.log.end > s.log.end ==> after.wait_for == Some(after.log.end)
            &&& after.log.end == s.log.end ==> after.wait_for == s.wait_for
        }),
    decreases ms.len(),
{
    if ms.len() > 0 && s.close is None {
        let next = s.step(p, ms[0]);
        runs_extend_the_log(p, s, seq![ms[0]]);
        assert(s.run(p, seq![ms[0]]) == next.run(p, seq![ms[0]].skip(1)));
        assert(seq![ms[0]].skip(1).len() == 0);
        waiting_covers_every_ack(p, next, ms.skip(1));
        runs_extend_the_log(p, next, ms.skip(1));
        assert(log::record(ms[0].topic, ms[0].payload).len() >= 8);
    }
}

/// An acknowledged record is not lost: where the acknowledgement left when the
/// log was durable up to where it waits for, a kill at any later moment leaves
/// a file that gives back what was published, unless the log has gone round
/// since. The file may be torn: its slots hold what is durable, and its header
/// commits to that or to more.
pub proof fn acknowledged_records_survive(
    p: Policy,
    s: State,
    topic: Seq<u8>,
    payload: Seq<u8>,
    later: Log,
    durable: nat,
    head: Seq<u8>,
    slots: Seq<u8>,
    h: RingHeader,
)
    requires
        p.durable_acks,
        s.log.wf(),
        accepts(s, topic, payload),
        topic.len() <= u32::MAX,
        payload.len() <= u32::MAX,
        later.wf(),
        retention::extends(s.step(p, Message { op: Op::Publish, topic, payload }).log, later),
        later.end <= s.log.end + s.log.capacity,
        file::legal_size(later.capacity),
        s.step(p, Message { op: Op::Publish, topic, payload }).wait_for matches Some(w) && w
            <= durable,
        flusher::holds_durable(slots, later, durable),
        header::decoded(head) == Some(h),
        h.capacity == later.capacity,
        durable <= h.committed <= later.end,
    ensures
        ({
            let offset = s.log.end as int;
            let len = (8 + topic.len() + payload.len()) as int;
            let r = file::recovered(head, slots);
            &&& r is Ok
            &&& r->Ok_0.read_result(offset, len) is Ok
            &&& record::decoded(r->Ok_0.at(offset, len)) == Some((topic, payload))
        }),
{
    let offset = s.log.end as int;
    let len = (8 + topic.len() + payload.len()) as int;
    let after = s.step(p, Message { op: Op::Publish, topic, payload });
    ack_names_the_record(p, s, topic, payload);
    retention::reads_survive_growth(after.log, later, offset, len);
    flusher::torn_files_give_back_what_is_durable(durable, later, head, slots, h, offset, len);
}

/// A record reaches each subscriber of its topic, and no one else: the frame
/// goes to the connections of the topic's list, in their order.
pub proof fn fanout_is_exact(p: Policy, s: State, topic: Seq<u8>, payload: Seq<u8>)
    requires
        accepts(s, topic, payload),
    ensures
        ({
            let after = s.step(p, Message { op: Op::Publish, topic, payload });
            let n = s.out.len() as int;
            if s.table.contains_key(topic) {
                &&& after.out.len() == n + 2
                &&& after.out[n + 1] == Out::Fanout(
                    model::data(topic, payload),
                    model::ids(s.table[topic]),
                )
                &&& model::ids(s.table[topic]).len() == s.table[topic].len()
                &&& forall|k: int|
                    0 <= k < s.table[topic].len() ==> (#[trigger] model::ids(s.table[topic])[k])
                        == s.table[topic][k].id
            } else {
                after.out.len() == n + 1
            }
        }),
{
}

/// Where nobody listens, nothing is refused for want of delivery.
pub proof fn no_subscribers_no_refusal(l: Log, rec: Seq<u8>)
    requires
        l.end + rec.len() <= u64::MAX,
    ensures
        model::watermark(Map::<Seq<u8>, Seq<Subscriber>>::empty()) == u64::MAX,
        l.with_watermark(u64::MAX).append_result(rec) != Err::<(u64, u32), StoreError>(
            StoreError::Overflow,
        ),
{
    model::watermark_is_unique(Map::<Seq<u8>, Seq<Subscriber>>::empty(), u64::MAX);
}

/// A record that would overwrite what a subscriber has still to get is
/// answered with a refusal; the log keeps its bytes, the table and the
/// connection stay as they are.
pub proof fn refused_publish_is_answered(p: Policy, s: State, topic: Seq<u8>, payload: Seq<u8>)
    requires
        s.authenticated,
        s.log.with_watermark(model::watermark(s.table)).append_result(log::record(topic, payload))
            == Err::<(u64, u32), StoreError>(StoreError::Overflow),
    ensures
        ({
            let after = s.step(p, Message { op: Op::Publish, topic, payload });
            &&& after.out == s.out.push(Out::Reply(model::refusal(topic)))
            &&& after.events == s.events.push(Event::Rejected)
            &&& after.close == s.close
            &&& after.table == s.table
            &&& after.log.end == s.log.end
            &&& after.log.bytes == s.log.bytes
            &&& after.wait_for == s.wait_for
        }),
{
}

/// Where the log must keep what is undelivered, a publish keeps every byte
/// from the watermark of the subscribers on.
pub proof fn publish_keeps_undelivered(
    p: Policy,
    s: State,
    topic: Seq<u8>,
    payload: Seq<u8>,
    offset: int,
    len: int,
)
    requires
        s.log.wf(),
        s.log.keep_from is Some,
        model::watermark(s.table) <= offset,
        s.log.holds(offset, len),
        s.authenticated,
    ensures
        ({
            let after = s.step(p, Message { op: Op::Publish, topic, payload });
            &&& after.log.holds(offset, len)
            &&& after.log.at(offset, len) == s.log.at(offset, len)
        }),
{
    let l = s.log.with_watermark(model::watermark(s.table));
    retention::rejecting_keeps_undelivered(l, log::record(topic, payload), offset, len);
}

/// The subscribers of a topic.
pub open spec fn listeners(table: Map<Seq<u8>, Seq<Subscriber>>, topic: Seq<u8>) -> Seq<Subscriber> {
    if table.contains_key(topic) {
        table[topic]
    } else {
        Seq::empty()
    }
}

/// A connection is subscribed to a topic.
pub open spec fn listens(
    table: Map<Seq<u8>, Seq<Subscriber>>,
    topic: Seq<u8>,
    id: u64,
) -> bool {
    exists|k: int|
        0 <= k < listeners(table, topic).len() && (#[trigger] listeners(table, topic)[k]).id == id
}

/// Every topic that a connection is subscribed to is among `topics`.
pub open spec fn noted(
    table: Map<Seq<u8>, Seq<Subscriber>>,
    topics: Seq<Seq<u8>>,
    id: u64,
) -> bool {
    forall|t: Seq<u8>| #[trigger] listens(table, t, id) ==> topics.contains(t)
}

proof fn without_removes(list: Seq<Subscriber>, id: u64)
    ensures
        forall|k: int|
            0 <= k < shard::without(list, id).len() ==> (#[trigger] shard::without(
                list,
                id,
            )[k]).id != id,
        shard::without(shard::without(list, id), id) == shard::without(list, id),
    decreases list.len(),
{
    reveal(Seq::filter);
    if list.len() > 0 {
        without_removes(list.drop_last(), id);
        if list.last().id != id {
            let w = shard::without(list.drop_last(), id);
            assert(shard::without(list, id) =~= w.push(list.last()));
            assert(w.push(list.last()).drop_last() =~= w);
        }
    }
}

proof fn leaving_one(table: Map<Seq<u8>, Seq<Subscriber>>, topic: Seq<u8>, id: u64)
    ensures
        ({
            let after = shard::unsubscribed(table, topic, id);
            &&& forall|t: Seq<u8>|
                t != topic ==> #[trigger] listeners(after, t) == listeners(table, t)
            &&& listeners(after, topic) == shard::without(listeners(table, topic), id)
        }),
{
    reveal(Seq::filter);
}

/// A connection that leaves takes its own subscriptions with it and no one
/// else's: of every topic, the other subscribers stay in their order, and the
/// topics it left have no subscription of it.
pub proof fn leaving_is_exact(
    table: Map<Seq<u8>, Seq<Subscriber>>,
    topics: Seq<Seq<u8>>,
    id: u64,
)
    ensures
        ({
            let after = model::left(table, topics, id);
            forall|t: Seq<u8>| #[trigger]
                listeners(after, t) == if topics.contains(t) {
                    shard::without(listeners(table, t), id)
                } else {
                    listeners(table, t)
                }
        }),
    decreases topics.len(),
{
    if topics.len() > 0 {
        let before = model::left(table, topics.drop_last(), id);
        let after = model::left(table, topics, id);
        leaving_is_exact(table, topics.drop_last(), id);
        leaving_one(before, topics.last(), id);
        assert forall|t: Seq<u8>| #[trigger]
            listeners(after, t) == (if topics.contains(t) {
                shard::without(listeners(table, t), id)
            } else {
                listeners(table, t)
            }) by {
            without_removes(listeners(table, t), id);
            if topics.drop_last().contains(t) {
                let i = choose|i: int|
                    0 <= i < topics.drop_last().len() && topics.drop_last()[i] == t;
                assert(topics[i] == t);
            }
            if topics.contains(t) && t != topics.last() {
                let i = choose|i: int| 0 <= i < topics.len() && topics[i] == t;
                assert(topics.drop_last()[i] == t);
            }
            if t == topics.last() {
                assert(topics[topics.len() - 1] == t);
            }
        }
    }
}

/// A connection that leaves all topics it subscribed to listens to none.
pub proof fn leaving_is_complete(
    table: Map<Seq<u8>, Seq<Subscriber>>,
    topics: Seq<Seq<u8>>,
    id: u64,
)
    requires
        noted(table, topics, id),
    ensures
        forall|t: Seq<u8>| !#[trigger] listens(model::left(table, topics, id), t, id),
{
    let after = model::left(table, topics, id);
    leaving_is_exact(table, topics, id);
    assert forall|t: Seq<u8>| !#[trigger] listens(after, t, id) by {
        without_removes(listeners(table, t), id);
        if listens(after, t, id) {
            let k = choose|k: int|
                0 <= k < listeners(after, t).len() && (#[trigger] listeners(after, t)[k]).id == id;
            if !topics.contains(t) {
                assert(listeners(after, t) == listeners(table, t));
                assert(listeners(table, t)[k].id == id);
                assert(listens(table, t, id));
            }
        }
    }
}

proof fn marking_keeps_listeners(
    table: Map<Seq<u8>, Seq<Subscriber>>,
    topic: Seq<u8>,
    pos: u64,
    t: Seq<u8>,
    id: u64,
)
    ensures
        listens(shard::marked_sent(table, topic, pos), t, id) ==> listens(table, t, id),
{
    let after = shard::marked_sent(table, topic, pos);
    if listens(after, t, id) {
        let k = choose|k: int|
            0 <= k < listeners(after, t).len() && (#[trigger] listeners(after, t)[k]).id == id;
        assert(listeners(table, t)[k].id == id);
    }
}

proof fn subscribing_adds_one(
    table: Map<Seq<u8>, Seq<Subscriber>>,
    topic: Seq<u8>,
    sub: Subscriber,
    t: Seq<u8>,
    id: u64,
)
    ensures
        listens(shard::subscribed(table, topic, sub), t, id) ==> listens(table, t, id) || (t
            == topic && id == sub.id),
{
    let after = shard::subscribed(table, topic, sub);
    if listens(after, t, id) {
        let k = choose|k: int|
            0 <= k < listeners(after, t).len() && (#[trigger] listeners(after, t)[k]).id == id;
        if k < listeners(table, t).len() {
            assert(listeners(table, t)[k].id == id);
        }
    }
}

/// A connection keeps note of its subscriptions: whatever it sends, every
/// topic it listens to is among those it will leave.
pub proof fn subscriptions_are_noted(p: Policy, s: State, ms: Seq<Message>)
    requires
        noted(s.table, s.topics, p.id),
    ensures
        noted(s.run(p, ms).table, s.run(p, ms).topics, p.id),
    decreases ms.len(),
{
    if ms.len() > 0 && s.close is None {
        let next = s.step(p, ms[0]);
        assert forall|t: Seq<u8>| #[trigger] listens(next.table, t, p.id) implies next.topics.contains(
            t,
        ) by {
            let end = s.log.with_watermark(model::watermark(s.table)).appended(
                log::record(ms[0].topic, ms[0].payload),
            ).end;
            marking_keeps_listeners(s.table, ms[0].topic, end as u64, t, p.id);
            subscribing_adds_one(
                s.table,
                ms[0].topic,
                Subscriber { id: p.id, sent: s.log.end as u64 },
                t,
                p.id,
            );
            if s.topics.contains(t) {
                let i = choose|i: int| 0 <= i < s.topics.len() && s.topics[i] == t;
                assert(next.topics[i] == t);
            }
            if next.topics.len() > s.topics.len() {
                assert(next.topics[s.topics.len() as int] == ms[0].topic);
            }
        }
        subscriptions_are_noted(p, next, ms.skip(1));
    }
}

proof fn marking_loses_nobody(
    table: Map<Seq<u8>, Seq<Subscriber>>,
    topic: Seq<u8>,
    pos: u64,
    t: Seq<u8>,
    id: u64,
)
    ensures
        listens(table, t, id) ==> listens(shard::marked_sent(table, topic, pos), t, id),
{
    let after = shard::marked_sent(table, topic, pos);
    if listens(table, t, id) {
        let k = choose|k: int|
            0 <= k < listeners(table, t).len() && (#[trigger] listeners(table, t)[k]).id == id;
        assert(listeners(after, t)[k].id == id);
    }
}

proof fn subscribing_loses_nobody(
    table: Map<Seq<u8>, Seq<Subscriber>>,
    topic: Seq<u8>,
    sub: Subscriber,
    t: Seq<u8>,
    id: u64,
)
    ensures
        listens(table, t, id) ==> listens(shard::subscribed(table, topic, sub), t, id),
        listens(shard::subscribed(table, topic, sub), topic, sub.id),
{
    let after = shard::subscribed(table, topic, sub);
    if listens(table, t, id) {
        let k = choose|k: int|
            0 <= k < listeners(table, t).len() && (#[trigger] listeners(table, t)[k]).id == id;
        assert(listeners(after, t)[k].id == id);
    }
    let n = listeners(table, topic).len() as int;
    assert(listeners(after, topic)[n].id == sub.id);
}

/// A subscription takes effect at once.
pub proof fn subscribing_takes_effect(p: Policy, s: State, topic: Seq<u8>)
    requires
        s.authenticated,
    ensures
        listens(
            s.step(p, Message { op: Op::Subscribe, topic, payload: Seq::empty() }).table,
            topic,
            p.id,
        ),
{
    subscribing_loses_nobody(
        s.table,
        topic,
        Subscriber { id: p.id, sent: s.log.end as u64 },
        topic,
        p.id,
    );
}

/// A subscription lasts, whatever any connection sends, until its own
/// connection leaves.
pub proof fn subscriptions_last(p: Policy, s: State, ms: Seq<Message>, id: u64, t: Seq<u8>)
    requires
        listens(s.table, t, id),
    ensures
        listens(s.run(p, ms).table, t, id),
    decreases ms.len(),
{
    if ms.len() > 0 && s.close is None {
        let next = s.step(p, ms[0]);
        let end = s.log.with_watermark(model::watermark(s.table)).appended(
            log::record(ms[0].topic, ms[0].payload),
        ).end;
        marking_loses_nobody(s.table, ms[0].topic, end as u64, t, id);
        subscribing_loses_nobody(
            s.table,
            ms[0].topic,
            Subscriber { id: p.id, sent: s.log.end as u64 },
            t,
            id,
        );
        subscriptions_last(p, next, ms.skip(1), id, t);
    }
}

/// Whoever listens to a topic is sent every record that is accepted on it.
pub proof fn listeners_are_served(
    p: Policy,
    s: State,
    topic: Seq<u8>,
    payload: Seq<u8>,
    id: u64,
)
    requires
        accepts(s, topic, payload),
        listens(s.table, topic, id),
    ensures
        ({
            let after = s.step(p, Message { op: Op::Publish, topic, payload });
            after.out.last() matches Out::Fanout(frame, to) && frame == model::data(topic, payload)
                && to.contains(id)
        }),
{
    fanout_is_exact(p, s, topic, payload);
    let k = choose|k: int|
        0 <= k < listeners(s.table, topic).len() && (#[trigger] listeners(s.table, topic)[k]).id
            == id;
    assert(s.table.contains_key(topic));
    assert(model::ids(s.table[topic])[k] == id);
}

/// What one connection sends gives no other connection a subscription.
pub proof fn subscriptions_are_own(p: Policy, s: State, ms: Seq<Message>, id: u64, t: Seq<u8>)
    requires
        id != p.id,
        listens(s.run(p, ms).table, t, id),
    ensures
        listens(s.table, t, id),
    decreases ms.len(),
{
    if ms.len() > 0 && s.close is None {
        let next = s.step(p, ms[0]);
        subscriptions_are_own(p, next, ms.skip(1), id, t);
        let end = s.log.with_watermark(model::watermark(s.table)).appended(
            log::record(ms[0].topic, ms[0].payload),
        ).end;
        marking_keeps_listeners(s.table, ms[0].topic, end as u64, t, id);
        subscribing_adds_one(
            s.table,
            ms[0].topic,
            Subscriber { id: p.id, sent: s.log.end as u64 },
            t,
            id,
        );
    }
}

} // verus!
