//! One connection: its parser, its authentication and its subscriptions.

use super::model;
use super::model::{CloseReason, Event, Out, Policy, State};
use crate::bytes::copy_bytes;
use crate::protocol::codec;
use crate::protocol::codec::{encode_ack, encode_data, encode_error};
use crate::protocol::frame::{read_locator, FrameRef, Op};
use crate::protocol::parser::Parser;
use crate::protocol::stream;
use crate::security::auth::AccessControl;
use crate::store::log::{Log, Store, StoreError};
use crate::store::record::decode_record;
use crate::subscription::map::SubMap;
use crate::subscription::shard::Subscriber;
use vstd::prelude::*;

verus! {

broadcast use crate::protocol::wire::be32_len;

/// A frame to be sent.
pub enum Output {
    /// To the connection itself.
    Reply(Vec<u8>),
    /// To each of the named connections.
    Fanout { frame: Vec<u8>, to: Vec<u64> },
}

impl View for Output {
    type V = Out;

    open spec fn view(&self) -> Out {
        match self {
            Output::Reply(frame) => Out::Reply(frame@),
            Output::Fanout { frame, to } => Out::Fanout(frame@, to@),
        }
    }
}

/// What the frames of one read ask for. The frames in `outputs` are sent in
/// order, after the log is safe up to `wait_for`; then the connection is
/// closed where `close` says so.
pub struct Effects {
    pub outputs: Vec<Output>,
    pub events: Vec<Event>,
    pub wait_for: Option<u64>,
    pub close: Option<CloseReason>,
}

/// The frames of a list of outputs.
pub open spec fn outs(outputs: Seq<Output>) -> Seq<Out> {
    outputs.map_values(|o: Output| o@)
}

impl Effects {
    /// No effect.
    pub fn none() -> (fx: Effects)
        ensures
            outs(fx.outputs@) == Seq::<Out>::empty(),
            fx.events@ == Seq::<Event>::empty(),
            fx.wait_for is None,
            fx.close is None,
    {
        let fx = Effects {
            outputs: Vec::new(),
            events: Vec::new(),
            wait_for: None,
            close: None,
        };
        assert(outs(fx.outputs@) =~= Seq::<Out>::empty());
        fx
    }

    /// Whether the frames may leave where the log is safe up to `durable`.
    pub fn may_leave(&self, durable: u64) -> (yes: bool)
        ensures
            yes == (self.wait_for matches Some(w) ==> w <= durable),
    {
        match self.wait_for {
            Some(w) => w <= durable,
            None => true,
        }
    }

    fn send(&mut self, o: Output)
        ensures
            outs(final(self).outputs@) == outs(old(self).outputs@).push(o@),
            final(self).events@ == old(self).events@,
            final(self).wait_for == old(self).wait_for,
            final(self).close == old(self).close,
    {
        self.outputs.push(o);
        assert(outs(self.outputs@) =~= outs(old(self).outputs@).push(o@));
    }

    /// Sends an acknowledgement to the connection.
    fn send_ack(&mut self, topic: &[u8], offset: u64, len: u32)
        requires
            25 + topic@.len() <= usize::MAX,
        ensures
            outs(final(self).outputs@) == outs(old(self).outputs@).push(
                Out::Reply(model::ack(topic@, offset, len)),
            ),
            final(self).events@ == old(self).events@,
            final(self).wait_for == old(self).wait_for,
            final(self).close == old(self).close,
    {
        let mut frame: Vec<u8> = Vec::with_capacity(32);
        encode_ack(&mut frame, topic, offset, len);
        assert(frame@ =~= model::ack(topic@, offset, len));
        self.send(Output::Reply(frame));
    }
}

/// What a connection remembers besides its parser.
struct Peer {
    id: u64,
    auth: AccessControl,
    durable_acks: bool,
    ack_failed_fetch: bool,
    authenticated: bool,
    topics: Vec<Vec<u8>>,
}

/// A position, as a number.
pub open spec fn position(p: Option<u64>) -> Option<nat> {
    match p {
        Some(pos) => Some(pos as nat),
        None => None,
    }
}

/// The topics of a list.
spec fn names(topics: Seq<Vec<u8>>) -> Seq<Seq<u8>> {
    topics.map_values(|t: Vec<u8>| t@)
}

/// The frame of a record on its way to a subscriber.
fn data_frame(topic: &[u8], payload: &[u8]) -> (frame: Vec<u8>)
    requires
        13 + topic@.len() + payload@.len() <= usize::MAX,
    ensures
        frame@ == model::data(topic@, payload@),
{
    let mut frame: Vec<u8> = Vec::with_capacity(13 + topic.len() + payload.len());
    encode_data(&mut frame, topic, payload);
    assert(frame@ =~= model::data(topic@, payload@));
    frame
}

/// The connections behind subscriptions.
fn ids_of(list: &Vec<Subscriber>) -> (to: Vec<u64>)
    ensures
        to@ == model::ids(list@),
{
    let mut to: Vec<u64> = Vec::with_capacity(list.len());
    let mut i: usize = 0;
    while i < list.len()
        invariant
            i <= list@.len(),
            to@ == model::ids(list@).take(i as int),
        decreases list@.len() - i,
    {
        to.push(list[i].id);
        assert(to@ =~= model::ids(list@).take(i + 1));
        i = i + 1;
    }
    assert(to@ =~= model::ids(list@));
    to
}

impl Peer {
    spec fn policy(self) -> Policy {
        Policy {
            id: self.id,
            secret: self.auth@,
            durable_acks: self.durable_acks,
            ack_failed_fetch: self.ack_failed_fetch,
        }
    }

    spec fn state(self, log: Log, table: Map<Seq<u8>, Seq<Subscriber>>, fx: Effects) -> State {
        State {
            authenticated: self.authenticated,
            topics: names(self.topics@),
            log,
            table,
            out: outs(fx.outputs@),
            events: fx.events@,
            wait_for: position(fx.wait_for),
            close: fx.close,
        }
    }

    fn present(&mut self, op: Op, payload: &[u8], topic: Ghost<Seq<u8>>, fx: &mut Effects)
        requires
            !old(self).authenticated,
        ensures
            final(self).policy() == old(self).policy(),
            forall|log: Log, table: Map<Seq<u8>, Seq<Subscriber>>|
                (#[trigger] final(self).state(log, table, *final(fx))) == old(self).state(
                    log,
                    table,
                    *old(fx),
                ).presented(
                    old(self).policy(),
                    (crate::protocol::frame::Message { op, topic: topic@, payload: payload@ }),
                ),
    {
        if op != Op::Auth {
            fx.events.push(Event::AuthFailed);
            fx.close = Some(CloseReason::AuthRequired);
        } else if self.auth.verify(payload) {
            self.authenticated = true;
            fx.send_ack(codec::auth_topic_bytes().as_slice(), 0, 0);
            fx.events.push(Event::Authenticated);
        } else {
            fx.events.push(Event::AuthFailed);
            fx.close = Some(CloseReason::BadToken);
        }
    }

    fn publish<S: Store>(
        &self,
        topic: &[u8],
        payload: &[u8],
        store: &mut S,
        subs: &mut SubMap,
        fx: &mut Effects,
    )
        requires
            old(store).wf(),
            old(subs).wf(),
            25 + topic@.len() + payload@.len() <= usize::MAX,
            old(store).log().end + 8 + topic@.len() + payload@.len() <= u64::MAX,
        ensures
            final(store).wf(),
            final(subs).wf(),
            self.state(final(store).log(), final(subs)@, *final(fx)) == self.state(
                old(store).log(),
                old(subs)@,
                *old(fx),
            ).published(self.policy(), topic@, payload@),
    {
        let ghost before = self.state(store.log(), subs@, *fx);
        if store.rejects_overflow() {
            let w: u64 = subs.watermark();
            proof {
                model::watermark_is_unique(subs@, w);
            }
            store.attach_watermark(w);
        }
        assert(store.log() == before.log.with_watermark(model::watermark(before.table)));
        match store.append(topic, payload) {
            Ok((offset, len)) => {
                let end: u64 = store.write_pos();
                if self.durable_acks {
                    fx.wait_for = Some(end);
                }
                fx.send_ack(topic, offset, len);
                fx.events.push(Event::Published { bytes: payload.len() });
                let to: Option<Vec<u64>> = match subs.read(topic).get(topic) {
                    Some(list) => Some(ids_of(list)),
                    None => None,
                };
                if let Some(to) = to {
                    let copies: usize = to.len();
                    fx.send(Output::Fanout { frame: data_frame(topic, payload), to });
                    subs.mark_sent(topic, end);
                    fx.events.push(Event::Delivered { copies, bytes: payload.len() });
                }
            },
            Err(StoreError::Overflow) => {
                let mut frame: Vec<u8> = Vec::with_capacity(32);
                proof {
                    model::overflow_text_len();
                }
                encode_error(&mut frame, topic, "overflow");
                assert(frame@ =~= model::refusal(topic@));
                fx.send(Output::Reply(frame));
                fx.events.push(Event::Rejected);
            },
            Err(_) => {
                fx.close = Some(CloseReason::RecordTooLarge);
            },
        }
        assert(self.state(store.log(), subs@, *fx) =~= before.published(
            self.policy(),
            topic@,
            payload@,
        ));
    }

    fn subscribe<S: Store>(
        &mut self,
        topic: &[u8],
        store: &S,
        subs: &mut SubMap,
        fx: &mut Effects,
    )
        requires
            store.wf(),
            old(subs).wf(),
            25 + topic@.len() <= usize::MAX,
        ensures
            final(subs).wf(),
            final(self).policy() == old(self).policy(),
            final(self).state(store.log(), final(subs)@, *final(fx)) == old(self).state(
                store.log(),
                old(subs)@,
                *old(fx),
            ).subscribed(old(self).policy(), topic@),
    {
        let ghost before = self.state(store.log(), subs@, *fx);
        let sent: u64 = store.write_pos();
        subs.subscribe(topic, Subscriber { id: self.id, sent });
        self.topics.push(copy_bytes(topic));
        fx.send_ack(topic, 0, 0);
        fx.events.push(Event::Subscribed);
        assert(names(self.topics@) =~= names(old(self).topics@).push(topic@));
        assert(self.state(store.log(), subs@, *fx) =~= before.subscribed(
            old(self).policy(),
            topic@,
        ));
    }

    fn fetch<S: Store>(&self, topic: &[u8], request: &[u8], store: &S, fx: &mut Effects)
        requires
            store.wf(),
            25 + topic@.len() <= usize::MAX,
        ensures
            forall|table: Map<Seq<u8>, Seq<Subscriber>>|
                (#[trigger] self.state(store.log(), table, *final(fx))) == self.state(
                    store.log(),
                    table,
                    *old(fx),
                ).fetched(self.policy(), topic@, request@),
    {
        if let Some((offset, len)) = read_locator(request) {
            let mut raw: Vec<u8> = Vec::new();
            match store.read(offset, len, &mut raw) {
                Ok(()) => {
                    proof {
                        store.log_is_wf();
                    }
                    if let Some((t, content)) = decode_record(raw.as_slice()) {
                        fx.send(Output::Reply(data_frame(t, content)));
                    }
                },
                Err(_) => {
                    if self.ack_failed_fetch {
                        fx.send_ack(topic, 0, 0);
                    }
                },
            }
        }
    }

    /// Does what a frame asks for.
    fn handle<S: Store>(
        &mut self,
        frame: &FrameRef<'_>,
        store: &mut S,
        subs: &mut SubMap,
        fx: &mut Effects,
    )
        requires
            old(store).wf(),
            old(subs).wf(),
            frame@.fits(),
            old(store).log().end + frame@.body_len() <= u64::MAX,
        ensures
            final(store).wf(),
            final(subs).wf(),
            final(self).policy() == old(self).policy(),
            final(self).state(final(store).log(), final(subs)@, *final(fx)) == old(self).state(
                old(store).log(),
                old(subs)@,
                *old(fx),
            ).step(old(self).policy(), frame@),
    {
        if !self.authenticated {
            self.present(frame.op, frame.payload, Ghost(frame.topic@), fx);
            return;
        }
        match frame.op {
            Op::Publish => {
                self.publish(frame.topic, frame.payload, store, subs, fx);
            },
            Op::Subscribe => {
                self.subscribe(frame.topic, store, subs, fx);
            },
            Op::Fetch => {
                self.fetch(frame.topic, frame.payload, store, fx);
            },
            Op::Ping => {
                let topic: Vec<u8> = vec![112u8, 111u8, 110u8, 103u8];
                assert(topic@ =~= model::pong_topic());
                fx.send_ack(topic.as_slice(), 0, 0);
            },
            Op::Auth => {
                fx.send_ack(codec::auth_topic_bytes().as_slice(), 0, 0);
            },
            _ => {},
        }
    }
}

/// How long a read may take.
#[derive(Debug, Clone, Copy, PartialEq, Eq, Structural)]
pub enum ReadLimit {
    Unlimited,
    /// So many milliseconds.
    Within(u64),
    /// The time is over.
    Expired,
}

/// One connection.
pub struct Session {
    parser: Parser,
    peer: Peer,
}

impl Session {
    pub closed spec fn wf(&self) -> bool {
        self.parser.wf()
    }

    /// What is fixed for the connection.
    pub closed spec fn policy(&self) -> Policy {
        self.peer.policy()
    }

    /// The bytes received and not yet understood.
    pub closed spec fn pending(&self) -> Seq<u8> {
        self.parser@
    }

    /// The connection with a log and a table, before a read: nothing is sent
    /// yet.
    pub open spec fn state(
        &self,
        log: Log,
        table: Map<Seq<u8>, Seq<Subscriber>>,
    ) -> State {
        State {
            authenticated: self.is_authenticated(),
            topics: self.topics(),
            log,
            table,
            out: Seq::empty(),
            events: Seq::empty(),
            wait_for: None,
            close: None,
        }
    }

    pub closed spec fn is_authenticated(&self) -> bool {
        self.peer.authenticated
    }

    /// The topics that the connection subscribed to, in order.
    pub closed spec fn topics(&self) -> Seq<Seq<u8>> {
        names(self.peer.topics@)
    }

    /// A new connection. It counts as authenticated only where access is
    /// open.
    pub fn new(id: u64, auth: AccessControl, durable_acks: bool, ack_failed_fetch: bool) -> (s:
        Session)
        ensures
            s.wf(),
            s.policy() == (Policy { id, secret: auth@, durable_acks, ack_failed_fetch }),
            s.is_authenticated() == (auth@ is None),
            s.pending() == Seq::<u8>::empty(),
            s.topics() == Seq::<Seq<u8>>::empty(),
    {
        let authenticated = auth.initially_authenticated();
        let s = Session {
            parser: Parser::new(65536),
            peer: Peer {
                id,
                auth,
                durable_acks,
                ack_failed_fetch,
                authenticated,
                topics: Vec::new(),
            },
        };
        assert(s.topics() =~= Seq::<Seq<u8>>::empty());
        s
    }

    /// Whether the token has been presented, or none is asked for.
    pub fn authenticated(&self) -> (yes: bool)
        ensures
            yes == self.is_authenticated(),
    {
        self.peer.authenticated
    }

    /// Takes in received bytes and does what their complete frames ask for.
    pub fn on_read<S: Store>(&mut self, bytes: &[u8], store: &mut S, subs: &mut SubMap) -> (fx:
        Effects)
        requires
            old(self).wf(),
            old(store).wf(),
            old(subs).wf(),
            old(store).log().end + old(self).pending().len() + bytes@.len() <= u64::MAX,
        ensures
            final(self).wf(),
            final(store).wf(),
            final(subs).wf(),
            final(self).policy() == old(self).policy(),
            ({
                let received = old(self).pending() + bytes@;
                let after = old(self).state(old(store).log(), old(subs)@).run(
                    old(self).policy(),
                    stream::frames(received),
                );
                &&& final(self).is_authenticated() == after.authenticated
                &&& final(self).topics() == after.topics
                &&& final(store).log() == after.log
                &&& final(subs)@ == after.table
                &&& outs(fx.outputs@) == after.out
                &&& fx.events@ == after.events
                &&& position(fx.wait_for) == after.wait_for
                &&& fx.close == after.close
                &&& after.close is None ==> final(self).pending() == stream::rest(received)
            }),
    {
        let ghost policy = self.policy();
        let ghost received = self.pending() + bytes@;
        let ghost first = self.state(store.log(), subs@);
        let ghost last = first.run(policy, stream::frames(received));
        self.parser.feed(bytes);
        let mut fx = Effects::none();
        let ghost mut todo = stream::frames(received);
        loop
            invariant_except_break
                fx.close is None,
                todo == stream::frames(self.parser@),
                stream::rest(self.parser@) == stream::rest(received),
                store.log().end + self.parser@.len() <= u64::MAX,
            invariant
                self.parser.wf(),
                self.policy() == policy,
                policy == old(self).policy(),
                store.wf(),
                subs.wf(),
                last == self.peer.state(store.log(), subs@, fx).run(policy, todo),
            ensures
                last == self.peer.state(store.log(), subs@, fx),
                fx.close is None ==> self.parser@ == stream::rest(received),
            decreases self.parser@.len(),
        {
            let ghost s = self.parser@;
            proof {
                stream::front_bounds(s);
            }
            let ghost before = self.peer.state(store.log(), subs@, fx);
            match self.parser.try_parse() {
                None => {
                    assert(todo.len() == 0);
                    break;
                },
                Some(frame) => {
                    assert(todo[0] == frame@);
                    self.peer.handle(&frame, store, subs, &mut fx);
                    proof {
                        todo = todo.skip(1);
                        assert(todo =~= stream::frames(s.skip(4 + stream::announced(s))));
                    }
                },
            }
            if fx.close.is_some() {
                break;
            }
            self.parser.consume();
        }
        fx
    }

    /// How long the next read may take, at time `now`, where the token must
    /// come before `deadline`.
    pub fn read_limit(&self, now: u64, deadline: Option<u64>) -> (limit: ReadLimit)
        ensures
            limit == match deadline {
                Some(d) if !self.is_authenticated() => if now >= d {
                    ReadLimit::Expired
                } else {
                    ReadLimit::Within((d - now) as u64)
                },
                _ => ReadLimit::Unlimited,
            },
    {
        if self.peer.authenticated {
            return ReadLimit::Unlimited;
        }
        match deadline {
            None => ReadLimit::Unlimited,
            Some(d) => if now >= d {
                ReadLimit::Expired
            } else {
                ReadLimit::Within(d - now)
            },
        }
    }

    /// Ends a connection whose token did not come in time.
    pub fn on_auth_timeout(&self) -> (fx: Effects)
        ensures
            outs(fx.outputs@) == Seq::<Out>::empty(),
            fx.events@ == seq![Event::AuthFailed],
            fx.wait_for is None,
            fx.close == Some(CloseReason::AuthTimeout),
    {
        let mut fx = Effects::none();
        fx.events.push(Event::AuthFailed);
        fx.close = Some(CloseReason::AuthTimeout);
        assert(fx.events@ =~= seq![Event::AuthFailed]);
        fx
    }

    /// Ends the subscriptions of a connection that is gone, and says how many
    /// there were.
    pub fn on_close(&mut self, subs: &mut SubMap) -> (ended: usize)
        requires
            old(self).wf(),
            old(subs).wf(),
        ensures
            final(self).wf(),
            final(self).policy() == old(self).policy(),
            final(self).topics() == Seq::<Seq<u8>>::empty(),
            final(subs).wf(),
            final(subs)@ == model::left(old(subs)@, old(self).topics(), old(self).policy().id),
            ended == old(self).topics().len(),
    {
        let ended: usize = self.peer.topics.len();
        let ghost topics = self.topics();
        let ghost id = self.policy().id;
        let mut i: usize = 0;
        assert(topics.take(0) =~= Seq::<Seq<u8>>::empty());
        while i < ended
            invariant
                i <= ended,
                ended == self.peer.topics@.len(),
                *self == *old(self),
                topics == self.topics(),
                id == self.peer.id,
                subs.wf(),
                subs@ == model::left(old(subs)@, topics.take(i as int), id),
            decreases ended - i,
        {
            assert(topics.take(i + 1).drop_last() =~= topics.take(i as int));
            assert(topics[i as int] == self.peer.topics@[i as int]@);
            subs.unsubscribe(self.peer.topics[i].as_slice(), self.peer.id);
            i = i + 1;
        }
        assert(topics.take(i as int) =~= topics);
        self.peer.topics = Vec::new();
        assert(self.topics() =~= Seq::<Seq<u8>>::empty());
        ended
    }
}

/// What is listed to be sent is what is sent: as many frames, in the same
/// order, each to whom it is addressed; and a position stays what it is.
pub proof fn outputs_are_as_listed(outputs: Seq<Output>, i: int, pos: u64)
    requires
        0 <= i < outputs.len(),
    ensures
        outs(outputs).len() == outputs.len(),
        outputs[i] matches Output::Reply(frame) ==> outs(outputs)[i] == Out::Reply(frame@),
        outputs[i] matches Output::Fanout { frame, to } ==> outs(outputs)[i] == Out::Fanout(
            frame@,
            to@,
        ),
        position(Some(pos)) == Some(pos as nat),
        position(None) is None,
{
}

} // verus!
