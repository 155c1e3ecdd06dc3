use std::sync::Arc;

use zhensegg::broker::accept::Admission;
use zhensegg::broker::model::{CloseReason, Event};
use zhensegg::broker::session::{Effects, Output, ReadLimit, Session};
use zhensegg::broker::startup::{admin_addr, plan, StorePlan};
use zhensegg::broker::writer::{
    coalesce, keeps_buffer, new_buffer_size, pick_buffer, BufPool,
};
use zhensegg::config::Config;
use zhensegg::protocol::{
    encode_auth, encode_data, encode_fetch, encode_frame, encode_publish, encode_subscribe, Op,
    Parser,
};
use zhensegg::security::AccessControl;
use zhensegg::store::{decode_record, MemRing, Store};
use zhensegg::subscription::SubMap;

#[derive(Debug, PartialEq)]
struct OwnedFrame {
    op: Op,
    topic: Vec<u8>,
    payload: Vec<u8>,
    offset: Option<u64>,
    len: Option<u32>,
}

fn parse(bytes: &[u8]) -> Vec<OwnedFrame> {
    let mut p = Parser::new(1024);
    let mut out = Vec::new();
    p.feed(bytes);
    p.drain(|f| {
        out.push(OwnedFrame {
            op: f.op,
            topic: f.topic.to_vec(),
            payload: f.payload.to_vec(),
            offset: f.offset,
            len: f.len,
        })
    });
    assert_eq!(p.buffered(), 0);
    out
}

/// The frames that connection `id` gets of the effects of connection `from`.
fn frames_for(fx: &Effects, from: u64, id: u64) -> Vec<OwnedFrame> {
    let mut bytes = Vec::new();
    for o in &fx.outputs {
        match o {
            Output::Reply(f) => {
                if from == id {
                    bytes.extend_from_slice(f);
                }
            }
            Output::Fanout { frame, to } => {
                for t in to {
                    if *t == id {
                        bytes.extend_from_slice(frame);
                    }
                }
            }
        }
    }
    parse(&bytes)
}

struct Harness {
    store: MemRing,
    subs: SubMap,
}

impl Harness {
    fn new() -> Self {
        Harness { store: MemRing::new(1024 * 1024), subs: SubMap::new(64) }
    }

    fn read(&mut self, s: &mut Session, bytes: &[u8]) -> Effects {
        s.on_read(bytes, &mut self.store, &mut self.subs)
    }
}

fn open(id: u64) -> Session {
    Session::new(id, AccessControl::open(), false, false)
}

fn locked(id: u64) -> Session {
    Session::new(id, AccessControl::token("s3cret"), false, false)
}

#[test]
fn broker_rejects_publish_before_auth() {
    let mut h = Harness::new();
    let mut s = locked(1);
    let mut frame = Vec::new();
    encode_publish(&mut frame, b"orders", b"hack");
    let fx = h.read(&mut s, &frame);
    assert!(fx.outputs.is_empty());
    assert_eq!(fx.close, Some(CloseReason::AuthRequired));
    assert_eq!(fx.events, vec![Event::AuthFailed]);
    assert_eq!(h.store.write_pos(), 0, "nothing is stored");
    assert!(!s.authenticated());
}

#[test]
fn broker_rejects_bad_token() {
    let mut h = Harness::new();
    let mut s = locked(1);
    let mut auth = Vec::new();
    encode_auth(&mut auth, b"wrong-token");
    let fx = h.read(&mut s, &auth);
    assert!(fx.outputs.is_empty());
    assert_eq!(fx.close, Some(CloseReason::BadToken));
    assert_eq!(fx.events, vec![Event::AuthFailed]);
}

#[test]
fn broker_valid_token_then_publish_works() {
    let mut h = Harness::new();
    let mut s = locked(1);
    let mut auth = Vec::new();
    encode_auth(&mut auth, b"s3cret");
    let fx = h.read(&mut s, &auth);
    let got = frames_for(&fx, 1, 1);
    assert_eq!(got[0].op, Op::Ack);
    assert_eq!(got[0].topic.as_slice(), b"auth");
    assert_eq!(fx.events, vec![Event::Authenticated]);
    assert!(s.authenticated());

    let mut p = Vec::new();
    encode_publish(&mut p, b"orders", b"allowed");
    let fx = h.read(&mut s, &p);
    assert_eq!(frames_for(&fx, 1, 1)[0].op, Op::Ack);

    // The token again is acknowledged and changes nothing.
    let fx = h.read(&mut s, &auth);
    assert_eq!(frames_for(&fx, 1, 1)[0].topic.as_slice(), b"auth");
    assert!(fx.events.is_empty());
}

#[test]
fn broker_publish_acks_and_stores_record() {
    let mut h = Harness::new();
    let mut s = open(1);
    let mut frame = Vec::new();
    encode_publish(&mut frame, b"orders", b"hello world");
    let fx = h.read(&mut s, &frame);
    let ack = &frames_for(&fx, 1, 1)[0];
    assert_eq!(ack.op, Op::Ack);
    let off = ack.offset.expect("offset");
    let len = ack.len.expect("len");
    assert!(len > 0);

    // the record is readable from the shared store
    let mut raw = Vec::new();
    h.store.read(off, len, &mut raw).unwrap();
    let (topic, payload) = decode_record(&raw).unwrap();
    assert_eq!(topic, b"orders");
    assert_eq!(payload, b"hello world");
    assert_eq!(fx.events, vec![Event::Published { bytes: 11 }]);
}

#[test]
fn broker_subscribe_then_fetch_data() {
    let mut h = Harness::new();
    let mut s = open(1);
    let mut f = Vec::new();
    encode_subscribe(&mut f, b"news");
    let fx = h.read(&mut s, &f);
    assert_eq!(frames_for(&fx, 1, 1)[0].op, Op::Ack);
    assert_eq!(fx.events, vec![Event::Subscribed]);

    // publish on the same connection
    let mut p = Vec::new();
    encode_publish(&mut p, b"news", b"breaking");
    let fx = h.read(&mut s, &p);
    let got = frames_for(&fx, 1, 1);
    assert_eq!(got[0].op, Op::Ack);
    let off = got[0].offset.unwrap();
    let len = got[0].len.unwrap();
    assert_eq!(got[1].op, Op::Data);

    // fetch the published record back by offset
    let mut q = Vec::new();
    encode_fetch(&mut q, b"news", off, len);
    let fx = h.read(&mut s, &q);
    let data = &frames_for(&fx, 1, 1)[0];
    assert_eq!(data.op, Op::Data);
    assert_eq!(data.topic.as_slice(), b"news");
    assert_eq!(data.payload.as_slice(), b"breaking");
}

#[test]
fn broker_fanout_delivers_to_subscriber() {
    let mut h = Harness::new();
    let mut sub = open(1);
    let mut publisher = open(2);
    let mut other = open(3);
    let mut f = Vec::new();
    encode_subscribe(&mut f, b"news");
    assert_eq!(frames_for(&h.read(&mut sub, &f), 1, 1)[0].op, Op::Ack);
    let mut g = Vec::new();
    encode_subscribe(&mut g, b"weather");
    h.read(&mut other, &g);

    let mut p = Vec::new();
    encode_publish(&mut p, b"news", b"broadcast");
    let fx = h.read(&mut publisher, &p);
    let data = frames_for(&fx, 2, 1);
    assert_eq!(data.len(), 1);
    assert_eq!(data[0].op, Op::Data);
    assert_eq!(data[0].topic.as_slice(), b"news");
    assert_eq!(data[0].payload.as_slice(), b"broadcast");
    assert_eq!(frames_for(&fx, 2, 2).len(), 1, "the publisher gets its ack only");
    assert!(frames_for(&fx, 2, 3).is_empty());
    assert_eq!(
        fx.events,
        vec![Event::Published { bytes: 9 }, Event::Delivered { copies: 1, bytes: 9 }]
    );
}

#[test]
fn broker_ping_returns_pong() {
    let mut h = Harness::new();
    let mut s = open(1);
    let ping = [0, 0, 0, 9, 4, 0, 0, 0, 0, 0, 0, 0, 0];
    let fx = h.read(&mut s, &ping);
    let pong = &frames_for(&fx, 1, 1)[0];
    assert_eq!(pong.op, Op::Ack);
    assert_eq!(pong.topic.as_slice(), b"pong");
    assert_eq!((pong.offset, pong.len), (Some(0), Some(0)));
}

#[test]
fn broker_cleans_up_subscription_on_disconnect() {
    let mut h = Harness::new();
    let mut s = open(1);
    let mut t = open(2);
    let mut f = Vec::new();
    encode_subscribe(&mut f, b"topic-x");
    encode_subscribe(&mut f, b"topic-x");
    encode_subscribe(&mut f, b"topic-y");
    h.read(&mut s, &f);
    let mut g = Vec::new();
    encode_subscribe(&mut g, b"topic-y");
    h.read(&mut t, &g);
    assert_eq!(h.subs.read(b"topic-x").get(b"topic-x").unwrap().len(), 2);

    assert_eq!(s.on_close(&mut h.subs), 3);
    assert!(h.subs.read(b"topic-x").get(b"topic-x").is_none());
    let left = h.subs.read(b"topic-y").get(b"topic-y").unwrap();
    assert_eq!(left.iter().map(|s| s.id).collect::<Vec<_>>(), vec![2]);
    assert_eq!(s.on_close(&mut h.subs), 0);
}

#[test]
fn auth_timeout_drops_unauthenticated_connection() {
    let s = locked(1);
    assert_eq!(s.read_limit(1000, Some(1200)), ReadLimit::Within(200));
    assert_eq!(s.read_limit(1200, Some(1200)), ReadLimit::Expired);
    assert_eq!(s.read_limit(1200, None), ReadLimit::Unlimited);
    let fx = s.on_auth_timeout();
    assert_eq!(fx.close, Some(CloseReason::AuthTimeout));
    assert_eq!(fx.events, vec![Event::AuthFailed]);
}

#[test]
fn auth_timeout_does_not_kill_authenticated_connection() {
    let mut h = Harness::new();
    let mut s = locked(1);
    let mut auth = Vec::new();
    encode_auth(&mut auth, b"s3cret");
    h.read(&mut s, &auth);
    assert_eq!(s.read_limit(5000, Some(1200)), ReadLimit::Unlimited);
    let mut p = Vec::new();
    encode_publish(&mut p, b"t", b"ping");
    assert_eq!(frames_for(&h.read(&mut s, &p), 1, 1).len(), 1);
}

#[test]
fn frames_cut_between_reads_are_handled_once() {
    let mut h = Harness::new();
    let mut s = open(1);
    let mut bytes = Vec::new();
    encode_publish(&mut bytes, b"a", b"one");
    encode_publish(&mut bytes, b"a", b"two");
    let mut events = Vec::new();
    for b in &bytes {
        let fx = h.read(&mut s, &[*b]);
        events.extend(fx.events);
        assert_eq!(fx.close, None);
    }
    assert_eq!(events, vec![Event::Published { bytes: 3 }; 2]);
    assert_eq!(h.store.write_pos(), 24);
}

#[test]
fn acknowledgements_wait_for_the_whole_batch() {
    let mut h = Harness::new();
    let mut s = Session::new(1, AccessControl::open(), true, false);
    let mut bytes = Vec::new();
    encode_publish(&mut bytes, b"a", b"one");
    encode_publish(&mut bytes, b"a", b"two");
    let fx = h.read(&mut s, &bytes);
    assert_eq!(fx.outputs.len(), 2);
    assert_eq!(fx.wait_for, Some(24));
    assert_eq!(fx.wait_for, Some(h.store.write_pos()));
    let mut ping = Vec::new();
    encode_frame(&mut ping, Op::Ping, &[], &[]);
    assert_eq!(h.read(&mut s, &ping).wait_for, None);
}

#[test]
fn overflow_is_answered_with_a_refusal() {
    let mut h = Harness { store: MemRing::new(65536), subs: SubMap::new(4) };
    h.store.set_reject_overflow(true);
    let mut idle = open(1);
    let mut s = open(2);
    let mut f = Vec::new();
    encode_subscribe(&mut f, b"quiet");
    h.read(&mut idle, &f);
    let mut p = Vec::new();
    encode_publish(&mut p, b"loud", &vec![1u8; 20000]);
    let mut refused = None;
    for _ in 0..5 {
        let fx = h.read(&mut s, &p);
        assert_eq!(fx.close, None);
        if fx.events == vec![Event::Rejected] {
            refused = Some(frames_for(&fx, 2, 2));
            break;
        }
    }
    let frames = refused.expect("a refusal");
    assert_eq!(frames[0].op, Op::Error);
    assert_eq!(frames[0].topic.as_slice(), b"loud");
    assert_eq!(frames[0].payload.as_slice(), b"overflow");
    // Without subscribers nothing is refused.
    idle.on_close(&mut h.subs);
    for _ in 0..10 {
        assert_eq!(h.read(&mut s, &p).events, vec![Event::Published { bytes: 20000 }]);
    }
}

#[test]
fn a_record_too_large_closes_the_connection() {
    let mut h = Harness { store: MemRing::new(65536), subs: SubMap::new(4) };
    let mut s = open(1);
    let mut p = Vec::new();
    encode_publish(&mut p, b"t", &vec![1u8; 40000]);
    encode_publish(&mut p, b"t", b"later");
    let fx = h.read(&mut s, &p);
    assert_eq!(fx.close, Some(CloseReason::RecordTooLarge));
    assert!(fx.outputs.is_empty());
    assert_eq!(h.store.write_pos(), 0);
}

#[test]
fn a_failed_fetch_is_silent_or_acknowledged() {
    let mut h = Harness::new();
    let mut q = Vec::new();
    encode_fetch(&mut q, b"t", 99, 5);
    assert!(h.read(&mut open(1), &q).outputs.is_empty());
    let mut s = Session::new(2, AccessControl::open(), false, true);
    let fx = h.read(&mut s, &q);
    let got = frames_for(&fx, 2, 2);
    assert_eq!(got[0].op, Op::Ack);
    assert_eq!((got[0].offset, got[0].len), (Some(0), Some(0)));
    // A request without position, or for part of a record, has no effect.
    let mut short = Vec::new();
    encode_frame(&mut short, Op::Fetch, b"t", b"short");
    encode_publish(&mut short, b"t", b"x");
    encode_fetch(&mut short, b"t", 0, 9);
    assert_eq!(h.read(&mut s, &short).outputs.len(), 1);
}

#[test]
fn frames_for_clients_are_ignored() {
    let mut h = Harness::new();
    let mut s = open(1);
    let mut f = Vec::new();
    encode_data(&mut f, b"t", b"x");
    encode_frame(&mut f, Op::Notify, b"t", b"x");
    encode_frame(&mut f, Op::Error, b"t", b"x");
    let fx = h.read(&mut s, &f);
    assert!(fx.outputs.is_empty());
    assert_eq!(fx.close, None);
}

#[test]
fn connections_are_numbered_and_limited() {
    let mut a = Admission::new(Some(2));
    assert_eq!(a.accept(), Some(1));
    assert_eq!(a.accept(), Some(2));
    assert_eq!(a.accept(), None);
    a.release();
    assert_eq!(a.accept(), Some(3));
    let mut none = Admission::new(Some(0));
    assert_eq!(none.accept(), None);
    let mut free = Admission::new(None);
    for i in 1..100 {
        assert_eq!(free.accept(), Some(i));
    }
}

#[test]
fn batches_are_written_in_order() {
    let frames = vec![Arc::new(vec![1, 2]), Arc::new(vec![]), Arc::new(vec![3])];
    let mut out = vec![0];
    coalesce(&mut out, &frames);
    assert_eq!(out, vec![0, 1, 2, 3]);
}

#[test]
fn buffers_are_used_again() {
    let mut pool = BufPool::new();
    let mut big = Vec::with_capacity(5000);
    big.extend_from_slice(b"old");
    pool.give_buf(big);
    pool.give_buf(Vec::with_capacity(100));
    let b = pool.take_buf(1000);
    assert!(b.is_empty());
    assert!(b.capacity() >= 5000);
    let c = pool.take_buf(200);
    assert!(c.capacity() >= 200 && c.capacity() < 5000);
    pool.give_sized(vec![1, 2], 300);
    assert!(pool.take_buf(300).is_empty());
    assert_eq!(pick_buffer(&vec![10, 50, 40, 5], 30), Some(2));
    assert_eq!(pick_buffer(&vec![10, 50], 60), None);
    assert!(keeps_buffer(256 * 1024, 511));
    assert!(!keeps_buffer(256 * 1024 + 1, 0));
    assert!(!keeps_buffer(1, 512));
    assert_eq!(new_buffer_size(3), 64);
    assert_eq!(new_buffer_size(65), 65);
}

#[test]
fn plans_follow_the_settings() {
    let mut c = Config::default();
    let p = plan(&c).unwrap();
    assert_eq!(p.store, StorePlan::Memory(256 << 20));
    assert_eq!(p.threads, 1);
    assert_eq!(p.http_addr, b"0.0.0.0:9091".to_vec());
    assert_eq!(p.auth_timeout_ms, 10_000);
    assert!(!p.reject_overflow);
    c.mode = "file".to_string();
    c.ring_capacity_mb = 64;
    c.cores = 4;
    c.on_overflow = "reject".to_string();
    c.http_loopback_only = true;
    let p = plan(&c).unwrap();
    assert_eq!(p.store, StorePlan::File(64 << 20));
    assert_eq!(p.threads, 4);
    assert!(p.reject_overflow);
    assert_eq!(p.http_addr, b"127.0.0.1:9091".to_vec());
    c.ring_capacity_mb = usize::MAX;
    assert!(plan(&c).is_none());
    assert_eq!(admin_addr(b"[::1]:80", true), b"127.0.0.1:80".to_vec());
}

#[test]
fn acknowledgements_wait_for_the_disk() {
    let mut fx = Effects::none();
    assert!(fx.may_leave(0));
    fx.wait_for = Some(10);
    assert!(!fx.may_leave(9));
    assert!(fx.may_leave(10));
}

#[test]
fn nobody_listens_so_nothing_is_refused() {
    let mut ring = MemRing::new(65536);
    ring.set_reject_overflow(true);
    for _ in 0..50 {
        ring.append(b"t", &vec![0; 10000]).unwrap();
    }
}
