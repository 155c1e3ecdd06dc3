use std::collections::HashMap;
use std::sync::Arc;

use zhensegg::subscription::map::fnv1a_hash;
use zhensegg::subscription::{SubMap, Subscriber};

fn make_sub(id: u64) -> Subscriber {
    Subscriber { id, sent: 0 }
}

#[test]
fn submap_new_normalizes_shard_count() {
    // n rounds up to next power of two; even a small n must produce a valid map
    let map = SubMap::new(3);
    assert!(map.read(b"topic").get(b"topic").is_none());
    let map2 = SubMap::new(0);
    assert!(map2.read(b"t").get(b"t").is_none());
    assert_eq!(map2.idx(b"t"), 0);
}

#[test]
fn test_shard_hash_is_deterministic() {
    let m1 = SubMap::new(64);
    let m2 = SubMap::new(64);
    assert_eq!(m1.idx(b"orders"), m2.idx(b"orders"));
    assert_eq!(m1.idx(b""), m2.idx(b""));
    // equal topics must map to the same shard index
    assert_eq!(m1.idx(b"abc"), m1.idx(b"abc"));
}

#[test]
fn test_subscribe_adds_and_reads_subscribers() {
    let mut subs = SubMap::new(64);

    // subscribe one connection to two topics
    subs.write(b"orders").subscribe(b"orders", make_sub(1));
    subs.write(b"shipments").subscribe(b"shipments", make_sub(1));

    // reading back returns the subscriber
    let list = subs.read(b"orders").get(b"orders").expect("topic present");
    assert_eq!(list.len(), 1);
    assert_eq!(list[0].id, 1);

    // unrelated topic has no subscribers
    assert!(subs.read(b"none").get(b"none").is_none());
}

#[test]
fn test_multiple_subscribers_on_same_topic() {
    let mut subs = SubMap::new(64);
    {
        let shard = subs.write(b"topic");
        shard.subscribe(b"topic", make_sub(1));
        shard.subscribe(b"topic", make_sub(2));
        shard.subscribe(b"topic", make_sub(3));
    }
    let list = subs.read(b"topic").get(b"topic").expect("present");
    assert_eq!(list.len(), 3);
    let ids: Vec<u64> = list.iter().map(|s| s.id).collect();
    assert_eq!(ids, vec![1, 2, 3]);
}

#[test]
fn test_fanout_delivers_to_all_subscribers() {
    let mut subs = SubMap::new(64);
    let (tx1, mut rx1) = tokio::sync::mpsc::unbounded_channel::<Arc<Vec<u8>>>();
    let (tx2, mut rx2) = tokio::sync::mpsc::unbounded_channel::<Arc<Vec<u8>>>();
    let senders = HashMap::from([(1u64, tx1), (2u64, tx2)]);
    subs.subscribe(b"notifications", make_sub(1));
    subs.subscribe(b"notifications", make_sub(2));

    // emulate a published frame forwarded to every subscriber
    let frame = Arc::new(b"data".to_vec());
    if let Some(list) = subs.read(b"notifications").get(b"notifications") {
        for sub in list.iter() {
            let _ = senders[&sub.id].send(frame.clone());
        }
    }

    assert_eq!(rx1.try_recv().unwrap().as_slice(), b"data");
    assert_eq!(rx2.try_recv().unwrap().as_slice(), b"data");
    assert!(rx1.try_recv().is_err()); // exactly one message each
    assert!(rx2.try_recv().is_err());
}

#[test]
fn test_unsubscribe_removes_by_id() {
    let mut subs = SubMap::new(64);
    subs.subscribe(b"t", make_sub(1));
    subs.subscribe(b"t", make_sub(2));

    // connection 1 disconnects
    subs.unsubscribe(b"t", 1);

    let list = subs.read(b"t").get(b"t").expect("still present, one left");
    assert_eq!(list.len(), 1);
    assert_eq!(list[0].id, 2);
}

#[test]
fn test_empty_topic_removed_entirely() {
    let mut subs = SubMap::new(64);
    subs.subscribe(b"t", make_sub(7));
    subs.unsubscribe(b"t", 7);
    assert!(subs.read(b"t").get(b"t").is_none(), "topic entry removed when empty");
}

#[test]
fn the_hash_is_fnv1a() {
    assert_eq!(fnv1a_hash(b""), 0xcbf2_9ce4_8422_2325);
    assert_eq!(fnv1a_hash(b"a"), 0xaf63_dc4c_8601_ec8c);
    assert_eq!(fnv1a_hash(b"foobar"), 0x8594_4171_f739_67e8);
    assert_eq!(SubMap::new(64).idx(b"foobar"), (0x8594_4171_f739_67e8u64 % 64) as usize);
}

#[test]
fn watermark_is_the_least_position() {
    let mut subs = SubMap::new(8);
    assert_eq!(subs.watermark(), u64::MAX);
    subs.subscribe(b"a", Subscriber { id: 1, sent: 50 });
    subs.subscribe(b"b", Subscriber { id: 2, sent: 30 });
    subs.subscribe(b"b", Subscriber { id: 3, sent: 40 });
    assert_eq!(subs.watermark(), 30);
    subs.mark_sent(b"b", 35);
    assert_eq!(subs.watermark(), 35);
    let list = subs.read(b"b").get(b"b").unwrap();
    assert_eq!(list[1], Subscriber { id: 3, sent: 40 }, "positions do not move back");
    subs.mark_sent(b"b", 60);
    assert_eq!(subs.watermark(), 50);
    subs.unsubscribe(b"a", 1);
    assert_eq!(subs.watermark(), 60);
}

#[test]
fn many_topics_stay_apart() {
    let mut subs = SubMap::new(4);
    for i in 0..200u64 {
        subs.subscribe(format!("topic-{i}").as_bytes(), make_sub(i));
    }
    for i in (0..200u64).step_by(2) {
        subs.unsubscribe(format!("topic-{i}").as_bytes(), i);
    }
    for i in 0..200u64 {
        let t = format!("topic-{i}");
        let found = subs.read(t.as_bytes()).get(t.as_bytes()).map(|l| l[0].id);
        assert_eq!(found, if i % 2 == 0 { None } else { Some(i) });
    }
    subs.unsubscribe(b"topic-1", 99);
    assert!(subs.read(b"topic-1").get(b"topic-1").is_some());
}
