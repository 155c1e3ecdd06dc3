use zhensegg::bench::{
    batch_size, caught_up, encode_batch, login_state, monitor_goes_on, outstanding, plain_batch, receive, record_latency, record_matches, record_span,
    stamped_payload, AckCounter, Login, Sample, Span,
};
use zhensegg::protocol::{
    encode_ack, encode_data, encode_error, encode_publish, Op, Parser,
};
use zhensegg::store::{MemRing, Store};

#[test]
fn batches_end_at_the_target() {
    assert_eq!(batch_size(Some(10), 0, 4), 4);
    assert_eq!(batch_size(Some(10), 8, 4), 2);
    assert_eq!(batch_size(Some(10), 10, 4), 0);
    assert_eq!(batch_size(None, 1000, 4), 4);
}

#[test]
fn batches_carry_their_time_stamps() {
    assert_eq!(stamped_payload(258, 10), vec![0, 0, 0, 0, 0, 0, 1, 2, b'x', b'x']);
    let bytes = encode_batch(b"bench", 12, &vec![1, 2, 3]);
    let mut expected = Vec::new();
    for t in 1..=3 {
        encode_publish(&mut expected, b"bench", &stamped_payload(t, 12));
    }
    assert_eq!(bytes, expected);
}

#[test]
fn acknowledgements_are_counted_and_sampled() {
    let mut c = AckCounter::new();
    let mut samples = Vec::new();
    let stamps: Vec<u64> = (0..200).map(|i| 1000 + i).collect();
    let mut bytes = Vec::new();
    for i in 0..130u64 {
        encode_ack(&mut bytes, b"t", i * 10, 7);
        encode_data(&mut bytes, b"t", b"noise");
    }
    c.on_read(&bytes[..100], &stamps, &mut samples);
    assert!(c.got() < 5);
    c.on_read(&bytes[100..], &stamps, &mut samples);
    assert_eq!(c.got(), 130);
    assert_eq!(
        samples,
        vec![
            Sample { offset: 630, len: 7, stamp: 1063 },
            Sample { offset: 1270, len: 7, stamp: 1127 },
        ]
    );
    c.next_batch();
    assert_eq!(c.got(), 0);
}

#[test]
fn old_samples_make_room() {
    let mut c = AckCounter::new();
    let mut samples = vec![Sample { offset: 0, len: 0, stamp: 0 }; 4096];
    let mut bytes = Vec::new();
    for _ in 0..64 {
        encode_ack(&mut bytes, b"", 5, 6);
    }
    c.on_read(&bytes, &vec![], &mut samples);
    assert_eq!(samples.len(), 4096);
    assert_eq!(samples[0], Sample { offset: 5, len: 6, stamp: 0 });
    assert_eq!(samples[1].offset, 0);
}

#[test]
fn deliveries_are_counted() {
    let mut p = Parser::new(64);
    let mut bytes = Vec::new();
    encode_ack(&mut bytes, b"t", 0, 0);
    encode_data(&mut bytes, b"t", &stamped_payload(77, 9));
    encode_data(&mut bytes, b"t", b"short");
    let r = receive(&mut p, &bytes);
    assert_eq!((r.acks, r.data, r.stamps), (1, 2, vec![77]));
    let mut l = Vec::new();
    record_latency(&mut l, 2, 100, 77);
    record_latency(&mut l, 2, 50, 77);
    record_latency(&mut l, 2, 51, 50);
    assert_eq!(l, vec![23, 0]);
    let mut l = Vec::new();
    record_latency(&mut l, 2, 60_000_000_000, 0);
    assert!(l.is_empty());
}

#[test]
fn logins_need_an_acknowledgement() {
    let mut p = Parser::new(64);
    assert_eq!(login_state(&mut p), Login::Waiting);
    let mut bytes = Vec::new();
    encode_ack(&mut bytes, b"auth", 0, 0);
    p.feed(&bytes);
    assert_eq!(login_state(&mut p), Login::Accepted);
    let mut q = Parser::new(64);
    let mut bytes = Vec::new();
    encode_error(&mut bytes, b"auth", "no");
    q.feed(&bytes);
    assert_eq!(login_state(&mut q), Login::Refused);
    assert_eq!(q.try_parse().unwrap().op, Op::Error);
}

#[test]
fn records_are_found_behind_the_header() {
    let size = 128 + 65536;
    assert_eq!(record_span(0, 100, size), Some(Span { start: 0, end: 4096, skip: 128 }));
    assert_eq!(record_span(65536 + 5000, 8, size), Some(Span { start: 4096, end: 8192, skip: 1032 }));
    assert_eq!(record_span(3968, 4096, size), Some(Span { start: 4096, end: 8192, skip: 0 }));
    assert_eq!(record_span(65530, 7, size), None);
    assert_eq!(record_span(0, 1, 128), None);
}

#[test]
fn stored_records_match_what_was_sent() {
    let mut ring = MemRing::new(65536);
    let (off, len) = ring.append(b"bench", &stamped_payload(42, 20)).unwrap();
    let mut rec = Vec::new();
    ring.read(off, len, &mut rec).unwrap();
    assert!(record_matches(&rec, 5, 20, 42));
    assert!(!record_matches(&rec, 5, 20, 43));
    assert!(!record_matches(&rec, 6, 19, 42));
    assert!(!record_matches(&rec[..30], 5, 20, 42));
    let last = rec.len() - 1;
    rec[last] = b'y';
    assert!(!record_matches(&rec, 5, 20, 42));
}

#[test]
fn plain_batches_repeat_one_record() {
    let mut expected = Vec::new();
    for _ in 0..3 {
        encode_publish(&mut expected, b"bench", b"xxxx");
    }
    assert_eq!(plain_batch(b"bench", 4, 3), expected);
    assert_eq!(plain_batch(b"bench", 4, 0), Vec::<u8>::new());
    assert_eq!((outstanding(5, 3), outstanding(5, 9)), (2, 0));
}

#[test]
fn a_waiting_login_keeps_what_came() {
    let mut p = Parser::new(64);
    let mut ack = Vec::new();
    encode_ack(&mut ack, b"auth", 0, 0);
    p.feed(&ack[..7]);
    assert_eq!(login_state(&mut p), Login::Waiting);
    assert_eq!(p.buffered(), 7);
    p.feed(&ack[7..]);
    assert_eq!(login_state(&mut p), Login::Accepted);
}

#[test]
fn runs_are_watched_to_their_end() {
    assert!(monitor_goes_on(29, 9, 10, 10) && monitor_goes_on(29, 10, 9, 10));
    assert!(!monitor_goes_on(29, 10, 10, 10) && !monitor_goes_on(30, 0, 0, 10));
    assert!(caught_up(5, 5) && !caught_up(5, 4) && !caught_up(0, 0));
}
