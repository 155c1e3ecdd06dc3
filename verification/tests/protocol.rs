use zhensegg::protocol::{
    Op, Parser, encode_ack, encode_auth, encode_data, encode_error, encode_fetch, encode_frame, encode_notify,
    encode_publish, encode_subscribe,
};

#[test]
fn roundtrip_zero_alloc() {
    let mut buf = Vec::new();
    encode_publish(&mut buf, b"test-topic", b"hello world");
    let mut parser = Parser::new(64 * 1024);
    parser.feed(&buf);
    let frame = parser.try_parse().expect("frame");
    assert_eq!(frame.op, Op::Publish);
    assert_eq!(frame.topic, b"test-topic");
    assert_eq!(frame.payload, b"hello world");
    parser.consume();
    assert_eq!(parser.buffered(), 0);
}

#[test]
fn batch_two_frames() {
    let mut buf = Vec::new();
    encode_publish(&mut buf, b"t1", b"msg1");
    encode_publish(&mut buf, b"t2", b"msg2");
    let mut p = Parser::new(1024);
    p.feed(&buf);
    let mut count = 0;
    p.drain(|f| {
        count += 1;
        assert_eq!(f.op, Op::Publish);
    });
    assert_eq!(count, 2);
}

#[test]
fn partial_feed() {
    let mut buf = Vec::new();
    encode_publish(&mut buf, b"t", b"payload");
    let mut p = Parser::new(1024);
    p.feed(&buf[..5]);
    assert!(p.try_parse().is_none());
    p.feed(&buf[5..]);
    assert!(p.try_parse().is_some());
}

#[test]
fn bench_no_alloc() {
    let mut buf = Vec::new();
    for _ in 0..1000 {
        encode_publish(&mut buf, b"bench", b"x");
    }
    let mut p = Parser::new(1024 * 1024);
    p.feed(&buf);
    let mut n = 0;
    p.drain(|_| n += 1);
    assert_eq!(n, 1000);
    assert_eq!(p.buffered(), 0);
}

#[test]
fn encode_subscribe_frame() {
    let mut buf = Vec::new();
    encode_subscribe(&mut buf, b"test");
    let mut parser = Parser::new(1024);
    parser.feed(&buf);
    let frame = parser.try_parse().unwrap();
    assert_eq!(frame.op, Op::Subscribe);
    assert_eq!(frame.topic, b"test");
    assert_eq!(frame.payload.len(), 0);
}

#[test]
fn encode_ack_and_notify_with_offset() {
    let mut buf = Vec::new();
    encode_ack(&mut buf, b"topic", 999, 42);
    let mut parser = Parser::new(1024);
    parser.feed(&buf);
    let frame = parser.try_parse().unwrap();
    assert_eq!(frame.op, Op::Ack);
    assert_eq!(frame.offset, Some(999));
    assert_eq!(frame.len, Some(42));

    let mut buf2 = Vec::new();
    encode_notify(&mut buf2, b"topic", 111, 7);
    let mut parser2 = Parser::new(1024);
    parser2.feed(&buf2);
    let frame2 = parser2.try_parse().unwrap();
    assert_eq!(frame2.op, Op::Notify);
    assert_eq!(frame2.offset, Some(111));
    assert_eq!(frame2.len, Some(7));
}

#[test]
fn encode_fetch_embeds_offset_in_payload() {
    let mut buf = Vec::new();
    encode_fetch(&mut buf, b"topic", 12345, 100);
    let mut parser = Parser::new(1024);
    parser.feed(&buf);
    let frame = parser.try_parse().unwrap();
    assert_eq!(frame.op, Op::Fetch);
    // Fetch embeds offset+len in the 12-byte payload
    assert_eq!(frame.payload.len(), 12);
    let off = u64::from_be_bytes(frame.payload[0..8].try_into().unwrap());
    let len = u32::from_be_bytes(frame.payload[8..12].try_into().unwrap());
    assert_eq!(off, 12345);
    assert_eq!(len, 100);
}


#[test]
fn op_codes_round_trip() {
    for v in 0..=255u8 {
        match Op::from_u8(v) {
            Some(op) => assert_eq!(op.to_u8(), v),
            None => assert!(v == 0 || v > 9),
        }
    }
    assert_eq!(Op::from_u8(8), Some(Op::Auth));
    assert_eq!(Op::from_u8(9), Some(Op::Error));
}

#[test]
fn frame_layout_is_exact() {
    let mut buf = vec![7u8];
    encode_frame(&mut buf, Op::Publish, b"ab", b"xyz");
    assert_eq!(
        buf,
        vec![7, 0, 0, 0, 14, 1, 0, 0, 0, 2, 0, 0, 0, 3, b'a', b'b', b'x', b'y', b'z']
    );
    let mut fetch = Vec::new();
    encode_fetch(&mut fetch, b"", 0x0102030405060708, 0x090a0b0c);
    assert_eq!(
        fetch,
        vec![0, 0, 0, 21, 3, 0, 0, 0, 0, 0, 0, 0, 12, 1, 2, 3, 4, 5, 6, 7, 8, 9, 10, 11, 12]
    );
}

#[test]
fn auth_and_error_frames() {
    let mut buf = Vec::new();
    encode_auth(&mut buf, b"s3cret");
    encode_error(&mut buf, b"t", "overflow");
    let mut p = Parser::with_capacity(64);
    p.feed(&buf);
    {
        let f = p.try_parse().unwrap();
        assert_eq!(f.op, Op::Auth);
        assert_eq!(f.topic, b"auth");
        assert_eq!(f.payload, b"s3cret");
        assert_eq!(f.offset, None);
    }
    p.consume();
    let f = p.try_parse().unwrap();
    assert_eq!(f.op, Op::Error);
    assert_eq!(f.payload, b"overflow");
}

#[test]
fn oversized_length_skips_the_prefix() {
    let mut p = Parser::new(16);
    p.feed(&[0xFF, 0xFF, 0xFF, 0xFF]);
    assert!(p.try_parse().is_none());
    assert_eq!(p.buffered(), 0);
    // 16 MiB is still within the limit: the parser waits.
    p.feed(&[1, 0, 0, 0]);
    assert!(p.try_parse().is_none());
    assert_eq!(p.buffered(), 4);
}

#[test]
fn mismatched_lengths_drop_the_frame() {
    let mut buf = vec![0, 0, 0, 10, 1, 0, 0, 0, 5, 0, 0, 0, 0, 9];
    encode_publish(&mut buf, b"t", b"ok");
    let mut p = Parser::new(64);
    p.feed(&buf);
    assert!(p.try_parse().is_none());
    let f = p.try_parse().unwrap();
    assert_eq!(f.payload, b"ok");
}

#[test]
fn short_frames_are_dropped() {
    let mut p = Parser::new(64);
    p.feed(&[0, 0, 0, 0]);
    assert!(p.try_parse().is_none());
    assert_eq!(p.buffered(), 0);
    p.feed(&[0, 0, 0, 3, 1, 2, 3]);
    assert!(p.try_parse().is_none());
    assert_eq!(p.buffered(), 0);
}

#[test]
fn unknown_operation_blocks() {
    let mut p = Parser::new(64);
    p.feed(&[0, 0, 0, 9, 0x7F, 0, 0, 0, 0, 0, 0, 0, 0]);
    assert!(p.try_parse().is_none());
    assert!(p.try_parse().is_none());
    assert_eq!(p.buffered(), 13);
}

#[test]
fn byte_by_byte_feeding_yields_the_same_frames() {
    let mut buf = Vec::new();
    encode_publish(&mut buf, b"a", b"1");
    encode_subscribe(&mut buf, b"b");
    encode_ack(&mut buf, b"c", 5, 6);
    let mut p = Parser::new(8);
    let mut seen = Vec::new();
    for b in &buf {
        p.feed(&[*b]);
        p.drain(|f| seen.push((f.op, f.topic.to_vec(), f.payload.to_vec())));
    }
    assert_eq!(seen.len(), 3);
    assert_eq!(seen[0], (Op::Publish, b"a".to_vec(), b"1".to_vec()));
    assert_eq!(seen[1], (Op::Subscribe, b"b".to_vec(), vec![]));
    assert_eq!(seen[2].0, Op::Ack);
    assert_eq!(p.buffered(), 0);
}

#[test]
fn raw_frame_spans_prefix_and_body() {
    let mut buf = Vec::new();
    encode_publish(&mut buf, b"t", b"payload");
    let mut p = Parser::new(64);
    assert!(p.current_frame_raw().is_none());
    p.feed(&buf[..6]);
    assert!(p.current_frame_raw().is_none());
    p.feed(&buf[6..]);
    p.feed(&[1, 2]);
    assert_eq!(p.current_frame_raw().unwrap(), buf.as_slice());
}

#[test]
fn spare_room_counts_as_received() {
    let mut buf = Vec::new();
    encode_publish(&mut buf, b"t", b"p");
    let mut p = Parser::new(4);
    p.feed(&buf[..3]);
    let n = buf.len() - 3;
    let room = p.spare_mut(n);
    assert!(room.iter().all(|&b| b == 0));
    room.copy_from_slice(&buf[3..]);
    p.commit(n);
    assert_eq!(p.try_parse().unwrap().payload, b"p");
    p.commit(0);
    assert_eq!(p.buffered(), 0);
}

#[test]
fn long_streams_are_compacted() {
    let mut frame = Vec::new();
    encode_publish(&mut frame, b"topic", &[9u8; 1000]);
    let mut p = Parser::new(16);
    for _ in 0..200 {
        p.feed(&frame);
        p.feed(&frame[..10]);
        assert_eq!(p.try_parse().unwrap().payload.len(), 1000);
        p.consume();
        p.feed(&frame[10..]);
        assert_eq!(p.try_parse().unwrap().payload.len(), 1000);
        p.consume();
    }
    assert_eq!(p.buffered(), 0);
}

#[test]
fn drain_passes_over_malformed_frames() {
    let mut p = Parser::new(64);
    p.feed(&[0, 0, 0, 10, 2, 0, 0, 0, 0, 0, 0, 0, 0, 0xAA]);
    let mut w = Vec::new();
    encode_publish(&mut w, b"t", b"m");
    p.feed(&w);
    {
        let (list, taken) = p.complete_frames();
        assert_eq!(list.len(), 1);
        assert_eq!((list[0].op, list[0].topic, list[0].payload), (Op::Publish, &b"t"[..], &b"m"[..]));
        assert_eq!(taken, p.buffered());
    }
    let mut seen = Vec::new();
    p.drain(|f| seen.push((f.op, f.topic.to_vec(), f.payload.to_vec())));
    assert_eq!(seen, vec![(Op::Publish, b"t".to_vec(), b"m".to_vec())]);
    assert_eq!(p.buffered(), 0);
}

#[test]
fn delivered_frames_differ_by_their_operation_only() {
    let (mut q, mut d) = (Vec::new(), Vec::new());
    encode_publish(&mut q, b"topic", b"payload");
    encode_data(&mut d, b"topic", b"payload");
    assert_eq!((q[4], d[4]), (1, 7));
    q[4] = 7;
    assert_eq!(q, d);
}
