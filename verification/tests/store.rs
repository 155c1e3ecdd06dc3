use zhensegg::store::{decode_record, MemRing, Store, StoreError};

fn decoded(raw: &[u8]) -> (Vec<u8>, Vec<u8>) {
    let (t, p) = decode_record(raw).expect("record");
    (t.to_vec(), p.to_vec())
}

#[test]
fn text_memring_append_read_roundtrip() {
    let mut ring = MemRing::new(1024 * 1024);
    let (off, len) = ring.append(b"orders", b"abc").unwrap();
    let mut raw = Vec::new();
    ring.read(off, len, &mut raw).unwrap();
    let (topic, payload) = decoded(&raw);
    assert_eq!(topic.as_slice(), b"orders");
    assert_eq!(payload.as_slice(), b"abc");
}

#[test]
fn test_memring_positions_monotonic() {
    let mut ring = MemRing::new(1024 * 1024);
    let mut last = 0u64;
    for i in 0..1000 {
        let payload = format!("msg-{i}");
        let (off, _) = ring.append(b"t", payload.as_bytes()).unwrap();
        assert!(off >= last);
        last = off;
    }
    assert!(ring.write_pos() > last);
    assert_eq!(ring.durable_pos(), ring.write_pos(), "mem store is always durable");
}

#[test]
fn test_memring_reads_back_all_messages() {
    let mut ring = MemRing::new(1024 * 1024);
    let mut offsets = Vec::new();
    for i in 0..50 {
        let payload = format!("data-{i}");
        let (off, len) = ring.append(b"topic", payload.as_bytes()).unwrap();
        offsets.push((off, len, payload));
    }
    for (off, len, expected) in offsets {
        let mut raw = Vec::new();
        ring.read(off, len, &mut raw).unwrap();
        let (_topic, payload) = decoded(&raw);
        assert_eq!(String::from_utf8(payload).unwrap(), expected);
    }
}

#[test]
fn test_memring_full_error_on_oversized_record() {
    let mut ring = MemRing::new(64 * 1024);
    let big = vec![b'x'; 40 * 1024];
    let err = ring.append(b"t", &big).unwrap_err();
    assert!(matches!(err, StoreError::Full));
}

#[test]
fn test_memring_invalid_offset_error() {
    let mut ring = MemRing::new(1024 * 1024);
    let (off, len) = ring.append(b"t", b"hello").unwrap();
    let mut out = Vec::new();
    let err = ring.read(off + 10_000_000, len, &mut out).unwrap_err();
    assert!(matches!(err, StoreError::InvalidOffset));
}

#[test]
fn test_memring_wraps_around_and_reads() {
    let mut ring = MemRing::new(64 * 1024);
    let mut offsets_last = Vec::new();
    for i in 0..2000 {
        let payload = format!("payload-{i}-with-some-length");
        let (off, len) = ring.append(b"topic", payload.as_bytes()).unwrap();
        if i >= 1980 {
            offsets_last.push((off, len));
        }
    }
    for (off, len) in offsets_last {
        let mut raw = Vec::new();
        if ring.read(off, len, &mut raw).is_ok() {
            let (topic, _payload) = decoded(&raw);
            assert_eq!(topic.as_slice(), b"topic");
        }
    }
    assert!(ring.write_pos() > 64 * 1024, "written enough to wrap");
}

#[test]
fn test_overflow_reject_policy_blocks_wrap_of_undelivered() {
    let mut ring = MemRing::new(64 * 1024);
    ring.set_reject_overflow(true);
    ring.attach_watermark(0);
    let payload = vec![b'x'; 100];
    let mut last = (0u64, 0u32);
    for _ in 0..100000 {
        match ring.append(b"t", &payload) {
            Ok(v) => last = v,
            Err(StoreError::Overflow) => break,
            Err(e) => panic!("unexpected error: {e:?}"),
        }
    }
    assert!(
        last.0 + last.1 as u64 > 60000,
        "ring must fill up before the first overflow rejection"
    );
    assert!(matches!(ring.append(b"t", &payload), Err(StoreError::Overflow)));
    ring.attach_watermark(u64::MAX);
    assert!(ring.append(b"t", &payload).is_ok());
}

#[test]
fn test_overflow_overwrite_default_wraps_silently() {
    let mut ring = MemRing::new(64 * 1024);
    let payload = vec![b'x'; 100];
    for _ in 0..2000 {
        ring.append(b"t", &payload).expect("overwrite policy must never reject");
    }
}

#[test]
fn ring_size_is_the_next_power_of_two() {
    assert_eq!(MemRing::new(0).capacity(), 65536);
    assert_eq!(MemRing::new(65536).capacity(), 65536);
    assert_eq!(MemRing::new(65537).capacity(), 131072);
    assert_eq!(MemRing::new(1_000_000).capacity(), 1 << 20);
}

#[test]
fn half_a_ring_is_the_largest_record() {
    let mut ring = MemRing::new(64 * 1024);
    let (off, len) = ring.append(b"", &vec![1u8; 32768 - 8]).unwrap();
    assert_eq!((off, len), (0, 32768));
    assert_eq!(ring.append(b"", &vec![1u8; 32768 - 7]), Err(StoreError::Full));
    assert_eq!(ring.write_pos(), 32768);
}

#[test]
fn overwritten_records_are_not_found() {
    let mut ring = MemRing::new(64 * 1024);
    let (first, len) = ring.append(b"a", &vec![1u8; 30000]).unwrap();
    ring.append(b"b", &vec![2u8; 30000]).unwrap();
    let mut out = vec![42u8];
    ring.read(first, len, &mut out).unwrap();
    ring.append(b"c", &vec![3u8; 30000]).unwrap();
    out = vec![42u8];
    assert_eq!(ring.read(first, len, &mut out), Err(StoreError::NotFound));
    assert_eq!(out, vec![42u8], "an error leaves the buffer alone");
    assert_eq!(ring.read(u64::MAX, 5, &mut out), Err(StoreError::InvalidOffset));
}

#[test]
fn records_read_back_across_the_end_of_the_ring() {
    let mut ring = MemRing::new(64 * 1024);
    for round in 0..20u8 {
        let payload: Vec<u8> = (0..20011u32).map(|i| (i % 251) as u8 ^ round).collect();
        let (off, len) = ring.append(b"topic", &payload).unwrap();
        assert_eq!(off, round as u64 * 20024);
        assert_eq!(len, 20024);
        let mut raw = Vec::new();
        ring.read(off, len, &mut raw).unwrap();
        assert_eq!(decoded(&raw), (b"topic".to_vec(), payload));
    }
    assert_eq!(ring.committed_pos(), 20 * 20024);
}

#[test]
fn rejecting_ring_keeps_bytes_from_the_watermark() {
    let mut ring = MemRing::new(64 * 1024);
    ring.set_reject_overflow(true);
    let (off, len) = ring.append(b"keep", &vec![7u8; 1000]).unwrap();
    ring.attach_watermark(off);
    let mut rejected = 0;
    for _ in 0..100 {
        if ring.append(b"t", &vec![0u8; 2000]) == Err(StoreError::Overflow) {
            rejected += 1;
        }
    }
    assert!(rejected > 0);
    let mut raw = Vec::new();
    ring.read(off, len, &mut raw).unwrap();
    assert_eq!(decoded(&raw).1, vec![7u8; 1000]);
    ring.set_reject_overflow(false);
    assert!(!ring.rejects_overflow());
    assert!(ring.append(b"t", &vec![0u8; 2000]).is_ok());
}

#[test]
fn broken_records_do_not_decode() {
    assert!(decode_record(&[0, 0, 0, 1, 0, 0, 0]).is_none());
    assert!(decode_record(&[0, 0, 0, 1, 0, 0, 0, 1, 9]).is_none());
    assert!(decode_record(&[255, 255, 255, 255, 255, 255, 255, 255, 9]).is_none());
    let (t, p) = decode_record(&[0, 0, 0, 1, 0, 0, 0, 1, 9, 8, 7]).unwrap();
    assert_eq!((t, p), (&[9u8][..], &[8u8][..]));
}
