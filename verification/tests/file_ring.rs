use zhensegg::broker::session::Session;
use zhensegg::protocol::encode_publish;
use zhensegg::security::AccessControl;
use zhensegg::store::file::{
    file_len, idle_step, FileRing, FlushCycle, FlushStep, IdleStep, RecoverError,
};
use zhensegg::store::audit::{audit, audit_file, committed_window, Chain};
use zhensegg::store::flusher::{FlushAction, Flusher, EXIT_IO};
use zhensegg::store::header::{crc32_of, decode_header, encode_header, RingHeader};
use zhensegg::store::{decode_record, MemRing, Store, StoreError};
use zhensegg::subscription::SubMap;

/// A file in memory.
struct Disk {
    bytes: Vec<u8>,
}

impl Disk {
    fn for_ring(ring: &FileRing) -> Disk {
        let mut disk = Disk { bytes: vec![0; file_len(ring.capacity()) as usize] };
        disk.write(0, &ring.commit_header(&ring.begin_flush()));
        disk
    }

    fn write(&mut self, at: u64, data: &[u8]) {
        self.bytes[at as usize..at as usize + data.len()].copy_from_slice(data);
    }

    fn reopen(&self) -> Result<FileRing, RecoverError> {
        FileRing::recover(&self.bytes[..128], self.bytes[128..].to_vec())
    }
}

/// Writes all that is new, without the header.
fn write_data(ring: &FileRing, disk: &mut Disk) -> FlushCycle {
    let mut c = ring.begin_flush();
    loop {
        match ring.next_write(&mut c) {
            FlushStep::Write(segments) => {
                for s in segments {
                    disk.write(s.at, &s.bytes);
                }
            }
            FlushStep::Done | FlushStep::Lost => return c,
        }
    }
}

fn flush(ring: &mut FileRing, disk: &mut Disk) -> u64 {
    let c = write_data(ring, disk);
    disk.write(0, &ring.commit_header(&c));
    ring.finish_flush(&c)
}

fn payload_at(ring: &FileRing, off: u64, len: u32) -> Vec<u8> {
    let mut raw = Vec::new();
    ring.read(off, len, &mut raw).unwrap();
    decode_record(&raw).unwrap().1.to_vec()
}

#[test]
fn test_file_ring_append_read_roundtrip() {
    let mut ring = FileRing::create(1024 * 1024);
    let (off, len) = ring.append(b"events", b"file-payload").unwrap();
    let mut raw = Vec::new();
    ring.read(off, len, &mut raw).unwrap();
    let (topic, payload) = decode_record(&raw).unwrap();
    assert_eq!(topic, b"events");
    assert_eq!(payload, b"file-payload");
    assert!(ring.write_pos() > 0);
}

#[test]
fn test_file_ring_multiple_records() {
    let mut ring = FileRing::create(1024 * 1024);
    let mut disk = Disk::for_ring(&ring);
    let mut last = 0u64;
    for i in 0..100 {
        let payload = format!("m{i}");
        let (off, _) = ring.append(b"topic", payload.as_bytes()).unwrap();
        assert!(off >= last);
        last = off;
    }
    let target = ring.write_pos();
    assert_eq!(ring.durable_pos(), 0);
    let durable = flush(&mut ring, &mut disk);
    assert_eq!(durable, target, "all records flushed on demand");
    assert_eq!(ring.durable_pos(), target);
}

#[test]
fn test_store_trait_object_dispatch() {
    let mut mem: Box<dyn Store> = Box::new(MemRing::new(1024 * 1024));
    let (off, len) = mem.append(b"t", b"m1").unwrap();
    let mut raw = Vec::new();
    mem.read(off, len, &mut raw).unwrap();
    assert_eq!(decode_record(&raw).unwrap().1, b"m1");

    let mut file: Box<dyn Store> = Box::new(FileRing::create(1024 * 1024));
    let (off2, len2) = file.append(b"t", b"f1").unwrap();
    let mut raw2 = Vec::new();
    file.read(off2, len2, &mut raw2).unwrap();
    assert_eq!(decode_record(&raw2).unwrap().1, b"f1");
}

#[test]
fn test_file_ring_survives_kill9_and_reopens() {
    let mut ring = FileRing::create(1024 * 1024);
    let mut disk = Disk::for_ring(&ring);
    let mut places = Vec::new();
    for i in 0..500 {
        let payload = format!("m{i}");
        places.push((ring.append(b"t", payload.as_bytes()).unwrap(), payload));
    }
    flush(&mut ring, &mut disk);
    let target = ring.durable_pos();
    assert!(target > 0, "flusher must reach at least one group commit");
    drop(ring);
    let ring = disk.reopen().unwrap();
    assert_eq!(ring.durable_pos(), ring.write_pos());
    assert_eq!(ring.durable_pos(), target);
    for ((off, len), payload) in places {
        assert_eq!(payload_at(&ring, off, len), payload.as_bytes());
    }
}

#[test]
fn test_file_ring_corrupt_slot_falls_back_to_replica() {
    let mut ring = FileRing::create(1024 * 1024);
    let mut disk = Disk::for_ring(&ring);
    ring.append(b"t", b"x").unwrap();
    flush(&mut ring, &mut disk);
    disk.write(0, &[0xFF; 64]);
    let ring = disk.reopen().unwrap();
    assert!(ring.durable_pos() >= 1, "replica slot must carry the committed position");
}

#[test]
fn test_file_ring_corrupt_header_refuses_startup() {
    let mut ring = FileRing::create(1024 * 1024);
    let mut disk = Disk::for_ring(&ring);
    ring.append(b"t", b"x").unwrap();
    flush(&mut ring, &mut disk);
    disk.write(0, &[0xFF; 128]);
    let err = disk.reopen().err().expect("corrupt header must refuse startup");
    assert_eq!(err, RecoverError::Corrupt);
}

#[test]
fn test_file_ring_torn_tail_is_ignored() {
    let mut ring = FileRing::create(4 * 1024 * 1024);
    let mut disk = Disk::for_ring(&ring);
    for i in 0..1000 {
        let payload = format!("torn-{i}");
        ring.append(b"t", payload.as_bytes()).unwrap();
    }
    let durable = flush(&mut ring, &mut disk);
    assert!(durable > 0);
    disk.write(durable + 8192, &[0xAA; 256]);
    let ring = disk.reopen().unwrap();
    assert_eq!(ring.durable_pos(), durable, "torn tail beyond committed is ignored");
    assert_eq!(payload_at(&ring, 0, 8 + 1 + 6), b"torn-0");
}

#[test]
fn test_file_ring_reopen_after_immediate_crash() {
    let mut ring = FileRing::create(1024 * 1024);
    let disk = Disk::for_ring(&ring);
    ring.append(b"t", b"boom").unwrap();
    drop(ring);
    let ring = disk.reopen().unwrap();
    assert_eq!(ring.write_pos(), ring.durable_pos());
    assert_eq!(ring.write_pos(), 0);
}

#[test]
fn a_header_of_another_size_is_refused() {
    let mut ring = FileRing::create(65536);
    let mut disk = Disk::for_ring(&ring);
    flush(&mut ring, &mut disk);
    let twice = [&disk.bytes[128..], &disk.bytes[128..]].concat();
    let err = FileRing::recover(&disk.bytes[..128], twice).err();
    assert_eq!(err, Some(RecoverError::WrongSize));
    let odd = encode_header(RingHeader { capacity: 1000, committed: 0, write_pos: 0 });
    assert_eq!(FileRing::recover(&odd, vec![0; 1000]).err(), Some(RecoverError::WrongSize));
}

#[test]
fn a_crash_before_the_header_keeps_the_last_commit() {
    let mut ring = FileRing::create(65536);
    let mut disk = Disk::for_ring(&ring);
    let (off, len) = ring.append(b"a", b"committed").unwrap();
    let committed = flush(&mut ring, &mut disk);
    ring.append(b"a", b"not committed").unwrap();
    write_data(&ring, &mut disk);
    let back = disk.reopen().unwrap();
    assert_eq!(back.write_pos(), committed);
    assert_eq!(payload_at(&back, off, len), b"committed");
}

#[test]
fn flushes_go_round_the_end_of_the_ring() {
    let mut ring = FileRing::create(65536);
    let mut disk = Disk::for_ring(&ring);
    let mut places = Vec::new();
    for i in 0..40u8 {
        places.push((ring.append(b"topic", &vec![i; 5000]).unwrap(), i));
        flush(&mut ring, &mut disk);
    }
    assert_eq!(ring.durable_pos(), 40 * 5013);
    let back = disk.reopen().unwrap();
    assert_eq!(back.write_pos(), ring.write_pos());
    for ((off, len), i) in places.into_iter().rev().take(12) {
        assert_eq!(payload_at(&back, off, len), vec![i; 5000]);
    }
}

#[test]
fn a_flusher_that_lags_writes_all_that_is_kept() {
    let mut ring = FileRing::create(65536);
    let mut disk = Disk::for_ring(&ring);
    let mut places = Vec::new();
    for i in 0..20u8 {
        places.push(ring.append(b"t", &vec![i; 10000]).unwrap());
    }
    let end = ring.write_pos();
    let c = ring.begin_flush();
    assert_eq!(c, FlushCycle { at: end - 65536, target: end });
    // What was overwritten in the meantime ends a flush.
    let mut late = c;
    for i in 20..23u8 {
        places.push(ring.append(b"t", &vec![i; 10000]).unwrap());
    }
    assert!(matches!(ring.next_write(&mut late), FlushStep::Lost));
    assert_eq!(late.at, end - 65536);
    // The next flush begins with the oldest byte that is kept.
    assert_eq!(flush(&mut ring, &mut disk), ring.write_pos());
    let back = disk.reopen().unwrap();
    assert_eq!(back.write_pos(), ring.write_pos());
    for (i, (off, len)) in places.into_iter().enumerate().skip(17) {
        assert_eq!(payload_at(&back, off, len), vec![i as u8; 10000]);
    }
}

#[test]
fn lagging_by_more_than_a_ring_loses_nothing_that_is_kept() {
    let mut ring = FileRing::create(65536);
    let mut disk = Disk::for_ring(&ring);
    for _ in 0..7 {
        ring.append(b"", &vec![7u8; 9992]).unwrap();
    }
    assert_eq!(ring.write_pos(), 70000);
    assert_eq!(ring.begin_flush().at, 70000 - 65536);
    let mut flusher = Flusher::new();
    loop {
        match flusher.next(&mut ring, 0) {
            FlushAction::Write(segments) => {
                for s in segments {
                    disk.write(s.at, &s.bytes);
                }
            }
            FlushAction::Header(bytes) => disk.write(0, &bytes),
            FlushAction::Sync => assert_eq!(ring.durable_pos(), 0),
            FlushAction::Advance(pos) => {
                assert_eq!(pos, 70000);
                break;
            }
            _ => panic!("there is something to flush"),
        }
    }
    let back = disk.reopen().unwrap();
    let (mut kept, mut found) = (Vec::new(), Vec::new());
    ring.read(70000 - 65536, 65536, &mut kept).unwrap();
    back.read(70000 - 65536, 65536, &mut found).unwrap();
    assert_eq!(kept, found);
}

#[test]
fn large_flushes_come_in_chunks() {
    let mut ring = FileRing::create(4 * 1024 * 1024);
    for _ in 0..3 {
        ring.append(b"", &vec![5u8; 1024 * 1024 - 8]).unwrap();
    }
    let mut c = ring.begin_flush();
    let mut sizes = Vec::new();
    while let FlushStep::Write(segments) = ring.next_write(&mut c) {
        sizes.push(segments.iter().map(|s| s.bytes.len()).sum::<usize>());
    }
    assert_eq!(sizes, vec![1 << 20; 3]);
    assert_eq!(ring.finish_flush(&c), 3 << 20);
}

#[test]
fn header_bytes_are_exact() {
    assert_eq!(crc32_of(b"123456789", 9), 0xcbf4_3926);
    let h = RingHeader { capacity: 65536, committed: 3, write_pos: 4 };
    let bytes = encode_header(h);
    assert_eq!(bytes.len(), 128);
    assert_eq!(&bytes[..8], b"ZSEG\0\0\0\x02");
    assert_eq!(bytes[..64], bytes[64..]);
    assert_eq!(decode_header(&bytes), Some(h));
    assert_eq!(decode_header(&bytes[..64]), Some(h));
    assert_eq!(decode_header(&bytes[..63]), None);
    let mut bent = bytes.clone();
    bent[20] ^= 1;
    assert_eq!(decode_header(&bent), Some(h));
    bent[84] ^= 1;
    assert_eq!(decode_header(&bent), None);
}

#[test]
fn idle_flushers_sync_once_a_millisecond() {
    assert_eq!(idle_step(999), IdleStep { sync: false, sleep_us: 200 });
    assert_eq!(idle_step(1000), IdleStep { sync: true, sleep_us: 300 });
}

#[test]
fn file_rings_reject_overflow_too() {
    let mut ring = FileRing::create(65536);
    ring.set_reject_overflow(true);
    ring.attach_watermark(0);
    let mut err = None;
    for _ in 0..10 {
        if let Err(e) = ring.append(b"t", &vec![0u8; 10000]) {
            err = Some(e);
        }
    }
    assert_eq!(err, Some(StoreError::Overflow));
    assert!(ring.rejects_overflow());
}

#[test]
fn flushers_write_then_commit_then_sync_then_advance() {
    let mut ring = FileRing::create(65536);
    let mut disk = Disk::for_ring(&ring);
    let mut flusher = Flusher::new();
    match flusher.next(&mut ring, 5) {
        FlushAction::Rest(step) => assert_eq!(step, IdleStep { sync: false, sleep_us: 200 }),
        _ => panic!("nothing is new"),
    }
    let (off, len) = ring.append(b"t", b"kept").unwrap();
    match flusher.next(&mut ring, 0) {
        FlushAction::Write(segments) => {
            for s in segments {
                disk.write(s.at, &s.bytes);
            }
        }
        _ => panic!("the slots come first"),
    }
    match flusher.next(&mut ring, 0) {
        FlushAction::Header(bytes) => disk.write(0, &bytes),
        _ => panic!("then the header"),
    }
    assert!(matches!(flusher.next(&mut ring, 0), FlushAction::Sync));
    assert_eq!(ring.durable_pos(), 0);
    match flusher.next(&mut ring, 0) {
        FlushAction::Advance(pos) => assert_eq!(pos, ring.write_pos()),
        _ => panic!("then the position moves"),
    }
    assert_eq!(ring.durable_pos(), ring.write_pos());
    assert!(matches!(flusher.next(&mut ring, 1000), FlushAction::Rest(IdleStep { sync: true, .. })));
    let back = disk.reopen().unwrap();
    assert_eq!(payload_at(&back, off, len), b"kept");
}

#[test]
fn a_failed_flusher_stops_the_process() {
    let mut ring = FileRing::create(65536);
    let mut flusher = Flusher::new();
    ring.append(b"t", b"p").unwrap();
    assert!(matches!(flusher.next(&mut ring, 0), FlushAction::Write(_)));
    flusher.failed();
    for _ in 0..3 {
        match flusher.next(&mut ring, 0) {
            FlushAction::Stop(status) => assert_eq!(status, 70),
            _ => panic!("nothing more is flushed"),
        }
    }
    assert_eq!(EXIT_IO, 70);
    assert_eq!(ring.durable_pos(), 0);
}

#[test]
fn audits_walk_the_chain() {
    let mut ring = FileRing::create(65536);
    let mut disk = Disk::for_ring(&ring);
    for i in 0..10u8 {
        ring.append(b"topic", &vec![i; 100]).unwrap();
    }
    flush(&mut ring, &mut disk);
    let (h, chain) = audit_file(&disk.bytes[..128], &disk.bytes[128..]).unwrap();
    assert_eq!(h.committed, 1130);
    assert_eq!(chain, Some(Chain { skipped: 0, records: 10 }));
    // Round the ring: the window starts inside a record.
    for i in 0..700u32 {
        ring.append(b"topic", &vec![i as u8; 100]).unwrap();
        flush(&mut ring, &mut disk);
    }
    let (h, chain) = audit_file(&disk.bytes[..128], &disk.bytes[128..]).unwrap();
    assert_eq!(h.committed, 710 * 113);
    let chain = chain.unwrap();
    assert!(chain.skipped < 113);
    assert_eq!(committed_window(&disk.bytes[128..], h.committed).len(), 65536);
    assert!(chain.records >= 579);
}

#[test]
fn audits_find_breaks() {
    assert_eq!(audit(b"", 0), Some(Chain { skipped: 0, records: 0 }));
    let one = [0, 0, 0, 1, 0, 0, 0, 2, b't', b'p', b'q'];
    assert_eq!(audit(&one, 0), Some(Chain { skipped: 0, records: 1 }));
    assert_eq!(audit(&one[..10], 9), None);
    assert_eq!(audit(&[0xff; 40], 39), None);
    let mut torn = vec![0xee, 0xee, 0xee];
    torn.extend_from_slice(&one);
    torn.extend_from_slice(&one);
    assert_eq!(audit(&torn, 3), Some(Chain { skipped: 3, records: 2 }));
    assert_eq!(audit(&torn, 2), None);
    assert_eq!(audit_file(b"short", b"").err(), Some(RecoverError::Corrupt));
    let h = RingHeader { capacity: 65536, committed: 0, write_pos: 0 };
    assert_eq!(audit_file(&encode_header(h), b"12").err(), Some(RecoverError::WrongSize));
}

#[test]
fn acknowledged_records_are_there_after_a_restart() {
    let mut ring = FileRing::create(65536);
    let mut disk = Disk::for_ring(&ring);
    let mut subs = SubMap::new(4);
    let mut session = Session::new(1, AccessControl::open(), true, false);
    let mut frame = Vec::new();
    encode_publish(&mut frame, b"orders", b"one");
    encode_publish(&mut frame, b"orders", b"two");
    let fx = session.on_read(&frame, &mut ring, &mut subs);
    assert_eq!(fx.wait_for, Some(34));
    assert_eq!(fx.outputs.len(), 2);
    flush(&mut ring, &mut disk);
    assert!(ring.durable_pos() >= fx.wait_for.unwrap());
    drop(ring);
    let back = disk.reopen().unwrap();
    assert_eq!(payload_at(&back, 0, 17), b"one");
    assert_eq!(payload_at(&back, 17, 17), b"two");
}

#[test]
fn audits_refuse_a_break_in_a_young_ring() {
    let mut ring = FileRing::create(65536);
    let mut disk = Disk::for_ring(&ring);
    for i in 0..10u8 {
        ring.append(b"topic", &vec![i; 100]).unwrap();
    }
    flush(&mut ring, &mut disk);
    // The first record is broken; those behind it are whole.
    disk.bytes[128..136].fill(0xff);
    let (_, chain) = audit_file(&disk.bytes[..128], &disk.bytes[128..]).unwrap();
    assert_eq!(chain, None);
}

#[test]
fn audits_refuse_a_break_in_an_old_ring() {
    let mut ring = FileRing::create(65536);
    let mut disk = Disk::for_ring(&ring);
    for i in 0..700u32 {
        ring.append(b"topic", &vec![i as u8; 100]).unwrap();
        flush(&mut ring, &mut disk);
    }
    assert!(audit_file(&disk.bytes[..128], &disk.bytes[128..]).unwrap().1.is_some());
    // A record in the younger half is broken.
    let at = 128 + (690 * 113) % 65536;
    disk.bytes[at..at + 8].fill(0xff);
    assert_eq!(audit_file(&disk.bytes[..128], &disk.bytes[128..]).unwrap().1, None);
}

#[test]
fn a_kill_in_the_middle_of_a_flush_loses_nothing_durable() {
    let mut ring = FileRing::create(65536);
    let mut disk = Disk::for_ring(&ring);
    let mut durable = Vec::new();
    for i in 0..5u8 {
        durable.push((ring.append(b"t", &vec![i; 9000]).unwrap(), i));
    }
    flush(&mut ring, &mut disk);
    ring.append(b"t", &vec![9; 9000]).unwrap();
    let mut flusher = Flusher::new();
    match flusher.next(&mut ring, 0) {
        FlushAction::Write(segments) => {
            for s in segments {
                // Only a part of the write gets there.
                disk.write(s.at, &s.bytes[..s.bytes.len() / 2]);
            }
        }
        _ => panic!("the slots come first"),
    }
    for stage in 0..2 {
        let back = disk.reopen().unwrap();
        assert!(back.durable_pos() >= ring.durable_pos());
        for ((off, len), i) in &durable {
            assert_eq!(payload_at(&back, *off, *len), vec![*i; 9000]);
        }
        if stage == 0 {
            // The header gets there, though nothing was synced yet.
            match flusher.next(&mut ring, 0) {
                FlushAction::Header(bytes) => disk.write(0, &bytes),
                _ => panic!("then the header"),
            }
        }
    }
}

#[test]
fn slots_hold_the_log() {
    let mut ring = FileRing::create(65536);
    assert_eq!(ring.slots(), &vec![0u8; 65536][..]);
    let (off, len) = ring.append(b"t", b"p").unwrap();
    let mut raw = Vec::new();
    ring.read(off, len, &mut raw).unwrap();
    assert_eq!(&ring.slots()[..len as usize], &raw[..]);
    assert_eq!(MemRing::new(1).slots().len(), 65536);
}
