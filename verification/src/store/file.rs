//! The persistent ring: a ring in memory, and what of it goes to a file when.
//!
//! The file is a header and then the slots of the ring. A flush writes what
//! is new to the slots, then the header, and makes both safe at once; only
//! then does the durable position move.

use super::header;
use super::header::{decode_header, encode_header, RingHeader, FILE_HEADER_SIZE};
use super::log;
use super::log::{Log, Store, StoreError};
use super::mem;
use super::mem::{MemRing, MIN_CAPACITY};
use super::modulo;
use super::retention;
use crate::bytes::copy_bytes;
use vstd::prelude::*;
use vstd::slice::slice_subrange;

verus! {

/// How much is written at once: 1 MiB.
pub const FLUSH_CHUNK: u64 = 1048576;

/// Why a file cannot be used.
#[derive(Debug, Clone, Copy, PartialEq, Eq, Structural)]
pub enum RecoverError {
    /// Neither slot of the header is whole.
    Corrupt,
    /// The header speaks of a ring of another size.
    WrongSize,
}

/// Bytes for a place in the file.
pub struct Segment {
    /// Where in the file.
    pub at: u64,
    pub bytes: Vec<u8>,
}

/// The slots of a file after a segment was written.
pub open spec fn written(slots: Seq<u8>, s: Segment) -> Seq<u8> {
    let from = s.at - FILE_HEADER_SIZE;
    Seq::new(
        slots.len(),
        |i: int|
            if from <= i < from + s.bytes@.len() {
                s.bytes@[i - from]
            } else {
                slots[i]
            },
    )
}

/// The slots of a file after several segments were written.
pub open spec fn all_written(slots: Seq<u8>, segments: Seq<Segment>) -> Seq<u8>
    decreases segments.len(),
{
    if segments.len() == 0 {
        slots
    } else {
        written(all_written(slots, segments.drop_last()), segments.last())
    }
}

/// A flush of the log from `from` to `to` makes `after` of `before`: the slots
/// of those positions hold the bytes of the log, all others are as they were.
pub open spec fn is_flushed(
    before: Seq<u8>,
    after: Seq<u8>,
    log: Log,
    from: int,
    to: int,
) -> bool {
    &&& after.len() == before.len()
    &&& forall|p: int|
        from <= p < to ==> #[trigger] after[p % (log.capacity as int)] == log.bytes[p - log.start()]
    &&& forall|i: int|
        0 <= i < before.len() && !slot_in(i, log.capacity as int, from, to)
            ==> #[trigger] after[i] == before[i]
}

/// A slot belongs to one of the positions from `from` to `to`.
pub open spec fn slot_in(i: int, size: int, from: int, to: int) -> bool {
    exists|p: int| from <= p < to && #[trigger] (p % size) == i
}

/// The slots of a file hold what the log keeps up to `upto`.
pub open spec fn mirrors(slots: Seq<u8>, log: Log, upto: int) -> bool {
    &&& slots.len() == log.capacity
    &&& forall|p: int|
        log.start() <= p < upto && upto - log.capacity <= p ==> #[trigger] slots[p % (
        log.capacity as int)] == log.bytes[p - log.start()]
}

/// A flush in progress: what lies before `at` is written.
#[derive(Debug, Clone, Copy, PartialEq, Eq, Structural)]
pub struct FlushCycle {
    pub at: u64,
    pub target: u64,
}

/// What comes next in a flush.
pub enum FlushStep {
    /// Write these.
    Write(Vec<Segment>),
    /// All is written.
    Done,
    /// What comes next was overwritten in memory: the flush ends here.
    Lost,
}

/// What a flusher does when there is nothing to write.
#[derive(Debug, Clone, Copy, PartialEq, Eq, Structural)]
pub struct IdleStep {
    /// Sync the file all the same.
    pub sync: bool,
    /// Then sleep for so many microseconds.
    pub sleep_us: u64,
}

/// When there is nothing to write, the file is synced once a millisecond.
pub open spec fn idle(since_sync_us: u64) -> IdleStep {
    if since_sync_us >= 1000 {
        IdleStep { sync: true, sleep_us: 300 }
    } else {
        IdleStep { sync: false, sleep_us: 200 }
    }
}

/// What a flusher does that has nothing to write, so long after the last sync.
pub fn idle_step(since_sync_us: u64) -> (step: IdleStep)
    ensures
        step == idle(since_sync_us),
{
    if since_sync_us >= 1000 {
        IdleStep { sync: true, sleep_us: 300 }
    } else {
        IdleStep { sync: false, sleep_us: 200 }
    }
}

/// These segments take a flush from `c` to `d`: at most a chunk further, and
/// all of it goes to its slots.
pub open spec fn is_part(log: Log, c: FlushCycle, d: FlushCycle, segments: Seq<Segment>) -> bool {
    &&& d.target == c.target
    &&& c.at < d.at <= c.target
    &&& d.at == c.at + FLUSH_CHUNK || d.at == c.target
    &&& d.at <= c.at + FLUSH_CHUNK
    &&& log.start() <= c.at
    &&& forall|slots: Seq<u8>|
        slots.len() == log.capacity ==> is_flushed(
            slots,
            #[trigger] all_written(slots, segments),
            log,
            c.at as int,
            d.at as int,
        )
    &&& forall|i: int|
        0 <= i < segments.len() ==> FILE_HEADER_SIZE <= (#[trigger] segments[i]).at
            && segments[i].at + segments[i].bytes@.len() <= FILE_HEADER_SIZE + log.capacity
}

/// Where a flush up to `target` starts: at the durable position, or, where more
/// is new than the ring holds, at the oldest byte that memory still has.
pub open spec fn flush_start(durable: int, target: int, capacity: int) -> int {
    if target - durable > capacity {
        target - capacity
    } else {
        durable
    }
}

/// What is in a file: its header and its slots.
pub open spec fn recovered(head: Seq<u8>, slots: Seq<u8>) -> Result<Log, RecoverError> {
    match header::decoded(head) {
        None => Err(RecoverError::Corrupt),
        Some(h) => if h.capacity == slots.len() && legal_size(slots.len()) {
            Ok(mem::restored(slots, h.committed as nat))
        } else {
            Err(RecoverError::WrongSize)
        },
    }
}

/// A ring can have this size.
pub open spec fn legal_size(n: nat) -> bool {
    &&& MIN_CAPACITY <= n <= isize::MAX as usize / 2 + 1
    &&& modulo::is_power_of_two(n)
}

/// Whether a ring can have this size.
pub fn is_legal_size(n: usize) -> (yes: bool)
    ensures
        yes == legal_size(n as nat),
{
    if n < MIN_CAPACITY || n > isize::MAX as usize / 2 + 1 {
        return false;
    }
    let p: usize = modulo::next_power_of_two(n);
    proof {
        if modulo::is_power_of_two(n as nat) {
            modulo::powers_do_not_lie_between(n as nat, p as nat);
        }
    }
    p == n
}

/// The length of the file of a ring.
pub fn file_len(capacity: usize) -> (n: u64)
    requires
        capacity <= isize::MAX,
    ensures
        n == FILE_HEADER_SIZE + capacity,
{
    FILE_HEADER_SIZE as u64 + capacity as u64
}

/// A ring in memory that is kept in a file.
pub struct FileRing {
    inner: MemRing,
    synced: u64,
}

impl FileRing {
    /// A new ring for `capacity` bytes.
    pub fn create(capacity: usize) -> (ring: FileRing)
        requires
            capacity <= isize::MAX as usize / 2 + 1,
        ensures
            ring.wf(),
            mem::is_ring_size(ring.log().capacity, capacity as nat),
            ring.log().end == 0,
            ring.log().keep_from is None,
            ring.watermark() == u64::MAX,
            ring.durable() == 0,
    {
        FileRing { inner: MemRing::new(capacity), synced: 0 }
    }

    /// The ring that a file holds, up to the position that its header commits
    /// to. What was written beyond is not there.
    pub fn recover(head: &[u8], slots: Vec<u8>) -> (r: Result<FileRing, RecoverError>)
        ensures
            match r {
                Ok(ring) => {
                    &&& ring.wf()
                    &&& recovered(head@, slots@) == Ok::<Log, RecoverError>(ring.log())
                    &&& ring.durable() == ring.log().end
                    &&& ring.watermark() == u64::MAX
                },
                Err(e) => recovered(head@, slots@) == Err::<Log, RecoverError>(e),
            },
    {
        match decode_header(head) {
            None => Err(RecoverError::Corrupt),
            Some(h) => if h.capacity == slots.len() as u64 && is_legal_size(slots.len()) {
                Ok(FileRing { inner: MemRing::restore(slots, h.committed), synced: h.committed })
            } else {
                Err(RecoverError::WrongSize)
            },
        }
    }

    /// The size of the ring.
    pub fn capacity(&self) -> (n: usize)
        requires
            self.wf(),
        ensures
            n == self.log().capacity,
    {
        self.inner.capacity()
    }

    /// The slots of the ring, as they lie in memory.
    pub fn slots(&self) -> (s: &[u8])
        requires
            self.wf(),
        ensures
            s@.len() == self.log().capacity,
            mem::restored(s@, self.log().end).bytes == self.log().bytes,
    {
        self.inner.slots()
    }

    /// Chooses between overwriting the oldest bytes and refusing a record
    /// that would overwrite bytes from the watermark on.
    pub fn set_reject_overflow(&mut self, reject: bool)
        requires
            old(self).wf(),
        ensures
            final(self).wf(),
            final(self).durable() == old(self).durable(),
            final(self).watermark() == old(self).watermark(),
            final(self).log() == (Log {
                keep_from: if reject {
                    Some(old(self).watermark())
                } else {
                    None
                },
                ..old(self).log()
            }),
    {
        self.inner.set_reject_overflow(reject);
    }

    /// The watermark, whether or not it is heeded.
    pub closed spec fn watermark(&self) -> u64 {
        self.inner.watermark()
    }

    /// A flush fits a ring: it has not passed its target, and the target not
    /// the end of the log.
    pub open spec fn admits(&self, c: FlushCycle) -> bool {
        &&& c.at <= c.target <= self.log().end
        &&& c.target - c.at <= self.log().capacity
    }

    /// Starts a flush of all that is new and still kept.
    pub fn begin_flush(&self) -> (c: FlushCycle)
        requires
            self.wf(),
        ensures
            self.admits(c),
            c.at == c.target <==> self.durable() == self.log().end,
            c.target == self.log().end,
            c.at == flush_start(
                self.durable() as int,
                self.log().end as int,
                self.log().capacity as int,
            ),
    {
        let target: u64 = self.inner.committed_pos();
        let size: u64 = self.inner.capacity() as u64;
        if target - self.synced > size {
            FlushCycle { at: target - size, target }
        } else {
            FlushCycle { at: self.synced, target }
        }
    }

    /// The next part of a flush: at most a chunk, cut in two where it goes
    /// round the end of the ring.
    pub fn next_write(&self, c: &mut FlushCycle) -> (step: FlushStep)
        requires
            self.wf(),
            self.admits(*old(c)),
        ensures
            self.admits(*final(c)),
            final(c).target == old(c).target,
            match step {
                FlushStep::Done => old(c).at == old(c).target && *final(c) == *old(c),
                FlushStep::Lost => old(c).at < self.log().start() && old(c).at < old(c).target
                    && *final(c) == *old(c),
                FlushStep::Write(segments) => is_part(self.log(), *old(c), *final(c), segments@),
            },
    {
        if c.at == c.target {
            return FlushStep::Done;
        }
        proof {
            self.inner.log_is_wf();
        }
        let left: u64 = c.target - c.at;
        let chunk: u64 = if left < FLUSH_CHUNK {
            left
        } else {
            FLUSH_CHUNK
        };
        let mut buf: Vec<u8> = Vec::new();
        match self.inner.read(c.at, chunk as u32, &mut buf) {
            Err(_) => FlushStep::Lost,
            Ok(()) => {
                let ghost log = self.log();
                let ghost from = c.at as int;
                let ghost to = c.at + chunk;
                let size: usize = self.inner.capacity();
                let slot: usize = (c.at % (size as u64)) as usize;
                let n: usize = chunk as usize;
                let mut segments: Vec<Segment> = Vec::new();
                if n <= size - slot {
                    segments.push(Segment { at: FILE_HEADER_SIZE as u64 + slot as u64, bytes: buf });
                    proof {
                        let s = segments@[0];
                        assert forall|slots: Seq<u8>| slots.len() == size implies is_flushed(
                            slots,
                            #[trigger] all_written(slots, segments@),
                            log,
                            from,
                            to,
                        ) by {
                            assert(segments@.drop_last() =~= Seq::<Segment>::empty());
                            assert(all_written(slots, segments@.drop_last()) == slots);
                            assert(all_written(slots, segments@) == written(slots, s));
                            one_segment_flushes(slots, log, from, to, s);
                        }
                    }
                } else {
                    let first: usize = size - slot;
                    let head = copy_bytes(slice_subrange(buf.as_slice(), 0, first));
                    let tail = copy_bytes(slice_subrange(buf.as_slice(), first, n));
                    segments.push(Segment { at: FILE_HEADER_SIZE as u64 + slot as u64, bytes: head });
                    segments.push(Segment { at: FILE_HEADER_SIZE as u64, bytes: tail });
                    proof {
                        let s = segments@[0];
                        let t = segments@[1];
                        assert forall|slots: Seq<u8>| slots.len() == size implies is_flushed(
                            slots,
                            #[trigger] all_written(slots, segments@),
                            log,
                            from,
                            to,
                        ) by {
                            assert(segments@.drop_last().drop_last() =~= Seq::<Segment>::empty());
                            assert(segments@.drop_last().last() == s);
                            assert(all_written(slots, segments@.drop_last().drop_last()) == slots);
                            assert(all_written(slots, segments@.drop_last()) == written(slots, s));
                            assert(all_written(slots, segments@) == written(written(slots, s), t));
                            two_segments_flush(slots, log, from, to, s, t);
                        }
                    }
                }
                c.at = c.at + chunk;
                FlushStep::Write(segments)
            },
        }
    }

    /// The header that commits to what a flush has written.
    pub fn commit_header(&self, c: &FlushCycle) -> (bytes: Vec<u8>)
        requires
            self.wf(),
            self.admits(*c),
        ensures
            bytes@ == (RingHeader {
                capacity: self.log().capacity as u64,
                committed: c.at,
                write_pos: self.log().end as u64,
            }).encoded(),
    {
        encode_header(
            RingHeader {
                capacity: self.inner.capacity() as u64,
                committed: c.at,
                write_pos: self.inner.committed_pos(),
            },
        )
    }

    /// Moves the durable position to what a flush has made safe, never back.
    /// To be called when slots and header are synced.
    pub fn finish_flush(&mut self, c: &FlushCycle) -> (pos: u64)
        requires
            old(self).wf(),
            old(self).admits(*c),
        ensures
            final(self).wf(),
            final(self).log() == old(self).log(),
            final(self).durable() == if c.at as nat > old(self).durable() {
                c.at as nat
            } else {
                old(self).durable()
            },
            pos == final(self).durable(),
    {
        if c.at > self.synced {
            self.synced = c.at;
        }
        self.synced
    }
}

proof fn one_segment_flushes(slots: Seq<u8>, log: Log, from: int, to: int, s: Segment)
    requires
        log.wf(),
        slots.len() == log.capacity,
        log.holds(from, to - from),
        0 <= from < to,
        s.at == FILE_HEADER_SIZE + from % (log.capacity as int),
        s.bytes@ == log.at(from, to - from),
        from % (log.capacity as int) + (to - from) <= log.capacity,
    ensures
        is_flushed(slots, written(slots, s), log, from, to),
{
    let size = log.capacity as int;
    let after = written(slots, s);
    modulo::slot_further(from, 0, size);
    assert forall|p: int| from <= p < to implies #[trigger] after[p % size] == log.bytes[p
        - log.start()] by {
        modulo::slot_further(from, p - from, size);
        assert(s.bytes@[p - from] == log.bytes[p - log.start()]);
    }
    assert forall|i: int| 0 <= i < slots.len() && !slot_in(i, size, from, to) implies (
    #[trigger] after[i]) == slots[i] by {
        let k = i - from % size;
        if 0 <= k < to - from {
            modulo::slot_further(from, k, size);
            assert((from + k) % size == i);
        }
    }
}

proof fn two_segments_flush(
    slots: Seq<u8>,
    log: Log,
    from: int,
    to: int,
    s: Segment,
    t: Segment,
)
    requires
        log.wf(),
        slots.len() == log.capacity,
        log.holds(from, to - from),
        0 <= from < to,
        to - from <= log.capacity,
        from % (log.capacity as int) + (to - from) > log.capacity,
        s.at == FILE_HEADER_SIZE + from % (log.capacity as int),
        t.at == FILE_HEADER_SIZE,
        ({
            let first = log.capacity - from % (log.capacity as int);
            &&& s.bytes@ == log.at(from, to - from).subrange(0, first)
            &&& t.bytes@ == log.at(from, to - from).subrange(first, to - from)
        }),
    ensures
        is_flushed(slots, written(written(slots, s), t), log, from, to),
{
    let size = log.capacity as int;
    let first = size - from % size;
    let after = written(written(slots, s), t);
    modulo::slot_further(from, 0, size);
    assert forall|p: int| from <= p < to implies #[trigger] after[p % size] == log.bytes[p
        - log.start()] by {
        let k = p - from;
        modulo::slot_further(from, k, size);
        assert(log.at(from, to - from)[k] == log.bytes[p - log.start()]);
        if k < first {
            assert(s.bytes@[k] == log.at(from, to - from)[k]);
        } else {
            assert(t.bytes@[k - first] == log.at(from, to - from)[k]);
        }
    }
    assert forall|i: int| 0 <= i < slots.len() && !slot_in(i, size, from, to) implies (
    #[trigger] after[i]) == slots[i] by {
        if i < t.bytes@.len() {
            let k = first + i;
            modulo::slot_further(from, k, size);
            assert((from + k) % size == i);
        } else if i >= from % size {
            let k = i - from % size;
            modulo::slot_further(from, k, size);
            assert((from + k) % size == i);
        }
    }
}

impl Store for FileRing {
    closed spec fn wf(&self) -> bool {
        &&& self.inner.wf()
        &&& self.synced <= self.inner.log().end
    }

    closed spec fn log(&self) -> Log {
        self.inner.log()
    }

    closed spec fn durable(&self) -> nat {
        self.synced as nat
    }

    proof fn log_is_wf(&self) {
        self.inner.log_is_wf();
    }

    /// An append does not touch what is durable.
    fn append(&mut self, topic: &[u8], payload: &[u8]) -> (r: Result<(u64, u32), StoreError>)
        ensures
            final(self).durable() == old(self).durable(),
            final(self).watermark() == old(self).watermark(),
    {
        proof {
            self.inner.log_is_wf();
            retention::append_keeps_wf(self.inner.log(), log::record(topic@, payload@));
        }
        self.inner.append(topic, payload)
    }

    fn rejects_overflow(&self) -> (yes: bool) {
        self.inner.rejects_overflow()
    }

    fn attach_watermark(&mut self, watermark: u64)
        ensures
            final(self).durable() == old(self).durable(),
            final(self).watermark() == watermark,
    {
        self.inner.attach_watermark(watermark);
    }

    fn read(&self, offset: u64, len: u32, out: &mut Vec<u8>) -> (r: Result<(), StoreError>) {
        self.inner.read(offset, len, out)
    }

    fn write_pos(&self) -> (pos: u64) {
        self.inner.write_pos()
    }

    fn durable_pos(&self) -> (pos: u64) {
        self.synced
    }
}

/// A flusher with nothing to write syncs where a millisecond has gone by since
/// the last time, and at no other time; it sleeps for less than half of one.
pub proof fn idle_flushers_sync_each_millisecond(since_sync_us: u64)
    ensures
        idle(since_sync_us).sync <==> since_sync_us >= 1000,
        idle(since_sync_us).sleep_us == if since_sync_us >= 1000 {
            300u64
        } else {
            200
        },
{
}

/// The sizes that a ring file may have are those that rings have.
pub proof fn file_sizes_are_ring_sizes(n: nat)
    ensures
        legal_size(n) <==> mem::is_ring_size(n, n) && n <= isize::MAX as usize / 2 + 1,
{
}

/// A file gives back a log where its header can be read and names the size that
/// the file has, and that a ring may have: as many bytes as were committed.
/// Else it is told which of the two is wrong.
pub proof fn recovery_rests_on_the_header(h: RingHeader, more: Seq<u8>, slots: Seq<u8>)
    ensures
        ({
            let r = recovered(h.encoded() + more, slots);
            if h.capacity == slots.len() && legal_size(slots.len()) {
                &&& r matches Ok(log) && log.end == h.committed && log.capacity == slots.len()
                    && log.keep_from is None
            } else {
                r == Err::<Log, RecoverError>(RecoverError::WrongSize)
            }
        }),
{
    header::header_round_trip(h, more);
}

/// A flush goes on by a mebibyte at a time, and by what is left at its end.
pub proof fn flushes_go_by_mebibytes(
    log: Log,
    c: FlushCycle,
    d: FlushCycle,
    segments: Seq<Segment>,
)
    requires
        is_part(log, c, d, segments),
    ensures
        d.at - c.at == if c.target - c.at > 1048576 {
            1048576
        } else {
            c.target - c.at
        },
        d.target == c.target,
{
}

} // verus!
