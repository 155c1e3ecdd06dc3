//! The in-memory ring.

use super::log;
use super::log::{Log, Store, StoreError};
use super::modulo;
use crate::protocol::wire;
use vstd::prelude::*;

verus! {

broadcast use crate::protocol::wire::be32_len;

/// Smallest ring.
pub const MIN_CAPACITY: usize = 65536;

/// Size of the ring that `with_default` makes: 256 MiB.
pub const DEFAULT_CAPACITY: usize = 268435456;

/// A ring of bytes. The byte at log position `p` lies in slot
/// `p % buf.len()`.
pub struct MemRing {
    buf: Vec<u8>,
    write_pos: u64,
    reject_overflow: bool,
    watermark: u64,
}

/// The bytes from `from` to `to` of a log whose last bytes lie in `buf`.
pub open spec fn ring_bytes(buf: Seq<u8>, from: int, to: int) -> Seq<u8> {
    Seq::new((to - from) as nat, |i: int| buf[(from + i) % (buf.len() as int)])
}

/// The log of a ring whose slots hold `image`, written up to `end`.
pub open spec fn restored(image: Seq<u8>, end: nat) -> Log {
    let shape = Log { capacity: image.len(), end, bytes: Seq::empty(), keep_from: None };
    Log { bytes: ring_bytes(image, shape.start() as int, end as int), ..shape }
}

/// The size of a ring made for `wanted` bytes: the least power of two that
/// is large enough, and no less than the smallest ring.
pub open spec fn is_ring_size(size: nat, wanted: nat) -> bool {
    &&& modulo::is_power_of_two(size)
    &&& size >= wanted
    &&& size >= MIN_CAPACITY
    &&& size / 2 < wanted || size == MIN_CAPACITY
}

/// The size of a ring made for `wanted` bytes.
pub fn ring_size(wanted: usize) -> (size: usize)
    requires
        wanted <= isize::MAX as usize / 2 + 1,
    ensures
        is_ring_size(size as nat, wanted as nat),
        size <= isize::MAX as usize / 2 + 1,
{
    let size: usize = modulo::next_power_of_two(wanted);
    if size < MIN_CAPACITY {
        proof {
            vstd::arithmetic::power2::lemma2_to64();
            assert(MIN_CAPACITY == vstd::arithmetic::power2::pow2(16));
        }
        MIN_CAPACITY
    } else {
        size
    }
}

impl MemRing {
    /// An empty ring for `capacity` bytes.
    pub fn new(capacity: usize) -> (ring: MemRing)
        requires
            capacity <= isize::MAX as usize / 2 + 1,
        ensures
            ring.wf(),
            is_ring_size(ring.log().capacity, capacity as nat),
            ring.log().end == 0,
            ring.log().keep_from is None,
            ring.watermark() == u64::MAX,
    {
        let size: usize = ring_size(capacity);
        MemRing { buf: vec![0u8; size], write_pos: 0, reject_overflow: false, watermark: u64::MAX }
    }

    /// An empty ring of 256 MiB.
    pub fn with_default() -> (ring: MemRing)
        ensures
            ring.wf(),
            is_ring_size(ring.log().capacity, DEFAULT_CAPACITY as nat),
            ring.log().capacity == 268435456,
            ring.log().end == 0,
            ring.log().keep_from is None,
            ring.watermark() == u64::MAX,
    {
        let ring = MemRing::new(DEFAULT_CAPACITY);
        proof {
            vstd::arithmetic::power2::lemma2_to64();
            assert(DEFAULT_CAPACITY == vstd::arithmetic::power2::pow2(28));
            ring_sizes_are_least(ring.log().capacity, DEFAULT_CAPACITY as nat, 268435456);
        }
        ring
    }

    /// A ring whose slots hold `image`, written up to `end`.
    pub(crate) fn restore(image: Vec<u8>, end: u64) -> (ring: MemRing)
        requires
            MIN_CAPACITY <= image@.len() <= isize::MAX as usize / 2 + 1,
            modulo::is_power_of_two(image@.len()),
        ensures
            ring.wf(),
            ring.log() == restored(image@, end as nat),
            ring.watermark() == u64::MAX,
    {
        MemRing { buf: image, write_pos: end, reject_overflow: false, watermark: u64::MAX }
    }

    /// Chooses between overwriting the oldest bytes and refusing a record
    /// that would overwrite bytes from the watermark on.
    pub fn set_reject_overflow(&mut self, reject: bool)
        requires
            old(self).wf(),
        ensures
            final(self).wf(),
            final(self).log() == (Log {
                keep_from: if reject {
                    Some(old(self).watermark())
                } else {
                    None
                },
                ..old(self).log()
            }),
            final(self).watermark() == old(self).watermark(),
    {
        self.reject_overflow = reject;
    }

    /// The watermark, whether or not it is heeded.
    pub closed spec fn watermark(&self) -> u64 {
        self.watermark
    }

    /// The position up to which every record is completely copied.
    pub fn committed_pos(&self) -> (pos: u64)
        requires
            self.wf(),
        ensures
            pos == self.log().end,
    {
        self.write_pos
    }

    /// The size of the ring.
    pub fn capacity(&self) -> (n: usize)
        requires
            self.wf(),
        ensures
            n == self.log().capacity,
            n >= MIN_CAPACITY,
    {
        self.buf.len()
    }

    /// The slots of the ring, as they lie in memory.
    pub fn slots(&self) -> (s: &[u8])
        requires
            self.wf(),
        ensures
            s@.len() == self.log().capacity,
            restored(s@, self.log().end).bytes == self.log().bytes,
    {
        self.buf.as_slice()
    }

    /// The slot of a log position.
    fn slot(&self, pos: u64) -> (i: usize)
        requires
            self.wf(),
        ensures
            i == pos % (self.buf@.len() as u64),
            i < self.buf@.len(),
    {
        (pos % (self.buf.len() as u64)) as usize
    }
}

impl Store for MemRing {
    closed spec fn wf(&self) -> bool {
        &&& MIN_CAPACITY <= self.buf@.len() <= isize::MAX as usize / 2 + 1
        &&& modulo::is_power_of_two(self.buf@.len())
    }

    closed spec fn log(&self) -> Log {
        let shape = Log {
            capacity: self.buf@.len(),
            end: self.write_pos as nat,
            bytes: Seq::empty(),
            keep_from: if self.reject_overflow {
                Some(self.watermark)
            } else {
                None
            },
        };
        Log { bytes: ring_bytes(self.buf@, shape.start() as int, shape.end as int), ..shape }
    }

    open spec fn durable(&self) -> nat {
        self.log().end
    }

    proof fn log_is_wf(&self) {
    }

    fn append(&mut self, topic: &[u8], payload: &[u8]) -> (r: Result<(u64, u32), StoreError>)
        ensures
            final(self).watermark() == old(self).watermark(),
    {
        let rec_len: u64 = 8 + topic.len() as u64 + payload.len() as u64;
        if rec_len > (self.buf.len() / 2) as u64 {
            return Err(StoreError::Full);
        }
        if self.reject_overflow && self.watermark <= u64::MAX - self.buf.len() as u64 && self.write_pos
            + rec_len > self.watermark + self.buf.len() as u64 {
            return Err(StoreError::Overflow);
        }
        let mut rec: Vec<u8> = Vec::with_capacity(rec_len as usize);
        wire::put_u32(&mut rec, topic.len() as u32);
        wire::put_u32(&mut rec, payload.len() as u32);
        wire::put_bytes(&mut rec, topic);
        wire::put_bytes(&mut rec, payload);
        assert(rec@ =~= log::record(topic@, payload@));
        let offset: u64 = self.write_pos;
        let size: usize = self.buf.len();
        let ghost cap = size as int;
        let ghost before = self.log();
        let ghost after = before.appended(rec@);
        let mut slot: usize = self.slot(offset);
        let mut i: usize = 0;
        while i < rec.len()
            invariant
                rec@.len() <= size,
                size == cap,
                size == self.buf@.len(),
                size >= MIN_CAPACITY,
                i <= rec@.len(),
                slot == (offset + i) % cap,
                slot < size,
                self.write_pos == old(self).write_pos,
                self.reject_overflow == old(self).reject_overflow,
                self.watermark == old(self).watermark,
                offset == self.write_pos,
                before == old(self).log(),
                before.end == offset,
                before.capacity == cap,
                after == before.appended(rec@),
                before.wf(),
                offset + rec@.len() <= u64::MAX,
                forall|p: int|
                    after.start() <= p < offset ==> self.buf@[#[trigger] (p % cap)]
                        == before.bytes[p - before.start()],
                forall|p: int|
                    offset <= p < offset + i ==> self.buf@[#[trigger] (p % cap)] == rec@[p
                        - offset],
            decreases rec@.len() - i,
        {
            let ghost now = self.buf@;
            self.buf[slot] = rec[i];
            proof {
                assert forall|p: int| after.start() <= p < offset + i implies self.buf@[#[trigger] (p
                    % cap)] == now[p % cap] by {
                    modulo::next_slot(p, cap);
                    if p % cap == slot {
                        modulo::slots_are_distinct(p, offset + i, cap);
                    }
                }
                modulo::next_slot(offset + i, cap);
            }
            slot = if slot + 1 == size {
                0
            } else {
                slot + 1
            };
            i = i + 1;
        }
        self.write_pos = offset + rec_len;
        proof {
            assert(self.log().bytes =~= after.bytes) by {
                assert forall|j: int| 0 <= j < after.bytes.len() implies self.log().bytes[j]
                    == after.bytes[j] by {
                    let p = after.start() + j;
                    assert(self.log().bytes[j] == self.buf@[p % cap]);
                }
            }
            assert(self.log() =~= after);
        }
        Ok((offset, rec_len as u32))
    }

    fn rejects_overflow(&self) -> (yes: bool) {
        self.reject_overflow
    }

    fn attach_watermark(&mut self, watermark: u64)
        ensures
            final(self).watermark() == watermark,
    {
        self.watermark = watermark;
    }

    fn read(&self, offset: u64, len: u32, out: &mut Vec<u8>) -> (r: Result<(), StoreError>) {
        let cur: u64 = self.write_pos;
        if offset > cur || len as u64 > cur - offset {
            return Err(StoreError::InvalidOffset);
        }
        if cur - offset > self.buf.len() as u64 {
            return Err(StoreError::NotFound);
        }
        out.clear();
        out.reserve(len as usize);
        let size: usize = self.buf.len();
        let mut slot: usize = self.slot(offset);
        let mut i: u32 = 0;
        let ghost cap = size as int;
        let ghost log = self.log();
        while i < len
            invariant
                i <= len,
                size == self.buf@.len(),
                size == cap,
                size > 0,
                slot < size,
                slot == (offset + i) % cap,
                offset + len <= self.write_pos,
                log == self.log(),
                log.start() <= offset,
                log.bytes == ring_bytes(self.buf@, log.start() as int, log.end as int),
                log.end == self.write_pos,
                out@ == log.at(offset as int, i as int),
            decreases len - i,
        {
            assert(log.bytes[offset + i - log.start()] == self.buf@[(offset + i) % cap]);
            out.push(self.buf[slot]);
            proof {
                modulo::next_slot(offset + i, cap);
                assert(out@ =~= log.at(offset as int, i + 1));
            }
            slot = if slot + 1 == size {
                0
            } else {
                slot + 1
            };
            i = i + 1;
        }
        Ok(())
    }

    fn write_pos(&self) -> (pos: u64) {
        self.write_pos
    }

    fn durable_pos(&self) -> (pos: u64) {
        self.write_pos
    }
}

/// The size of a ring is the least that will do: no other power of two that is
/// large enough, and not below the smallest ring, is smaller.
pub proof fn ring_sizes_are_least(size: nat, wanted: nat, other: nat)
    requires
        is_ring_size(size, wanted),
        modulo::is_power_of_two(other),
        other >= wanted,
        other >= 65536,
    ensures
        size <= other,
        size >= wanted,
        size >= 65536,
{
    if other < size {
        let k = choose|k: nat| size == #[trigger] vstd::arithmetic::power2::pow2(k);
        let j = choose|j: nat| other == #[trigger] vstd::arithmetic::power2::pow2(j);
        if j >= k {
            if j > k {
                vstd::arithmetic::power2::lemma_pow2_strictly_increases(k, j);
            }
        } else {
            vstd::arithmetic::power2::lemma_pow2_unfold(k);
            if j < k - 1 {
                vstd::arithmetic::power2::lemma_pow2_strictly_increases(j, (k - 1) as nat);
            }
        }
    }
}

/// The log of an image has the byte of each position in the slot that the
/// position leaves when the size is taken off as often as it goes.
pub proof fn images_are_read_round(image: Seq<u8>, end: nat, turns: nat, slot: int)
    requires
        image.len() > 0,
        0 <= slot < image.len(),
        turns * image.len() + slot < end,
        end <= (turns + 1) * image.len() + slot,
    ensures
        ({
            let p = turns * image.len() + slot;
            let l = restored(image, end);
            l.start() <= p && l.bytes[p - l.start()] == image[slot]
        }),
{
    let size = image.len() as int;
    let p = turns * image.len() + slot;
    assert(p >= end - size) by (nonlinear_arith)
        requires
            end <= (turns + 1) * size + slot,
            p == turns * size + slot,
    ;
    assert(p >= 0) by (nonlinear_arith)
        requires
            p == turns * size + slot,
            size > 0,
            slot >= 0,
            turns >= 0,
    ;
    vstd::arithmetic::div_mod::lemma_fundamental_div_mod_converse(
        p as int,
        size,
        turns as int,
        slot,
    );
}

} // verus!
