//! The header of a ring file: 128 bytes, made of two equal slots of 64 bytes,
//! each with its own checksum.
//!
//! ```text
//! [0..4]    magic
//! [4..8]    version
//! [8..16]   size of the ring
//! [16..24]  position up to which the ring is committed
//! [24..32]  position up to which the ring was written
//! [32..60]  zero
//! [60..64]  CRC-32 of the bytes before it
//! ```

use crate::protocol::wire;
use vstd::prelude::*;

verus! {

broadcast use crate::protocol::wire::be32_len;

/// Bytes of a slot.
pub const SLOT_SIZE: usize = 64;

/// Bytes of the header.
pub const FILE_HEADER_SIZE: usize = 128;

/// The first bytes of a slot: `ZSEG`.
pub const MAGIC: u32 = 0x5a534547;

/// The version of the layout.
pub const VERSION: u32 = 2;

/// One step of the checksum.
pub open spec fn crc_bit(c: u32) -> u32 {
    if c & 1 == 1 {
        (c >> 1) ^ 0xedb8_8320
    } else {
        c >> 1
    }
}

/// Several steps of the checksum.
pub open spec fn crc_bits(c: u32, n: nat) -> u32
    decreases n,
{
    if n == 0 {
        c
    } else {
        crc_bit(crc_bits(c, (n - 1) as nat))
    }
}

/// The register after the bytes of `s`: eight steps for each byte.
pub open spec fn crc_register(s: Seq<u8>) -> u32
    decreases s.len(),
{
    if s.len() == 0 {
        0xffff_ffff
    } else {
        crc_bits(crc_register(s.drop_last()) ^ (s.last() as u32), 8)
    }
}

/// The CRC-32 checksum, in its common reflected form.
pub open spec fn crc32(s: Seq<u8>) -> u32 {
    crc_register(s) ^ 0xffff_ffff
}

/// The CRC-32 checksum of the first `n` bytes.
pub fn crc32_of(bytes: &[u8], n: usize) -> (c: u32)
    requires
        n <= bytes@.len(),
    ensures
        c == crc32(bytes@.take(n as int)),
{
    let mut c: u32 = 0xffff_ffff;
    let mut i: usize = 0;
    while i < n
        invariant
            i <= n,
            n <= bytes@.len(),
            c == crc_register(bytes@.take(i as int)),
        decreases n - i,
    {
        assert(bytes@.take(i + 1).drop_last() =~= bytes@.take(i as int));
        let start: u32 = c ^ (bytes[i] as u32);
        let mut r: u32 = start;
        let mut k: usize = 0;
        while k < 8
            invariant
                k <= 8,
                r == crc_bits(start, k as nat),
            decreases 8 - k,
        {
            r = if r & 1 == 1 {
                (r >> 1) ^ 0xedb8_8320
            } else {
                r >> 1
            };
            k = k + 1;
        }
        c = r;
        i = i + 1;
    }
    c ^ 0xffff_ffff
}

/// What the header says.
#[derive(Debug, Clone, Copy, PartialEq, Eq, Structural)]
pub struct RingHeader {
    /// Bytes of the ring.
    pub capacity: u64,
    /// Up to here the ring is safe.
    pub committed: u64,
    /// Up to here the ring was written when the header was.
    pub write_pos: u64,
}

impl RingHeader {
    /// The bytes of a slot in front of its checksum.
    pub open spec fn body(self) -> Seq<u8> {
        wire::be32(MAGIC) + wire::be32(VERSION) + wire::be64(self.capacity) + wire::be64(
            self.committed,
        ) + wire::be64(self.write_pos) + Seq::new(28, |i: int| 0u8)
    }

    /// The bytes of a slot.
    pub open spec fn slot(self) -> Seq<u8> {
        self.body() + wire::be32(crc32(self.body()))
    }

    /// The bytes of the header: the slot, twice.
    pub open spec fn encoded(self) -> Seq<u8> {
        self.slot() + self.slot()
    }
}

/// What the slot at `at` of `s` says, where it is whole.
pub open spec fn slot_at(s: Seq<u8>, at: int) -> Option<RingHeader> {
    if s.len() >= at + SLOT_SIZE && wire::u32_at(s, at) == MAGIC && wire::u32_at(s, at + 4)
        == VERSION && wire::u32_at(s, at + 60) == crc32(s.subrange(at, at + 60)) {
        Some(
            RingHeader {
                capacity: wire::u64_at(s, at + 8),
                committed: wire::u64_at(s, at + 16),
                write_pos: wire::u64_at(s, at + 24),
            },
        )
    } else {
        None
    }
}

/// What a header says: its first slot, or the second where the first is
/// broken.
pub open spec fn decoded(s: Seq<u8>) -> Option<RingHeader> {
    match slot_at(s, 0) {
        Some(h) => Some(h),
        None => slot_at(s, SLOT_SIZE as int),
    }
}

/// A slot reads back as what it was made of, wherever it stands.
pub proof fn slot_round_trip(h: RingHeader, s: Seq<u8>, at: int)
    requires
        0 <= at,
        at + SLOT_SIZE <= s.len(),
        s.subrange(at, at + SLOT_SIZE) == h.slot(),
    ensures
        slot_at(s, at) == Some(h),
        h.slot().len() == SLOT_SIZE,
{
    let b = s.subrange(at, at + 64);
    assert(s.subrange(at, at + 4) =~= b.subrange(0, 4));
    assert(s.subrange(at + 4, at + 8) =~= b.subrange(4, 8));
    assert(s.subrange(at + 8, at + 16) =~= b.subrange(8, 16));
    assert(s.subrange(at + 16, at + 24) =~= b.subrange(16, 24));
    assert(s.subrange(at + 24, at + 32) =~= b.subrange(24, 32));
    assert(s.subrange(at + 60, at + 64) =~= b.subrange(60, 64));
    assert(s.subrange(at, at + 60) =~= b.subrange(0, 60));
    assert(b.subrange(0, 4) =~= wire::be32(MAGIC));
    assert(b.subrange(4, 8) =~= wire::be32(VERSION));
    assert(b.subrange(8, 16) =~= wire::be64(h.capacity));
    assert(b.subrange(16, 24) =~= wire::be64(h.committed));
    assert(b.subrange(24, 32) =~= wire::be64(h.write_pos));
    assert(b.subrange(0, 60) =~= h.body());
    assert(b.subrange(60, 64) =~= wire::be32(crc32(h.body())));
    wire::u32_round_trip(MAGIC, s, at);
    wire::u32_round_trip(VERSION, s, at + 4);
    wire::u64_round_trip(h.capacity, s, at + 8);
    wire::u64_round_trip(h.committed, s, at + 16);
    wire::u64_round_trip(h.write_pos, s, at + 24);
    wire::u32_round_trip(crc32(h.body()), s, at + 60);
}

/// A header reads back as what it was made of, whatever follows it.
pub proof fn header_round_trip(h: RingHeader, more: Seq<u8>)
    ensures
        decoded(h.encoded() + more) == Some(h),
        h.encoded().len() == FILE_HEADER_SIZE,
{
    let s = h.encoded() + more;
    assert(h.slot().len() == 64);
    assert(s.subrange(0, 64) =~= h.slot());
    slot_round_trip(h, s, 0);
}

/// Either slot carries the header: where the first is lost and noticed as
/// such, whatever is in its place, the second says what was written.
pub proof fn replica_survives(h: RingHeader, s: Seq<u8>)
    requires
        s.len() >= FILE_HEADER_SIZE,
        s.subrange(64, 128) == h.slot(),
        slot_at(s, 0) is None,
    ensures
        decoded(s) == Some(h),
{
    slot_round_trip(h, s, 64);
}

/// Appends a slot.
fn put_slot(buf: &mut Vec<u8>, h: RingHeader)
    ensures
        final(buf)@ == old(buf)@ + h.slot(),
{
    let mut slot: Vec<u8> = Vec::with_capacity(SLOT_SIZE);
    wire::put_u32(&mut slot, MAGIC);
    wire::put_u32(&mut slot, VERSION);
    wire::put_u64(&mut slot, h.capacity);
    wire::put_u64(&mut slot, h.committed);
    wire::put_u64(&mut slot, h.write_pos);
    let zeros: Vec<u8> = vec![0u8; 28];
    wire::put_bytes(&mut slot, zeros.as_slice());
    assert(slot@ =~= h.body());
    assert(slot@.take(60) =~= h.body());
    let crc: u32 = crc32_of(slot.as_slice(), 60);
    wire::put_u32(&mut slot, crc);
    wire::put_bytes(buf, slot.as_slice());
}

/// The bytes of a header.
pub fn encode_header(h: RingHeader) -> (bytes: Vec<u8>)
    ensures
        bytes@ == h.encoded(),
{
    let mut bytes: Vec<u8> = Vec::with_capacity(FILE_HEADER_SIZE);
    put_slot(&mut bytes, h);
    put_slot(&mut bytes, h);
    assert(bytes@ =~= h.encoded());
    bytes
}

/// Reads the slot at `at`.
fn read_slot(bytes: &[u8], at: usize) -> (h: Option<RingHeader>)
    requires
        at + SLOT_SIZE <= bytes@.len(),
    ensures
        h == slot_at(bytes@, at as int),
{
    assert(at + 64 <= bytes.len());
    let slot = vstd::slice::slice_subrange(bytes, at, at + SLOT_SIZE);
    assert(slot@.take(60) =~= bytes@.subrange(at as int, at + 60));
    if wire::get_u32(bytes, at) == MAGIC && wire::get_u32(bytes, at + 4) == VERSION
        && wire::get_u32(bytes, at + 60) == crc32_of(slot, 60) {
        Some(
            RingHeader {
                capacity: wire::get_u64(bytes, at + 8),
                committed: wire::get_u64(bytes, at + 16),
                write_pos: wire::get_u64(bytes, at + 24),
            },
        )
    } else {
        None
    }
}

/// Reads a header.
pub fn decode_header(bytes: &[u8]) -> (h: Option<RingHeader>)
    ensures
        h == decoded(bytes@),
{
    if bytes.len() >= SLOT_SIZE {
        if let Some(h) = read_slot(bytes, 0) {
            return Some(h);
        }
    }
    if bytes.len() >= FILE_HEADER_SIZE {
        read_slot(bytes, SLOT_SIZE)
    } else {
        None
    }
}

/// What is read as a header was checked: one of the slots, the second only
/// where the first does not count, begins with `ZSEG` and the version, ends
/// with the checksum of the rest, and says what was read.
pub proof fn headers_are_checked(s: Seq<u8>)
    requires
        decoded(s) is Some,
    ensures
        ({
            let h = decoded(s)->0;
            let at = if slot_at(s, 0) is Some {
                0int
            } else {
                64
            };
            &&& s.len() >= at + 64
            &&& s.subrange(at, at + 4) == vstd::utf8::encode_utf8("ZSEG"@)
            &&& wire::u32_at(s, at + 4) == 2
            &&& wire::u32_at(s, at + 60) == crc32(s.subrange(at, at + 60))
            &&& h.capacity == wire::u64_at(s, at + 8)
            &&& h.committed == wire::u64_at(s, at + 16)
            &&& h.write_pos == wire::u64_at(s, at + 24)
        }),
{
    let at = if slot_at(s, 0) is Some {
        0int
    } else {
        64
    };
    reveal_strlit("ZSEG");
    vstd::utf8::is_ascii_chars_encode_utf8("ZSEG"@);
    reveal(wire::be32);
    wire::bytes_round_trip(s, at);
    assert(s.subrange(at, at + 4) =~= vstd::utf8::encode_utf8("ZSEG"@));
}

proof fn crc_bit_is_injective(a: u32, b: u32)
    requires
        a != b,
    ensures
        crc_bit(a) != crc_bit(b),
{
    assert((if a & 1 == 1 {
        (a >> 1) ^ 0xedb8_8320u32
    } else {
        a >> 1
    }) != (if b & 1 == 1 {
        (b >> 1) ^ 0xedb8_8320u32
    } else {
        b >> 1
    })) by (bit_vector)
        requires
            a != b,
    ;
}

proof fn crc_bits_are_injective(a: u32, b: u32, n: nat)
    requires
        a != b,
    ensures
        crc_bits(a, n) != crc_bits(b, n),
    decreases n,
{
    if n > 0 {
        crc_bits_are_injective(a, b, (n - 1) as nat);
        crc_bit_is_injective(crc_bits(a, (n - 1) as nat), crc_bits(b, (n - 1) as nat));
    }
}

/// A changed byte changes the checksum: byte strings of one length that differ
/// in one place have different ones.
pub proof fn changed_bytes_change_the_checksum(s: Seq<u8>, i: int, byte: u8)
    requires
        0 <= i < s.len(),
        s[i] != byte,
    ensures
        crc32(s.update(i, byte)) != crc32(s),
{
    registers_differ(s, i, byte);
    let (a, b) = (crc_register(s.update(i, byte)), crc_register(s));
    assert(a ^ 0xffff_ffffu32 != b ^ 0xffff_ffffu32) by (bit_vector)
        requires
            a != b,
    ;
}

proof fn registers_differ(s: Seq<u8>, i: int, byte: u8)
    requires
        0 <= i < s.len(),
        s[i] != byte,
    ensures
        crc_register(s.update(i, byte)) != crc_register(s),
    decreases s.len(),
{
    let t = s.update(i, byte);
    let (ra, rb) = (crc_register(t.drop_last()), crc_register(s.drop_last()));
    let (a, b) = (t.last() as u32, s.last() as u32);
    if i == s.len() - 1 {
        assert(t.drop_last() =~= s.drop_last());
        assert(ra ^ a != ra ^ b) by (bit_vector)
            requires
                a != b,
        ;
    } else {
        assert(t.drop_last() =~= s.drop_last().update(i, byte));
        registers_differ(s.drop_last(), i, byte);
        assert(ra ^ a != rb ^ a) by (bit_vector)
            requires
                ra != rb,
        ;
    }
    crc_bits_are_injective(ra ^ a, rb ^ b, 8);
}

/// A header survives the loss of any one byte: whatever stands in its place,
/// what was written is read.
pub proof fn one_broken_byte_is_harmless(h: RingHeader, i: int, byte: u8)
    requires
        0 <= i < 128,
    ensures
        decoded(h.encoded().update(i, byte)) == Some(h),
{
    let e = h.encoded();
    let s = e.update(i, byte);
    header_round_trip(h, Seq::empty());
    assert(e + Seq::<u8>::empty() =~= e);
    assert(h.slot().len() == 64);
    if e[i] == byte {
        assert(s =~= e);
    } else if i >= 64 {
        assert(s.subrange(0, 64) =~= h.slot());
        slot_round_trip(h, s, 0);
    } else {
        assert(s.subrange(64, 128) =~= h.slot());
        let body = h.body();
        assert(e.subrange(0, 60) =~= body);
        assert(e.subrange(60, 64) =~= wire::be32(crc32(body)));
        wire::u32_round_trip(crc32(body), e, 60);
        if i < 60 {
            changed_bytes_change_the_checksum(body, i, byte);
            assert(s.subrange(0, 60) =~= body.update(i, byte));
            wire::u32_at_depends_on_bytes(s, 60, e, 60);
        } else {
            assert(s.subrange(0, 60) =~= body);
            wire::bytes_round_trip(s, 60);
            wire::bytes_round_trip(e, 60);
            if wire::u32_at(s, 60) == wire::u32_at(e, 60) {
                assert(s.subrange(60, 64)[i - 60] == e.subrange(60, 64)[i - 60]);
            }
        }
        replica_survives(h, s);
    }
}

/// How a header is laid out: two equal slots of 64 bytes, each with `ZSEG`, the
/// version, the three numbers, zeros, and the checksum of what stands before
/// it.
pub proof fn headers_are_laid_out(h: RingHeader, i: int)
    ensures
        ({
            let s = h.encoded();
            &&& s.len() == 128
            &&& 0 <= i < 64 ==> s[i] == s[64 + i]
            &&& s.take(4) == vstd::utf8::encode_utf8("ZSEG"@)
            &&& wire::u32_at(s, 4) == 2
            &&& wire::u64_at(s, 8) == h.capacity
            &&& wire::u64_at(s, 16) == h.committed
            &&& wire::u64_at(s, 24) == h.write_pos
            &&& 32 <= i < 60 ==> s[i] == 0
            &&& wire::u32_at(s, 60) == crc32(s.take(60))
        }),
{
    let s = h.encoded();
    header_round_trip(h, Seq::empty());
    assert(s + Seq::<u8>::empty() =~= s);
    assert(h.slot().len() == 64);
    assert(s.subrange(0, 64) =~= h.slot());
    slot_round_trip(h, s, 0);
    headers_are_checked(s);
    assert(s.take(4) =~= s.subrange(0, 4));
    assert(s.take(60) =~= s.subrange(0, 60));
}

} // verus!
