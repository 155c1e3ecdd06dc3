//! Big-endian integers on byte sequences.

use vstd::prelude::*;

verus! {

/// The four bytes of `x`, most significant first.
#[verifier::opaque]
pub open spec fn be32(x: u32) -> Seq<u8> {
    seq![
        (x / 0x100_0000) as u8,
        (x / 0x1_0000 % 0x100) as u8,
        (x / 0x100 % 0x100) as u8,
        (x % 0x100) as u8,
    ]
}

/// The eight bytes of `x`, most significant first.
pub open spec fn be64(x: u64) -> Seq<u8> {
    be32((x / 0x1_0000_0000) as u32) + be32((x % 0x1_0000_0000) as u32)
}

/// The number that the four bytes of `s` starting at `at` spell.
#[verifier::opaque]
pub open spec fn u32_at(s: Seq<u8>, at: int) -> u32 {
    (s[at] * 0x100_0000 + s[at + 1] * 0x1_0000 + s[at + 2] * 0x100 + s[at + 3]) as u32
}

/// The number that the eight bytes of `s` starting at `at` spell.
pub open spec fn u64_at(s: Seq<u8>, at: int) -> u64 {
    (u32_at(s, at) * 0x1_0000_0000 + u32_at(s, at + 4)) as u64
}

/// Encodings have a fixed length.
pub broadcast proof fn be32_len(x: u32)
    ensures
        #[trigger] be32(x).len() == 4,
{
    reveal(be32);
}

/// Equal bytes spell equal numbers, wherever they stand.
pub proof fn u32_at_depends_on_bytes(s: Seq<u8>, i: int, t: Seq<u8>, j: int)
    requires
        0 <= i,
        i + 4 <= s.len(),
        0 <= j,
        j + 4 <= t.len(),
        forall|k: int| 0 <= k < 4 ==> #[trigger] s[i + k] == t[j + k],
    ensures
        u32_at(s, i) == u32_at(t, j),
{
    reveal(u32_at);
    assert(s[i + 0] == t[j + 0]);
    assert(s[i + 1] == t[j + 1]);
    assert(s[i + 2] == t[j + 2]);
    assert(s[i + 3] == t[j + 3]);
}

/// Reading a number back where its bytes were written gives the number.
pub proof fn u32_round_trip(x: u32, s: Seq<u8>, at: int)
    requires
        0 <= at,
        at + 4 <= s.len(),
        s.subrange(at, at + 4) == be32(x),
    ensures
        u32_at(s, at) == x,
{
    reveal(be32);
    reveal(u32_at);
    let b = s.subrange(at, at + 4);
    assert(b[0] == s[at] && b[1] == s[at + 1] && b[2] == s[at + 2] && b[3] == s[at + 3]);
    assert(x / 0x1_0000 == (x / 0x100_0000) * 0x100 + x / 0x1_0000 % 0x100);
    assert(x / 0x100 == (x / 0x1_0000) * 0x100 + x / 0x100 % 0x100);
}

/// Reading a number back where its bytes were written gives the number.
pub proof fn u64_round_trip(x: u64, s: Seq<u8>, at: int)
    requires
        0 <= at,
        at + 8 <= s.len(),
        s.subrange(at, at + 8) == be64(x),
    ensures
        u64_at(s, at) == x,
{
    broadcast use be32_len;

    let b = s.subrange(at, at + 8);
    assert(s.subrange(at, at + 4) =~= b.subrange(0, 4));
    assert(s.subrange(at + 4, at + 8) =~= b.subrange(4, 8));
    assert(b.subrange(0, 4) =~= be32((x / 0x1_0000_0000) as u32));
    assert(b.subrange(4, 8) =~= be32((x % 0x1_0000_0000) as u32));
    u32_round_trip((x / 0x1_0000_0000) as u32, s, at);
    u32_round_trip((x % 0x1_0000_0000) as u32, s, at + 4);
}

/// Appends the four bytes of `x`.
pub fn put_u32(buf: &mut Vec<u8>, x: u32)
    ensures
        final(buf)@ == old(buf)@ + be32(x),
{
    proof {
        reveal(be32);
    }
    buf.push((x / 0x100_0000) as u8);
    buf.push((x / 0x1_0000 % 0x100) as u8);
    buf.push((x / 0x100 % 0x100) as u8);
    buf.push((x % 0x100) as u8);
    assert(buf@ =~= old(buf)@ + be32(x));
}

/// Appends the eight bytes of `x`.
pub fn put_u64(buf: &mut Vec<u8>, x: u64)
    ensures
        final(buf)@ == old(buf)@ + be64(x),
{
    put_u32(buf, (x / 0x1_0000_0000) as u32);
    put_u32(buf, (x % 0x1_0000_0000) as u32);
    assert(buf@ =~= old(buf)@ + be64(x));
}

/// The number spelled by the four bytes at `at`.
pub fn get_u32(buf: &[u8], at: usize) -> (x: u32)
    requires
        at + 4 <= buf@.len(),
    ensures
        x == u32_at(buf@, at as int),
{
    proof {
        reveal(u32_at);
    }
    buf[at] as u32 * 0x100_0000 + buf[at + 1] as u32 * 0x1_0000 + buf[at + 2] as u32 * 0x100 + buf[at
        + 3] as u32
}

/// The number spelled by the eight bytes at `at`.
pub fn get_u64(buf: &[u8], at: usize) -> (x: u64)
    requires
        at + 8 <= buf@.len(),
    ensures
        x == u64_at(buf@, at as int),
{
    assert(at + 8 <= buf.len());
    get_u32(buf, at) as u64 * 0x1_0000_0000 + get_u32(buf, at + 4) as u64
}

/// Appends a copy of `data`.
pub fn put_bytes(buf: &mut Vec<u8>, data: &[u8])
    ensures
        final(buf)@ == old(buf)@ + data@,
{
    buf.extend_from_slice(data);
    assert(buf@ =~= old(buf)@ + data@);
}

/// The bytes of a number are its digits to the base 256, the highest first.
pub proof fn be32_is_positional(x: u32)
    ensures
        be32(x).len() == 4,
        x == be32(x)[0] * 16777216 + be32(x)[1] * 65536 + be32(x)[2] * 256 + be32(x)[3],
{
    reveal(be32);
    assert(x / 0x1_0000 == (x / 0x100_0000) * 0x100 + x / 0x1_0000 % 0x100);
    assert(x / 0x100 == (x / 0x1_0000) * 0x100 + x / 0x100 % 0x100);
}

/// The bytes of a long number are those of its upper half, then those of its
/// lower half.
pub proof fn be64_is_positional(x: u64, upper: u32, lower: u32)
    requires
        x == upper * 4294967296 + lower,
    ensures
        be64(x) == be32(upper) + be32(lower),
        be64(x).len() == 8,
{
    reveal(be32);
    assert((x / 0x1_0000_0000) as u32 == upper);
    assert((x % 0x1_0000_0000) as u32 == lower);
}

/// Writing down the number that four bytes spell gives the bytes.
pub proof fn bytes_round_trip(s: Seq<u8>, at: int)
    requires
        0 <= at,
        at + 4 <= s.len(),
    ensures
        be32(u32_at(s, at)) == s.subrange(at, at + 4),
{
    reveal(be32);
    reveal(u32_at);
    let (a, b, c, d) = (s[at], s[at + 1], s[at + 2], s[at + 3]);
    let x = u32_at(s, at);
    assert(x == a * 0x100_0000 + b * 0x1_0000 + c * 0x100 + d);
    assert(x / 0x100_0000 == a);
    assert(x / 0x1_0000 == a * 0x100 + b);
    assert(x / 0x100 == a * 0x1_0000 + b * 0x100 + c);
    assert(be32(x) =~= s.subrange(at, at + 4));
}

/// The number that bytes spell is that of their digits to the base 256.
pub proof fn u32_at_is_positional(s: Seq<u8>, at: int)
    ensures
        u32_at(s, at) == s[at] * 16777216 + s[at + 1] * 65536 + s[at + 2] * 256 + s[at + 3],
{
    reveal(u32_at);
}

} // verus!
