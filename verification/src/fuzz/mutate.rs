//! Mutations of byte strings.

use super::generate;
use super::generate::push_frame;
use super::random::{random_below, random_byte};
use crate::protocol::frame::Message;
use crate::protocol::wire;
use crate::protocol::wire::{put_bytes, put_u32};
use vstd::prelude::*;
use vstd::slice::slice_subrange;

verus! {

broadcast use crate::protocol::wire::be32_len;

/// A change of a byte string.
#[derive(Debug, Clone, Copy, PartialEq, Eq, Structural)]
pub enum Mutation {
    /// None.
    Nothing,
    /// Another bit at a place.
    Flip { at: usize, bit: u8 },
    /// One byte more.
    Insert { at: usize, byte: u8 },
    /// One byte less.
    Remove { at: usize },
    /// Another length, where one stands in a header.
    SetLength { at: usize, value: u32 },
    /// A part once more, or more often, somewhere else.
    Repeat { from: usize, n: usize, at: usize, times: usize },
}

/// `chunk`, several times.
pub open spec fn repeated(chunk: Seq<u8>, times: nat) -> Seq<u8>
    decreases times,
{
    if times == 0 {
        Seq::empty()
    } else {
        repeated(chunk, (times - 1) as nat) + chunk
    }
}

impl Mutation {
    /// The mutation fits a byte string.
    pub open spec fn fits(self, s: Seq<u8>) -> bool {
        match self {
            Mutation::Nothing => true,
            Mutation::Flip { at, bit } => at < s.len() && bit < 8,
            Mutation::Insert { at, byte } => at <= s.len(),
            Mutation::Remove { at } => at < s.len(),
            Mutation::SetLength { at, value } => at + 4 <= s.len(),
            Mutation::Repeat { from, n, at, times } => from + n <= s.len() && at <= s.len(),
        }
    }

    /// The mutation is one that may be drawn for a byte string: none only for
    /// what is too short, a length only within a header and of those that may
    /// be drawn, and a part at most three times more.
    pub open spec fn is_drawn(self, s: Seq<u8>) -> bool {
        &&& self.fits(s)
        &&& match self {
            Mutation::Nothing => s.len() < 4,
            Mutation::SetLength { at, value } => at < 13 && is_length(value),
            Mutation::Repeat { from, n, at, times } => n >= 1 && 1 <= times <= 3,
            _ => true,
        }
    }

    /// The mutation is of a sort: a bit, a byte more, a byte less, a length,
    /// a part again; none where the byte string is too short for the sort.
    pub open spec fn is_of_sort(self, sort: usize, s: Seq<u8>) -> bool {
        if sort == 1 {
            self is Insert
        } else if s.len() == 0 || (sort == 3 && s.len() < 4) {
            self is Nothing
        } else if sort == 0 {
            self is Flip
        } else if sort == 2 {
            self is Remove
        } else if sort == 3 {
            self is SetLength
        } else {
            self is Repeat
        }
    }

    /// What the mutation makes of a byte string.
    pub open spec fn applied(self, s: Seq<u8>) -> Seq<u8> {
        match self {
            Mutation::Nothing => s,
            Mutation::Flip { at, bit } => s.update(at as int, s[at as int] ^ (1u8 << bit)),
            Mutation::Insert { at, byte } => s.insert(at as int, byte),
            Mutation::Remove { at } => s.remove(at as int),
            Mutation::SetLength { at, value } => s.take(at as int) + wire::be32(value) + s.skip(
                at + 4,
            ),
            Mutation::Repeat { from, n, at, times } => s.take(at as int) + repeated(
                s.subrange(from as int, from + n),
                times as nat,
            ) + s.skip(at as int),
        }
    }
}

/// Applies a mutation.
pub fn apply(buf: &mut Vec<u8>, m: Mutation)
    requires
        m.fits(old(buf)@),
    ensures
        final(buf)@ == m.applied(old(buf)@),
{
    match m {
        Mutation::Nothing => {},
        Mutation::Flip { at, bit } => {
            let old_byte: u8 = buf[at];
            buf[at] = old_byte ^ (1u8 << bit);
        },
        Mutation::Insert { at, byte } => {
            buf.insert(at, byte);
        },
        Mutation::Remove { at } => {
            buf.remove(at);
        },
        Mutation::SetLength { at, value } => {
            let mut out: Vec<u8> = Vec::with_capacity(buf.len());
            put_bytes(&mut out, slice_subrange(buf.as_slice(), 0, at));
            put_u32(&mut out, value);
            put_bytes(&mut out, slice_subrange(buf.as_slice(), at + 4, buf.len()));
            assert(out@ =~= m.applied(old(buf)@));
            *buf = out;
        },
        Mutation::Repeat { from, n, at, times } => {
            let mut out: Vec<u8> = Vec::with_capacity(buf.len());
            put_bytes(&mut out, slice_subrange(buf.as_slice(), 0, at));
            let chunk = slice_subrange(buf.as_slice(), from, from + n);
            let ghost front = out@;
            let mut i: usize = 0;
            assert(out@ =~= front + repeated(chunk@, 0));
            while i < times
                invariant
                    i <= times,
                    out@ == front + repeated(chunk@, i as nat),
                decreases times - i,
            {
                put_bytes(&mut out, chunk);
                assert(out@ =~= front + repeated(chunk@, (i + 1) as nat));
                i = i + 1;
            }
            put_bytes(&mut out, slice_subrange(buf.as_slice(), at, buf.len()));
            assert(front =~= old(buf)@.take(at as int));
            assert(chunk@ =~= old(buf)@.subrange(from as int, from + n));
            assert(out@ =~= m.applied(old(buf)@));
            *buf = out;
        },
    }
}

/// The number that goes into a length of this choice is less than this.
pub open spec fn number_bound(choice: usize) -> nat {
    if choice == 2 {
        100
    } else if choice == 3 {
        16777216
    } else {
        1
    }
}

/// The length that a choice and a number give: nothing, one, the number, or
/// an absurd one.
pub open spec fn drawn_length(choice: usize, number: u32) -> u32 {
    if choice == 0 {
        0
    } else if choice == 1 {
        1
    } else if choice <= 3 {
        number
    } else {
        u32::MAX
    }
}

/// A length that may be drawn for a header.
pub open spec fn is_length(v: u32) -> bool {
    exists|choice: usize, number: u32|
        choice < 5 && number < number_bound(choice) && v == #[trigger] drawn_length(choice, number)
}

/// The lengths that may be drawn are those below the largest frame's, and the
/// absurd one.
pub proof fn lengths_are_bounded(v: u32)
    ensures
        is_length(v) <==> v < 16777216 || v == u32::MAX,
{
    if v < 16777216 {
        assert(v == drawn_length(3, v));
    } else if v == u32::MAX {
        assert(v == drawn_length(4, 0));
    }
}

/// The length that a choice and a number give.
pub fn length_of_draw(choice: usize, number: u32) -> (v: u32)
    ensures
        v == drawn_length(choice, number),
{
    match choice {
        0 => 0,
        1 => 1,
        2 => number,
        3 => number,
        _ => 0xFFFF_FFFF,
    }
}

/// A random length for a header: nothing, one, small, up to the largest frame,
/// or absurd.
fn random_length() -> (v: u32)
    ensures
        is_length(v),
{
    let choice: usize = random_below(5);
    let bound: usize = match choice {
        2 => 100,
        3 => 16777216,
        _ => 1,
    };
    length_of_draw(choice, random_below(bound) as u32)
}

/// A random mutation of one of the first five sorts, for `buf`.
fn random_mutation(sort: usize, buf: &Vec<u8>) -> (m: Mutation)
    ensures
        m.is_drawn(buf@),
        m.is_of_sort(sort, buf@),
{
    let len: usize = buf.len();
    match sort {
        0 => if len > 0 {
            Mutation::Flip { at: random_below(len), bit: random_below(8) as u8 }
        } else {
            Mutation::Nothing
        },
        1 => {
            let at: usize = if len == usize::MAX {
                0
            } else {
                random_below(len + 1)
            };
            Mutation::Insert { at, byte: random_byte() }
        },
        2 => if len > 0 {
            Mutation::Remove { at: random_below(len) }
        } else {
            Mutation::Nothing
        },
        3 => if len >= 4 {
            let window: usize = if len < 13 {
                len
            } else {
                13
            };
            let drawn: usize = random_below(window);
            let at: usize = if drawn < len - 4 {
                drawn
            } else {
                len - 4
            };
            Mutation::SetLength { at, value: random_length() }
        } else {
            Mutation::Nothing
        },
        _ => if len > 0 {
            let from: usize = random_below(len);
            let n: usize = 1 + random_below(len - from);
            let at: usize = if len == usize::MAX {
                0
            } else {
                random_below(len + 1)
            };
            Mutation::Repeat { from, n, at, times: 1 + random_below(3) }
        } else {
            Mutation::Nothing
        },
    }
}

/// `after` comes of `before` by a mutation that may be drawn for it, or by a
/// whole frame behind it.
pub open spec fn is_mutation(before: Seq<u8>, after: Seq<u8>) -> bool {
    ||| exists|m: Mutation| #[trigger] m.is_drawn(before) && after == m.applied(before)
    ||| exists|f: Message| #[trigger]
        generate::is_plausible(f) && after == before + f.encoded()
}

/// Changes a byte string at random.
pub fn mutate(buf: &mut Vec<u8>)
    ensures
        is_mutation(old(buf)@, final(buf)@),
{
    let sort: usize = random_below(6);
    if sort < 5 {
        let m = random_mutation(sort, buf);
        apply(buf, m);
        assert(m.is_drawn(old(buf)@));
    } else {
        push_frame(buf);
    }
}

/// A flipped bit changes its byte and no other, and flipped again it is as it
/// was.
pub proof fn flips_change_one_byte(s: Seq<u8>, at: usize, bit: u8, i: int)
    requires
        at < s.len(),
        bit < 8,
    ensures
        ({
            let flip = Mutation::Flip { at, bit };
            let after = flip.applied(s);
            &&& after.len() == s.len()
            &&& after[at as int] != s[at as int]
            &&& 0 <= i < s.len() && i != at ==> after[i] == s[i]
            &&& flip.applied(after) == s
        }),
{
    let b = s[at as int];
    assert(b ^ (1u8 << bit) != b && (b ^ (1u8 << bit)) ^ (1u8 << bit) == b) by (bit_vector)
        requires
            bit < 8,
    ;
    let flip = Mutation::Flip { at, bit };
    assert(flip.applied(flip.applied(s)) =~= s);
}

/// The bit that is flipped is the one that is named: the byte changes by its
/// weight.
pub proof fn flips_change_by_a_bit(s: Seq<u8>, at: usize, bit: u8)
    requires
        at < s.len(),
        bit < 8,
    ensures
        ({
            let (old_byte, new_byte) = (
                s[at as int],
                (Mutation::Flip { at, bit }).applied(s)[at as int],
            );
            let weight = vstd::arithmetic::power2::pow2(bit as nat);
            new_byte == old_byte + weight || new_byte == old_byte - weight
        }),
{
    let b = s[at as int];
    let n = b ^ (1u8 << bit);
    let w = 1u8 << bit;
    assert(n == b + w || n == b - w) by (bit_vector)
        requires
            bit < 8,
            n == b ^ (1u8 << bit),
            w == 1u8 << bit,
    ;
    vstd::bits::lemma_u8_pow2_no_overflow(bit as nat);
    vstd::bits::lemma_u8_shl_is_mul(1, bit);
}

/// A byte that comes in stands where it was put, and the others keep their
/// order; taken out there, it leaves what was before.
pub proof fn removals_undo_insertions(s: Seq<u8>, at: usize, byte: u8)
    requires
        at <= s.len(),
    ensures
        ({
            let longer = (Mutation::Insert { at, byte }).applied(s);
            &&& longer == s.take(at as int).push(byte) + s.skip(at as int)
            &&& (Mutation::Remove { at }).applied(longer) == s
        }),
{
    let longer = (Mutation::Insert { at, byte }).applied(s);
    assert((Mutation::Remove { at }).applied(longer) =~= s);
}

/// A byte that is taken out and put back leaves what was before.
pub proof fn insertions_undo_removals(s: Seq<u8>, at: usize)
    requires
        at < s.len(),
    ensures
        ({
            let shorter = (Mutation::Remove { at }).applied(s);
            &&& shorter.len() == s.len() - 1
            &&& (Mutation::Insert { at, byte: s[at as int] }).applied(shorter) == s
        }),
{
    let shorter = (Mutation::Remove { at }).applied(s);
    assert((Mutation::Insert { at, byte: s[at as int] }).applied(shorter) =~= s);
}

/// A length that is set is read where it was set, and nothing else changes.
pub proof fn lengths_are_set(s: Seq<u8>, at: usize, value: u32, i: int)
    requires
        at + 4 <= s.len(),
    ensures
        ({
            let after = (Mutation::SetLength { at, value }).applied(s);
            &&& after.len() == s.len()
            &&& wire::u32_at(after, at as int) == value
            &&& 0 <= i < s.len() && !(at <= i < at + 4) ==> after[i] == s[i]
        }),
{
    let after = (Mutation::SetLength { at, value }).applied(s);
    assert(after.subrange(at as int, at + 4) =~= wire::be32(value));
    wire::u32_round_trip(value, after, at as int);
}

/// A part that is repeated comes once more for each time, where it is put; the
/// rest stands around it as it was.
pub proof fn parts_are_repeated(s: Seq<u8>, from: usize, n: usize, at: usize, times: usize, k: nat)
    requires
        from + n <= s.len(),
        at <= s.len(),
        k < times,
    ensures
        ({
            let after = (Mutation::Repeat { from, n, at, times }).applied(s);
            let part = s.subrange(from as int, from + n);
            &&& after.len() == s.len() + times * n
            &&& after.take(at as int) == s.take(at as int)
            &&& after.skip(at + times * n) == s.skip(at as int)
            &&& after.subrange(at + k * n, at + k * n + n) == part
        }),
{
    let part = s.subrange(from as int, from + n);
    let all = repeated(part, times as nat);
    repeated_parts(part, times as nat, k);
    let after = (Mutation::Repeat { from, n, at, times }).applied(s);
    assert(k * n + n <= times * n && 0 <= k * n) by (nonlinear_arith)
        requires
            0 <= k,
            k + 1 <= times,
            0 <= n,
    ;
    assert(after.take(at as int) =~= s.take(at as int));
    assert(after.skip(at + times * n) =~= s.skip(at as int));
    assert(after.subrange(at + k * n, at + k * n + n) =~= all.subrange(k * n, k * n + n));
}

proof fn repeated_parts(part: Seq<u8>, times: nat, k: nat)
    requires
        k < times,
    ensures
        repeated(part, times).len() == times * part.len(),
        k * part.len() + part.len() <= times * part.len(),
        repeated(part, times).subrange(
            (k * part.len()) as int,
            (k * part.len() + part.len()) as int,
        ) == part,
    decreases times,
{
    let n = part.len();
    let fewer = repeated(part, (times - 1) as nat);
    let all = repeated(part, times);
    assert((times - 1) * n + n == times * n) by (nonlinear_arith);
    assert(k * n + n <= times * n && 0 <= k * n) by (nonlinear_arith)
        requires
            0 <= k,
            k + 1 <= times,
            0 <= n,
    ;
    if times == 1 {
        assert(fewer.len() == 0);
        assert(k * n == 0) by (nonlinear_arith)
            requires
                k == 0,
        ;
        assert(all.subrange((k * n) as int, (k * n + n) as int) =~= part);
    } else if k == times - 1 {
        repeated_parts(part, (times - 1) as nat, 0);
        assert(all.subrange((k * n) as int, (k * n + n) as int) =~= part);
    } else {
        repeated_parts(part, (times - 1) as nat, k);
        assert(all.subrange((k * n) as int, (k * n + n) as int) =~= fewer.subrange(
            (k * n) as int,
            (k * n + n) as int,
        ));
    }
}

/// Small draws never change much: a mutation that may be drawn adds no more
/// than three times what is there, or a byte, and takes no more than a byte.
pub proof fn drawn_mutations_are_small(m: Mutation, s: Seq<u8>)
    requires
        m.is_drawn(s),
    ensures
        m.applied(s).len() + 1 >= s.len(),
        m.applied(s).len() <= 4 * s.len() + 1,
{
    if let Mutation::Repeat { from, n, at, times } = m {
        parts_are_repeated(s, from, n, at, times, 0);
        assert(0 <= times * n <= 3 * s.len()) by (nonlinear_arith)
            requires
                0 <= times <= 3,
                0 <= n <= s.len(),
        ;
    }
}

} // verus!
