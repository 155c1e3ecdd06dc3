//! Positions taken modulo the size of a ring.

use vstd::arithmetic::div_mod::{
    lemma_fundamental_div_mod, lemma_fundamental_div_mod_converse, lemma_mod_bound,
};
use vstd::arithmetic::power2::{lemma_pow2_pos, lemma_pow2_unfold, pow2};
use vstd::prelude::*;

verus! {

/// `n` is a power of two.
pub open spec fn is_power_of_two(n: nat) -> bool {
    exists|k: nat| n == #[trigger] pow2(k)
}

/// Two positions less than a turn apart share a slot only if they are one.
pub proof fn slots_are_distinct(a: int, b: int, size: int)
    requires
        size > 0,
        -size < a - b < size,
        a % size == b % size,
    ensures
        a == b,
{
    lemma_fundamental_div_mod(a, size);
    lemma_fundamental_div_mod(b, size);
    let qa = a / size;
    let qb = b / size;
    assert(a - b == size * (qa - qb)) by (nonlinear_arith)
        requires
            a == size * qa + a % size,
            b == size * qb + b % size,
            a % size == b % size,
    ;
    assert(qa == qb) by (nonlinear_arith)
        requires
            size > 0,
            -size < size * (qa - qb) < size,
    ;
}

/// The slot behind a slot, going round at the end.
pub proof fn next_slot(a: int, size: int)
    requires
        size > 0,
    ensures
        0 <= a % size < size,
        (a + 1) % size == if a % size + 1 == size {
            0
        } else {
            a % size + 1
        },
{
    lemma_fundamental_div_mod(a, size);
    lemma_mod_bound(a, size);
    let q = a / size;
    let r = a % size;
    if r + 1 == size {
        assert((q + 1) * size + 0 == a + 1) by (nonlinear_arith)
            requires
                a == size * q + r,
                r + 1 == size,
        ;
        lemma_fundamental_div_mod_converse(a + 1, size, q + 1, 0);
    } else {
        assert(q * size + (r + 1) == a + 1) by (nonlinear_arith)
            requires
                a == size * q + r,
        ;
        lemma_fundamental_div_mod_converse(a + 1, size, q, r + 1);
    }
}

/// The slot `k` places behind that of `a`, less than a turn away.
pub proof fn slot_further(a: int, k: int, size: int)
    requires
        size > 0,
        0 <= k <= size,
    ensures
        0 <= a % size < size,
        (a + k) % size == if a % size + k < size {
            a % size + k
        } else {
            a % size + k - size
        },
{
    lemma_fundamental_div_mod(a, size);
    lemma_mod_bound(a, size);
    let q = a / size;
    let r = a % size;
    if r + k < size {
        assert(q * size + (r + k) == a + k) by (nonlinear_arith)
            requires
                a == size * q + r,
        ;
        lemma_fundamental_div_mod_converse(a + k, size, q, r + k);
    } else {
        assert((q + 1) * size + (r + k - size) == a + k) by (nonlinear_arith)
            requires
                a == size * q + r,
        ;
        lemma_fundamental_div_mod_converse(a + k, size, q + 1, r + k - size);
    }
}

/// The least power of two that is at least `n`.
pub fn next_power_of_two(n: usize) -> (p: usize)
    requires
        n <= isize::MAX as usize / 2 + 1,
    ensures
        is_power_of_two(p as nat),
        n <= p <= isize::MAX as usize / 2 + 1,
        p / 2 < n || p == 1,
{
    let mut p: usize = 1;
    let ghost mut k: nat = 0;
    proof {
        vstd::arithmetic::power2::lemma2_to64();
        assert(isize::MAX as usize / 2 + 1 == pow2(30) || isize::MAX as usize / 2 + 1 == pow2(62))
            by {
            vstd::arithmetic::power2::lemma2_to64_rest();
        }
    }
    while p < n
        invariant
            1 <= p <= isize::MAX as usize / 2 + 1,
            n <= isize::MAX as usize / 2 + 1,
            p == pow2(k),
            p / 2 < n || p == 1,
            isize::MAX as usize / 2 + 1 == pow2(30) || isize::MAX as usize / 2 + 1 == pow2(62),
        decreases isize::MAX as usize / 2 + 1 - p,
    {
        proof {
            lemma_pow2_unfold(k + 1);
            if isize::MAX as usize / 2 + 1 == pow2(30) {
                if k >= 30 {
                    powers_grow(30, k);
                }
                powers_grow(k + 1, 30);
            } else {
                if k >= 62 {
                    powers_grow(62, k);
                }
                powers_grow(k + 1, 62);
            }
            k = k + 1;
        }
        p = p * 2;
    }
    p
}

/// A power of two is the least that is no less than itself.
pub proof fn powers_do_not_lie_between(n: nat, p: nat)
    requires
        is_power_of_two(n),
        is_power_of_two(p),
        n <= p,
        p / 2 < n || p == 1,
    ensures
        n == p,
{
    let a = choose|k: nat| n == #[trigger] pow2(k);
    let b = choose|k: nat| p == #[trigger] pow2(k);
    lemma_pow2_pos(a);
    if a < b {
        lemma_pow2_unfold(b);
        powers_grow(a, (b - 1) as nat);
    } else {
        powers_grow(b, a);
    }
}

proof fn powers_grow(a: nat, b: nat)
    ensures
        a <= b ==> pow2(a) <= pow2(b),
{
    if a < b {
        vstd::arithmetic::power2::lemma_pow2_strictly_increases(a, b);
    }
}

} // verus!
