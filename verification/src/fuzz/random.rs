//! Random numbers. All that is known of them is their range.

use rand::Rng;
use vstd::prelude::*;

verus! {

/// `rand::Rng::gen_range` of the thread's generator, from 0 up to `n`: some
/// number less than `n`. Which one is left to chance.
#[verifier::external_body]
pub(crate) fn random_below(n: usize) -> (r: usize)
    requires
        n > 0,
    ensures
        r < n,
{
    rand::thread_rng().gen_range(0..n)
}

/// `rand::Rng::gen` of the thread's generator: any number, left to chance.
#[verifier::external_body]
pub(crate) fn random_u64() -> (r: u64) {
    rand::thread_rng().gen()
}

/// Any byte.
pub(crate) fn random_byte() -> (r: u8) {
    random_below(256) as u8
}

/// `n` bytes of any value.
pub(crate) fn random_bytes(n: usize) -> (v: Vec<u8>)
    ensures
        v@.len() == n,
{
    let mut v: Vec<u8> = Vec::with_capacity(n);
    while v.len() < n
        invariant
            v@.len() <= n,
        decreases n - v@.len(),
    {
        v.push(random_byte());
    }
    v
}

} // verus!
