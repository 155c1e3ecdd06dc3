//! Shared-token authentication. A token is checked once per connection,
//! before the connection may publish.

use crate::bytes::copy_bytes;
use vstd::prelude::*;

verus! {

/// Compares two secrets. Different lengths are told at once, as a length is
/// no secret; otherwise every byte is looked at, wherever the first
/// difference is.
pub fn secure_eq(a: &[u8], b: &[u8]) -> (same: bool)
    ensures
        same == (a@ == b@),
{
    if a.len() != b.len() {
        return false;
    }
    let mut diff: u8 = 0;
    let mut i: usize = 0;
    assert(a@.take(0) =~= b@.take(0));
    while i < a.len()
        invariant
            i <= a@.len(),
            a@.len() == b@.len(),
            diff == 0 <==> a@.take(i as int) == b@.take(i as int),
        decreases a@.len() - i,
    {
        let x: u8 = a[i];
        let y: u8 = b[i];
        proof {
            assert((diff | (x ^ y)) == 0 <==> diff == 0 && x == y) by (bit_vector);
            assert(a@.take(i + 1) =~= a@.take(i as int).push(x));
            assert(b@.take(i + 1) =~= b@.take(i as int).push(y));
            if a@.take(i + 1) == b@.take(i + 1) {
                assert(a@.take(i as int) =~= a@.take(i + 1).drop_last());
                assert(b@.take(i as int) =~= b@.take(i + 1).drop_last());
                assert(a@.take(i + 1).last() == x && b@.take(i + 1).last() == y);
            }
        }
        diff = diff | (x ^ y);
        i = i + 1;
    }
    assert(a@.take(i as int) =~= a@);
    assert(b@.take(i as int) =~= b@);
    diff == 0
}

/// Who may use the data plane.
pub enum AccessControl {
    /// Anyone.
    Open,
    /// Clients that present this token first.
    Token(Vec<u8>),
}

impl View for AccessControl {
    type V = Option<Seq<u8>>;

    /// The token that is asked for.
    open spec fn view(&self) -> Option<Seq<u8>> {
        match self {
            AccessControl::Open => None,
            AccessControl::Token(t) => Some(t@),
        }
    }
}

impl Clone for AccessControl {
    fn clone(&self) -> (r: AccessControl)
        ensures
            r@ == self@,
    {
        match self {
            AccessControl::Open => AccessControl::Open,
            AccessControl::Token(t) => AccessControl::Token(copy_bytes(t.as_slice())),
        }
    }
}

impl AccessControl {
    pub fn open() -> (r: AccessControl)
        ensures
            r@ is None,
    {
        AccessControl::Open
    }

    /// The policy that asks for `t`, taken as bytes.
    pub fn token<T: Into<Vec<u8>>>(t: T) -> (r: AccessControl)
        ensures
            r matches AccessControl::Token(v) && call_ensures(T::into, (t,), v),
    {
        AccessControl::Token(t.into())
    }

    /// Whether a connection counts as authenticated before it sends anything.
    pub fn initially_authenticated(&self) -> (yes: bool)
        ensures
            yes == (self@ is None),
    {
        matches!(self, AccessControl::Open)
    }

    /// Whether a presented token is the right one. Anything is, where access
    /// is open.
    pub fn verify(&self, presented: &[u8]) -> (ok: bool)
        ensures
            ok == (self@ is None || self@ == Some(presented@)),
    {
        match self {
            AccessControl::Open => true,
            AccessControl::Token(expected) => secure_eq(expected.as_slice(), presented),
        }
    }
}

} // verus!
