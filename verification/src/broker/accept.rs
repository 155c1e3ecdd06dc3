//! Admission of connections.

use vstd::prelude::*;

verus! {

/// Who is connected: how many at a time, and which number comes next.
pub struct Admission {
    limit: Option<usize>,
    live: usize,
    last_id: u64,
}

impl Admission {
    pub closed spec fn limit(&self) -> Option<usize> {
        self.limit
    }

    /// How many connections there are.
    pub closed spec fn live(&self) -> nat {
        self.live as nat
    }

    /// The number of the last connection.
    pub closed spec fn last_id(&self) -> u64 {
        self.last_id
    }

    /// There are no more connections than allowed.
    pub open spec fn wf(&self) -> bool {
        self.limit() matches Some(n) ==> self.live() <= n
    }

    /// No connections yet, at most `limit` at a time.
    pub fn new(limit: Option<usize>) -> (a: Admission)
        ensures
            a.wf(),
            a.limit() == limit,
            a.live() == 0,
            a.last_id() == 0,
    {
        Admission { limit, live: 0, last_id: 0 }
    }

    /// Admits a connection and numbers it, or turns it away where there are
    /// as many as allowed or numbers have run out.
    pub fn accept(&mut self) -> (id: Option<u64>)
        requires
            old(self).wf(),
        ensures
            final(self).wf(),
            final(self).limit() == old(self).limit(),
            id is None <==> {
                ||| old(self).limit() matches Some(n) && old(self).live() == n
                ||| old(self).live() == usize::MAX
                ||| old(self).last_id() == u64::MAX
            },
            id is None ==> *final(self) == *old(self),
            id matches Some(i) ==> {
                &&& i == old(self).last_id() + 1
                &&& final(self).last_id() == i
                &&& final(self).live() == old(self).live() + 1
            },
    {
        if let Some(n) = self.limit {
            if self.live >= n {
                return None;
            }
        }
        if self.live == usize::MAX || self.last_id == u64::MAX {
            return None;
        }
        self.live = self.live + 1;
        self.last_id = self.last_id + 1;
        Some(self.last_id)
    }

    /// Notes that a connection is gone.
    pub fn release(&mut self)
        requires
            old(self).wf(),
            old(self).live() > 0,
        ensures
            final(self).wf(),
            final(self).limit() == old(self).limit(),
            final(self).last_id() == old(self).last_id(),
            final(self).live() == old(self).live() - 1,
    {
        self.live = self.live - 1;
    }
}

} // verus!
