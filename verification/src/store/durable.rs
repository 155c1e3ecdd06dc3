//! Waiting until the log is safe.

use std::collections::VecDeque;
use vstd::prelude::*;

verus! {

/// The position up to which the log is safe, and those who wait for it to
/// move.
pub struct DurableGate<W> {
    pos: u64,
    waiters: VecDeque<(u64, W)>,
}

/// Those of `waiters` who wait for a position beyond `pos`.
pub open spec fn still_waiting<W>(waiters: Seq<(u64, W)>, pos: u64) -> Seq<(u64, W)> {
    waiters.filter(|w: (u64, W)| w.0 > pos)
}

/// The handles of those of `waiters` who wait for a position up to `pos`.
pub open spec fn released<W>(waiters: Seq<(u64, W)>, pos: u64) -> Seq<W> {
    waiters.filter(|w: (u64, W)| w.0 <= pos).map_values(|w: (u64, W)| w.1)
}

proof fn one_more<W>(waiters: Seq<(u64, W)>, i: int, pos: u64)
    requires
        0 <= i < waiters.len(),
    ensures
        still_waiting(waiters.take(i + 1), pos) == if waiters[i].0 > pos {
            still_waiting(waiters.take(i), pos).push(waiters[i])
        } else {
            still_waiting(waiters.take(i), pos)
        },
        released(waiters.take(i + 1), pos) == if waiters[i].0 > pos {
            released(waiters.take(i), pos)
        } else {
            released(waiters.take(i), pos).push(waiters[i].1)
        },
{
    reveal(Seq::filter);
    assert(waiters.take(i + 1).drop_last() =~= waiters.take(i));
    assert(waiters.take(i + 1).last() == waiters[i]);
    assert(released(waiters.take(i + 1), pos) =~= if waiters[i].0 > pos {
        released(waiters.take(i), pos)
    } else {
        released(waiters.take(i), pos).push(waiters[i].1)
    });
}

impl<W> DurableGate<W> {
    /// The position up to which the log is safe.
    pub closed spec fn at(&self) -> u64 {
        self.pos
    }

    /// Who waits, for which position.
    pub closed spec fn waiting(&self) -> Seq<(u64, W)> {
        self.waiters@
    }

    /// Nobody waits for what is safe already.
    pub open spec fn wf(&self) -> bool {
        forall|i: int|
            0 <= i < self.waiting().len() ==> (#[trigger] self.waiting()[i]).0 > self.at()
    }

    pub fn new(pos: u64) -> (gate: DurableGate<W>)
        ensures
            gate.wf(),
            gate.at() == pos,
            gate.waiting() == Seq::<(u64, W)>::empty(),
    {
        DurableGate { pos, waiters: VecDeque::new() }
    }

    pub fn pos(&self) -> (pos: u64)
        ensures
            pos == self.at(),
    {
        self.pos
    }

    /// Moves the position forward, never back, and hands out the handles of
    /// those who waited for it.
    pub fn advance(&mut self, new_pos: u64) -> (woken: Vec<W>)
        requires
            old(self).wf(),
        ensures
            final(self).wf(),
            final(self).at() == if old(self).at() >= new_pos {
                old(self).at()
            } else {
                new_pos
            },
            final(self).waiting() == still_waiting(old(self).waiting(), final(self).at()),
            woken@ == released(old(self).waiting(), final(self).at()),
    {
        let mut woken: Vec<W> = Vec::new();
        let ghost all = self.waiters@;
        if self.pos >= new_pos {
            proof {
                nobody_is_released(all, self.pos);
            }
            return woken;
        }
        self.pos = new_pos;
        let n: usize = self.waiters.len();
        let mut i: usize = 0;
        assert(all.take(0) =~= Seq::<(u64, W)>::empty());
        proof {
            nobody_is_released(Seq::<(u64, W)>::empty(), new_pos);
        }
        assert(self.waiters@ =~= all.skip(0) + still_waiting(all.take(0), new_pos));
        while i < n
            invariant
                i <= n,
                n == all.len(),
                self.pos == new_pos,
                self.waiters@ == all.skip(i as int) + still_waiting(all.take(i as int), new_pos),
                woken@ == released(all.take(i as int), new_pos),
            decreases n - i,
        {
            proof {
                one_more(all, i as int, new_pos);
            }
            let ghost before = self.waiters@;
            match self.waiters.pop_front() {
                Some((target, handle)) => {
                    assert((target, handle) == all[i as int]);
                    assert(self.waiters@ =~= all.skip(i + 1) + still_waiting(
                        all.take(i as int),
                        new_pos,
                    ));
                    if target <= new_pos {
                        woken.push(handle);
                    } else {
                        self.waiters.push_back((target, handle));
                        assert(self.waiters@ =~= all.skip(i + 1) + still_waiting(
                            all.take(i + 1),
                            new_pos,
                        ));
                    }
                },
                None => {
                    assert(before.len() > 0);
                },
            }
            i = i + 1;
        }
        assert(all.take(i as int) =~= all);
        assert(self.waiters@ =~= still_waiting(all, new_pos));
        proof {
            rest_waits_longer(all, new_pos);
        }
        woken
    }

    /// Asks for a position to be safe. Where it is not yet, the handle waits
    /// for it.
    fn register(&mut self, target: u64, handle: W)
        requires
            old(self).wf(),
            old(self).at() < target,
        ensures
            final(self).wf(),
            final(self).at() == old(self).at(),
            final(self).waiting() == old(self).waiting().push((target, handle)),
    {
        self.waiters.push_back((target, handle));
        assert forall|i: int| 0 <= i < self.waiting().len() implies (
        #[trigger] self.waiting()[i]).0 > self.at() by {
            if i < old(self).waiting().len() {
                assert(self.waiting()[i] == old(self).waiting()[i]);
            }
        }
    }
}

proof fn rest_waits_longer<W>(waiters: Seq<(u64, W)>, pos: u64)
    ensures
        forall|i: int|
            0 <= i < still_waiting(waiters, pos).len() ==> (#[trigger] still_waiting(
                waiters,
                pos,
            )[i]).0 > pos,
    decreases waiters.len(),
{
    reveal(Seq::filter);
    if waiters.len() > 0 {
        rest_waits_longer(waiters.drop_last(), pos);
    }
}

/// Where all wait for more, nobody is released.
pub proof fn nobody_is_released<W>(waiters: Seq<(u64, W)>, pos: u64)
    requires
        forall|i: int| 0 <= i < waiters.len() ==> (#[trigger] waiters[i]).0 > pos,
    ensures
        still_waiting(waiters, pos) == waiters,
        released(waiters, pos) == Seq::<W>::empty(),
    decreases waiters.len(),
{
    reveal(Seq::filter);
    if waiters.len() > 0 {
        assert(waiters.drop_last().push(waiters.last()) =~= waiters);
        nobody_is_released(waiters.drop_last(), pos);
    }
    assert(still_waiting(waiters, pos) =~= waiters);
    assert(waiters.filter(|w: (u64, W)| w.0 <= pos).len() == 0) by {
        if waiters.len() > 0 {
            assert(released(waiters.drop_last(), pos).len() == 0);
        }
    }
    assert(released(waiters, pos) =~= Seq::<W>::empty());
}

/// Nobody is forgotten: each of those who wait is either released, because the
/// position they wait for is reached, or goes on waiting.
pub proof fn nobody_is_forgotten<W>(waiters: Seq<(u64, W)>, pos: u64, i: int)
    requires
        0 <= i < waiters.len(),
    ensures
        if waiters[i].0 <= pos {
            released(waiters, pos).contains(waiters[i].1)
        } else {
            still_waiting(waiters, pos).contains(waiters[i])
        },
        still_waiting(waiters, pos).len() + released(waiters, pos).len() == waiters.len(),
    decreases waiters.len(),
{
    reveal(Seq::filter);
    let n = waiters.len() - 1;
    one_more(waiters, n, pos);
    assert(waiters.take(n + 1) =~= waiters);
    let last = waiters[n];
    let earlier = waiters.take(n);
    if n > 0 {
        nobody_is_forgotten(earlier, pos, if i < n {
            i
        } else {
            0
        });
    } else {
        assert(still_waiting(earlier, pos).len() + released(earlier, pos).len() == 0);
    }
    if i < n {
        assert(earlier[i] == waiters[i]);
        if waiters[i].0 <= pos {
            let k = choose|k: int|
                0 <= k < released(earlier, pos).len() && released(earlier, pos)[k] == waiters[i].1;
            assert(released(waiters, pos)[k] == waiters[i].1);
        } else {
            let k = choose|k: int|
                0 <= k < still_waiting(earlier, pos).len() && still_waiting(earlier, pos)[k]
                    == waiters[i];
            assert(still_waiting(waiters, pos)[k] == waiters[i]);
        }
    } else if last.0 <= pos {
        assert(released(waiters, pos).last() == last.1);
    } else {
        assert(still_waiting(waiters, pos).last() == last);
    }
}

/// A wait for a position.
pub struct WaitDurable {
    target: u64,
    registered: bool,
}

/// A wait for `target`.
pub fn wait_durable(target: u64) -> (wait: WaitDurable)
    ensures
        wait.waits_for() == target,
        !wait.is_registered(),
{
    WaitDurable { target, registered: false }
}

impl WaitDurable {
    pub closed spec fn waits_for(&self) -> u64 {
        self.target
    }

    pub closed spec fn is_registered(&self) -> bool {
        self.registered
    }

    /// Whether the position is reached. Where it is not, the handle joins
    /// those who wait, once.
    pub fn poll<W>(&mut self, gate: &mut DurableGate<W>, handle: W) -> (ready: bool)
        requires
            old(gate).wf(),
        ensures
            final(gate).wf(),
            final(gate).at() == old(gate).at(),
            ready == (old(gate).at() >= old(self).waits_for()),
            final(self).waits_for() == old(self).waits_for(),
            final(self).is_registered() == (old(self).is_registered() || !ready),
            final(gate).waiting() == if ready || old(self).is_registered() {
                old(gate).waiting()
            } else {
                old(gate).waiting().push((old(self).waits_for(), handle))
            },
    {
        if gate.pos() >= self.target {
            return true;
        }
        if !self.registered {
            gate.register(self.target, handle);
            self.registered = true;
        }
        false
    }
}

/// Those who came first are released first: releasing goes through the waiters
/// in order, and so do those who go on waiting.
pub proof fn waiters_keep_their_order<W>(
    first: Seq<(u64, W)>,
    later: Seq<(u64, W)>,
    pos: u64,
    target: u64,
    w: W,
)
    ensures
        released(first + later, pos) == released(first, pos) + released(later, pos),
        still_waiting(first + later, pos) == still_waiting(first, pos) + still_waiting(later, pos),
        released(seq![(target, w)], pos) == if target <= pos {
            seq![w]
        } else {
            Seq::<W>::empty()
        },
        still_waiting(seq![(target, w)], pos) == if target <= pos {
            Seq::<(u64, W)>::empty()
        } else {
            seq![(target, w)]
        },
    decreases later.len(),
{
    let none: Seq<(u64, W)> = Seq::empty();
    assert(released(none, pos) =~= Seq::<W>::empty() && still_waiting(none, pos) =~= none) by {
        reveal(Seq::filter);
    }
    let one = seq![(target, w)];
    one_more(one, 0, pos);
    assert(one.take(1) =~= one);
    assert(one.take(0) =~= none);
    assert(released(one, pos) =~= if target <= pos {
        seq![w]
    } else {
        Seq::<W>::empty()
    });
    assert(still_waiting(one, pos) =~= if target <= pos {
        none
    } else {
        one
    });
    let all = first + later;
    if later.len() == 0 {
        assert(later =~= none);
        assert(all =~= first);
    } else {
        let n = later.len() - 1;
        one_more(later, n, pos);
        assert(later.take(n + 1) =~= later);
        one_more(all, all.len() - 1, pos);
        assert(all.take(all.len() - 1 + 1) =~= all);
        assert(all.take(all.len() - 1) =~= first + later.take(n));
        waiters_keep_their_order(first, later.take(n), pos, target, w);
    }
    assert(released(all, pos) =~= released(first, pos) + released(later, pos));
    assert(still_waiting(all, pos) =~= still_waiting(first, pos) + still_waiting(later, pos));
}

} // verus!
