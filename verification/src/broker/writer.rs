//! Outbound frames, written in batches, and the buffers they are put into.

use crate::protocol::wire::put_bytes;
use std::sync::Arc;
use vstd::prelude::*;

verus! {

/// How many frames go into one write.
pub const MAX_BATCH: usize = 256;

/// How many buffers are kept for later.
pub const MAX_POOLED: usize = 512;

/// The largest buffer that is kept for later.
pub const MAX_POOLED_CAPACITY: usize = 262144;

/// The smallest buffer that is made.
pub const MIN_BUFFER: usize = 64;

/// The bytes of several frames, one behind the other.
pub open spec fn joined(frames: Seq<Arc<Vec<u8>>>) -> Seq<u8>
    decreases frames.len(),
{
    if frames.len() == 0 {
        Seq::empty()
    } else {
        joined(frames.drop_last()) + frames.last()@
    }
}

/// Appends several frames to a buffer, for a single write.
pub fn coalesce(out: &mut Vec<u8>, frames: &Vec<Arc<Vec<u8>>>)
    ensures
        final(out)@ == old(out)@ + joined(frames@),
{
    let mut i: usize = 0;
    assert(out@ =~= old(out)@ + joined(frames@.take(0)));
    while i < frames.len()
        invariant
            i <= frames@.len(),
            out@ == old(out)@ + joined(frames@.take(i as int)),
        decreases frames@.len() - i,
    {
        assert(frames@.take(i + 1).drop_last() =~= frames@.take(i as int));
        put_bytes(out, frames[i].as_slice());
        assert(out@ =~= old(out)@ + joined(frames@.take(i + 1)));
        i = i + 1;
    }
    assert(frames@.take(i as int) =~= frames@);
}

/// The last place with a buffer of at least `min` bytes.
pub open spec fn is_pick(capacities: Seq<usize>, min: usize, pick: Option<usize>) -> bool {
    match pick {
        Some(i) => {
            &&& i < capacities.len()
            &&& capacities[i as int] >= min
            &&& forall|j: int| i < j < capacities.len() ==> capacities[j] < min
        },
        None => forall|j: int| 0 <= j < capacities.len() ==> capacities[j] < min,
    }
}

/// Chooses among buffers by what they can hold: the one that was given back
/// last of those that are large enough.
pub fn pick_buffer(capacities: &Vec<usize>, min: usize) -> (pick: Option<usize>)
    ensures
        is_pick(capacities@, min, pick),
{
    let mut i: usize = capacities.len();
    while i > 0
        invariant
            i <= capacities@.len(),
            forall|j: int| i <= j < capacities@.len() ==> capacities@[j] < min,
        decreases i,
    {
        i = i - 1;
        if capacities[i] >= min {
            return Some(i);
        }
    }
    None
}

/// Whether a buffer that can hold `capacity` bytes is kept beside `pooled`
/// others.
pub fn keeps_buffer(capacity: usize, pooled: usize) -> (yes: bool)
    ensures
        yes == (capacity <= MAX_POOLED_CAPACITY && pooled < MAX_POOLED),
{
    capacity <= MAX_POOLED_CAPACITY && pooled < MAX_POOLED
}

/// How large a new buffer is made.
pub fn new_buffer_size(min: usize) -> (size: usize)
    ensures
        size == if min > MIN_BUFFER {
            min
        } else {
            MIN_BUFFER
        },
{
    if min > MIN_BUFFER {
        min
    } else {
        MIN_BUFFER
    }
}

/// `Vec::capacity`: how many bytes a buffer can hold without growing. It is
/// no less than the length; what more there is depends on the allocator.
#[verifier::external_body]
fn capacity_of(buf: &Vec<u8>) -> (n: usize)
    ensures
        n >= buf@.len(),
{
    buf.capacity()
}

/// A buffer that waits, with what it can hold.
struct Pooled {
    buf: Vec<u8>,
    capacity: usize,
}

/// Buffers that wait to be used again.
pub struct BufPool {
    bufs: Vec<Pooled>,
}

/// `s` without place `i`, which the last one takes.
pub open spec fn taken(s: Seq<usize>, i: int) -> Seq<usize> {
    s.update(i, s.last()).drop_last()
}

impl BufPool {
    /// What the waiting buffers can hold, in order.
    pub closed spec fn capacities(&self) -> Seq<usize> {
        self.bufs@.map_values(|p: Pooled| p.capacity)
    }

    /// Every buffer that waits is empty and not too large, and there are not
    /// too many.
    pub closed spec fn wf(&self) -> bool {
        &&& self.bufs@.len() <= MAX_POOLED
        &&& forall|i: int| 0 <= i < self.bufs@.len() ==> (#[trigger] self.bufs@[i]).buf@.len() == 0
            && self.bufs@[i].capacity <= MAX_POOLED_CAPACITY
    }

    pub fn new() -> (pool: BufPool)
        ensures
            pool.wf(),
            pool.capacities() == Seq::<usize>::empty(),
    {
        let pool = BufPool { bufs: Vec::new() };
        assert(pool.capacities() =~= Seq::<usize>::empty());
        pool
    }

    /// What the waiting buffers can hold.
    fn list(&self) -> (v: Vec<usize>)
        ensures
            v@ == self.capacities(),
    {
        let mut v: Vec<usize> = Vec::with_capacity(self.bufs.len());
        let mut i: usize = 0;
        while i < self.bufs.len()
            invariant
                i <= self.bufs@.len(),
                v@ == self.capacities().take(i as int),
            decreases self.bufs@.len() - i,
        {
            v.push(self.bufs[i].capacity);
            assert(v@ =~= self.capacities().take(i + 1));
            i = i + 1;
        }
        assert(v@ =~= self.capacities());
        v
    }

    /// An empty buffer for `min` bytes: the one that was given back last of
    /// those that are large enough; a new one where none is.
    pub fn take_buf(&mut self, min: usize) -> (buf: Vec<u8>)
        requires
            old(self).wf(),
            min <= isize::MAX,
        ensures
            final(self).wf(),
            buf@.len() == 0,
            exists|pick: Option<usize>| #[trigger]
                is_pick(old(self).capacities(), min, pick) && final(self).capacities() == match pick {
                    Some(i) => taken(old(self).capacities(), i as int),
                    None => old(self).capacities(),
                },
    {
        let pick = pick_buffer(&self.list(), min);
        assert(is_pick(old(self).capacities(), min, pick));
        match pick {
            Some(i) => {
                let p = self.bufs.swap_remove(i);
                assert(self.capacities() =~= taken(old(self).capacities(), i as int));
                p.buf
            },
            None => Vec::with_capacity(new_buffer_size(min)),
        }
    }

    /// Takes a buffer back that can hold `capacity` bytes, to be used again
    /// where it is not too large and there is room. What is in it is forgotten.
    pub fn give_sized(&mut self, buf: Vec<u8>, capacity: usize)
        requires
            old(self).wf(),
        ensures
            final(self).wf(),
            final(self).capacities() == after_giving(old(self).capacities(), capacity),
    {
        if keeps_buffer(capacity, self.bufs.len()) {
            let mut b = buf;
            b.clear();
            self.bufs.push(Pooled { buf: b, capacity });
        }
        assert(self.capacities() =~= after_giving(old(self).capacities(), capacity));
    }

    /// Takes a buffer back, by what it can hold.
    pub fn give_buf(&mut self, buf: Vec<u8>)
        requires
            old(self).wf(),
        ensures
            final(self).wf(),
            exists|capacity: usize|
                capacity >= buf@.len() && #[trigger] after_giving(
                    old(self).capacities(),
                    capacity,
                ) == final(self).capacities(),
    {
        let capacity: usize = capacity_of(&buf);
        self.give_sized(buf, capacity);
    }
}

/// The pool after a buffer that can hold `capacity` bytes was given back.
pub open spec fn after_giving(capacities: Seq<usize>, capacity: usize) -> Seq<usize> {
    if capacity <= MAX_POOLED_CAPACITY && capacities.len() < MAX_POOLED {
        capacities.push(capacity)
    } else {
        capacities
    }
}

/// Writing batches one behind the other is writing all of their frames, each
/// once and in order.
pub proof fn batches_join(a: Seq<Arc<Vec<u8>>>, b: Seq<Arc<Vec<u8>>>, f: Arc<Vec<u8>>)
    ensures
        joined(a + b) == joined(a) + joined(b),
        joined(seq![f]) == f@,
        joined(Seq::<Arc<Vec<u8>>>::empty()) == Seq::<u8>::empty(),
    decreases b.len(),
{
    assert(seq![f].drop_last() =~= Seq::<Arc<Vec<u8>>>::empty());
    reveal_with_fuel(joined, 2);
    assert(joined(seq![f]) =~= f@);
    if b.len() == 0 {
        assert(a + b =~= a);
        assert(joined(a) + joined(b) =~= joined(a));
    } else {
        assert((a + b).drop_last() =~= a + b.drop_last());
        batches_join(a, b.drop_last(), f);
        assert(joined(a + b) =~= joined(a) + joined(b));
    }
}

/// There is one choice among buffers, and it is made where it can be: the last
/// that is large enough.
pub proof fn picks_are_unique(
    capacities: Seq<usize>,
    min: usize,
    a: Option<usize>,
    b: Option<usize>,
)
    requires
        is_pick(capacities, min, a),
        is_pick(capacities, min, b),
    ensures
        a == b,
        a is None <==> forall|j: int| 0 <= j < capacities.len() ==> capacities[j] < min,
        a matches Some(i) ==> i < capacities.len() && capacities[i as int] >= min && forall|j: int|
            i < j < capacities.len() ==> capacities[j] < min,
{
    if let (Some(i), Some(j)) = (a, b) {
        assert(i == j);
    }
}

/// A buffer that is taken leaves the others: as many of each size as there
/// were, less the one.
pub proof fn taking_leaves_the_others(s: Seq<usize>, i: int)
    requires
        0 <= i < s.len(),
    ensures
        taken(s, i).len() == s.len() - 1,
        forall|j: int|
            0 <= j < taken(s, i).len() && j != i ==> #[trigger] taken(s, i)[j] == s[j],
        i < s.len() - 1 ==> taken(s, i)[i] == s[s.len() - 1],
{
}

/// The pool stays small: no more than 512 buffers, none above 256 KiB comes in,
/// and what is given back otherwise is the last one.
pub proof fn the_pool_stays_small(capacities: Seq<usize>, capacity: usize)
    requires
        capacities.len() <= 512,
    ensures
        ({
            let after = after_giving(capacities, capacity);
            &&& after.len() <= 512
            &&& after.take(capacities.len() as int) == capacities
            &&& after.len() == capacities.len() + 1 <==> capacity <= 262144 && capacities.len()
                < 512
            &&& after.len() > capacities.len() ==> after.last() == capacity
        }),
{
    let after = after_giving(capacities, capacity);
    assert(after.take(capacities.len() as int) =~= capacities);
}

} // verus!
