//! Signatures: what a parser makes of a byte string, in short.

use super::mutate;
use crate::bytes::copy_bytes;
use crate::protocol::frame::Message;
use crate::protocol::parser;
use crate::protocol::parser::Parser;
use crate::protocol::stream;
use vstd::prelude::*;

verus! {

/// Operation, topic length and payload length of a frame.
pub open spec fn part(m: Message) -> (u8, u32, u32) {
    (m.op.code(), m.topic.len() as u32, m.payload.len() as u32)
}

/// The parts of the complete frames of a byte string.
pub open spec fn signature(s: Seq<u8>) -> Seq<(u8, u32, u32)> {
    stream::all_frames(s).map_values(|m: Message| part(m))
}

/// The signature of a byte string.
pub fn sig_of(buf: &[u8]) -> (parts: Vec<(u8, u32, u32)>)
    ensures
        parts@ == signature(buf@),
{
    let mut p = Parser::new(65536);
    p.feed(buf);
    assert(p@ =~= buf@);
    let (list, _) = p.complete_frames();
    let mut parts: Vec<(u8, u32, u32)> = Vec::new();
    let mut i: usize = 0;
    while i < list.len()
        invariant
            i <= list@.len(),
            parser::messages(list@) == stream::all_frames(buf@),
            parts@ == signature(buf@).take(i as int),
        decreases list@.len() - i,
    {
        let f = &list[i];
        assert(parser::messages(list@)[i as int] == f@);
        parts.push((f.op.to_u8(), f.topic.len() as u32, f.payload.len() as u32));
        assert(parts@ =~= signature(buf@).take(i + 1));
        i = i + 1;
    }
    assert(parser::messages(list@).len() == list@.len());
    assert(signature(buf@).take(i as int) =~= signature(buf@));
    parts
}

/// Whether two signatures are the same.
fn same(a: &Vec<(u8, u32, u32)>, b: &Vec<(u8, u32, u32)>) -> (yes: bool)
    ensures
        yes == (a@ == b@),
{
    if a.len() != b.len() {
        return false;
    }
    let mut i: usize = 0;
    while i < a.len()
        invariant
            i <= a@.len(),
            a@.len() == b@.len(),
            forall|j: int| 0 <= j < i ==> a@[j] == b@[j],
        decreases a@.len() - i,
    {
        let x: (u8, u32, u32) = a[i];
        let y: (u8, u32, u32) = b[i];
        if x.0 != y.0 || x.1 != y.1 || x.2 != y.2 {
            assert(a@[i as int] != b@[i as int]);
            return false;
        }
        i = i + 1;
    }
    assert(a@ =~= b@);
    true
}

/// The signatures that were seen.
pub struct SigSet {
    sigs: Vec<Vec<(u8, u32, u32)>>,
}

impl View for SigSet {
    type V = Set<Seq<(u8, u32, u32)>>;

    closed spec fn view(&self) -> Set<Seq<(u8, u32, u32)>> {
        Set::new(|s: Seq<(u8, u32, u32)>| self.has(s))
    }
}

impl SigSet {
    spec fn is_at(&self, s: Seq<(u8, u32, u32)>, i: int) -> bool {
        0 <= i < self.sigs@.len() && self.sigs@[i]@ == s
    }

    spec fn has(&self, s: Seq<(u8, u32, u32)>) -> bool {
        exists|i: int| self.is_at(s, i)
    }

    /// No signature is held twice.
    pub closed spec fn wf(&self) -> bool {
        &&& forall|i: int, j: int|
            0 <= i < j < self.sigs@.len() ==> (#[trigger] self.sigs@[i])@ != (
            #[trigger] self.sigs@[j])@
        &&& self@.finite()
        &&& self@.len() == self.sigs@.len()
    }

    /// There are finitely many.
    pub proof fn is_finite(&self)
        requires
            self.wf(),
        ensures
            self@.finite(),
    {
    }

    pub fn new() -> (set: SigSet)
        ensures
            set.wf(),
            set@ == Set::<Seq<(u8, u32, u32)>>::empty(),
    {
        let set = SigSet { sigs: Vec::new() };
        assert(set@ =~= Set::<Seq<(u8, u32, u32)>>::empty());
        set
    }

    /// How many there are.
    pub fn len(&self) -> (n: usize)
        requires
            self.wf(),
        ensures
            n == self@.len(),
    {
        self.sigs.len()
    }

    /// Adds a signature, and says whether it is new.
    pub fn insert(&mut self, sig: Vec<(u8, u32, u32)>) -> (new: bool)
        requires
            old(self).wf(),
        ensures
            final(self).wf(),
            new == !old(self)@.contains(sig@),
            final(self)@ == old(self)@.insert(sig@),
    {
        let mut i: usize = 0;
        while i < self.sigs.len()
            invariant
                i <= self.sigs@.len(),
                *self == *old(self),
                self.wf(),
                forall|j: int| 0 <= j < i ==> !self.is_at(sig@, j),
            decreases self.sigs@.len() - i,
        {
            if same(&self.sigs[i], &sig) {
                assert(self.is_at(sig@, i as int));
                assert(self@ =~= old(self)@.insert(sig@));
                return false;
            }
            i = i + 1;
        }
        self.sigs.push(sig);
        proof {
            let n = old(self).sigs@.len() as int;
            assert forall|s: Seq<(u8, u32, u32)>| self@.contains(s) <==> (s == sig@ || old(
                self,
            )@.contains(s)) by {
                if old(self).has(s) {
                    let k = choose|k: int| old(self).is_at(s, k);
                    assert(self.is_at(s, k));
                }
                if s == sig@ {
                    assert(self.is_at(s, n));
                }
                if self.has(s) {
                    let k = choose|k: int| self.is_at(s, k);
                    if k < n {
                        assert(old(self).is_at(s, k));
                    }
                }
            }
            assert(self@ =~= old(self)@.insert(sig@));
            assert forall|a: int, b: int| 0 <= a < b < self.sigs@.len() implies (
            #[trigger] self.sigs@[a])@ != (#[trigger] self.sigs@[b])@ by {
                if b == n {
                    assert(!old(self).is_at(sig@, a));
                }
            }
        }
        true
    }
}

/// Takes a candidate into account: it is kept where its signature is new, and
/// dropped, to nothing, where it is not. Either way it uses up budget.
pub fn consider(candidate: Vec<u8>, seen: &mut SigSet, budget: &mut u64) -> (kept: Vec<u8>)
    requires
        old(seen).wf(),
    ensures
        final(seen).wf(),
        final(seen)@ == old(seen)@.insert(signature(candidate@)),
        kept@ == if old(seen)@.contains(signature(candidate@)) {
            Seq::<u8>::empty()
        } else {
            candidate@
        },
        *final(budget) == if *old(budget) > 0 {
            (*old(budget) - 1) as u64
        } else {
            0
        },
{
    let sig = sig_of(candidate.as_slice());
    *budget = budget.saturating_sub(1);
    if seen.insert(sig) {
        candidate
    } else {
        Vec::new()
    }
}

/// Mutates an input and keeps the outcome where its signature is new.
pub fn mutate_and_run(input: &[u8], seen: &mut SigSet, budget: &mut u64) -> (kept: Vec<u8>)
    requires
        old(seen).wf(),
    ensures
        final(seen).wf(),
        exists|candidate: Seq<u8>|
            {
                &&& #[trigger] mutate::is_mutation(input@, candidate)
                &&& final(seen)@ == old(seen)@.insert(signature(candidate))
                &&& kept@ == if old(seen)@.contains(signature(candidate)) {
                    Seq::<u8>::empty()
                } else {
                    candidate
                }
            },
        *final(budget) == if *old(budget) > 0 {
            (*old(budget) - 1) as u64
        } else {
            0
        },
{
    let mut candidate = copy_bytes(input);
    mutate::mutate(&mut candidate);
    consider(candidate, seen, budget)
}

/// The signature of a stream of encodings has, for each message in order, its
/// operation and the lengths of its topic and its payload.
pub proof fn signatures_describe_messages(ms: Seq<Message>)
    requires
        forall|i: int| 0 <= i < ms.len() ==> (#[trigger] ms[i]).fits(),
    ensures
        ({
            let sig = signature(stream::encodings(ms));
            &&& sig.len() == ms.len()
            &&& forall|i: int|
                0 <= i < ms.len() ==> (#[trigger] sig[i]).0 == ms[i].op.code() && sig[i].1
                    == ms[i].topic.len() && sig[i].2 == ms[i].payload.len()
        }),
{
    stream::stream_yields_messages(ms, Seq::empty());
    stream::sound_streams_hold_no_more(stream::encodings(ms) + Seq::<u8>::empty());
    assert(stream::encodings(ms) + Seq::<u8>::empty() =~= stream::encodings(ms));
    let sig = signature(stream::encodings(ms));
    assert forall|i: int| 0 <= i < ms.len() implies (#[trigger] sig[i]).0 == ms[i].op.code()
        && sig[i].1 == ms[i].topic.len() && sig[i].2 == ms[i].payload.len() by {
        assert(ms[i].fits());
    }
}

} // verus!
