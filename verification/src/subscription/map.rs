//! The subscription table, cut into shards by the hash of the topic.

use super::shard;
use super::shard::{Shard, Subscriber};
use crate::store::modulo;
use vstd::prelude::*;

verus! {

/// Where the hash of an empty topic stands.
pub const FNV_OFFSET: u64 = 0xcbf2_9ce4_8422_2325;

/// What the hash is multiplied by for each byte.
pub const FNV_PRIME: u64 = 0x0000_0100_0000_01b3;

/// The 64-bit FNV-1a hash.
pub open spec fn fnv1a(bytes: Seq<u8>) -> u64
    decreases bytes.len(),
{
    if bytes.len() == 0 {
        FNV_OFFSET
    } else {
        ((fnv1a(bytes.drop_last()) ^ (bytes.last() as u64)) * FNV_PRIME % 0x1_0000_0000_0000_0000)
            as u64
    }
}

/// The 64-bit FNV-1a hash.
pub fn fnv1a_hash(bytes: &[u8]) -> (h: u64)
    ensures
        h == fnv1a(bytes@),
{
    let mut h: u64 = FNV_OFFSET;
    let mut i: usize = 0;
    while i < bytes.len()
        invariant
            i <= bytes@.len(),
            h == fnv1a(bytes@.take(i as int)),
        decreases bytes@.len() - i,
    {
        assert(bytes@.take(i + 1).drop_last() =~= bytes@.take(i as int));
        h = (h ^ (bytes[i] as u64)).wrapping_mul(FNV_PRIME);
        i = i + 1;
    }
    assert(bytes@.take(i as int) =~= bytes@);
    h
}

/// The shard of a topic in a table of `n` shards.
pub open spec fn shard_of(topic: Seq<u8>, n: nat) -> int {
    fnv1a(topic) as int % n as int
}

/// Topics with their subscribers.
pub struct SubMap {
    shards: Vec<Shard>,
}

impl View for SubMap {
    type V = Map<Seq<u8>, Seq<Subscriber>>;

    closed spec fn view(&self) -> Map<Seq<u8>, Seq<Subscriber>> {
        Map::new(|t: Seq<u8>| self.home(t).contains_key(t), |t: Seq<u8>| self.home(t)[t])
    }
}

impl SubMap {
    /// The shards.
    pub closed spec fn shards(&self) -> Seq<Shard> {
        self.shards@
    }

    /// The content of the shard of a topic.
    spec fn home(&self, t: Seq<u8>) -> Map<Seq<u8>, Seq<Subscriber>> {
        self.shards@[shard_of(t, self.shards@.len())]@
    }

    /// The number of shards is a power of two, and each topic stands in the
    /// shard that its hash names.
    pub open spec fn wf(&self) -> bool {
        &&& 0 < self.shards().len()
        &&& modulo::is_power_of_two(self.shards().len())
        &&& forall|i: int|
            0 <= i < self.shards().len() ==> shard_fits(
                #[trigger] self.shards()[i],
                i,
                self.shards().len(),
            )
    }

    /// A table with at least `n` shards: the least power of two.
    pub fn new(n: usize) -> (map: SubMap)
        requires
            n <= isize::MAX as usize / 2 + 1,
        ensures
            map.wf(),
            map@ == Map::<Seq<u8>, Seq<Subscriber>>::empty(),
            n <= map.shards().len(),
            map.shards().len() / 2 < n || map.shards().len() == 1,
    {
        let count: usize = modulo::next_power_of_two(n);
        let mut shards: Vec<Shard> = Vec::new();
        let mut i: usize = 0;
        while i < count
            invariant
                i <= count,
                shards@.len() == i,
                forall|j: int|
                    0 <= j < i ==> (#[trigger] shards@[j]).wf() && shards@[j]@ == Map::<
                        Seq<u8>,
                        Seq<Subscriber>,
                    >::empty(),
            decreases count - i,
        {
            shards.push(Shard::new());
            i = i + 1;
        }
        proof {
            vstd::arithmetic::power2::lemma_pow2_pos(0);
        }
        let map = SubMap { shards };
        proof {
            assert forall|t: Seq<u8>| !map@.contains_key(t) by {
                vstd::arithmetic::div_mod::lemma_mod_bound(fnv1a(t) as int, count as int);
                assert(map.shards@[shard_of(t, count as nat)]@ == Map::<
                    Seq<u8>,
                    Seq<Subscriber>,
                >::empty());
            }
            assert(map@ =~= Map::<Seq<u8>, Seq<Subscriber>>::empty());
        }
        map
    }

    /// The shard of a topic.
    pub fn idx(&self, topic: &[u8]) -> (i: usize)
        requires
            self.wf(),
        ensures
            i == shard_of(topic@, self.shards().len()),
            i < self.shards().len(),
    {
        (fnv1a_hash(topic) % (self.shards.len() as u64)) as usize
    }

    /// The shard that holds a topic.
    pub fn read(&self, topic: &[u8]) -> (shard: &Shard)
        requires
            self.wf(),
        ensures
            shard.wf(),
            *shard == self.shards()[shard_of(topic@, self.shards().len())],
            shard@.contains_key(topic@) <==> self@.contains_key(topic@),
            self@.contains_key(topic@) ==> shard@[topic@] == self@[topic@],
    {
        let i: usize = self.idx(topic);
        assert(shard_fits(self.shards()[i as int], i as int, self.shards().len()));
        &self.shards[i]
    }

    /// The shard that holds a topic, to be changed. What becomes of it
    /// becomes of the table.
    pub fn write(&mut self, topic: &[u8]) -> (shard: &mut Shard)
        requires
            old(self).wf(),
        ensures
            shard.wf(),
            *shard == old(self).shards()[shard_of(topic@, old(self).shards().len())],
            shard_fits(
                *shard,
                shard_of(topic@, old(self).shards().len()),
                old(self).shards().len(),
            ),
            final(self).shards() == old(self).shards().update(
                shard_of(topic@, old(self).shards().len()),
                *final(shard),
            ),
    {
        let i: usize = self.idx(topic);
        assert(shard_fits(self.shards()[i as int], i as int, self.shards().len()));
        &mut self.shards[i]
    }

    /// Adds a subscriber behind those that a topic has.
    pub fn subscribe(&mut self, topic: &[u8], s: Subscriber)
        requires
            old(self).wf(),
        ensures
            final(self).wf(),
            final(self).shards().len() == old(self).shards().len(),
            final(self)@ == shard::subscribed(old(self)@, topic@, s),
    {
        let shard = self.write(topic);
        shard.subscribe(topic, s);
        proof {
            self.changed_at_topic(*old(self), topic@);
            assert(self@ =~= shard::subscribed(old(self)@, topic@, s));
        }
    }

    /// Ends the subscriptions of a connection to a topic.
    pub fn unsubscribe(&mut self, topic: &[u8], id: u64)
        requires
            old(self).wf(),
        ensures
            final(self).wf(),
            final(self).shards().len() == old(self).shards().len(),
            final(self)@ == shard::unsubscribed(old(self)@, topic@, id),
    {
        let shard = self.write(topic);
        shard.unsubscribe(topic, id);
        proof {
            self.changed_at_topic(*old(self), topic@);
            assert(self@ =~= shard::unsubscribed(old(self)@, topic@, id));
        }
    }

    /// Notes that records up to `pos` were handed to a topic's subscribers.
    pub fn mark_sent(&mut self, topic: &[u8], pos: u64)
        requires
            old(self).wf(),
        ensures
            final(self).wf(),
            final(self).shards().len() == old(self).shards().len(),
            final(self)@ == shard::marked_sent(old(self)@, topic@, pos),
    {
        let shard = self.write(topic);
        shard.mark_sent(topic, pos);
        proof {
            self.changed_at_topic(*old(self), topic@);
            assert(self@ =~= shard::marked_sent(old(self)@, topic@, pos));
        }
    }

    /// What a change of one topic in its shard does to the table.
    proof fn changed_at_topic(&self, before: SubMap, topic: Seq<u8>)
        requires
            before.wf(),
            self.shards@.len() == before.shards@.len(),
            ({
                let at = shard_of(topic, before.shards@.len());
                &&& self.shards@ == before.shards@.update(at, self.shards@[at])
                &&& self.shards@[at].wf()
                &&& forall|t: Seq<u8>|
                    t != topic ==> (#[trigger] self.shards@[at]@.contains_key(t)
                        <==> before.shards@[at]@.contains_key(t))
                &&& forall|t: Seq<u8>|
                    t != topic && #[trigger] self.shards@[at]@.contains_key(t)
                        ==> self.shards@[at]@[t] == before.shards@[at]@[t]
            }),
        ensures
            self.wf(),
            forall|t: Seq<u8>|
                t != topic ==> (#[trigger] self@.contains_key(t) <==> before@.contains_key(t)),
            forall|t: Seq<u8>|
                t != topic && #[trigger] self@.contains_key(t) ==> self@[t] == before@[t],
            self@.contains_key(topic) <==> self.home(topic).contains_key(topic),
            self@.contains_key(topic) ==> self@[topic] == self.home(topic)[topic],
            before@.contains_key(topic) <==> before.home(topic).contains_key(topic),
            before@.contains_key(topic) ==> before@[topic] == before.home(topic)[topic],
    {
        let n = before.shards@.len();
        let at = shard_of(topic, n);
        vstd::arithmetic::div_mod::lemma_mod_bound(fnv1a(topic) as int, n as int);
        assert(shard_fits(before.shards@[at], at, n));
        assert(before.shards()[at] == before.shards@[at]);
        assert forall|i: int| 0 <= i < n implies shard_fits(#[trigger] self.shards()[i], i, n) by {
            assert(shard_fits(before.shards()[i], i, n));
            if i == at {
                assert forall|t: Seq<u8>| self.shards@[at]@.contains_key(t) implies shard_of(t, n)
                    == at by {
                    if t != topic {
                        assert(before.shards@[at]@.contains_key(t));
                    }
                }
            }
        }
        assert forall|t: Seq<u8>| t != topic implies (#[trigger] self@.contains_key(t)
            <==> before@.contains_key(t)) by {
            vstd::arithmetic::div_mod::lemma_mod_bound(fnv1a(t) as int, n as int);
        }
    }

    /// How far every subscriber of the table has been served: the least
    /// position, and `u64::MAX` where nobody listens.
    pub fn watermark(&self) -> (pos: u64)
        requires
            self.wf(),
        ensures
            forall|t: Seq<u8>, k: int|
                self@.contains_key(t) && 0 <= k < self@[t].len() ==> pos <= (
                #[trigger] self@[t][k]).sent,
            pos == u64::MAX || exists|t: Seq<u8>, k: int|
                self@.contains_key(t) && 0 <= k < self@[t].len() && pos == (
                #[trigger] self@[t][k]).sent,
    {
        let mut pos: u64 = u64::MAX;
        let mut i: usize = 0;
        let ghost n = self.shards@.len();
        while i < self.shards.len()
            invariant
                self.wf(),
                n == self.shards@.len(),
                i <= n,
                forall|t: Seq<u8>, k: int|
                    shard_of(t, n) < i && self@.contains_key(t) && 0 <= k < self@[t].len() ==> pos
                        <= (#[trigger] self@[t][k]).sent,
                pos == u64::MAX || exists|t: Seq<u8>, k: int|
                    self@.contains_key(t) && 0 <= k < self@[t].len() && pos == (
                    #[trigger] self@[t][k]).sent,
            decreases self.shards@.len() - i,
        {
            assert(shard_fits(self.shards()[i as int], i as int, n));
            let least: u64 = self.shards[i].least_sent();
            proof {
                let content = self.shards@[i as int]@;
                if least != u64::MAX {
                    let (t, k) = choose|t: Seq<u8>, k: int|
                        content.contains_key(t) && 0 <= k < content[t].len() && least == (
                        #[trigger] content[t][k]).sent;
                    assert(shard_of(t, n) == i);
                    assert(self@.contains_key(t) && self@[t][k].sent == least);
                }
                assert forall|t: Seq<u8>, k: int|
                    shard_of(t, n) == i && self@.contains_key(t) && 0 <= k
                        < self@[t].len() implies least <= (#[trigger] self@[t][k]).sent by {
                    assert(content[t][k] == self@[t][k]);
                }
            }
            if least < pos {
                pos = least;
            }
            i = i + 1;
        }
        proof {
            assert forall|t: Seq<u8>, k: int|
                self@.contains_key(t) && 0 <= k < self@[t].len() implies pos <= (
            #[trigger] self@[t][k]).sent by {
                vstd::arithmetic::div_mod::lemma_mod_bound(fnv1a(t) as int, n as int);
            }
        }
        pos
    }
}

/// A shard of a table of `n` shards holds the topics that hash to it.
pub open spec fn shard_fits(s: Shard, i: int, n: nat) -> bool {
    &&& s.wf()
    &&& forall|t: Seq<u8>| #[trigger] s@.contains_key(t) ==> shard_of(t, n) == i
}

/// The hash grows with the topic, byte by byte, from a fixed start.
pub proof fn hashes_go_byte_by_byte(bytes: Seq<u8>, b: u8)
    ensures
        fnv1a(Seq::empty()) == 14695981039346656037u64,
        fnv1a(bytes.push(b)) == (fnv1a(bytes) ^ (b as u64)) * 1099511628211
            % 18446744073709551616,
{
    assert(bytes.push(b).drop_last() =~= bytes);
}

/// The shard of a topic is named by the low bits of its hash.
pub proof fn low_bits_name_the_shard(topic: Seq<u8>, k: nat)
    requires
        k < 64,
    ensures
        shard_of(topic, vstd::arithmetic::power2::pow2(k)) == fnv1a(topic)
            & vstd::bits::low_bits_mask(k) as u64,
        0 <= shard_of(topic, vstd::arithmetic::power2::pow2(k))
            < vstd::arithmetic::power2::pow2(k),
{
    let n = vstd::arithmetic::power2::pow2(k);
    vstd::arithmetic::power2::lemma_pow2_pos(k);
    vstd::bits::lemma_u64_pow2_no_overflow(k);
    vstd::bits::lemma_u64_low_bits_mask_is_mod(fnv1a(topic), k);
    vstd::arithmetic::div_mod::lemma_mod_bound(fnv1a(topic) as int, n as int);
}

} // verus!
