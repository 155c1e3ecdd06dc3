//! One part of the subscription table.

use crate::bytes::{bytes_equal, copy_bytes};
use vstd::prelude::*;

verus! {

/// A connection that listens to a topic.
#[derive(Debug, Clone, Copy, PartialEq, Eq, Structural)]
pub struct Subscriber {
    /// The connection.
    pub id: u64,
    /// The log position up to which records were handed to the connection.
    pub sent: u64,
}

struct Entry {
    topic: Vec<u8>,
    list: Vec<Subscriber>,
}

/// Topics with their subscribers, in the order in which they subscribed.
pub struct Shard {
    entries: Vec<Entry>,
}

/// `list` without the subscriptions of `id`.
pub open spec fn without(list: Seq<Subscriber>, id: u64) -> Seq<Subscriber> {
    list.filter(|s: Subscriber| s.id != id)
}

/// `list` with every position moved to `pos`, where that is further.
pub open spec fn all_sent(list: Seq<Subscriber>, pos: u64) -> Seq<Subscriber> {
    list.map_values(
        |s: Subscriber|
            Subscriber {
                id: s.id,
                sent: if pos > s.sent {
                    pos
                } else {
                    s.sent
                },
            },
    )
}

/// The table after a subscription.
pub open spec fn subscribed(
    table: Map<Seq<u8>, Seq<Subscriber>>,
    topic: Seq<u8>,
    s: Subscriber,
) -> Map<Seq<u8>, Seq<Subscriber>> {
    if table.contains_key(topic) {
        table.insert(topic, table[topic].push(s))
    } else {
        table.insert(topic, seq![s])
    }
}

/// The table after `id` has left a topic. A topic that nobody listens to is
/// not kept.
pub open spec fn unsubscribed(
    table: Map<Seq<u8>, Seq<Subscriber>>,
    topic: Seq<u8>,
    id: u64,
) -> Map<Seq<u8>, Seq<Subscriber>> {
    if !table.contains_key(topic) {
        table
    } else if without(table[topic], id).len() == 0 {
        table.remove(topic)
    } else {
        table.insert(topic, without(table[topic], id))
    }
}

/// The table after records up to `pos` were handed to a topic's subscribers.
pub open spec fn marked_sent(
    table: Map<Seq<u8>, Seq<Subscriber>>,
    topic: Seq<u8>,
    pos: u64,
) -> Map<Seq<u8>, Seq<Subscriber>> {
    if table.contains_key(topic) {
        table.insert(topic, all_sent(table[topic], pos))
    } else {
        table
    }
}

/// The least position among the subscribers of `list`, and `u64::MAX` where
/// there are none.
pub open spec fn least_sent(list: Seq<Subscriber>) -> u64
    decreases list.len(),
{
    if list.len() == 0 {
        u64::MAX
    } else {
        let others = least_sent(list.drop_last());
        if list.last().sent < others {
            list.last().sent
        } else {
            others
        }
    }
}

/// The least position is a lower bound, and one of the positions.
pub proof fn least_sent_is_least(list: Seq<Subscriber>)
    ensures
        forall|i: int| 0 <= i < list.len() ==> least_sent(list) <= (#[trigger] list[i]).sent,
        list.len() > 0 ==> exists|i: int|
            0 <= i < list.len() && least_sent(list) == (#[trigger] list[i]).sent,
    decreases list.len(),
{
    if list.len() > 0 {
        let others = list.drop_last();
        least_sent_is_least(others);
        assert forall|i: int| 0 <= i < list.len() implies least_sent(list) <= (
        #[trigger] list[i]).sent by {
            if i < others.len() {
                assert(others[i] == list[i]);
            }
        }
        if least_sent(list) == list.last().sent {
            assert(list[list.len() - 1].sent == least_sent(list));
        } else {
            assert(others.len() > 0);
            let i = choose|i: int|
                0 <= i < others.len() && least_sent(others) == (#[trigger] others[i]).sent;
            assert(list[i] == others[i]);
        }
    }
}

impl View for Shard {
    type V = Map<Seq<u8>, Seq<Subscriber>>;

    closed spec fn view(&self) -> Map<Seq<u8>, Seq<Subscriber>> {
        Map::new(|t: Seq<u8>| self.has(t), |t: Seq<u8>| self.entries@[self.place(t)].list@)
    }
}

impl Shard {
    spec fn is_at(&self, t: Seq<u8>, i: int) -> bool {
        0 <= i < self.entries@.len() && self.entries@[i].topic@ == t
    }

    spec fn has(&self, t: Seq<u8>) -> bool {
        exists|i: int| self.is_at(t, i)
    }

    spec fn place(&self, t: Seq<u8>) -> int {
        choose|i: int| self.is_at(t, i)
    }

    /// Every topic stands once and has a subscriber.
    pub closed spec fn wf(&self) -> bool {
        &&& forall|i: int, j: int|
            0 <= i < j < self.entries@.len() ==> (#[trigger] self.entries@[i]).topic@ != (
            #[trigger] self.entries@[j]).topic@
        &&& forall|i: int|
            0 <= i < self.entries@.len() ==> (#[trigger] self.entries@[i]).list@.len() > 0
    }

    proof fn at_place(&self, t: Seq<u8>, i: int)
        requires
            self.wf(),
            self.is_at(t, i),
        ensures
            self.has(t),
            self.place(t) == i,
            self@.contains_key(t),
            self@[t] == self.entries@[i].list@,
    {
        let p = self.place(t);
        assert(self.is_at(t, p));
        if p < i {
            assert(self.entries@[p].topic@ != self.entries@[i].topic@);
        } else if i < p {
            assert(self.entries@[i].topic@ != self.entries@[p].topic@);
        }
    }

    /// No list of a well-formed shard is empty.
    pub proof fn lists_are_not_empty(&self, t: Seq<u8>)
        requires
            self.wf(),
            self@.contains_key(t),
        ensures
            self@[t].len() > 0,
    {
        let i = choose|i: int| self.is_at(t, i);
        self.at_place(t, i);
    }

    /// A shard without topics.
    pub fn new() -> (shard: Shard)
        ensures
            shard.wf(),
            shard@ == Map::<Seq<u8>, Seq<Subscriber>>::empty(),
    {
        let shard = Shard { entries: Vec::new() };
        assert(shard@ =~= Map::<Seq<u8>, Seq<Subscriber>>::empty());
        shard
    }

    fn find(&self, topic: &[u8]) -> (r: Option<usize>)
        requires
            self.wf(),
        ensures
            match r {
                Some(i) => self.is_at(topic@, i as int) && self@.contains_key(topic@)
                    && self@[topic@] == self.entries@[i as int].list@,
                None => !self@.contains_key(topic@),
            },
    {
        let mut i: usize = 0;
        while i < self.entries.len()
            invariant
                i <= self.entries@.len(),
                self.wf(),
                forall|j: int| 0 <= j < i ==> !self.is_at(topic@, j),
            decreases self.entries@.len() - i,
        {
            if bytes_equal(self.entries[i].topic.as_slice(), topic) {
                proof {
                    self.at_place(topic@, i as int);
                }
                return Some(i);
            }
            i = i + 1;
        }
        None
    }

    /// The subscribers of a topic.
    pub fn get(&self, topic: &[u8]) -> (r: Option<&Vec<Subscriber>>)
        requires
            self.wf(),
        ensures
            match r {
                Some(list) => self@.contains_key(topic@) && list@ == self@[topic@] && list@.len()
                    > 0,
                None => !self@.contains_key(topic@),
            },
    {
        match self.find(topic) {
            Some(i) => Some(&self.entries[i].list),
            None => None,
        }
    }

    /// Adds a subscriber behind those that a topic has.
    pub fn subscribe(&mut self, topic: &[u8], s: Subscriber)
        requires
            old(self).wf(),
        ensures
            final(self).wf(),
            final(self)@ == subscribed(old(self)@, topic@, s),
    {
        match self.find(topic) {
            Some(i) => {
                self.entries[i].list.push(s);
                proof {
                    self.changed_at(*old(self), topic@, i as int);
                }
            },
            None => {
                let list: Vec<Subscriber> = vec![s];
                self.entries.push(Entry { topic: copy_bytes(topic), list });
                proof {
                    let n = old(self).entries@.len() as int;
                    assert(self.entries@[n].topic@ == topic@);
                    assert(list@ =~= seq![s]);
                    assert forall|i: int| 0 <= i < n implies (#[trigger] self.entries@[i]).topic@
                        != topic@ by {
                        if self.entries@[i].topic@ == topic@ {
                            assert(old(self).is_at(topic@, i));
                        }
                    }
                    assert(self.wf());
                    assert forall|t: Seq<u8>| self@.contains_key(t) <==> (t == topic@ || old(
                        self,
                    )@.contains_key(t)) by {
                        if old(self).has(t) {
                            let i = choose|i: int| old(self).is_at(t, i);
                            assert(self.is_at(t, i));
                        }
                        if self.has(t) {
                            let i = choose|i: int| self.is_at(t, i);
                            if i < n {
                                assert(old(self).is_at(t, i));
                            }
                        }
                        if t == topic@ {
                            assert(self.is_at(t, n));
                        }
                    }
                    assert forall|t: Seq<u8>| self@.contains_key(t) implies self@[t] == (if t
                        == topic@ {
                        seq![s]
                    } else {
                        old(self)@[t]
                    }) by {
                        if t == topic@ {
                            self.at_place(t, n);
                        } else {
                            let i = choose|i: int| old(self).is_at(t, i);
                            assert(self.is_at(t, i));
                            self.at_place(t, i);
                            old(self).at_place(t, i);
                        }
                    }
                    assert(self@ =~= subscribed(old(self)@, topic@, s));
                }
            },
        }
    }

    /// What a change of one list does to the table.
    proof fn changed_at(&self, before: Shard, topic: Seq<u8>, i: int)
        requires
            before.wf(),
            before.is_at(topic, i),
            self.entries@.len() == before.entries@.len(),
            self.entries@[i].topic@ == topic,
            self.entries@[i].list@.len() > 0,
            forall|j: int|
                0 <= j < self.entries@.len() && j != i ==> #[trigger] self.entries@[j]
                    == before.entries@[j],
        ensures
            self.wf(),
            self@ == before@.insert(topic, self.entries@[i].list@),
    {
        assert forall|j: int| 0 <= j < self.entries@.len() implies (
        #[trigger] self.entries@[j]).topic@ == before.entries@[j].topic@ by {}
        assert(self.wf());
        before.at_place(topic, i);
        assert(self.is_at(topic, i));
        self.at_place(topic, i);
        assert forall|t: Seq<u8>| self@.contains_key(t) <==> before@.contains_key(t) by {
            if self.has(t) {
                let j = choose|j: int| self.is_at(t, j);
                assert(before.is_at(t, j));
            }
            if before.has(t) {
                let j = choose|j: int| before.is_at(t, j);
                assert(self.is_at(t, j));
            }
        }
        assert forall|t: Seq<u8>| self@.contains_key(t) && t != topic implies self@[t]
            == before@[t] by {
            let j = choose|j: int| self.is_at(t, j);
            assert(before.is_at(t, j));
            self.at_place(t, j);
            before.at_place(t, j);
        }
        assert(self@ =~= before@.insert(topic, self.entries@[i].list@));
    }

    /// Ends the subscriptions of a connection to a topic.
    pub fn unsubscribe(&mut self, topic: &[u8], id: u64)
        requires
            old(self).wf(),
        ensures
            final(self).wf(),
            final(self)@ == unsubscribed(old(self)@, topic@, id),
    {
        match self.find(topic) {
            None => {},
            Some(i) => {
                let kept = retain_others(&self.entries[i].list, id);
                if kept.len() == 0 {
                    self.entries.swap_remove(i);
                    proof {
                        self.removed_at(*old(self), topic@, i as int);
                    }
                } else {
                    self.entries[i].list = kept;
                    proof {
                        self.changed_at(*old(self), topic@, i as int);
                    }
                }
            },
        }
    }

    /// What the removal of one entry does to the table.
    proof fn removed_at(&self, before: Shard, topic: Seq<u8>, i: int)
        requires
            before.wf(),
            before.is_at(topic, i),
            self.entries@.len() == before.entries@.len() - 1,
            forall|j: int|
                0 <= j < self.entries@.len() ==> #[trigger] self.entries@[j] == (if j == i {
                    before.entries@[before.entries@.len() - 1]
                } else {
                    before.entries@[j]
                }),
        ensures
            self.wf(),
            self@ == before@.remove(topic),
    {
        let last = before.entries@.len() - 1;
        assert(self.wf()) by {
            assert forall|a: int, b: int| 0 <= a < b < self.entries@.len() implies (
            #[trigger] self.entries@[a]).topic@ != (#[trigger] self.entries@[b]).topic@ by {
                let x = if a == i {
                    last
                } else {
                    a
                };
                let y = if b == i {
                    last
                } else {
                    b
                };
                assert(before.entries@[x].topic@ != before.entries@[y].topic@);
            }
        }
        before.at_place(topic, i);
        assert forall|t: Seq<u8>| self@.contains_key(t) <==> (t != topic && before@.contains_key(t))
            by {
            if self.has(t) {
                let j = choose|j: int| self.is_at(t, j);
                let x = if j == i {
                    last
                } else {
                    j
                };
                assert(before.is_at(t, x));
                before.at_place(t, x);
            }
            if before.has(t) && t != topic {
                let j = choose|j: int| before.is_at(t, j);
                let x = if j == last {
                    i
                } else {
                    j
                };
                assert(j != i);
                assert(self.is_at(t, x));
            }
        }
        assert forall|t: Seq<u8>| self@.contains_key(t) implies self@[t] == before@[t] by {
            let j = choose|j: int| self.is_at(t, j);
            let x = if j == i {
                last
            } else {
                j
            };
            assert(before.is_at(t, x));
            before.at_place(t, x);
            self.at_place(t, j);
        }
        assert(self@ =~= before@.remove(topic));
    }

    /// Notes that records up to `pos` were handed to a topic's subscribers.
    pub fn mark_sent(&mut self, topic: &[u8], pos: u64)
        requires
            old(self).wf(),
        ensures
            final(self).wf(),
            final(self)@ == marked_sent(old(self)@, topic@, pos),
    {
        match self.find(topic) {
            None => {},
            Some(i) => {
                let moved = advance_all(&self.entries[i].list, pos);
                self.entries[i].list = moved;
                proof {
                    self.changed_at(*old(self), topic@, i as int);
                }
            },
        }
    }

    /// The least position over the subscribers of all topics, and `u64::MAX`
    /// where there are none.
    pub fn least_sent(&self) -> (pos: u64)
        requires
            self.wf(),
        ensures
            forall|t: Seq<u8>, k: int|
                self@.contains_key(t) && 0 <= k < self@[t].len() ==> pos <= (
                #[trigger] self@[t][k]).sent,
            pos == u64::MAX || exists|t: Seq<u8>, k: int|
                self@.contains_key(t) && 0 <= k < self@[t].len() && pos == (
                #[trigger] self@[t][k]).sent,
    {
        let mut pos: u64 = u64::MAX;
        let mut i: usize = 0;
        while i < self.entries.len()
            invariant
                self.wf(),
                i <= self.entries@.len(),
                forall|j: int, k: int|
                    0 <= j < i && 0 <= k < self.entries@[j].list@.len() ==> pos <= (
                    #[trigger] self.entries@[j].list@[k]).sent,
                pos == u64::MAX || exists|t: Seq<u8>, k: int|
                    self@.contains_key(t) && 0 <= k < self@[t].len() && pos == (
                    #[trigger] self@[t][k]).sent,
            decreases self.entries@.len() - i,
        {
            let least: u64 = least_of(&self.entries[i].list);
            proof {
                let list = self.entries@[i as int].list@;
                least_sent_is_least(list);
                let t = self.entries@[i as int].topic@;
                self.at_place(t, i as int);
                let k = choose|k: int|
                    0 <= k < list.len() && least_sent(list) == (#[trigger] list[k]).sent;
                assert(self@[t][k].sent == least);
            }
            if least < pos {
                pos = least;
            }
            i = i + 1;
        }
        proof {
            assert forall|t: Seq<u8>, k: int|
                self@.contains_key(t) && 0 <= k < self@[t].len() implies pos <= (
            #[trigger] self@[t][k]).sent by {
                let j = choose|j: int| self.is_at(t, j);
                self.at_place(t, j);
                assert(self.entries@[j].list@[k] == self@[t][k]);
            }
        }
        pos
    }
}

/// The subscribers of `list` other than `id`.
fn retain_others(list: &Vec<Subscriber>, id: u64) -> (kept: Vec<Subscriber>)
    ensures
        kept@ == without(list@, id),
{
    broadcast use vstd::seq_lib::group_filter_ensures;

    let mut kept: Vec<Subscriber> = Vec::new();
    let mut i: usize = 0;
    while i < list.len()
        invariant
            i <= list@.len(),
            kept@ == without(list@.take(i as int), id),
        decreases list@.len() - i,
    {
        proof {
            reveal(Seq::filter);
            assert(list@.take(i + 1).drop_last() =~= list@.take(i as int));
        }
        if list[i].id != id {
            kept.push(list[i]);
        }
        i = i + 1;
    }
    assert(list@.take(i as int) =~= list@);
    kept
}

/// The subscribers of `list`, none of them behind `pos`.
fn advance_all(list: &Vec<Subscriber>, pos: u64) -> (moved: Vec<Subscriber>)
    ensures
        moved@ == all_sent(list@, pos),
{
    let mut moved: Vec<Subscriber> = Vec::with_capacity(list.len());
    let mut i: usize = 0;
    while i < list.len()
        invariant
            i <= list@.len(),
            moved@ == all_sent(list@, pos).take(i as int),
        decreases list@.len() - i,
    {
        let s: Subscriber = list[i];
        let sent: u64 = if pos > s.sent {
            pos
        } else {
            s.sent
        };
        moved.push(Subscriber { id: s.id, sent });
        assert(moved@ =~= all_sent(list@, pos).take(i + 1));
        i = i + 1;
    }
    assert(moved@ =~= all_sent(list@, pos));
    moved
}

/// The least position in `list`.
fn least_of(list: &Vec<Subscriber>) -> (pos: u64)
    ensures
        pos == least_sent(list@),
{
    let mut pos: u64 = u64::MAX;
    let mut i: usize = 0;
    while i < list.len()
        invariant
            i <= list@.len(),
            pos == least_sent(list@.take(i as int)),
        decreases list@.len() - i,
    {
        assert(list@.take(i + 1).drop_last() =~= list@.take(i as int));
        if list[i].sent < pos {
            pos = list[i].sent;
        }
        i = i + 1;
    }
    assert(list@.take(i as int) =~= list@);
    pos
}

/// How often a connection stands in a list.
pub open spec fn occurrences(list: Seq<Subscriber>, id: u64) -> nat
    decreases list.len(),
{
    if list.len() == 0 {
        0
    } else {
        occurrences(list.drop_last(), id) + if list.last().id == id {
            1nat
        } else {
            0nat
        }
    }
}

/// Lists of the same connections, in the same order, have each as often.
pub proof fn occurrences_depend_on_connections(a: Seq<Subscriber>, b: Seq<Subscriber>, id: u64)
    requires
        a.len() == b.len(),
        forall|k: int| 0 <= k < a.len() ==> (#[trigger] a[k]).id == b[k].id,
    ensures
        occurrences(a, id) == occurrences(b, id),
    decreases a.len(),
{
    if a.len() > 0 {
        let (x, y) = (a.drop_last(), b.drop_last());
        assert forall|k: int| 0 <= k < x.len() implies (#[trigger] x[k]).id == y[k].id by {
            assert(a[k].id == b[k].id);
        }
        occurrences_depend_on_connections(x, y, id);
        assert(a[a.len() - 1].id == b[a.len() - 1].id);
    }
}

/// A subscription adds one entry and no more: the topic's list is one longer,
/// the new subscriber stands at its end, all before it is as it was, and so is
/// every other topic.
pub proof fn a_subscription_adds_one_entry(
    table: Map<Seq<u8>, Seq<Subscriber>>,
    topic: Seq<u8>,
    s: Subscriber,
    id: u64,
)
    ensures
        ({
            let after = subscribed(table, topic, s);
            let before = if table.contains_key(topic) {
                table[topic]
            } else {
                Seq::empty()
            };
            &&& after.contains_key(topic)
            &&& after[topic].len() == before.len() + 1
            &&& after[topic][before.len() as int] == s
            &&& forall|k: int| 0 <= k < before.len() ==> #[trigger] after[topic][k] == before[k]
            &&& occurrences(after[topic], id) == occurrences(before, id) + (if id == s.id {
                1int
            } else {
                0
            })
            &&& forall|t: Seq<u8>|
                t != topic ==> (#[trigger] after.contains_key(t) <==> table.contains_key(t))
            &&& forall|t: Seq<u8>|
                t != topic && #[trigger] table.contains_key(t) ==> after[t] == table[t]
        }),
{
    let after = subscribed(table, topic, s);
    let before = if table.contains_key(topic) {
        table[topic]
    } else {
        Seq::empty()
    };
    assert(after[topic].drop_last() =~= before);
}

/// Who is kept of a list keeps its place among those of its connection.
proof fn keeping_others(list: Seq<Subscriber>, id: u64, other: u64)
    requires
        other != id,
    ensures
        without(list, id).filter(|s: Subscriber| s.id == other) == list.filter(
            |s: Subscriber| s.id == other,
        ),
        occurrences(without(list, id), other) == occurrences(list, other),
        occurrences(without(list, id), id) == 0,
        without(list, id).len() + occurrences(list, id) == list.len(),
    decreases list.len(),
{
    reveal(Seq::filter);
    if list.len() > 0 {
        keeping_others(list.drop_last(), id, other);
        let w = without(list.drop_last(), id);
        if list.last().id != id {
            assert(without(list, id) =~= w.push(list.last()));
            assert(w.push(list.last()).drop_last() =~= w);
        }
    }
}

/// Leaving a topic takes all entries of the connection, and no others: every
/// other connection has its own entries, in their order; other topics are as
/// they were; and the topic goes where nobody is left.
pub proof fn leaving_takes_own_entries_only(
    table: Map<Seq<u8>, Seq<Subscriber>>,
    topic: Seq<u8>,
    id: u64,
    other: u64,
)
    requires
        other != id,
    ensures
        ({
            let after = unsubscribed(table, topic, id);
            let before = if table.contains_key(topic) {
                table[topic]
            } else {
                Seq::empty()
            };
            let left = if after.contains_key(topic) {
                after[topic]
            } else {
                Seq::empty()
            };
            &&& occurrences(left, id) == 0
            &&& left.len() + occurrences(before, id) == before.len()
            &&& left.filter(|s: Subscriber| s.id == other) == before.filter(
                |s: Subscriber| s.id == other,
            )
            &&& after.contains_key(topic) ==> left.len() > 0 || !table.contains_key(topic)
            &&& forall|t: Seq<u8>|
                t != topic ==> (#[trigger] after.contains_key(t) <==> table.contains_key(t))
            &&& forall|t: Seq<u8>|
                t != topic && #[trigger] table.contains_key(t) ==> after[t] == table[t]
        }),
{
    let before = if table.contains_key(topic) {
        table[topic]
    } else {
        Seq::empty()
    };
    keeping_others(before, id, other);
    if without(before, id).len() == 0 {
        assert(without(before, id) =~= Seq::<Subscriber>::empty());
    }
    reveal(Seq::filter);
}

/// Serving a topic moves each of its subscribers to the position, or leaves it
/// where it is further, keeps who they are and their order, and touches no
/// other topic.
pub proof fn serving_moves_everyone(
    table: Map<Seq<u8>, Seq<Subscriber>>,
    topic: Seq<u8>,
    pos: u64,
)
    ensures
        ({
            let after = marked_sent(table, topic, pos);
            &&& forall|t: Seq<u8>| #[trigger] after.contains_key(t) <==> table.contains_key(t)
            &&& forall|t: Seq<u8>|
                t != topic && #[trigger] table.contains_key(t) ==> after[t] == table[t]
            &&& table.contains_key(topic) ==> {
                &&& after[topic].len() == table[topic].len()
                &&& forall|k: int|
                    0 <= k < table[topic].len() ==> {
                        let (x, y) = (table[topic][k], #[trigger] after[topic][k]);
                        &&& y.id == x.id
                        &&& y.sent >= pos
                        &&& y.sent >= x.sent
                        &&& y.sent == pos || y.sent == x.sent
                    }
            }
        }),
{
}

} // verus!
