//! The audit of a ring file: its records must form a chain that ends exactly
//! at the committed position.

use super::file;
use super::file::{is_legal_size, RecoverError};
use super::header;
use super::header::{decode_header, RingHeader};
use super::log;
use super::log::Log;
use super::mem;
use crate::protocol::wire;
use vstd::prelude::*;

verus! {

broadcast use crate::protocol::wire::be32_len;

/// The length that the record at `p` says it has.
pub open spec fn record_len(w: Seq<u8>, p: int) -> int {
    8 + wire::u32_at(w, p) + wire::u32_at(w, p + 4)
}

/// Going from record to record, the chain that starts at `p` ends exactly at
/// the end of `w`.
pub open spec fn reaches_end(w: Seq<u8>, p: int) -> bool
    decreases w.len() - p,
{
    if p >= w.len() {
        p == w.len()
    } else {
        &&& 0 <= p
        &&& p + 8 <= w.len()
        &&& p + record_len(w, p) <= w.len()
        &&& reaches_end(w, p + record_len(w, p))
    }
}

/// How many records that chain has.
pub open spec fn chain_len(w: Seq<u8>, p: int) -> nat
    decreases w.len() - p,
{
    if p < 0 || p + 8 > w.len() || p + record_len(w, p) > w.len() {
        0
    } else {
        1 + chain_len(w, p + record_len(w, p))
    }
}

/// A chain that holds.
#[derive(Debug, Clone, Copy, PartialEq, Eq, Structural)]
pub struct Chain {
    /// How many bytes lie before its first record.
    pub skipped: usize,
    pub records: usize,
}

/// The outcome of an audit: of the chains that reach the end and have no more
/// than `limit` bytes before them, the one that starts first; none where there
/// is none. An empty window is in order.
pub open spec fn audited(w: Seq<u8>, limit: nat, r: Option<Chain>) -> bool {
    match r {
        Some(c) => {
            &&& c.skipped <= limit
            &&& reaches_end(w, c.skipped as int)
            &&& c.skipped < w.len() || w.len() == 0
            &&& c.records == chain_len(w, c.skipped as int)
            &&& forall|p: int| 0 <= p < c.skipped ==> !#[trigger] reaches_end(w, p)
        },
        None => w.len() > 0 && forall|p: int|
            0 <= p < w.len() && p <= limit ==> !#[trigger] reaches_end(w, p),
    }
}

/// How many bytes may lie before the first record of a ring of `size` bytes:
/// none as long as the ring has not gone round; else the rest of a record that
/// the window begins in, and no record takes more than half of the ring.
pub open spec fn torn_limit(committed: nat, size: nat) -> nat {
    if committed <= size {
        0
    } else {
        size / 2
    }
}

/// Follows the chain that starts at `p`: how many records it has, where it
/// reaches the end.
fn follow(w: &[u8], p: usize) -> (n: Option<usize>)
    requires
        p <= w@.len(),
    ensures
        n is Some <==> reaches_end(w@, p as int),
        n matches Some(k) ==> k == chain_len(w@, p as int),
{
    let mut q: usize = p;
    let mut n: usize = 0;
    while q < w.len()
        invariant
            p <= q <= w@.len(),
            n <= q,
            reaches_end(w@, p as int) == reaches_end(w@, q as int),
            chain_len(w@, p as int) == n + chain_len(w@, q as int),
        decreases w@.len() - q,
    {
        let left: usize = w.len() - q;
        if left < 8 {
            return None;
        }
        let len: u64 = 8 + wire::get_u32(w, q) as u64 + wire::get_u32(w, q + 4) as u64;
        if len > left as u64 {
            return None;
        }
        q = q + len as usize;
        n = n + 1;
    }
    Some(n)
}

/// Audits the bytes before the committed position, the oldest first, of which
/// `limit` may belong to a record that begins before them.
pub fn audit(w: &[u8], limit: usize) -> (r: Option<Chain>)
    ensures
        audited(w@, limit as nat, r),
{
    if w.len() == 0 {
        return Some(Chain { skipped: 0, records: 0 });
    }
    let mut p: usize = 0;
    while p < w.len() && p <= limit
        invariant
            p <= w@.len(),
            w@.len() > 0,
            forall|q: int| 0 <= q < p ==> !#[trigger] reaches_end(w@, q),
        decreases w@.len() - p,
    {
        if let Some(records) = follow(w, p) {
            return Some(Chain { skipped: p, records });
        }
        p = p + 1;
    }
    None
}

/// The bytes of a ring file before its committed position, the oldest first.
pub fn committed_window(slots: &[u8], committed: u64) -> (w: Vec<u8>)
    requires
        slots@.len() > 0,
    ensures
        w@ == mem::restored(slots@, committed as nat).bytes,
{
    let size: u64 = slots.len() as u64;
    let start: u64 = if committed > size {
        committed - size
    } else {
        0
    };
    let mut w: Vec<u8> = Vec::with_capacity((committed - start) as usize);
    let mut p: u64 = start;
    let ghost log = mem::restored(slots@, committed as nat);
    while p < committed
        invariant
            start <= p <= committed,
            size == slots@.len(),
            size > 0,
            log == mem::restored(slots@, committed as nat),
            start == log.start(),
            w@ == log.bytes.take(p - start),
        decreases committed - p,
    {
        assert(log.bytes[p - start] == slots@[p as int % slots@.len() as int]);
        w.push(slots[(p % size) as usize]);
        assert(w@ =~= log.bytes.take(p + 1 - start));
        p = p + 1;
    }
    assert(w@ =~= log.bytes);
    w
}

/// Audits a ring file: its header, and the chain before its committed position.
/// A chain must begin with the log, or, where the ring has gone round, with the
/// first record that is whole; a break anywhere behind that leaves none. A file
/// that cannot be recovered cannot be audited.
pub fn audit_file(head: &[u8], slots: &[u8]) -> (r: Result<
    (RingHeader, Option<Chain>),
    RecoverError,
>)
    ensures
        match r {
            Ok((h, chain)) => {
                &&& header::decoded(head@) == Some(h)
                &&& file::recovered(head@, slots@) matches Ok(log) && audited(
                    log.bytes,
                    torn_limit(h.committed as nat, slots@.len()),
                    chain,
                )
            },
            Err(e) => file::recovered(head@, slots@) == Err::<Log, RecoverError>(e),
        },
{
    match decode_header(head) {
        None => Err(RecoverError::Corrupt),
        Some(h) => if h.capacity == slots.len() as u64 && is_legal_size(slots.len()) {
            let w = committed_window(slots, h.committed);
            let limit: usize = if h.committed <= slots.len() as u64 {
                0
            } else {
                slots.len() / 2
            };
            Ok((h, audit(w.as_slice(), limit)))
        } else {
            Err(RecoverError::WrongSize)
        },
    }
}

/// Records, one behind the other.
pub open spec fn chained(records: Seq<(Seq<u8>, Seq<u8>)>) -> Seq<u8>
    decreases records.len(),
{
    if records.len() == 0 {
        Seq::empty()
    } else {
        log::record(records[0].0, records[0].1) + chained(records.skip(1))
    }
}

/// No record is longer than `longest`.
pub open spec fn storable(records: Seq<(Seq<u8>, Seq<u8>)>, longest: nat) -> bool {
    forall|i: int|
        0 <= i < records.len() ==> log::record((#[trigger] records[i]).0, records[i].1).len()
            <= longest
}

proof fn chain_of_records(front: Seq<u8>, records: Seq<(Seq<u8>, Seq<u8>)>)
    requires
        storable(records, u32::MAX as nat),
    ensures
        reaches_end(front + chained(records), front.len() as int),
        chain_len(front + chained(records), front.len() as int) == records.len(),
    decreases records.len(),
{
    let w = front + chained(records);
    let p = front.len() as int;
    if records.len() == 0 {
        assert(w =~= front);
    } else {
        let (topic, payload) = records[0];
        let rec = log::record(topic, payload);
        let later = records.skip(1);
        assert(w =~= front + rec + chained(later));
        assert(w.subrange(p, p + 4) =~= wire::be32(topic.len() as u32));
        assert(w.subrange(p + 4, p + 8) =~= wire::be32(payload.len() as u32));
        wire::u32_round_trip(topic.len() as u32, w, p);
        wire::u32_round_trip(payload.len() as u32, w, p + 4);
        assert forall|i: int| 0 <= i < later.len() implies log::record(
            (#[trigger] later[i]).0,
            later[i].1,
        ).len() <= u32::MAX by {
            assert(later[i] == records[i + 1]);
        }
        chain_of_records(front + rec, later);
        assert((front + rec).len() == p + record_len(w, p));
    }
}

/// Whole records pass the audit, with no more before them than may be torn.
pub proof fn records_pass_the_audit(
    torn: Seq<u8>,
    records: Seq<(Seq<u8>, Seq<u8>)>,
    limit: nat,
    r: Option<Chain>,
)
    requires
        records.len() > 0,
        storable(records, u32::MAX as nat),
        torn.len() <= limit,
        audited(torn + chained(records), limit, r),
    ensures
        r is Some,
        r->0.skipped <= torn.len(),
        torn.len() == 0 ==> r->0.skipped == 0 && r->0.records == records.len(),
{
    chain_of_records(torn, records);
    let w = torn + chained(records);
    assert(reaches_end(w, torn.len() as int));
    assert(chained(records).len() > 0) by {
        assert(log::record(records[0].0, records[0].1).len() >= 8);
    }
}

/// Where a stream of records is cut, the rest of one record comes before whole
/// ones.
proof fn cut_between_records(records: Seq<(Seq<u8>, Seq<u8>)>, n: int, longest: nat) -> (k: int)
    requires
        0 <= n <= chained(records).len(),
        storable(records, longest),
    ensures
        0 <= k <= records.len(),
        chained(records.skip(k)).len() <= chained(records).len() - n,
        chained(records).len() - n - chained(records.skip(k)).len() <= longest,
        chained(records).skip(n) == chained(records).subrange(
            n,
            chained(records).len() - chained(records.skip(k)).len(),
        ) + chained(records.skip(k)),
    decreases records.len(),
{
    let all = chained(records);
    if n == 0 || records.len() == 0 {
        assert(records.skip(0) =~= records);
        assert(all.skip(n) =~= all.subrange(n, n) + all);
        0
    } else {
        let rec = log::record(records[0].0, records[0].1);
        let later = records.skip(1);
        assert(storable(later, longest)) by {
            assert forall|i: int| 0 <= i < later.len() implies log::record(
                (#[trigger] later[i]).0,
                later[i].1,
            ).len() <= longest by {
                assert(later[i] == records[i + 1]);
            }
        }
        if n < rec.len() {
            assert(all.skip(n) =~= all.subrange(n, all.len() - chained(later).len()) + chained(
                later,
            ));
            1
        } else {
            let k = cut_between_records(later, n - rec.len(), longest);
            assert(later.skip(k) =~= records.skip(k + 1));
            let m = chained(later);
            let rest = chained(later.skip(k));
            assert(m.skip(n - rec.len()) =~= all.skip(n));
            assert(m.subrange(n - rec.len(), m.len() - rest.len()) =~= all.subrange(
                n,
                all.len() - rest.len(),
            ));
            k + 1
        }
    }
}

/// A log that is made of records passes the audit, whether or not the ring has
/// gone round: each record was one that the ring takes.
pub proof fn logs_pass_the_audit(
    records: Seq<(Seq<u8>, Seq<u8>)>,
    size: nat,
    r: Option<Chain>,
)
    requires
        size >= 2,
        storable(records, size / 2),
        storable(records, u32::MAX as nat),
        ({
            let all = chained(records);
            let start = if all.len() > size {
                all.len() - size
            } else {
                0
            };
            audited(all.skip(start), torn_limit(all.len(), size), r)
        }),
    ensures
        r is Some,
        chained(records).len() <= size ==> r->0.skipped == 0 && r->0.records == records.len(),
{
    let all = chained(records);
    if all.len() <= size {
        assert(all.skip(0) =~= Seq::<u8>::empty() + all);
        if records.len() > 0 {
            records_pass_the_audit(Seq::empty(), records, 0, r);
        } else {
            chain_of_records(Seq::empty(), records);
            assert(all =~= Seq::<u8>::empty());
            assert(reaches_end(all.skip(0), 0));
        }
    } else {
        let n = all.len() - size;
        let k = cut_between_records(records, n, size / 2);
        let whole = records.skip(k);
        let torn = all.subrange(n, all.len() - chained(whole).len());
        assert(storable(whole, u32::MAX as nat)) by {
            assert forall|i: int| 0 <= i < whole.len() implies log::record(
                (#[trigger] whole[i]).0,
                whole[i].1,
            ).len() <= u32::MAX by {
                assert(whole[i] == records[i + k]);
            }
        }
        if whole.len() == 0 {
            assert(chained(whole).len() == 0);
        }
        records_pass_the_audit(torn, whole, size / 2, r);
    }
}

/// The record that stands at `p`, by its own two length fields.
pub open spec fn record_at(w: Seq<u8>, p: int) -> (Seq<u8>, Seq<u8>) {
    let topic_len = wire::u32_at(w, p) as int;
    let payload_len = wire::u32_at(w, p + 4) as int;
    (
        w.subrange(p + 8, p + 8 + topic_len),
        w.subrange(p + 8 + topic_len, p + 8 + topic_len + payload_len),
    )
}

/// A chain that reaches the end is made of whole records.
proof fn chains_are_records(w: Seq<u8>, p: int) -> (records: Seq<(Seq<u8>, Seq<u8>)>)
    requires
        0 <= p <= w.len(),
        reaches_end(w, p),
    ensures
        w.skip(p) == chained(records),
        records.len() == chain_len(w, p),
        forall|i: int|
            0 <= i < records.len() ==> (#[trigger] records[i]).0.len() <= u32::MAX
                && records[i].1.len() <= u32::MAX,
    decreases w.len() - p,
{
    if p == w.len() {
        assert(w.skip(p) =~= chained(Seq::empty()));
        Seq::empty()
    } else {
        let (topic, payload) = record_at(w, p);
        let n = 8 + topic.len() + payload.len();
        wire::bytes_round_trip(w, p);
        wire::bytes_round_trip(w, p + 4);
        let rec = log::record(topic, payload);
        assert(rec =~= w.subrange(p, p + n)) by {
            assert forall|i: int| 0 <= i < n implies rec[i] == w[p + i] by {
                if i < 4 {
                    assert(w.subrange(p, p + 4)[i] == w[p + i]);
                } else if i < 8 {
                    assert(w.subrange(p + 4, p + 8)[i - 4] == w[p + i]);
                }
            }
        }
        let later = chains_are_records(w, p + n);
        let records = seq![(topic, payload)] + later;
        assert(records.skip(1) =~= later);
        assert(w.skip(p) =~= rec + w.skip(p + n));
        assert forall|i: int| 0 <= i < records.len() implies (#[trigger] records[i]).0.len()
            <= u32::MAX && records[i].1.len() <= u32::MAX by {
            if i > 0 {
                assert(records[i] == later[i - 1]);
            }
        }
        records
    }
}

/// The audit is sound: what it reports is there. From the reported start on,
/// the window is the bytes of exactly so many whole records, one behind the
/// other, and nothing else.
pub proof fn audits_report_whole_records(w: Seq<u8>, limit: nat, c: Chain) -> (records: Seq<
    (Seq<u8>, Seq<u8>),
>)
    requires
        audited(w, limit, Some(c)),
    ensures
        c.skipped <= limit,
        c.skipped <= w.len(),
        records.len() == c.records,
        w.skip(c.skipped as int) == chained(records),
{
    chains_are_records(w, c.skipped as int)
}

/// The audit is complete: a window that it refuses is no such thing. From no
/// place within the limit on is it the bytes of whole records.
pub proof fn refused_windows_hold_no_chain(
    w: Seq<u8>,
    limit: nat,
    p: int,
    records: Seq<(Seq<u8>, Seq<u8>)>,
)
    requires
        audited(w, limit, None),
        0 <= p < w.len(),
        p <= limit,
        storable(records, u32::MAX as nat),
    ensures
        w.skip(p) != chained(records),
{
    if w.skip(p) == chained(records) {
        chain_of_records(w.take(p), records);
        assert(w.take(p) + chained(records) =~= w);
    }
}

/// The lengths of records add up to that of their bytes.
pub proof fn record_lengths_add_up(records: Seq<(Seq<u8>, Seq<u8>)>)
    ensures
        chained(records).len() == records.fold_left(
            0nat,
            |n: nat, r: (Seq<u8>, Seq<u8>)| n + 8 + r.0.len() + r.1.len(),
        ),
    decreases records.len(),
{
    let f = |n: nat, r: (Seq<u8>, Seq<u8>)| n + 8 + r.0.len() + r.1.len();
    if records.len() > 0 {
        let last = records.last();
        chained_push(records.drop_last(), last);
        assert(records.drop_last().push(last) =~= records);
        record_lengths_add_up(records.drop_last());
        assert(records.fold_left(0nat, f) == f(records.drop_last().fold_left(0nat, f), last));
    }
}

proof fn chained_push(records: Seq<(Seq<u8>, Seq<u8>)>, r: (Seq<u8>, Seq<u8>))
    ensures
        chained(records.push(r)) == chained(records) + log::record(r.0, r.1),
    decreases records.len(),
{
    let more = records.push(r);
    if records.len() == 0 {
        assert(more.skip(1) =~= Seq::<(Seq<u8>, Seq<u8>)>::empty());
        assert(chained(more.skip(1)) =~= Seq::<u8>::empty());
        assert(chained(more) =~= chained(records) + log::record(r.0, r.1));
    } else {
        assert(more.skip(1) =~= records.skip(1).push(r));
        assert(more[0] == records[0]);
        chained_push(records.skip(1), r);
        assert(chained(more) =~= chained(records) + log::record(r.0, r.1));
    }
}

} // verus!
