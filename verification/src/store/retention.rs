//! Laws of the log: what stays readable, and for how long.

use super::log;
use super::log::{Log, StoreError};
use super::record;
use vstd::prelude::*;

verus! {

broadcast use crate::protocol::wire::be32_len;

/// An append keeps a log well-formed.
pub proof fn append_keeps_wf(l: Log, rec: Seq<u8>)
    requires
        l.wf(),
    ensures
        l.after_append(rec).wf(),
        l.after_append(rec).capacity == l.capacity,
        l.after_append(rec).keep_from == l.keep_from,
        l.after_append(rec).start() >= l.start(),
        l.append_result(rec) is Ok ==> l.after_append(rec).end == l.end + rec.len(),
{
}

/// What an append reports can be read back at once, and is the record.
pub proof fn append_then_read(l: Log, topic: Seq<u8>, payload: Seq<u8>)
    requires
        l.wf(),
        l.append_result(log::record(topic, payload)) is Ok,
        topic.len() <= u32::MAX,
        payload.len() <= u32::MAX,
    ensures
        ({
            let offset = l.end as int;
            let len = log::record(topic, payload).len() as int;
            let after = l.after_append(log::record(topic, payload));
            &&& l.append_result(log::record(topic, payload)) == Ok::<(u64, u32), StoreError>(
                (offset as u64, len as u32),
            )
            &&& after.read_result(offset, len) is Ok
            &&& after.at(offset, len) == log::record(topic, payload)
            &&& record::decoded(after.at(offset, len)) == Some((topic, payload))
        }),
{
    let rec = log::record(topic, payload);
    let after = l.after_append(rec);
    assert(after.at(l.end as int, rec.len() as int) =~= rec);
    record::record_round_trip(topic, payload, Seq::empty());
    assert(rec + Seq::<u8>::empty() =~= rec);
}

/// A range that is still kept after an append holds what it held before.
pub proof fn append_keeps_bytes(l: Log, rec: Seq<u8>, offset: int, len: int)
    requires
        l.wf(),
        l.holds(offset, len),
        l.after_append(rec).start() <= offset,
    ensures
        l.after_append(rec).holds(offset, len),
        l.after_append(rec).at(offset, len) == l.at(offset, len),
{
    assert(l.after_append(rec).at(offset, len) =~= l.at(offset, len));
}

/// Positions only grow: each record lies wholly behind the one before it.
pub proof fn positions_grow(l: Log, first: Seq<u8>, second: Seq<u8>)
    requires
        l.wf(),
        l.append_result(first) is Ok,
        l.after_append(first).append_result(second) is Ok,
        l.end + first.len() + second.len() <= u64::MAX,
        first.len() <= u32::MAX,
    ensures
        ({
            let (offset, len) = l.append_result(first)->Ok_0;
            let (next, _) = l.after_append(first).append_result(second)->Ok_0;
            next == offset + len
        }),
{
}

/// A log that may overwrite refuses only what is too large for it.
pub proof fn overwriting_never_rejects(l: Log, rec: Seq<u8>)
    requires
        l.keep_from is None,
    ensures
        l.append_result(rec) is Err <==> rec.len() > l.capacity / 2,
        l.append_result(rec) != Err::<(u64, u32), StoreError>(StoreError::Overflow),
{
}

/// A log that must keep what lies behind its watermark does keep it: after an
/// append, every byte from the watermark on that was there still is, unchanged.
pub proof fn rejecting_keeps_undelivered(l: Log, rec: Seq<u8>, offset: int, len: int)
    requires
        l.wf(),
        l.keep_from is Some,
        l.keep_from->0 <= offset,
        l.holds(offset, len),
    ensures
        l.after_append(rec).holds(offset, len),
        l.after_append(rec).at(offset, len) == l.at(offset, len),
{
    append_keeps_bytes(l, rec, offset, len);
}

/// A refused record changes nothing.
pub proof fn refused_append_changes_nothing(l: Log, rec: Seq<u8>)
    requires
        l.append_result(rec) is Err,
    ensures
        l.after_append(rec) == l,
{
}

/// `later` is what became of `earlier`: it has grown, and what both keep is
/// the same in both.
pub open spec fn extends(earlier: Log, later: Log) -> bool {
    &&& later.wf()
    &&& later.capacity == earlier.capacity
    &&& later.end >= earlier.end
    &&& forall|p: int|
        later.start() <= p < earlier.end ==> #[trigger] later.bytes[p - later.start()]
            == earlier.bytes[p - earlier.start()]
}

/// An append, refused or not, and a new watermark make a later log.
pub proof fn append_extends(l: Log, watermark: u64, rec: Seq<u8>)
    requires
        l.wf(),
    ensures
        extends(l, l),
        extends(l, l.with_watermark(watermark)),
        extends(l, l.with_watermark(watermark).after_append(rec)),
{
    append_keeps_wf(l.with_watermark(watermark), rec);
}

/// Later than later is later.
pub proof fn extends_is_transitive(a: Log, b: Log, c: Log)
    requires
        a.wf(),
        extends(a, b),
        extends(b, c),
    ensures
        extends(a, c),
{
    assert forall|p: int| c.start() <= p < a.end implies #[trigger] c.bytes[p - c.start()]
        == a.bytes[p - a.start()] by {
        assert(b.bytes[p - b.start()] == a.bytes[p - a.start()]);
        assert(c.bytes[p - c.start()] == b.bytes[p - b.start()]);
    }
}

/// A range that was written stays readable and unchanged for as long as the
/// log has not grown by more than its capacity beyond where the range begins.
pub proof fn reads_survive_growth(earlier: Log, later: Log, offset: int, len: int)
    requires
        earlier.wf(),
        extends(earlier, later),
        earlier.holds(offset, len),
        later.end <= offset + later.capacity,
    ensures
        later.read_result(offset, len) is Ok,
        later.holds(offset, len),
        later.at(offset, len) == earlier.at(offset, len),
{
    assert forall|i: int| 0 <= i < len implies later.at(offset, len)[i] == earlier.at(
        offset,
        len,
    )[i] by {
        assert(later.bytes[offset + i - later.start()] == earlier.bytes[offset + i
            - earlier.start()]);
    }
    assert(later.at(offset, len) =~= earlier.at(offset, len));
}

/// An append, whatever comes of it, overwrites only bytes older than the last
/// `capacity` ones: a range that could be read, and begins no further back
/// than that afterwards, reads the same.
pub proof fn append_spares_what_is_kept(
    l: Log,
    topic: Seq<u8>,
    payload: Seq<u8>,
    offset: int,
    len: int,
)
    requires
        l.wf(),
        0 <= offset,
        0 <= len,
        l.read_result(offset, len) is Ok,
        l.after_append(log::record(topic, payload)).end - offset <= l.capacity,
    ensures
        l.after_append(log::record(topic, payload)).read_result(offset, len) is Ok,
        l.after_append(log::record(topic, payload)).at(offset, len) == l.at(offset, len),
{
    append_keeps_bytes(l, log::record(topic, payload), offset, len);
}

/// A record that was appended is read back, both lengths, topic and payload,
/// after whatever was appended since, until the log has grown by its capacity
/// from where the record begins. It does not matter where in the ring it lies.
pub proof fn appended_records_are_read_back(
    l: Log,
    topic: Seq<u8>,
    payload: Seq<u8>,
    later: Log,
)
    requires
        l.wf(),
        l.append_result(log::record(topic, payload)) is Ok,
        extends(l.after_append(log::record(topic, payload)), later),
        later.end - l.end <= later.capacity,
    ensures
        later.read_result(l.end as int, log::record(topic, payload).len() as int) is Ok,
        later.at(l.end as int, log::record(topic, payload).len() as int) == log::record(
            topic,
            payload,
        ),
{
    let rec = log::record(topic, payload);
    let after = l.after_append(rec);
    append_keeps_wf(l, rec);
    assert(after.at(l.end as int, rec.len() as int) =~= rec);
    reads_survive_growth(after, later, l.end as int, rec.len() as int);
}

/// The end of the log never goes back, and no record before it is torn: every
/// byte of an appended record that is still kept is the byte that was given.
pub proof fn records_before_the_end_are_whole(l: Log, rec: Seq<u8>, later: Log)
    requires
        l.wf(),
        extends(l.after_append(rec), later),
    ensures
        l.end <= l.after_append(rec).end <= later.end,
        l.append_result(rec) is Ok ==> l.end + rec.len() <= later.end && forall|p: int|
            l.end <= p < l.end + rec.len() && later.start() <= p ==> #[trigger] later.bytes[p
                - later.start()] == rec[p - l.end],
{
    let after = l.after_append(rec);
    append_keeps_wf(l, rec);
    if l.append_result(rec) is Ok {
        assert forall|p: int|
            l.end <= p < l.end + rec.len() && later.start() <= p implies #[trigger] later.bytes[p
            - later.start()] == rec[p - l.end] by {
            assert(later.bytes[p - later.start()] == after.bytes[p - after.start()]);
        }
    }
}

/// A record is refused for what is undelivered only where it would overwrite
/// some of it: with the record behind it, the log would begin beyond the
/// watermark.
pub proof fn refusals_are_necessary(l: Log, rec: Seq<u8>)
    requires
        l.wf(),
        rec.len() <= l.capacity / 2,
    ensures
        l.append_result(rec) == Err::<(u64, u32), StoreError>(StoreError::Overflow) <==> (
        l.keep_from matches Some(w) && l.end + rec.len() - l.capacity > w),
        l.append_result(rec) is Err ==> l.append_result(rec) == Err::<(u64, u32), StoreError>(
            StoreError::Overflow,
        ),
{
}

/// What an append reports is where the record lies: at the end of the log as
/// it was, and as long as it is.
pub proof fn appends_report_the_place(l: Log, rec: Seq<u8>)
    requires
        l.append_result(rec) is Ok,
        l.end <= u64::MAX,
        rec.len() <= u32::MAX,
    ensures
        l.append_result(rec)->Ok_0.0 == l.end,
        l.append_result(rec)->Ok_0.1 == rec.len(),
        l.after_append(rec).end == l.end + rec.len(),
{
}

/// A log keeps its last bytes: as many as its capacity, or all while there are
/// fewer. An append puts the record at their end, and what was there before
/// it.
pub proof fn the_last_bytes_are_kept(l: Log, rec: Seq<u8>, i: int)
    requires
        l.wf(),
        l.append_result(rec) is Ok,
    ensures
        ({
            let after = l.after_append(rec);
            let all = l.bytes + rec;
            &&& after.bytes.len() == if after.end < l.capacity {
                after.end
            } else {
                l.capacity
            }
            &&& 0 <= i < after.bytes.len() ==> after.bytes[after.bytes.len() - 1 - i]
                == all[all.len() - 1 - i]
        }),
{
}

/// A read gives what is asked for where the log has all of it. Else it tells
/// why: what was never written has no place, and what was written and is gone
/// is not found.
pub proof fn reads_fail_for_a_reason(l: Log, offset: int, len: int)
    requires
        l.wf(),
        0 <= offset,
        0 <= len,
    ensures
        l.read_result(offset, len) is Ok <==> l.end - l.bytes.len() <= offset && offset + len
            <= l.end,
        l.read_result(offset, len) == Err::<(), StoreError>(StoreError::InvalidOffset) <==> offset
            + len > l.end,
        l.read_result(offset, len) == Err::<(), StoreError>(StoreError::NotFound) <==> offset + len
            <= l.end && l.capacity < l.end && offset < l.end - l.capacity,
        l.read_result(offset, len) is Ok ==> l.at(offset, len).len() == len && forall|i: int|
            0 <= i < len ==> #[trigger] l.at(offset, len)[i] == l.bytes[l.bytes.len() - (l.end
                - offset) + i],
{
}

/// A watermark counts only where the log heeds one, and changes nothing else.
pub proof fn watermarks_change_nothing_else(l: Log, watermark: u64)
    ensures
        ({
            let after = l.with_watermark(watermark);
            &&& after.capacity == l.capacity
            &&& after.end == l.end
            &&& after.bytes == l.bytes
            &&& l.keep_from is None ==> after.keep_from is None
            &&& l.keep_from is Some ==> after.keep_from == Some(watermark)
        }),
{
}

} // verus!
