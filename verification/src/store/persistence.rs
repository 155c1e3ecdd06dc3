//! Laws of the persistent ring: what a file gives back.

use super::file;
use super::file::RecoverError;
use super::header;
use super::header::RingHeader;
use super::log::Log;
use super::mem;
use super::modulo;
use super::retention;
use vstd::prelude::*;

verus! {

/// A flush that starts where the last one ended keeps the file a mirror of the
/// log, up to where it gets.
pub proof fn flush_extends_the_mirror(
    before: Seq<u8>,
    after: Seq<u8>,
    log: Log,
    from: int,
    to: int,
)
    requires
        log.wf(),
        file::mirrors(before, log, from),
        file::is_flushed(before, after, log, from, to),
        log.start() <= from <= to <= log.end,
        to - from <= log.capacity,
    ensures
        file::mirrors(after, log, to),
{
    let size = log.capacity as int;
    assert forall|p: int| log.start() <= p < to && to - size <= p implies #[trigger] after[p % size]
        == log.bytes[p - log.start()] by {
        if p < from {
            modulo::slot_further(p, 0, size);
            if file::slot_in(p % size, size, from, to) {
                let q = choose|q: int| from <= q < to && #[trigger] (q % size) == p % size;
                modulo::slots_are_distinct(p, q, size);
            }
            assert(before[p % size] == log.bytes[p - log.start()]);
        }
    }
}

/// Two parts of a flush, one behind the other, are a flush of both.
pub proof fn flushes_compose(
    first: Seq<u8>,
    second: Seq<u8>,
    third: Seq<u8>,
    log: Log,
    from: int,
    mid: int,
    to: int,
)
    requires
        log.wf(),
        first.len() == log.capacity,
        file::is_flushed(first, second, log, from, mid),
        file::is_flushed(second, third, log, mid, to),
        from <= mid <= to,
        to - from <= log.capacity,
    ensures
        file::is_flushed(first, third, log, from, to),
{
    let size = log.capacity as int;
    assert forall|p: int| from <= p < to implies #[trigger] third[p % size] == log.bytes[p
        - log.start()] by {
        if p < mid {
            modulo::slot_further(p, 0, size);
            if file::slot_in(p % size, size, mid, to) {
                let q = choose|q: int| mid <= q < to && #[trigger] (q % size) == p % size;
                modulo::slots_are_distinct(p, q, size);
            }
            assert(second[p % size] == log.bytes[p - log.start()]);
        }
    }
    assert forall|i: int| 0 <= i < first.len() && !file::slot_in(i, size, from, to) implies (
    #[trigger] third[i]) == first[i] by {
        if file::slot_in(i, size, from, mid) {
            let q = choose|q: int| from <= q < mid && #[trigger] (q % size) == i;
            assert(from <= q < to && q % size == i);
        }
        if file::slot_in(i, size, mid, to) {
            let q = choose|q: int| mid <= q < to && #[trigger] (q % size) == i;
            assert(from <= q < to && q % size == i);
        }
        assert(second[i] == first[i]);
    }
}

/// The file of a new ring mirrors it.
pub proof fn new_file_mirrors(slots: Seq<u8>, log: Log)
    requires
        slots.len() == log.capacity,
    ensures
        file::mirrors(slots, log, 0),
{
}

/// A file stays a mirror while the log grows.
pub proof fn growth_keeps_the_mirror(slots: Seq<u8>, earlier: Log, later: Log, upto: int)
    requires
        earlier.wf(),
        retention::extends(earlier, later),
        file::mirrors(slots, earlier, upto),
        upto <= earlier.end,
    ensures
        file::mirrors(slots, later, upto),
{
    let size = later.capacity as int;
    assert forall|p: int|
        later.start() <= p < upto && upto - size <= p implies #[trigger] slots[p % size]
        == later.bytes[p - later.start()] by {
        assert(slots[p % size] == earlier.bytes[p - earlier.start()]);
    }
}

/// What was committed comes back: a file that mirrors the log up to the
/// position in its header gives a log that ends there and agrees with what
/// the log keeps. If nothing was appended since, it is the log.
pub proof fn recovery_gives_back_what_was_committed(slots: Seq<u8>, log: Log, h: RingHeader)
    requires
        log.wf(),
        file::legal_size(log.capacity),
        file::mirrors(slots, log, h.committed as int),
        h.committed <= log.end,
        h.capacity == log.capacity,
    ensures
        ({
            let r = file::recovered(h.encoded(), slots);
            &&& r is Ok
            &&& r->Ok_0.wf()
            &&& r->Ok_0.end == h.committed
            &&& retention::extends(r->Ok_0, log)
            &&& h.committed == log.end ==> r->Ok_0.bytes == log.bytes
        }),
{
    header::header_round_trip(h, Seq::empty());
    assert(h.encoded() + Seq::<u8>::empty() =~= h.encoded());
    let r = mem::restored(slots, h.committed as nat);
    let size = log.capacity as int;
    assert(r.wf());
    assert forall|p: int| log.start() <= p < r.end implies #[trigger] log.bytes[p - log.start()]
        == r.bytes[p - r.start()] by {
        assert(r.bytes[p - r.start()] == slots[p % size]);
    }
    if h.committed == log.end {
        assert forall|i: int| 0 <= i < log.bytes.len() implies log.bytes[i] == r.bytes[i] by {
            let p = log.start() + i;
            assert(log.bytes[p - log.start()] == r.bytes[p - r.start()]);
        }
        assert(r.bytes =~= log.bytes);
    }
}

/// A record that was durable can be read after a restart, as it was: it lies
/// before the committed position, and less than a ring before it.
pub proof fn durable_records_survive_a_restart(
    slots: Seq<u8>,
    log: Log,
    h: RingHeader,
    offset: int,
    len: int,
)
    requires
        log.wf(),
        file::legal_size(log.capacity),
        file::mirrors(slots, log, h.committed as int),
        h.committed <= log.end,
        h.capacity == log.capacity,
        log.holds(offset, len),
        offset + len <= h.committed,
    ensures
        ({
            let r = file::recovered(h.encoded(), slots);
            &&& r is Ok
            &&& r->Ok_0.read_result(offset, len) is Ok
            &&& r->Ok_0.at(offset, len) == log.at(offset, len)
        }),
{
    recovery_gives_back_what_was_committed(slots, log, h);
    let r = file::recovered(h.encoded(), slots)->Ok_0;
    assert forall|i: int| 0 <= i < len implies r.at(offset, len)[i] == log.at(offset, len)[i] by {
        let p = offset + i;
        assert(log.bytes[p - log.start()] == r.bytes[p - r.start()]);
    }
    assert(r.at(offset, len) =~= log.at(offset, len));
}

/// A crash in the middle of a flush loses nothing that the flush did not go
/// round to overwrite: with the old header still in place, every committed
/// byte less than a turn behind what was written is given back.
pub proof fn torn_flush_keeps_committed(
    before: Seq<u8>,
    after: Seq<u8>,
    log: Log,
    h: RingHeader,
    reached: int,
    p: int,
)
    requires
        log.wf(),
        file::legal_size(log.capacity),
        h.capacity == log.capacity,
        file::mirrors(before, log, h.committed as int),
        file::is_flushed(before, after, log, h.committed as int, reached),
        h.committed <= reached <= log.end,
        reached - h.committed <= log.capacity,
        log.start() <= p < h.committed,
        reached - log.capacity <= p,
    ensures
        ({
            let r = file::recovered(h.encoded(), after);
            &&& r is Ok
            &&& r->Ok_0.end == h.committed
            &&& r->Ok_0.bytes[p - r->Ok_0.start()] == log.bytes[p - log.start()]
        }),
{
    header::header_round_trip(h, Seq::empty());
    assert(h.encoded() + Seq::<u8>::empty() =~= h.encoded());
    let size = log.capacity as int;
    let r = mem::restored(after, h.committed as nat);
    modulo::slot_further(p, 0, size);
    if file::slot_in(p % size, size, h.committed as int, reached) {
        let q = choose|q: int| h.committed <= q < reached && #[trigger] (q % size) == p % size;
        modulo::slots_are_distinct(p, q, size);
    }
    assert(before[p % size] == log.bytes[p - log.start()]);
    assert(after[p % size] == before[p % size]);
    assert(r.bytes[p - r.start()] == after[p % size]);
}

/// What lies beyond the committed position in a file does not matter: files
/// that agree on the slots of the committed window give the same log.
pub proof fn torn_tail_is_ignored(a: Seq<u8>, b: Seq<u8>, h: RingHeader)
    requires
        a.len() == h.capacity,
        b.len() == h.capacity,
        file::legal_size(a.len()),
        forall|p: int|
            0 <= p < h.committed && h.committed - h.capacity <= p ==> #[trigger] a[p % (
            h.capacity as int)] == b[p % (h.capacity as int)],
    ensures
        file::recovered(h.encoded(), a) == file::recovered(h.encoded(), b),
        file::recovered(h.encoded(), a) is Ok,
{
    header::header_round_trip(h, Seq::empty());
    assert(h.encoded() + Seq::<u8>::empty() =~= h.encoded());
    let ra = mem::restored(a, h.committed as nat);
    let rb = mem::restored(b, h.committed as nat);
    assert forall|i: int| 0 <= i < ra.bytes.len() implies ra.bytes[i] == rb.bytes[i] by {
        let p = ra.start() + i;
        assert(a[p % (h.capacity as int)] == b[p % (h.capacity as int)]);
    }
    assert(ra.bytes =~= rb.bytes);
}

/// A file whose header is broken in both slots is refused.
pub proof fn broken_header_is_refused(head: Seq<u8>, slots: Seq<u8>)
    requires
        header::slot_at(head, 0) is None,
        header::slot_at(head, 64) is None,
    ensures
        file::recovered(head, slots) == Err::<Log, RecoverError>(RecoverError::Corrupt),
{
}

} // verus!
