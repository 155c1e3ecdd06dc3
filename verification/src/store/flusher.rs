//! The flusher: in which order slots, header and sync go to the disk, and when
//! the durable position moves.

use super::file;
use super::file::{idle_step, FileRing, FlushCycle, FlushStep, IdleStep, Segment};
use super::header;
use super::header::RingHeader;
use super::log::{Log, Store};
use super::modulo;
use super::persistence;
use super::retention;
use vstd::prelude::*;

verus! {

/// Exit status of a process whose disk fails.
pub const EXIT_IO: i32 = 70;

/// How far a flush has come.
#[derive(Debug, Clone, Copy, PartialEq, Eq, Structural)]
pub enum Stage {
    /// Nothing is in progress.
    Idle,
    /// Slots are being written.
    Writing(FlushCycle),
    /// Slots and header are written.
    Written(FlushCycle),
    /// Slots and header are synced.
    Synced(FlushCycle),
    /// The disk failed.
    Failed,
}

/// What is to be done next.
pub enum FlushAction {
    /// Write these into the slots.
    Write(Vec<Segment>),
    /// Write this header.
    Header(Vec<u8>),
    /// Sync the file.
    Sync,
    /// Tell those who wait that the log is durable up to here.
    Advance(u64),
    /// Nothing is new: sync where the step says so, then sleep.
    Rest(IdleStep),
    /// Stop the process with this status.
    Stop(i32),
}

/// The next action of a flush that has come to `c`, and the stage that it
/// leads to: a part of the slots, or, where all is written or memory no longer
/// has what comes next, the header that commits to what is written.
pub open spec fn is_write(log: Log, c: FlushCycle, action: FlushAction, stage: Stage) -> bool {
    match action {
        FlushAction::Write(segments) => stage matches Stage::Writing(d) && file::is_part(
            log,
            c,
            d,
            segments@,
        ),
        FlushAction::Header(bytes) => {
            &&& stage == Stage::Written(c)
            &&& c.at == c.target || c.at < log.start()
            &&& bytes@ == (RingHeader {
                capacity: log.capacity as u64,
                committed: c.at,
                write_pos: log.end as u64,
            }).encoded()
        },
        _ => false,
    }
}

/// What follows on a stage, with the log durable up to `durable`: the action,
/// the stage that it leads to, and up to where the log is durable then.
pub open spec fn is_next(
    stage: Stage,
    durable: nat,
    log: Log,
    since_sync_us: u64,
    action: FlushAction,
    next: Stage,
    durable_next: nat,
) -> bool {
    &&& stage !is Synced ==> durable_next == durable
    &&& match stage {
        Stage::Idle => if durable == log.end {
            action == FlushAction::Rest(file::idle(since_sync_us)) && next == Stage::Idle
        } else {
            is_write(
                log,
                FlushCycle {
                    at: file::flush_start(
                        durable as int,
                        log.end as int,
                        log.capacity as int,
                    ) as u64,
                    target: log.end as u64,
                },
                action,
                next,
            )
        },
        Stage::Writing(c) => is_write(log, c, action, next),
        Stage::Written(c) => action is Sync && next == Stage::Synced(c),
        Stage::Synced(c) => {
            &&& next == Stage::Idle
            &&& action matches FlushAction::Advance(pos) && pos == durable_next
            &&& durable_next == if c.at as nat > durable {
                c.at as nat
            } else {
                durable
            }
        },
        Stage::Failed => action == FlushAction::Stop(EXIT_IO) && next == Stage::Failed,
    }
}

/// Drives flushes, one action at a time.
pub struct Flusher {
    stage: Stage,
}

impl Flusher {
    pub closed spec fn stage(&self) -> Stage {
        self.stage
    }

    /// The flush in progress fits the ring.
    pub open spec fn fits(&self, ring: FileRing) -> bool {
        match self.stage() {
            Stage::Writing(c) => ring.admits(c),
            Stage::Written(c) => ring.admits(c),
            Stage::Synced(c) => ring.admits(c),
            _ => true,
        }
    }

    pub fn new() -> (f: Flusher)
        ensures
            f.stage() == Stage::Idle,
    {
        Flusher { stage: Stage::Idle }
    }

    /// The next action, given that the last one was done. The durable position
    /// moves only when slots and header are synced.
    pub fn next(&mut self, ring: &mut FileRing, since_sync_us: u64) -> (action: FlushAction)
        requires
            old(ring).wf(),
            old(self).fits(*old(ring)),
        ensures
            final(ring).wf(),
            final(ring).log() == old(ring).log(),
            final(self).fits(*final(ring)),
            old(self).stage() !is Synced ==> *final(ring) == *old(ring),
            is_next(
                old(self).stage(),
                old(ring).durable(),
                old(ring).log(),
                since_sync_us,
                action,
                final(self).stage(),
                final(ring).durable(),
            ),
    {
        match self.stage {
            Stage::Idle => {
                let c = ring.begin_flush();
                if c.at == c.target {
                    return FlushAction::Rest(idle_step(since_sync_us));
                }
                self.write_on(ring, c)
            },
            Stage::Writing(c) => self.write_on(ring, c),
            Stage::Written(c) => {
                self.stage = Stage::Synced(c);
                FlushAction::Sync
            },
            Stage::Synced(c) => {
                self.stage = Stage::Idle;
                FlushAction::Advance(ring.finish_flush(&c))
            },
            Stage::Failed => FlushAction::Stop(EXIT_IO),
        }
    }

    /// The next part of the slots, or the header behind the last one.
    fn write_on(&mut self, ring: &FileRing, c: FlushCycle) -> (action: FlushAction)
        requires
            ring.wf(),
            ring.admits(c),
        ensures
            final(self).fits(*ring),
            is_write(ring.log(), c, action, final(self).stage()),
    {
        let mut d = c;
        match ring.next_write(&mut d) {
            FlushStep::Write(segments) => {
                self.stage = Stage::Writing(d);
                FlushAction::Write(segments)
            },
            _ => {
                self.stage = Stage::Written(c);
                FlushAction::Header(ring.commit_header(&c))
            },
        }
    }

    /// Notes that an action failed: nothing more is flushed.
    pub fn failed(&mut self)
        ensures
            final(self).stage() == Stage::Failed,
    {
        self.stage = Stage::Failed;
    }
}

/// A flush in progress still fits after the log has grown.
pub proof fn growth_keeps_the_flush(f: Flusher, before: FileRing, after: FileRing)
    requires
        f.fits(before),
        after.log().end >= before.log().end,
        after.log().capacity == before.log().capacity,
    ensures
        f.fits(after),
{
}

/// The header of the file after an action was done.
pub open spec fn head_after(head: Seq<u8>, action: FlushAction) -> Seq<u8> {
    match action {
        FlushAction::Header(bytes) => bytes@,
        _ => head,
    }
}

/// The slots of the file after an action was done.
pub open spec fn slots_after(slots: Seq<u8>, action: FlushAction) -> Seq<u8> {
    match action {
        FlushAction::Write(segments) => file::all_written(slots, segments@),
        _ => slots,
    }
}

/// A header that commits to `pos`.
pub open spec fn commits_to(head: Seq<u8>, log: Log, pos: nat) -> bool {
    exists|h: RingHeader| #[trigger]
        h.encoded() == head && h.committed == pos && h.capacity == log.capacity
}

/// The file is what the stage says: its slots hold the log up to where the
/// flush has come, and its header commits to that, or to the durable position
/// as long as slots are being written.
pub open spec fn is_faithful(
    stage: Stage,
    durable: nat,
    log: Log,
    head: Seq<u8>,
    slots: Seq<u8>,
) -> bool {
    &&& durable <= log.end
    &&& match stage {
        Stage::Idle => file::mirrors(slots, log, durable as int) && commits_to(head, log, durable),
        Stage::Writing(c) => {
            &&& durable <= c.at <= c.target <= log.end
            &&& c.target - c.at <= log.capacity
            &&& file::mirrors(slots, log, c.at as int)
            &&& commits_to(head, log, durable)
        },
        Stage::Written(c) => {
            &&& durable <= c.at <= log.end
            &&& file::mirrors(slots, log, c.at as int)
            &&& commits_to(head, log, c.at as nat)
        },
        Stage::Synced(c) => {
            &&& durable <= c.at <= log.end
            &&& file::mirrors(slots, log, c.at as int)
            &&& commits_to(head, log, c.at as nat)
        },
        Stage::Failed => true,
    }
}

proof fn write_keeps_the_file(
    c: FlushCycle,
    durable: nat,
    log: Log,
    action: FlushAction,
    next: Stage,
    head: Seq<u8>,
    slots: Seq<u8>,
)
    requires
        log.wf(),
        log.end <= u64::MAX,
        is_faithful(Stage::Writing(c), durable, log, head, slots),
        is_write(log, c, action, next),
    ensures
        is_faithful(next, durable, log, head_after(head, action), slots_after(slots, action)),
{
    match action {
        FlushAction::Write(segments) => {
            let d = next->Writing_0;
            let after = file::all_written(slots, segments@);
            assert(file::is_flushed(slots, after, log, c.at as int, d.at as int));
            persistence::flush_extends_the_mirror(slots, after, log, c.at as int, d.at as int);
        },
        _ => {
            let h = RingHeader {
                capacity: log.capacity as u64,
                committed: c.at,
                write_pos: log.end as u64,
            };
            assert(h.encoded() == head_after(head, action));
        },
    }
}

/// Every action of the flusher keeps the file faithful, however far it lags
/// behind.
pub proof fn actions_keep_the_file(
    stage: Stage,
    durable: nat,
    log: Log,
    since_sync_us: u64,
    action: FlushAction,
    next: Stage,
    durable_next: nat,
    head: Seq<u8>,
    slots: Seq<u8>,
)
    requires
        log.wf(),
        log.end <= u64::MAX,
        is_next(stage, durable, log, since_sync_us, action, next, durable_next),
        is_faithful(stage, durable, log, head, slots),
    ensures
        is_faithful(next, durable_next, log, head_after(head, action), slots_after(slots, action)),
{
    match stage {
        Stage::Idle => if durable != log.end {
            let c = FlushCycle {
                at: file::flush_start(
                    durable as int,
                    log.end as int,
                    log.capacity as int,
                ) as u64,
                target: log.end as u64,
            };
            write_keeps_the_file(c, durable, log, action, next, head, slots);
        },
        Stage::Writing(c) => {
            write_keeps_the_file(c, durable, log, action, next, head, slots);
        },
        _ => {},
    }
}

/// A file stays faithful while the log grows.
pub proof fn growth_keeps_the_file(
    stage: Stage,
    durable: nat,
    earlier: Log,
    later: Log,
    head: Seq<u8>,
    slots: Seq<u8>,
)
    requires
        earlier.wf(),
        retention::extends(earlier, later),
        is_faithful(stage, durable, earlier, head, slots),
    ensures
        is_faithful(stage, durable, later, head, slots),
{
    match stage {
        Stage::Idle => persistence::growth_keeps_the_mirror(slots, earlier, later, durable as int),
        Stage::Writing(c) => persistence::growth_keeps_the_mirror(
            slots,
            earlier,
            later,
            c.at as int,
        ),
        Stage::Written(c) => persistence::growth_keeps_the_mirror(
            slots,
            earlier,
            later,
            c.at as int,
        ),
        Stage::Synced(c) => persistence::growth_keeps_the_mirror(
            slots,
            earlier,
            later,
            c.at as int,
        ),
        Stage::Failed => {},
    }
}

/// What is durable survives: between two flushes, a faithful file gives back
/// every byte before the durable position that the log still keeps.
pub proof fn faithful_files_give_back_what_is_durable(
    durable: nat,
    log: Log,
    head: Seq<u8>,
    slots: Seq<u8>,
    offset: int,
    len: int,
)
    requires
        log.wf(),
        file::legal_size(log.capacity),
        is_faithful(Stage::Idle, durable, log, head, slots),
        log.holds(offset, len),
        offset + len <= durable,
    ensures
        ({
            let r = file::recovered(head, slots);
            &&& r is Ok
            &&& r->Ok_0.read_result(offset, len) is Ok
            &&& r->Ok_0.at(offset, len) == log.at(offset, len)
        }),
{
    let h = choose|h: RingHeader| #[trigger]
        h.encoded() == head && h.committed == durable && h.capacity == log.capacity;
    persistence::durable_records_survive_a_restart(slots, log, h, offset, len);
}

/// What is durable is in the file, in every stage but the failed one: every
/// byte before the durable position that the log still keeps.
pub proof fn durable_bytes_are_on_file(
    stage: Stage,
    durable: nat,
    log: Log,
    head: Seq<u8>,
    slots: Seq<u8>,
)
    requires
        log.wf(),
        stage !is Failed,
        is_faithful(stage, durable, log, head, slots),
    ensures
        holds_durable(slots, log, durable),
{
}

/// The slots hold every byte before the durable position that the log keeps.
pub open spec fn holds_durable(slots: Seq<u8>, log: Log, durable: nat) -> bool {
    &&& slots.len() == log.capacity
    &&& forall|p: int|
        log.start() <= p < durable ==> #[trigger] slots[p % (log.capacity as int)] == log.bytes[p
            - log.start()]
}

/// What the medium may hold of a file that was written since it was synced:
/// of each slot what it held then or what was written.
pub open spec fn is_torn(synced: Seq<u8>, written: Seq<u8>, medium: Seq<u8>) -> bool {
    &&& medium.len() == synced.len()
    &&& forall|i: int|
        0 <= i < medium.len() ==> (#[trigger] medium[i] == synced[i] || medium[i] == written[i])
}

/// What is durable is on the medium, whatever of later writes got there: a
/// sync brings it there, and writes that are not synced yet spare it.
pub proof fn durable_bytes_are_on_the_medium(
    stage: Stage,
    durable: nat,
    log: Log,
    head: Seq<u8>,
    written: Seq<u8>,
    synced: Seq<u8>,
    medium: Seq<u8>,
)
    requires
        log.wf(),
        stage !is Failed,
        is_faithful(stage, durable, log, head, written),
        holds_durable(synced, log, durable),
        is_torn(synced, written, medium),
    ensures
        holds_durable(medium, log, durable),
{
    durable_bytes_are_on_file(stage, durable, log, head, written);
    assert forall|p: int| log.start() <= p < durable implies #[trigger] medium[p % (
    log.capacity as int)] == log.bytes[p - log.start()] by {
        modulo::slot_further(p, 0, log.capacity as int);
        assert(synced[p % (log.capacity as int)] == log.bytes[p - log.start()]);
        assert(written[p % (log.capacity as int)] == log.bytes[p - log.start()]);
    }
}

/// What a synced file holds is durable when the position moves: after a sync,
/// the medium holds all that the next durable position covers.
pub proof fn synced_bytes_may_become_durable(
    c: FlushCycle,
    durable: nat,
    log: Log,
    head: Seq<u8>,
    slots: Seq<u8>,
)
    requires
        log.wf(),
        is_faithful(Stage::Synced(c), durable, log, head, slots),
    ensures
        durable <= c.at,
        holds_durable(slots, log, c.at as nat),
{
}

/// The durable position never goes back, never passes the end of the log, and
/// moves only when what it covers is synced: a failed disk moves it no more.
pub proof fn durable_only_grows(
    stage: Stage,
    durable: nat,
    log: Log,
    since_sync_us: u64,
    action: FlushAction,
    next: Stage,
    durable_next: nat,
    head: Seq<u8>,
    slots: Seq<u8>,
)
    requires
        is_next(stage, durable, log, since_sync_us, action, next, durable_next),
        is_faithful(stage, durable, log, head, slots),
    ensures
        durable <= durable_next <= log.end,
        durable_next != durable ==> stage is Synced,
        stage is Failed ==> next is Failed && durable_next == durable,
{
}

/// The file of a new ring is faithful.
pub proof fn new_files_are_faithful(log: Log, write_pos: u64, slots: Seq<u8>)
    requires
        log.wf(),
        log.capacity <= u64::MAX,
        slots.len() == log.capacity,
    ensures
        is_faithful(
            Stage::Idle,
            0,
            log,
            (RingHeader { capacity: log.capacity as u64, committed: 0, write_pos }).encoded(),
            slots,
        ),
{
    let h = RingHeader { capacity: log.capacity as u64, committed: 0, write_pos };
    assert(h.encoded() == h.encoded() && h.committed == 0 && h.capacity == log.capacity);
}

/// A file that was recovered is faithful to the ring that it gave.
pub proof fn recovered_files_are_faithful(h: RingHeader, slots: Seq<u8>)
    requires
        file::recovered(h.encoded(), slots) is Ok,
    ensures
        ({
            let log = file::recovered(h.encoded(), slots)->Ok_0;
            is_faithful(Stage::Idle, log.end, log, h.encoded(), slots)
        }),
{
    header::header_round_trip(h, Seq::empty());
    assert(h.encoded() + Seq::<u8>::empty() =~= h.encoded());
    let log = file::recovered(h.encoded(), slots)->Ok_0;
    assert(h.encoded() == h.encoded() && h.committed == log.end && h.capacity == log.capacity);
    assert forall|p: int|
        log.start() <= p < log.end && log.end - log.capacity <= p implies #[trigger] slots[p % (
    log.capacity as int)] == log.bytes[p - log.start()] by {
        assert(log.bytes[p - log.start()] == slots[(log.start() + (p - log.start())) % (
        slots.len() as int)]);
    }
}

/// A file: what was written to it, and what of it was there when it was synced
/// last.
#[verifier::ext_equal]
pub struct Disk {
    pub head: Seq<u8>,
    pub slots: Seq<u8>,
    pub synced_head: Seq<u8>,
    pub synced_slots: Seq<u8>,
}

impl Disk {
    /// All that was written is synced.
    pub open spec fn synced(self) -> Disk {
        Disk { synced_head: self.head, synced_slots: self.slots, ..self }
    }

    /// The file after an action was done.
    pub open spec fn done(self, action: FlushAction) -> Disk {
        let after = Disk {
            head: head_after(self.head, action),
            slots: slots_after(self.slots, action),
            ..self
        };
        match action {
            FlushAction::Sync => after.synced(),
            FlushAction::Rest(step) => if step.sync {
                after.synced()
            } else {
                after
            },
            _ => after,
        }
    }
}

/// A header that commits to the durable position or beyond, but not beyond
/// the end of the log.
pub open spec fn commits_enough(head: Seq<u8>, log: Log, durable: nat) -> bool {
    exists|h: RingHeader| #[trigger]
        h.encoded() == head && h.capacity == log.capacity && durable <= h.committed <= log.end
}

/// A file keeps what is durable: it is faithful, and what of it is synced holds
/// and commits to what is durable, and to what becomes so next.
pub open spec fn is_safe(stage: Stage, durable: nat, log: Log, disk: Disk) -> bool {
    &&& is_faithful(stage, durable, log, disk.head, disk.slots)
    &&& holds_durable(disk.synced_slots, log, durable)
    &&& commits_enough(disk.synced_head, log, durable)
    &&& stage matches Stage::Synced(c) ==> {
        &&& holds_durable(disk.synced_slots, log, c.at as nat)
        &&& commits_to(disk.synced_head, log, c.at as nat)
    }
}

proof fn commits_exactly_is_enough(head: Seq<u8>, log: Log, pos: nat, durable: nat)
    requires
        commits_to(head, log, pos),
        durable <= pos <= log.end,
    ensures
        commits_enough(head, log, durable),
{
    let h = choose|h: RingHeader| #[trigger]
        h.encoded() == head && h.committed == pos && h.capacity == log.capacity;
    assert(h.encoded() == head && h.capacity == log.capacity && durable <= h.committed <= log.end);
}

/// The header of a safe file commits to enough in every stage.
proof fn heads_commit_enough(stage: Stage, durable: nat, log: Log, head: Seq<u8>, slots: Seq<u8>)
    requires
        stage !is Failed,
        is_faithful(stage, durable, log, head, slots),
    ensures
        commits_enough(head, log, durable),
{
    match stage {
        Stage::Idle => commits_exactly_is_enough(head, log, durable, durable),
        Stage::Writing(c) => commits_exactly_is_enough(head, log, durable, durable),
        Stage::Written(c) => commits_exactly_is_enough(head, log, c.at as nat, durable),
        Stage::Synced(c) => commits_exactly_is_enough(head, log, c.at as nat, durable),
        Stage::Failed => {},
    }
}

/// Every action of the flusher keeps the file safe: the durable position never
/// passes what was written and synced.
pub proof fn actions_keep_the_disk(
    stage: Stage,
    durable: nat,
    log: Log,
    since_sync_us: u64,
    action: FlushAction,
    next: Stage,
    durable_next: nat,
    disk: Disk,
)
    requires
        log.wf(),
        log.end <= u64::MAX,
        is_next(stage, durable, log, since_sync_us, action, next, durable_next),
        is_safe(stage, durable, log, disk),
    ensures
        is_safe(next, durable_next, log, disk.done(action)),
{
    actions_keep_the_file(
        stage,
        durable,
        log,
        since_sync_us,
        action,
        next,
        durable_next,
        disk.head,
        disk.slots,
    );
    if stage !is Failed {
        durable_bytes_are_on_file(stage, durable, log, disk.head, disk.slots);
        heads_commit_enough(stage, durable, log, disk.head, disk.slots);
    }
    if let Stage::Synced(c) = stage {
        commits_exactly_is_enough(disk.synced_head, log, c.at as nat, c.at as nat);
    }
}

/// A file stays safe while the log grows.
pub proof fn growth_keeps_the_disk(
    stage: Stage,
    durable: nat,
    earlier: Log,
    later: Log,
    disk: Disk,
)
    requires
        earlier.wf(),
        retention::extends(earlier, later),
        is_safe(stage, durable, earlier, disk),
    ensures
        is_safe(stage, durable, later, disk),
{
    growth_keeps_the_file(stage, durable, earlier, later, disk.head, disk.slots);
    let s = disk.synced_slots;
    assert forall|upto: nat|
        upto <= earlier.end && holds_durable(s, earlier, upto) implies #[trigger] holds_durable(
        s,
        later,
        upto,
    ) by {
        assert forall|p: int| later.start() <= p < upto implies #[trigger] s[p % (
        later.capacity as int)] == later.bytes[p - later.start()] by {
            assert(s[p % (earlier.capacity as int)] == earlier.bytes[p - earlier.start()]);
            assert(later.bytes[p - later.start()] == earlier.bytes[p - earlier.start()]);
        }
    }
    let h = choose|h: RingHeader| #[trigger]
        h.encoded() == disk.synced_head && h.capacity == earlier.capacity && durable <= h.committed
            <= earlier.end;
    assert(h.encoded() == disk.synced_head && h.capacity == later.capacity && durable
        <= h.committed <= later.end);
    if let Stage::Synced(c) = stage {
        let g = choose|g: RingHeader| #[trigger]
            g.encoded() == disk.synced_head && g.committed == c.at && g.capacity
                == earlier.capacity;
        assert(g.encoded() == disk.synced_head && g.committed == c.at && g.capacity
            == later.capacity);
    }
}

/// A file that is faithful and synced is safe, before any flush: so are those
/// of new and of recovered rings.
pub proof fn synced_files_are_safe(durable: nat, log: Log, disk: Disk)
    requires
        log.wf(),
        is_faithful(Stage::Idle, durable, log, disk.head, disk.slots),
    ensures
        is_safe(Stage::Idle, durable, log, disk.synced()),
{
    durable_bytes_are_on_file(Stage::Idle, durable, log, disk.head, disk.slots);
    heads_commit_enough(Stage::Idle, durable, log, disk.head, disk.slots);
}

/// What a file gives back whose slots hold what is durable and whose header
/// commits to it: every range before the durable position that the log keeps.
pub proof fn torn_files_give_back_what_is_durable(
    durable: nat,
    log: Log,
    head: Seq<u8>,
    slots: Seq<u8>,
    h: RingHeader,
    offset: int,
    len: int,
)
    requires
        log.wf(),
        file::legal_size(log.capacity),
        holds_durable(slots, log, durable),
        header::decoded(head) == Some(h),
        h.capacity == log.capacity,
        durable <= h.committed <= log.end,
        log.holds(offset, len),
        offset + len <= durable,
    ensures
        ({
            let r = file::recovered(head, slots);
            &&& r is Ok
            &&& r->Ok_0.end == h.committed
            &&& r->Ok_0.read_result(offset, len) is Ok
            &&& r->Ok_0.at(offset, len) == log.at(offset, len)
        }),
{
    let r = file::recovered(head, slots)->Ok_0;
    let size = log.capacity as int;
    assert forall|i: int| 0 <= i < len implies r.at(offset, len)[i] == log.at(offset, len)[i] by {
        let p = offset + i;
        assert(r.bytes[p - r.start()] == slots[(r.start() + (p - r.start())) % size]);
        assert(slots[p % size] == log.bytes[p - log.start()]);
    }
    assert(r.at(offset, len) =~= log.at(offset, len));
}

/// What the medium may hold of the slots while an action is under way: of each
/// what was synced, what was written before, or what the action writes.
pub open spec fn is_torn_by(disk: Disk, action: FlushAction, medium: Seq<u8>) -> bool {
    &&& medium.len() == disk.synced_slots.len()
    &&& forall|i: int|
        0 <= i < medium.len() ==> {
            ||| #[trigger] medium[i] == disk.synced_slots[i]
            ||| medium[i] == disk.slots[i]
            ||| medium[i] == disk.done(action).slots[i]
        }
}

/// The header on the medium reads as one that was synced, that was written
/// before, or that the action writes.
pub open spec fn is_header_of(disk: Disk, action: FlushAction, head: Seq<u8>, h: RingHeader) -> bool {
    &&& header::decoded(head) == Some(h)
    &&& h.encoded() == disk.synced_head || h.encoded() == disk.head || h.encoded() == disk.done(
        action,
    ).head
}

proof fn one_header_one_encoding(a: RingHeader, b: RingHeader)
    requires
        a.encoded() == b.encoded(),
    ensures
        a == b,
{
    header::header_round_trip(a, Seq::empty());
    header::header_round_trip(b, Seq::empty());
}

proof fn enough_of_this_header(h: RingHeader, log: Log, durable: nat)
    requires
        commits_enough(h.encoded(), log, durable),
    ensures
        h.capacity == log.capacity,
        durable <= h.committed <= log.end,
{
    let g = choose|g: RingHeader| #[trigger]
        g.encoded() == h.encoded() && g.capacity == log.capacity && durable <= g.committed
            <= log.end;
    one_header_one_encoding(g, h);
}

/// A kill at any moment loses nothing that is durable: in every stage but the
/// failed one, in the middle of any action, whatever part of it and of earlier
/// unsynced writes reached the medium, the file is recovered, and every range
/// before the durable position that the log keeps reads as it was.
pub proof fn kills_lose_nothing_durable(
    stage: Stage,
    durable: nat,
    log: Log,
    since_sync_us: u64,
    action: FlushAction,
    next: Stage,
    durable_next: nat,
    disk: Disk,
    head: Seq<u8>,
    slots: Seq<u8>,
    h: RingHeader,
    offset: int,
    len: int,
)
    requires
        log.wf(),
        log.end <= u64::MAX,
        file::legal_size(log.capacity),
        stage !is Failed,
        is_next(stage, durable, log, since_sync_us, action, next, durable_next),
        is_safe(stage, durable, log, disk),
        is_torn_by(disk, action, slots),
        is_header_of(disk, action, head, h),
        log.holds(offset, len),
        offset + len <= durable,
    ensures
        ({
            let r = file::recovered(head, slots);
            &&& r is Ok
            &&& r->Ok_0.read_result(offset, len) is Ok
            &&& r->Ok_0.at(offset, len) == log.at(offset, len)
        }),
{
    let after = disk.done(action);
    let size = log.capacity as int;
    actions_keep_the_disk(stage, durable, log, since_sync_us, action, next, durable_next, disk);
    durable_only_grows(
        stage,
        durable,
        log,
        since_sync_us,
        action,
        next,
        durable_next,
        disk.head,
        disk.slots,
    );
    durable_bytes_are_on_file(stage, durable, log, disk.head, disk.slots);
    heads_commit_enough(stage, durable, log, disk.head, disk.slots);
    durable_bytes_are_on_file(next, durable_next, log, after.head, after.slots);
    heads_commit_enough(next, durable_next, log, after.head, after.slots);
    assert forall|p: int| log.start() <= p < durable implies #[trigger] slots[p % size]
        == log.bytes[p - log.start()] by {
        modulo::slot_further(p, 0, size);
        assert(disk.synced_slots[p % size] == log.bytes[p - log.start()]);
        assert(disk.slots[p % size] == log.bytes[p - log.start()]);
        assert(after.slots[p % size] == log.bytes[p - log.start()]);
    }
    if h.encoded() == disk.synced_head || h.encoded() == disk.head {
        enough_of_this_header(h, log, durable);
    } else {
        enough_of_this_header(h, log, durable_next);
    }
    torn_files_give_back_what_is_durable(durable, log, head, slots, h, offset, len);
}

/// Stages of a flusher, each with the position up to which the log is durable,
/// as they follow on one another while the log stands still.
pub open spec fn is_flush(log: Log, trace: Seq<(Stage, nat)>) -> bool {
    forall|i: int| 0 <= i < trace.len() - 1 ==> #[trigger] follows(log, trace, i)
}

/// One stage of a flush follows on the one before it.
pub open spec fn follows(log: Log, trace: Seq<(Stage, nat)>, i: int) -> bool {
    exists|since_sync_us: u64, action: FlushAction|
        #[trigger] is_next(
            trace[i].0,
            trace[i].1,
            log,
            since_sync_us,
            action,
            trace[i + 1].0,
            trace[i + 1].1,
        )
}

/// A flush ends when all is done: a flusher that comes to rest again after it
/// began to flush a log that stands still has made all of it durable. Up to
/// that step the durable position does not move.
pub proof fn flushes_reach_the_end(log: Log, trace: Seq<(Stage, nat)>)
    requires
        log.wf(),
        log.end <= u64::MAX,
        is_flush(log, trace),
        trace.len() > 1,
        trace[0].0 is Idle,
        trace[0].1 < log.end,
        trace.last().0 is Idle,
        forall|i: int|
            0 < i < trace.len() - 1 ==> !((#[trigger] trace[i]).0 is Idle),
        forall|i: int| 0 <= i < trace.len() ==> !((#[trigger] trace[i]).0 is Failed),
    ensures
        trace.last().1 == log.end,
        forall|i: int| 0 <= i < trace.len() - 1 ==> (#[trigger] trace[i]).1 == trace[0].1,
{
    let n = trace.len() - 1;
    assert forall|i: int| 0 < i < n implies is_underway(log, trace[0].1, #[trigger] trace[i]) by {
        flushes_stay_underway(log, trace, i);
    }
    assert(follows(log, trace, 0));
    assert(follows(log, trace, n - 1));
    if n == 1 {
        first_step_writes(log, trace);
    } else {
        assert(is_underway(log, trace[0].1, trace[n - 1]));
    }
    assert forall|i: int| 0 <= i < n implies (#[trigger] trace[i]).1 == trace[0].1 by {
        if i > 0 {
            assert(is_underway(log, trace[0].1, trace[i]));
        }
    }
}

spec fn is_underway(log: Log, durable: nat, at: (Stage, nat)) -> bool {
    &&& at.1 == durable
    &&& match at.0 {
        Stage::Writing(c) => c.target == log.end && log.start() <= c.at,
        Stage::Written(c) => c.at == log.end,
        Stage::Synced(c) => c.at == log.end,
        _ => false,
    }
}

proof fn first_step_writes(log: Log, trace: Seq<(Stage, nat)>)
    requires
        log.wf(),
        log.end <= u64::MAX,
        trace.len() > 1,
        follows(log, trace, 0),
        trace[0].0 is Idle,
        trace[0].1 < log.end,
    ensures
        is_underway(log, trace[0].1, trace[1]),
{
}

proof fn flushes_stay_underway(log: Log, trace: Seq<(Stage, nat)>, i: int)
    requires
        log.wf(),
        log.end <= u64::MAX,
        is_flush(log, trace),
        trace[0].0 is Idle,
        trace[0].1 < log.end,
        forall|j: int|
            0 < j < trace.len() - 1 ==> !((#[trigger] trace[j]).0 is Idle),
        forall|j: int| 0 <= j < trace.len() ==> !((#[trigger] trace[j]).0 is Failed),
        0 < i < trace.len() - 1,
    ensures
        is_underway(log, trace[0].1, trace[i]),
    decreases i,
{
    assert(follows(log, trace, i - 1));
    if i == 1 {
        first_step_writes(log, trace);
    } else {
        flushes_stay_underway(log, trace, i - 1);
        assert(!(trace[i].0 is Idle));
    }
}

/// After a failure nothing is done but to stop, with the exit code of a failed
/// I/O operation.
pub proof fn failed_flushers_stop(
    durable: nat,
    log: Log,
    since_sync_us: u64,
    action: FlushAction,
    next: Stage,
    durable_next: nat,
)
    requires
        is_next(Stage::Failed, durable, log, since_sync_us, action, next, durable_next),
    ensures
        action == FlushAction::Stop(70),
        next is Failed,
        durable_next == durable,
{
}

} // verus!
