//! Health and readiness, as the admin plane reports them.

use crate::bytes::texts_equal;
use vstd::prelude::*;

verus! {

/// How far the disk may lag behind before a file store counts as degraded:
/// 1 MiB.
pub const MAX_DURABLE_LAG: u64 = 1048576;

/// Bytes of a mebibyte.
pub const MIB: u64 = 1048576;

/// From so many undelivered messages on the broker is not ready.
pub const MAX_READY_BACKLOG: u64 = 10_000_000;

/// What the health report is made of.
pub struct HealthState {
    /// `mem` or `file`.
    pub store_type: String,
    pub store_capacity_mb: u64,
    pub store_usage_bytes: u64,
    pub write_pos: u64,
    pub durable_pos: u64,
    pub connections: u64,
    pub subscriptions: u64,
    /// Bytes appended per second of late.
    pub bytes_per_second: u64,
    /// Records that would overwrite undelivered ones are refused.
    pub rejects_overflow: bool,
}

#[derive(Debug, Clone)]
pub struct StoreHealth {
    pub store_type: String,
    pub capacity_mb: u64,
    pub used_mb: u64,
    pub durable_pos: u64,
    pub write_pos: u64,
    /// Time until the ring goes round; unknown when nothing is written.
    pub seconds_to_wrap: Option<u64>,
    pub overflow_policy: String,
}

#[derive(Debug, Clone)]
pub struct Checks {
    pub store_write: String,
    pub store_read: String,
    pub fsync: String,
}

/// The health report, but for the uptime.
#[derive(Debug, Clone)]
pub struct HealthStatus {
    pub status: String,
    pub version: String,
    pub connections: u64,
    pub subscriptions: u64,
    pub store: StoreHealth,
    pub checks: Checks,
}

impl HealthState {
    pub open spec fn is_file(&self) -> bool {
        self.store_type@ == "file"@
    }

    /// The disk keeps up, where there is one.
    pub open spec fn keeps_up(&self) -> bool {
        !self.is_file() || self.durable_pos + MAX_DURABLE_LAG >= self.write_pos
    }

    /// Bytes until the write position goes round, at a rate, in seconds.
    pub open spec fn wraps_in(&self) -> Option<u64> {
        let capacity = self.store_capacity_mb * MIB;
        if self.bytes_per_second == 0 || capacity == 0 || capacity > u64::MAX {
            None
        } else {
            Some(((capacity - self.write_pos as int % capacity) / self.bytes_per_second as int) as u64)
        }
    }

    /// An idle memory store.
    pub fn new() -> (s: HealthState)
        ensures
            s.store_type@ == "mem"@,
            s.store_capacity_mb == 0,
            s.store_usage_bytes == 0,
            s.write_pos == 0,
            s.durable_pos == 0,
            s.connections == 0,
            s.subscriptions == 0,
            s.bytes_per_second == 0,
            !s.rejects_overflow,
    {
        HealthState {
            store_type: "mem".to_owned(),
            store_capacity_mb: 0,
            store_usage_bytes: 0,
            write_pos: 0,
            durable_pos: 0,
            connections: 0,
            subscriptions: 0,
            bytes_per_second: 0,
            rejects_overflow: false,
        }
    }

    fn store_ok(&self) -> (yes: bool)
        ensures
            yes == self.keeps_up(),
    {
        !texts_equal(self.store_type.as_str(), "file") || self.durable_pos
            >= self.write_pos.saturating_sub(MAX_DURABLE_LAG)
    }

    fn seconds_to_wrap(&self) -> (s: Option<u64>)
        ensures
            s == self.wraps_in(),
    {
        if self.bytes_per_second == 0 || self.store_capacity_mb == 0 || self.store_capacity_mb
            > u64::MAX / MIB {
            return None;
        }
        let capacity: u64 = self.store_capacity_mb * MIB;
        Some((capacity - self.write_pos % capacity) / self.bytes_per_second)
    }
}

/// The health report, with its HTTP status code.
pub fn health_report(state: &HealthState) -> (r: (u16, HealthStatus))
    ensures
        ({
            let (code, report) = r;
            &&& code == if state.keeps_up() {
                200u16
            } else {
                503u16
            }
            &&& report.status@ == if state.keeps_up() {
                "healthy"@
            } else {
                "degraded"@
            }
            &&& report.version@ == "0.1.0"@
            &&& report.connections == state.connections
            &&& report.subscriptions == state.subscriptions
            &&& report.store.store_type@ == state.store_type@
            &&& report.store.capacity_mb == state.store_capacity_mb
            &&& report.store.used_mb == state.store_usage_bytes / MIB
            &&& report.store.durable_pos == state.durable_pos
            &&& report.store.write_pos == state.write_pos
            &&& report.store.seconds_to_wrap == state.wraps_in()
            &&& report.store.overflow_policy@ == if state.rejects_overflow {
                "reject"@
            } else {
                "overwrite"@
            }
            &&& report.checks.store_write@ == if state.keeps_up() {
                "ok"@
            } else {
                "fail"@
            }
            &&& report.checks.store_read@ == "ok"@
            &&& report.checks.fsync@ == if state.is_file() {
                "ok"@
            } else {
                "n/a"@
            }
        }),
{
    let ok = state.store_ok();
    let is_file = texts_equal(state.store_type.as_str(), "file");
    let code: u16 = if ok {
        200
    } else {
        503
    };
    let report = HealthStatus {
        status: (if ok {
            "healthy"
        } else {
            "degraded"
        }).to_owned(),
        version: "0.1.0".to_owned(),
        connections: state.connections,
        subscriptions: state.subscriptions,
        store: StoreHealth {
            store_type: state.store_type.clone(),
            capacity_mb: state.store_capacity_mb,
            used_mb: state.store_usage_bytes / MIB,
            durable_pos: state.durable_pos,
            write_pos: state.write_pos,
            seconds_to_wrap: state.seconds_to_wrap(),
            overflow_policy: (if state.rejects_overflow {
                "reject"
            } else {
                "overwrite"
            }).to_owned(),
        },
        checks: Checks {
            store_write: (if ok {
                "ok"
            } else {
                "fail"
            }).to_owned(),
            store_read: "ok".to_owned(),
            fsync: (if is_file {
                "ok"
            } else {
                "n/a"
            }).to_owned(),
        },
    };
    (code, report)
}

/// The HTTP status code of the readiness probe: the broker has been up for a
/// while, and not too much is undelivered.
pub fn ready_code(uptime_ns: u64, backlog: u64) -> (code: u16)
    ensures
        code == if uptime_ns > 0 && backlog < MAX_READY_BACKLOG {
            200u16
        } else {
            503u16
        },
        code == 200 <==> uptime_ns > 0 && backlog < 10_000_000,
{
    if uptime_ns > 0 && backlog < MAX_READY_BACKLOG {
        200
    } else {
        503
    }
}

/// A memory store is healthy whatever its positions are.
pub proof fn memory_is_healthy(s: HealthState)
    requires
        s.store_type@ != "file"@,
    ensures
        s.keeps_up(),
{
}

/// Everything on disk is healthy; and a store that is healthy stays so while
/// the disk catches up.
pub proof fn catching_up_is_healthy(s: HealthState, t: HealthState)
    requires
        s.store_type@ == t.store_type@,
        s.write_pos == t.write_pos,
        s.durable_pos <= t.durable_pos,
    ensures
        s.keeps_up() ==> t.keeps_up(),
        t.durable_pos >= t.write_pos ==> t.keeps_up(),
{
}

/// A store counts as degraded where it is a file and the disk is more than a
/// mebibyte behind, and in no other case.
pub proof fn a_lagging_disk_is_degraded(s: HealthState)
    ensures
        s.keeps_up() <==> !(s.store_type@ == "file"@ && s.write_pos - s.durable_pos > 1048576),
{
}

/// The time to wrap is told in whole seconds that are left for sure: at the
/// rate, so many seconds do not reach the place where the ring goes round, or
/// just reach it, and one second more passes it.
pub proof fn wraps_come_in_time(s: HealthState, turns: nat)
    requires
        s.wraps_in() is Some,
        turns * (s.store_capacity_mb * 1048576) <= s.write_pos < (turns + 1) * (
        s.store_capacity_mb * 1048576),
    ensures
        ({
            let wrap = (turns + 1) * (s.store_capacity_mb * 1048576);
            let seconds = s.wraps_in()->0;
            &&& s.write_pos + seconds * s.bytes_per_second <= wrap
            &&& s.write_pos + (seconds + 1) * s.bytes_per_second > wrap
        }),
{
    let capacity = s.store_capacity_mb * 1048576;
    let slot = s.write_pos - turns * capacity;
    assert((turns + 1) * capacity == turns * capacity + capacity) by (nonlinear_arith);
    vstd::arithmetic::div_mod::lemma_fundamental_div_mod_converse(
        s.write_pos as int,
        capacity,
        turns as int,
        slot,
    );
    let left = capacity - slot;
    let rate = s.bytes_per_second as int;
    vstd::arithmetic::div_mod::lemma_fundamental_div_mod(left, rate);
    vstd::arithmetic::div_mod::lemma_mod_bound(left, rate);
    let q = left / rate;
    assert(0 <= q <= left) by (nonlinear_arith)
        requires
            left == rate * q + left % rate,
            0 <= left % rate < rate,
            left >= 0,
            rate > 0,
    ;
    assert(q as u64 == q);
    assert(q * rate == rate * q && (q + 1) * rate == rate * q + rate) by (nonlinear_arith);
}

/// A ring that nothing is written to has no time to wrap.
pub proof fn idle_rings_do_not_wrap(s: HealthState)
    ensures
        s.wraps_in() is Some <==> s.bytes_per_second > 0 && 0 < s.store_capacity_mb * 1048576
            <= u64::MAX,
{
}

} // verus!
