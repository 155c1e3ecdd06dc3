use zhensegg::health::{health_report, ready_code, HealthState};

fn state(store_type: &str, capacity_mb: u64, used: u64, write: u64, durable: u64) -> HealthState {
    HealthState {
        store_type: store_type.to_string(),
        store_capacity_mb: capacity_mb,
        store_usage_bytes: used,
        write_pos: write,
        durable_pos: durable,
        connections: 3,
        subscriptions: 4,
        bytes_per_second: 0,
        rejects_overflow: false,
    }
}

#[test]
fn health_mem_mode_is_healthy() {
    let s = state("mem", 256, 1024, 5000, 5000);
    assert_eq!(health_report(&s).0, 200);
}

#[test]
fn health_file_mode_caught_up_is_healthy() {
    let s = state("file", 1024, 2048, 5000, 5000);
    assert_eq!(health_report(&s).0, 200);
}

#[test]
fn health_file_mode_lagging_is_degraded() {
    let s = state("file", 1024, 2048, 2_000_000, 0);
    assert_eq!(health_report(&s).0, 503);
}

#[test]
fn health_body_reflects_state() {
    let s = state("file", 1024, 1024, 100, 100);
    let (_, body) = health_report(&s);
    assert_eq!(body.status, "healthy");
    assert_eq!(body.store.store_type, "file");
    assert_eq!(body.store.capacity_mb, 1024);
    assert_eq!(body.store.used_mb, 0);
    assert_eq!(body.store.write_pos, 100);
    assert_eq!(body.store.durable_pos, 100);
    assert_eq!(body.checks.store_write, "ok");
    assert!(!body.version.is_empty());
    assert_eq!(body.checks.store_read, "ok");
    assert_eq!(body.checks.fsync, "ok");
    assert_eq!((body.connections, body.subscriptions), (3, 4));
    assert_eq!(body.store.seconds_to_wrap, None);
    assert_eq!(body.store.overflow_policy, "overwrite");
}

#[test]
fn health_body_reflects_degraded_checks() {
    let s = state("file", 1024, 1024, 5_000_000, 0);
    let (_, body) = health_report(&s);
    assert_eq!(body.status, "degraded");
    assert_eq!(body.checks.store_write, "fail");
}

#[test]
fn health_default_state_is_healthy_mem() {
    let (code, body) = health_report(&HealthState::new());
    assert_eq!(code, 200);
    assert_eq!(body.checks.fsync, "n/a");
}

#[test]
fn a_lag_of_one_mebibyte_is_the_limit() {
    let lag = 1024 * 1024;
    assert_eq!(health_report(&state("file", 1, 0, lag, 0)).0, 200);
    assert_eq!(health_report(&state("file", 1, 0, lag + 1, 0)).0, 503);
    assert_eq!(health_report(&state("mem", 1, 0, lag + 1, 0)).0, 200);
}

#[test]
fn time_to_wrap_follows_the_rate() {
    let mut s = state("file", 2, 3 << 20, 0, 0);
    s.bytes_per_second = 1 << 20;
    s.rejects_overflow = true;
    let (_, body) = health_report(&s);
    assert_eq!(body.store.seconds_to_wrap, Some(2));
    assert_eq!(body.store.used_mb, 3);
    assert_eq!(body.store.overflow_policy, "reject");
    s.write_pos = 5 << 20;
    s.durable_pos = 5 << 20;
    assert_eq!(health_report(&s).1.store.seconds_to_wrap, Some(1));
    s.store_capacity_mb = u64::MAX;
    assert_eq!(health_report(&s).1.store.seconds_to_wrap, None);
}

#[test]
fn readiness_needs_uptime_and_a_small_backlog() {
    assert_eq!(ready_code(1, 9_999_999), 200);
    assert_eq!(ready_code(0, 0), 503);
    assert_eq!(ready_code(1, 10_000_000), 503);
}
