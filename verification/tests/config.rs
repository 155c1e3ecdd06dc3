use zhensegg::Config;

#[test]
fn config_defaults() {
    let c = Config::default();
    assert_eq!(c.addr, "0.0.0.0:9090");
    assert_eq!(c.http_addr, "0.0.0.0:9091");
    assert_eq!(c.cores, 1);
    assert_eq!(c.mode, "mem");
    assert_eq!(c.mem_mb, 256);
    assert_eq!(c.file, "/tmp/zhensegg.ring");
    assert_eq!(c.ring_capacity_mb, 1_000_000);
    assert_eq!(c.auth_timeout_secs, 10);
    assert!(c.durable_acks);
    assert_eq!(c.on_overflow, "overwrite");
}

#[test]
fn config_mem_capacity_bytes() {
    let mut c = Config::default();
    c.mem_mb = 2;
    assert_eq!(c.mem_capacity_bytes(), 2 * 1024 * 1024);
}

#[test]
fn config_ring_capacity_bytes() {
    let mut c = Config::default();
    c.ring_capacity_mb = 3;
    assert_eq!(c.ring_capacity_bytes(), 3 * 1024 * 1024);
}

#[test]
fn config_mode_detection() {
    let mem = Config::default();
    assert!(!mem.is_file_mode());

    let mut file = Config::default();
    file.mode = "file".to_string();
    assert!(file.is_file_mode());
    file.mode = "files".to_string();
    assert!(!file.is_file_mode());
}

#[test]
fn config_overflow_policy() {
    let mut c = Config::default();
    assert!(!c.rejects_overflow());
    c.on_overflow = "reject".to_string();
    assert!(c.rejects_overflow());
}
