use netflow_agent::config::{
    CaptureConfig, CollectorConfig, Config, ExportConfig, FlowConfig, LoggingConfig,
};
use netflow_agent::flow::{describe, expire_scan_due, FlowKey, FlowTable};

const SEC: u64 = 1_000_000_000;

fn key(port: u16) -> FlowKey {
    FlowKey {
        src_ip: 0x0a00_0001,
        dst_ip: 0x0808_0808,
        src_port: port,
        dst_port: 443,
        protocol: 6,
    }
}

#[test]
fn observe_creates_and_accumulates_flows() {
    let mut table = FlowTable::new(60, 15);
    assert_eq!(table.len(), 0);
    table.observe(key(1), 100, 10 * SEC);
    table.observe(key(1), 50, 11 * SEC);
    table.observe(key(2), 70, 12 * SEC);
    assert_eq!(table.len(), 2);

    let expired = table.expire(100 * SEC);
    assert_eq!(expired.len(), 2);
    let one = expired.iter().find(|e| e.key == key(1)).unwrap();
    assert_eq!(one.packets, 2);
    assert_eq!(one.bytes, 150);
    assert_eq!(one.first_seen, 10 * SEC);
    assert_eq!(one.last_seen, 11 * SEC);
    assert_eq!(one.tcp_flags, 0);
    let two = expired.iter().find(|e| e.key == key(2)).unwrap();
    assert_eq!(two.packets, 1);
    assert_eq!(two.bytes, 70);
    assert_eq!(table.len(), 0);
}

#[test]
fn inactive_flows_expire_and_active_ones_stay() {
    let mut table = FlowTable::new(60, 15);
    table.observe(key(1), 100, 0);
    table.observe(key(2), 100, 10 * SEC);
    // At 15 s the first flow has been idle for 15 s; the second for 5 s.
    let expired = table.expire(15 * SEC);
    assert_eq!(expired.len(), 1);
    assert_eq!(expired[0].key, key(1));
    assert_eq!(table.len(), 1);
    // Expiring again at the same instant finds nothing.
    assert!(table.expire(15 * SEC).is_empty());
    assert_eq!(table.len(), 1);
}

#[test]
fn long_lived_flows_expire_on_active_timeout() {
    let mut table = FlowTable::new(60, 15);
    let mut t = 0;
    while t < 60 * SEC {
        table.observe(key(1), 10, t);
        t += 5 * SEC;
    }
    assert!(table.expire(59 * SEC).is_empty());
    let expired = table.expire(60 * SEC);
    assert_eq!(expired.len(), 1);
    assert_eq!(expired[0].packets, 12);
}

#[test]
fn earlier_now_counts_as_no_time_passed() {
    let mut table = FlowTable::new(1, 1);
    table.observe(key(1), 1, 10 * SEC);
    assert!(table.expire(5 * SEC).is_empty());
    assert_eq!(table.expire(11 * SEC).len(), 1);
}

#[test]
fn counters_that_would_overflow_are_reported() {
    let mut table = FlowTable::new(60, 15);
    assert!(table.can_observe(key(1), u32::MAX));
    table.observe(key(1), u32::MAX, 0);
    assert!(table.can_observe(key(1), u32::MAX));
}

#[test]
fn expire_scan_runs_once_per_second() {
    assert!(!expire_scan_due(0, 999_999_999));
    assert!(expire_scan_due(0, 1_000_000_000));
    assert!(!expire_scan_due(5 * SEC, 1 * SEC));
}

#[test]
fn describe_reports_timeouts() {
    let cfg = Config {
        collector: CollectorConfig { host: "127.0.0.1".to_string(), port: 2055 },
        export: ExportConfig { format: "ipfix".to_string(), observation_domain_id: 0, source_id: 1 },
        capture: CaptureConfig { interface: "auto".to_string(), promiscuous: false },
        flow: FlowConfig { active_timeout_secs: 60, inactive_timeout_secs: 15 },
        logging: LoggingConfig { level: "info".to_string(), file: None },
    };
    assert_eq!(describe(&cfg), (60, 15));
}
