use netflow_agent::config::{
    export_format, validate, CaptureConfig, CollectorConfig, Config, ConfigError, ExportConfig,
    ExportFormat, FlowConfig, LoggingConfig,
};
use netflow_agent::export::{create_session, ExportSession};

fn cfg(host: &str, port: u16, format: &str) -> Config {
    Config {
        collector: CollectorConfig { host: host.to_string(), port },
        export: ExportConfig { format: format.to_string(), observation_domain_id: 0, source_id: 3 },
        capture: CaptureConfig { interface: "auto".to_string(), promiscuous: true },
        flow: FlowConfig { active_timeout_secs: 60, inactive_timeout_secs: 15 },
        logging: LoggingConfig { level: "info".to_string(), file: None },
    }
}

#[test]
fn accepts_valid_configs() {
    assert!(validate(&cfg("10.0.0.5", 2055, "ipfix")).is_ok());
    assert!(validate(&cfg("collector", 9995, "netflow9")).is_ok());
}

#[test]
fn rejects_each_invalid_setting() {
    assert!(matches!(validate(&cfg("", 2055, "ipfix")), Err(ConfigError::EmptyCollectorHost)));
    assert!(matches!(validate(&cfg("h", 0, "ipfix")), Err(ConfigError::ZeroCollectorPort)));
    match validate(&cfg("h", 1, "sflow")) {
        Err(ConfigError::UnsupportedExportFormat(f)) => assert_eq!(f, "sflow"),
        other => panic!("unexpected {other:?}"),
    }
    // The host is checked first.
    assert!(matches!(validate(&cfg("", 0, "x")), Err(ConfigError::EmptyCollectorHost)));
}

#[test]
fn export_format_names() {
    assert_eq!(export_format("netflow9"), Some(ExportFormat::NetflowV9));
    assert_eq!(export_format("ipfix"), Some(ExportFormat::Ipfix));
    assert_eq!(export_format("IPFIX"), None);
    assert_eq!(export_format("netflow"), None);
}

#[test]
fn session_follows_format() {
    let c = cfg("h", 1, "netflow9");
    match create_session(&c.export, 5) {
        ExportSession::NetflowV9(s) => {
            assert_eq!(s.source_id, 3);
            assert_eq!(s.boot, 5);
        }
        _ => panic!("expected NetFlow v9"),
    }
    let c = cfg("h", 1, "ipfix");
    match create_session(&c.export, 5) {
        ExportSession::Ipfix(s) => assert_eq!(s.domain_id, 3),
        _ => panic!("expected IPFIX"),
    }
}
