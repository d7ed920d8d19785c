//! Agent configuration and its validation.
use vstd::prelude::*;

verus! {

/// The whole configuration file.
#[derive(Clone, Debug)]
pub struct Config {
    pub collector: CollectorConfig,
    pub export: ExportConfig,
    pub capture: CaptureConfig,
    pub flow: FlowConfig,
    pub logging: LoggingConfig,
}

/// Where exported datagrams go.
#[derive(Clone, Debug)]
pub struct CollectorConfig {
    pub host: String,
    pub port: u16,
}

/// Export protocol and the identifiers written into message headers.
#[derive(Clone, Debug)]
pub struct ExportConfig {
    pub format: String,
    pub observation_domain_id: u32,
    pub source_id: u32,
}

/// Which interface to capture on.
#[derive(Clone, Debug)]
pub struct CaptureConfig {
    pub interface: String,
    pub promiscuous: bool,
}

/// Flow expiry timeouts, in seconds.
#[derive(Clone, Debug)]
pub struct FlowConfig {
    pub active_timeout_secs: u32,
    pub inactive_timeout_secs: u32,
}

/// Log level filter and optional log file.
#[derive(Clone, Debug)]
pub struct LoggingConfig {
    pub level: String,
    pub file: Option<String>,
}

/// The export protocols the agent speaks.
#[derive(Clone, Copy, Debug, PartialEq, Eq)]
pub enum ExportFormat {
    NetflowV9,
    Ipfix,
}

/// Why a configuration was refused.
#[derive(Clone, Debug)]
pub enum ConfigError {
    /// `collector.host` is empty.
    EmptyCollectorHost,
    /// `collector.port` is 0.
    ZeroCollectorPort,
    /// `export.format` names no supported protocol; it holds that name.
    UnsupportedExportFormat(String),
}

/// The protocol that an `export.format` value names: `netflow9` or `ipfix`.
pub open spec fn spec_export_format(name: Seq<char>) -> Option<ExportFormat> {
    if name == "netflow9"@ {
        Some(ExportFormat::NetflowV9)
    } else if name == "ipfix"@ {
        Some(ExportFormat::Ipfix)
    } else {
        None
    }
}

/// What `validate` answers for a configuration.
pub open spec fn spec_validate(cfg: Config) -> Result<(), ConfigError> {
    if cfg.collector.host@.len() == 0 {
        Err(ConfigError::EmptyCollectorHost)
    } else if cfg.collector.port == 0 {
        Err(ConfigError::ZeroCollectorPort)
    } else if spec_export_format(cfg.export.format@) is None {
        Err(ConfigError::UnsupportedExportFormat(cfg.export.format))
    } else {
        Ok(())
    }
}

pub(crate) fn str_eq(a: &str, b: &str) -> (r: bool)
    ensures
        r == (a@ == b@),
{
    let n = a.unicode_len();
    if n != b.unicode_len() {
        return false;
    }
    let mut i: usize = 0;
    while i < n
        invariant
            n == a@.len(),
            n == b@.len(),
            i <= n,
            forall|j: int| 0 <= j < i ==> a@[j] == b@[j],
        decreases n - i,
    {
        if a.get_char(i) != b.get_char(i) {
            return false;
        }
        i += 1;
    }
    assert(a@ =~= b@);
    true
}

/// The protocol that an `export.format` value names, if any.
pub fn export_format(name: &str) -> (r: Option<ExportFormat>)
    ensures
        r == spec_export_format(name@),
{
    if str_eq(name, "netflow9") {
        Some(ExportFormat::NetflowV9)
    } else if str_eq(name, "ipfix") {
        Some(ExportFormat::Ipfix)
    } else {
        None
    }
}

/// Checks the settings that the agent cannot run without.
pub fn validate(cfg: &Config) -> (r: Result<(), ConfigError>)
    ensures
        r == spec_validate(*cfg),
{
    if cfg.collector.host.as_str().is_empty() {
        return Err(ConfigError::EmptyCollectorHost);
    }
    if cfg.collector.port == 0 {
        return Err(ConfigError::ZeroCollectorPort);
    }
    match export_format(cfg.export.format.as_str()) {
        Some(_) => Ok(()),
        None => Err(ConfigError::UnsupportedExportFormat(cfg.export.format.clone())),
    }
}

/// `export.format` names exactly two protocols: `netflow9` is NetFlow v9
/// and `ipfix` is IPFIX; every other name names none.
pub proof fn lemma_export_format_names(name: Seq<char>)
    ensures
        spec_export_format("netflow9"@) == Some(ExportFormat::NetflowV9),
        spec_export_format("ipfix"@) == Some(ExportFormat::Ipfix),
        name != "netflow9"@ && name != "ipfix"@ ==> spec_export_format(name) is None,
{
    reveal_strlit("netflow9");
    reveal_strlit("ipfix");
    assert("ipfix"@.len() != "netflow9"@.len());
}

/// A configuration is accepted exactly when the collector host is
/// non-empty, the collector port is not 0 and the export format is
/// `netflow9` or `ipfix`; otherwise the first of these that fails, in this
/// order, is reported, the unsupported format with its name.
pub proof fn lemma_validate_accepts_exactly(cfg: Config)
    ensures
        spec_validate(cfg) is Ok <==> (cfg.collector.host@.len() > 0 && cfg.collector.port > 0 && (cfg.export.format@
            == "netflow9"@ || cfg.export.format@ == "ipfix"@)),
        cfg.collector.host@.len() == 0 ==> spec_validate(cfg) == Err::<(), ConfigError>(ConfigError::EmptyCollectorHost),
        cfg.collector.host@.len() > 0 && cfg.collector.port == 0 ==> spec_validate(cfg) == Err::<(), ConfigError>(
            ConfigError::ZeroCollectorPort,
        ),
        cfg.collector.host@.len() > 0 && cfg.collector.port > 0 && cfg.export.format@ != "netflow9"@
            && cfg.export.format@ != "ipfix"@ ==> spec_validate(cfg) == Err::<(), ConfigError>(
            ConfigError::UnsupportedExportFormat(cfg.export.format),
        ),
{
}

} // verus!
