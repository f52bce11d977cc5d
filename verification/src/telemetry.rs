//! Where telemetry goes: nowhere, unless the user names a collector of their own.

use vstd::prelude::*;
use vstd::string::*;

verus! {

/// How a collector is spoken to.
#[derive(Debug, Clone, Copy, PartialEq, Eq, Structural)]
pub enum OtelHttpProtocol {
    /// Binary protocol buffers.
    Binary,
    Json,
}

/// What a connection to a collector is secured with.
#[derive(Debug)]
pub struct OtelTlsConfig {
    pub ca_certificate: Option<String>,
    pub client_certificate: Option<String>,
    pub client_private_key: Option<String>,
}

/// Settings of the built-in metrics that another process can take over.
#[derive(Debug)]
pub struct StatsigMetricsSettings {
    pub environment: String,
}

/// Where telemetry goes.
#[derive(Debug)]
pub enum OtelExporter {
    /// Nowhere.
    Nowhere,
    /// The built-in metrics, which are kept so that configurations that name them can
    /// still be read.
    Statsig,
    OtlpGrpc { endpoint: String, headers: Vec<(String, String)>, tls: Option<OtelTlsConfig> },
    OtlpHttp {
        endpoint: String,
        headers: Vec<(String, String)>,
        protocol: OtelHttpProtocol,
        tls: Option<OtelTlsConfig>,
    },
}

/// Where telemetry goes: the built-in metrics go nowhere, anything else where the user
/// said.
pub open spec fn resolved(e: OtelExporter) -> OtelExporter {
    if e is Statsig {
        OtelExporter::Nowhere
    } else {
        e
    }
}

/// Where telemetry goes.
pub fn resolve_exporter(exporter: OtelExporter) -> (r: OtelExporter)
    ensures
        r == resolved(exporter),
{
    match exporter {
        OtelExporter::Statsig => OtelExporter::Nowhere,
        other => other,
    }
}

/// The address of the collector, where the user named one.
pub open spec fn destination(e: OtelExporter) -> Option<Seq<char>> {
    match e {
        OtelExporter::OtlpGrpc { endpoint, .. } => Some(endpoint@),
        OtelExporter::OtlpHttp { endpoint, .. } => Some(endpoint@),
        _ => None,
    }
}

/// Telemetry goes to no one but a collector that the user named: what is left of an
/// exporter without one is nothing.
pub proof fn only_named_collectors_are_sent_to(e: OtelExporter)
    requires
        destination(e) is None,
    ensures
        resolved(e) is Nowhere,
{
}

/// What kind of mistake a setting holds.
#[derive(Debug, Clone, Copy, PartialEq, Eq, Structural)]
pub enum SettingErrorKind {
    InvalidInput,
}

/// Why a setting cannot be used.
#[derive(Debug)]
pub struct SettingError {
    pub kind: SettingErrorKind,
    pub message: String,
}

/// Checks the attributes that are attached to what is exported: none may be without a
/// name.
pub fn validate_span_attributes(attributes: &Vec<(String, String)>) -> (r: Result<(), SettingError>)
    ensures
        if exists|i: int| 0 <= i < attributes@.len() && (#[trigger] attributes@[i]).0@.len() == 0 {
            r matches Err(e) && e.kind == SettingErrorKind::InvalidInput && e.message@
                == "configured span attribute key must not be empty"@
        } else {
            r is Ok
        },
{
    let mut i: usize = 0;
    while i < attributes.len()
        invariant
            i <= attributes@.len(),
            forall|k: int| 0 <= k < i ==> (#[trigger] attributes@[k]).0@.len() > 0,
        decreases attributes@.len() - i,
    {
        if attributes[i].0.as_str().is_empty() {
            return Err(
                SettingError {
                    kind: SettingErrorKind::InvalidInput,
                    message: "configured span attribute key must not be empty".to_string(),
                },
            );
        }
        i += 1;
    }
    Ok(())
}

} // verus!
