//! Options for the outbound HTTP client. The client itself — TLS wiring,
//! certificate loading, timeouts — is built by the surrounding binary; these
//! are the plain values it is built from.

use vstd::prelude::*;

verus! {

/// A minimum TLS protocol version.
#[derive(Clone, Copy, Debug, PartialEq, Eq, PartialOrd, Ord, Structural)]
pub enum TlsVersion {
    Tls1_0,
    Tls1_1,
    Tls1_2,
    Tls1_3,
}

/// How the outbound HTTP client is configured. Timeouts are in seconds;
/// certificates are file paths.
#[derive(Clone, Debug)]
pub struct HttpOptions {
    /// Disable TLS validation (insecure!).
    pub tls_insecure: bool,
    /// Additional root certificates.
    pub additional_root_certificates: Vec<String>,
    /// Disable system root certificates.
    pub disable_system_certificates: bool,
    /// Connect timeout in seconds.
    pub connect_timeout_secs: u64,
    /// Request timeout in seconds.
    pub timeout_secs: u64,
    /// Minimum TLS version.
    pub min_tls_version: TlsVersion,
}

impl Default for HttpOptions {
    /// The defaults: TLS validation on, system roots, 30 s connect and 60 s
    /// request timeouts, TLS 1.2 at least.
    fn default() -> (r: HttpOptions)
        ensures
            !r.tls_insecure,
            r.additional_root_certificates@.len() == 0,
            !r.disable_system_certificates,
            r.connect_timeout_secs == 30,
            r.timeout_secs == 60,
            r.min_tls_version == TlsVersion::Tls1_2,
    {
        HttpOptions {
            tls_insecure: false,
            additional_root_certificates: Vec::new(),
            disable_system_certificates: false,
            connect_timeout_secs: 30,
            timeout_secs: 60,
            min_tls_version: TlsVersion::Tls1_2,
        }
    }
}

} // verus!
