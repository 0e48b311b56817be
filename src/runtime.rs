//! The browser runtime's plain parts: its clock source, its sleep requests
//! and its TLS settings.
use vstd::prelude::*;

use crate::docmeta::StdDuration;

verus! {

/// Source of coarse timestamps from the real clock; all are alike.
#[derive(Clone, Copy, Debug, Default)]
pub struct RealCoarseTimeProvider {}

impl RealCoarseTimeProvider {
    pub fn new() -> (r: RealCoarseTimeProvider) {
        RealCoarseTimeProvider {}
    }
}

/// The TLS protocol version to speak.
#[derive(Clone, Copy, Debug, PartialEq, Eq, Structural)]
pub enum TlsVersion {
    Tls13,
}

/// TLS settings.
#[derive(Clone, Debug)]
pub struct TlsConfig {
    /// Skip certificate verification.
    pub skip_verification: bool,
    /// Application protocols to offer.
    pub alpn_protocols: Vec<String>,
    pub version: TlsVersion,
}

impl Default for TlsConfig {
    /// Verification on, offering HTTP/1.1, TLS 1.3.
    fn default() -> (r: TlsConfig)
        ensures
            !r.skip_verification,
            r.alpn_protocols@.len() == 1,
            r.alpn_protocols@[0]@ == "http/1.1"@,
            r.version == TlsVersion::Tls13,
    {
        let mut alpn: Vec<String> = Vec::new();
        alpn.push(String::from_str("http/1.1"));
        TlsConfig { skip_verification: false, alpn_protocols: alpn, version: TlsVersion::Tls13 }
    }
}

/// Establishes TLS sessions with fixed settings.
pub struct TlsConnector {
    config: TlsConfig,
}

impl TlsConnector {
    pub closed spec fn config(&self) -> TlsConfig {
        self.config
    }

    /// A connector with the default settings.
    pub fn new() -> (r: TlsConnector)
        ensures
            !r.config().skip_verification,
            r.config().alpn_protocols@.len() == 1,
            r.config().alpn_protocols@[0]@ == "http/1.1"@,
            r.config().version == TlsVersion::Tls13,
    {
        TlsConnector { config: TlsConfig::default() }
    }

    /// A connector with the given settings.
    pub fn with_config(config: TlsConfig) -> (r: TlsConnector)
        ensures
            r.config() == config,
    {
        TlsConnector { config }
    }
}

impl Default for TlsConnector {
    /// A connector with the default settings.
    fn default() -> (r: TlsConnector)
        ensures
            !r.config().skip_verification,
            r.config().version == TlsVersion::Tls13,
    {
        TlsConnector::new()
    }
}

/// The TLS connector of the browser runtime: the relay protocol checks
/// certificates itself, so verification is skipped; no application
/// protocol is offered; TLS 1.3.
pub struct WasmTlsConnector {
    inner: TlsConnector,
}

impl WasmTlsConnector {
    pub closed spec fn connector(&self) -> TlsConnector {
        self.inner
    }

    pub fn new() -> (r: WasmTlsConnector)
        ensures
            r.connector().config().skip_verification,
            r.connector().config().alpn_protocols@.len() == 0,
            r.connector().config().version == TlsVersion::Tls13,
    {
        let config = TlsConfig {
            skip_verification: true,
            alpn_protocols: Vec::new(),
            version: TlsVersion::Tls13,
        };
        WasmTlsConnector { inner: TlsConnector::with_config(config) }
    }
}

impl Default for WasmTlsConnector {
    fn default() -> (r: WasmTlsConnector)
        ensures
            r.connector().config().skip_verification,
            r.connector().config().alpn_protocols@.len() == 0,
    {
        WasmTlsConnector::new()
    }
}

/// A request to sleep, as the browser timer takes it: whole milliseconds
/// that fit in 32 bits.
#[derive(Clone, Copy, Debug)]
pub struct WasmSleepFuture {
    pub millis: u32,
}

/// The runtime for browsers.
#[derive(Clone, Copy, Debug)]
pub struct WasmRuntime {
    coarse: RealCoarseTimeProvider,
}

impl WasmRuntime {
    pub fn new() -> (r: WasmRuntime) {
        WasmRuntime { coarse: RealCoarseTimeProvider::new() }
    }

    /// The timer request for sleeping `duration`: its whole milliseconds,
    /// capped at the largest 32-bit count.
    pub fn sleep(&self, duration: StdDuration) -> (r: WasmSleepFuture)
        ensures
            r.millis as int == if duration.secs as int * 1000 + duration.nanos as int / 1_000_000
                > 0xffff_ffff {
                0xffff_ffffint
            } else {
                duration.secs as int * 1000 + duration.nanos as int / 1_000_000
            },
    {
        let sub: u64 = (duration.nanos / 1_000_000) as u64;
        if duration.secs >= 4_294_968 {
            return WasmSleepFuture { millis: 0xffff_ffff };
        }
        let ms: u64 = duration.secs * 1000 + sub;
        if ms > 0xffff_ffff {
            WasmSleepFuture { millis: 0xffff_ffff }
        } else {
            WasmSleepFuture { millis: ms as u32 }
        }
    }
}

} // verus!
