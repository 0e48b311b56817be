//! Snowflake transport settings for native builds, where channels are built
//! on a runtime of the caller's choosing.
use vstd::prelude::*;

use crate::transport::{SNOWFLAKE_FINGERPRINT, SNOWFLAKE_WS_URL};

verus! {

/// Builds channels to one Snowflake bridge over a WebSocket.
pub struct SnowflakeChannelFactory<R> {
    pub url: String,
    pub fingerprint: Option<String>,
    pub runtime: R,
}

impl<R> SnowflakeChannelFactory<R> {
    /// The default bridge, with its fingerprint.
    pub fn new(runtime: R) -> (r: SnowflakeChannelFactory<R>)
        ensures
            r.url@ == SNOWFLAKE_WS_URL@,
            r.fingerprint is Some,
            r.fingerprint->Some_0@ == SNOWFLAKE_FINGERPRINT@,
            r.runtime == runtime,
    {
        SnowflakeChannelFactory {
            url: String::from_str(SNOWFLAKE_WS_URL),
            fingerprint: Some(String::from_str(SNOWFLAKE_FINGERPRINT)),
            runtime,
        }
    }

    /// The bridge at `url`, with no fingerprint.
    pub fn with_url(runtime: R, url: String) -> (r: SnowflakeChannelFactory<R>)
        ensures
            r.url == url,
            r.fingerprint is None,
            r.runtime == runtime,
    {
        SnowflakeChannelFactory { url, fingerprint: None, runtime }
    }

    /// The same bridge, checked against `fingerprint`.
    pub fn with_fingerprint(self, fingerprint: String) -> (r: SnowflakeChannelFactory<R>)
        ensures
            r.url == self.url,
            r.fingerprint == Some(fingerprint),
            r.runtime == self.runtime,
    {
        SnowflakeChannelFactory { url: self.url, fingerprint: Some(fingerprint), runtime: self.runtime }
    }
}

/// Why the Snowflake transport failed.
#[derive(Clone, Debug)]
pub struct SnowflakePtError {
    pub message: String,
}

/// The in-process Snowflake pluggable-transport manager for native builds.
pub struct SnowflakePtMgr<R> {
    pub url: String,
    pub fingerprint: Option<String>,
    pub runtime: R,
}

impl<R> SnowflakePtMgr<R> {
    /// The default bridge, with its fingerprint.
    pub fn new(runtime: R) -> (r: SnowflakePtMgr<R>)
        ensures
            r.url@ == SNOWFLAKE_WS_URL@,
            r.fingerprint is Some,
            r.fingerprint->Some_0@ == SNOWFLAKE_FINGERPRINT@,
            r.runtime == runtime,
    {
        SnowflakePtMgr {
            url: String::from_str(SNOWFLAKE_WS_URL),
            fingerprint: Some(String::from_str(SNOWFLAKE_FINGERPRINT)),
            runtime,
        }
    }

    /// The bridge at `url`, with no fingerprint.
    pub fn with_url(runtime: R, url: String) -> (r: SnowflakePtMgr<R>)
        ensures
            r.url == url,
            r.fingerprint is None,
            r.runtime == runtime,
    {
        SnowflakePtMgr { url, fingerprint: None, runtime }
    }

    /// The same bridge, checked against `fingerprint`.
    pub fn with_fingerprint(self, fingerprint: String) -> (r: SnowflakePtMgr<R>)
        ensures
            r.url == self.url,
            r.fingerprint == Some(fingerprint),
            r.runtime == self.runtime,
    {
        SnowflakePtMgr { url: self.url, fingerprint: Some(fingerprint), runtime: self.runtime }
    }
}

} // verus!
