//! Choosing how to reach a Snowflake bridge: over a WebSocket straight to a
//! bridge, or over WebRTC through a broker.
use vstd::prelude::*;

verus! {

/// The WebSocket endpoint of the default Snowflake bridge.
pub const SNOWFLAKE_WS_URL: &'static str = "wss://snowflake.pse.dev/";

/// The Tor Project's WebSocket endpoint.
pub const SNOWFLAKE_WS_URL_TOR_PROJECT: &'static str = "wss://snowflake.torproject.net/";

/// Fingerprint of the default Snowflake bridge.
pub const SNOWFLAKE_FINGERPRINT: &'static str = "664A92FF3EF71E03A2F09B1DAABA2DDF920D5194";

/// The Tor Project's Snowflake broker.
pub const BROKER_URL: &'static str = "https://snowflake-broker.torproject.net/";

/// Fingerprint of the bridge the Tor Project's broker leads to.
pub const DEFAULT_BRIDGE_FINGERPRINT: &'static str = "2B280B23E1107BB62ABFC40DDCC8824814F80A72";

/// How a Snowflake bridge is reached.
#[derive(Clone, Debug)]
pub enum SnowflakeMode {
    /// A WebSocket straight to the bridge.
    WebSocket { url: String, fingerprint: Option<String> },
    /// WebRTC through a broker.
    WebRtc { broker_url: String, fingerprint: Option<String> },
}

impl Default for SnowflakeMode {
    /// A WebSocket to the default bridge, with its fingerprint.
    fn default() -> (r: SnowflakeMode)
        ensures
            r is WebSocket,
            r->WebSocket_url@ == SNOWFLAKE_WS_URL@,
            r->WebSocket_fingerprint is Some,
            r->WebSocket_fingerprint->Some_0@ == SNOWFLAKE_FINGERPRINT@,
    {
        SnowflakeMode::WebSocket {
            url: String::from_str(SNOWFLAKE_WS_URL),
            fingerprint: Some(String::from_str(SNOWFLAKE_FINGERPRINT)),
        }
    }
}

/// Builds channels over one Snowflake mode.
pub struct SnowflakeChannelFactory {
    mode: SnowflakeMode,
}

impl SnowflakeChannelFactory {
    pub closed spec fn mode(&self) -> SnowflakeMode {
        self.mode
    }

    pub fn new(mode: SnowflakeMode) -> (r: SnowflakeChannelFactory)
        ensures
            r.mode() == mode,
    {
        SnowflakeChannelFactory { mode }
    }
}

/// Why the Snowflake transport failed.
#[derive(Clone, Debug)]
pub struct SnowflakePtError {
    pub message: String,
}

/// The in-process Snowflake pluggable-transport manager.
pub struct SnowflakePtMgr {
    mode: SnowflakeMode,
}

/// The name of the transport this manager serves.
pub open spec fn snowflake_name() -> Seq<char> {
    "snowflake"@
}

impl SnowflakePtMgr {
    pub closed spec fn mode(&self) -> SnowflakeMode {
        self.mode
    }

    pub fn new(mode: SnowflakeMode) -> (r: SnowflakePtMgr)
        ensures
            r.mode() == mode,
    {
        SnowflakePtMgr { mode }
    }

    /// The default WebSocket mode.
    pub fn websocket_default() -> (r: SnowflakePtMgr)
        ensures
            r.mode() is WebSocket,
            r.mode()->WebSocket_url@ == SNOWFLAKE_WS_URL@,
            r.mode()->WebSocket_fingerprint is Some,
            r.mode()->WebSocket_fingerprint->Some_0@ == SNOWFLAKE_FINGERPRINT@,
    {
        Self::new(SnowflakeMode::default())
    }

    /// A WebSocket to `url`, with no fingerprint.
    pub fn websocket(url: String) -> (r: SnowflakePtMgr)
        ensures
            r.mode() == (SnowflakeMode::WebSocket { url, fingerprint: None }),
    {
        Self::new(SnowflakeMode::WebSocket { url, fingerprint: None })
    }

    /// WebRTC through the Tor Project's broker.
    pub fn webrtc_default() -> (r: SnowflakePtMgr)
        ensures
            r.mode() is WebRtc,
            r.mode()->WebRtc_broker_url@ == BROKER_URL@,
            r.mode()->WebRtc_fingerprint is Some,
            r.mode()->WebRtc_fingerprint->Some_0@ == DEFAULT_BRIDGE_FINGERPRINT@,
    {
        Self::new(
            SnowflakeMode::WebRtc {
                broker_url: String::from_str(BROKER_URL),
                fingerprint: Some(String::from_str(DEFAULT_BRIDGE_FINGERPRINT)),
            },
        )
    }

    /// WebRTC through the broker at `broker_url`, with no fingerprint.
    pub fn webrtc(broker_url: String) -> (r: SnowflakePtMgr)
        ensures
            r.mode() == (SnowflakeMode::WebRtc { broker_url, fingerprint: None }),
    {
        Self::new(SnowflakeMode::WebRtc { broker_url, fingerprint: None })
    }

    /// A channel factory for the named transport: one over this manager's
    /// mode for `snowflake`, none for any other name.
    pub fn factory_for_transport(&self, transport: &str) -> (r: Option<SnowflakeChannelFactory>)
        ensures
            r is Some <==> transport@ == snowflake_name(),
            r matches Some(f) ==> f.mode() == self.mode(),
    {
        let name = String::from_str(transport);
        let ours = String::from_str("snowflake");
        if name == ours {
            let mode = match &self.mode {
                SnowflakeMode::WebSocket { url, fingerprint } => SnowflakeMode::WebSocket {
                    url: url.clone(),
                    fingerprint: match fingerprint {
                        Some(f) => Some(f.clone()),
                        None => None,
                    },
                },
                SnowflakeMode::WebRtc { broker_url, fingerprint } => SnowflakeMode::WebRtc {
                    broker_url: broker_url.clone(),
                    fingerprint: match fingerprint {
                        Some(f) => Some(f.clone()),
                        None => None,
                    },
                },
            };
            Some(SnowflakeChannelFactory::new(mode))
        } else {
            None
        }
    }
}

/// Settings of a WebSocket Snowflake connection.
#[derive(Clone, Debug)]
pub struct SnowflakeWsConfig {
    /// Endpoint of the bridge.
    pub ws_url: String,
    /// Fingerprint of the bridge.
    pub fingerprint: String,
    /// Reliability-layer conversation id.
    pub kcp_conv: u32,
    /// Stream id in the multiplexing layer.
    pub smux_stream_id: u32,
}

impl Default for SnowflakeWsConfig {
    /// The default bridge, conversation 0, stream 3.
    fn default() -> (r: SnowflakeWsConfig)
        ensures
            r.ws_url@ == SNOWFLAKE_WS_URL@,
            r.fingerprint@ == SNOWFLAKE_FINGERPRINT@,
            r.kcp_conv == 0,
            r.smux_stream_id == 3,
    {
        SnowflakeWsConfig {
            ws_url: String::from_str(SNOWFLAKE_WS_URL),
            fingerprint: String::from_str(SNOWFLAKE_FINGERPRINT),
            kcp_conv: 0,
            smux_stream_id: 3,
        }
    }
}

impl SnowflakeWsConfig {
    /// The default bridge, conversation 0, stream 3.
    pub fn new() -> (r: SnowflakeWsConfig)
        ensures
            r.ws_url@ == SNOWFLAKE_WS_URL@,
            r.fingerprint@ == SNOWFLAKE_FINGERPRINT@,
            r.kcp_conv == 0,
            r.smux_stream_id == 3,
    {
        Self::default()
    }

    pub fn with_url(self, url: &str) -> (r: SnowflakeWsConfig)
        ensures
            r.ws_url@ == url@,
            r.fingerprint == self.fingerprint,
            r.kcp_conv == self.kcp_conv,
            r.smux_stream_id == self.smux_stream_id,
    {
        SnowflakeWsConfig { ws_url: String::from_str(url), ..self }
    }

    pub fn with_fingerprint(self, fingerprint: &str) -> (r: SnowflakeWsConfig)
        ensures
            r.fingerprint@ == fingerprint@,
            r.ws_url == self.ws_url,
            r.kcp_conv == self.kcp_conv,
            r.smux_stream_id == self.smux_stream_id,
    {
        SnowflakeWsConfig { fingerprint: String::from_str(fingerprint), ..self }
    }
}

} // verus!
