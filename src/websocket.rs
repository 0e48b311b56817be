//! WebSocket connections to a Snowflake bridge.  Outside a browser there is
//! no WebSocket to open, so connecting fails.
use vstd::prelude::*;

use crate::docmeta::StdDuration;

verus! {

/// Why a connection failed.
#[derive(Clone, Debug)]
pub enum TorError {
    /// The platform has no browser facilities.
    Wasm(String),
}

/// Where and how long to try to connect.
pub struct WebSocketDuplex {
    url: String,
    connection_timeout: StdDuration,
}

/// An open WebSocket connection.
pub struct WebSocketConnection {
    open: bool,
}

impl WebSocketDuplex {
    pub closed spec fn url(&self) -> Seq<char> {
        self.url@
    }

    pub closed spec fn timeout(&self) -> StdDuration {
        self.connection_timeout
    }

    pub fn new(url: String, connection_timeout: StdDuration) -> (r: WebSocketDuplex)
        ensures
            r.url() == url@,
            r.timeout() == connection_timeout,
    {
        WebSocketDuplex { url, connection_timeout }
    }

    /// Opening a WebSocket needs a browser; here it always fails.
    pub fn connect(&self) -> (r: Result<WebSocketConnection, TorError>)
        ensures
            r matches Err(TorError::Wasm(_)),
    {
        Err(TorError::Wasm(String::from_str("WebSocket connection not yet implemented for native Rust")))
    }
}

impl WebSocketConnection {
    pub closed spec fn spec_open(&self) -> bool {
        self.open
    }

    /// Closes the connection.
    pub fn close(&mut self)
        ensures
            !final(self).spec_open(),
    {
        self.open = false;
    }

    /// Whether the connection is still open.
    pub fn is_open(&self) -> (r: bool)
        ensures
            r == self.spec_open(),
    {
        self.open
    }
}

/// A Snowflake bridge reached over a WebSocket.
pub struct SnowflakeBridge {
    websocket_url: String,
    connection_timeout: StdDuration,
}

/// A stream to a Snowflake bridge.
pub struct SnowflakeStream {
    connection: WebSocketConnection,
}

impl SnowflakeBridge {
    pub closed spec fn url(&self) -> Seq<char> {
        self.websocket_url@
    }

    pub fn new(websocket_url: String, connection_timeout: StdDuration) -> (r: SnowflakeBridge)
        ensures
            r.url() == websocket_url@,
    {
        SnowflakeBridge { websocket_url, connection_timeout }
    }

    /// Connects over a WebSocket; fails where there is none.
    pub fn connect(&self) -> (r: Result<SnowflakeStream, TorError>)
        ensures
            r matches Err(TorError::Wasm(_)),
    {
        let duplex = WebSocketDuplex::new(self.websocket_url.clone(), self.connection_timeout);
        let connection = duplex.connect()?;
        Ok(SnowflakeStream { connection })
    }
}

impl SnowflakeStream {
    pub closed spec fn spec_open(&self) -> bool {
        self.connection.spec_open()
    }

    /// Closes the stream.
    pub fn close(&mut self)
        ensures
            !final(self).spec_open(),
    {
        self.connection.close();
    }

    /// Whether the stream is still open.
    pub fn is_open(&self) -> (r: bool)
        ensures
            r == self.spec_open(),
    {
        self.connection.is_open()
    }
}

} // verus!
