//! The proxy's error kinds.
use vstd::prelude::*;
use crate::wire::ProtocolError;

verus! {

/// What went wrong while serving one connection or loading the configuration.
#[derive(Clone, Copy, Debug, PartialEq, Eq, Structural)]
pub enum ProxyError {
    /// The configuration is invalid or lacks a required key.
    ConfigParse,
    /// No upstream server could be chosen or reached.
    ServerConnect,
    /// A listener turned an event into another kind of event.
    EventChanged,
    /// The first packet of a connection is not a valid handshake.
    HandshakePacket,
    /// An unexpected or malformed packet during login.
    LoginPacket,
    /// The peer address of a connection is unknown.
    PeerAddr,
    /// A packet could not be read or written.
    ProtocolError(ProtocolError),
    /// The peer closed the connection.
    ConnectionClosed,
}

/// The proxy error for a protocol error: the end of the stream is a closed
/// connection, anything else a protocol error.
pub open spec fn proxy_error_of(e: ProtocolError) -> ProxyError {
    if e == ProtocolError::EndOfStream {
        ProxyError::ConnectionClosed
    } else {
        ProxyError::ProtocolError(e)
    }
}

impl ProtocolError {
    /// The proxy error for this protocol error.
    pub fn as_proxy(self) -> (r: ProxyError)
        ensures
            r == proxy_error_of(self),
    {
        match self {
            ProtocolError::EndOfStream => ProxyError::ConnectionClosed,
            e => ProxyError::ProtocolError(e),
        }
    }
}

} // verus!
