//! A transparent reverse proxy for the Minecraft Java Edition protocol.
//!
//! The library holds the protocol logic: the packet field codec, the proxy
//! configuration, the handshake / status / login state machines, the event
//! dispatch and the session set. Sockets and threads live with the caller,
//! which performs the actions that the state machines hand back.
pub mod config;
pub mod driver;
pub mod error;
pub mod protocol;
pub mod proxy;
pub mod text;
pub mod wire;
pub mod yaml;

use vstd::prelude::*;

verus! {

} // verus!
