//! Core of a ROS1 pub/sub client: the TCPROS connection-header codec and the
//! decision logic of the publisher and subscriber peer state machines, together
//! with the package-tree crawler that backs message-type discovery.
//!
//! Sockets, tasks and clocks live outside this crate; everything here is a pure
//! function of its arguments, so the handshake rules, the fan-out bookkeeping
//! and the crawler are specified and proved once and driven by any I/O layer.

use vstd::prelude::*;

pub mod header;
pub mod publication;
pub mod subscription;
pub mod utils;

verus! {

/// The error kinds of the transport core.
///
/// `MalformedHeader` is a connection-header decode failure; `HandshakeError` an
/// md5sum disagreement between the two ends of a stream; `RpcError` a failed
/// `requestTopic` exchange; `Unsupported` a publisher that offers a protocol
/// other than TCPROS. The remaining kinds are surfaced by the I/O layer that
/// drives this core: `BindError` for listener creation, `IoError` for socket
/// reads and writes, `Closed` and `Lagged` for queue endpoints, and the
/// `SerializationError`/`EncodingError`/`DecodingError` family for the typed
/// message codecs layered on top.
#[derive(Clone, Copy, Debug, PartialEq, Eq, Structural)]
pub enum RosError {
    BindError,
    MalformedHeader,
    SerializationError,
    HandshakeError,
    RpcError,
    Unsupported,
    IoError,
    Closed,
    Lagged,
    EncodingError,
    DecodingError,
}

} // verus!
