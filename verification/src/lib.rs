//! A verified client-side engine for the TDS tabular-data-stream protocol:
//! packet framing, token-stream decoding, session negotiation, and query
//! execution over an abstract byte transport. All I/O is left to the host;
//! the engine turns request values into wire bytes and wire bytes back into
//! typed results, and every step carries a proved contract.

pub mod client;
pub mod codec;
pub mod packet;
pub mod session;
pub mod wire;

use vstd::prelude::*;

verus! {

/// The severity class above which a server-sent error token is fatal to the
/// current operation: the result stream terminates with a `ServerError`.
pub const FATAL_SEVERITY: u8 = 10;

/// Every failure the engine can report, as a typed value.
#[derive(Clone, PartialEq, Eq, Debug)]
pub enum TdsError {
    /// Malformed packet framing or token structure; fatal to the session.
    ProtocolError,
    /// The negotiated encryption policy and the server's advertisement
    /// cannot be reconciled.
    EncryptionPolicyMismatch,
    /// The server rejected the supplied credentials.
    AuthenticationError,
    /// An application-level error token whose severity exceeds the fatal
    /// threshold: the token's diagnostic code, severity and message text
    /// are carried along.
    ServerError { code: u32, severity: u8, message: Vec<u8> },
    /// Client-side parameter validation failed before any bytes were sent.
    ParameterBindingError,
    /// The session is not in a state that can accept this operation.
    SessionStateError,
}

} // verus!
