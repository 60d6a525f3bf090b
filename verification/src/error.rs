use vstd::prelude::*;

verus! {

/// Errors of the HTTP-Upgrade handshake. Each is fatal to the connection
/// attempt; the caller decides whether to retry.
#[derive(Debug, Clone, PartialEq, Eq)]
pub enum WsError {
    /// The peer's `Sec-WebSocket-Accept` value differs from the token
    /// derived from the nonce we sent.
    InvalidHandshakeKey,
    /// The response carries no `Sec-WebSocket-Accept` header.
    MissingSecWebSocketAcceptHeader,
    /// The request carries no `Sec-WebSocket-Key` header.
    MissingSecWebSocketKeyHeader,
    /// A header line that names the wanted header but holds no colon;
    /// the offending line is carried along.
    Header(String),
}

impl WsError {
    /// A human-readable account of the error.
    pub fn message(&self) -> (r: String)
        ensures
            self is InvalidHandshakeKey ==> r@ == "invalid key for handshake"@,
            self is MissingSecWebSocketAcceptHeader ==> r@
                == "response has no Sec-WebSocket-Accept header"@,
            self is MissingSecWebSocketKeyHeader ==> r@
                == "request has no Sec-WebSocket-Key header"@,
            self matches WsError::Header(line) ==> r@ == "malformed http header: "@ + line@,
    {
        match self {
            WsError::InvalidHandshakeKey => String::from_str("invalid key for handshake"),
            WsError::MissingSecWebSocketAcceptHeader => String::from_str(
                "response has no Sec-WebSocket-Accept header",
            ),
            WsError::MissingSecWebSocketKeyHeader => String::from_str(
                "request has no Sec-WebSocket-Key header",
            ),
            WsError::Header(line) => {
                let mut s = String::from_str("malformed http header: ");
                s.append(line.as_str());
                s
            },
        }
    }
}

/// Errors of the frame layer. Each is fatal to the connection: the codec
/// stops processing further frames.
#[derive(Debug, Clone, Copy, PartialEq, Eq, Structural)]
pub enum FrameError {
    /// One of the three reserved bits after FIN is set.
    ReservedBitsSet,
    /// The mask bit contradicts the sender's role: client frames must be
    /// masked, server frames must not be.
    ForbiddenMaskBit,
    /// The 64-bit extended length has its high bit set.
    PayloadTooLarge,
    /// A control frame (Close, Ping, Pong) with FIN clear.
    FragmentedControlFrame,
    /// A control frame with a payload of more than 125 bytes.
    OversizedControlFrame,
    /// A Continuation frame while no fragmentation run is open.
    UnexpectedContinuation,
    /// A new Text or Binary frame while a fragmentation run is open.
    DataFrameDuringFragmentation,
    /// A frame with a reserved opcode nibble.
    UnknownOpcode,
    /// A frame whose opcode the caller does not handle.
    UnsupportedOpcode,
    /// A Text message whose reassembled payload is not valid UTF-8.
    InvalidUtf8,
    /// The buffer ends before the frame does; only raised by entry points
    /// that demand one whole frame.
    IncompleteFrame,
}

} // verus!
