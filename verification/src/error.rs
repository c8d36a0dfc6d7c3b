use vstd::prelude::*;

verus! {

/// `std::io::Error`, carried through unchanged from the socket or
/// decompressor that produced it.
#[verifier::external_type_specification]
#[verifier::external_body]
pub struct ExIoError(std::io::Error);

/// Everything that can go wrong while encoding or decoding the 1.8.9
/// protocol.
#[derive(Debug)]
pub enum ProtocolError {
    Io(std::io::Error),
    /// A VarInt ran past 5 bytes.
    VarIntTooLarge,
    /// A VarLong ran past 10 bytes.
    VarLongTooLarge,
    /// A packet body ended before the field being read.
    UnexpectedEof,
    /// A string field was not valid UTF-8.
    InvalidString,
    /// A frame length (or a compressed body length) of 0 or above the
    /// frame size limit.
    PacketTooLarge(usize),
    /// A packet id that is not valid in the given connection state.
    UnknownPacket(i32, &'static str),
    /// The server refused the login (or kicked us) with this reason.
    Disconnected(String),
    /// The server closed the connection.
    ConnectionClosed,
}

} // verus!
