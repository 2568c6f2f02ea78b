//! Core of a connection-oriented session layer for real-time games: a netcode
//! server that authenticates clients with sealed connect tokens, frames and
//! seals packets, filters replayed sequences, and drives the handshake,
//! keep-alive and timeout state machine. All I/O stays outside; the core only
//! consumes and produces byte vectors and plain values.

use vstd::prelude::*;

pub mod addr;
pub mod bytes;
pub mod crypto;
pub mod header;
pub mod packet;
pub mod replay;
pub mod server;
pub mod setup;
pub mod token;

verus! {

/// Length in bytes of an AEAD key.
pub const NETCODE_KEY_BYTES: usize = 32;
/// Length in bytes of an AEAD authentication tag.
pub const NETCODE_MAC_BYTES: usize = 16;
/// Length in bytes of the user data blob carried by a connect token.
pub const NETCODE_USER_DATA_BYTES: usize = 256;
/// Length in bytes of the sealed private section of a connect token.
pub const NETCODE_CONNECT_TOKEN_PRIVATE_BYTES: usize = 1024;
/// Length in bytes of the extended nonce that seals a connect token.
pub const NETCODE_CONNECT_TOKEN_XNONCE_BYTES: usize = 24;
/// Length in bytes of a sealed challenge token.
pub const NETCODE_CHALLENGE_TOKEN_BYTES: usize = 300;
/// Most clients a server can be configured for.
pub const NETCODE_MAX_CLIENTS: usize = 1024;
/// Most handshakes that may be pending at once.
pub const NETCODE_MAX_PENDING_CLIENTS: usize = 256;
/// Largest payload accepted for a payload packet.
pub const NETCODE_MAX_PAYLOAD_BYTES: usize = 1200;
/// Largest encoded packet.
pub const NETCODE_MAX_PACKET_BYTES: usize = 1400;
/// Most server addresses a connect token may carry.
pub const NETCODE_MAX_SERVER_ADDRESSES: usize = 32;
/// Keep-alive cadence in milliseconds.
pub const NETCODE_SEND_RATE_MILLIS: u64 = 100;

/// The length in bytes of the fixed protocol version identifier.
pub const NETCODE_VERSION_INFO_BYTES: usize = 13;

/// The fixed 13-byte ASCII protocol version identifier.
pub open spec fn spec_version_info() -> Seq<u8> {
    seq![78u8, 69u8, 84u8, 67u8, 79u8, 68u8, 69u8, 32u8, 49u8, 46u8, 48u8, 50u8, 0u8]
}

/// Returns the fixed protocol version identifier.
pub fn version_info() -> (r: Vec<u8>)
    ensures
        r@ == spec_version_info(),
{
    let mut v: Vec<u8> = Vec::new();
    v.push(78);
    v.push(69);
    v.push(84);
    v.push(67);
    v.push(79);
    v.push(68);
    v.push(69);
    v.push(32);
    v.push(49);
    v.push(46);
    v.push(48);
    v.push(50);
    v.push(0);
    proof {
        assert(v@ =~= spec_version_info());
    }
    v
}

/// Errors surfaced by the netcode core.
#[derive(Debug, Clone, Copy, PartialEq, Eq, Structural)]
pub enum NetcodeError {
    /// The version identifier of a packet or token did not match.
    InvalidVersion,
    /// The protocol id of a packet or token did not match.
    InvalidProtocolID,
    /// A connect token was presented after its expire timestamp.
    Expired,
    /// A packet named a socket the server does not have, or a token was
    /// presented on a socket other than the one it was minted for.
    InvalidSocketId,
    /// A packet was shorter than the smallest valid frame.
    PacketTooSmall,
    /// A buffer did not hold the bytes a structure requires.
    BufferTooSmall,
    /// The first byte of a packet named no known packet kind.
    InvalidPacketType,
    /// A message-layer header began with the wrong kind tag or carried an
    /// unknown error code.
    InvalidHeaderType,
    /// A first fragment was written without its packet header.
    FragmentMissingPacketHeader,
    /// A sealed structure failed authentication or was malformed.
    CryptoError,
    /// A sequence number was already seen by replay protection.
    DuplicatedSequence,
    /// When secure, none of the token's addresses belongs to the socket.
    NotInHostList,
    /// A token held no address or more than the supported number.
    InvalidAddressCount,
    /// A payload was longer than `NETCODE_MAX_PAYLOAD_BYTES`.
    PayloadAboveLimit,
    /// An outbound sequence counter reached its last value; reusing it
    /// would repeat a nonce, so the operation is refused.
    SequenceOverflow,
    /// No connected client has the requested id.
    ClientNotFound,
}

} // verus!
