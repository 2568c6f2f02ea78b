//! The packet codec: six packet kinds behind a one-byte prefix that carries
//! the kind tag and the sequence length. Every non-request body is sealed
//! with the session AEAD, or copied in the clear on sockets that bring their
//! own encryption; the connection request alone carries a sealed connect
//! token instead.

use vstd::prelude::*;

use crate::bytes::{be_bytes, bytes_equal, le32, le64, lemma_be_bytes_injective,
    lemma_le32_injective, lemma_le64_injective, lemma_sequence_len_bounds,
    lemma_sequence_len_minimal, read_bytes, read_sequence_be, read_u32_le, read_u64_le,
    sequence_bytes_required, spec_sequence_len, write_bytes, write_sequence_be, write_u32_le,
    write_u64_le, write_zeros, zeros};
use crate::crypto::{copen, copen_of, cseal, cseal_of};
use crate::{spec_version_info, version_info, NetcodeError, NETCODE_CHALLENGE_TOKEN_BYTES,
    NETCODE_CONNECT_TOKEN_PRIVATE_BYTES, NETCODE_CONNECT_TOKEN_XNONCE_BYTES, NETCODE_KEY_BYTES,
    NETCODE_MAC_BYTES, NETCODE_MAX_PAYLOAD_BYTES, NETCODE_USER_DATA_BYTES,
    NETCODE_VERSION_INFO_BYTES};

verus! {

/// Plaintext length of a sealed challenge token.
pub const CHALLENGE_PLAIN_BYTES: usize = 284;

/// Encoded length of a connection request frame.
pub const REQUEST_FRAME_BYTES: usize = 1078;

/// Mathematical content of a challenge token.
#[verifier::ext_equal]
pub struct ChallengeTokenView {
    /// The client identity being challenged.
    pub client_id: u64,
    /// The user data copied from the connect token.
    pub user_data: Seq<u8>,
}

impl ChallengeTokenView {
    /// Field lengths a challenge token must have.
    pub open spec fn wf(self) -> bool {
        self.user_data.len() == NETCODE_USER_DATA_BYTES
    }
}

/// The challenge plaintext: client id little endian, user data, then zero
/// padding.
pub open spec fn challenge_plain(t: ChallengeTokenView) -> Seq<u8> {
    le64(t.client_id) + t.user_data + zeros((CHALLENGE_PLAIN_BYTES - 264) as nat)
}

/// The nonce a packet or challenge sequence number seals under: four zero
/// bytes then the sequence little endian.
pub open spec fn seq_nonce(sequence: u64) -> Seq<u8> {
    zeros(4) + le64(sequence)
}

/// Builds the sealing nonce of a sequence number.
pub fn build_seq_nonce(sequence: u64) -> (r: Vec<u8>)
    ensures
        r@ == seq_nonce(sequence),
        r@.len() == 12,
{
    let mut out: Vec<u8> = Vec::new();
    write_zeros(&mut out, 4);
    write_u64_le(&mut out, sequence);
    proof {
        assert(out@ =~= seq_nonce(sequence));
    }
    out
}

/// A challenge token: what the server seals into a challenge packet and
/// expects back in the response.
#[derive(Debug, Clone)]
pub struct ChallengeToken {
    /// The client identity being challenged.
    pub client_id: u64,
    /// The user data copied from the connect token.
    pub user_data: Vec<u8>,
}

impl View for ChallengeToken {
    type V = ChallengeTokenView;

    open spec fn view(&self) -> ChallengeTokenView {
        ChallengeTokenView { client_id: self.client_id, user_data: self.user_data@ }
    }
}

impl ChallengeToken {
    /// Seals the token under the server's ephemeral challenge key and the
    /// challenge sequence.
    pub fn seal(&self, sequence: u64, key: &Vec<u8>) -> (r: Vec<u8>)
        requires
            self@.wf(),
            key@.len() == NETCODE_KEY_BYTES,
        ensures
            r@ == cseal_of(key@, seq_nonce(sequence), Seq::empty(), challenge_plain(self@)),
            r@.len() == NETCODE_CHALLENGE_TOKEN_BYTES,
            copen_of(key@, seq_nonce(sequence), Seq::empty(), r@) == Some(challenge_plain(self@)),
    {
        let mut plain: Vec<u8> = Vec::new();
        write_u64_le(&mut plain, self.client_id);
        write_bytes(&mut plain, &self.user_data, 0, self.user_data.len());
        write_zeros(&mut plain, CHALLENGE_PLAIN_BYTES - 264);
        proof {
            assert(self.user_data@.subrange(0, NETCODE_USER_DATA_BYTES as int) =~= self
                .user_data@);
            assert(plain@ =~= challenge_plain(self@));
        }
        let nonce = build_seq_nonce(sequence);
        let aad: Vec<u8> = Vec::new();
        let r = cseal(key, &nonce, &aad, &plain);
        proof {
            assert(aad@ =~= Seq::<u8>::empty());
        }
        r
    }

    /// Opens and parses a sealed challenge token. Yields exactly the token
    /// that was sealed under the key and sequence; rejects anything else.
    #[verifier::loop_isolation(false)]
    pub fn decode(data: &Vec<u8>, sequence: u64, key: &Vec<u8>) -> (r: Result<
        ChallengeToken,
        NetcodeError,
    >)
        requires
            key@.len() == NETCODE_KEY_BYTES,
        ensures
            r matches Ok(t) ==> t@.wf() && copen_of(key@, seq_nonce(sequence), Seq::empty(), data@)
                == Some(challenge_plain(t@)),
            copen_of(key@, seq_nonce(sequence), Seq::empty(), data@) is None ==> r == Err::<
                ChallengeToken,
                NetcodeError,
            >(NetcodeError::CryptoError),
            forall|t0: ChallengeTokenView|
                t0.wf() && copen_of(key@, seq_nonce(sequence), Seq::empty(), data@) == Some(
                    challenge_plain(t0),
                ) ==> (r matches Ok(t) && t@ == t0),
    {
        let nonce = build_seq_nonce(sequence);
        let aad: Vec<u8> = Vec::new();
        proof {
            assert(aad@ =~= Seq::<u8>::empty());
        }
        let plain = match copen(key, &nonce, &aad, data) {
            None => {
                return Err(NetcodeError::CryptoError);
            },
            Some(p) => p,
        };
        let blen: usize = plain.len();
        if blen != CHALLENGE_PLAIN_BYTES {
            proof {
                assert forall|t0: ChallengeTokenView| !(t0.wf() && plain@ == challenge_plain(
                    t0,
                )) by {}
            }
            return Err(NetcodeError::CryptoError);
        }
        let mut j: usize = 264;
        while j < CHALLENGE_PLAIN_BYTES
            invariant
                264 <= j <= CHALLENGE_PLAIN_BYTES,
                forall|k: int| 264 <= k < j ==> plain@[k] == 0,
            decreases CHALLENGE_PLAIN_BYTES - j,
        {
            if plain[j] != 0 {
                proof {
                    assert forall|t0: ChallengeTokenView| !(t0.wf() && plain@ == challenge_plain(
                        t0,
                    )) by {}
                }
                return Err(NetcodeError::CryptoError);
            }
            j = j + 1;
        }
        let client_id = read_u64_le(&plain, 0);
        let user_data = read_bytes(&plain, 8, NETCODE_USER_DATA_BYTES);
        let token = ChallengeToken { client_id, user_data };
        proof {
            assert(plain@ =~= challenge_plain(token@));
            assert forall|t0: ChallengeTokenView|
                t0.wf() && plain@ == challenge_plain(t0) implies token@ == t0 by {
                assert(le64(t0.client_id) =~= plain@.subrange(0, 8));
                lemma_le64_injective(client_id, t0.client_id);
                assert(t0.user_data =~= plain@.subrange(8, 264));
                assert(token@ =~= t0);
            }
        }
        Ok(token)
    }
}

/// One decoded packet.
#[derive(Debug)]
pub enum Packet {
    /// The opening packet of a handshake, carrying a sealed connect token.
    ConnectionRequest {
        /// The fixed protocol version identifier.
        version_info: Vec<u8>,
        /// Application protocol id.
        protocol_id: u64,
        /// Second at which the carried token expires.
        expire_timestamp: u64,
        /// Extended nonce of the carried private section.
        xnonce: Vec<u8>,
        /// The sealed private section of the connect token.
        data: Vec<u8>,
    },
    /// The server refuses a connection.
    ConnectionDenied,
    /// The server challenges a requester with a sealed challenge token.
    Challenge {
        /// Sequence the challenge token is sealed under.
        token_sequence: u64,
        /// The sealed challenge token.
        token_data: Vec<u8>,
    },
    /// The client echoes the sealed challenge token back.
    Response {
        /// Sequence the challenge token is sealed under.
        token_sequence: u64,
        /// The sealed challenge token.
        token_data: Vec<u8>,
    },
    /// Refreshes the idle clock and confirms the admitted slot.
    KeepAlive {
        /// The admitted slot index.
        client_index: u32,
        /// The server's configured capacity.
        max_clients: u32,
    },
    /// Application bytes.
    Payload {
        /// The application bytes carried.
        payload: Vec<u8>,
    },
    /// Either side ends the connection.
    Disconnect,
}

/// Mathematical content of one packet.
#[verifier::ext_equal]
pub enum PacketView {
    /// The opening packet of a handshake, carrying a sealed connect token.
    ConnectionRequest {
        /// The fixed protocol version identifier.
        version_info: Seq<u8>,
        /// Application protocol id.
        protocol_id: u64,
        /// Second at which the carried token expires.
        expire_timestamp: u64,
        /// Extended nonce of the carried private section.
        xnonce: Seq<u8>,
        /// The sealed private section of the connect token.
        data: Seq<u8>,
    },
    /// The server refuses a connection.
    ConnectionDenied,
    /// The server challenges a requester with a sealed challenge token.
    Challenge {
        /// Sequence the challenge token is sealed under.
        token_sequence: u64,
        /// The sealed challenge token.
        token_data: Seq<u8>,
    },
    /// The client echoes the sealed challenge token back.
    Response {
        /// Sequence the challenge token is sealed under.
        token_sequence: u64,
        /// The sealed challenge token.
        token_data: Seq<u8>,
    },
    /// Refreshes the idle clock and confirms the admitted slot.
    KeepAlive {
        /// The admitted slot index.
        client_index: u32,
        /// The server's configured capacity.
        max_clients: u32,
    },
    /// Application bytes.
    Payload {
        /// The application bytes carried.
        payload: Seq<u8>,
    },
    /// Either side ends the connection.
    Disconnect,
}

impl View for Packet {
    type V = PacketView;

    open spec fn view(&self) -> PacketView {
        match self {
            Packet::ConnectionRequest { version_info, protocol_id, expire_timestamp, xnonce, data } => {
                PacketView::ConnectionRequest {
                    version_info: version_info@,
                    protocol_id: *protocol_id,
                    expire_timestamp: *expire_timestamp,
                    xnonce: xnonce@,
                    data: data@,
                }
            },
            Packet::ConnectionDenied => PacketView::ConnectionDenied,
            Packet::Challenge { token_sequence, token_data } => PacketView::Challenge {
                token_sequence: *token_sequence,
                token_data: token_data@,
            },
            Packet::Response { token_sequence, token_data } => PacketView::Response {
                token_sequence: *token_sequence,
                token_data: token_data@,
            },
            Packet::KeepAlive { client_index, max_clients } => PacketView::KeepAlive {
                client_index: *client_index,
                max_clients: *max_clients,
            },
            Packet::Payload { payload } => PacketView::Payload { payload: payload@ },
            Packet::Disconnect => PacketView::Disconnect,
        }
    }
}

impl PacketView {
    /// The one-byte kind tag of the packet.
    pub open spec fn tag(self) -> u8 {
        match self {
            PacketView::ConnectionRequest { .. } => 0,
            PacketView::ConnectionDenied => 1,
            PacketView::Challenge { .. } => 2,
            PacketView::Response { .. } => 3,
            PacketView::KeepAlive { .. } => 4,
            PacketView::Payload { .. } => 5,
            PacketView::Disconnect => 6,
        }
    }

    /// Field lengths a packet must have.
    pub open spec fn wf(self) -> bool {
        match self {
            PacketView::ConnectionRequest { version_info, xnonce, data, .. } => {
                &&& version_info == spec_version_info()
                &&& xnonce.len() == NETCODE_CONNECT_TOKEN_XNONCE_BYTES
                &&& data.len() == NETCODE_CONNECT_TOKEN_PRIVATE_BYTES
            },
            PacketView::Challenge { token_data, .. } => token_data.len()
                == NETCODE_CHALLENGE_TOKEN_BYTES,
            PacketView::Response { token_data, .. } => token_data.len()
                == NETCODE_CHALLENGE_TOKEN_BYTES,
            PacketView::Payload { payload } => payload.len() <= NETCODE_MAX_PAYLOAD_BYTES,
            _ => true,
        }
    }

    /// The body bytes of a non-request packet, before sealing.
    pub open spec fn body_bytes(self) -> Seq<u8> {
        match self {
            PacketView::ConnectionRequest { .. } => Seq::empty(),
            PacketView::ConnectionDenied => Seq::empty(),
            PacketView::Challenge { token_sequence, token_data } => le64(token_sequence)
                + token_data,
            PacketView::Response { token_sequence, token_data } => le64(token_sequence)
                + token_data,
            PacketView::KeepAlive { client_index, max_clients } => le32(client_index) + le32(
                max_clients,
            ),
            PacketView::Payload { payload } => payload,
            PacketView::Disconnect => Seq::empty(),
        }
    }

    /// The prefix byte of a non-request frame: sequence length in the high
    /// four bits, kind tag in the low four.
    pub open spec fn prefix_byte(self, sequence: u64) -> u8 {
        (spec_sequence_len(sequence) * 16 + self.tag()) as u8
    }
}

/// The associated data of a sealed packet body: protocol id then sequence,
/// little endian.
pub open spec fn packet_aad(protocol_id: u64, sequence: u64) -> Seq<u8> {
    le64(protocol_id) + le64(sequence)
}

/// Builds the associated data of a sealed packet body.
pub fn build_packet_aad(protocol_id: u64, sequence: u64) -> (r: Vec<u8>)
    ensures
        r@ == packet_aad(protocol_id, sequence),
        r@.len() == 16,
{
    let mut out: Vec<u8> = Vec::new();
    write_u64_le(&mut out, protocol_id);
    write_u64_le(&mut out, sequence);
    proof {
        assert(out@ =~= packet_aad(protocol_id, sequence));
    }
    out
}

/// The wire bytes of a connection request frame.
pub open spec fn request_frame(p: PacketView) -> Seq<u8>
    recommends
        p is ConnectionRequest,
{
    match p {
        PacketView::ConnectionRequest { version_info, protocol_id, expire_timestamp, xnonce, data } => {
            seq![0u8] + version_info + le64(protocol_id) + le64(expire_timestamp) + xnonce + data
        },
        _ => Seq::empty(),
    }
}

/// The wire bytes of a sealed non-request frame: prefix byte, the truncated
/// big-endian sequence, then the AEAD-sealed body.
pub open spec fn sealed_frame(p: PacketView, protocol_id: u64, sequence: u64, key: Seq<u8>) -> Seq<
    u8,
> {
    seq![p.prefix_byte(sequence)] + be_bytes(sequence, spec_sequence_len(sequence)) + cseal_of(
        key,
        seq_nonce(sequence),
        packet_aad(protocol_id, sequence),
        p.body_bytes(),
    )
}

/// The wire bytes of an unsealed non-request frame: prefix byte, sequence,
/// the body in the clear, then sixteen zero bytes where the tag would sit,
/// so both modes frame alike.
pub open spec fn plain_frame(p: PacketView, sequence: u64) -> Seq<u8> {
    seq![p.prefix_byte(sequence)] + be_bytes(sequence, spec_sequence_len(sequence))
        + p.body_bytes() + zeros(NETCODE_MAC_BYTES as nat)
}

/// Whether `buffer` is a sealed frame that opens under `key` to packet `p`
/// with sequence `s`.
pub open spec fn opens_to(
    buffer: Seq<u8>,
    protocol_id: u64,
    key: Seq<u8>,
    s: u64,
    p: PacketView,
) -> bool {
    let n = spec_sequence_len(s) as int;
    &&& p.wf()
    &&& !(p is ConnectionRequest)
    &&& buffer.len() >= 1 + n + NETCODE_MAC_BYTES
    &&& buffer[0] == p.prefix_byte(s)
    &&& buffer.subrange(1, 1 + n) == be_bytes(s, n as nat)
    &&& copen_of(key, seq_nonce(s), packet_aad(protocol_id, s), buffer.skip(1 + n)) == Some(
        p.body_bytes(),
    )
}

impl Packet {
    /// The one-byte kind tag of the packet.
    pub fn tag_byte(&self) -> (r: u8)
        ensures
            r == self@.tag(),
    {
        match self {
            Packet::ConnectionRequest { .. } => 0,
            Packet::ConnectionDenied => 1,
            Packet::Challenge { .. } => 2,
            Packet::Response { .. } => 3,
            Packet::KeepAlive { .. } => 4,
            Packet::Payload { .. } => 5,
            Packet::Disconnect => 6,
        }
    }

    /// Serialises the body of a non-request packet, before sealing.
    fn body(&self) -> (r: Vec<u8>)
        requires
            self@.wf(),
            !(self@ is ConnectionRequest),
        ensures
            r@ == self@.body_bytes(),
            r@.len() <= NETCODE_MAX_PAYLOAD_BYTES,
    {
        let mut out: Vec<u8> = Vec::new();
        match self {
            Packet::Challenge { token_sequence, token_data } => {
                write_u64_le(&mut out, *token_sequence);
                write_bytes(&mut out, token_data, 0, token_data.len());
                proof {
                    assert(token_data@.subrange(0, token_data@.len() as int) =~= token_data@);
                    assert(out@ =~= self@.body_bytes());
                }
            },
            Packet::Response { token_sequence, token_data } => {
                write_u64_le(&mut out, *token_sequence);
                write_bytes(&mut out, token_data, 0, token_data.len());
                proof {
                    assert(token_data@.subrange(0, token_data@.len() as int) =~= token_data@);
                    assert(out@ =~= self@.body_bytes());
                }
            },
            Packet::KeepAlive { client_index, max_clients } => {
                write_u32_le(&mut out, *client_index);
                write_u32_le(&mut out, *max_clients);
                proof {
                    assert(out@ =~= self@.body_bytes());
                }
            },
            Packet::Payload { payload } => {
                write_bytes(&mut out, payload, 0, payload.len());
                proof {
                    assert(payload@.subrange(0, payload@.len() as int) =~= payload@);
                    assert(out@ =~= self@.body_bytes());
                }
            },
            _ => {
                proof {
                    assert(out@ =~= self@.body_bytes());
                }
            },
        }
        out
    }

    /// Encodes the packet into one frame. A connection request frames its
    /// fields directly; every other kind takes the sequence from
    /// `crypto_info` and seals its body when the socket needs encryption, or
    /// copies it in the clear with a zeroed tag when the transport brings
    /// its own.
    pub fn encode(
        &self,
        protocol_id: u64,
        crypto_info: Option<(u64, &Vec<u8>)>,
        needs_encryption: bool,
    ) -> (r: Result<Vec<u8>, NetcodeError>)
        requires
            self@.wf(),
            crypto_info matches Some(c) ==> c.1@.len() == NETCODE_KEY_BYTES,
        ensures
            self@ is ConnectionRequest ==> (r matches Ok(b) && b@ == request_frame(self@)),
            !(self@ is ConnectionRequest) && crypto_info is None ==> r is Err,
            !(self@ is ConnectionRequest) ==> (crypto_info matches Some(c) ==> (r matches Ok(b)
                && (if needs_encryption {
                    b@ == sealed_frame(self@, protocol_id, c.0, c.1@) && opens_to(
                        b@,
                        protocol_id,
                        c.1@,
                        c.0,
                        self@,
                    )
                } else {
                    b@ == plain_frame(self@, c.0)
                }))),
    {
        match self {
            Packet::ConnectionRequest { version_info, protocol_id: req_protocol, expire_timestamp, xnonce, data } => {
                let mut out: Vec<u8> = Vec::new();
                out.push(0);
                write_bytes(&mut out, version_info, 0, version_info.len());
                write_u64_le(&mut out, *req_protocol);
                write_u64_le(&mut out, *expire_timestamp);
                write_bytes(&mut out, xnonce, 0, xnonce.len());
                write_bytes(&mut out, data, 0, data.len());
                proof {
                    assert(version_info@.subrange(0, version_info@.len() as int) =~= version_info@);
                    assert(xnonce@.subrange(0, xnonce@.len() as int) =~= xnonce@);
                    assert(data@.subrange(0, data@.len() as int) =~= data@);
                    assert(out@ =~= request_frame(self@));
                }
                Ok(out)
            },
            _ => {
                let (sequence, key) = match crypto_info {
                    None => {
                        return Err(NetcodeError::CryptoError);
                    },
                    Some(c) => c,
                };
                let n = sequence_bytes_required(sequence);
                let prefix: u8 = (n as u8) * 16 + self.tag_byte();
                let mut out: Vec<u8> = Vec::new();
                out.push(prefix);
                write_sequence_be(&mut out, sequence, n);
                let body = self.body();
                if needs_encryption {
                    let aad = build_packet_aad(protocol_id, sequence);
                    let nonce = build_seq_nonce(sequence);
                    let ct = cseal(key, &nonce, &aad, &body);
                    write_bytes(&mut out, &ct, 0, ct.len());
                    proof {
                        assert(ct@.subrange(0, ct@.len() as int) =~= ct@);
                        assert(out@ =~= sealed_frame(self@, protocol_id, sequence, key@));
                        crate::bytes::lemma_be_bytes_len(sequence, spec_sequence_len(sequence));
                        assert(out@.subrange(1, 1 + n as int) =~= be_bytes(sequence, n as nat));
                        assert(out@.skip(1 + n as int) =~= ct@);
                    }
                    Ok(out)
                } else {
                    write_bytes(&mut out, &body, 0, body.len());
                    write_zeros(&mut out, NETCODE_MAC_BYTES);
                    proof {
                        assert(body@.subrange(0, body@.len() as int) =~= body@);
                        assert(out@ =~= plain_frame(self@, sequence));
                    }
                    Ok(out)
                }
            },
        }
    }

    /// Parses the body of a non-request packet. Succeeds on, and returns,
    /// exactly the packet whose body it is.
    fn parse_body(tag: u8, body: &Vec<u8>) -> (r: Result<Packet, NetcodeError>)
        requires
            1 <= tag <= 6,
        ensures
            r matches Ok(p) ==> p@.wf() && !(p@ is ConnectionRequest) && p@.tag() == tag
                && p@.body_bytes() == body@,
            forall|p0: PacketView|
                p0.wf() && !(p0 is ConnectionRequest) && p0.tag() == tag && p0.body_bytes()
                    == body@ ==> (r matches Ok(p) && p@ == p0),
    {
        let blen: usize = body.len();
        if tag == 1 || tag == 6 {
            if blen != 0 {
                return Err(NetcodeError::PacketTooSmall);
            }
            proof {
                assert(body@ =~= Seq::<u8>::empty());
            }
            if tag == 1 {
                Ok(Packet::ConnectionDenied)
            } else {
                Ok(Packet::Disconnect)
            }
        } else if tag == 2 || tag == 3 {
            if blen != 8 + NETCODE_CHALLENGE_TOKEN_BYTES {
                return Err(NetcodeError::PacketTooSmall);
            }
            let token_sequence = read_u64_le(body, 0);
            let token_data = read_bytes(body, 8, NETCODE_CHALLENGE_TOKEN_BYTES);
            let p = if tag == 2 {
                Packet::Challenge { token_sequence, token_data }
            } else {
                Packet::Response { token_sequence, token_data }
            };
            proof {
                assert(p@.body_bytes() =~= body@);
                assert forall|p0: PacketView|
                    p0.wf() && !(p0 is ConnectionRequest) && p0.tag() == tag && p0.body_bytes()
                        == body@ implies p@ == p0 by {
                    let (ts0, td0) = match p0 {
                        PacketView::Challenge { token_sequence, token_data } => (
                            token_sequence,
                            token_data,
                        ),
                        PacketView::Response { token_sequence, token_data } => (
                            token_sequence,
                            token_data,
                        ),
                        _ => (0u64, Seq::empty()),
                    };
                    assert(le64(ts0) =~= body@.subrange(0, 8));
                    lemma_le64_injective(token_sequence, ts0);
                    assert(td0 =~= body@.subrange(8, 308));
                    assert(p@ =~= p0);
                }
            }
            Ok(p)
        } else if tag == 4 {
            if blen != 8 {
                return Err(NetcodeError::PacketTooSmall);
            }
            let client_index = read_u32_le(body, 0);
            let max_clients = read_u32_le(body, 4);
            let p = Packet::KeepAlive { client_index, max_clients };
            proof {
                assert(p@.body_bytes() =~= body@);
                assert forall|p0: PacketView|
                    p0.wf() && !(p0 is ConnectionRequest) && p0.tag() == tag && p0.body_bytes()
                        == body@ implies p@ == p0 by {
                    let (ci0, mc0) = match p0 {
                        PacketView::KeepAlive { client_index, max_clients } => (
                            client_index,
                            max_clients,
                        ),
                        _ => (0u32, 0u32),
                    };
                    assert(le32(ci0) =~= body@.subrange(0, 4));
                    assert(le32(mc0) =~= body@.subrange(4, 8));
                    lemma_le32_injective(client_index, ci0);
                    lemma_le32_injective(max_clients, mc0);
                    assert(p@ =~= p0);
                }
            }
            Ok(p)
        } else {
            if blen > NETCODE_MAX_PAYLOAD_BYTES {
                return Err(NetcodeError::PayloadAboveLimit);
            }
            let payload = read_bytes(body, 0, blen);
            proof {
                assert(body@.subrange(0, blen as int) =~= body@);
            }
            let p = Packet::Payload { payload };
            proof {
                assert forall|p0: PacketView|
                    p0.wf() && !(p0 is ConnectionRequest) && p0.tag() == tag && p0.body_bytes()
                        == body@ implies p@ == p0 by {
                    assert(p@ =~= p0);
                }
            }
            Ok(p)
        }
    }

    /// Decodes one frame: the sequence and the packet. A request frame needs
    /// no key; any other frame is opened under the receive key when the
    /// socket needs encryption, or read in the clear otherwise. Decoding is
    /// strict: it accepts exactly the frames the encoder emits.
    #[verifier::loop_isolation(false)]
    pub fn decode(
        buffer: &Vec<u8>,
        protocol_id: u64,
        receive_key: Option<&Vec<u8>>,
        needs_encryption: bool,
    ) -> (r: Result<(u64, Packet), NetcodeError>)
        requires
            receive_key matches Some(k) ==> k@.len() == NETCODE_KEY_BYTES,
        ensures
            r matches Ok(sp) ==> sp.1@.wf(),
            r matches Ok(sp) ==> (sp.1@ is ConnectionRequest ==> sp.0 == 0 && buffer@
                == request_frame(sp.1@)),
            forall|p0: PacketView|
                p0.wf() && p0 is ConnectionRequest && buffer@ == request_frame(p0) ==> (
                r matches Ok(sp) && sp.0 == 0 && sp.1@ == p0),
            needs_encryption ==> (r matches Ok(sp) ==> (!(sp.1@ is ConnectionRequest)
                ==> (receive_key matches Some(k) && opens_to(
                buffer@,
                protocol_id,
                k@,
                sp.0,
                sp.1@,
            )))),
            !needs_encryption ==> (r matches Ok(sp) ==> (!(sp.1@ is ConnectionRequest) ==> buffer@
                == plain_frame(sp.1@, sp.0))),
            forall|s0: u64, p0: PacketView|
                #[trigger] frame_matches(buffer@, protocol_id, receive_key, needs_encryption, s0, p0)
                    ==> (r matches Ok(sp) && sp.0 == s0 && sp.1@ == p0),
    {
        let blen: usize = buffer.len();
        if blen < 1 {
            proof {
                lemma_frame_shapes();
            }
            return Err(NetcodeError::PacketTooSmall);
        }
        let prefix = buffer[0];
        let tag: u8 = prefix % 16;
        let nib: u8 = prefix / 16;
        if tag == 0 {
            proof {
                assert forall|s0: u64, p0: PacketView|
                    !#[trigger] frame_matches(
                        buffer@,
                        protocol_id,
                        receive_key,
                        needs_encryption,
                        s0,
                        p0,
                    ) by {
                    if frame_matches(buffer@, protocol_id, receive_key, needs_encryption, s0, p0) {
                        lemma_match_prefix(
                            buffer@,
                            protocol_id,
                            receive_key,
                            needs_encryption,
                            s0,
                            p0,
                        );
                    }
                }
            }
            if prefix != 0 || blen != REQUEST_FRAME_BYTES {
                proof {
                    lemma_frame_shapes();
                }
                return Err(NetcodeError::InvalidPacketType);
            }
            let version = read_bytes(buffer, 1, NETCODE_VERSION_INFO_BYTES);
            let expected = version_info();
            if !bytes_equal(&version, &expected) {
                proof {
                    lemma_frame_shapes();
                    assert forall|p0: PacketView| !(p0.wf() && p0 is ConnectionRequest && buffer@
                        == request_frame(p0)) by {
                        if p0.wf() && p0 is ConnectionRequest && buffer@ == request_frame(p0) {
                            lemma_request_fields(p0, buffer@);
                        }
                    }
                }
                return Err(NetcodeError::InvalidVersion);
            }
            let req_protocol = read_u64_le(buffer, 14);
            let expire_timestamp = read_u64_le(buffer, 22);
            let xnonce = read_bytes(buffer, 30, NETCODE_CONNECT_TOKEN_XNONCE_BYTES);
            let data = read_bytes(buffer, 54, NETCODE_CONNECT_TOKEN_PRIVATE_BYTES);
            let p = Packet::ConnectionRequest {
                version_info: version,
                protocol_id: req_protocol,
                expire_timestamp,
                xnonce,
                data,
            };
            proof {
                lemma_frame_shapes();
                assert(buffer@ =~= request_frame(p@));
                assert forall|p0: PacketView|
                    p0.wf() && p0 is ConnectionRequest && buffer@ == request_frame(p0) implies p@
                    == p0 by {
                    lemma_request_fields(p0, buffer@);
                    let (pr0, ex0) = match p0 {
                        PacketView::ConnectionRequest { protocol_id, expire_timestamp, .. } => (
                            protocol_id,
                            expire_timestamp,
                        ),
                        _ => (0u64, 0u64),
                    };
                    lemma_le64_injective(req_protocol, pr0);
                    lemma_le64_injective(expire_timestamp, ex0);
                    assert(p@ =~= p0);
                }
            }
            return Ok((0, p));
        }
        proof {
            lemma_frame_shapes();
        }
        if tag > 6 || nib < 1 || nib > 8 {
            proof {
                assert forall|s0: u64, p0: PacketView|
                    !#[trigger] frame_matches(
                        buffer@,
                        protocol_id,
                        receive_key,
                        needs_encryption,
                        s0,
                        p0,
                    ) by {
                    if frame_matches(buffer@, protocol_id, receive_key, needs_encryption, s0, p0) {
                        lemma_match_prefix(
                            buffer@,
                            protocol_id,
                            receive_key,
                            needs_encryption,
                            s0,
                            p0,
                        );
                    }
                }
            }
            return Err(NetcodeError::InvalidPacketType);
        }
        let nibu: usize = nib as usize;
        if blen < 1 + nibu + NETCODE_MAC_BYTES {
            proof {
                assert forall|s0: u64, p0: PacketView|
                    !#[trigger] frame_matches(
                        buffer@,
                        protocol_id,
                        receive_key,
                        needs_encryption,
                        s0,
                        p0,
                    ) by {
                    if frame_matches(buffer@, protocol_id, receive_key, needs_encryption, s0, p0) {
                        lemma_match_prefix(
                            buffer@,
                            protocol_id,
                            receive_key,
                            needs_encryption,
                            s0,
                            p0,
                        );
                    }
                }
            }
            return Err(NetcodeError::PacketTooSmall);
        }
        let sequence = read_sequence_be(buffer, 1, nibu);
        if sequence_bytes_required(sequence) != nibu {
            proof {
                assert forall|s0: u64, p0: PacketView|
                    !#[trigger] frame_matches(
                        buffer@,
                        protocol_id,
                        receive_key,
                        needs_encryption,
                        s0,
                        p0,
                    ) by {
                    if frame_matches(buffer@, protocol_id, receive_key, needs_encryption, s0, p0) {
                        lemma_match_prefix(
                            buffer@,
                            protocol_id,
                            receive_key,
                            needs_encryption,
                            s0,
                            p0,
                        );
                        lemma_sequence_len_minimal(s0);
                        assert(be_bytes(sequence, nibu as nat) == be_bytes(s0, nibu as nat));
                        lemma_be_bytes_injective(sequence, s0, nibu as nat);
                    }
                }
            }
            return Err(NetcodeError::InvalidPacketType);
        }
        if needs_encryption {
            let key = match receive_key {
                None => {
                    return Err(NetcodeError::CryptoError);
                },
                Some(k) => k,
            };
            let ct = read_bytes(buffer, 1 + nibu, blen - 1 - nibu);
            proof {
                assert(ct@ =~= buffer@.skip(1 + nibu as int));
            }
            let aad = build_packet_aad(protocol_id, sequence);
            let nonce = build_seq_nonce(sequence);
            let body = match copen(key, &nonce, &aad, &ct) {
                None => {
                    proof {
                        assert forall|s0: u64, p0: PacketView|
                            !#[trigger] frame_matches(
                                buffer@,
                                protocol_id,
                                receive_key,
                                needs_encryption,
                                s0,
                                p0,
                            ) by {
                            if frame_matches(
                                buffer@,
                                protocol_id,
                                receive_key,
                                needs_encryption,
                                s0,
                                p0,
                            ) {
                                lemma_match_prefix(
                                    buffer@,
                                    protocol_id,
                                    receive_key,
                                    needs_encryption,
                                    s0,
                                    p0,
                                );
                                lemma_sequence_len_minimal(s0);
                                assert(be_bytes(sequence, nibu as nat) == be_bytes(
                                    s0,
                                    nibu as nat,
                                ));
                                lemma_be_bytes_injective(sequence, s0, nibu as nat);
                            }
                        }
                    }
                    return Err(NetcodeError::CryptoError);
                },
                Some(b) => b,
            };
            let res = Packet::parse_body(tag, &body);
            proof {
                assert forall|s0: u64, p0: PacketView|
                    #[trigger] frame_matches(
                        buffer@,
                        protocol_id,
                        receive_key,
                        needs_encryption,
                        s0,
                        p0,
                    ) implies (res matches Ok(p) && p@ == p0 && s0 == sequence) by {
                    lemma_match_prefix(buffer@, protocol_id, receive_key, needs_encryption, s0, p0);
                    lemma_sequence_len_minimal(s0);
                    assert(be_bytes(sequence, nibu as nat) == be_bytes(s0, nibu as nat));
                    lemma_be_bytes_injective(sequence, s0, nibu as nat);
                    assert(buffer@.skip(1 + nibu as int) == ct@);
                }
            }
            match res {
                Ok(p) => Ok((sequence, p)),
                Err(e) => Err(e),
            }
        } else {
            let body = read_bytes(buffer, 1 + nibu, blen - 1 - nibu - NETCODE_MAC_BYTES);
            let mut j: usize = blen - NETCODE_MAC_BYTES;
            while j < blen
                invariant
                    blen - NETCODE_MAC_BYTES <= j <= blen,
                    forall|k: int| blen - NETCODE_MAC_BYTES <= k < j ==> buffer@[k] == 0,
                decreases blen - j,
            {
                if buffer[j] != 0 {
                    proof {
                        assert forall|s0: u64, p0: PacketView|
                            !#[trigger] frame_matches(
                                buffer@,
                                protocol_id,
                                receive_key,
                                needs_encryption,
                                s0,
                                p0,
                            ) by {
                            if frame_matches(
                                buffer@,
                                protocol_id,
                                receive_key,
                                needs_encryption,
                                s0,
                                p0,
                            ) {
                                lemma_plain_fields(p0, s0, buffer@);
                            }
                        }
                    }
                    return Err(NetcodeError::InvalidPacketType);
                }
                j = j + 1;
            }
            let res = Packet::parse_body(tag, &body);
            proof {
                assert forall|s0: u64, p0: PacketView|
                    #[trigger] frame_matches(
                        buffer@,
                        protocol_id,
                        receive_key,
                        needs_encryption,
                        s0,
                        p0,
                    ) implies (res matches Ok(p) && p@ == p0 && s0 == sequence) by {
                    lemma_plain_fields(p0, s0, buffer@);
                    lemma_match_prefix(buffer@, protocol_id, receive_key, needs_encryption, s0, p0);
                    lemma_sequence_len_minimal(s0);
                    assert(be_bytes(sequence, nibu as nat) == be_bytes(s0, nibu as nat));
                    lemma_be_bytes_injective(sequence, s0, nibu as nat);
                    assert(body@ =~= p0.body_bytes());
                }
            }
            match res {
                Ok(p) => {
                    proof {
                        assert(buffer@ =~= plain_frame(p@, sequence));
                    }
                    Ok((sequence, p))
                },
                Err(e) => Err(e),
            }
        }
    }
}


/// A frame that matches some non-request packet announces its sequence
/// length and kind tag in its first byte.
proof fn lemma_match_prefix(
    buffer: Seq<u8>,
    protocol_id: u64,
    receive_key: Option<&Vec<u8>>,
    needs_encryption: bool,
    s0: u64,
    p0: PacketView,
)
    requires
        frame_matches(buffer, protocol_id, receive_key, needs_encryption, s0, p0),
    ensures
        buffer.len() >= 1 + spec_sequence_len(s0) + NETCODE_MAC_BYTES,
        buffer[0] == p0.prefix_byte(s0),
        buffer[0] % 16 == p0.tag(),
        buffer[0] / 16 == spec_sequence_len(s0),
        1 <= p0.tag() <= 6,
        1 <= spec_sequence_len(s0) <= 8,
        p0.wf(),
        !(p0 is ConnectionRequest),
        buffer.subrange(1, 1 + spec_sequence_len(s0) as int) == be_bytes(
            s0,
            spec_sequence_len(s0),
        ),
{
    if needs_encryption {
    } else {
        lemma_plain_fields(p0, s0, buffer);
    }
    lemma_prefix_decomposition(p0, s0, p0.prefix_byte(s0));
}


/// Whether the frame matches a packet under the given mode, with the key
/// as a byte sequence: a sealed frame that opens, or a plain frame read in
/// the clear.
pub open spec fn frame_opens(
    buffer: Seq<u8>,
    protocol_id: u64,
    key: Seq<u8>,
    needs_encryption: bool,
    s0: u64,
    p0: PacketView,
) -> bool {
    if needs_encryption {
        opens_to(buffer, protocol_id, key, s0, p0)
    } else {
        p0.wf() && !(p0 is ConnectionRequest) && buffer == plain_frame(p0, s0)
    }
}

/// Whether the frame matches a packet under the given mode: a sealed frame
/// that opens, or a plain frame read in the clear.
pub open spec fn frame_matches(
    buffer: Seq<u8>,
    protocol_id: u64,
    receive_key: Option<&Vec<u8>>,
    needs_encryption: bool,
    s0: u64,
    p0: PacketView,
) -> bool {
    if needs_encryption {
        receive_key matches Some(k) && opens_to(buffer, protocol_id, k@, s0, p0)
    } else {
        p0.wf() && !(p0 is ConnectionRequest) && buffer == plain_frame(p0, s0)
    }
}

/// The shapes of the three frame forms: lengths and first bytes.
proof fn lemma_frame_shapes()
    ensures
        forall|p0: PacketView|
            p0.wf() && p0 is ConnectionRequest ==> #[trigger] request_frame(p0).len()
                == REQUEST_FRAME_BYTES && request_frame(p0)[0] == 0,
{
    assert forall|p0: PacketView|
        p0.wf() && p0 is ConnectionRequest implies #[trigger] request_frame(p0).len()
        == REQUEST_FRAME_BYTES && request_frame(p0)[0] == 0 by {}
}

/// Where each field of a request frame sits.
proof fn lemma_request_fields(p0: PacketView, buf: Seq<u8>)
    requires
        p0.wf(),
        p0 is ConnectionRequest,
        buf == request_frame(p0),
    ensures
        buf.len() == REQUEST_FRAME_BYTES,
        buf[0] == 0,
        buf.subrange(1, 14) == spec_version_info(),
        buf.subrange(14, 22) == le64(p0->ConnectionRequest_protocol_id),
        buf.subrange(22, 30) == le64(p0->ConnectionRequest_expire_timestamp),
        buf.subrange(30, 54) == p0->ConnectionRequest_xnonce,
        buf.subrange(54, 1078) == p0->ConnectionRequest_data,
{
    assert(buf.subrange(1, 14) =~= p0->ConnectionRequest_version_info);
    assert(buf.subrange(14, 22) =~= le64(p0->ConnectionRequest_protocol_id));
    assert(buf.subrange(22, 30) =~= le64(p0->ConnectionRequest_expire_timestamp));
    assert(buf.subrange(30, 54) =~= p0->ConnectionRequest_xnonce);
    assert(buf.subrange(54, 1078) =~= p0->ConnectionRequest_data);
}

/// The prefix byte splits into the sequence length and the kind tag.
proof fn lemma_prefix_decomposition(p0: PacketView, s0: u64, prefix: u8)
    requires
        !(p0 is ConnectionRequest),
        prefix == p0.prefix_byte(s0),
    ensures
        prefix / 16 == spec_sequence_len(s0),
        prefix % 16 == p0.tag(),
        1 <= prefix / 16 <= 8,
        1 <= p0.tag() <= 6,
{
    lemma_sequence_len_bounds(s0);
}

/// Where each part of a plain frame sits.
proof fn lemma_plain_fields(p0: PacketView, s0: u64, buf: Seq<u8>)
    requires
        p0.wf(),
        !(p0 is ConnectionRequest),
        buf == plain_frame(p0, s0),
    ensures
        buf.len() == 1 + spec_sequence_len(s0) + p0.body_bytes().len() + NETCODE_MAC_BYTES,
        buf[0] == p0.prefix_byte(s0),
        buf.subrange(1, 1 + spec_sequence_len(s0) as int) == be_bytes(s0, spec_sequence_len(s0)),
        buf.subrange(
            1 + spec_sequence_len(s0) as int,
            buf.len() - NETCODE_MAC_BYTES,
        ) == p0.body_bytes(),
        forall|k: int| buf.len() - NETCODE_MAC_BYTES <= k < buf.len() ==> buf[k] == 0,
{
    crate::bytes::lemma_be_bytes_len(s0, spec_sequence_len(s0));
    let n = spec_sequence_len(s0) as int;
    assert(buf.subrange(1, 1 + n) =~= be_bytes(s0, spec_sequence_len(s0)));
    assert(buf.subrange(1 + n, buf.len() - NETCODE_MAC_BYTES) =~= p0.body_bytes());
}

} // verus!

