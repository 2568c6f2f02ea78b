//! Connect tokens: the sealed private section a client presents with a
//! connection request, and the public framing handed to the client out of
//! band. Serialisation is bit-exact and strictly validated; sealing goes
//! through the trusted AEAD boundary.

use vstd::prelude::*;

use crate::addr::{addrs_bytes, addrs_encoded_at, addrs_size, read_addrs, write_addrs,
    lemma_addrs_bytes_len, NetAddr};
use crate::bytes::{le32, le64, lemma_le32_injective, lemma_le64_injective,
    lemma_u32_i32_roundtrip, read_bytes, read_u32_le, read_u64_le, write_bytes, write_u32_le,
    write_u64_le, write_zeros, zeros};
use crate::crypto::{generate_random_bytes, xopen, xopen_of, xseal, xseal_of};
use crate::{spec_version_info, version_info, NetcodeError, NETCODE_CONNECT_TOKEN_PRIVATE_BYTES,
    NETCODE_CONNECT_TOKEN_XNONCE_BYTES, NETCODE_KEY_BYTES, NETCODE_MAX_SERVER_ADDRESSES,
    NETCODE_USER_DATA_BYTES};

verus! {

/// Plaintext length of the sealed private section: the sealed form less the
/// AEAD tag.
pub const PRIVATE_PLAIN_BYTES: usize = 1008;

/// Bytes of the private plaintext not taken by the address list.
pub const PRIVATE_FIXED_BYTES: usize = 337;

/// Mathematical content of a private connect token.
#[verifier::ext_equal]
pub struct PrivateTokenView {
    /// The client identity the token admits.
    pub client_id: u64,
    /// Idle timeout in seconds; zero or negative means no timeout.
    pub timeout_seconds: i32,
    /// The socket the token is bound to.
    pub socket_id: u8,
    /// The server addresses the client may use, primary first.
    pub server_addresses: Seq<NetAddr>,
    /// Session key for client-to-server packets.
    pub client_to_server_key: Seq<u8>,
    /// Session key for server-to-client packets.
    pub server_to_client_key: Seq<u8>,
    /// Opaque application data handed back on admission.
    pub user_data: Seq<u8>,
}

impl PrivateTokenView {
    /// Field lengths a private token must have.
    pub open spec fn wf(self) -> bool {
        &&& 1 <= self.server_addresses.len() <= NETCODE_MAX_SERVER_ADDRESSES
        &&& self.client_to_server_key.len() == NETCODE_KEY_BYTES
        &&& self.server_to_client_key.len() == NETCODE_KEY_BYTES
        &&& self.user_data.len() == NETCODE_USER_DATA_BYTES
    }
}

/// The private plaintext before padding: client id, timeout, socket id,
/// address count, addresses, the two session keys, then user data, integers
/// little endian.
pub open spec fn private_plain(t: PrivateTokenView) -> Seq<u8> {
    le64(t.client_id) + le32(t.timeout_seconds as u32) + seq![t.socket_id] + le32(
        t.server_addresses.len() as u32,
    ) + addrs_bytes(t.server_addresses) + t.client_to_server_key + t.server_to_client_key
        + t.user_data
}

/// The private plaintext padded with zeros to `PRIVATE_PLAIN_BYTES`.
pub open spec fn private_padded(t: PrivateTokenView) -> Seq<u8> {
    private_plain(t) + zeros((PRIVATE_PLAIN_BYTES - private_plain(t).len()) as nat)
}

/// A well-formed private plaintext stays within the padded length.
pub proof fn lemma_private_plain_len(t: PrivateTokenView)
    requires
        t.wf(),
    ensures
        private_plain(t).len() == PRIVATE_FIXED_BYTES + addrs_size(t.server_addresses),
        private_plain(t).len() <= 945,
        private_padded(t).len() == PRIVATE_PLAIN_BYTES,
{
    lemma_addrs_bytes_len(t.server_addresses);
}

/// Where each field of a well-formed private token sits in its padded
/// plaintext.
proof fn lemma_private_fields(t: PrivateTokenView, buf: Seq<u8>)
    requires
        t.wf(),
        buf == private_padded(t),
    ensures
        buf.len() == PRIVATE_PLAIN_BYTES,
        buf.subrange(0, 8) == le64(t.client_id),
        buf.subrange(8, 12) == le32(t.timeout_seconds as u32),
        buf[12] == t.socket_id,
        buf.subrange(13, 17) == le32(t.server_addresses.len() as u32),
        addrs_encoded_at(t.server_addresses, buf, 17, t.server_addresses.len()),
        buf.subrange(
            17 + addrs_size(t.server_addresses) as int,
            49 + addrs_size(t.server_addresses) as int,
        ) == t.client_to_server_key,
        buf.subrange(
            49 + addrs_size(t.server_addresses) as int,
            81 + addrs_size(t.server_addresses) as int,
        ) == t.server_to_client_key,
        buf.subrange(
            81 + addrs_size(t.server_addresses) as int,
            337 + addrs_size(t.server_addresses) as int,
        ) == t.user_data,
        forall|j: int|
            337 + addrs_size(t.server_addresses) <= j < PRIVATE_PLAIN_BYTES ==> buf[j] == 0,
{
    lemma_private_plain_len(t);
    lemma_addrs_bytes_len(t.server_addresses);
    let a = addrs_size(t.server_addresses) as int;
    assert(buf.subrange(0, 8) =~= le64(t.client_id));
    assert(buf.subrange(8, 12) =~= le32(t.timeout_seconds as u32));
    assert(buf.subrange(13, 17) =~= le32(t.server_addresses.len() as u32));
    assert(buf.subrange(17, 17 + a) =~= addrs_bytes(t.server_addresses));
    assert(buf.subrange(17 + a, 49 + a) =~= t.client_to_server_key);
    assert(buf.subrange(49 + a, 81 + a) =~= t.server_to_client_key);
    assert(buf.subrange(81 + a, 337 + a) =~= t.user_data);
}

/// A private connect token as plain data.
#[derive(Debug, Clone)]
pub struct PrivateConnectToken {
    /// The client identity the token admits.
    pub client_id: u64,
    /// Idle timeout in seconds; zero or negative means no timeout.
    pub timeout_seconds: i32,
    /// The socket the token is bound to.
    pub socket_id: u8,
    /// The server addresses the client may use, primary first.
    pub server_addresses: Vec<NetAddr>,
    /// Session key for client-to-server packets.
    pub client_to_server_key: Vec<u8>,
    /// Session key for server-to-client packets.
    pub server_to_client_key: Vec<u8>,
    /// Opaque application data handed back on admission.
    pub user_data: Vec<u8>,
}

impl View for PrivateConnectToken {
    type V = PrivateTokenView;

    open spec fn view(&self) -> PrivateTokenView {
        PrivateTokenView {
            client_id: self.client_id,
            timeout_seconds: self.timeout_seconds,
            socket_id: self.socket_id,
            server_addresses: self.server_addresses@,
            client_to_server_key: self.client_to_server_key@,
            server_to_client_key: self.server_to_client_key@,
            user_data: self.user_data@,
        }
    }
}

impl PrivateConnectToken {
    /// Serialises the token into its padded plaintext.
    pub fn write_plain(&self) -> (r: Vec<u8>)
        requires
            self@.wf(),
        ensures
            r@ == private_padded(self@),
            r@.len() == PRIVATE_PLAIN_BYTES,
    {
        proof {
            lemma_private_plain_len(self@);
        }
        let mut out: Vec<u8> = Vec::new();
        write_u64_le(&mut out, self.client_id);
        write_u32_le(&mut out, #[verifier::truncate] (self.timeout_seconds as u32));
        out.push(self.socket_id);
        write_u32_le(&mut out, #[verifier::truncate] (self.server_addresses.len() as u32));
        write_addrs(&mut out, &self.server_addresses);
        write_bytes(&mut out, &self.client_to_server_key, 0, self.client_to_server_key.len());
        write_bytes(&mut out, &self.server_to_client_key, 0, self.server_to_client_key.len());
        write_bytes(&mut out, &self.user_data, 0, self.user_data.len());
        proof {
            assert(self.client_to_server_key@.subrange(0, NETCODE_KEY_BYTES as int) =~= self
                .client_to_server_key@);
            assert(self.server_to_client_key@.subrange(0, NETCODE_KEY_BYTES as int) =~= self
                .server_to_client_key@);
            assert(self.user_data@.subrange(0, NETCODE_USER_DATA_BYTES as int) =~= self
                .user_data@);
            assert(out@ =~= private_plain(self@));
        }
        let pad = PRIVATE_PLAIN_BYTES - out.len();
        write_zeros(&mut out, pad);
        proof {
            assert(out@ =~= private_padded(self@));
        }
        out
    }

    /// Parses a padded private plaintext, validating every length and the
    /// padding. Succeeds on, and returns, exactly the token that was
    /// serialised into it.
    #[verifier::loop_isolation(false)]
    pub fn parse_plain(buf: &Vec<u8>) -> (r: Result<PrivateConnectToken, NetcodeError>)
        ensures
            r matches Ok(t) ==> t@.wf() && buf@ == private_padded(t@),
            forall|t0: PrivateTokenView|
                t0.wf() && buf@ == private_padded(t0) ==> (r matches Ok(t) && t@ == t0),
    {
        let blen: usize = buf.len();
        if blen != PRIVATE_PLAIN_BYTES {
            proof {
                assert forall|t0: PrivateTokenView| !(t0.wf() && buf@ == private_padded(t0)) by {
                    if t0.wf() && buf@ == private_padded(t0) {
                        lemma_private_plain_len(t0);
                    }
                }
            }
            return Err(NetcodeError::BufferTooSmall);
        }
        let client_id = read_u64_le(buf, 0);
        let timeout_raw = read_u32_le(buf, 8);
        let timeout_seconds = #[verifier::truncate] (timeout_raw as i32);
        let socket_id = buf[12];
        let count = read_u32_le(buf, 13);
        if count < 1 || count > NETCODE_MAX_SERVER_ADDRESSES as u32 {
            proof {
                assert forall|t0: PrivateTokenView| !(t0.wf() && buf@ == private_padded(t0)) by {
                    if t0.wf() && buf@ == private_padded(t0) {
                        lemma_private_fields(t0, buf@);
                        lemma_le32_injective(count, t0.server_addresses.len() as u32);
                    }
                }
            }
            return Err(NetcodeError::InvalidAddressCount);
        }
        let res = read_addrs(buf, 17, count as usize);
        proof {
            if res is Err {
                assert forall|t0: PrivateTokenView| !(t0.wf() && buf@ == private_padded(t0)) by {
                    if t0.wf() && buf@ == private_padded(t0) {
                        lemma_private_fields(t0, buf@);
                        lemma_le32_injective(count, t0.server_addresses.len() as u32);
                    }
                }
            }
        }
        let (server_addresses, used) = match res {
            Ok(x) => x,
            Err(_) => {
                return Err(NetcodeError::InvalidAddressCount);
            },
        };
        proof {
            lemma_addrs_bytes_len(server_addresses@);
        }
        let cur: usize = 17 + used;
        if PRIVATE_PLAIN_BYTES - cur < 320 {
            proof {
                assert forall|t0: PrivateTokenView| !(t0.wf() && buf@ == private_padded(t0)) by {
                    if t0.wf() && buf@ == private_padded(t0) {
                        lemma_private_fields(t0, buf@);
                        lemma_le32_injective(count, t0.server_addresses.len() as u32);
                        lemma_addrs_bytes_len(t0.server_addresses);
                    }
                }
            }
            return Err(NetcodeError::BufferTooSmall);
        }
        let client_to_server_key = read_bytes(buf, cur, NETCODE_KEY_BYTES);
        let server_to_client_key = read_bytes(buf, cur + 32, NETCODE_KEY_BYTES);
        let user_data = read_bytes(buf, cur + 64, NETCODE_USER_DATA_BYTES);
        let mut j: usize = cur + 320;
        while j < PRIVATE_PLAIN_BYTES
            invariant
                cur + 320 <= j <= PRIVATE_PLAIN_BYTES <= buf@.len(),
                forall|k: int| cur + 320 <= k < j ==> buf@[k] == 0,
            decreases PRIVATE_PLAIN_BYTES - j,
        {
            if buf[j] != 0 {
                proof {
                    assert forall|t0: PrivateTokenView| !(t0.wf() && buf@ == private_padded(
                        t0,
                    )) by {
                        if t0.wf() && buf@ == private_padded(t0) {
                            lemma_private_fields(t0, buf@);
                            lemma_le32_injective(count, t0.server_addresses.len() as u32);
                            lemma_addrs_bytes_len(t0.server_addresses);
                            assert(addrs_encoded_at(t0.server_addresses, buf@, 17, count as nat));
                        }
                    }
                }
                return Err(NetcodeError::CryptoError);
            }
            j = j + 1;
        }
        let token = PrivateConnectToken {
            client_id,
            timeout_seconds,
            socket_id,
            server_addresses,
            client_to_server_key,
            server_to_client_key,
            user_data,
        };
        proof {
            lemma_u32_i32_roundtrip(timeout_raw);
            lemma_private_plain_len(token@);
            assert(buf@ =~= private_padded(token@));
            assert forall|t0: PrivateTokenView|
                t0.wf() && buf@ == private_padded(t0) implies token@ == t0 by {
                lemma_private_fields(t0, buf@);
                lemma_le64_injective(client_id, t0.client_id);
                lemma_le32_injective(timeout_raw, t0.timeout_seconds as u32);
                lemma_u32_i32_roundtrip(t0.timeout_seconds as u32);
                let ts = t0.timeout_seconds;
                assert(ts as u32 as i32 == ts) by (bit_vector);
                lemma_le32_injective(count, t0.server_addresses.len() as u32);
                lemma_addrs_bytes_len(t0.server_addresses);
                assert(addrs_encoded_at(t0.server_addresses, buf@, 17, count as nat));
                assert(token@ =~= t0);
            }
        }
        Ok(token)
    }
}

/// Associated data under which a private section is sealed: the version
/// identifier, the protocol id and the expire timestamp.
pub open spec fn token_aad(protocol_id: u64, expire_timestamp: u64) -> Seq<u8> {
    spec_version_info() + le64(protocol_id) + le64(expire_timestamp)
}

/// Builds the associated data for sealing a private section.
pub fn build_token_aad(protocol_id: u64, expire_timestamp: u64) -> (r: Vec<u8>)
    ensures
        r@ == token_aad(protocol_id, expire_timestamp),
        r@.len() == 29,
{
    let mut out = version_info();
    write_u64_le(&mut out, protocol_id);
    write_u64_le(&mut out, expire_timestamp);
    proof {
        assert(out@ =~= token_aad(protocol_id, expire_timestamp));
    }
    out
}

/// Copies a byte vector.
pub fn clone_bytes(v: &Vec<u8>) -> (r: Vec<u8>)
    ensures
        r@ == v@,
{
    let r = read_bytes(v, 0, v.len());
    proof {
        assert(v@.subrange(0, v@.len() as int) =~= v@);
    }
    r
}

/// Copies an address vector.
pub fn clone_addrs(v: &Vec<NetAddr>) -> (r: Vec<NetAddr>)
    ensures
        r@ == v@,
{
    let n: usize = v.len();
    let mut r: Vec<NetAddr> = Vec::new();
    let mut i: usize = 0;
    while i < n
        invariant
            i <= n == v@.len(),
            r@ =~= v@.subrange(0, i as int),
        decreases n - i,
    {
        r.push(v[i]);
        proof {
            assert(r@ =~= v@.subrange(0, i + 1));
        }
        i = i + 1;
    }
    proof {
        assert(v@.subrange(0, n as int) =~= v@);
    }
    r
}

impl PrivateConnectToken {
    /// Seals the token's padded plaintext under the server private key, the
    /// extended nonce, and the associated data of the given protocol id and
    /// expire timestamp.
    pub fn seal(&self, protocol_id: u64, expire_timestamp: u64, xnonce: &Vec<u8>, key: &Vec<u8>)
        -> (r: Vec<u8>)
        requires
            self@.wf(),
            xnonce@.len() == NETCODE_CONNECT_TOKEN_XNONCE_BYTES,
            key@.len() == NETCODE_KEY_BYTES,
        ensures
            r@ == xseal_of(
                key@,
                xnonce@,
                token_aad(protocol_id, expire_timestamp),
                private_padded(self@),
            ),
            r@.len() == NETCODE_CONNECT_TOKEN_PRIVATE_BYTES,
            xopen_of(key@, xnonce@, token_aad(protocol_id, expire_timestamp), r@) == Some(
                private_padded(self@),
            ),
    {
        let plain = self.write_plain();
        let aad = build_token_aad(protocol_id, expire_timestamp);
        xseal(key, xnonce, &aad, &plain)
    }

    /// Opens and parses a sealed private section. Yields exactly the token
    /// whose sealed form was presented; rejects anything the key, nonce and
    /// associated data do not authenticate.
    pub fn decode(
        data: &Vec<u8>,
        protocol_id: u64,
        expire_timestamp: u64,
        xnonce: &Vec<u8>,
        key: &Vec<u8>,
    ) -> (r: Result<PrivateConnectToken, NetcodeError>)
        requires
            xnonce@.len() == NETCODE_CONNECT_TOKEN_XNONCE_BYTES,
            key@.len() == NETCODE_KEY_BYTES,
        ensures
            r matches Ok(t) ==> t@.wf() && xopen_of(
                key@,
                xnonce@,
                token_aad(protocol_id, expire_timestamp),
                data@,
            ) == Some(private_padded(t@)),
            xopen_of(key@, xnonce@, token_aad(protocol_id, expire_timestamp), data@) is None
                ==> r == Err::<PrivateConnectToken, NetcodeError>(NetcodeError::CryptoError),
            forall|t0: PrivateTokenView|
                t0.wf() && xopen_of(key@, xnonce@, token_aad(protocol_id, expire_timestamp), data@)
                    == Some(private_padded(t0)) ==> (r matches Ok(t) && t@ == t0),
    {
        let aad = build_token_aad(protocol_id, expire_timestamp);
        match xopen(key, xnonce, &aad, data) {
            None => Err(NetcodeError::CryptoError),
            Some(plain) => PrivateConnectToken::parse_plain(&plain),
        }
    }
}

/// Bytes of a public connect token not taken by the address list.
pub const TOKEN_FIXED_BYTES: usize = 1157;

/// Mathematical content of a public connect token.
#[verifier::ext_equal]
pub struct ConnectTokenView {
    /// The fixed protocol version identifier.
    pub version_info: Seq<u8>,
    /// Application protocol id.
    pub protocol_id: u64,
    /// Second at which the token was minted.
    pub create_timestamp: u64,
    /// Second at which the token expires.
    pub expire_timestamp: u64,
    /// Extended nonce under which the private section is sealed.
    pub xnonce: Seq<u8>,
    /// The sealed private section.
    pub private_data: Seq<u8>,
    /// Idle timeout in seconds; zero or negative means no timeout.
    pub timeout_seconds: i32,
    /// The server addresses the client may use, primary first.
    pub server_addresses: Seq<NetAddr>,
    /// Session key for client-to-server packets.
    pub client_to_server_key: Seq<u8>,
    /// Session key for server-to-client packets.
    pub server_to_client_key: Seq<u8>,
}

impl ConnectTokenView {
    /// Field lengths and the fixed version a public token must have.
    pub open spec fn wf(self) -> bool {
        &&& self.version_info == spec_version_info()
        &&& self.xnonce.len() == NETCODE_CONNECT_TOKEN_XNONCE_BYTES
        &&& self.private_data.len() == NETCODE_CONNECT_TOKEN_PRIVATE_BYTES
        &&& 1 <= self.server_addresses.len() <= NETCODE_MAX_SERVER_ADDRESSES
        &&& self.client_to_server_key.len() == NETCODE_KEY_BYTES
        &&& self.server_to_client_key.len() == NETCODE_KEY_BYTES
    }
}

/// The wire bytes of a public connect token: version, protocol id, create
/// and expire timestamps, nonce, sealed private section, timeout, address
/// count, addresses, then the two session keys, integers little endian.
pub open spec fn token_bytes(t: ConnectTokenView) -> Seq<u8> {
    t.version_info + le64(t.protocol_id) + le64(t.create_timestamp) + le64(t.expire_timestamp)
        + t.xnonce + t.private_data + le32(t.timeout_seconds as u32) + le32(
        t.server_addresses.len() as u32,
    ) + addrs_bytes(t.server_addresses) + t.client_to_server_key + t.server_to_client_key
}

/// A well-formed public token's wire size.
pub proof fn lemma_token_bytes_len(t: ConnectTokenView)
    requires
        t.wf(),
    ensures
        token_bytes(t).len() == TOKEN_FIXED_BYTES + addrs_size(t.server_addresses),
        token_bytes(t).len() <= 1765,
{
    lemma_addrs_bytes_len(t.server_addresses);
}

/// Where each field of a well-formed public token sits in its wire bytes.
proof fn lemma_token_fields(t: ConnectTokenView, buf: Seq<u8>)
    requires
        t.wf(),
        buf == token_bytes(t),
    ensures
        buf.len() == TOKEN_FIXED_BYTES + addrs_size(t.server_addresses),
        buf.subrange(0, 13) == spec_version_info(),
        buf.subrange(13, 21) == le64(t.protocol_id),
        buf.subrange(21, 29) == le64(t.create_timestamp),
        buf.subrange(29, 37) == le64(t.expire_timestamp),
        buf.subrange(37, 61) == t.xnonce,
        buf.subrange(61, 1085) == t.private_data,
        buf.subrange(1085, 1089) == le32(t.timeout_seconds as u32),
        buf.subrange(1089, 1093) == le32(t.server_addresses.len() as u32),
        addrs_encoded_at(t.server_addresses, buf, 1093, t.server_addresses.len()),
        buf.subrange(
            1093 + addrs_size(t.server_addresses) as int,
            1125 + addrs_size(t.server_addresses) as int,
        ) == t.client_to_server_key,
        buf.subrange(
            1125 + addrs_size(t.server_addresses) as int,
            1157 + addrs_size(t.server_addresses) as int,
        ) == t.server_to_client_key,
{
    lemma_token_bytes_len(t);
    lemma_addrs_bytes_len(t.server_addresses);
    let a = addrs_size(t.server_addresses) as int;
    assert(buf.subrange(0, 13) =~= t.version_info);
    assert(buf.subrange(13, 21) =~= le64(t.protocol_id));
    assert(buf.subrange(21, 29) =~= le64(t.create_timestamp));
    assert(buf.subrange(29, 37) =~= le64(t.expire_timestamp));
    assert(buf.subrange(37, 61) =~= t.xnonce);
    assert(buf.subrange(61, 1085) =~= t.private_data);
    assert(buf.subrange(1085, 1089) =~= le32(t.timeout_seconds as u32));
    assert(buf.subrange(1089, 1093) =~= le32(t.server_addresses.len() as u32));
    assert(buf.subrange(1093, 1093 + a) =~= addrs_bytes(t.server_addresses));
    assert(buf.subrange(1093 + a, 1125 + a) =~= t.client_to_server_key);
    assert(buf.subrange(1125 + a, 1157 + a) =~= t.server_to_client_key);
}

/// A public connect token as plain data: the blob a client presents.
#[derive(Debug)]
pub struct ConnectToken {
    /// The fixed protocol version identifier.
    pub version_info: Vec<u8>,
    /// Application protocol id.
    pub protocol_id: u64,
    /// Second at which the token was minted.
    pub create_timestamp: u64,
    /// Second at which the token expires.
    pub expire_timestamp: u64,
    /// Extended nonce under which the private section is sealed.
    pub xnonce: Vec<u8>,
    /// The sealed private section.
    pub private_data: Vec<u8>,
    /// Idle timeout in seconds; zero or negative means no timeout.
    pub timeout_seconds: i32,
    /// The server addresses the client may use, primary first.
    pub server_addresses: Vec<NetAddr>,
    /// Session key for client-to-server packets.
    pub client_to_server_key: Vec<u8>,
    /// Session key for server-to-client packets.
    pub server_to_client_key: Vec<u8>,
}

impl View for ConnectToken {
    type V = ConnectTokenView;

    open spec fn view(&self) -> ConnectTokenView {
        ConnectTokenView {
            version_info: self.version_info@,
            protocol_id: self.protocol_id,
            create_timestamp: self.create_timestamp,
            expire_timestamp: self.expire_timestamp,
            xnonce: self.xnonce@,
            private_data: self.private_data@,
            timeout_seconds: self.timeout_seconds,
            server_addresses: self.server_addresses@,
            client_to_server_key: self.client_to_server_key@,
            server_to_client_key: self.server_to_client_key@,
        }
    }
}

impl ConnectToken {
    /// Appends the token's wire bytes.
    pub fn write(&self, out: &mut Vec<u8>)
        requires
            self@.wf(),
        ensures
            final(out)@ == old(out)@ + token_bytes(self@),
    {
        proof {
            lemma_token_bytes_len(self@);
        }
        let ghost pre = out@;
        write_bytes(out, &self.version_info, 0, self.version_info.len());
        write_u64_le(out, self.protocol_id);
        write_u64_le(out, self.create_timestamp);
        write_u64_le(out, self.expire_timestamp);
        write_bytes(out, &self.xnonce, 0, self.xnonce.len());
        write_bytes(out, &self.private_data, 0, self.private_data.len());
        write_u32_le(out, #[verifier::truncate] (self.timeout_seconds as u32));
        write_u32_le(out, #[verifier::truncate] (self.server_addresses.len() as u32));
        write_addrs(out, &self.server_addresses);
        write_bytes(out, &self.client_to_server_key, 0, self.client_to_server_key.len());
        write_bytes(out, &self.server_to_client_key, 0, self.server_to_client_key.len());
        proof {
            assert(self.version_info@.subrange(0, self.version_info@.len() as int) =~= self
                .version_info@);
            assert(self.xnonce@.subrange(0, self.xnonce@.len() as int) =~= self.xnonce@);
            assert(self.private_data@.subrange(0, self.private_data@.len() as int) =~= self
                .private_data@);
            assert(self.client_to_server_key@.subrange(0, NETCODE_KEY_BYTES as int) =~= self
                .client_to_server_key@);
            assert(self.server_to_client_key@.subrange(0, NETCODE_KEY_BYTES as int) =~= self
                .server_to_client_key@);
            assert(out@ =~= pre + token_bytes(self@));
        }
    }

    /// Parses a token's wire bytes, validating the version, every length and
    /// the exact total size. Succeeds on, and returns, exactly the token that
    /// was serialised into the buffer.
    #[verifier::loop_isolation(false)]
    pub fn read(buf: &Vec<u8>) -> (r: Result<ConnectToken, NetcodeError>)
        ensures
            r matches Ok(t) ==> t@.wf() && buf@ == token_bytes(t@),
            forall|t0: ConnectTokenView|
                t0.wf() && buf@ == token_bytes(t0) ==> (r matches Ok(t) && t@ == t0),
    {
        let blen: usize = buf.len();
        if blen < TOKEN_FIXED_BYTES + crate::addr::ADDRESS_BYTES_V4 {
            proof {
                assert forall|t0: ConnectTokenView| !(t0.wf() && buf@ == token_bytes(t0)) by {
                    if t0.wf() && buf@ == token_bytes(t0) {
                        lemma_token_fields(t0, buf@);
                        lemma_addrs_bytes_len(t0.server_addresses);
                    }
                }
            }
            return Err(NetcodeError::BufferTooSmall);
        }
        let version = read_bytes(buf, 0, 13);
        let expected = version_info();
        if !crate::bytes::bytes_equal(&version, &expected) {
            proof {
                assert forall|t0: ConnectTokenView| !(t0.wf() && buf@ == token_bytes(t0)) by {
                    if t0.wf() && buf@ == token_bytes(t0) {
                        lemma_token_fields(t0, buf@);
                    }
                }
            }
            return Err(NetcodeError::InvalidVersion);
        }
        let protocol_id = read_u64_le(buf, 13);
        let create_timestamp = read_u64_le(buf, 21);
        let expire_timestamp = read_u64_le(buf, 29);
        let xnonce = read_bytes(buf, 37, NETCODE_CONNECT_TOKEN_XNONCE_BYTES);
        let private_data = read_bytes(buf, 61, NETCODE_CONNECT_TOKEN_PRIVATE_BYTES);
        let timeout_raw = read_u32_le(buf, 1085);
        let timeout_seconds = #[verifier::truncate] (timeout_raw as i32);
        let count = read_u32_le(buf, 1089);
        if count < 1 || count > NETCODE_MAX_SERVER_ADDRESSES as u32 {
            proof {
                assert forall|t0: ConnectTokenView| !(t0.wf() && buf@ == token_bytes(t0)) by {
                    if t0.wf() && buf@ == token_bytes(t0) {
                        lemma_token_fields(t0, buf@);
                        lemma_le32_injective(count, t0.server_addresses.len() as u32);
                    }
                }
            }
            return Err(NetcodeError::InvalidAddressCount);
        }
        let res = read_addrs(buf, 1093, count as usize);
        proof {
            if res is Err {
                assert forall|t0: ConnectTokenView| !(t0.wf() && buf@ == token_bytes(t0)) by {
                    if t0.wf() && buf@ == token_bytes(t0) {
                        lemma_token_fields(t0, buf@);
                        lemma_le32_injective(count, t0.server_addresses.len() as u32);
                        lemma_addrs_bytes_len(t0.server_addresses);
                        assert(addrs_encoded_at(t0.server_addresses, buf@, 1093, count as nat));
                    }
                }
            }
        }
        let (server_addresses, used) = match res {
            Ok(x) => x,
            Err(_) => {
                return Err(NetcodeError::InvalidAddressCount);
            },
        };
        proof {
            lemma_addrs_bytes_len(server_addresses@);
        }
        let cur: usize = 1093 + used;
        if blen - cur != 64 {
            proof {
                assert forall|t0: ConnectTokenView| !(t0.wf() && buf@ == token_bytes(t0)) by {
                    if t0.wf() && buf@ == token_bytes(t0) {
                        lemma_token_fields(t0, buf@);
                        lemma_le32_injective(count, t0.server_addresses.len() as u32);
                        lemma_addrs_bytes_len(t0.server_addresses);
                        assert(addrs_encoded_at(t0.server_addresses, buf@, 1093, count as nat));
                    }
                }
            }
            return Err(NetcodeError::BufferTooSmall);
        }
        let client_to_server_key = read_bytes(buf, cur, NETCODE_KEY_BYTES);
        let server_to_client_key = read_bytes(buf, cur + 32, NETCODE_KEY_BYTES);
        let token = ConnectToken {
            version_info: version,
            protocol_id,
            create_timestamp,
            expire_timestamp,
            xnonce,
            private_data,
            timeout_seconds,
            server_addresses,
            client_to_server_key,
            server_to_client_key,
        };
        proof {
            lemma_u32_i32_roundtrip(timeout_raw);
            lemma_token_bytes_len(token@);
            assert(buf@ =~= token_bytes(token@));
            assert forall|t0: ConnectTokenView|
                t0.wf() && buf@ == token_bytes(t0) implies token@ == t0 by {
                lemma_token_fields(t0, buf@);
                lemma_le64_injective(protocol_id, t0.protocol_id);
                lemma_le64_injective(create_timestamp, t0.create_timestamp);
                lemma_le64_injective(expire_timestamp, t0.expire_timestamp);
                lemma_le32_injective(timeout_raw, t0.timeout_seconds as u32);
                lemma_u32_i32_roundtrip(t0.timeout_seconds as u32);
                let ts = t0.timeout_seconds;
                assert(ts as u32 as i32 == ts) by (bit_vector);
                lemma_le32_injective(count, t0.server_addresses.len() as u32);
                lemma_addrs_bytes_len(t0.server_addresses);
                assert(addrs_encoded_at(t0.server_addresses, buf@, 1093, count as nat));
                assert(token@ =~= t0);
            }
        }
        Ok(token)
    }

    /// Mints a token: stamps the timestamps, draws the session keys, the
    /// nonce and any missing user data from the random source, and seals the
    /// private section under the server private key. Succeeds iff the
    /// address list is non-empty and within the supported count.
    pub fn generate(
        current_time_millis: u64,
        protocol_id: u64,
        expire_seconds: u64,
        client_id: u64,
        timeout_seconds: i32,
        socket_id: u8,
        server_addresses: Vec<NetAddr>,
        user_data: Option<&Vec<u8>>,
        private_key: &Vec<u8>,
    ) -> (r: Result<ConnectToken, NetcodeError>)
        requires
            private_key@.len() == NETCODE_KEY_BYTES,
            user_data matches Some(u) ==> u@.len() == NETCODE_USER_DATA_BYTES,
            current_time_millis / 1000 + expire_seconds <= u64::MAX,
        ensures
            r is Ok <==> 1 <= server_addresses@.len() <= NETCODE_MAX_SERVER_ADDRESSES,
            r matches Ok(t) ==> {
                &&& t@.wf()
                &&& t@.protocol_id == protocol_id
                &&& t@.create_timestamp == current_time_millis / 1000
                &&& t@.expire_timestamp == current_time_millis / 1000 + expire_seconds
                &&& t@.timeout_seconds == timeout_seconds
                &&& t@.server_addresses == server_addresses@
                &&& (user_data matches Some(u) ==> xopen_of(
                    private_key@,
                    t@.xnonce,
                    token_aad(protocol_id, t@.expire_timestamp),
                    t@.private_data,
                ) == Some(
                    private_padded(
                        PrivateTokenView {
                            client_id,
                            timeout_seconds,
                            socket_id,
                            server_addresses: server_addresses@,
                            client_to_server_key: t@.client_to_server_key,
                            server_to_client_key: t@.server_to_client_key,
                            user_data: u@,
                        },
                    ),
                ))
                &&& (user_data is None ==> exists|ud: Seq<u8>|
                    ud.len() == NETCODE_USER_DATA_BYTES && xopen_of(
                        private_key@,
                        t@.xnonce,
                        token_aad(protocol_id, t@.expire_timestamp),
                        t@.private_data,
                    ) == Some(
                        private_padded(
                            PrivateTokenView {
                                client_id,
                                timeout_seconds,
                                socket_id,
                                server_addresses: server_addresses@,
                                client_to_server_key: t@.client_to_server_key,
                                server_to_client_key: t@.server_to_client_key,
                                user_data: ud,
                            },
                        ),
                    ))
            },
    {
        let count = server_addresses.len();
        if count < 1 || count > NETCODE_MAX_SERVER_ADDRESSES {
            return Err(NetcodeError::InvalidAddressCount);
        }
        let create_timestamp = current_time_millis / 1000;
        let expire_timestamp = create_timestamp + expire_seconds;
        let client_to_server_key = generate_random_bytes(NETCODE_KEY_BYTES);
        let server_to_client_key = generate_random_bytes(NETCODE_KEY_BYTES);
        let xnonce = generate_random_bytes(NETCODE_CONNECT_TOKEN_XNONCE_BYTES);
        let ud = match user_data {
            Some(u) => clone_bytes(u),
            None => generate_random_bytes(NETCODE_USER_DATA_BYTES),
        };
        let private_token = PrivateConnectToken {
            client_id,
            timeout_seconds,
            socket_id,
            server_addresses: clone_addrs(&server_addresses),
            client_to_server_key: clone_bytes(&client_to_server_key),
            server_to_client_key: clone_bytes(&server_to_client_key),
            user_data: ud,
        };
        let private_data = private_token.seal(protocol_id, expire_timestamp, &xnonce, private_key);
        let token = ConnectToken {
            version_info: version_info(),
            protocol_id,
            create_timestamp,
            expire_timestamp,
            xnonce,
            private_data,
            timeout_seconds,
            server_addresses,
            client_to_server_key,
            server_to_client_key,
        };
        Ok(token)
    }
}

} // verus!

