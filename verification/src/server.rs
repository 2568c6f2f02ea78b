//! The netcode server: per-socket connection table, handshake state machine,
//! connect-token ledger, and the keep-alive and timeout driver. The server
//! consumes and produces byte vectors; all I/O stays with the caller.

use vstd::prelude::*;

use crate::addr::NetAddr;
use crate::crypto::generate_random_bytes;
use crate::packet::{challenge_plain, frame_opens, opens_to, plain_frame, request_frame,
    sealed_frame, seq_nonce, ChallengeToken, ChallengeTokenView, Packet, PacketView};
use crate::replay::{ReplayProtection, ReplayView};
use crate::token::{private_padded, token_aad, PrivateConnectToken, PrivateTokenView};
use crate::{NetcodeError, NETCODE_CONNECT_TOKEN_PRIVATE_BYTES, NETCODE_KEY_BYTES,
    NETCODE_MAC_BYTES, NETCODE_MAX_CLIENTS, NETCODE_MAX_PAYLOAD_BYTES,
    NETCODE_MAX_PENDING_CLIENTS, NETCODE_SEND_RATE_MILLIS, NETCODE_USER_DATA_BYTES};

verus! {

/// One admitted or handshaking peer.
#[derive(Debug)]
pub(crate) struct Connection {
    pub(crate) confirmed: bool,
    pub(crate) client_id: u64,
    pub(crate) send_key: Vec<u8>,
    pub(crate) receive_key: Vec<u8>,
    pub(crate) user_data: Vec<u8>,
    pub(crate) socket_id: usize,
    pub(crate) addr: NetAddr,
    pub(crate) last_packet_received_time: u64,
    pub(crate) last_packet_send_time: u64,
    pub(crate) timeout_seconds: i32,
    pub(crate) sequence: u64,
    pub(crate) expire_timestamp: u64,
    pub(crate) replay_protection: ReplayProtection,
}

/// Mathematical content of one connection.
#[verifier::ext_equal]
pub struct ConnectionView {
    /// Whether the peer has echoed a payload or keep-alive.
    pub confirmed: bool,
    /// The peer's logical identity.
    pub client_id: u64,
    /// Key sealing server-to-client packets.
    pub send_key: Seq<u8>,
    /// Key opening client-to-server packets.
    pub receive_key: Seq<u8>,
    /// Opaque application data from the connect token.
    pub user_data: Seq<u8>,
    /// The socket the peer was admitted on.
    pub socket_id: int,
    /// The peer's address on that socket.
    pub addr: NetAddr,
    /// Clock instant of the last inbound packet, in milliseconds.
    pub last_packet_received_time: u64,
    /// Clock instant of the last outbound packet, in milliseconds.
    pub last_packet_send_time: u64,
    /// Idle timeout in seconds; zero or negative means no timeout.
    pub timeout_seconds: i32,
    /// Next outbound sequence number.
    pub sequence: u64,
    /// Second at which the connect token expires.
    pub expire_timestamp: u64,
    /// The inbound replay filter.
    pub replay: ReplayView,
}

impl View for Connection {
    type V = ConnectionView;

    closed spec fn view(&self) -> ConnectionView {
        ConnectionView {
            confirmed: self.confirmed,
            client_id: self.client_id,
            send_key: self.send_key@,
            receive_key: self.receive_key@,
            user_data: self.user_data@,
            socket_id: self.socket_id as int,
            addr: self.addr,
            last_packet_received_time: self.last_packet_received_time,
            last_packet_send_time: self.last_packet_send_time,
            timeout_seconds: self.timeout_seconds,
            sequence: self.sequence,
            expire_timestamp: self.expire_timestamp,
            replay: self.replay_protection@,
        }
    }
}

/// One slot of the connect-token ledger: a redeemed private section's tag
/// and the socket and address that first presented it.
#[derive(Debug, Clone)]
pub struct ConnectTokenEntry {
    /// Clock instant of first acceptance, in milliseconds.
    pub time: u64,
    /// The socket the token was presented on.
    pub socket_id: usize,
    /// The address the token was presented from.
    pub address: NetAddr,
    /// The AEAD tag of the token's sealed private section.
    pub mac: Vec<u8>,
}

/// Mathematical content of one ledger slot.
#[verifier::ext_equal]
pub struct TokenEntryView {
    /// Clock instant of first acceptance, in milliseconds.
    pub time: u64,
    /// The socket the token was presented on.
    pub socket_id: int,
    /// The address the token was presented from.
    pub address: NetAddr,
    /// The AEAD tag of the token's sealed private section.
    pub mac: Seq<u8>,
}

impl View for ConnectTokenEntry {
    type V = TokenEntryView;

    open spec fn view(&self) -> TokenEntryView {
        TokenEntryView {
            time: self.time,
            socket_id: self.socket_id as int,
            address: self.address,
            mac: self.mac@,
        }
    }
}

/// Configuration of one socket the server serves.
#[derive(Debug)]
pub struct ServerSocketConfig {
    /// Whether netcode seals packets on this socket; `false` hands
    /// confidentiality to the transport.
    pub needs_encryption: bool,
    /// The addresses clients are told to connect to.
    pub public_addresses: Vec<NetAddr>,
}

/// Mathematical content of one socket configuration.
#[verifier::ext_equal]
pub struct SocketConfigView {
    /// Whether netcode seals packets on this socket.
    pub needs_encryption: bool,
    /// The addresses clients are told to connect to.
    pub public_addresses: Seq<NetAddr>,
}

impl View for ServerSocketConfig {
    type V = SocketConfigView;

    open spec fn view(&self) -> SocketConfigView {
        SocketConfigView {
            needs_encryption: self.needs_encryption,
            public_addresses: self.public_addresses@,
        }
    }
}

impl ServerSocketConfig {
    /// Makes a config with encryption on.
    pub fn new(public_addresses: Vec<NetAddr>) -> (r: ServerSocketConfig)
        ensures
            r@.needs_encryption == true,
            r@.public_addresses == public_addresses@,
    {
        ServerSocketConfig { needs_encryption: true, public_addresses }
    }
}

/// How the server authenticates connection requests.
pub enum ServerAuthentication {
    /// Connect tokens are sealed under this private key.
    Secure {
        /// The server-held private key.
        private_key: Vec<u8>,
    },
    /// No private key: for testing, the host-list check is skipped and the
    /// zero key seals tokens.
    Unsecure,
}

/// What the server is built from.
pub struct ServerConfig {
    /// The clock at construction, in milliseconds.
    pub current_time: u64,
    /// Most clients admitted at a time.
    pub max_clients: usize,
    /// Application protocol id.
    pub protocol_id: u64,
    /// The sockets the server serves; a socket id is an index here.
    pub sockets: Vec<ServerSocketConfig>,
    /// How connection requests are authenticated.
    pub authentication: ServerAuthentication,
}

/// What one server call asks the caller to do.
#[derive(Debug)]
pub enum ServerResult {
    /// Nothing to do.
    NoAction,
    /// The packet was rejected; the caller may note the address.
    Error {
        /// The socket the packet arrived on.
        socket_id: usize,
        /// The address it came from.
        addr: NetAddr,
    },
    /// A connection was refused; any payload should be sent back.
    ConnectionDenied {
        /// The socket the request arrived on.
        socket_id: usize,
        /// The address it came from.
        addr: NetAddr,
        /// An encoded denial, when one could be sealed.
        payload: Option<Vec<u8>>,
    },
    /// A connection request was accepted; the challenge must be sent back.
    ConnectionAccepted {
        /// The requesting client's identity.
        client_id: u64,
        /// The socket the request arrived on.
        socket_id: usize,
        /// The address it came from.
        addr: NetAddr,
        /// The encoded challenge packet.
        payload: Vec<u8>,
    },
    /// A packet must be sent to the address.
    PacketToSend {
        /// The socket to send on.
        socket_id: usize,
        /// The destination address.
        addr: NetAddr,
        /// The encoded packet.
        payload: Vec<u8>,
    },
    /// A connected client delivered application bytes.
    Payload {
        /// The client's identity.
        client_id: u64,
        /// The bytes delivered.
        payload: Vec<u8>,
    },
    /// A client completed the handshake; the keep-alive must be sent back.
    ClientConnected {
        /// The admitted client's identity.
        client_id: u64,
        /// The socket it was admitted on.
        socket_id: usize,
        /// Its address.
        addr: NetAddr,
        /// The user data carried by its connect token.
        user_data: Vec<u8>,
        /// The encoded keep-alive packet.
        payload: Vec<u8>,
    },
    /// A client's connection ended; any payload is a best-effort disconnect.
    ClientDisconnected {
        /// The client's identity.
        client_id: u64,
        /// The socket it was on.
        socket_id: usize,
        /// Its address.
        addr: NetAddr,
        /// An encoded disconnect, when one could be sealed.
        payload: Option<Vec<u8>>,
    },
}

/// Mathematical content of the server.
#[verifier::ext_equal]
pub struct ServerView {
    /// The sockets served; a socket id is an index here.
    pub sockets: Seq<SocketConfigView>,
    /// The admission slots; `None` is free.
    pub clients: Seq<Option<ConnectionView>>,
    /// Handshakes between request and response.
    pub pending: Seq<ConnectionView>,
    /// The bounded connect-token ledger.
    pub token_entries: Seq<Option<TokenEntryView>>,
    /// Application protocol id.
    pub protocol_id: u64,
    /// The key connect tokens are sealed under.
    pub connect_key: Seq<u8>,
    /// Most clients admitted at a time.
    pub max_clients: int,
    /// Sequence for sealing challenge tokens.
    pub challenge_sequence: u64,
    /// Ephemeral key sealing challenge tokens.
    pub challenge_key: Seq<u8>,
    /// The clock, in milliseconds; advanced only by `update`.
    pub current_time: u64,
    /// Sequence for unsolicited server packets.
    pub global_sequence: u64,
    /// Whether the host-list check applies.
    pub secure: bool,
}

/// The netcode server.
pub struct NetcodeServer {
    sockets: Vec<ServerSocketConfig>,
    clients: Vec<Option<Connection>>,
    pending_clients: Vec<Connection>,
    connect_token_entries: Vec<Option<ConnectTokenEntry>>,
    protocol_id: u64,
    connect_key: Vec<u8>,
    max_clients: usize,
    challenge_sequence: u64,
    challenge_key: Vec<u8>,
    current_time: u64,
    global_sequence: u64,
    secure: bool,
}

impl View for NetcodeServer {
    type V = ServerView;

    closed spec fn view(&self) -> ServerView {
        ServerView {
            sockets: Seq::new(self.sockets@.len(), |i: int| self.sockets@[i]@),
            clients: Seq::new(
                self.clients@.len(),
                |i: int|
                    match self.clients@[i] {
                        Some(c) => Some(c@),
                        None => None,
                    },
            ),
            pending: Seq::new(self.pending_clients@.len(), |i: int| self.pending_clients@[i]@),
            token_entries: Seq::new(
                self.connect_token_entries@.len(),
                |i: int|
                    match self.connect_token_entries@[i] {
                        Some(e) => Some(e@),
                        None => None,
                    },
            ),
            protocol_id: self.protocol_id,
            connect_key: self.connect_key@,
            max_clients: self.max_clients as int,
            challenge_sequence: self.challenge_sequence,
            challenge_key: self.challenge_key@,
            current_time: self.current_time,
            global_sequence: self.global_sequence,
            secure: self.secure,
        }
    }
}

/// Lengths and bounds one connection must keep, against the server's socket
/// count and clock.
pub open spec fn conn_wf(c: ConnectionView, nsockets: int, now: u64) -> bool {
    &&& c.send_key.len() == NETCODE_KEY_BYTES
    &&& c.receive_key.len() == NETCODE_KEY_BYTES
    &&& c.user_data.len() == NETCODE_USER_DATA_BYTES
    &&& 0 <= c.socket_id < nsockets
    &&& c.replay.wf()
    &&& c.last_packet_received_time <= now
    &&& c.last_packet_send_time <= now
}

impl ServerView {
    /// No two admitted clients share an identity or a socket-address pair,
    /// no two pending handshakes share a socket-address pair, and no pair
    /// is both pending and admitted.
    pub open spec fn unique_peers(self) -> bool {
        &&& forall|i: int, j: int|
            0 <= i < j < self.clients.len() && self.clients[i] is Some && self.clients[j] is Some
                ==> self.clients[i]->0.client_id != self.clients[j]->0.client_id && !(
            self.clients[i]->0.socket_id == self.clients[j]->0.socket_id
                && self.clients[i]->0.addr == self.clients[j]->0.addr)
        &&& forall|i: int, j: int|
            0 <= i < j < self.pending.len() ==> !(self.pending[i].socket_id
                == self.pending[j].socket_id && self.pending[i].addr == self.pending[j].addr)
        &&& forall|i: int, j: int|
            0 <= i < self.clients.len() && self.clients[i] is Some && 0 <= j < self.pending.len()
                ==> !(self.clients[i]->0.socket_id == self.pending[j].socket_id
                && self.clients[i]->0.addr == self.pending[j].addr)
    }

    /// The ledger holds each sealed section's tag at most once.
    pub open spec fn unique_macs(self) -> bool {
        forall|i: int, j: int|
            0 <= i < j < self.token_entries.len() && self.token_entries[i] is Some
                && self.token_entries[j] is Some ==> self.token_entries[i]->0.mac
                != self.token_entries[j]->0.mac
    }

    /// The server's invariant: sound lengths everywhere, and the uniqueness
    /// of peers and ledger tags.
    pub open spec fn wf(self) -> bool {
        &&& self.sockets.len() >= 1
        &&& self.connect_key.len() == NETCODE_KEY_BYTES
        &&& self.challenge_key.len() == NETCODE_KEY_BYTES
        &&& self.clients.len() <= NETCODE_MAX_CLIENTS
        &&& 0 <= self.max_clients <= NETCODE_MAX_CLIENTS
        &&& self.token_entries.len() == 2 * NETCODE_MAX_CLIENTS
        &&& self.pending.len() <= NETCODE_MAX_PENDING_CLIENTS
        &&& forall|i: int|
            0 <= i < self.clients.len() && self.clients[i] is Some ==> conn_wf(
                self.clients[i]->0,
                self.sockets.len() as int,
                self.current_time,
            )
        &&& forall|i: int|
            0 <= i < self.pending.len() ==> conn_wf(
                self.pending[i],
                self.sockets.len() as int,
                self.current_time,
            )
        &&& forall|i: int|
            0 <= i < self.token_entries.len() && self.token_entries[i] is Some ==> (
            self.token_entries[i]->0.mac.len() == NETCODE_MAC_BYTES && 0
                <= self.token_entries[i]->0.socket_id && self.token_entries[i]->0.time
                <= self.current_time)
        &&& self.unique_peers()
        &&& self.unique_macs()
    }

    /// Whether some admitted client has this identity.
    pub open spec fn has_client(self, client_id: u64) -> bool {
        exists|i: int|
            0 <= i < self.clients.len() && self.clients[i] is Some
                && self.clients[i]->0.client_id == client_id
    }

    /// The slot of the admitted client with this identity, if any.
    pub open spec fn client_index(self, client_id: u64) -> int {
        choose|i: int|
            0 <= i < self.clients.len() && self.clients[i] is Some
                && self.clients[i]->0.client_id == client_id
    }

    /// The admitted client with this identity.
    pub open spec fn client_of(self, client_id: u64) -> ConnectionView
        recommends
            self.has_client(client_id),
    {
        self.clients[self.client_index(client_id)]->0
    }

    /// How many admission slots are taken.
    pub open spec fn connected_count(self) -> int {
        Seq::new(self.clients.len(), |i: int| self.clients[i]).fold_left(
            0,
            |acc: int, c: Option<ConnectionView>|
                if c is Some {
                    acc + 1
                } else {
                    acc
                },
        )
    }
}

impl ServerConfig {
    /// What a usable configuration must hold.
    pub open spec fn wf(self) -> bool {
        &&& self.sockets@.len() >= 1
        &&& self.max_clients <= NETCODE_MAX_CLIENTS
        &&& (self.authentication matches ServerAuthentication::Secure { private_key } ==>
        private_key@.len() == NETCODE_KEY_BYTES)
    }
}

impl NetcodeServer {
    /// Builds a server: all slots free, an empty ledger, a fresh random
    /// challenge key, and the clock at the configured instant.
    pub fn new(config: ServerConfig) -> (r: NetcodeServer)
        requires
            config.wf(),
        ensures
            r@.wf(),
            r@.current_time == config.current_time,
            r@.protocol_id == config.protocol_id,
            r@.max_clients == config.max_clients,
            r@.clients.len() == config.max_clients,
            forall|i: int| 0 <= i < r@.clients.len() ==> r@.clients[i] is None,
            r@.pending.len() == 0,
            forall|i: int| 0 <= i < r@.token_entries.len() ==> r@.token_entries[i] is None,
            r@.sockets.len() == config.sockets@.len(),
            forall|i: int| 0 <= i < r@.sockets.len() ==> r@.sockets[i] == config.sockets@[i]@,
            r@.secure == (config.authentication is Secure),
            config.authentication matches ServerAuthentication::Secure { private_key }
                ==> r@.connect_key == private_key@,
            config.authentication is Unsecure ==> r@.connect_key == Seq::new(
                NETCODE_KEY_BYTES as nat,
                |i: int| 0u8,
            ),
            r@.global_sequence == 0,
    {
        let challenge_key = generate_random_bytes(NETCODE_KEY_BYTES);
        let mut clients: Vec<Option<Connection>> = Vec::new();
        let mut i: usize = 0;
        while i < config.max_clients
            invariant
                i <= config.max_clients,
                clients@.len() == i,
                forall|j: int| 0 <= j < i ==> clients@[j] is None,
            decreases config.max_clients - i,
        {
            clients.push(None);
            i = i + 1;
        }
        let mut connect_token_entries: Vec<Option<ConnectTokenEntry>> = Vec::new();
        let mut k: usize = 0;
        while k < 2 * NETCODE_MAX_CLIENTS
            invariant
                k <= 2 * NETCODE_MAX_CLIENTS,
                connect_token_entries@.len() == k,
                forall|j: int| 0 <= j < k ==> connect_token_entries@[j] is None,
            decreases 2 * NETCODE_MAX_CLIENTS - k,
        {
            connect_token_entries.push(None);
            k = k + 1;
        }
        let secure = match &config.authentication {
            ServerAuthentication::Secure { .. } => true,
            ServerAuthentication::Unsecure => false,
        };
        let connect_key = match config.authentication {
            ServerAuthentication::Secure { private_key } => private_key,
            ServerAuthentication::Unsecure => {
                let mut zero_key: Vec<u8> = Vec::new();
                let mut z: usize = 0;
                while z < NETCODE_KEY_BYTES
                    invariant
                        z <= NETCODE_KEY_BYTES,
                        zero_key@.len() == z,
                        forall|k: int| 0 <= k < z ==> zero_key@[k] == 0,
                    decreases NETCODE_KEY_BYTES - z,
                {
                    zero_key.push(0);
                    z = z + 1;
                }
                proof {
                    assert(zero_key@ =~= Seq::new(NETCODE_KEY_BYTES as nat, |i: int| 0u8));
                }
                zero_key
            },
        };
        NetcodeServer {
            sockets: config.sockets,
            clients,
            pending_clients: Vec::new(),
            connect_token_entries,
            protocol_id: config.protocol_id,
            connect_key,
            max_clients: config.max_clients,
            challenge_sequence: 0,
            global_sequence: 0,
            challenge_key,
            current_time: config.current_time,
            secure,
        }
    }

    /// The public addresses of one socket.
    pub fn addresses(&self, socket_id: usize) -> (r: Vec<NetAddr>)
        requires
            socket_id < self@.sockets.len(),
        ensures
            r@ == self@.sockets[socket_id as int].public_addresses,
    {
        crate::token::clone_addrs(&self.sockets[socket_id].public_addresses)
    }

    /// The server clock, in milliseconds.
    pub fn current_time(&self) -> (r: u64)
        ensures
            r == self@.current_time,
    {
        self.current_time
    }

    /// The configured admission limit.
    pub fn max_clients(&self) -> (r: usize)
        ensures
            r == self@.max_clients,
    {
        self.max_clients
    }

    /// Lowers or raises the admission limit, capped at the supported most.
    /// Admitted clients are never disconnected by this, so the connected
    /// count may exceed the new limit.
    pub fn set_max_clients(&mut self, max_clients: usize)
        requires
            old(self)@.wf(),
        ensures
            final(self)@.wf(),
            final(self)@ == (ServerView {
                max_clients: if max_clients <= NETCODE_MAX_CLIENTS {
                    max_clients as int
                } else {
                    NETCODE_MAX_CLIENTS as int
                },
                ..old(self)@
            }),
    {
        let capped = if max_clients < NETCODE_MAX_CLIENTS {
            max_clients
        } else {
            NETCODE_MAX_CLIENTS
        };
        self.max_clients = capped;
        proof {
            assert(final(self)@ =~= (ServerView {
                max_clients: if max_clients <= NETCODE_MAX_CLIENTS {
                    max_clients as int
                } else {
                    NETCODE_MAX_CLIENTS as int
                },
                ..old(self)@
            }));
        }
    }
}


impl ServerView {
    /// Whether some admitted client sits at this socket and address.
    pub open spec fn has_peer_at(self, socket_id: int, addr: NetAddr) -> bool {
        exists|i: int|
            0 <= i < self.clients.len() && self.clients[i] is Some
                && self.clients[i]->0.socket_id == socket_id && self.clients[i]->0.addr == addr
    }

    /// The slot of the admitted client at this socket and address, if any.
    pub open spec fn peer_index(self, socket_id: int, addr: NetAddr) -> int {
        choose|i: int|
            0 <= i < self.clients.len() && self.clients[i] is Some
                && self.clients[i]->0.socket_id == socket_id && self.clients[i]->0.addr == addr
    }

    /// Whether some handshake is pending at this socket and address.
    pub open spec fn has_pending_at(self, socket_id: int, addr: NetAddr) -> bool {
        exists|i: int|
            0 <= i < self.pending.len() && self.pending[i].socket_id == socket_id
                && self.pending[i].addr == addr
    }

    /// The index of the pending handshake at this socket and address, if
    /// any.
    pub open spec fn pending_index(self, socket_id: int, addr: NetAddr) -> int {
        choose|i: int|
            0 <= i < self.pending.len() && self.pending[i].socket_id == socket_id
                && self.pending[i].addr == addr
    }

    /// Whether the ledger holds this sealed-section tag.
    pub open spec fn has_mac(self, mac: Seq<u8>) -> bool {
        exists|i: int|
            0 <= i < self.token_entries.len() && self.token_entries[i] is Some
                && self.token_entries[i]->0.mac == mac
    }

    /// The ledger slot holding this tag, if any.
    pub open spec fn mac_index(self, mac: Seq<u8>) -> int {
        choose|i: int|
            0 <= i < self.token_entries.len() && self.token_entries[i] is Some
                && self.token_entries[i]->0.mac == mac
    }

    /// The ledger entry holding this tag.
    pub open spec fn entry_of(self, mac: Seq<u8>) -> TokenEntryView
        recommends
            self.has_mac(mac),
    {
        self.token_entries[self.mac_index(mac)]->0
    }
}

/// How many slots of a client table are taken.
pub open spec fn count_some(s: Seq<Option<ConnectionView>>) -> int
    decreases s.len(),
{
    if s.len() == 0 {
        0int
    } else {
        count_some(s.drop_last()) + if s.last() is Some {
            1int
        } else {
            0int
        }
    }
}

/// Whether a pending handshake survives the clock reaching `now_secs`.
pub open spec fn pending_alive(c: ConnectionView, now_secs: u64) -> bool {
    !(now_secs > c.expire_timestamp)
}

impl NetcodeServer {
    /// Copies a connection.
    fn clone_conn(c: &Connection) -> (r: Connection)
        ensures
            r@ == c@,
    {
        Connection {
            confirmed: c.confirmed,
            client_id: c.client_id,
            send_key: crate::token::clone_bytes(&c.send_key),
            receive_key: crate::token::clone_bytes(&c.receive_key),
            user_data: crate::token::clone_bytes(&c.user_data),
            socket_id: c.socket_id,
            addr: c.addr,
            last_packet_received_time: c.last_packet_received_time,
            last_packet_send_time: c.last_packet_send_time,
            timeout_seconds: c.timeout_seconds,
            sequence: c.sequence,
            expire_timestamp: c.expire_timestamp,
            replay_protection: c.replay_protection.duplicate(),
        }
    }

    /// The slot of the admitted client with this identity.
    fn find_client_index(&self, client_id: u64) -> (r: Option<usize>)
        requires
            self@.wf(),
        ensures
            r is Some <==> self@.has_client(client_id),
            r matches Some(i) ==> 0 <= i < self@.clients.len() && self@.clients[i as int] is Some
                && self@.clients[i as int]->0.client_id == client_id && i as int
                == self@.client_index(client_id) && self@.clients[i as int]->0 == self@.client_of(
                client_id,
            ),
    {
        let n: usize = self.clients.len();
        let mut i: usize = 0;
        while i < n
            invariant
                i <= n == self@.clients.len(),
                self@.wf(),
                forall|j: int|
                    0 <= j < i ==> !(self@.clients[j] is Some && self@.clients[j]->0.client_id
                        == client_id),
            decreases n - i,
        {
            let hit = match &self.clients[i] {
                Some(c) => c.client_id == client_id,
                None => false,
            };
            if hit {
                proof {
                    assert(self@.clients[i as int] is Some && self@.clients[i as int]->0.client_id
                        == client_id);
                    assert(self@.has_client(client_id));
                    let j = self@.client_index(client_id);
                    if j != i as int {
                        assert(self@.clients[j] is Some && self@.clients[j]->0.client_id
                            == client_id);
                    }
                }
                return Some(i);
            }
            i = i + 1;
        }
        None
    }

    /// The slot of the admitted client at this socket and address.
    fn find_addr_index(&self, socket_id: usize, addr: &NetAddr) -> (r: Option<usize>)
        requires
            self@.wf(),
        ensures
            r is Some <==> self@.has_peer_at(socket_id as int, *addr),
            r matches Some(i) ==> 0 <= i < self@.clients.len() && self@.clients[i as int] is Some
                && self@.clients[i as int]->0.socket_id == socket_id
                && self@.clients[i as int]->0.addr == *addr && i as int == self@.peer_index(
                socket_id as int,
                *addr,
            ),
    {
        let n: usize = self.clients.len();
        let mut i: usize = 0;
        while i < n
            invariant
                i <= n == self@.clients.len(),
                self@.wf(),
                forall|j: int|
                    0 <= j < i ==> !(self@.clients[j] is Some && self@.clients[j]->0.socket_id
                        == socket_id && self@.clients[j]->0.addr == *addr),
            decreases n - i,
        {
            let hit = match &self.clients[i] {
                Some(c) => c.socket_id == socket_id && c.addr == *addr,
                None => false,
            };
            if hit {
                proof {
                    assert(self@.clients[i as int] is Some && self@.clients[i as int]->0.socket_id
                        == socket_id && self@.clients[i as int]->0.addr == *addr);
                    assert(self@.has_peer_at(socket_id as int, *addr));
                    let j = self@.peer_index(socket_id as int, *addr);
                    if j != i as int {
                        assert(self@.clients[j] is Some && self@.clients[j]->0.socket_id
                            == socket_id && self@.clients[j]->0.addr == *addr);
                    }
                }
                return Some(i);
            }
            i = i + 1;
        }
        None
    }

    /// The index of the pending handshake at this socket and address.
    fn find_pending_index(&self, socket_id: usize, addr: &NetAddr) -> (r: Option<usize>)
        requires
            self@.wf(),
        ensures
            r is Some <==> self@.has_pending_at(socket_id as int, *addr),
            r matches Some(i) ==> 0 <= i < self@.pending.len() && self@.pending[i as int].socket_id
                == socket_id && self@.pending[i as int].addr == *addr && i as int
                == self@.pending_index(socket_id as int, *addr),
    {
        let n: usize = self.pending_clients.len();
        let mut i: usize = 0;
        while i < n
            invariant
                i <= n == self@.pending.len(),
                self@.wf(),
                forall|j: int|
                    0 <= j < i ==> !(self@.pending[j].socket_id == socket_id
                        && self@.pending[j].addr == *addr),
            decreases n - i,
        {
            if self.pending_clients[i].socket_id == socket_id && self.pending_clients[i].addr
                == *addr {
                proof {
                    assert(self@.pending[i as int].socket_id == socket_id
                        && self@.pending[i as int].addr == *addr);
                    assert(self@.has_pending_at(socket_id as int, *addr));
                    let j = self@.pending_index(socket_id as int, *addr);
                    if j != i as int {
                        assert(self@.pending[j].socket_id == socket_id && self@.pending[j].addr
                            == *addr);
                    }
                }
                return Some(i);
            }
            i = i + 1;
        }
        None
    }

    /// The user data carried by a connected client's token, if connected.
    pub fn user_data(&self, client_id: u64) -> (r: Option<Vec<u8>>)
        requires
            self@.wf(),
        ensures
            r is Some <==> self@.has_client(client_id),
            r matches Some(u) ==> u@ == self@.client_of(client_id).user_data,
    {
        match self.find_client_index(client_id) {
            Some(i) => match &self.clients[i] {
                Some(c) => Some(crate::token::clone_bytes(&c.user_data)),
                None => None,
            },
            None => None,
        }
    }

    /// Milliseconds since the connected client last delivered a packet.
    pub fn time_since_last_received_packet(&self, client_id: u64) -> (r: Option<u64>)
        requires
            self@.wf(),
        ensures
            r is Some <==> self@.has_client(client_id),
            r matches Some(t) ==> t == self@.current_time - self@.client_of(
                client_id,
            ).last_packet_received_time,
    {
        match self.find_client_index(client_id) {
            Some(i) => match &self.clients[i] {
                Some(c) => Some(self.current_time - c.last_packet_received_time),
                None => None,
            },
            None => None,
        }
    }

    /// The socket and address of a connected client.
    pub fn client_addr(&self, client_id: u64) -> (r: Option<(usize, NetAddr)>)
        requires
            self@.wf(),
        ensures
            r is Some <==> self@.has_client(client_id),
            r matches Some(p) ==> p.0 == self@.client_of(client_id).socket_id && p.1
                == self@.client_of(client_id).addr,
    {
        match self.find_client_index(client_id) {
            Some(i) => match &self.clients[i] {
                Some(c) => Some((c.socket_id, c.addr)),
                None => None,
            },
            None => None,
        }
    }

    /// Whether a client with this identity is connected.
    pub fn is_client_connected(&self, client_id: u64) -> (r: bool)
        requires
            self@.wf(),
        ensures
            r == self@.has_client(client_id),
    {
        self.find_client_index(client_id).is_some()
    }

    /// The taken admission slots, in increasing order.
    pub fn clients_slot(&self) -> (r: Vec<usize>)
        requires
            self@.wf(),
        ensures
            forall|k1: int, k2: int| 0 <= k1 < k2 < r@.len() ==> r@[k1] < r@[k2],
            forall|k: int|
                0 <= k < r@.len() ==> r@[k] < self@.clients.len() && self@.clients[r@[k] as int]
                    is Some,
            forall|i: int|
                0 <= i < self@.clients.len() && self@.clients[i] is Some ==> exists|k: int|
                    0 <= k < r@.len() && r@[k] == i,
    {
        let n: usize = self.clients.len();
        let mut r: Vec<usize> = Vec::new();
        let mut i: usize = 0;
        while i < n
            invariant
                i <= n == self@.clients.len(),
                forall|k1: int, k2: int| 0 <= k1 < k2 < r@.len() ==> r@[k1] < r@[k2],
                forall|k: int| 0 <= k < r@.len() ==> r@[k] < i,
                forall|k: int| 0 <= k < r@.len() ==> self@.clients[r@[k] as int] is Some,
                forall|j: int|
                    0 <= j < i && self@.clients[j] is Some ==> exists|k: int|
                        0 <= k < r@.len() && r@[k] == j,
            decreases n - i,
        {
            if self.clients[i].is_some() {
                let ghost prev = r@;
                r.push(i);
                proof {
                    assert(r@[r@.len() - 1] == i as int);
                    assert forall|j: int|
                        0 <= j < i + 1 && self@.clients[j] is Some implies exists|k: int|
                        0 <= k < r@.len() && r@[k] == j by {
                        if j == i as int {
                            assert(r@[r@.len() - 1] == j);
                        } else {
                            let k = choose|k: int| 0 <= k < prev.len() && prev[k] == j;
                            assert(r@[k] == j);
                        }
                    }
                }
            }
            i = i + 1;
        }
        r
    }

    /// The identities of the connected clients, in slot order.
    pub fn clients_id(&self) -> (r: Vec<u64>)
        requires
            self@.wf(),
        ensures
            forall|k: int| 0 <= k < r@.len() ==> self@.has_client(r@[k]),
            forall|i: int|
                0 <= i < self@.clients.len() && self@.clients[i] is Some ==> exists|k: int|
                    0 <= k < r@.len() && r@[k] == self@.clients[i]->0.client_id,
    {
        let n: usize = self.clients.len();
        let mut r: Vec<u64> = Vec::new();
        let mut i: usize = 0;
        while i < n
            invariant
                i <= n == self@.clients.len(),
                self@.wf(),
                forall|k: int| 0 <= k < r@.len() ==> self@.has_client(r@[k]),
                forall|j: int|
                    0 <= j < i && self@.clients[j] is Some ==> exists|k: int|
                        0 <= k < r@.len() && r@[k] == self@.clients[j]->0.client_id,
            decreases n - i,
        {
            let id_opt = match &self.clients[i] {
                Some(c) => Some(c.client_id),
                None => None,
            };
            match id_opt {
                Some(id) => {
                    proof {
                        assert(self@.clients[i as int] is Some
                            && self@.clients[i as int]->0.client_id == id);
                        assert(self@.has_client(id));
                    }
                    let ghost prev = r@;
                    r.push(id);
                    proof {
                        assert(r@[r@.len() - 1] == id);
                        assert forall|j: int|
                            0 <= j < i + 1 && self@.clients[j] is Some implies exists|k: int|
                            0 <= k < r@.len() && r@[k] == self@.clients[j]->0.client_id by {
                            if j == i as int {
                                assert(r@[r@.len() - 1] == self@.clients[j]->0.client_id);
                            } else {
                                let k = choose|k: int|
                                    0 <= k < prev.len() && prev[k] == self@.clients[j]->0.client_id;
                                assert(r@[k] == self@.clients[j]->0.client_id);
                            }
                        }
                    }
                },
                None => {},
            }
            i = i + 1;
        }
        r
    }

    /// How many clients are connected.
    pub fn connected_clients(&self) -> (r: usize)
        requires
            self@.wf(),
        ensures
            r == count_some(self@.clients),
    {
        let n: usize = self.clients.len();
        let mut count: usize = 0;
        let mut i: usize = 0;
        while i < n
            invariant
                i <= n == self@.clients.len(),
                count <= i,
                count == count_some(self@.clients.take(i as int)),
            decreases n - i,
        {
            proof {
                assert(self@.clients.take(i + 1).drop_last() =~= self@.clients.take(i as int));
                assert(self@.clients.take(i + 1).last() == self@.clients[i as int]);
            }
            if self.clients[i].is_some() {
                count = count + 1;
            }
            i = i + 1;
        }
        proof {
            assert(self@.clients.take(n as int) =~= self@.clients);
        }
        count
    }

    /// Records a token's sealed-section tag against the socket and address
    /// that presented it. Returns whether the presentation is acceptable: a
    /// tag already on the ledger is accepted exactly from the pair that
    /// first presented it; a new tag takes a free slot, or evicts the
    /// oldest entry when the ledger is full.
    pub fn find_or_add_connect_token_entry(&mut self, new_entry: &ConnectTokenEntry) -> (r: bool)
        requires
            old(self)@.wf(),
            new_entry@.mac.len() == NETCODE_MAC_BYTES,
            new_entry@.time <= old(self)@.current_time,
        ensures
            final(self)@.wf(),
            old(self)@.has_mac(new_entry@.mac) ==> {
                &&& final(self)@ == old(self)@
                &&& r == (old(self)@.entry_of(new_entry@.mac).socket_id == new_entry@.socket_id
                    && old(self)@.entry_of(new_entry@.mac).address == new_entry@.address)
            },
            !old(self)@.has_mac(new_entry@.mac) ==> {
                &&& r == true
                &&& exists|j: int|
                    {
                        &&& 0 <= j < old(self)@.token_entries.len()
                        &&& final(self)@ == (ServerView {
                            token_entries: old(self)@.token_entries.update(j, Some(new_entry@)),
                            ..old(self)@
                        })
                        &&& (if exists|k: int|
                            0 <= k < old(self)@.token_entries.len() && old(self)@.token_entries[k]
                                is None {
                            old(self)@.token_entries[j] is None
                        } else {
                            forall|k: int|
                                0 <= k < old(self)@.token_entries.len() ==> old(
                                    self,
                                )@.token_entries[j]->0.time <= old(self)@.token_entries[k]->0.time
                        })
                    }
            },
    {
        let n: usize = self.connect_token_entries.len();
        let mut oldest: usize = 0;
        let mut found_empty: bool = false;
        let mut matching: Option<usize> = None;
        let mut i: usize = 0;
        while i < n
            invariant
                i <= n == self@.token_entries.len(),
                self@.wf(),
                self == old(self),
                new_entry@.mac.len() == NETCODE_MAC_BYTES,
                n >= 1,
                oldest < n || (i == 0 && oldest == 0),
                matching matches Some(m) ==> 0 <= m < i && self@.token_entries[m as int] is Some
                    && self@.token_entries[m as int]->0.mac == new_entry@.mac,
                matching is None ==> forall|j: int|
                    0 <= j < i ==> !(self@.token_entries[j] is Some
                        && self@.token_entries[j]->0.mac == new_entry@.mac),
                found_empty ==> oldest < i && self@.token_entries[oldest as int] is None,
                !found_empty ==> forall|j: int| 0 <= j < i ==> self@.token_entries[j] is Some,
                !found_empty && i > 0 ==> oldest < i && self@.token_entries[oldest as int] is Some
                    && forall|k: int|
                    0 <= k < i ==> self@.token_entries[oldest as int]->0.time
                        <= self@.token_entries[k]->0.time,
            decreases n - i,
        {
            let slot_mac_matches = match &self.connect_token_entries[i] {
                Some(e) => crate::bytes::bytes_equal(&e.mac, &new_entry.mac),
                None => false,
            };
            if slot_mac_matches {
                matching = Some(i);
            }
            match &self.connect_token_entries[i] {
                Some(e) => {
                    if !found_empty {
                        if i == 0 {
                            oldest = 0;
                        } else {
                            let better = match &self.connect_token_entries[oldest] {
                                Some(o) => e.time < o.time,
                                None => false,
                            };
                            if better {
                                oldest = i;
                            }
                        }
                    }
                },
                None => {
                    if !found_empty {
                        found_empty = true;
                        oldest = i;
                    }
                },
            }
            i = i + 1;
        }
        match matching {
            Some(m) => {
                proof {
                    assert(self@.token_entries[m as int] is Some
                        && self@.token_entries[m as int]->0.mac == new_entry@.mac);
                    assert(self@.has_mac(new_entry@.mac));
                    let j = self@.mac_index(new_entry@.mac);
                    if j != m as int {
                        assert(self@.token_entries[j] is Some && self@.token_entries[j]->0.mac
                            == new_entry@.mac);
                    }
                }
                let same = match &self.connect_token_entries[m] {
                    Some(e) => e.socket_id == new_entry.socket_id && e.address == new_entry.address,
                    None => false,
                };
                same
            },
            None => {
                proof {
                    if self@.has_mac(new_entry@.mac) {
                        let j = self@.mac_index(new_entry@.mac);
                        assert(self@.token_entries[j] is Some && self@.token_entries[j]->0.mac
                            == new_entry@.mac);
                    }
                }
                let entry = ConnectTokenEntry {
                    time: new_entry.time,
                    socket_id: new_entry.socket_id,
                    address: new_entry.address,
                    mac: crate::token::clone_bytes(&new_entry.mac),
                };
                self.connect_token_entries.set(oldest, Some(entry));
                proof {
                    if !found_empty {
                        assert forall|k: int|
                            0 <= k < old(self)@.token_entries.len() implies old(
                            self,
                        )@.token_entries[k] is Some by {}
                    }
                    assert(final(self)@ =~= (ServerView {
                        token_entries: old(self)@.token_entries.update(
                            oldest as int,
                            Some(new_entry@),
                        ),
                        ..old(self)@
                    }));
                }
                true
            },
        }
    }

    /// Advances the clock and drops every pending handshake whose token has
    /// expired.
    #[verifier::loop_isolation(false)]
    pub fn update(&mut self, duration: u64)
        requires
            old(self)@.wf(),
            old(self)@.current_time + duration <= u64::MAX,
        ensures
            final(self)@.wf(),
            final(self)@ == (ServerView {
                current_time: (old(self)@.current_time + duration) as u64,
                pending: old(self)@.pending.filter(
                    |c: ConnectionView|
                        pending_alive(c, ((old(self)@.current_time + duration) as u64) / 1000),
                ),
                ..old(self)@
            }),
    {
        self.current_time = self.current_time + duration;
        let now_secs: u64 = self.current_time / 1000;
        let ghost pred = |c: ConnectionView| pending_alive(c, now_secs);
        let n: usize = self.pending_clients.len();
        let mut kept: Vec<Connection> = Vec::new();
        let ghost pend0 = self@.pending;
        let ghost mut srcs: Seq<int> = Seq::empty();
        let mut i: usize = 0;
        while i < n
            invariant
                i <= n == self.pending_clients@.len(),
                pend0 == self@.pending,
                srcs.len() == kept@.len(),
                forall|k: int| 0 <= k < srcs.len() ==> 0 <= srcs[k] < i && kept@[k]@ == pend0[srcs[k]],
                forall|k1: int, k2: int| 0 <= k1 < k2 < srcs.len() ==> srcs[k1] < srcs[k2],
                Seq::new(kept@.len(), |k: int| kept@[k]@) =~= pend0.take(i as int).filter(pred),
            decreases n - i,
        {
            proof {
                reveal(Seq::filter);
                assert(pend0.take(i + 1).drop_last() =~= pend0.take(i as int));
                assert(pend0.take(i + 1).last() == pend0[i as int]);
                assert(pend0[i as int] == self.pending_clients@[i as int]@);
            }
            let keep = !(now_secs > self.pending_clients[i].expire_timestamp);
            if keep {
                let moved = Self::clone_conn(&self.pending_clients[i]);
                kept.push(moved);
                proof {
                    srcs = srcs.push(i as int);
                    reveal(Seq::filter);
                    assert(Seq::new(kept@.len(), |k: int| kept@[k]@) =~= pend0.take(i + 1).filter(
                        pred,
                    ));
                }
            } else {
                proof {
                    reveal(Seq::filter);
                    assert(Seq::new(kept@.len(), |k: int| kept@[k]@) =~= pend0.take(i + 1).filter(
                        pred,
                    ));
                }
            }
            i = i + 1;
        }
        self.pending_clients = kept;
        proof {
            assert(pend0.take(n as int) =~= pend0);
            let fp = self@.pending;
            let fc = self@.clients;
            assert forall|k1: int, k2: int|
                0 <= k1 < k2 < fp.len() implies !(fp[k1].socket_id == fp[k2].socket_id
                && fp[k1].addr == fp[k2].addr) by {
                assert(fp[k1] == pend0[srcs[k1]]);
                assert(fp[k2] == pend0[srcs[k2]]);
            }
            assert forall|i0: int, k: int|
                0 <= i0 < fc.len() && fc[i0] is Some && 0 <= k < fp.len() implies !(
            fc[i0]->0.socket_id == fp[k].socket_id && fc[i0]->0.addr == fp[k].addr) by {
                assert(fp[k] == pend0[srcs[k]]);
            }
            assert forall|k: int| 0 <= k < fp.len() implies conn_wf(
                fp[k],
                self@.sockets.len() as int,
                self@.current_time,
            ) by {
                assert(fp[k] == pend0[srcs[k]]);
            }
            assert(final(self)@ =~= (ServerView {
                current_time: (old(self)@.current_time + duration) as u64,
                pending: old(self)@.pending.filter(
                    |c: ConnectionView|
                        pending_alive(c, ((old(self)@.current_time + duration) as u64) / 1000),
                ),
                ..old(self)@
            }));
        }
    }
}


/// A table update that keeps a slot's identity (id, socket and address)
/// keeps the server invariant.
proof fn lemma_wf_update_slot(
    pre: ServerView,
    post: ServerView,
    i: int,
    c0: ConnectionView,
    c1: ConnectionView,
)
    requires
        pre.wf(),
        0 <= i < pre.clients.len(),
        pre.clients[i] == Some(c0),
        post == (ServerView { clients: pre.clients.update(i, Some(c1)), ..pre }),
        c1.client_id == c0.client_id,
        c1.socket_id == c0.socket_id,
        c1.addr == c0.addr,
        conn_wf(c1, pre.sockets.len() as int, pre.current_time),
    ensures
        post.wf(),
        post.has_client(c0.client_id),
{
    assert(post.clients[i] is Some && post.clients[i]->0.client_id == c0.client_id);
}

/// Freeing one slot keeps the server invariant.
proof fn lemma_wf_clear_slot(pre: ServerView, post: ServerView, i: int)
    requires
        pre.wf(),
        0 <= i < pre.clients.len(),
        post == (ServerView { clients: pre.clients.update(i, None), ..pre }),
    ensures
        post.wf(),
{
}

impl NetcodeServer {
    /// Encodes one payload packet for a connected client: the frame, sealed
    /// at the connection's next sequence, with the socket and address to
    /// send it to. Fails on an over-long payload, an unknown client, or an
    /// exhausted sequence counter; the sequence advances and the send clock
    /// refreshes on success.
    pub fn generate_payload_packet(&mut self, client_id: u64, payload: &Vec<u8>) -> (r: Result<
        (usize, NetAddr, Vec<u8>),
        NetcodeError,
    >)
        requires
            old(self)@.wf(),
        ensures
            final(self)@.wf(),
            payload@.len() > NETCODE_MAX_PAYLOAD_BYTES ==> final(self)@ == old(self)@ && (
            r matches Err(e) && e == NetcodeError::PayloadAboveLimit),
            payload@.len() <= NETCODE_MAX_PAYLOAD_BYTES && !old(self)@.has_client(client_id)
                ==> final(self)@ == old(self)@ && (r matches Err(e) && e
                == NetcodeError::ClientNotFound),
            payload@.len() <= NETCODE_MAX_PAYLOAD_BYTES && old(self)@.has_client(client_id)
                && old(self)@.client_of(client_id).sequence == u64::MAX ==> final(self)@ == old(self)@ && (r matches Err(e) && e == NetcodeError::SequenceOverflow),
            payload@.len() <= NETCODE_MAX_PAYLOAD_BYTES && old(self)@.has_client(client_id)
                && old(self)@.client_of(client_id).sequence < u64::MAX ==> {
                let c = old(self)@.client_of(client_id);
                let i = old(self)@.client_index(client_id);
                &&& r matches Ok(t) && t.0 == c.socket_id && t.1 == c.addr && {
                    let frame = t.2;
                    if old(self)@.sockets[c.socket_id].needs_encryption {
                        frame@ == sealed_frame(
                            PacketView::Payload { payload: payload@ },
                            old(self)@.protocol_id,
                            c.sequence,
                            c.send_key,
                        ) && opens_to(
                            frame@,
                            old(self)@.protocol_id,
                            c.send_key,
                            c.sequence,
                            PacketView::Payload { payload: payload@ },
                        )
                    } else {
                        frame@ == plain_frame(PacketView::Payload { payload: payload@ }, c.sequence)
                    }
                }
                &&& final(self)@ == (ServerView {
                    clients: old(self)@.clients.update(
                        i,
                        Some(
                            ConnectionView {
                                sequence: (c.sequence + 1) as u64,
                                last_packet_send_time: old(self)@.current_time,
                                ..c
                            },
                        ),
                    ),
                    ..old(self)@
                })
            },
    {
        if payload.len() > NETCODE_MAX_PAYLOAD_BYTES {
            return Err(NetcodeError::PayloadAboveLimit);
        }
        let i = match self.find_client_index(client_id) {
            None => {
                return Err(NetcodeError::ClientNotFound);
            },
            Some(i) => i,
        };
        let c = match &self.clients[i] {
            Some(c) => c,
            None => {
                proof {
                    assert(false);
                }
                return Err(NetcodeError::ClientNotFound);
            },
        };
        if c.sequence == u64::MAX {
            return Err(NetcodeError::SequenceOverflow);
        }
        let needs_encryption = self.sockets[c.socket_id].needs_encryption;
        let packet = Packet::Payload { payload: crate::token::clone_bytes(payload) };
        let frame = match packet.encode(
            self.protocol_id,
            Some((c.sequence, &c.send_key)),
            needs_encryption,
        ) {
            Ok(b) => b,
            Err(e) => {
                proof {
                    assert(false);
                }
                return Err(e);
            },
        };
        let socket_id = c.socket_id;
        let addr = c.addr;
        let mut updated = Self::clone_conn(c);
        updated.sequence = updated.sequence + 1;
        updated.last_packet_send_time = self.current_time;
        let ghost c0 = self@.clients[i as int]->0;
        self.clients.set(i, Some(updated));
        proof {
            assert(final(self)@ =~= (ServerView {
                clients: old(self)@.clients.update(
                    i as int,
                    Some(
                        ConnectionView {
                            sequence: (c0.sequence + 1) as u64,
                            last_packet_send_time: old(self)@.current_time,
                            ..c0
                        },
                    ),
                ),
                ..old(self)@
            }));
            lemma_wf_update_slot(
                old(self)@,
                final(self)@,
                i as int,
                c0,
                final(self)@.clients[i as int]->0,
            );
        }
        Ok((socket_id, addr, frame))
    }

    /// Drives one connected client's clockwork: a silent client past its
    /// timeout is dropped with a best-effort disconnect packet, and an
    /// otherwise idle link is refreshed with a keep-alive at the send rate.
    pub fn update_client(&mut self, client_id: u64) -> (r: ServerResult)
        requires
            old(self)@.wf(),
        ensures
            final(self)@.wf(),
            !old(self)@.has_client(client_id) ==> final(self)@ == old(self)@ && r is NoAction,
            old(self)@.has_client(client_id) ==> {
                let c = old(self)@.client_of(client_id);
                let i = old(self)@.client_index(client_id);
                let timed_out = c.timeout_seconds > 0 && c.last_packet_received_time
                    + c.timeout_seconds * 1000 < old(self)@.current_time;
                let keepalive_due = c.last_packet_send_time + NETCODE_SEND_RATE_MILLIS <= old(self)@.current_time;
                if timed_out {
                    &&& final(self)@ == (ServerView {
                        clients: old(self)@.clients.update(i, None),
                        ..old(self)@
                    })
                    &&& r matches ServerResult::ClientDisconnected {
                        client_id: rid,
                        socket_id,
                        addr,
                        payload,
                    } && rid == client_id && socket_id == c.socket_id && addr == c.addr && (
                    payload matches Some(frame) && (if old(self)@.sockets[c.socket_id].needs_encryption {
                        frame@ == sealed_frame(
                            PacketView::Disconnect,
                            old(self)@.protocol_id,
                            c.sequence,
                            c.send_key,
                        )
                    } else {
                        frame@ == plain_frame(PacketView::Disconnect, c.sequence)
                    }))
                } else if keepalive_due && c.sequence < u64::MAX {
                    &&& final(self)@ == (ServerView {
                        clients: old(self)@.clients.update(
                            i,
                            Some(
                                ConnectionView {
                                    sequence: (c.sequence + 1) as u64,
                                    last_packet_send_time: old(self)@.current_time,
                                    ..c
                                },
                            ),
                        ),
                        ..old(self)@
                    })
                    &&& r matches ServerResult::PacketToSend { socket_id, addr, payload }
                        && socket_id == c.socket_id && addr == c.addr && {
                        let ka = PacketView::KeepAlive {
                            client_index: i as u32,
                            max_clients: old(self)@.max_clients as u32,
                        };
                        if old(self)@.sockets[c.socket_id].needs_encryption {
                            payload@ == sealed_frame(
                                ka,
                                old(self)@.protocol_id,
                                c.sequence,
                                c.send_key,
                            )
                        } else {
                            payload@ == plain_frame(ka, c.sequence)
                        }
                    }
                } else {
                    final(self)@ == old(self)@ && r is NoAction
                }
            },
    {
        let i = match self.find_client_index(client_id) {
            None => {
                return ServerResult::NoAction;
            },
            Some(i) => i,
        };
        let c = match &self.clients[i] {
            Some(c) => c,
            None => {
                proof {
                    assert(false);
                }
                return ServerResult::NoAction;
            },
        };
        let timed_out = c.timeout_seconds > 0 && (c.last_packet_received_time as u128
            + c.timeout_seconds as u128 * 1000) < self.current_time as u128;
        let needs_encryption = self.sockets[c.socket_id].needs_encryption;
        if timed_out {
            let socket_id = c.socket_id;
            let addr = c.addr;
            let packet = Packet::Disconnect;
            let frame = match packet.encode(
                self.protocol_id,
                Some((c.sequence, &c.send_key)),
                needs_encryption,
            ) {
                Ok(b) => b,
                Err(_) => {
                    proof {
                        assert(false);
                    }
                    return ServerResult::NoAction;
                },
            };
            self.clients.set(i, None);
            proof {
                assert(final(self)@ =~= (ServerView {
                    clients: old(self)@.clients.update(i as int, None),
                    ..old(self)@
                }));
                lemma_wf_clear_slot(old(self)@, final(self)@, i as int);
            }
            return ServerResult::ClientDisconnected {
                client_id,
                socket_id,
                addr,
                payload: Some(frame),
            };
        }
        if c.last_packet_send_time as u128 + NETCODE_SEND_RATE_MILLIS as u128
            <= self.current_time as u128 && c.sequence < u64::MAX {
            let socket_id = c.socket_id;
            let addr = c.addr;
            proof {
                assert(i as int <= NETCODE_MAX_CLIENTS);
                assert(self@.max_clients <= NETCODE_MAX_CLIENTS);
            }
            let packet = Packet::KeepAlive {
                client_index: i as u32,
                max_clients: self.max_clients as u32,
            };
            let frame = match packet.encode(
                self.protocol_id,
                Some((c.sequence, &c.send_key)),
                needs_encryption,
            ) {
                Ok(b) => b,
                Err(_) => {
                    proof {
                        assert(false);
                    }
                    return ServerResult::NoAction;
                },
            };
            let mut updated = Self::clone_conn(c);
            updated.sequence = updated.sequence + 1;
            updated.last_packet_send_time = self.current_time;
            let ghost c0 = self@.clients[i as int]->0;
            self.clients.set(i, Some(updated));
            proof {
                assert(final(self)@ =~= (ServerView {
                    clients: old(self)@.clients.update(
                        i as int,
                        Some(
                            ConnectionView {
                                sequence: (c0.sequence + 1) as u64,
                                last_packet_send_time: old(self)@.current_time,
                                ..c0
                            },
                        ),
                    ),
                    ..old(self)@
                }));
                lemma_wf_update_slot(
                    old(self)@,
                    final(self)@,
                    i as int,
                    c0,
                    final(self)@.clients[i as int]->0,
                );
            }
            return ServerResult::PacketToSend { socket_id, addr, payload: frame };
        }
        ServerResult::NoAction
    }

    /// Ends a client's connection and hands back the disconnect packet to
    /// send it. A second call for the same identity does nothing.
    pub fn disconnect(&mut self, client_id: u64) -> (r: ServerResult)
        requires
            old(self)@.wf(),
        ensures
            final(self)@.wf(),
            !old(self)@.has_client(client_id) ==> final(self)@ == old(self)@ && r is NoAction,
            old(self)@.has_client(client_id) ==> {
                let c = old(self)@.client_of(client_id);
                let i = old(self)@.client_index(client_id);
                &&& final(self)@ == (ServerView {
                    clients: old(self)@.clients.update(i, None),
                    ..old(self)@
                })
                &&& !final(self)@.has_client(client_id)
                &&& r matches ServerResult::ClientDisconnected {
                    client_id: rid,
                    socket_id,
                    addr,
                    payload,
                } && rid == client_id && socket_id == c.socket_id && addr == c.addr && (
                payload matches Some(frame) && (if old(self)@.sockets[c.socket_id].needs_encryption {
                    frame@ == sealed_frame(
                        PacketView::Disconnect,
                        old(self)@.protocol_id,
                        c.sequence,
                        c.send_key,
                    )
                } else {
                    frame@ == plain_frame(PacketView::Disconnect, c.sequence)
                }))
            },
    {
        let i = match self.find_client_index(client_id) {
            None => {
                return ServerResult::NoAction;
            },
            Some(i) => i,
        };
        let c = match &self.clients[i] {
            Some(c) => c,
            None => {
                proof {
                    assert(false);
                }
                return ServerResult::NoAction;
            },
        };
        let needs_encryption = self.sockets[c.socket_id].needs_encryption;
        let socket_id = c.socket_id;
        let addr = c.addr;
        let packet = Packet::Disconnect;
        let frame = match packet.encode(
            self.protocol_id,
            Some((c.sequence, &c.send_key)),
            needs_encryption,
        ) {
            Ok(b) => b,
            Err(_) => {
                proof {
                    assert(false);
                }
                return ServerResult::NoAction;
            },
        };
        self.clients.set(i, None);
        proof {
            assert(final(self)@ =~= (ServerView {
                clients: old(self)@.clients.update(i as int, None),
                ..old(self)@
            }));
            lemma_wf_clear_slot(old(self)@, final(self)@, i as int);
            if self@.has_client(client_id) {
                let j = self@.client_index(client_id);
                assert(self@.clients[j] is Some && self@.clients[j]->0.client_id == client_id);
                assert(old(self)@.clients[j] is Some && old(self)@.clients[j]->0.client_id
                    == client_id);
            }
        }
        ServerResult::ClientDisconnected { client_id, socket_id, addr, payload: Some(frame) }
    }
}



/// Whether a token's address list and a socket's advertised addresses
/// share a member.
pub open spec fn host_list_match(token_addrs: Seq<NetAddr>, public_addresses: Seq<NetAddr>) -> bool {
    exists|i: int, j: int|
        0 <= i < token_addrs.len() && 0 <= j < public_addresses.len() && token_addrs[i]
            == public_addresses[j]
}

/// The tag of a request's sealed private section: its last sixteen bytes.
pub open spec fn request_mac(data: Seq<u8>) -> Seq<u8> {
    data.subrange(
        NETCODE_CONNECT_TOKEN_PRIVATE_BYTES - NETCODE_MAC_BYTES,
        NETCODE_CONNECT_TOKEN_PRIVATE_BYTES as int,
    )
}

/// A refusal without a reply packet, aimed back at the requester.
pub open spec fn denied_no_payload(sr: ServerResult, socket_id: usize, addr: NetAddr) -> bool {
    sr matches ServerResult::ConnectionDenied { socket_id: rs, addr: ra, payload } && rs
        == socket_id && ra == addr && payload is None
}

/// The state the ledger reaches once a request is accepted: the section's
/// tag is recorded against the socket and address that presented it. An
/// idempotent retry keeps the slot of the first presentation.
pub open spec fn ledger_records(post: ServerView, mac: Seq<u8>, socket_id: usize, addr: NetAddr) -> bool {
    &&& post.has_mac(mac)
    &&& post.entry_of(mac).socket_id == socket_id as int
    &&& post.entry_of(mac).address == addr
}


/// Two states with the same ledger agree on whether a tag is recorded and
/// on its entry.
proof fn lemma_entry_of_same_ledger(a: ServerView, b: ServerView, mac: Seq<u8>)
    requires
        a.unique_macs(),
        a.token_entries == b.token_entries,
        a.has_mac(mac),
    ensures
        b.has_mac(mac),
        b.entry_of(mac) == a.entry_of(mac),
{
    let i = a.mac_index(mac);
    assert(b.token_entries[i] is Some && b.token_entries[i]->0.mac == mac);
    assert(b.has_mac(mac));
    let m = b.mac_index(mac);
    assert(b.token_entries[m] is Some && b.token_entries[m]->0.mac == mac);
    if m != i {
        assert(a.token_entries[m] is Some && a.token_entries[m]->0.mac == mac);
    }
}

/// A state whose ledger took a new entry at one slot records that entry's
/// tag there.
proof fn lemma_entry_of_after_insert(
    pre_led: Seq<Option<TokenEntryView>>,
    b: ServerView,
    j: int,
    e: TokenEntryView,
)
    requires
        b.unique_macs(),
        0 <= j < pre_led.len(),
        b.token_entries == pre_led.update(j, Some(e)),
    ensures
        b.has_mac(e.mac),
        b.entry_of(e.mac) == e,
{
    assert(b.token_entries[j] == Some(e));
    assert(b.has_mac(e.mac));
    let m = b.mac_index(e.mac);
    assert(b.token_entries[m] is Some && b.token_entries[m]->0.mac == e.mac);
    if m != j {
    }
}


/// After a request records its token, the ledger binds the tag to the
/// presenting pair, whether the tag was fresh or an idempotent retry.
proof fn lemma_request_ledger(
    pre: ServerView,
    post: ServerView,
    had_mac: bool,
    ledger_slot: int,
    e: TokenEntryView,
    mac: Seq<u8>,
)
    requires
        pre.wf(),
        post.wf(),
        e.mac == mac,
        had_mac == pre.has_mac(mac),
        had_mac ==> post.token_entries == pre.token_entries && pre.entry_of(mac).socket_id
            == e.socket_id && pre.entry_of(mac).address == e.address,
        !had_mac ==> 0 <= ledger_slot < pre.token_entries.len() && post.token_entries
            == pre.token_entries.update(ledger_slot, Some(e)),
    ensures
        post.has_mac(mac),
        post.entry_of(mac).socket_id == e.socket_id,
        post.entry_of(mac).address == e.address,
{
    if had_mac {
        lemma_entry_of_same_ledger(pre, post, mac);
    } else {
        lemma_entry_of_after_insert(pre.token_entries, post, ledger_slot, e);
    }
}

/// What a connection request whose token opened to `t0` must produce, in
/// the order the checks run: socket binding, the host list when secure, the
/// exhaustion guard on the sequence counters, collision and capacity rules,
/// single-address token redemption, then either the sealed denial or the
/// accepted handshake with its sealed challenge.
pub open spec fn token_request_outcome(
    pre: ServerView,
    post: ServerView,
    r: Result<ServerResult, NetcodeError>,
    socket_id: usize,
    addr: NetAddr,
    expire_timestamp: u64,
    mac: Seq<u8>,
    t0: PrivateTokenView,
) -> bool {
    let sid = socket_id as int;
    let needs_encryption = pre.sockets[sid].needs_encryption;
    if t0.socket_id as int != sid {
        r == Err::<ServerResult, NetcodeError>(NetcodeError::InvalidSocketId)
    } else if pre.secure && !host_list_match(
        t0.server_addresses,
        pre.sockets[sid].public_addresses,
    ) {
        r == Err::<ServerResult, NetcodeError>(NetcodeError::NotInHostList)
    } else if pre.challenge_sequence == u64::MAX || pre.global_sequence == u64::MAX {
        r == Err::<ServerResult, NetcodeError>(NetcodeError::SequenceOverflow)
    } else if pre.has_peer_at(sid, addr) {
        if pre.clients[pre.peer_index(sid, addr)]->0.client_id == t0.client_id {
            r matches Ok(sr) && sr is NoAction && post == pre
        } else {
            r matches Ok(sr) && denied_no_payload(sr, socket_id, addr) && post == pre
        }
    } else if pre.has_client(t0.client_id) {
        r matches Ok(sr) && denied_no_payload(sr, socket_id, addr) && post == pre
    } else if !pre.has_pending_at(sid, addr) && pre.pending.len()
        >= NETCODE_MAX_PENDING_CLIENTS {
        r matches Ok(sr) && denied_no_payload(sr, socket_id, addr) && post == pre
    } else if pre.has_mac(mac) && !(pre.entry_of(mac).socket_id == sid && pre.entry_of(mac).address
        == addr) {
        r matches Ok(sr) && denied_no_payload(sr, socket_id, addr) && post == pre
    } else if count_some(pre.clients) >= pre.max_clients {
        r matches Ok(sr) && sr matches ServerResult::ConnectionDenied {
            socket_id: rs,
            addr: ra,
            payload,
        } && rs == socket_id && ra == addr && (payload matches Some(frame) && (
        if needs_encryption {
            frame@ == sealed_frame(
                PacketView::ConnectionDenied,
                pre.protocol_id,
                pre.global_sequence,
                t0.server_to_client_key,
            )
        } else {
            frame@ == plain_frame(PacketView::ConnectionDenied, pre.global_sequence)
        })) && post.global_sequence == pre.global_sequence + 1 && !post.has_pending_at(sid, addr)
            && post.clients == pre.clients && ledger_records(post, mac, socket_id, addr)
    } else {
        let challenge = PacketView::Challenge {
            token_sequence: (pre.challenge_sequence + 1) as u64,
            token_data: crate::crypto::cseal_of(
                pre.challenge_key,
                seq_nonce((pre.challenge_sequence + 1) as u64),
                Seq::empty(),
                challenge_plain(
                    ChallengeTokenView { client_id: t0.client_id, user_data: t0.user_data },
                ),
            ),
        };
        r matches Ok(sr) && sr matches ServerResult::ConnectionAccepted {
            client_id,
            socket_id: rs,
            addr: ra,
            payload,
        } && client_id == t0.client_id && rs == socket_id && ra == addr && (if needs_encryption {
            payload@ == sealed_frame(
                challenge,
                pre.protocol_id,
                pre.global_sequence,
                t0.server_to_client_key,
            )
        } else {
            payload@ == plain_frame(challenge, pre.global_sequence)
        }) && post.global_sequence == pre.global_sequence + 1 && post.challenge_sequence
            == pre.challenge_sequence + 1 && post.clients == pre.clients && ledger_records(
            post,
            mac,
            socket_id,
            addr,
        ) && post.has_pending_at(sid, addr) && (!pre.has_pending_at(sid, addr)
            ==> exists|rp: ReplayView|
            {
                &&& #[trigger] rp.wf()
                &&& (forall|q: u64| !rp.blocked(q))
                &&& post.pending == pre.pending.push(
                    ConnectionView {
                        confirmed: false,
                        client_id: t0.client_id,
                        send_key: t0.server_to_client_key,
                        receive_key: t0.client_to_server_key,
                        user_data: t0.user_data,
                        socket_id: sid,
                        addr,
                        last_packet_received_time: pre.current_time,
                        last_packet_send_time: pre.current_time,
                        timeout_seconds: t0.timeout_seconds,
                        sequence: 0,
                        expire_timestamp,
                        replay: rp,
                    },
                )
            }) && (pre.has_pending_at(sid, addr) ==> post.pending == pre.pending.update(
            pre.pending_index(sid, addr),
            ConnectionView {
                last_packet_received_time: pre.current_time,
                last_packet_send_time: pre.current_time,
                ..pre.pending[pre.pending_index(sid, addr)]
            },
        ))
    }
}

/// What one connection request must produce: the validation chain in check
/// order — version, protocol id, expiry, section length, the seal opening
/// under the server key — and, for whatever private token the section
/// opened to, `token_request_outcome`. Every refusal leaves the server
/// untouched.
pub open spec fn request_outcome(
    pre: ServerView,
    post: ServerView,
    r: Result<ServerResult, NetcodeError>,
    socket_id: usize,
    addr: NetAddr,
    version_info: Seq<u8>,
    protocol_id: u64,
    expire_timestamp: u64,
    xnonce: Seq<u8>,
    data: Seq<u8>,
) -> bool {
    let opened = crate::crypto::xopen_of(
        pre.connect_key,
        xnonce,
        token_aad(protocol_id, expire_timestamp),
        data,
    );
    let prevalid = version_info == crate::spec_version_info() && protocol_id == pre.protocol_id
        && pre.current_time / 1000 < expire_timestamp && data.len()
        == NETCODE_CONNECT_TOKEN_PRIVATE_BYTES;
    &&& (r is Err ==> post == pre)
    &&& (version_info != crate::spec_version_info() ==> r == Err::<
        ServerResult,
        NetcodeError,
    >(NetcodeError::InvalidVersion))
    &&& (version_info == crate::spec_version_info() && protocol_id != pre.protocol_id ==> r
        == Err::<ServerResult, NetcodeError>(NetcodeError::InvalidProtocolID))
    &&& (version_info == crate::spec_version_info() && protocol_id == pre.protocol_id
        && pre.current_time / 1000 >= expire_timestamp ==> r == Err::<
        ServerResult,
        NetcodeError,
    >(NetcodeError::Expired))
    &&& (version_info == crate::spec_version_info() && protocol_id == pre.protocol_id
        && pre.current_time / 1000 < expire_timestamp && data.len()
        != NETCODE_CONNECT_TOKEN_PRIVATE_BYTES ==> r == Err::<
        ServerResult,
        NetcodeError,
    >(NetcodeError::BufferTooSmall))
    &&& (prevalid && opened is None ==> r == Err::<
        ServerResult,
        NetcodeError,
    >(NetcodeError::CryptoError))
    &&& (prevalid ==> forall|t0: PrivateTokenView|
        t0.wf() && opened == Some(private_padded(t0)) ==> token_request_outcome(
            pre,
            post,
            r,
            socket_id,
            addr,
            expire_timestamp,
            request_mac(data),
            t0,
        ))
}

impl NetcodeServer {
    /// Whether any of the token's addresses is served by the socket.
    fn address_in_host_list(&self, socket_id: usize, token_addrs: &Vec<NetAddr>) -> (r: bool)
        requires
            self@.wf(),
            socket_id < self@.sockets.len(),
        ensures
            r == host_list_match(
                token_addrs@,
                self@.sockets[socket_id as int].public_addresses,
            ),
    {
        let n: usize = token_addrs.len();
        let m: usize = self.sockets[socket_id].public_addresses.len();
        let mut i: usize = 0;
        while i < n
            invariant
                i <= n == token_addrs@.len(),
                m == self@.sockets[socket_id as int].public_addresses.len(),
                socket_id < self@.sockets.len(),
                self@.wf(),
                forall|i0: int, j0: int|
                    0 <= i0 < i && 0 <= j0 < m ==> token_addrs@[i0]
                        != self@.sockets[socket_id as int].public_addresses[j0],
            decreases n - i,
        {
            let mut j: usize = 0;
            while j < m
                invariant
                    j <= m == self@.sockets[socket_id as int].public_addresses.len(),
                    i < n == token_addrs@.len(),
                    socket_id < self@.sockets.len(),
                    self@.wf(),
                    forall|j0: int|
                        0 <= j0 < j ==> token_addrs@[i as int]
                            != self@.sockets[socket_id as int].public_addresses[j0],
                decreases m - j,
            {
                if token_addrs[i] == self.sockets[socket_id].public_addresses[j] {
                    return true;
                }
                j = j + 1;
            }
            i = i + 1;
        }
        false
    }

    /// Handles a validated-shape connection request: authenticates the
    /// carried token, enforces the socket binding, the host list when
    /// secure, single-address token redemption and the pending and
    /// admission limits, then records the handshake and returns the sealed
    /// challenge. `request_outcome` states the whole exchange.
    fn handle_connection_request(
        &mut self,
        socket_id: usize,
        addr: NetAddr,
        version_info: &Vec<u8>,
        protocol_id: u64,
        expire_timestamp: u64,
        xnonce: &Vec<u8>,
        data: &Vec<u8>,
    ) -> (r: Result<ServerResult, NetcodeError>)
        requires
            old(self)@.wf(),
            socket_id < old(self)@.sockets.len(),
            xnonce@.len() == crate::NETCODE_CONNECT_TOKEN_XNONCE_BYTES,
        ensures
            final(self)@.wf(),
            final(self)@.clients == old(self)@.clients,
            final(self)@.current_time == old(self)@.current_time,
            final(self)@.sockets == old(self)@.sockets,
            final(self)@.protocol_id == old(self)@.protocol_id,
            final(self)@.max_clients == old(self)@.max_clients,
            final(self)@.secure == old(self)@.secure,
            final(self)@.connect_key == old(self)@.connect_key,
            final(self)@.challenge_key == old(self)@.challenge_key,
            r matches Ok(sr) && sr is ConnectionAccepted ==> final(self)@.has_pending_at(
                socket_id as int,
                addr,
            ),
            r matches Ok(sr) ==> !(sr is Payload) && !(sr is ClientConnected) && !(
            sr is PacketToSend) && !(sr is ClientDisconnected) && !(sr is Error),
            request_outcome(
                old(self)@,
                final(self)@,
                r,
                socket_id,
                addr,
                version_info@,
                protocol_id,
                expire_timestamp,
                xnonce@,
                data@,
            ),
    {
        let ghost opened0 = crate::crypto::xopen_of(
            old(self)@.connect_key,
            xnonce@,
            token_aad(protocol_id, expire_timestamp),
            data@,
        );
        if !crate::bytes::bytes_equal(version_info, &crate::version_info()) {
            return Err(NetcodeError::InvalidVersion);
        }
        if protocol_id != self.protocol_id {
            return Err(NetcodeError::InvalidProtocolID);
        }
        if self.current_time / 1000 >= expire_timestamp {
            return Err(NetcodeError::Expired);
        }
        if data.len() != crate::NETCODE_CONNECT_TOKEN_PRIVATE_BYTES {
            return Err(NetcodeError::BufferTooSmall);
        }
        let ghost mac0 = request_mac(data@);
        let connect_token = match PrivateConnectToken::decode(
            data,
            self.protocol_id,
            expire_timestamp,
            xnonce,
            &self.connect_key,
        ) {
            Ok(t) => t,
            Err(e) => {
                return Err(e);
            },
        };
        if connect_token.socket_id as usize != socket_id {
            return Err(NetcodeError::InvalidSocketId);
        }
        if self.secure {
            if !self.address_in_host_list(socket_id, &connect_token.server_addresses) {
                return Err(NetcodeError::NotInHostList);
            }
        }
        if self.challenge_sequence == u64::MAX || self.global_sequence == u64::MAX {
            return Err(NetcodeError::SequenceOverflow);
        }
        match self.find_addr_index(socket_id, &addr) {
            Some(i) => {
                let same = match &self.clients[i] {
                    Some(c) => c.client_id == connect_token.client_id,
                    None => false,
                };
                if same {
                    return Ok(ServerResult::NoAction);
                } else {
                    return Ok(
                        ServerResult::ConnectionDenied { socket_id, addr, payload: None },
                    );
                }
            },
            None => {},
        }
        if self.find_client_index(connect_token.client_id).is_some() {
            return Ok(ServerResult::ConnectionDenied { socket_id, addr, payload: None });
        }
        let pending_idx = self.find_pending_index(socket_id, &addr);
        if pending_idx.is_none() && self.pending_clients.len() >= NETCODE_MAX_PENDING_CLIENTS {
            return Ok(ServerResult::ConnectionDenied { socket_id, addr, payload: None });
        }
        let entry = ConnectTokenEntry {
            time: self.current_time,
            socket_id,
            address: addr,
            mac: crate::bytes::read_bytes(
                data,
                crate::NETCODE_CONNECT_TOKEN_PRIVATE_BYTES - NETCODE_MAC_BYTES,
                NETCODE_MAC_BYTES,
            ),
        };
        proof {
            assert(entry@.mac =~= mac0);
        }
        if !self.find_or_add_connect_token_entry(&entry) {
            return Ok(ServerResult::ConnectionDenied { socket_id, addr, payload: None });
        }
        let ghost had_mac = old(self)@.has_mac(mac0);
        let ghost ledger_slot: int = if !had_mac {
            choose|j: int|
                0 <= j < old(self)@.token_entries.len() && self@ == (ServerView {
                    token_entries: #[trigger] old(self)@.token_entries.update(j, Some(entry@)),
                    ..old(self)@
                })
        } else {
            0
        };
        let needs_encryption = self.sockets[socket_id].needs_encryption;
        if self.connected_clients() >= self.max_clients {
            match self.find_pending_index(socket_id, &addr) {
                Some(j) => {
                    let ghost mid = self@;
                    self.pending_clients.remove(j);
                    proof {
                        assert(mid.wf());
                        assert(self@ =~= (ServerView { pending: mid.pending.remove(j as int), ..mid }));
                        lemma_wf_remove_pending(mid, self@, mid.pending, j as int);
                        assert forall|k: int|
                            0 <= k < self@.pending.len() implies !(self@.pending[k].socket_id
                            == socket_id && self@.pending[k].addr == addr) by {
                            let sk = if k < j as int {
                                k
                            } else {
                                k + 1
                            };
                            assert(self@.pending[k] == mid.pending[sk]);
                        }
                    }
                },
                None => {},
            }
            let packet = Packet::ConnectionDenied;
            let frame = match packet.encode(
                self.protocol_id,
                Some((self.global_sequence, &connect_token.server_to_client_key)),
                needs_encryption,
            ) {
                Ok(b) => b,
                Err(e) => {
                    proof {
                        assert(false);
                    }
                    return Err(e);
                },
            };
            self.global_sequence = self.global_sequence + 1;
            let result = ServerResult::ConnectionDenied { socket_id, addr, payload: Some(frame) };
            proof {
                lemma_request_ledger(old(self)@, self@, had_mac, ledger_slot, entry@, mac0);
                assert forall|t0: PrivateTokenView|
                    t0.wf() && opened0 == Some(private_padded(t0)) implies token_request_outcome(
                    old(self)@,
                    self@,
                    Ok(result),
                    socket_id,
                    addr,
                    expire_timestamp,
                    mac0,
                    t0,
                ) by {
                    assert(connect_token@ == t0);
                }
            }
            return Ok(result);
        }
        self.challenge_sequence = self.challenge_sequence + 1;
        let challenge = ChallengeToken {
            client_id: connect_token.client_id,
            user_data: crate::token::clone_bytes(&connect_token.user_data),
        };
        let token_data = challenge.seal(self.challenge_sequence, &self.challenge_key);
        let packet = Packet::Challenge { token_sequence: self.challenge_sequence, token_data };
        let frame = match packet.encode(
            self.protocol_id,
            Some((self.global_sequence, &connect_token.server_to_client_key)),
            needs_encryption,
        ) {
            Ok(b) => b,
            Err(e) => {
                proof {
                    assert(false);
                }
                return Err(e);
            },
        };
        self.global_sequence = self.global_sequence + 1;
        match self.find_pending_index(socket_id, &addr) {
            Some(j) => {
                let mut refreshed = Self::clone_conn(&self.pending_clients[j]);
                refreshed.last_packet_received_time = self.current_time;
                refreshed.last_packet_send_time = self.current_time;
                let ghost mid = self@;
                self.pending_clients.set(j, refreshed);
                proof {
                    assert(mid.wf());
                    assert(self@ =~= (ServerView {
                        pending: mid.pending.update(j as int, refreshed@),
                        ..mid
                    }));
                    lemma_wf_set_pending(mid, self@, mid.pending, j as int);
                    assert(self@.has_pending_at(socket_id as int, addr)) by {
                        assert(self@.pending[j as int].socket_id == socket_id
                            && self@.pending[j as int].addr == addr);
                    }
                    assert(refreshed@ =~= (ConnectionView {
                        last_packet_received_time: old(self)@.current_time,
                        last_packet_send_time: old(self)@.current_time,
                        ..old(self)@.pending[j as int]
                    }));
                    assert(self@.pending =~= old(self)@.pending.update(j as int, refreshed@));
                }
            },
            None => {
                let fresh = Connection {
                    confirmed: false,
                    client_id: connect_token.client_id,
                    send_key: connect_token.server_to_client_key,
                    receive_key: connect_token.client_to_server_key,
                    user_data: connect_token.user_data,
                    socket_id,
                    addr,
                    last_packet_received_time: self.current_time,
                    last_packet_send_time: self.current_time,
                    timeout_seconds: connect_token.timeout_seconds,
                    sequence: 0,
                    expire_timestamp,
                    replay_protection: ReplayProtection::new(),
                };
                let ghost mid = self@;
                self.pending_clients.push(fresh);
                proof {
                    assert(mid.wf());
                    assert(!mid.has_peer_at(socket_id as int, addr)) by {
                        if mid.has_peer_at(socket_id as int, addr) {
                            let w = choose|w: int|
                                0 <= w < mid.clients.len() && mid.clients[w] is Some
                                    && mid.clients[w]->0.socket_id == socket_id
                                    && mid.clients[w]->0.addr == addr;
                            assert(old(self)@.clients[w] is Some
                                && old(self)@.clients[w]->0.socket_id == socket_id
                                && old(self)@.clients[w]->0.addr == addr);
                            assert(old(self)@.has_peer_at(socket_id as int, addr));
                        }
                    }
                    assert(self@ =~= (ServerView { pending: mid.pending.push(fresh@), ..mid }));
                    lemma_wf_push_pending(mid, self@, mid.pending, fresh@);
                    assert(self@.has_pending_at(socket_id as int, addr)) by {
                        assert(self@.pending[self@.pending.len() - 1].socket_id == socket_id
                            && self@.pending[self@.pending.len() - 1].addr == addr);
                    }
                    assert(self@.pending =~= old(self)@.pending.push(fresh@));
                }
            },
        }
        let result = ServerResult::ConnectionAccepted {
            client_id: challenge.client_id,
            socket_id,
            addr,
            payload: frame,
        };
        proof {
            lemma_request_ledger(old(self)@, self@, had_mac, ledger_slot, entry@, mac0);
            assert forall|t0: PrivateTokenView|
                t0.wf() && opened0 == Some(private_padded(t0)) implies token_request_outcome(
                old(self)@,
                self@,
                Ok(result),
                socket_id,
                addr,
                expire_timestamp,
                mac0,
                t0,
            ) by {
                assert(connect_token@ == t0);
                if !old(self)@.has_pending_at(socket_id as int, addr) {
                    let cv = ConnectionView {
                        confirmed: false,
                        client_id: t0.client_id,
                        send_key: t0.server_to_client_key,
                        receive_key: t0.client_to_server_key,
                        user_data: t0.user_data,
                        socket_id: socket_id as int,
                        addr,
                        last_packet_received_time: old(self)@.current_time,
                        last_packet_send_time: old(self)@.current_time,
                        timeout_seconds: t0.timeout_seconds,
                        sequence: 0,
                        expire_timestamp,
                        replay: self@.pending[self@.pending.len() - 1].replay,
                    };
                    let rp = cv.replay;
                    assert(rp.wf() && (forall|q: u64| !rp.blocked(q)) && self@.pending == old(
                        self,
                    )@.pending.push(cv)) by {
                        assert(self@.pending[self@.pending.len() - 1] =~= cv);
                        assert(self@.pending =~= old(self)@.pending.push(cv));
                    }
                }
            }
        }
        Ok(result)
    }
}

/// Removing one pending handshake keeps the server invariant.
proof fn lemma_wf_remove_pending(pre: ServerView, post: ServerView, pend_pre: Seq<ConnectionView>, j: int)
    requires
        pre.wf(),
        pend_pre == pre.pending,
        0 <= j < pend_pre.len(),
        post == (ServerView { pending: pend_pre.remove(j), ..pre }),
    ensures
        post.wf(),
{
    assert forall|i1: int, i2: int|
        0 <= i1 < i2 < post.pending.len() implies !(post.pending[i1].socket_id
        == post.pending[i2].socket_id && post.pending[i1].addr == post.pending[i2].addr) by {
        let s1 = if i1 < j { i1 } else { i1 + 1 };
        let s2 = if i2 < j { i2 } else { i2 + 1 };
        assert(post.pending[i1] == pend_pre[s1]);
        assert(post.pending[i2] == pend_pre[s2]);
    }
    assert forall|i0: int, k: int|
        0 <= i0 < post.clients.len() && post.clients[i0] is Some && 0 <= k
            < post.pending.len() implies !(post.clients[i0]->0.socket_id
        == post.pending[k].socket_id && post.clients[i0]->0.addr == post.pending[k].addr) by {
        let sk = if k < j { k } else { k + 1 };
        assert(post.pending[k] == pend_pre[sk]);
    }
    assert forall|k: int| 0 <= k < post.pending.len() implies conn_wf(
        post.pending[k],
        post.sockets.len() as int,
        post.current_time,
    ) by {
        let sk = if k < j { k } else { k + 1 };
        assert(post.pending[k] == pend_pre[sk]);
    }
}

/// Refreshing the clocks of one pending handshake keeps the server
/// invariant.
proof fn lemma_wf_set_pending(pre: ServerView, post: ServerView, pend_pre: Seq<ConnectionView>, j: int)
    requires
        pre.wf(),
        pend_pre == pre.pending,
        0 <= j < pend_pre.len(),
        post == (ServerView { pending: pend_pre.update(j, post.pending[j]), ..pre }),
        post.pending[j].socket_id == pend_pre[j].socket_id,
        post.pending[j].addr == pend_pre[j].addr,
        conn_wf(post.pending[j], pre.sockets.len() as int, pre.current_time),
    ensures
        post.wf(),
{
    assert forall|i1: int, i2: int|
        0 <= i1 < i2 < post.pending.len() implies !(post.pending[i1].socket_id
        == post.pending[i2].socket_id && post.pending[i1].addr == post.pending[i2].addr) by {
        assert(pend_pre[i1].socket_id == post.pending[i1].socket_id && pend_pre[i1].addr
            == post.pending[i1].addr);
        assert(pend_pre[i2].socket_id == post.pending[i2].socket_id && pend_pre[i2].addr
            == post.pending[i2].addr);
    }
    assert forall|i0: int, k: int|
        0 <= i0 < post.clients.len() && post.clients[i0] is Some && 0 <= k
            < post.pending.len() implies !(post.clients[i0]->0.socket_id
        == post.pending[k].socket_id && post.clients[i0]->0.addr == post.pending[k].addr) by {
        assert(pend_pre[k].socket_id == post.pending[k].socket_id && pend_pre[k].addr
            == post.pending[k].addr);
    }
}

/// Adding a handshake for a pair that is neither pending nor admitted
/// keeps the server invariant.
proof fn lemma_wf_push_pending(pre: ServerView, post: ServerView, pend_pre: Seq<ConnectionView>, c: ConnectionView)
    requires
        pre.wf(),
        pend_pre == pre.pending,
        pend_pre.len() < NETCODE_MAX_PENDING_CLIENTS,
        post == (ServerView { pending: pend_pre.push(c), ..pre }),
        conn_wf(c, pre.sockets.len() as int, pre.current_time),
        !pre.has_pending_at(c.socket_id, c.addr),
        !pre.has_peer_at(c.socket_id, c.addr),
    ensures
        post.wf(),
{
    assert forall|i1: int, i2: int|
        0 <= i1 < i2 < post.pending.len() implies !(post.pending[i1].socket_id
        == post.pending[i2].socket_id && post.pending[i1].addr == post.pending[i2].addr) by {
        if i2 == post.pending.len() - 1 {
            assert(post.pending[i1] == pend_pre[i1]);
            if pend_pre[i1].socket_id == c.socket_id && pend_pre[i1].addr == c.addr {
                assert(pre.has_pending_at(c.socket_id, c.addr));
            }
        }
    }
    assert forall|i0: int, k: int|
        0 <= i0 < post.clients.len() && post.clients[i0] is Some && 0 <= k
            < post.pending.len() implies !(post.clients[i0]->0.socket_id
        == post.pending[k].socket_id && post.clients[i0]->0.addr == post.pending[k].addr) by {
        if k == post.pending.len() - 1 {
            if post.clients[i0]->0.socket_id == c.socket_id && post.clients[i0]->0.addr == c.addr {
                assert(pre.has_peer_at(c.socket_id, c.addr));
            }
        }
    }
}



/// The result the caller sees once an internal refusal is absorbed: the
/// inner result as it stands, or `Error` aimed back at the sender.
pub open spec fn absorbed(
    rr: Result<ServerResult, NetcodeError>,
    socket_id: usize,
    addr: NetAddr,
) -> ServerResult {
    match rr {
        Ok(sr) => sr,
        Err(_) => ServerResult::Error { socket_id, addr },
    }
}

/// What one frame from a connected peer must produce: replayed sequences
/// are refused untouched; otherwise a payload is surfaced and confirms the
/// peer, a keep-alive confirms it silently, a disconnect frees the slot,
/// and anything else only refreshes the receive clock. Every accepted
/// sequence is recorded in the peer's replay filter.
pub open spec fn connected_packet_outcome(
    pre: ServerView,
    post: ServerView,
    r: Result<ServerResult, NetcodeError>,
    socket_id: usize,
    addr: NetAddr,
    s: u64,
    p: PacketView,
) -> bool {
    let i = pre.peer_index(socket_id as int, addr);
    let c = pre.clients[i]->0;
    if c.replay.blocked(s) || s == crate::replay::REPLAY_EMPTY_SLOT {
        r == Err::<ServerResult, NetcodeError>(NetcodeError::DuplicatedSequence) && post == pre
    } else {
        match p {
            PacketView::Payload { payload } => r matches Ok(sr) && sr
                matches ServerResult::Payload { client_id, payload: delivered } && client_id
                == c.client_id && delivered@ == payload && post == (ServerView {
                clients: pre.clients.update(
                    i,
                    Some(
                        ConnectionView {
                            confirmed: true,
                            last_packet_received_time: pre.current_time,
                            replay: c.replay.advance(s),
                            ..c
                        },
                    ),
                ),
                ..pre
            }),
            PacketView::KeepAlive { .. } => r matches Ok(sr) && sr is NoAction && post
                == (ServerView {
                clients: pre.clients.update(
                    i,
                    Some(
                        ConnectionView {
                            confirmed: true,
                            last_packet_received_time: pre.current_time,
                            replay: c.replay.advance(s),
                            ..c
                        },
                    ),
                ),
                ..pre
            }),
            PacketView::Disconnect => r matches Ok(sr) && sr
                matches ServerResult::ClientDisconnected {
                client_id,
                socket_id: rs,
                addr: ra,
                payload,
            } && client_id == c.client_id && rs == socket_id && ra == addr && payload is None
                && post == (ServerView { clients: pre.clients.update(i, None), ..pre }),
            _ => r matches Ok(sr) && sr is NoAction && post == (ServerView {
                clients: pre.clients.update(
                    i,
                    Some(
                        ConnectionView {
                            last_packet_received_time: pre.current_time,
                            replay: c.replay.advance(s),
                            ..c
                        },
                    ),
                ),
                ..pre
            }),
        }
    }
}

/// The admission decision on a valid challenge response from a pending
/// handshake: a held identity or a challenge for another identity drops
/// the handshake silently; a full table answers with a sealed denial at
/// the old global sequence; otherwise the peer takes the first free slot,
/// carrying the challenge's user data, and is sent the keep-alive sealed
/// at the handshake's send sequence.
pub open spec fn response_outcome(
    pre: ServerView,
    post: ServerView,
    r: Result<ServerResult, NetcodeError>,
    socket_id: usize,
    addr: NetAddr,
    s: u64,
    ch0: ChallengeTokenView,
) -> bool {
    let sid = socket_id as int;
    let j = pre.pending_index(sid, addr);
    let pc = pre.pending[j];
    let needs_encryption = pre.sockets[sid].needs_encryption;
    if pre.has_client(ch0.client_id) {
        r matches Ok(sr) && sr is NoAction && post == (ServerView {
            pending: pre.pending.remove(j),
            ..pre
        })
    } else if ch0.client_id != pc.client_id {
        r matches Ok(sr) && sr is NoAction && post == (ServerView {
            pending: pre.pending.remove(j),
            ..pre
        })
    } else if forall|k: int| 0 <= k < pre.clients.len() ==> pre.clients[k] is Some {
        r matches Ok(sr) && sr matches ServerResult::ConnectionDenied {
            socket_id: rs,
            addr: ra,
            payload,
        } && rs == socket_id && ra == addr && (payload matches Some(frame) && (
        if needs_encryption {
            frame@ == sealed_frame(
                PacketView::ConnectionDenied,
                pre.protocol_id,
                pre.global_sequence,
                pc.send_key,
            )
        } else {
            frame@ == plain_frame(PacketView::ConnectionDenied, pre.global_sequence)
        })) && post == (ServerView {
            pending: pre.pending.remove(j),
            global_sequence: (pre.global_sequence + 1) as u64,
            ..pre
        })
    } else {
        exists|slot: int|
            #![trigger pre.clients[slot]]
            {
                &&& 0 <= slot < pre.clients.len()
                &&& pre.clients[slot] is None
                &&& (forall|k: int| 0 <= k < slot ==> pre.clients[k] is Some)
                &&& r matches Ok(sr) && sr matches ServerResult::ClientConnected {
                    client_id,
                    socket_id: rs,
                    addr: ra,
                    user_data,
                    payload,
                } && client_id == pc.client_id && rs == socket_id && ra == addr && user_data@
                    == ch0.user_data && ({
                    let ka = PacketView::KeepAlive {
                        client_index: slot as u32,
                        max_clients: pre.max_clients as u32,
                    };
                    if needs_encryption {
                        payload@ == sealed_frame(ka, pre.protocol_id, pc.sequence, pc.send_key)
                    } else {
                        payload@ == plain_frame(ka, pc.sequence)
                    }
                })
                &&& post == (ServerView {
                    pending: pre.pending.remove(j),
                    clients: pre.clients.update(
                        slot,
                        Some(
                            ConnectionView {
                                user_data: ch0.user_data,
                                sequence: (pc.sequence + 1) as u64,
                                last_packet_received_time: pre.current_time,
                                last_packet_send_time: pre.current_time,
                                replay: pc.replay.advance(s),
                                ..pc
                            },
                        ),
                    ),
                    ..pre
                })
            }
    }
}

/// What one frame from a pending handshake must produce: a challenge
/// response passes replay protection and the counter guard, opens under
/// the challenge key, and is judged by `response_outcome`; any other kind
/// only refreshes the handshake's receive clock.
pub open spec fn pending_packet_outcome(
    pre: ServerView,
    post: ServerView,
    r: Result<ServerResult, NetcodeError>,
    socket_id: usize,
    addr: NetAddr,
    s: u64,
    p: PacketView,
) -> bool {
    let j = pre.pending_index(socket_id as int, addr);
    let pc = pre.pending[j];
    match p {
        PacketView::Response { token_sequence, token_data } => {
            if pc.replay.blocked(s) || s == crate::replay::REPLAY_EMPTY_SLOT {
                r == Err::<ServerResult, NetcodeError>(NetcodeError::DuplicatedSequence) && post
                    == pre
            } else if pc.sequence == u64::MAX || pre.global_sequence == u64::MAX {
                r == Err::<ServerResult, NetcodeError>(NetcodeError::SequenceOverflow) && post
                    == pre
            } else {
                let copened = crate::crypto::copen_of(
                    pre.challenge_key,
                    seq_nonce(token_sequence),
                    Seq::empty(),
                    token_data,
                );
                &&& (copened is None ==> r == Err::<
                    ServerResult,
                    NetcodeError,
                >(NetcodeError::CryptoError) && post == pre)
                &&& (forall|ch0: ChallengeTokenView|
                    ch0.wf() && copened == Some(challenge_plain(ch0)) ==> response_outcome(
                        pre,
                        post,
                        r,
                        socket_id,
                        addr,
                        s,
                        ch0,
                    ))
            }
        },
        PacketView::ConnectionRequest { .. } => true,
        _ => r matches Ok(sr) && sr is NoAction && post == (ServerView {
            pending: pre.pending.update(
                j,
                ConnectionView { last_packet_received_time: pre.current_time, ..pc },
            ),
            ..pre
        }),
    }
}

impl NetcodeServer {
    /// Decodes and applies one inbound frame from `(socket_id, addr)`.
    /// Errors are absorbed into `ServerResult::Error`; every other outcome
    /// names what the caller must send or surface.
    pub fn process_packet(&mut self, socket_id: usize, addr: NetAddr, buffer: &Vec<u8>) -> (r:
        ServerResult)
        requires
            old(self)@.wf(),
        ensures
            final(self)@.wf(),
            final(self)@.current_time == old(self)@.current_time,
            final(self)@.sockets == old(self)@.sockets,
            final(self)@.protocol_id == old(self)@.protocol_id,
            final(self)@.max_clients == old(self)@.max_clients,
            final(self)@.secure == old(self)@.secure,
            final(self)@.connect_key == old(self)@.connect_key,
            final(self)@.challenge_key == old(self)@.challenge_key,
            final(self)@.clients.len() == old(self)@.clients.len(),
            forall|i: int|
                0 <= i < old(self)@.clients.len() && old(self)@.clients[i] is Some && final(self)@.clients[i] is Some && final(self)@.clients[i]->0.client_id == old(self)@.clients[i]->0.client_id ==> final(self)@.clients[i]->0.sequence >= old(self)@.clients[i]->0.sequence,
            r matches ServerResult::Payload { client_id, .. } ==> old(self)@.has_peer_at(
                socket_id as int,
                addr,
            ) && old(self)@.clients[old(self)@.peer_index(socket_id as int, addr)]->0.client_id
                == client_id,
            r matches ServerResult::ClientConnected { client_id, .. } ==> !old(self)@.has_client(client_id) && final(self)@.has_client(client_id),
            r matches ServerResult::ClientConnected { .. } ==> old(self)@.has_pending_at(
                socket_id as int,
                addr,
            ) && !final(self)@.has_pending_at(socket_id as int, addr),
            r matches ServerResult::ClientDisconnected { .. } ==> old(self)@.has_peer_at(
                socket_id as int,
                addr,
            ) && !final(self)@.has_peer_at(socket_id as int, addr),
            r is Error ==> final(self)@ == old(self)@,
            forall|p0: PacketView|
                p0.wf() && p0 is ConnectionRequest && buffer@ == request_frame(p0) && socket_id
                    < old(self)@.sockets.len() && buffer@.len() >= 2 + NETCODE_MAC_BYTES ==> {
                    &&& (old(self)@.has_peer_at(socket_id as int, addr) ==> r is NoAction
                        && final(self)@ == old(self)@)
                    &&& (!old(self)@.has_peer_at(socket_id as int, addr) ==> exists|
                        rr: Result<ServerResult, NetcodeError>,
                    |
                        #[trigger] request_outcome(
                            old(self)@,
                            final(self)@,
                            rr,
                            socket_id,
                            addr,
                            p0->ConnectionRequest_version_info,
                            p0->ConnectionRequest_protocol_id,
                            p0->ConnectionRequest_expire_timestamp,
                            p0->ConnectionRequest_xnonce,
                            p0->ConnectionRequest_data,
                        ) && r == absorbed(rr, socket_id, addr))
                },
            forall|s: u64, p: PacketView|
                old(self)@.has_peer_at(socket_id as int, addr) && socket_id
                    < old(self)@.sockets.len() && buffer@.len() >= 2 + NETCODE_MAC_BYTES
                    && frame_opens(
                    buffer@,
                    old(self)@.protocol_id,
                    old(self)@.clients[old(self)@.peer_index(socket_id as int, addr)]->0.receive_key,
                    old(self)@.sockets[socket_id as int].needs_encryption,
                    s,
                    p,
                ) ==> exists|rr: Result<ServerResult, NetcodeError>|
                    #[trigger] connected_packet_outcome(
                        old(self)@,
                        final(self)@,
                        rr,
                        socket_id,
                        addr,
                        s,
                        p,
                    ) && r == absorbed(rr, socket_id, addr),
            forall|s: u64, p: PacketView|
                !old(self)@.has_peer_at(socket_id as int, addr) && old(self)@.has_pending_at(
                    socket_id as int,
                    addr,
                ) && socket_id < old(self)@.sockets.len() && buffer@.len() >= 2
                    + NETCODE_MAC_BYTES && frame_opens(
                    buffer@,
                    old(self)@.protocol_id,
                    old(self)@.pending[old(self)@.pending_index(socket_id as int, addr)].receive_key,
                    old(self)@.sockets[socket_id as int].needs_encryption,
                    s,
                    p,
                ) ==> exists|rr: Result<ServerResult, NetcodeError>|
                    #[trigger] pending_packet_outcome(
                        old(self)@,
                        final(self)@,
                        rr,
                        socket_id,
                        addr,
                        s,
                        p,
                    ) && r == absorbed(rr, socket_id, addr),
    {
        let res = self.process_packet_internal(socket_id, addr, buffer);
        let ghost rr0 = res;
        let out = match res {
            Ok(sr) => sr,
            Err(_) => ServerResult::Error { socket_id, addr },
        };
        proof {
            assert(out == absorbed(rr0, socket_id, addr));
            assert forall|s: u64, p: PacketView|
                old(self)@.has_peer_at(socket_id as int, addr) && socket_id
                    < old(self)@.sockets.len() && buffer@.len() >= 2 + NETCODE_MAC_BYTES
                    && frame_opens(
                    buffer@,
                    old(self)@.protocol_id,
                    old(self)@.clients[old(self)@.peer_index(socket_id as int, addr)]->0.receive_key,
                    old(self)@.sockets[socket_id as int].needs_encryption,
                    s,
                    p,
                ) implies exists|rr: Result<ServerResult, NetcodeError>|
                #[trigger] connected_packet_outcome(
                    old(self)@,
                    self@,
                    rr,
                    socket_id,
                    addr,
                    s,
                    p,
                ) && out == absorbed(rr, socket_id, addr) by {
                assert(connected_packet_outcome(old(self)@, self@, rr0, socket_id, addr, s, p));
            }
            assert forall|s: u64, p: PacketView|
                !old(self)@.has_peer_at(socket_id as int, addr) && old(self)@.has_pending_at(
                    socket_id as int,
                    addr,
                ) && socket_id < old(self)@.sockets.len() && buffer@.len() >= 2
                    + NETCODE_MAC_BYTES && frame_opens(
                    buffer@,
                    old(self)@.protocol_id,
                    old(self)@.pending[old(self)@.pending_index(socket_id as int, addr)].receive_key,
                    old(self)@.sockets[socket_id as int].needs_encryption,
                    s,
                    p,
                ) implies exists|rr: Result<ServerResult, NetcodeError>|
                #[trigger] pending_packet_outcome(
                    old(self)@,
                    self@,
                    rr,
                    socket_id,
                    addr,
                    s,
                    p,
                ) && out == absorbed(rr, socket_id, addr) by {
                assert(pending_packet_outcome(old(self)@, self@, rr0, socket_id, addr, s, p));
            }
        }
        out
    }

    /// The packet machine behind `process_packet`: connected peers exchange
    /// payloads, keep-alives and disconnects under replay protection;
    /// pending peers answer the challenge or repeat their request; anyone
    /// else may only open a handshake.
    #[verifier::rlimit(60)]
    fn process_packet_internal(
        &mut self,
        socket_id: usize,
        addr: NetAddr,
        buffer: &Vec<u8>,
    ) -> (r: Result<ServerResult, NetcodeError>)
        requires
            old(self)@.wf(),
        ensures
            final(self)@.wf(),
            final(self)@.current_time == old(self)@.current_time,
            final(self)@.sockets == old(self)@.sockets,
            final(self)@.protocol_id == old(self)@.protocol_id,
            final(self)@.max_clients == old(self)@.max_clients,
            final(self)@.secure == old(self)@.secure,
            final(self)@.connect_key == old(self)@.connect_key,
            final(self)@.challenge_key == old(self)@.challenge_key,
            final(self)@.clients.len() == old(self)@.clients.len(),
            forall|i: int|
                0 <= i < old(self)@.clients.len() && old(self)@.clients[i] is Some && final(self)@.clients[i] is Some && final(self)@.clients[i]->0.client_id == old(self)@.clients[i]->0.client_id ==> final(self)@.clients[i]->0.sequence >= old(self)@.clients[i]->0.sequence,
            r matches Ok(sr) ==> (sr matches ServerResult::Payload { client_id, .. } ==> old(self)@.has_peer_at(socket_id as int, addr) && old(self)@.clients[old(self)@.peer_index(
                socket_id as int,
                addr,
            )]->0.client_id == client_id),
            r matches Ok(sr) ==> (sr matches ServerResult::ClientConnected { client_id, .. }
                ==> !old(self)@.has_client(client_id) && final(self)@.has_client(client_id)),
            r matches Ok(sr) ==> (sr matches ServerResult::ClientDisconnected { .. } ==> old(self)@.has_peer_at(socket_id as int, addr) && !final(self)@.has_peer_at(
                socket_id as int,
                addr,
            )),
            r is Err ==> final(self)@ == old(self)@,
            r matches Ok(sr) ==> !(sr is Error),
            r matches Ok(sr) ==> (sr matches ServerResult::ClientConnected { .. } ==> old(self)@.has_pending_at(socket_id as int, addr) && !final(self)@.has_pending_at(
                socket_id as int,
                addr,
            )),
            forall|p0: PacketView|
                p0.wf() && p0 is ConnectionRequest && buffer@ == request_frame(p0) && socket_id
                    < old(self)@.sockets.len() && buffer@.len() >= 2 + NETCODE_MAC_BYTES ==> {
                    &&& (old(self)@.has_peer_at(socket_id as int, addr) ==> (r matches Ok(sr)
                        && sr is NoAction && final(self)@ == old(self)@))
                    &&& (!old(self)@.has_peer_at(socket_id as int, addr) ==> request_outcome(
                        old(self)@,
                        final(self)@,
                        r,
                        socket_id,
                        addr,
                        p0->ConnectionRequest_version_info,
                        p0->ConnectionRequest_protocol_id,
                        p0->ConnectionRequest_expire_timestamp,
                        p0->ConnectionRequest_xnonce,
                        p0->ConnectionRequest_data,
                    ))
                },
            forall|s: u64, p: PacketView|
                old(self)@.has_peer_at(socket_id as int, addr) && socket_id
                    < old(self)@.sockets.len() && buffer@.len() >= 2 + NETCODE_MAC_BYTES
                    && frame_opens(
                    buffer@,
                    old(self)@.protocol_id,
                    old(self)@.clients[old(self)@.peer_index(socket_id as int, addr)]->0.receive_key,
                    old(self)@.sockets[socket_id as int].needs_encryption,
                    s,
                    p,
                ) ==> connected_packet_outcome(
                    old(self)@,
                    final(self)@,
                    r,
                    socket_id,
                    addr,
                    s,
                    p,
                ),
            forall|s: u64, p: PacketView|
                !old(self)@.has_peer_at(socket_id as int, addr) && old(self)@.has_pending_at(
                    socket_id as int,
                    addr,
                ) && socket_id < old(self)@.sockets.len() && buffer@.len() >= 2
                    + NETCODE_MAC_BYTES && frame_opens(
                    buffer@,
                    old(self)@.protocol_id,
                    old(self)@.pending[old(self)@.pending_index(socket_id as int, addr)].receive_key,
                    old(self)@.sockets[socket_id as int].needs_encryption,
                    s,
                    p,
                ) ==> pending_packet_outcome(old(self)@, final(self)@, r, socket_id, addr, s, p),
            !old(self)@.has_peer_at(socket_id as int, addr) && !old(self)@.has_pending_at(
                socket_id as int,
                addr,
            ) && (forall|p0: PacketView|
                !(p0.wf() && p0 is ConnectionRequest && buffer@ == request_frame(p0))) ==> r
                is Err,
    {
        if buffer.len() < 2 + NETCODE_MAC_BYTES {
            return Err(NetcodeError::PacketTooSmall);
        }
        if socket_id >= self.sockets.len() {
            return Err(NetcodeError::InvalidSocketId);
        }
        let needs_encryption = self.sockets[socket_id].needs_encryption;
        // A connected peer at this socket and address.
        match self.find_addr_index(socket_id, &addr) {
            Some(i) => {
                let c = match &self.clients[i] {
                    Some(c) => c,
                    None => {
                        proof {
                            assert(false);
                        }
                        return Err(NetcodeError::ClientNotFound);
                    },
                };
                let ghost cv = old(self)@.clients[old(self)@.peer_index(
                    socket_id as int,
                    addr,
                )]->0;
                let decoded = Packet::decode(
                    buffer,
                    self.protocol_id,
                    Some(&c.receive_key),
                    needs_encryption,
                );
                proof {
                    assert forall|s: u64, p: PacketView|
                        frame_opens(
                            buffer@,
                            old(self)@.protocol_id,
                            cv.receive_key,
                            needs_encryption,
                            s,
                            p,
                        ) implies (decoded matches Ok(sp) && sp.0 == s && sp.1@ == p) by {
                        assert(crate::packet::frame_matches(
                            buffer@,
                            old(self)@.protocol_id,
                            Some(&c.receive_key),
                            needs_encryption,
                            s,
                            p,
                        ));
                    }
                }
                let (sequence, packet) = match decoded {
                    Ok(sp) => sp,
                    Err(e) => {
                        return Err(e);
                    },
                };
                match packet {
                    Packet::ConnectionRequest { .. } => {
                        return Ok(ServerResult::NoAction);
                    },
                    _ => {},
                }
                if c.replay_protection.is_already_received(sequence) || sequence
                    == crate::replay::REPLAY_EMPTY_SLOT {
                    return Err(NetcodeError::DuplicatedSequence);
                }
                let client_id = c.client_id;
                let ghost c0 = self@.clients[i as int]->0;
                match packet {
                    Packet::Disconnect => {
                        self.clients.set(i, None);
                        proof {
                            assert(final(self)@ =~= (ServerView {
                                clients: old(self)@.clients.update(i as int, None),
                                ..old(self)@
                            }));
                            lemma_wf_clear_slot(old(self)@, final(self)@, i as int);
                            if self@.has_peer_at(socket_id as int, addr) {
                                let w = self@.peer_index(socket_id as int, addr);
                                assert(self@.clients[w] is Some && self@.clients[w]->0.socket_id
                                    == socket_id && self@.clients[w]->0.addr == addr);
                                assert(old(self)@.clients[w] is Some
                                    && old(self)@.clients[w]->0.socket_id == socket_id
                                    && old(self)@.clients[w]->0.addr == addr);
                                assert(w != i as int);
                            }
                        }
                        return Ok(
                            ServerResult::ClientDisconnected {
                                client_id,
                                socket_id,
                                addr,
                                payload: None,
                            },
                        );
                    },
                    Packet::Payload { payload } => {
                        let mut updated = Self::clone_conn(c);
                        updated.replay_protection.advance_sequence(sequence);
                        updated.last_packet_received_time = self.current_time;
                        updated.confirmed = true;
                        self.clients.set(i, Some(updated));
                        proof {
                            assert(self@ =~= (ServerView {
                                clients: old(self)@.clients.update(
                                    i as int,
                                    Some(self@.clients[i as int]->0),
                                ),
                                ..old(self)@
                            }));
                            lemma_wf_update_slot(
                                old(self)@,
                                self@,
                                i as int,
                                c0,
                                self@.clients[i as int]->0,
                            );
                        }
                        return Ok(ServerResult::Payload { client_id, payload });
                    },
                    Packet::KeepAlive { .. } => {
                        let mut updated = Self::clone_conn(c);
                        updated.replay_protection.advance_sequence(sequence);
                        updated.last_packet_received_time = self.current_time;
                        updated.confirmed = true;
                        self.clients.set(i, Some(updated));
                        proof {
                            assert(self@ =~= (ServerView {
                                clients: old(self)@.clients.update(
                                    i as int,
                                    Some(self@.clients[i as int]->0),
                                ),
                                ..old(self)@
                            }));
                            lemma_wf_update_slot(
                                old(self)@,
                                self@,
                                i as int,
                                c0,
                                self@.clients[i as int]->0,
                            );
                        }
                        return Ok(ServerResult::NoAction);
                    },
                    _ => {
                        let mut updated = Self::clone_conn(c);
                        updated.replay_protection.advance_sequence(sequence);
                        updated.last_packet_received_time = self.current_time;
                        self.clients.set(i, Some(updated));
                        proof {
                            assert(self@ =~= (ServerView {
                                clients: old(self)@.clients.update(
                                    i as int,
                                    Some(self@.clients[i as int]->0),
                                ),
                                ..old(self)@
                            }));
                            lemma_wf_update_slot(
                                old(self)@,
                                self@,
                                i as int,
                                c0,
                                self@.clients[i as int]->0,
                            );
                        }
                        return Ok(ServerResult::NoAction);
                    },
                }
            },
            None => {},
        }
        // A pending handshake at this socket and address.
        match self.find_pending_index(socket_id, &addr) {
            Some(j) => {
                let p = &self.pending_clients[j];
                let ghost pcv = old(self)@.pending[old(self)@.pending_index(
                    socket_id as int,
                    addr,
                )];
                let decoded = Packet::decode(
                    buffer,
                    self.protocol_id,
                    Some(&p.receive_key),
                    needs_encryption,
                );
                proof {
                    assert forall|s: u64, pk: PacketView|
                        frame_opens(
                            buffer@,
                            old(self)@.protocol_id,
                            pcv.receive_key,
                            needs_encryption,
                            s,
                            pk,
                        ) implies (decoded matches Ok(sp) && sp.0 == s && sp.1@ == pk) by {
                        assert(crate::packet::frame_matches(
                            buffer@,
                            old(self)@.protocol_id,
                            Some(&p.receive_key),
                            needs_encryption,
                            s,
                            pk,
                        ));
                    }
                }
                let (sequence, packet) = match decoded {
                    Ok(sp) => sp,
                    Err(e) => {
                        return Err(e);
                    },
                };
                match packet {
                    Packet::ConnectionRequest {
                        version_info,
                        protocol_id,
                        expire_timestamp,
                        xnonce,
                        data,
                    } => {
                        if xnonce.len() != crate::NETCODE_CONNECT_TOKEN_XNONCE_BYTES {
                            proof {
                                assert(false);
                            }
                            return Err(NetcodeError::BufferTooSmall);
                        }
                        return self.handle_connection_request(
                            socket_id,
                            addr,
                            &version_info,
                            protocol_id,
                            expire_timestamp,
                            &xnonce,
                            &data,
                        );
                    },
                    Packet::Response { token_sequence, token_data } => {
                        if p.replay_protection.is_already_received(sequence) || sequence
                            == crate::replay::REPLAY_EMPTY_SLOT {
                            return Err(NetcodeError::DuplicatedSequence);
                        }
                        if p.sequence == u64::MAX || self.global_sequence == u64::MAX {
                            return Err(NetcodeError::SequenceOverflow);
                        }
                        let challenge_token = match ChallengeToken::decode(
                            &token_data,
                            token_sequence,
                            &self.challenge_key,
                        ) {
                            Ok(t) => t,
                            Err(e) => {
                                return Err(e);
                            },
                        };
                        let mut pending = Self::clone_conn(p);
                        pending.replay_protection.advance_sequence(sequence);
                        pending.last_packet_received_time = self.current_time;
                        let ghost mid0 = self@;
                        self.pending_clients.remove(j);
                        proof {
                            assert(mid0.wf());
                            assert(self@ =~= (ServerView {
                                pending: mid0.pending.remove(j as int),
                                ..mid0
                            }));
                            lemma_wf_remove_pending(mid0, self@, mid0.pending, j as int);
                        }
                        if self.find_client_index(challenge_token.client_id).is_some() {
                            return Ok(ServerResult::NoAction);
                        }
                        if challenge_token.client_id != pending.client_id {
                            // A challenge for another identity cannot admit
                            // this handshake.
                            return Ok(ServerResult::NoAction);
                        }
                        let slot = match self.find_free_slot() {
                            None => {
                                let packet = Packet::ConnectionDenied;
                                let frame = match packet.encode(
                                    self.protocol_id,
                                    Some((self.global_sequence, &pending.send_key)),
                                    needs_encryption,
                                ) {
                                    Ok(b) => b,
                                    Err(e) => {
                                        proof {
                                            assert(false);
                                        }
                                        return Err(e);
                                    },
                                };
                                self.global_sequence = self.global_sequence + 1;
                                return Ok(
                                    ServerResult::ConnectionDenied {
                                        socket_id,
                                        addr,
                                        payload: Some(frame),
                                    },
                                );
                            },
                            Some(slot) => slot,
                        };
                        proof {
                            assert(slot as int <= NETCODE_MAX_CLIENTS);
                            assert(self@.max_clients <= NETCODE_MAX_CLIENTS);
                        }
                        let ka = Packet::KeepAlive {
                            client_index: slot as u32,
                            max_clients: self.max_clients as u32,
                        };
                        let frame = match ka.encode(
                            self.protocol_id,
                            Some((pending.sequence, &pending.send_key)),
                            needs_encryption,
                        ) {
                            Ok(b) => b,
                            Err(e) => {
                                proof {
                                    assert(false);
                                }
                                return Err(e);
                            },
                        };
                        pending.sequence = pending.sequence + 1;
                        pending.user_data = challenge_token.user_data;
                        pending.last_packet_send_time = self.current_time;
                        let client_id = pending.client_id;
                        let user_data = crate::token::clone_bytes(&pending.user_data);
                        let ghost mid1 = self@;
                        let ghost cv = pending@;
                        self.clients.set(slot, Some(pending));
                        proof {
                            assert(mid1.wf());
                            assert(self@ =~= (ServerView {
                                clients: mid1.clients.update(slot as int, Some(cv)),
                                ..mid1
                            }));
                            lemma_wf_fill_slot(mid1, self@, slot as int, cv);
                            assert forall|k: int|
                                0 <= k < self@.pending.len() implies !(self@.pending[k].socket_id
                                == socket_id && self@.pending[k].addr == addr) by {
                                let sk = if k < j as int {
                                    k
                                } else {
                                    k + 1
                                };
                                assert(self@.pending[k] == mid0.pending[sk]);
                            }
                            assert(self@.has_client(client_id)) by {
                                assert(self@.clients[slot as int] is Some
                                    && self@.clients[slot as int]->0.client_id == client_id);
                            }
                            assert(final(self)@.has_client(client_id));
                            if old(self)@.has_client(client_id) {
                                let w = old(self)@.client_index(client_id);
                                assert(old(self)@.clients[w] is Some
                                    && old(self)@.clients[w]->0.client_id == client_id);
                                assert(mid1.clients[w] is Some && mid1.clients[w]->0.client_id
                                    == client_id);
                                assert(mid1.has_client(client_id));
                            }
                        }
                        return Ok(
                            ServerResult::ClientConnected {
                                client_id,
                                socket_id,
                                addr,
                                user_data,
                                payload: frame,
                            },
                        );
                    },
                    _ => {
                        let mut refreshed = Self::clone_conn(p);
                        refreshed.last_packet_received_time = self.current_time;
                        let ghost mid = self@;
                        self.pending_clients.set(j, refreshed);
                        proof {
                            assert(mid.wf());
                            assert(self@ =~= (ServerView {
                                pending: mid.pending.update(j as int, refreshed@),
                                ..mid
                            }));
                            lemma_wf_set_pending(mid, self@, mid.pending, j as int);
                        }
                        return Ok(ServerResult::NoAction);
                    },
                }
            },
            None => {},
        }
        // An unknown peer: only a connection request may open a handshake.
        let (_, packet) = match Packet::decode(buffer, self.protocol_id, None, needs_encryption) {
            Ok(sp) => sp,
            Err(e) => {
                return Err(e);
            },
        };
        match packet {
            Packet::ConnectionRequest { version_info, protocol_id, expire_timestamp, xnonce, data } => {
                if xnonce.len() != crate::NETCODE_CONNECT_TOKEN_XNONCE_BYTES {
                    proof {
                        assert(false);
                    }
                    return Err(NetcodeError::BufferTooSmall);
                }
                self.handle_connection_request(
                    socket_id,
                    addr,
                    &version_info,
                    protocol_id,
                    expire_timestamp,
                    &xnonce,
                    &data,
                )
            },
            _ => Err(NetcodeError::InvalidPacketType),
        }
    }

    /// The first free admission slot, if the table has one.
    fn find_free_slot(&self) -> (r: Option<usize>)
        ensures
            r matches Some(i) ==> 0 <= i < self@.clients.len() && self@.clients[i as int] is None
                && (forall|j: int| 0 <= j < i ==> self@.clients[j] is Some),
            r is None ==> forall|i: int|
                0 <= i < self@.clients.len() ==> self@.clients[i] is Some,
    {
        let n: usize = self.clients.len();
        let mut i: usize = 0;
        while i < n
            invariant
                i <= n == self@.clients.len(),
                forall|j: int| 0 <= j < i ==> self@.clients[j] is Some,
            decreases n - i,
        {
            if self.clients[i].is_none() {
                return Some(i);
            }
            i = i + 1;
        }
        None
    }
}

/// Admitting a fresh identity into a free slot keeps the server invariant.
proof fn lemma_wf_fill_slot(pre: ServerView, post: ServerView, i: int, c: ConnectionView)
    requires
        pre.wf(),
        0 <= i < pre.clients.len(),
        pre.clients[i] is None,
        post == (ServerView { clients: pre.clients.update(i, Some(c)), ..pre }),
        conn_wf(c, pre.sockets.len() as int, pre.current_time),
        !pre.has_client(c.client_id),
        !pre.has_peer_at(c.socket_id, c.addr),
        !pre.has_pending_at(c.socket_id, c.addr),
    ensures
        post.wf(),
{
    assert forall|i1: int, i2: int|
        0 <= i1 < i2 < post.clients.len() && post.clients[i1] is Some && post.clients[i2]
            is Some implies post.clients[i1]->0.client_id != post.clients[i2]->0.client_id && !(
    post.clients[i1]->0.socket_id == post.clients[i2]->0.socket_id && post.clients[i1]->0.addr
        == post.clients[i2]->0.addr) by {
        if i1 == i {
            if post.clients[i2]->0.client_id == c.client_id {
                assert(pre.has_client(c.client_id));
            }
            if post.clients[i2]->0.socket_id == c.socket_id && post.clients[i2]->0.addr == c.addr {
                assert(pre.has_peer_at(c.socket_id, c.addr));
            }
        } else if i2 == i {
            if post.clients[i1]->0.client_id == c.client_id {
                assert(pre.has_client(c.client_id));
            }
            if post.clients[i1]->0.socket_id == c.socket_id && post.clients[i1]->0.addr == c.addr {
                assert(pre.has_peer_at(c.socket_id, c.addr));
            }
        }
    }
    assert forall|i0: int, k: int|
        0 <= i0 < post.clients.len() && post.clients[i0] is Some && 0 <= k
            < post.pending.len() implies !(post.clients[i0]->0.socket_id
        == post.pending[k].socket_id && post.clients[i0]->0.addr == post.pending[k].addr) by {
        if i0 == i {
            if post.pending[k].socket_id == c.socket_id && post.pending[k].addr == c.addr {
                assert(pre.has_pending_at(c.socket_id, c.addr));
            }
        }
    }
}


/// No two admitted clients simultaneously share an identity or a
/// socket-address pair, and no pair is both pending and admitted: the
/// server invariant, which the constructor establishes and every operation
/// preserves, keeps the tables free of duplicates.
pub proof fn lemma_peers_unique(v: ServerView, i: int, j: int)
    requires
        v.wf(),
        0 <= i < j < v.clients.len(),
        v.clients[i] is Some,
        v.clients[j] is Some,
    ensures
        v.clients[i]->0.client_id != v.clients[j]->0.client_id,
        !(v.clients[i]->0.socket_id == v.clients[j]->0.socket_id && v.clients[i]->0.addr
            == v.clients[j]->0.addr),
{
}

/// A pending handshake never shares its socket-address pair with an
/// admitted client or another handshake.
pub proof fn lemma_pending_unique(v: ServerView, i: int, j: int)
    requires
        v.wf(),
        0 <= i < v.pending.len(),
    ensures
        0 <= j < v.pending.len() && i != j ==> !(v.pending[i].socket_id == v.pending[j].socket_id
            && v.pending[i].addr == v.pending[j].addr),
        0 <= j < v.clients.len() && v.clients[j] is Some ==> !(v.clients[j]->0.socket_id
            == v.pending[i].socket_id && v.clients[j]->0.addr == v.pending[i].addr),
{
}

} // verus!
