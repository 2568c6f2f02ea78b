//! Connect-token minting: per-transport metadata bundles that produce
//! tokens on demand, the client-count bookkeeping that sizes a server, the
//! server setup configuration as plain values, and the WebSocket URL
//! format.

use vstd::prelude::*;
use vstd::string::StringExecFns;

use crate::addr::NetAddr;
use crate::crypto::xopen_of;
use crate::token::{clone_addrs, clone_bytes, private_padded, token_aad, token_bytes, ConnectToken,
    ConnectTokenView, PrivateTokenView};
use crate::{NetcodeError, NETCODE_KEY_BYTES, NETCODE_MAX_SERVER_ADDRESSES,
    NETCODE_USER_DATA_BYTES};

verus! {

/// The transport a client will connect over.
#[derive(Debug, Copy, Clone, Eq, PartialEq, Hash, Structural)]
pub enum ConnectionType {
    /// Client and server share one process.
    Memory,
    /// A native client over the netcode transport.
    Native,
    /// A browser client over WebTransport.
    WasmWt,
    /// A browser client over WebSocket.
    WasmWs,
}

impl ConnectionType {
    /// The connection type of the environment this library builds for:
    /// native targets connect over the netcode transport.
    pub fn inferred() -> (r: ConnectionType)
        ensures
            r == ConnectionType::Native,
    {
        ConnectionType::Native
    }
}

/// Saturating addition on sizes.
fn sat_add(a: usize, b: usize) -> (r: usize)
    ensures
        r == if a + b <= usize::MAX {
            a + b
        } else {
            usize::MAX as int
        },
{
    if a > usize::MAX - b {
        usize::MAX
    } else {
        a + b
    }
}

/// How many clients of each connection type a server must serve.
#[derive(Debug, Clone)]
pub struct ClientCounts {
    /// The identities of the in-memory clients.
    pub memory_clients: Vec<u16>,
    /// How many native clients will connect.
    pub native_count: usize,
    /// How many WebTransport clients will connect.
    pub wasm_wt_count: usize,
    /// How many WebSocket clients will connect.
    pub wasm_ws_count: usize,
}

impl ClientCounts {
    /// Counts that expect nobody.
    pub fn new() -> (r: ClientCounts)
        ensures
            r.memory_clients@.len() == 0,
            r.native_count == 0,
            r.wasm_wt_count == 0,
            r.wasm_ws_count == 0,
    {
        ClientCounts {
            memory_clients: Vec::new(),
            native_count: 0,
            wasm_wt_count: 0,
            wasm_ws_count: 0,
        }
    }

    /// Registers one expected client. In-memory clients are recorded by
    /// identity, which must fit the in-memory id space; the other types are
    /// counted.
    pub fn add(&mut self, connection: ConnectionType, client_id: u64)
        requires
            connection is Memory ==> client_id < u16::MAX,
        ensures
            connection is Memory ==> *final(self) == (ClientCounts {
                memory_clients: final(self).memory_clients,
                ..*old(self)
            }) && final(self).memory_clients@ == old(self).memory_clients@.push(
                client_id as u16,
            ),
            connection is Native ==> *final(self) == (ClientCounts {
                native_count: if old(self).native_count + 1 <= usize::MAX {
                    (old(self).native_count + 1) as usize
                } else {
                    usize::MAX
                },
                ..*old(self)
            }),
            connection is WasmWt ==> *final(self) == (ClientCounts {
                wasm_wt_count: if old(self).wasm_wt_count + 1 <= usize::MAX {
                    (old(self).wasm_wt_count + 1) as usize
                } else {
                    usize::MAX
                },
                ..*old(self)
            }),
            connection is WasmWs ==> *final(self) == (ClientCounts {
                wasm_ws_count: if old(self).wasm_ws_count + 1 <= usize::MAX {
                    (old(self).wasm_ws_count + 1) as usize
                } else {
                    usize::MAX
                },
                ..*old(self)
            }),
    {
        match connection {
            ConnectionType::Memory => {
                self.memory_clients.push(client_id as u16);
            },
            ConnectionType::Native => {
                self.native_count = sat_add(self.native_count, 1);
            },
            ConnectionType::WasmWt => {
                self.wasm_wt_count = sat_add(self.wasm_wt_count, 1);
            },
            ConnectionType::WasmWs => {
                self.wasm_ws_count = sat_add(self.wasm_ws_count, 1);
            },
        }
    }

    /// The total number of expected clients, saturating at the size limit.
    pub fn total(&self) -> (r: usize)
        ensures
            r == if self.memory_clients@.len() + self.native_count + self.wasm_wt_count
                + self.wasm_ws_count <= usize::MAX {
                self.memory_clients@.len() + self.native_count + self.wasm_wt_count
                    + self.wasm_ws_count
            } else {
                usize::MAX as int
            },
    {
        sat_add(
            sat_add(sat_add(self.memory_clients.len(), self.native_count), self.wasm_wt_count),
            self.wasm_ws_count,
        )
    }
}

/// An ip as a plain value: the octets packed into an integer, most
/// significant octet highest.
#[derive(Debug, Clone, Copy, PartialEq, Eq, Structural)]
pub enum IpValue {
    /// A version-four ip.
    V4 {
        /// The four octets.
        ip: u32,
    },
    /// A version-six ip.
    V6 {
        /// The sixteen octets.
        ip: u128,
    },
}

impl IpValue {
    /// Pairs the ip with a port into an address.
    pub open spec fn spec_to_addr(self, port: u16) -> NetAddr {
        match self {
            IpValue::V4 { ip } => NetAddr::V4 { ip, port },
            IpValue::V6 { ip } => NetAddr::V6 { ip, port },
        }
    }

    /// Pairs the ip with a port into an address.
    pub fn to_addr(self, port: u16) -> (r: NetAddr)
        ensures
            r == self.spec_to_addr(port),
    {
        match self {
            IpValue::V4 { ip } => NetAddr::V4 { ip, port },
            IpValue::V6 { ip } => NetAddr::V6 { ip, port },
        }
    }
}

/// Everything needed to set a server up, as plain values. Certificate
/// files are named by path; reading them is the caller's business.
#[derive(Debug, Clone)]
pub struct GameServerSetupConfig {
    /// Application protocol id.
    pub protocol_id: u64,
    /// How long minted tokens live, in seconds.
    pub expire_secs: u64,
    /// Idle timeout handed to clients, in seconds.
    pub timeout_secs: i32,
    /// The server's local ip for every socket.
    pub server_ip: IpValue,
    /// Port of the native socket; zero for any.
    pub native_port: u16,
    /// Port of the WebTransport socket; zero for any.
    pub wasm_wt_port: u16,
    /// Port of the WebSocket socket; zero for any.
    pub wasm_ws_port: u16,
    /// Public-facing native port; zero falls back to `native_port`.
    pub native_port_proxy: u16,
    /// Public-facing WebTransport port; zero falls back to `wasm_wt_port`.
    pub wasm_wt_port_proxy: u16,
    /// Public-facing WebSocket port; zero falls back to `wasm_ws_port`.
    pub wasm_ws_port_proxy: u16,
    /// Ip to advertise in tokens instead of `server_ip`.
    pub proxy_ip: Option<IpValue>,
    /// Domain to use instead of the proxy ip for WebSocket servers.
    pub ws_domain: Option<String>,
    /// Paths of the certificate chain and private key files, PEM encoded.
    pub wss_certs: Option<(String, String)>,
    /// Whether a TLS proxy fronts WebSocket connections.
    pub has_wss_proxy: bool,
}

impl GameServerSetupConfig {
    /// A placeholder configuration on the loopback ip. Not for connecting
    /// to a real server.
    pub fn dummy() -> (r: GameServerSetupConfig)
        ensures
            r.protocol_id == 0,
            r.expire_secs == 10,
            r.timeout_secs == 5,
            r.server_ip == (IpValue::V4 { ip: 0x7f000001 }),
            r.native_port == 0,
            r.wasm_wt_port == 0,
            r.wasm_ws_port == 0,
            r.native_port_proxy == 0,
            r.wasm_wt_port_proxy == 0,
            r.wasm_ws_port_proxy == 0,
            r.proxy_ip is None,
            r.ws_domain is None,
            r.wss_certs is None,
            r.has_wss_proxy == false,
    {
        GameServerSetupConfig {
            protocol_id: 0,
            expire_secs: 10,
            timeout_secs: 5,
            server_ip: IpValue::V4 { ip: 0x7f000001 },
            native_port: 0,
            wasm_wt_port: 0,
            wasm_ws_port: 0,
            native_port_proxy: 0,
            wasm_wt_port_proxy: 0,
            wasm_ws_port_proxy: 0,
            proxy_ip: None,
            ws_domain: None,
            wss_certs: None,
            has_wss_proxy: false,
        }
    }
}

/// A SHA-256 hash identifying a self-signed certificate.
#[derive(Debug, Clone, PartialEq, Eq)]
pub struct ServerCertHash {
    /// The thirty-two hash bytes.
    pub hash: Vec<u8>,
}

/// A minted token a client can redeem, together with what its transport
/// needs.
#[derive(Debug)]
pub enum ServerConnectToken {
    /// For a native client: the serialised connect token.
    Native {
        /// The serialised connect token.
        token: Vec<u8>,
    },
    /// For a browser WebTransport client.
    WasmWt {
        /// The serialised connect token.
        token: Vec<u8>,
        /// Hashes of self-signed certificates the browser may trust.
        cert_hashes: Vec<ServerCertHash>,
    },
    /// For a browser WebSocket client.
    WasmWs {
        /// The serialised connect token.
        token: Vec<u8>,
        /// The full connect URL.
        url: String,
    },
    /// For an in-memory client.
    Memory {
        /// The serialised connect token.
        token: Vec<u8>,
        /// The in-memory client identity the token belongs to.
        client_id: u16,
    },
}

impl Default for ServerConnectToken {
    /// An empty native token.
    fn default() -> (r: ServerConnectToken)
        ensures
            r matches ServerConnectToken::Native { token } && token@.len() == 0,
    {
        ServerConnectToken::Native { token: Vec::new() }
    }
}

/// Serialises a connect token into the bytes a client redeems.
pub fn connect_token_to_bytes(connect_token: &ConnectToken) -> (r: Result<Vec<u8>, NetcodeError>)
    requires
        connect_token@.wf(),
    ensures
        r matches Ok(b) && b@ == token_bytes(connect_token@),
{
    let mut bytes: Vec<u8> = Vec::new();
    connect_token.write(&mut bytes);
    proof {
        assert(bytes@ =~= token_bytes(connect_token@));
    }
    Ok(bytes)
}

/// Reads a connect token back from its bytes, validating it strictly.
pub fn connect_token_from_bytes(connect_token_bytes: &Vec<u8>) -> (r: Result<
    ConnectToken,
    NetcodeError,
>)
    ensures
        r matches Ok(t) ==> t@.wf() && connect_token_bytes@ == token_bytes(t@),
        forall|t0: ConnectTokenView|
            t0.wf() && connect_token_bytes@ == token_bytes(t0) ==> (r matches Ok(t) && t@ == t0),
{
    ConnectToken::read(connect_token_bytes)
}

/// Whether a minted token serialises a connect token with these
/// parameters, whose sealed private section opens under the minting key to
/// a private token admitting `client_id` on `socket_id` with the public
/// token's session keys; the keys, the nonce and the user data are drawn
/// fresh at minting.
pub open spec fn minted_token(
    bytes: Seq<u8>,
    protocol_id: u64,
    create_timestamp: u64,
    expire_secs: u64,
    timeout_secs: i32,
    addrs: Seq<NetAddr>,
    client_id: u64,
    socket_id: u8,
    auth_key: Seq<u8>,
) -> bool {
    exists|t: ConnectTokenView|
        {
            &&& #[trigger] token_bytes(t) == bytes
            &&& t.wf()
            &&& t.protocol_id == protocol_id
            &&& t.create_timestamp == create_timestamp
            &&& t.expire_timestamp == create_timestamp + expire_secs
            &&& t.timeout_seconds == timeout_secs
            &&& t.server_addresses == addrs
            &&& exists|ud: Seq<u8>|
                ud.len() == NETCODE_USER_DATA_BYTES && xopen_of(
                    auth_key,
                    t.xnonce,
                    token_aad(protocol_id, t.expire_timestamp),
                    t.private_data,
                ) == Some(
                    private_padded(
                        PrivateTokenView {
                            client_id,
                            timeout_seconds: timeout_secs,
                            socket_id,
                            server_addresses: addrs,
                            client_to_server_key: t.client_to_server_key,
                            server_to_client_key: t.server_to_client_key,
                            user_data: ud,
                        },
                    ),
                )
        }
}

/// Mints and serialises one connect token.
fn mint_token_bytes(
    current_time_millis: u64,
    protocol_id: u64,
    expire_secs: u64,
    timeout_secs: i32,
    socket_id: u8,
    addrs: Vec<NetAddr>,
    auth_key: &Vec<u8>,
    client_id: u64,
) -> (r: Result<Vec<u8>, NetcodeError>)
    requires
        auth_key@.len() == NETCODE_KEY_BYTES,
        current_time_millis / 1000 + expire_secs <= u64::MAX,
    ensures
        r is Ok <==> 1 <= addrs@.len() <= NETCODE_MAX_SERVER_ADDRESSES,
        r matches Ok(b) ==> minted_token(
            b@,
            protocol_id,
            current_time_millis / 1000,
            expire_secs,
            timeout_secs,
            addrs@,
            client_id,
            socket_id,
            auth_key@,
        ),
{
    let token = match ConnectToken::generate(
        current_time_millis,
        protocol_id,
        expire_secs,
        client_id,
        timeout_secs,
        socket_id,
        addrs,
        None,
        auth_key,
    ) {
        Ok(t) => t,
        Err(e) => {
            return Err(e);
        },
    };
    let mut bytes: Vec<u8> = Vec::new();
    token.write(&mut bytes);
    proof {
        assert(bytes@ =~= token_bytes(token@));
        assert(token_bytes(token@) == bytes@);
        assert(minted_token(
            bytes@,
            protocol_id,
            current_time_millis / 1000,
            expire_secs,
            timeout_secs,
            token@.server_addresses,
            client_id,
            socket_id,
            auth_key@,
        ));
    }
    Ok(bytes)
}

/// Metadata minting tokens for in-memory clients.
#[derive(Debug, Clone)]
pub struct ConnectMetaMemory {
    /// Application protocol id.
    pub protocol_id: u64,
    /// How long minted tokens live, in seconds.
    pub expire_secs: u64,
    /// Idle timeout handed to clients, in seconds.
    pub timeout_secs: i32,
    /// The identities of the in-memory clients served.
    pub clients: Vec<u16>,
    /// The socket the tokens are bound to.
    pub socket_id: u8,
    /// The key tokens are sealed under.
    pub auth_key: Vec<u8>,
}

/// The address every in-memory socket reports.
pub fn in_memory_server_addr() -> (r: NetAddr)
    ensures
        r == (NetAddr::V4 { ip: 0, port: 0 }),
{
    NetAddr::V4 { ip: 0, port: 0 }
}

impl ConnectMetaMemory {
    /// Mints a token for one in-memory client; the client id must be among
    /// the clients this bundle serves.
    pub fn new_connect_token(&self, current_time_millis: u64, client_id: u64) -> (r: Result<
        ServerConnectToken,
        NetcodeError,
    >)
        requires
            self.auth_key@.len() == NETCODE_KEY_BYTES,
            current_time_millis / 1000 + self.expire_secs <= u64::MAX,
        ensures
            r is Ok <==> exists|i: int|
                0 <= i < self.clients@.len() && #[trigger] self.clients@[i] as u64 == client_id,
            r matches Ok(t) ==> t matches ServerConnectToken::Memory { token, client_id: cid }
                && cid as u64 == client_id && minted_token(
                token@,
                self.protocol_id,
                current_time_millis / 1000,
                self.expire_secs,
                self.timeout_secs,
                seq![NetAddr::V4 { ip: 0, port: 0 }],
                client_id,
                self.socket_id,
                self.auth_key@,
            ),
    {
        let n: usize = self.clients.len();
        let mut i: usize = 0;
        let mut found: Option<u16> = None;
        while i < n
            invariant
                i <= n == self.clients@.len(),
                found matches Some(c) ==> exists|j: int|
                    0 <= j < self.clients@.len() && #[trigger] self.clients@[j] == c && c as u64
                        == client_id,
                found is None ==> forall|j: int|
                    0 <= j < i ==> #[trigger] self.clients@[j] as u64 != client_id,
            decreases n - i,
        {
            if self.clients[i] as u64 == client_id {
                found = Some(self.clients[i]);
            }
            i = i + 1;
        }
        let cid = match found {
            Some(c) => c,
            None => {
                return Err(NetcodeError::ClientNotFound);
            },
        };
        let mut addrs: Vec<NetAddr> = Vec::new();
        addrs.push(in_memory_server_addr());
        proof {
            assert(addrs@ =~= seq![NetAddr::V4 { ip: 0, port: 0 }]);
        }
        let token = match mint_token_bytes(
            current_time_millis,
            self.protocol_id,
            self.expire_secs,
            self.timeout_secs,
            self.socket_id,
            addrs,
            &self.auth_key,
            client_id,
        ) {
            Ok(b) => b,
            Err(e) => {
                proof {
                    assert(false);
                }
                return Err(e);
            },
        };
        Ok(ServerConnectToken::Memory { token, client_id: cid })
    }
}

/// Metadata minting tokens for native clients.
#[derive(Debug, Clone)]
pub struct ConnectMetaNative {
    /// Application protocol id.
    pub protocol_id: u64,
    /// How long minted tokens live, in seconds.
    pub expire_secs: u64,
    /// Idle timeout handed to clients, in seconds.
    pub timeout_secs: i32,
    /// The addresses clients are told to connect to.
    pub server_addresses: Vec<NetAddr>,
    /// The socket the tokens are bound to.
    pub socket_id: u8,
    /// The key tokens are sealed under.
    pub auth_key: Vec<u8>,
}

impl ConnectMetaNative {
    /// A placeholder bundle on the loopback address. Not for connecting to
    /// a real server.
    pub fn dummy() -> (r: ConnectMetaNative)
        ensures
            r.protocol_id == 0,
            r.expire_secs == 10,
            r.timeout_secs == 15,
            r.server_addresses@ == seq![NetAddr::V4 { ip: 0x7f000001, port: 8080 }],
            r.socket_id == 0,
            r.auth_key@.len() == NETCODE_KEY_BYTES,
    {
        let mut auth_key: Vec<u8> = Vec::new();
        auth_key.push(1);
        let mut z: usize = 1;
        while z < NETCODE_KEY_BYTES
            invariant
                1 <= z <= NETCODE_KEY_BYTES,
                auth_key@.len() == z,
            decreases NETCODE_KEY_BYTES - z,
        {
            auth_key.push(0);
            z = z + 1;
        }
        let mut server_addresses: Vec<NetAddr> = Vec::new();
        server_addresses.push(NetAddr::V4 { ip: 0x7f000001, port: 8080 });
        proof {
            assert(server_addresses@ =~= seq![NetAddr::V4 { ip: 0x7f000001, port: 8080 }]);
        }
        ConnectMetaNative {
            protocol_id: 0,
            expire_secs: 10,
            timeout_secs: 15,
            server_addresses,
            socket_id: 0,
            auth_key,
        }
    }

    /// Mints a token for one native client.
    pub fn new_connect_token(&self, current_time_millis: u64, client_id: u64) -> (r: Result<
        ServerConnectToken,
        NetcodeError,
    >)
        requires
            self.auth_key@.len() == NETCODE_KEY_BYTES,
            current_time_millis / 1000 + self.expire_secs <= u64::MAX,
        ensures
            r is Ok <==> 1 <= self.server_addresses@.len() <= NETCODE_MAX_SERVER_ADDRESSES,
            r matches Ok(t) ==> t matches ServerConnectToken::Native { token } && minted_token(
                token@,
                self.protocol_id,
                current_time_millis / 1000,
                self.expire_secs,
                self.timeout_secs,
                self.server_addresses@,
                client_id,
                self.socket_id,
                self.auth_key@,
            ),
    {
        let token = match mint_token_bytes(
            current_time_millis,
            self.protocol_id,
            self.expire_secs,
            self.timeout_secs,
            self.socket_id,
            clone_addrs(&self.server_addresses),
            &self.auth_key,
            client_id,
        ) {
            Ok(b) => b,
            Err(e) => {
                return Err(e);
            },
        };
        Ok(ServerConnectToken::Native { token })
    }
}

/// Metadata minting tokens for browser WebTransport clients.
#[derive(Debug, Clone)]
pub struct ConnectMetaWasmWt {
    /// Application protocol id.
    pub protocol_id: u64,
    /// How long minted tokens live, in seconds.
    pub expire_secs: u64,
    /// Idle timeout handed to clients, in seconds.
    pub timeout_secs: i32,
    /// The addresses clients are told to connect to.
    pub server_addresses: Vec<NetAddr>,
    /// The socket the tokens are bound to.
    pub socket_id: u8,
    /// The key tokens are sealed under.
    pub auth_key: Vec<u8>,
    /// Self-signed certificate hashes; empty when PKI certificates serve.
    pub cert_hashes: Vec<ServerCertHash>,
}

impl ConnectMetaWasmWt {
    /// Mints a token for one WebTransport client.
    pub fn new_connect_token(&self, current_time_millis: u64, client_id: u64) -> (r: Result<
        ServerConnectToken,
        NetcodeError,
    >)
        requires
            self.auth_key@.len() == NETCODE_KEY_BYTES,
            current_time_millis / 1000 + self.expire_secs <= u64::MAX,
        ensures
            r is Ok <==> 1 <= self.server_addresses@.len() <= NETCODE_MAX_SERVER_ADDRESSES,
            r matches Ok(t) ==> t matches ServerConnectToken::WasmWt { token, cert_hashes }
                && minted_token(
                token@,
                self.protocol_id,
                current_time_millis / 1000,
                self.expire_secs,
                self.timeout_secs,
                self.server_addresses@,
                client_id,
                self.socket_id,
                self.auth_key@,
            ) && cert_hashes@.len() == self.cert_hashes@.len() && (forall|k: int|
                0 <= k < cert_hashes@.len() ==> cert_hashes@[k].hash@
                    == self.cert_hashes@[k].hash@),
    {
        let token = match mint_token_bytes(
            current_time_millis,
            self.protocol_id,
            self.expire_secs,
            self.timeout_secs,
            self.socket_id,
            clone_addrs(&self.server_addresses),
            &self.auth_key,
            client_id,
        ) {
            Ok(b) => b,
            Err(e) => {
                return Err(e);
            },
        };
        let mut cert_hashes: Vec<ServerCertHash> = Vec::new();
        let n: usize = self.cert_hashes.len();
        let mut i: usize = 0;
        while i < n
            invariant
                i <= n == self.cert_hashes@.len(),
                cert_hashes@.len() == i,
                forall|k: int|
                    0 <= k < i ==> cert_hashes@[k].hash@ == self.cert_hashes@[k].hash@,
            decreases n - i,
        {
            cert_hashes.push(ServerCertHash { hash: clone_bytes(&self.cert_hashes[i].hash) });
            i = i + 1;
        }
        Ok(ServerConnectToken::WasmWt { token, cert_hashes })
    }
}

/// Metadata minting tokens for browser WebSocket clients.
#[derive(Debug, Clone)]
pub struct ConnectMetaWasmWs {
    /// Application protocol id.
    pub protocol_id: u64,
    /// How long minted tokens live, in seconds.
    pub expire_secs: u64,
    /// Idle timeout handed to clients, in seconds.
    pub timeout_secs: i32,
    /// The addresses clients are told to connect to.
    pub server_addresses: Vec<NetAddr>,
    /// The socket the tokens are bound to.
    pub socket_id: u8,
    /// The key tokens are sealed under.
    pub auth_key: Vec<u8>,
    /// The full connect URL of the WebSocket server.
    pub url: String,
}

impl ConnectMetaWasmWs {
    /// Mints a token for one WebSocket client.
    pub fn new_connect_token(&self, current_time_millis: u64, client_id: u64) -> (r: Result<
        ServerConnectToken,
        NetcodeError,
    >)
        requires
            self.auth_key@.len() == NETCODE_KEY_BYTES,
            current_time_millis / 1000 + self.expire_secs <= u64::MAX,
        ensures
            r is Ok <==> 1 <= self.server_addresses@.len() <= NETCODE_MAX_SERVER_ADDRESSES,
            r matches Ok(t) ==> t matches ServerConnectToken::WasmWs { token, url } && url@
                == self.url@ && minted_token(
                token@,
                self.protocol_id,
                current_time_millis / 1000,
                self.expire_secs,
                self.timeout_secs,
                self.server_addresses@,
                client_id,
                self.socket_id,
                self.auth_key@,
            ),
    {
        let token = match mint_token_bytes(
            current_time_millis,
            self.protocol_id,
            self.expire_secs,
            self.timeout_secs,
            self.socket_id,
            clone_addrs(&self.server_addresses),
            &self.auth_key,
            client_id,
        ) {
            Ok(b) => b,
            Err(e) => {
                return Err(e);
            },
        };
        Ok(ServerConnectToken::WasmWs { token, url: self.url.clone() })
    }
}

/// One optional minting bundle per transport variant.
#[derive(Debug, Clone)]
pub struct ConnectMetas {
    /// The in-memory bundle.
    pub memory: Option<ConnectMetaMemory>,
    /// The native bundle.
    pub native: Option<ConnectMetaNative>,
    /// The WebTransport bundle.
    pub wasm_wt: Option<ConnectMetaWasmWt>,
    /// The WebSocket bundle.
    pub wasm_ws: Option<ConnectMetaWasmWs>,
}

/// Key lengths every present bundle must have.
pub open spec fn metas_wf(m: ConnectMetas) -> bool {
    &&& (m.memory matches Some(b) ==> b.auth_key@.len() == NETCODE_KEY_BYTES)
    &&& (m.native matches Some(b) ==> b.auth_key@.len() == NETCODE_KEY_BYTES)
    &&& (m.wasm_wt matches Some(b) ==> b.auth_key@.len() == NETCODE_KEY_BYTES)
    &&& (m.wasm_ws matches Some(b) ==> b.auth_key@.len() == NETCODE_KEY_BYTES)
}

/// Expiry arithmetic every present bundle must admit at this clock.
pub open spec fn metas_expiry_ok(m: ConnectMetas, now: u64) -> bool {
    &&& (m.memory matches Some(b) ==> now / 1000 + b.expire_secs <= u64::MAX)
    &&& (m.native matches Some(b) ==> now / 1000 + b.expire_secs <= u64::MAX)
    &&& (m.wasm_wt matches Some(b) ==> now / 1000 + b.expire_secs <= u64::MAX)
    &&& (m.wasm_ws matches Some(b) ==> now / 1000 + b.expire_secs <= u64::MAX)
}

impl ConnectMetas {
    /// Mints a token from the bundle matching the requested connection
    /// type. A WebTransport request falls back to the WebSocket bundle when
    /// no WebTransport bundle exists; there are no other fallbacks.
    pub fn new_connect_token(
        &self,
        current_time_millis: u64,
        client_id: u64,
        connection_type: ConnectionType,
    ) -> (r: Result<ServerConnectToken, NetcodeError>)
        requires
            metas_wf(*self),
            metas_expiry_ok(*self, current_time_millis),
        ensures
            connection_type is Memory && self.memory is None ==> r is Err,
            connection_type is Native && self.native is None ==> r is Err,
            connection_type is WasmWs && self.wasm_ws is None ==> r is Err,
            connection_type is WasmWt && self.wasm_wt is None && self.wasm_ws is None ==> r
                is Err,
            connection_type is Memory ==> (self.memory matches Some(b) ==> ((r is Ok <==> exists|
                i: int,
            |
                0 <= i < b.clients@.len() && #[trigger] b.clients@[i] as u64 == client_id) && (
            r matches Ok(t) ==> t matches ServerConnectToken::Memory { token, client_id: cid }
                && cid as u64 == client_id && minted_token(
                token@,
                b.protocol_id,
                current_time_millis / 1000,
                b.expire_secs,
                b.timeout_secs,
                seq![NetAddr::V4 { ip: 0, port: 0 }],
                client_id,
                b.socket_id,
                b.auth_key@,
            )))),
            connection_type is Native ==> (self.native matches Some(b) ==> ((r is Ok <==> 1
                <= b.server_addresses@.len() <= NETCODE_MAX_SERVER_ADDRESSES) && (r matches Ok(t)
                ==> t matches ServerConnectToken::Native { token } && minted_token(
                token@,
                b.protocol_id,
                current_time_millis / 1000,
                b.expire_secs,
                b.timeout_secs,
                b.server_addresses@,
                client_id,
                b.socket_id,
                b.auth_key@,
            )))),
            connection_type is WasmWt ==> (self.wasm_wt matches Some(b) ==> ((r is Ok <==> 1
                <= b.server_addresses@.len() <= NETCODE_MAX_SERVER_ADDRESSES) && (r matches Ok(t)
                ==> t matches ServerConnectToken::WasmWt { token, cert_hashes } && minted_token(
                token@,
                b.protocol_id,
                current_time_millis / 1000,
                b.expire_secs,
                b.timeout_secs,
                b.server_addresses@,
                client_id,
                b.socket_id,
                b.auth_key@,
            ) && cert_hashes@.len() == b.cert_hashes@.len() && (forall|k: int|
                0 <= k < cert_hashes@.len() ==> cert_hashes@[k].hash@
                    == b.cert_hashes@[k].hash@)))),
            connection_type is WasmWt && self.wasm_wt is None ==> (self.wasm_ws matches Some(b)
                ==> ((r is Ok <==> 1 <= b.server_addresses@.len() <= NETCODE_MAX_SERVER_ADDRESSES)
                && (r matches Ok(t) ==> t matches ServerConnectToken::WasmWs { token, url } && url@
                == b.url@ && minted_token(
                token@,
                b.protocol_id,
                current_time_millis / 1000,
                b.expire_secs,
                b.timeout_secs,
                b.server_addresses@,
                client_id,
                b.socket_id,
                b.auth_key@,
            )))),
            connection_type is WasmWs ==> (self.wasm_ws matches Some(b) ==> ((r is Ok <==> 1
                <= b.server_addresses@.len() <= NETCODE_MAX_SERVER_ADDRESSES) && (r matches Ok(t)
                ==> t matches ServerConnectToken::WasmWs { token, url } && url@ == b.url@
                && minted_token(
                token@,
                b.protocol_id,
                current_time_millis / 1000,
                b.expire_secs,
                b.timeout_secs,
                b.server_addresses@,
                client_id,
                b.socket_id,
                b.auth_key@,
            )))),
    {
        match connection_type {
            ConnectionType::Memory => {
                match &self.memory {
                    Some(meta) => meta.new_connect_token(current_time_millis, client_id),
                    None => Err(NetcodeError::ClientNotFound),
                }
            },
            ConnectionType::Native => {
                match &self.native {
                    Some(meta) => meta.new_connect_token(current_time_millis, client_id),
                    None => Err(NetcodeError::ClientNotFound),
                }
            },
            ConnectionType::WasmWt => {
                match &self.wasm_wt {
                    Some(meta) => meta.new_connect_token(current_time_millis, client_id),
                    None => match &self.wasm_ws {
                        Some(meta) => meta.new_connect_token(current_time_millis, client_id),
                        None => Err(NetcodeError::ClientNotFound),
                    },
                }
            },
            ConnectionType::WasmWs => {
                match &self.wasm_ws {
                    Some(meta) => meta.new_connect_token(current_time_millis, client_id),
                    None => Err(NetcodeError::ClientNotFound),
                }
            },
        }
    }
}

/// The decimal digit character of one value below ten.
pub open spec fn spec_digit(d: int) -> char {
    if d == 0 {
        '0'
    } else if d == 1 {
        '1'
    } else if d == 2 {
        '2'
    } else if d == 3 {
        '3'
    } else if d == 4 {
        '4'
    } else if d == 5 {
        '5'
    } else if d == 6 {
        '6'
    } else if d == 7 {
        '7'
    } else if d == 8 {
        '8'
    } else {
        '9'
    }
}

/// The decimal digits of a value, most significant first.
pub open spec fn dec_str(n: int) -> Seq<char>
    decreases n,
{
    if n < 10 {
        seq![spec_digit(n)]
    } else {
        dec_str(n / 10) + seq![spec_digit(n % 10)]
    }
}

/// Appends the decimal digit character of one value below ten.
fn push_digit(s: &mut String, d: u16)
    requires
        d < 10,
    ensures
        final(s)@ == old(s)@ + seq![spec_digit(d as int)],
{
    let lit: &str = if d == 0 {
        "0"
    } else if d == 1 {
        "1"
    } else if d == 2 {
        "2"
    } else if d == 3 {
        "3"
    } else if d == 4 {
        "4"
    } else if d == 5 {
        "5"
    } else if d == 6 {
        "6"
    } else if d == 7 {
        "7"
    } else if d == 8 {
        "8"
    } else {
        "9"
    };
    proof {
        reveal_strlit("0");
        reveal_strlit("1");
        reveal_strlit("2");
        reveal_strlit("3");
        reveal_strlit("4");
        reveal_strlit("5");
        reveal_strlit("6");
        reveal_strlit("7");
        reveal_strlit("8");
        reveal_strlit("9");
    }
    s.append(lit);
    proof {
        assert(final(s)@ =~= old(s)@ + seq![spec_digit(d as int)]);
    }
}

/// Appends the decimal digits of a port number.
fn push_decimal(s: &mut String, n: u16)
    ensures
        final(s)@ == old(s)@ + dec_str(n as int),
    decreases n,
{
    if n >= 10 {
        push_decimal(s, n / 10);
    }
    push_digit(s, n % 10);
    proof {
        assert(final(s)@ =~= old(s)@ + dec_str(n as int));
    }
}

/// The characters of a WebSocket connect URL: the scheme for plain or
/// TLS-fronted sockets, the host, the port in decimal, and the fixed path.
pub open spec fn websocket_url_chars(with_tls: bool, host: Seq<char>, port: u16) -> Seq<char> {
    (if with_tls {
        "wss://"@
    } else {
        "ws://"@
    }) + host + ":"@ + dec_str(port as int) + "/ws"@
}

/// Builds the WebSocket connect URL `{ws|wss}://{host}:{port}/ws`.
pub fn websocket_url(with_tls: bool, host: &String, port: u16) -> (r: String)
    ensures
        r@ == websocket_url_chars(with_tls, host@, port),
{
    let mut s = if with_tls {
        String::from_str("wss://")
    } else {
        String::from_str("ws://")
    };
    s.append(host.as_str());
    s.append(":");
    push_decimal(&mut s, port);
    s.append("/ws");
    proof {
        assert(s@ =~= websocket_url_chars(with_tls, host@, port));
    }
    s
}


/// The address list a socket advertises in connect tokens: a WebSocket
/// domain hides the address behind a dummy, a proxy ip replaces the local
/// ip while keeping the resolved local port, and otherwise the local
/// address stands as it is.
pub fn advertised_addresses(
    proxy_ip: &Option<IpValue>,
    uses_domain: bool,
    local: NetAddr,
) -> (r: Vec<NetAddr>)
    ensures
        r@.len() == 1,
        uses_domain ==> r@[0] == (NetAddr::V4 { ip: 0, port: 0 }),
        !uses_domain ==> match proxy_ip {
            Some(proxy) => r@[0] == proxy.spec_to_addr(local.spec_port()),
            None => r@[0] == local,
        },
{
    let mut r: Vec<NetAddr> = Vec::new();
    if uses_domain {
        r.push(NetAddr::V4 { ip: 0, port: 0 });
    } else {
        match proxy_ip {
            Some(proxy) => r.push(proxy.to_addr(local.port())),
            None => r.push(local),
        }
    }
    r
}

/// The socket ids a combined server assigns: one per transport variant that
/// expects clients, counted in the order in-memory, native, WebTransport,
/// WebSocket, each id taken before the next socket is added.
pub fn combo_socket_ids(counts: &ClientCounts) -> (r: (
    Option<u8>,
    Option<u8>,
    Option<u8>,
    Option<u8>,
))
    ensures
        ({
            let memory_n: int = if counts.memory_clients@.len() > 0 {
                1
            } else {
                0
            };
            let native_n: int = if counts.native_count > 0 {
                1
            } else {
                0
            };
            let wt_n: int = if counts.wasm_wt_count > 0 {
                1
            } else {
                0
            };
            &&& r.0 == if counts.memory_clients@.len() > 0 {
                Some(0u8)
            } else {
                None::<u8>
            }
            &&& r.1 == if counts.native_count > 0 {
                Some(memory_n as u8)
            } else {
                None::<u8>
            }
            &&& r.2 == if counts.wasm_wt_count > 0 {
                Some((memory_n + native_n) as u8)
            } else {
                None::<u8>
            }
            &&& r.3 == if counts.wasm_ws_count > 0 {
                Some((memory_n + native_n + wt_n) as u8)
            } else {
                None::<u8>
            }
        }),
{
    let mut next: u8 = 0;
    let memory = if counts.memory_clients.len() > 0 {
        let id = next;
        next = next + 1;
        Some(id)
    } else {
        None
    };
    let native = if counts.native_count > 0 {
        let id = next;
        next = next + 1;
        Some(id)
    } else {
        None
    };
    let wasm_wt = if counts.wasm_wt_count > 0 {
        let id = next;
        next = next + 1;
        Some(id)
    } else {
        None
    };
    let wasm_ws = if counts.wasm_ws_count > 0 {
        Some(next)
    } else {
        None
    };
    (memory, native, wasm_wt, wasm_ws)
}

} // verus!
