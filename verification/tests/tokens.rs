//! Connect-token round trips, sealing, replay protection, and the minting
//! bundles.

use netcode_core::addr::{client_address_from_server_address, NetAddr};
use netcode_core::crypto::generate_random_bytes;
use netcode_core::replay::ReplayProtection;
use netcode_core::setup::{advertised_addresses, combo_socket_ids, connect_token_from_bytes,
    connect_token_to_bytes, websocket_url, ClientCounts, ConnectMetaMemory, ConnectMetaNative,
    ConnectMetas, ConnectionType, GameServerSetupConfig, IpValue, ServerConnectToken};
use netcode_core::token::{ConnectToken, PrivateConnectToken};
use netcode_core::{NetcodeError, NETCODE_USER_DATA_BYTES};

const TEST_KEY: &[u8; 32] = b"an example very very secret key.";
const TEST_PROTOCOL_ID: u64 = 7;

fn test_key() -> Vec<u8> {
    TEST_KEY.to_vec()
}

#[test]
fn connect_token_round_trip() {
    let user_data = generate_random_bytes(NETCODE_USER_DATA_BYTES);
    let addresses = vec![NetAddr::v4(127, 0, 0, 1, 5000), NetAddr::V6 { ip: 1, port: 9000 }];
    let token = ConnectToken::generate(
        1_500,
        TEST_PROTOCOL_ID,
        30,
        11,
        -1,
        2,
        addresses.clone(),
        Some(&user_data),
        &test_key(),
    )
    .unwrap();
    assert_eq!(token.create_timestamp, 1);
    assert_eq!(token.expire_timestamp, 31);
    assert_eq!(token.timeout_seconds, -1);
    assert_eq!(token.server_addresses, addresses);

    let bytes = connect_token_to_bytes(&token).unwrap();
    let back = connect_token_from_bytes(&bytes).unwrap();
    assert_eq!(back.version_info, token.version_info);
    assert_eq!(back.protocol_id, token.protocol_id);
    assert_eq!(back.create_timestamp, token.create_timestamp);
    assert_eq!(back.expire_timestamp, token.expire_timestamp);
    assert_eq!(back.xnonce, token.xnonce);
    assert_eq!(back.private_data, token.private_data);
    assert_eq!(back.timeout_seconds, token.timeout_seconds);
    assert_eq!(back.server_addresses, token.server_addresses);
    assert_eq!(back.client_to_server_key, token.client_to_server_key);
    assert_eq!(back.server_to_client_key, token.server_to_client_key);

    // A truncated or padded buffer no longer deserialises.
    let mut truncated = bytes.clone();
    truncated.pop();
    assert!(connect_token_from_bytes(&truncated).is_err());
    let mut padded = bytes.clone();
    padded.push(0);
    assert!(connect_token_from_bytes(&padded).is_err());
}

#[test]
fn connect_token_rejects_empty_address_list() {
    let r = ConnectToken::generate(0, 1, 1, 1, 1, 0, Vec::new(), None, &test_key());
    assert!(matches!(r, Err(NetcodeError::InvalidAddressCount)));
}

#[test]
fn private_token_seal_round_trip() {
    let private = PrivateConnectToken {
        client_id: 42,
        timeout_seconds: 9,
        socket_id: 1,
        server_addresses: vec![NetAddr::v4(10, 0, 0, 1, 443)],
        client_to_server_key: generate_random_bytes(32),
        server_to_client_key: generate_random_bytes(32),
        user_data: generate_random_bytes(NETCODE_USER_DATA_BYTES),
    };
    let xnonce = generate_random_bytes(24);
    let sealed = private.seal(TEST_PROTOCOL_ID, 77, &xnonce, &test_key());
    assert_eq!(sealed.len(), 1024);

    let opened = PrivateConnectToken::decode(&sealed, TEST_PROTOCOL_ID, 77, &xnonce, &test_key())
        .unwrap();
    assert_eq!(opened.client_id, private.client_id);
    assert_eq!(opened.timeout_seconds, private.timeout_seconds);
    assert_eq!(opened.socket_id, private.socket_id);
    assert_eq!(opened.server_addresses, private.server_addresses);
    assert_eq!(opened.client_to_server_key, private.client_to_server_key);
    assert_eq!(opened.server_to_client_key, private.server_to_client_key);
    assert_eq!(opened.user_data, private.user_data);

    // The wrong key fails.
    let wrong_key = generate_random_bytes(32);
    assert!(PrivateConnectToken::decode(&sealed, TEST_PROTOCOL_ID, 77, &xnonce, &wrong_key)
        .is_err());
    // Altered associated data (another protocol, another expiry) fails.
    assert!(PrivateConnectToken::decode(&sealed, TEST_PROTOCOL_ID + 1, 77, &xnonce, &test_key())
        .is_err());
    assert!(PrivateConnectToken::decode(&sealed, TEST_PROTOCOL_ID, 78, &xnonce, &test_key())
        .is_err());
    // A tampered ciphertext fails.
    let mut tampered = sealed.clone();
    tampered[0] ^= 1;
    assert!(PrivateConnectToken::decode(&tampered, TEST_PROTOCOL_ID, 77, &xnonce, &test_key())
        .is_err());
}

#[test]
fn replay_protection_rejects_second_delivery() {
    let mut rp = ReplayProtection::new();
    assert!(!rp.is_already_received(0));
    rp.advance_sequence(0);
    assert!(rp.is_already_received(0));

    assert!(!rp.is_already_received(5));
    rp.advance_sequence(5);
    assert!(rp.is_already_received(5));
    // Within the window, unseen values are still accepted.
    assert!(!rp.is_already_received(3));
    // Far ahead moves the window; what fell out is refused as stale.
    rp.advance_sequence(1000);
    assert!(rp.is_already_received(3));
    assert!(rp.is_already_received(5));
    assert!(rp.is_already_received(1000));
    assert!(!rp.is_already_received(900));
    rp.advance_sequence(900);
    assert!(rp.is_already_received(900));
}

#[test]
fn random_bytes_have_the_asked_length_and_vary() {
    let a = generate_random_bytes(32);
    let b = generate_random_bytes(32);
    assert_eq!(a.len(), 32);
    assert_eq!(b.len(), 32);
    assert_ne!(a, b);
}

#[test]
fn websocket_url_format() {
    let host = String::from("example.net");
    assert_eq!(websocket_url(true, &host, 8080), "wss://example.net:8080/ws");
    assert_eq!(websocket_url(false, &host, 80), "ws://example.net:80/ws");
    let ip = String::from("127.0.0.1");
    assert_eq!(websocket_url(false, &ip, 0), "ws://127.0.0.1:0/ws");
}

#[test]
fn client_counts_add_and_total() {
    let mut counts = ClientCounts::new();
    counts.add(ConnectionType::Memory, 3);
    counts.add(ConnectionType::Native, 100);
    counts.add(ConnectionType::Native, 101);
    counts.add(ConnectionType::WasmWt, 102);
    counts.add(ConnectionType::WasmWs, 103);
    assert_eq!(counts.memory_clients, vec![3u16]);
    assert_eq!(counts.native_count, 2);
    assert_eq!(counts.wasm_wt_count, 1);
    assert_eq!(counts.wasm_ws_count, 1);
    assert_eq!(counts.total(), 5);
}

#[test]
fn inferred_connection_type_is_native() {
    assert_eq!(ConnectionType::inferred(), ConnectionType::Native);
}

#[test]
fn connect_metas_select_the_matching_bundle() {
    let memory = ConnectMetaMemory {
        protocol_id: TEST_PROTOCOL_ID,
        expire_secs: 10,
        timeout_secs: 5,
        clients: vec![4],
        socket_id: 0,
        auth_key: test_key(),
    };
    let native = ConnectMetaNative {
        protocol_id: TEST_PROTOCOL_ID,
        expire_secs: 10,
        timeout_secs: 5,
        server_addresses: vec![NetAddr::v4(127, 0, 0, 1, 5000)],
        socket_id: 1,
        auth_key: test_key(),
    };
    let metas = ConnectMetas {
        memory: Some(memory),
        native: Some(native),
        wasm_wt: None,
        wasm_ws: None,
    };
    let t = metas.new_connect_token(0, 4, ConnectionType::Memory).unwrap();
    assert!(matches!(t, ServerConnectToken::Memory { client_id: 4, .. }));
    let t = metas.new_connect_token(0, 9, ConnectionType::Native).unwrap();
    match t {
        ServerConnectToken::Native { token } => {
            let parsed = connect_token_from_bytes(&token).unwrap();
            assert_eq!(parsed.protocol_id, TEST_PROTOCOL_ID);
            assert_eq!(parsed.expire_timestamp, 10);
            assert_eq!(parsed.server_addresses, vec![NetAddr::v4(127, 0, 0, 1, 5000)]);
        }
        _ => unreachable!(),
    }
    // An unknown in-memory client cannot be minted a token.
    assert!(metas.new_connect_token(0, 5, ConnectionType::Memory).is_err());
    // A WebTransport request with neither browser bundle fails.
    assert!(metas.new_connect_token(0, 4, ConnectionType::WasmWt).is_err());
    assert!(metas.new_connect_token(0, 4, ConnectionType::WasmWs).is_err());
}

#[test]
fn meta_and_config_placeholders() {
    let meta = ConnectMetaNative::dummy();
    assert_eq!(meta.server_addresses, vec![NetAddr::v4(127, 0, 0, 1, 8080)]);
    assert_eq!(meta.auth_key.len(), 32);
    let config = GameServerSetupConfig::dummy();
    assert_eq!(config.protocol_id, 0);
    assert_eq!(config.expire_secs, 10);
    assert_eq!(config.timeout_secs, 5);
    assert!(matches!(config.server_ip, IpValue::V4 { ip: 0x7f000001 }));
    let default_token = ServerConnectToken::default();
    assert!(matches!(default_token, ServerConnectToken::Native { ref token } if token.is_empty()));
}

#[test]
fn setup_helpers_pick_addresses_and_socket_ids() {
    let local = NetAddr::v4(192, 168, 0, 9, 777);
    assert_eq!(advertised_addresses(&None, true, local), vec![NetAddr::v4(0, 0, 0, 0, 0)]);
    assert_eq!(advertised_addresses(&None, false, local), vec![local]);
    let proxy = Some(IpValue::V4 { ip: 0x01020304 });
    assert_eq!(
        advertised_addresses(&proxy, false, local),
        vec![NetAddr::v4(1, 2, 3, 4, 777)]
    );

    let mut counts = ClientCounts::new();
    counts.add(ConnectionType::Native, 1);
    counts.add(ConnectionType::WasmWs, 2);
    assert_eq!(combo_socket_ids(&counts), (None, Some(0), None, Some(1)));
    counts.add(ConnectionType::Memory, 3);
    counts.add(ConnectionType::WasmWt, 4);
    assert_eq!(combo_socket_ids(&counts), (Some(0), Some(1), Some(2), Some(3)));

    assert_eq!(
        client_address_from_server_address(&NetAddr::v4(10, 0, 0, 1, 80)),
        NetAddr::v4(0, 0, 0, 0, 0)
    );
    assert_eq!(
        client_address_from_server_address(&NetAddr::V6 { ip: 77, port: 80 }),
        NetAddr::V6 { ip: 0, port: 0 }
    );
}
