//! End-to-end exercises of the netcode server with a hand-driven client
//! side: handshake, payload exchange, keep-alive cadence, explicit
//! disconnect, token reuse and token expiry.

use netcode_core::addr::NetAddr;
use netcode_core::crypto::generate_random_bytes;
use netcode_core::packet::Packet;
use netcode_core::server::{ConnectTokenEntry, NetcodeServer, ServerAuthentication, ServerConfig,
    ServerResult, ServerSocketConfig};
use netcode_core::token::ConnectToken;
use netcode_core::{NETCODE_SEND_RATE_MILLIS, NETCODE_USER_DATA_BYTES};

const TEST_KEY: &[u8; 32] = b"an example very very secret key.";
const TEST_PROTOCOL_ID: u64 = 7;

fn test_key() -> Vec<u8> {
    TEST_KEY.to_vec()
}

fn new_server() -> NetcodeServer {
    let config = ServerConfig {
        current_time: 0,
        max_clients: 16,
        protocol_id: TEST_PROTOCOL_ID,
        sockets: vec![ServerSocketConfig::new(vec![NetAddr::v4(127, 0, 0, 1, 5000)])],
        authentication: ServerAuthentication::Secure { private_key: test_key() },
    };
    NetcodeServer::new(config)
}

/// A hand-driven client end of the handshake.
struct TestClient {
    token: ConnectToken,
    sequence: u64,
    connected: bool,
}

impl TestClient {
    fn new(token: ConnectToken) -> TestClient {
        TestClient { token, sequence: 0, connected: false }
    }

    fn connection_request(&self) -> Vec<u8> {
        let packet = Packet::ConnectionRequest {
            version_info: self.token.version_info.clone(),
            protocol_id: self.token.protocol_id,
            expire_timestamp: self.token.expire_timestamp,
            xnonce: self.token.xnonce.clone(),
            data: self.token.private_data.clone(),
        };
        packet.encode(TEST_PROTOCOL_ID, None, true).unwrap()
    }

    /// Decodes one server frame and answers it as a client would.
    fn process_packet(&mut self, frame: &Vec<u8>) -> Option<Vec<u8>> {
        let (_, packet) = Packet::decode(
            frame,
            TEST_PROTOCOL_ID,
            Some(&self.token.server_to_client_key),
            true,
        )
        .unwrap();
        match packet {
            Packet::Challenge { token_sequence, token_data } => {
                let response = Packet::Response { token_sequence, token_data };
                let bytes = response
                    .encode(
                        TEST_PROTOCOL_ID,
                        Some((self.sequence, &self.token.client_to_server_key)),
                        true,
                    )
                    .unwrap();
                self.sequence += 1;
                Some(bytes)
            }
            Packet::KeepAlive { .. } => {
                self.connected = true;
                None
            }
            Packet::Disconnect => {
                self.connected = false;
                None
            }
            _ => None,
        }
    }

}

#[test]
fn server_connection() {
    let mut server = new_server();
    let server_addresses: Vec<NetAddr> = server.addresses(0);
    let user_data = generate_random_bytes(NETCODE_USER_DATA_BYTES);
    let expire_seconds = 3;
    let client_id = 4;
    let timeout_seconds = 5;
    let client_addr = NetAddr::v4(127, 0, 0, 1, 3000);
    let connect_token = ConnectToken::generate(
        0,
        TEST_PROTOCOL_ID,
        expire_seconds,
        client_id,
        timeout_seconds,
        0,
        server_addresses,
        Some(&user_data),
        &test_key(),
    )
    .unwrap();
    let mut client = TestClient::new(connect_token);

    let request = client.connection_request();
    let result = server.process_packet(0, client_addr, &request);
    let response = match result {
        ServerResult::ConnectionAccepted { client_id: rid, payload, .. } => {
            assert_eq!(rid, client_id);
            client.process_packet(&payload).unwrap()
        }
        _ => unreachable!(),
    };
    assert!(!client.connected);

    let result = server.process_packet(0, client_addr, &response);
    match result {
        ServerResult::ClientConnected { socket_id, client_id: r_id, user_data: r_data, payload, .. } => {
            assert_eq!(socket_id, 0);
            assert_eq!(client_id, r_id);
            assert_eq!(user_data, r_data);
            client.process_packet(&payload);
        }
        _ => unreachable!(),
    }
    assert!(client.connected);

    // The server sends three payloads of 0x07; the client decodes each.
    for _ in 0..3 {
        let payload = vec![7u8; 300];
        let (_, _, packet) = server.generate_payload_packet(client_id, &payload).unwrap();
        let (_, decoded) = Packet::decode(
            &packet,
            TEST_PROTOCOL_ID,
            Some(&client.token.server_to_client_key),
            true,
        )
        .unwrap();
        match decoded {
            Packet::Payload { payload: result_payload } => assert_eq!(payload, result_payload),
            _ => unreachable!(),
        }
    }

    // Keep-alive cadence: silent until the send rate elapses.
    let result = server.update_client(client_id);
    assert!(matches!(result, ServerResult::NoAction));
    server.update(NETCODE_SEND_RATE_MILLIS);

    let result = server.update_client(client_id);
    match result {
        ServerResult::PacketToSend { payload, .. } => {
            assert!(client.process_packet(&payload).is_none());
        }
        _ => unreachable!(),
    }
    assert!(client.connected);

    // The client sends a payload of 0x02; the server surfaces it.
    let client_payload = vec![2u8; 300];
    let packet = Packet::Payload { payload: client_payload.clone() };
    let bytes = packet
        .encode(
            TEST_PROTOCOL_ID,
            Some((client.sequence, &client.token.client_to_server_key)),
            true,
        )
        .unwrap();
    client.sequence += 1;
    match server.process_packet(0, client_addr, &bytes) {
        ServerResult::Payload { client_id: id, payload } => {
            assert_eq!(id, client_id);
            assert_eq!(client_payload, payload);
        }
        _ => unreachable!(),
    }

    // Explicit disconnect: the client decodes the packet and is out.
    assert!(server.is_client_connected(client_id));
    let result = server.disconnect(client_id);
    match result {
        ServerResult::ClientDisconnected { payload: Some(payload), .. } => {
            assert!(client.connected);
            assert!(client.process_packet(&payload).is_none());
            assert!(!client.connected);
        }
        _ => unreachable!(),
    }
    assert!(!server.is_client_connected(client_id));
    // A second disconnect does nothing.
    assert!(matches!(server.disconnect(client_id), ServerResult::NoAction));
}

#[test]
fn connect_token_already_used() {
    let mut server = new_server();

    let client_addr = NetAddr::v4(127, 0, 0, 1, 3000);
    let mut connect_token = ConnectTokenEntry {
        time: 0,
        socket_id: 0,
        address: client_addr,
        mac: generate_random_bytes(16),
    };
    // Allow first entry
    assert!(server.find_or_add_connect_token_entry(&connect_token));
    // Allow same token with the same address
    assert!(server.find_or_add_connect_token_entry(&connect_token));

    // Don't allow same token with different socket id
    connect_token.socket_id = 1;
    assert!(!server.find_or_add_connect_token_entry(&connect_token));
    connect_token.socket_id = 0;

    // Don't allow same token with different address
    connect_token.address = NetAddr::v4(127, 0, 0, 1, 3001);
    assert!(!server.find_or_add_connect_token_entry(&connect_token));
}

#[test]
fn token_expiry_while_pending() {
    let mut server = new_server();
    let client_addr = NetAddr::v4(127, 0, 0, 1, 3000);
    let connect_token = ConnectToken::generate(
        0,
        TEST_PROTOCOL_ID,
        1,
        4,
        5,
        0,
        server.addresses(0),
        None,
        &test_key(),
    )
    .unwrap();
    let mut client = TestClient::new(connect_token);

    let request = client.connection_request();
    let result = server.process_packet(0, client_addr, &request);
    let response = match result {
        ServerResult::ConnectionAccepted { payload, .. } => client.process_packet(&payload).unwrap(),
        _ => unreachable!(),
    };

    // Two seconds pass before the response arrives; the pending handshake
    // has expired and is gone, so the response is rejected.
    server.update(2_000);
    let result = server.process_packet(0, client_addr, &response);
    assert!(matches!(result, ServerResult::Error { .. }));
    assert!(!server.is_client_connected(4));
}

#[test]
fn duplicate_payload_sequence_is_rejected() {
    let mut server = new_server();
    let client_addr = NetAddr::v4(127, 0, 0, 1, 3000);
    let connect_token = ConnectToken::generate(
        0,
        TEST_PROTOCOL_ID,
        3,
        4,
        5,
        0,
        server.addresses(0),
        None,
        &test_key(),
    )
    .unwrap();
    let mut client = TestClient::new(connect_token);
    let request = client.connection_request();
    let response = match server.process_packet(0, client_addr, &request) {
        ServerResult::ConnectionAccepted { payload, .. } => client.process_packet(&payload).unwrap(),
        _ => unreachable!(),
    };
    match server.process_packet(0, client_addr, &response) {
        ServerResult::ClientConnected { .. } => {}
        _ => unreachable!(),
    }

    let bytes = Packet::Payload { payload: vec![9u8; 10] }
        .encode(TEST_PROTOCOL_ID, Some((client.sequence, &client.token.client_to_server_key)), true)
        .unwrap();
    match server.process_packet(0, client_addr, &bytes) {
        ServerResult::Payload { .. } => {}
        _ => unreachable!(),
    }
    // The identical frame replays the same sequence and is dropped.
    match server.process_packet(0, client_addr, &bytes) {
        ServerResult::Error { .. } => {}
        _ => unreachable!(),
    }
}

#[test]
fn wrong_key_and_junk_are_rejected() {
    let mut server = new_server();
    let client_addr = NetAddr::v4(127, 0, 0, 1, 3000);
    // A frame sealed with a random key for an unknown peer is no request.
    let junk_key = generate_random_bytes(32);
    let bytes = Packet::Payload { payload: vec![1u8; 10] }
        .encode(TEST_PROTOCOL_ID, Some((0, &junk_key)), true)
        .unwrap();
    assert!(matches!(
        server.process_packet(0, client_addr, &bytes),
        ServerResult::Error { .. }
    ));
    // A too-short buffer is rejected outright.
    let short = vec![0u8; 4];
    assert!(matches!(
        server.process_packet(0, client_addr, &short),
        ServerResult::Error { .. }
    ));
    // An unknown socket id is rejected.
    let request = vec![0u8; 64];
    assert!(matches!(
        server.process_packet(9, client_addr, &request),
        ServerResult::Error { .. }
    ));
}

#[test]
fn payload_errors() {
    let mut server = new_server();
    let too_long = vec![0u8; 1300];
    assert!(server.generate_payload_packet(4, &too_long).is_err());
    let fine = vec![0u8; 8];
    assert!(server.generate_payload_packet(4, &fine).is_err());
    assert_eq!(server.user_data(4), None);
    assert_eq!(server.client_addr(4), None);
    assert_eq!(server.time_since_last_received_packet(4), None);
    assert_eq!(server.connected_clients(), 0);
    assert_eq!(server.clients_id(), Vec::<u64>::new());
    assert_eq!(server.clients_slot(), Vec::<usize>::new());
    assert_eq!(server.max_clients(), 16);
    server.set_max_clients(100_000);
    assert_eq!(server.max_clients(), 1024);
}

#[test]
fn unencrypted_socket_round_trip() {
    let mut socket = ServerSocketConfig::new(vec![NetAddr::v4(127, 0, 0, 1, 5000)]);
    socket.needs_encryption = false;
    let config = ServerConfig {
        current_time: 0,
        max_clients: 2,
        protocol_id: TEST_PROTOCOL_ID,
        sockets: vec![socket],
        authentication: ServerAuthentication::Unsecure,
    };
    let mut server = NetcodeServer::new(config);
    let client_addr = NetAddr::v4(127, 0, 0, 1, 3000);
    let zero_key = vec![0u8; 32];
    let connect_token = ConnectToken::generate(
        0,
        TEST_PROTOCOL_ID,
        3,
        4,
        5,
        0,
        vec![NetAddr::v4(127, 0, 0, 1, 5000)],
        None,
        &zero_key,
    )
    .unwrap();
    let request = Packet::ConnectionRequest {
        version_info: connect_token.version_info.clone(),
        protocol_id: connect_token.protocol_id,
        expire_timestamp: connect_token.expire_timestamp,
        xnonce: connect_token.xnonce.clone(),
        data: connect_token.private_data.clone(),
    }
    .encode(TEST_PROTOCOL_ID, None, false)
    .unwrap();
    let challenge = match server.process_packet(0, client_addr, &request) {
        ServerResult::ConnectionAccepted { payload, .. } => payload,
        _ => unreachable!(),
    };
    // On an unencrypted socket the frame decodes without any key.
    let (_, packet) = Packet::decode(&challenge, TEST_PROTOCOL_ID, None, false).unwrap();
    let response = match packet {
        Packet::Challenge { token_sequence, token_data } => {
            Packet::Response { token_sequence, token_data }
                .encode(TEST_PROTOCOL_ID, Some((0, &zero_key)), false)
                .unwrap()
        }
        _ => unreachable!(),
    };
    match server.process_packet(0, client_addr, &response) {
        ServerResult::ClientConnected { client_id, .. } => assert_eq!(client_id, 4),
        _ => unreachable!(),
    }
    assert!(server.is_client_connected(4));
}

#[test]
fn expired_token_is_rejected_at_request() {
    let mut server = new_server();
    let client_addr = NetAddr::v4(127, 0, 0, 1, 3000);
    let connect_token = ConnectToken::generate(
        0,
        TEST_PROTOCOL_ID,
        1,
        4,
        5,
        0,
        server.addresses(0),
        None,
        &test_key(),
    )
    .unwrap();
    let client = TestClient::new(connect_token);
    let request = client.connection_request();
    // The token expired a second before the request lands.
    server.update(2_000);
    assert!(matches!(
        server.process_packet(0, client_addr, &request),
        ServerResult::Error { .. }
    ));
    assert!(!server.is_client_connected(4));
}
