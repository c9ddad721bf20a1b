use censorless_protocol::address::SocksAddress;
use censorless_protocol::error::{DataFault, ProtocolError};
use censorless_protocol::message::{
    ClientMessage, ClientMessageType, ErrorCode, ServerResponse, ServerResponseType,
};

fn sample_client() -> ClientMessage {
    ClientMessage {
        client_public_key: [7u8; 32],
        nonce: 0x0102_0304_0506_0708,
        messages: vec![
            ClientMessageType::StartConnection {
                host: SocksAddress::IPv4([1, 2, 3, 4]),
                port: 0x1F90,
            },
            ClientMessageType::Poll,
            ClientMessageType::Close { connection_id_signed: vec![0xAB, 0xCD] },
            ClientMessageType::Data {
                connection_id_signed: vec![0x11],
                data: vec![1, 2, 3],
                compressed: true,
            },
        ],
    }
}

#[test]
fn client_message_bytes_are_exact() {
    let bytes = sample_client().serialize().unwrap();
    let mut expected = vec![7u8; 32];
    expected.extend_from_slice(&[8, 7, 6, 5, 4, 3, 2, 1]);
    expected.extend_from_slice(&[0x00, 0x01, 1, 2, 3, 4, 0x90, 0x1F]);
    expected.extend_from_slice(&[0x03]);
    expected.extend_from_slice(&[0x02, 2, 0xAB, 0xCD]);
    // data: short data is never compressed
    expected.extend_from_slice(&[0x01, 1, 0x11, 0x00, 3, 0, 0, 0, 3, 0, 0, 0, 1, 2, 3]);
    assert_eq!(bytes, expected);
}

#[test]
fn client_message_roundtrip() {
    let m = sample_client();
    let bytes = m.serialize().unwrap();
    let back = ClientMessage::deserialize(&bytes).unwrap();
    assert_eq!(back.client_public_key, m.client_public_key);
    assert_eq!(back.nonce, m.nonce);
    assert_eq!(back.messages.len(), 4);
    match &back.messages[0] {
        ClientMessageType::StartConnection { host, port } => {
            assert_eq!(*host, SocksAddress::IPv4([1, 2, 3, 4]));
            assert_eq!(*port, 0x1F90);
        }
        _ => panic!("expected start"),
    }
    assert!(matches!(back.messages[1], ClientMessageType::Poll));
    match &back.messages[2] {
        ClientMessageType::Close { connection_id_signed } => {
            assert_eq!(connection_id_signed, &vec![0xAB, 0xCD])
        }
        _ => panic!("expected close"),
    }
    match &back.messages[3] {
        ClientMessageType::Data { connection_id_signed, data, compressed } => {
            assert_eq!(connection_id_signed, &vec![0x11]);
            assert_eq!(data, &vec![1, 2, 3]);
            // not compressed on the wire, so it reads back as not compressed
            assert!(!compressed);
        }
        _ => panic!("expected data"),
    }
}

#[test]
fn large_data_is_compressed_and_reads_back() {
    let data: Vec<u8> = (0..4000u32).map(|i| (i % 7) as u8).collect();
    let m = ClientMessage {
        client_public_key: [0u8; 32],
        nonce: 1,
        messages: vec![ClientMessageType::Data {
            connection_id_signed: vec![],
            data: data.clone(),
            compressed: true,
        }],
    };
    let bytes = m.serialize().unwrap();
    assert!(bytes.len() < 40 + 12 + data.len());
    assert_eq!(bytes[42], 0x01); // compression flag
    let back = ClientMessage::deserialize(&bytes).unwrap();
    match &back.messages[0] {
        ClientMessageType::Data { data: d, compressed, .. } => {
            assert_eq!(d, &data);
            assert!(*compressed);
        }
        _ => panic!("expected data"),
    }
    // without asking for compression, the data goes as it is
    let m2 = ClientMessage {
        client_public_key: [0u8; 32],
        nonce: 1,
        messages: vec![ClientMessageType::Data {
            connection_id_signed: vec![],
            data: data.clone(),
            compressed: false,
        }],
    };
    let bytes2 = m2.serialize().unwrap();
    assert_eq!(bytes2.len(), 40 + 2 + 9 + data.len());
    assert_eq!(bytes2[42], 0x00);
}

#[test]
fn client_serialize_errors() {
    let m = ClientMessage {
        client_public_key: [0u8; 32],
        nonce: 1,
        messages: vec![ClientMessageType::Close { connection_id_signed: vec![0; 256] }],
    };
    assert_eq!(m.serialize().unwrap_err(), ProtocolError::InvalidData(DataFault::SignedIdTooLong));
    let m = ClientMessage {
        client_public_key: [0u8; 32],
        nonce: 1,
        messages: vec![
            ClientMessageType::Poll,
            ClientMessageType::StartConnection {
                host: SocksAddress::Domain("x".repeat(300)),
                port: 1,
            },
        ],
    };
    assert_eq!(m.serialize().unwrap_err(), ProtocolError::InvalidData(DataFault::DomainTooLong));
}

#[test]
fn client_deserialize_errors() {
    assert_eq!(ClientMessage::deserialize(&[0u8; 39]).unwrap_err(), ProtocolError::Io);
    let mut bytes = vec![0u8; 40];
    bytes.push(0x09);
    assert_eq!(ClientMessage::deserialize(&bytes).unwrap_err(), ProtocolError::InvalidMessageType(9));
    let mut bytes = vec![0u8; 40];
    bytes.extend_from_slice(&[0x02, 5, 1, 2]);
    assert_eq!(ClientMessage::deserialize(&bytes).unwrap_err(), ProtocolError::Io);
    // announced length 5, actual data 3 bytes, not compressed
    let mut bytes = vec![0u8; 40];
    bytes.extend_from_slice(&[0x01, 0, 0x00, 5, 0, 0, 0, 3, 0, 0, 0, 1, 2, 3]);
    assert_eq!(
        ClientMessage::deserialize(&bytes).unwrap_err(),
        ProtocolError::InvalidData(DataFault::LengthMismatch { expected: 5, got: 3 })
    );
    // compressed flag on bytes that are not zstd
    let mut bytes = vec![0u8; 40];
    bytes.extend_from_slice(&[0x01, 0, 0x01, 3, 0, 0, 0, 3, 0, 0, 0, 1, 2, 3]);
    assert_eq!(
        ClientMessage::deserialize(&bytes).unwrap_err(),
        ProtocolError::InvalidData(DataFault::DecompressionFailed)
    );
    // empty item list is fine
    let m = ClientMessage::deserialize(&[0u8; 40]).unwrap();
    assert!(m.messages.is_empty());
}

#[test]
fn error_codes() {
    let all = [
        ErrorCode::Timeout,
        ErrorCode::ConnectionRefused,
        ErrorCode::HostUnreachable,
        ErrorCode::TooManyConnections,
        ErrorCode::InvalidNonce,
        ErrorCode::Unknown,
    ];
    let bytes = [0x01u8, 0x02, 0x03, 0x04, 0x05, 0xFF];
    for (c, b) in all.iter().zip(bytes.iter()) {
        assert_eq!(c.to_u8(), *b);
        assert_eq!(ErrorCode::from_u8(*b), *c);
    }
    assert_eq!(ErrorCode::from_u8(0x00), ErrorCode::Unknown);
    assert_eq!(ErrorCode::from_u8(0x06), ErrorCode::Unknown);
}

fn sample_response() -> ServerResponse {
    ServerResponse {
        responses: vec![
            ServerResponseType::Challenge { connection_id: 42 },
            ServerResponseType::Data { connection_id: 42, data: vec![9, 8], compressed: true },
            ServerResponseType::Close { connection_id: 42, message: "bye".to_string() },
            ServerResponseType::Error {
                connection_id: 0,
                error_code: ErrorCode::TooManyConnections,
                message: String::new(),
            },
        ],
    }
}

#[test]
fn server_response_bytes_are_exact() {
    let bytes = sample_response().serialize().unwrap();
    let mut expected = vec![0x00, 42, 0, 0, 0, 0, 0, 0, 0];
    expected.extend_from_slice(&[0x01, 42, 0, 0, 0, 0, 0, 0, 0, 0x00, 2, 0, 0, 0, 2, 0, 0, 0, 9, 8]);
    expected.extend_from_slice(&[0x02, 42, 0, 0, 0, 0, 0, 0, 0, 3, 0, 0, 0, b'b', b'y', b'e']);
    expected.extend_from_slice(&[0x03, 0, 0, 0, 0, 0, 0, 0, 0, 0x04, 0, 0, 0, 0]);
    assert_eq!(bytes, expected);
}

#[test]
fn server_response_roundtrip() {
    let bytes = sample_response().serialize().unwrap();
    let back = ServerResponse::deserialize(&bytes).unwrap();
    assert_eq!(back.responses.len(), 4);
    assert!(matches!(back.responses[0], ServerResponseType::Challenge { connection_id: 42 }));
    match &back.responses[1] {
        ServerResponseType::Data { connection_id, data, compressed } => {
            assert_eq!(*connection_id, 42);
            assert_eq!(data, &vec![9, 8]);
            assert!(!compressed);
        }
        _ => panic!("expected data"),
    }
    match &back.responses[2] {
        ServerResponseType::Close { connection_id, message } => {
            assert_eq!(*connection_id, 42);
            assert_eq!(message, "bye");
        }
        _ => panic!("expected close"),
    }
    match &back.responses[3] {
        ServerResponseType::Error { connection_id, error_code, message } => {
            assert_eq!(*connection_id, 0);
            assert_eq!(*error_code, ErrorCode::TooManyConnections);
            assert!(message.is_empty());
        }
        _ => panic!("expected error"),
    }
    assert!(ServerResponse::deserialize(&[]).unwrap().responses.is_empty());
}

#[test]
fn server_response_large_data_compressed() {
    let data = vec![0x55u8; 10_000];
    let r = ServerResponse {
        responses: vec![ServerResponseType::Data { connection_id: 3, data: data.clone(), compressed: true }],
    };
    let bytes = r.serialize().unwrap();
    assert!(bytes.len() < 1000);
    assert_eq!(bytes[9], 0x01);
    let back = ServerResponse::deserialize(&bytes).unwrap();
    match &back.responses[0] {
        ServerResponseType::Data { data: d, compressed, .. } => {
            assert_eq!(d, &data);
            assert!(*compressed);
        }
        _ => panic!("expected data"),
    }
}

#[test]
fn server_deserialize_errors() {
    assert_eq!(ServerResponse::deserialize(&[0x07]).unwrap_err(), ProtocolError::InvalidMessageType(7));
    assert_eq!(ServerResponse::deserialize(&[0x00, 1, 2]).unwrap_err(), ProtocolError::Io);
    let bytes = [0x02, 1, 0, 0, 0, 0, 0, 0, 0, 2, 0, 0, 0, 0xC3, 0x28];
    assert_eq!(
        ServerResponse::deserialize(&bytes).unwrap_err(),
        ProtocolError::InvalidData(DataFault::InvalidUtf8)
    );
    let bytes = [0x03, 1, 0, 0, 0, 0, 0, 0, 0, 0x09, 0, 0, 0, 0];
    let back = ServerResponse::deserialize(&bytes).unwrap();
    assert!(matches!(
        back.responses[0],
        ServerResponseType::Error { error_code: ErrorCode::Unknown, .. }
    ));
}

#[test]
fn bad_type_byte_after_a_message_is_refused() {
    let mut bytes = sample_client().serialize().unwrap();
    bytes.push(0x04);
    bytes.extend_from_slice(&[0x03, 0x03]);
    assert_eq!(ClientMessage::deserialize(&bytes).unwrap_err(), ProtocolError::InvalidMessageType(4));
    let mut bytes = sample_response().serialize().unwrap();
    bytes.push(0xFF);
    assert_eq!(ServerResponse::deserialize(&bytes).unwrap_err(), ProtocolError::InvalidMessageType(0xFF));
}
