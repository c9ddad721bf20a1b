use censorless_protocol::address::SocksAddress;
use censorless_protocol::client::{
    build_signed_connection_id, close_message, data_message, reply_for_error, route_response,
    ConnectReply, ResponseRoute,
};
use censorless_protocol::keys::KeyPair;

fn derive_public_key(sk: &[u8; 32]) -> [u8; 32] {
    KeyPair::from_private_key(*sk).public_key
}
use censorless_protocol::error::{DataFault, ProtocolError};
use censorless_protocol::lambda::{
    admit_client, frame_lambda_request, is_client_whitelisted, is_server_whitelisted,
    parse_lambda_request, ClientRefusal, LambdaRequestError,
    ServerWhitelistEntry,
};
use censorless_protocol::message::{ClientMessageType, ErrorCode, ServerResponseType};
use censorless_protocol::server::{
    charge_buffer, default_buffer_max, default_poll_timeout, default_read_timeout,
    error_code_for_connect_failure, generate_connection_id, is_blocked_target, is_private_ip,
    parse_signed_connection_id, unverified_connection_id, verified_connection_id,
    ConnectFailure, ConnectionIdGenerator, IpAddr,
};

#[test]
fn defaults() {
    assert_eq!(default_read_timeout(), 1000);
    assert_eq!(default_poll_timeout(), 500);
    assert_eq!(default_buffer_max(), 1_048_576);
}

#[test]
fn private_ipv4() {
    for o in [
        [127, 0, 0, 1],
        [10, 9, 8, 7],
        [172, 16, 0, 1],
        [172, 31, 255, 255],
        [192, 168, 1, 1],
        [169, 254, 3, 4],
        [224, 0, 0, 1],
        [239, 1, 1, 1],
        [255, 255, 255, 255],
        [192, 0, 2, 5],
        [198, 51, 100, 7],
        [203, 0, 113, 9],
        [0, 0, 0, 0],
    ] {
        assert!(is_private_ip(IpAddr::V4(o)), "{:?} should be private", o);
    }
    for o in [[8, 8, 8, 8], [172, 32, 0, 1], [172, 15, 0, 1], [192, 169, 0, 1], [240, 0, 0, 1], [1, 1, 1, 1], [0, 0, 0, 1]] {
        assert!(!is_private_ip(IpAddr::V4(o)), "{:?} should be public", o);
    }
}

#[test]
fn private_ipv6() {
    let mut loopback = [0u8; 16];
    loopback[15] = 1;
    assert!(is_private_ip(IpAddr::V6(loopback)));
    assert!(is_private_ip(IpAddr::V6([0u8; 16])));
    let mut multicast = [0u8; 16];
    multicast[0] = 0xff;
    assert!(is_private_ip(IpAddr::V6(multicast)));
    let mut ula = [0u8; 16];
    ula[0] = 0xfd;
    assert!(is_private_ip(IpAddr::V6(ula)));
    let mut link = [0u8; 16];
    link[0] = 0xfe;
    link[1] = 0x80;
    assert!(is_private_ip(IpAddr::V6(link)));
    let mut site = [0u8; 16];
    site[0] = 0xfe;
    site[1] = 0xc0;
    assert!(!is_private_ip(IpAddr::V6(site)));
    let mut global = [0u8; 16];
    global[0] = 0x20;
    global[1] = 0x01;
    global[15] = 1;
    assert!(!is_private_ip(IpAddr::V6(global)));
}

#[test]
fn ipv4_mapped_ipv6_is_judged_as_ipv4() {
    let mapped = |o: [u8; 4]| {
        let mut a = [0u8; 16];
        a[10] = 0xff;
        a[11] = 0xff;
        a[12..].copy_from_slice(&o);
        a
    };
    assert!(is_private_ip(IpAddr::V6(mapped([127, 0, 0, 1]))));
    assert!(is_private_ip(IpAddr::V6(mapped([10, 1, 2, 3]))));
    assert!(is_private_ip(IpAddr::V6(mapped([192, 168, 0, 1]))));
    assert!(is_private_ip(IpAddr::V6(mapped([169, 254, 169, 254]))));
    assert!(!is_private_ip(IpAddr::V6(mapped([8, 8, 8, 8]))));
    // only ::ffff:0:0/96 is mapped
    let mut not_mapped = mapped([127, 0, 0, 1]);
    not_mapped[10] = 0xfe;
    assert!(!is_private_ip(IpAddr::V6(not_mapped)));
    assert!(is_blocked_target(&SocksAddress::IPv6(mapped([127, 0, 0, 1])), &vec![]));
    let d = SocksAddress::Domain("example.com".to_string());
    assert!(is_blocked_target(&d, &vec![IpAddr::V6(mapped([10, 0, 0, 1]))]));
}

#[test]
fn blocked_targets() {
    assert!(is_blocked_target(&SocksAddress::IPv4([10, 0, 0, 1]), &vec![]));
    assert!(!is_blocked_target(&SocksAddress::IPv4([8, 8, 4, 4]), &vec![IpAddr::V4([127, 0, 0, 1])]));
    let d = SocksAddress::Domain("example.com".to_string());
    assert!(!is_blocked_target(&d, &vec![]));
    assert!(!is_blocked_target(&d, &vec![IpAddr::V4([93, 184, 216, 34])]));
    assert!(is_blocked_target(&d, &vec![IpAddr::V4([93, 184, 216, 34]), IpAddr::V4([127, 0, 0, 1])]));
}

#[test]
fn connect_failures() {
    assert_eq!(error_code_for_connect_failure(ConnectFailure::Refused), ErrorCode::ConnectionRefused);
    assert_eq!(error_code_for_connect_failure(ConnectFailure::TimedOut), ErrorCode::Timeout);
    assert_eq!(error_code_for_connect_failure(ConnectFailure::Deadline), ErrorCode::Timeout);
    assert_eq!(error_code_for_connect_failure(ConnectFailure::Other), ErrorCode::HostUnreachable);
}

#[test]
fn connection_ids_start_at_one_and_increase() {
    let mut g = ConnectionIdGenerator::new();
    assert_eq!(generate_connection_id(&mut g), 1);
    assert_eq!(generate_connection_id(&mut g), 2);
    assert_eq!(generate_connection_id(&mut g), 3);
    let mut seen = std::collections::HashSet::new();
    for _ in 0..1000 {
        let id = generate_connection_id(&mut g);
        assert_ne!(id, 0);
        assert!(seen.insert(id));
    }
}

#[test]
fn signed_ids_between_client_and_server() {
    let sk = [5u8; 32];
    let pk = derive_public_key(&sk);
    let host = "proxy.example.net".to_string();
    let signed = build_signed_connection_id(&sk, &host, 1337, 0xDEAD_BEEF);
    // encoded domain (2 + 17), port, id, signature
    assert_eq!(signed.len(), 19 + 2 + 8 + 64);
    assert_eq!(&signed[..3], &[0x03, 17, b'p']);
    assert_eq!(&signed[19..21], &1337u16.to_le_bytes());
    assert_eq!(&signed[21..29], &0xDEAD_BEEFu64.to_le_bytes());

    let parts = parse_signed_connection_id(&signed).unwrap();
    assert_eq!(parts.server_addr_encoded, signed[..19].to_vec());
    assert_eq!(parts.server_port, 1337);
    assert_eq!(parts.connection_id, 0xDEAD_BEEF);
    assert_eq!(parts.signature, signed[29..].to_vec());

    assert_eq!(verified_connection_id(&pk, &signed), Some(0xDEAD_BEEF));
    assert_eq!(unverified_connection_id(&signed), Some(0xDEAD_BEEF));
    // another key does not verify it, a changed id neither
    assert_eq!(verified_connection_id(&derive_public_key(&[6u8; 32]), &signed), None);
    let mut forged = signed.clone();
    forged[21] ^= 1;
    assert_eq!(verified_connection_id(&pk, &forged), None);
    assert_eq!(unverified_connection_id(&forged), Some(0xDEAD_BEEF ^ 1));
    // too short
    assert!(parse_signed_connection_id(&[0u8; 73]).is_none());
    assert!(parse_signed_connection_id(&[0u8; 74]).is_some());
    assert_eq!(verified_connection_id(&pk, &[0u8; 73]), None);
    assert_eq!(unverified_connection_id(&[0u8; 71]), None);
    assert_eq!(unverified_connection_id(&[0u8; 72]), Some(0));
}

#[test]
fn data_and_close_messages() {
    let sk = [8u8; 32];
    let host = "h".to_string();
    match data_message(&sk, &host, 1, 2, vec![1, 2, 3]) {
        ClientMessageType::Data { connection_id_signed, data, compressed } => {
            assert_eq!(connection_id_signed, build_signed_connection_id(&sk, &host, 1, 2));
            assert_eq!(data, vec![1, 2, 3]);
            assert!(compressed);
        }
        _ => panic!("expected data"),
    }
    match close_message(&sk, &host, 1, 2) {
        ClientMessageType::Close { connection_id_signed } => {
            assert_eq!(connection_id_signed, build_signed_connection_id(&sk, &host, 1, 2));
        }
        _ => panic!("expected close"),
    }
}

#[test]
fn replies_and_routes() {
    assert_eq!(reply_for_error(ErrorCode::ConnectionRefused), ConnectReply::ConnectionRefused);
    assert_eq!(reply_for_error(ErrorCode::HostUnreachable), ConnectReply::HostUnreachable);
    assert_eq!(reply_for_error(ErrorCode::Timeout), ConnectReply::TtlExpired);
    assert_eq!(reply_for_error(ErrorCode::TooManyConnections), ConnectReply::GeneralFailure);
    assert_eq!(reply_for_error(ErrorCode::InvalidNonce), ConnectReply::GeneralFailure);
    assert_eq!(route_response(&ServerResponseType::Challenge { connection_id: 4 }), ResponseRoute::Starter);
    assert_eq!(
        route_response(&ServerResponseType::Error {
            connection_id: 0,
            error_code: ErrorCode::Unknown,
            message: String::new()
        }),
        ResponseRoute::Starter
    );
    assert_eq!(
        route_response(&ServerResponseType::Data { connection_id: 4, data: vec![], compressed: false }),
        ResponseRoute::Connection(4)
    );
    assert_eq!(
        route_response(&ServerResponseType::Close { connection_id: 5, message: String::new() }),
        ResponseRoute::Connection(5)
    );
}

#[test]
fn lambda_request_framing() {
    let host = "srv".to_string();
    let secret = [0x21u8; 32];
    let key = derive_public_key(&secret);
    let body = frame_lambda_request(&host, 0x0539, &secret, &[0xEE, 0xFF]).unwrap();
    assert_eq!(&body[..7], &[0x03, 3, b's', b'r', b'v', 0x39, 0x05]);
    assert_eq!(&body[7..39], &key);
    assert_eq!(&body[103..], &[2, 0, 0, 0, 0xEE, 0xFF]);
    let req = parse_lambda_request(&body).unwrap();
    assert_eq!(req.server_addr, SocksAddress::Domain("srv".to_string()));
    assert_eq!(req.server_addr_encoded, vec![0x03, 3, b's', b'r', b'v']);
    assert_eq!(req.server_port, 0x0539);
    assert_eq!(req.client_public_key, key);
    assert_eq!(req.client_signature.to_vec(), body[39..103].to_vec());
    assert_eq!(req.encrypted_payload, vec![0xEE, 0xFF]);
    // trailing bytes are ignored
    let mut longer = body.clone();
    longer.push(1);
    assert_eq!(parse_lambda_request(&longer).unwrap().encrypted_payload, vec![0xEE, 0xFF]);
    assert_eq!(
        frame_lambda_request(&"z".repeat(256), 1, &secret, &[]).unwrap_err(),
        ProtocolError::InvalidData(DataFault::DomainTooLong)
    );
}

#[test]
fn lambda_request_errors() {
    assert_eq!(
        parse_lambda_request(&[]).err(),
        Some(LambdaRequestError::ServerAddress(ProtocolError::Io))
    );
    assert_eq!(
        parse_lambda_request(&[0x07]).err(),
        Some(LambdaRequestError::ServerAddress(ProtocolError::InvalidAddressType(7)))
    );
    assert_eq!(parse_lambda_request(&[0x01, 1, 2, 3, 4, 9]).err(), Some(LambdaRequestError::ServerPort));
    let mut body = vec![0x01, 1, 2, 3, 4, 9, 0];
    body.extend_from_slice(&[7u8; 31]);
    assert_eq!(parse_lambda_request(&body).err(), Some(LambdaRequestError::ClientKey));
    body.push(7);
    body.extend_from_slice(&[8u8; 63]);
    assert_eq!(parse_lambda_request(&body).err(), Some(LambdaRequestError::ClientSignature));
    body.push(8);
    body.extend_from_slice(&[1, 0]);
    assert_eq!(parse_lambda_request(&body).err(), Some(LambdaRequestError::PayloadLength));
    body.extend_from_slice(&[0, 0]);
    assert_eq!(parse_lambda_request(&body).err(), Some(LambdaRequestError::Payload { expected: 1 }));
}

#[test]
fn relay_admits_only_signed_requests_of_listed_clients() {
    let listed = [0x31u8; 32];
    let outsider = [0x32u8; 32];
    let listed_key = derive_public_key(&listed);
    let entries = vec![listed_key.iter().map(|b| format!("{:02x}", b)).collect::<String>()];
    let host = "srv".to_string();
    let body = frame_lambda_request(&host, 7, &listed, b"sealed").unwrap();
    let req = parse_lambda_request(&body).unwrap();
    assert_eq!(admit_client(&entries, &req), Ok(()));
    // an outsider framing its own key is not listed
    let body = frame_lambda_request(&host, 7, &outsider, b"sealed").unwrap();
    let req = parse_lambda_request(&body).unwrap();
    assert_eq!(admit_client(&entries, &req), Err(ClientRefusal::NotListed));
    // an outsider putting the listed key in its frame has no valid signature
    let mut forged = body.clone();
    forged[7..39].copy_from_slice(&listed_key);
    let req = parse_lambda_request(&forged).unwrap();
    assert_eq!(admit_client(&entries, &req), Err(ClientRefusal::BadSignature));
    // nor does a listed frame whose payload was changed
    let mut altered = frame_lambda_request(&host, 7, &listed, b"sealed").unwrap();
    let last = altered.len() - 1;
    altered[last] ^= 1;
    let req = parse_lambda_request(&altered).unwrap();
    assert_eq!(admit_client(&entries, &req), Err(ClientRefusal::BadSignature));
    // nor one sent to another port
    let mut moved = frame_lambda_request(&host, 7, &listed, b"sealed").unwrap();
    moved[5] = 8;
    let req = parse_lambda_request(&moved).unwrap();
    assert_eq!(admit_client(&entries, &req), Err(ClientRefusal::BadSignature));
}

#[test]
fn client_whitelist() {
    let key = [0x5Au8; 32];
    let entries = vec!["zz".to_string(), "5a".repeat(31), "5A".repeat(32)];
    assert!(is_client_whitelisted(&entries, &key));
    assert!(!is_client_whitelisted(&entries, &[0x5Bu8; 32]));
    assert!(!is_client_whitelisted(&entries[..2].to_vec(), &key));
    assert!(!is_client_whitelisted(&vec![], &key));
}

#[test]
fn whitelist() {
    let entries = vec![
        ServerWhitelistEntry { host: "a.example".to_string(), port: 1, public_key: "00".to_string() },
        ServerWhitelistEntry { host: "10.0.0.1".to_string(), port: 2, public_key: "11".to_string() },
    ];
    assert!(is_server_whitelisted(&entries, &"a.example".to_string(), 1));
    assert!(is_server_whitelisted(&entries, &"10.0.0.1".to_string(), 2));
    assert!(!is_server_whitelisted(&entries, &"a.example".to_string(), 2));
    assert!(!is_server_whitelisted(&entries, &"b.example".to_string(), 1));
    assert!(!is_server_whitelisted(&vec![], &"a.example".to_string(), 1));
}

#[test]
fn buffer_limit_of_the_plain_variant() {
    assert_eq!(charge_buffer(0, 10, 100), Some(10));
    assert_eq!(charge_buffer(90, 10, 100), Some(100));
    assert_eq!(charge_buffer(90, 11, 100), None);
    assert_eq!(charge_buffer(101, 0, 100), None);
    assert_eq!(charge_buffer(usize::MAX, 1, usize::MAX), None);
}
