use censorless_protocol::address::SocksAddress;
use censorless_protocol::client::data_message;
use censorless_protocol::error::{DecryptFault, ProtocolError};
use censorless_protocol::keys::{key_pair_from_hex, parse_key_hex, KeyError};
use censorless_protocol::message::{
    ClientMessage, ClientMessageType, ErrorCode, ServerResponse, ServerResponseType,
};
use censorless_protocol::nonce::NonceValidator;
use censorless_protocol::connections::ConnectionTable;
use censorless_protocol::session::{
    admit_nonce, open_request, open_response, plan_message, plan_message_unsigned, seal_request,
    read_responses, seal_response, ReadEnd,
    MessageAction,
};

const SERVER_SECRET: &str = "9d61b19deffd5a60ba844af492ec2cc44449c5697b326919703bac031cae7f60";
const SERVER_PUBLIC: &str = "d75a980182b10ab7d54bfed3c964073a0ee172f3daa62325af021a68f707511a";

#[test]
fn keys_from_hex() {
    let kp = key_pair_from_hex(&SERVER_SECRET.to_string()).unwrap();
    assert_eq!(kp.public_key, parse_key_hex(&SERVER_PUBLIC.to_string()).unwrap());
    assert_eq!(kp.private_key[0], 0x9d);
    assert_eq!(parse_key_hex(&SERVER_PUBLIC.to_uppercase()).unwrap()[0], 0xd7);
    assert_eq!(parse_key_hex(&"abc".to_string()).err(), Some(KeyError::InvalidHex));
    assert_eq!(parse_key_hex(&"zz".repeat(32)).err(), Some(KeyError::InvalidHex));
    assert_eq!(parse_key_hex(&"ab".repeat(31)).err(), Some(KeyError::InvalidLength));
    assert_eq!(key_pair_from_hex(&"ab".repeat(33)).err(), Some(KeyError::InvalidLength));
}

#[test]
fn request_goes_through_and_is_planned() {
    let server = key_pair_from_hex(&SERVER_SECRET.to_string()).unwrap();
    let client = key_pair_from_hex(&"01".repeat(32)).unwrap();
    let host = "proxy.example".to_string();
    let msg = ClientMessage {
        client_public_key: client.public_key,
        nonce: 17,
        messages: vec![
            ClientMessageType::StartConnection { host: SocksAddress::Domain("example.com".to_string()), port: 443 },
            data_message(&client.private_key, &host, 9000, 12, b"GET /".to_vec()),
            ClientMessageType::Data { connection_id_signed: vec![0u8; 80], data: vec![1], compressed: false },
            ClientMessageType::Poll,
        ],
    };
    let sealed = seal_request(&server.public_key, &msg).unwrap();
    let opened = open_request(&server.private_key, &sealed).unwrap();
    assert_eq!(opened.client_public_key, client.public_key);
    assert_eq!(opened.nonce, 17);
    let mut table = ConnectionTable::new(2);
    assert!(table.insert(12));
    let mut items = opened.messages.into_iter();
    match plan_message(&opened.client_public_key, &mut table, items.next().unwrap()) {
        MessageAction::Start { host, port } => {
            assert_eq!(host, SocksAddress::Domain("example.com".to_string()));
            assert_eq!(port, 443);
        }
        _ => panic!("expected start"),
    }
    match plan_message(&opened.client_public_key, &mut table, items.next().unwrap()) {
        MessageAction::Forward { connection_id, data } => {
            assert_eq!(connection_id, 12);
            assert_eq!(data, b"GET /".to_vec());
        }
        _ => panic!("expected forward"),
    }
    assert!(matches!(
        plan_message(&opened.client_public_key, &mut table, items.next().unwrap()),
        MessageAction::Skip
    ));
    assert!(matches!(
        plan_message(&opened.client_public_key, &mut table, items.next().unwrap()),
        MessageAction::Poll
    ));
    assert_eq!(table.len(), 1);
    // at the limit, a start is refused
    assert!(table.insert(13));
    assert!(!table.has_room());
    assert!(matches!(
        plan_message(
            &opened.client_public_key,
            &mut table,
            ClientMessageType::StartConnection { host: SocksAddress::IPv4([1, 1, 1, 1]), port: 1 }
        ),
        MessageAction::RefuseTooManyConnections
    ));
    // data for a connection that is not open is skipped
    let stray = data_message(&client.private_key, &host, 9000, 14, b"x".to_vec());
    assert!(matches!(plan_message(&opened.client_public_key, &mut table, stray), MessageAction::Skip));
    // neither the wrong secret key nor the public key opens it
    assert_eq!(
        open_request(&client.private_key, &sealed).unwrap_err(),
        ProtocolError::DecryptionError(DecryptFault::Refused)
    );
    assert_eq!(
        open_request(&server.public_key, &sealed).unwrap_err(),
        ProtocolError::DecryptionError(DecryptFault::Refused)
    );
}

#[test]
fn close_is_planned_only_for_its_owner() {
    let owner = key_pair_from_hex(&"02".repeat(32)).unwrap();
    let other = key_pair_from_hex(&"03".repeat(32)).unwrap();
    let m = censorless_protocol::client::close_message(&owner.private_key, &"s".to_string(), 1, 99);
    let m2 = m.clone();
    let m3 = m.clone();
    let mut table = ConnectionTable::new(1);
    assert!(table.insert(99));
    assert!(matches!(plan_message(&other.public_key, &mut table, m2), MessageAction::Skip));
    assert!(table.contains(99));
    assert!(matches!(plan_message(&owner.public_key, &mut table, m), MessageAction::Close { connection_id: 99 }));
    assert!(!table.contains(99));
    // once closed, a second close is skipped
    assert!(matches!(plan_message(&owner.public_key, &mut table, m3), MessageAction::Skip));
}

#[test]
fn connection_table_keeps_ids_once_within_limit() {
    let mut table = ConnectionTable::new(2);
    assert_eq!(table.limit(), 2);
    assert!(table.has_room());
    assert!(table.insert(5));
    assert!(!table.insert(5));
    assert!(table.insert(6));
    assert!(!table.insert(7));
    assert_eq!(table.len(), 2);
    let mut ids = table.ids();
    ids.sort();
    assert_eq!(ids, vec![5, 6]);
    assert!(table.remove(5));
    assert!(!table.remove(5));
    assert!(table.insert(7));
    assert!(table.contains(7) && table.contains(6) && !table.contains(5));
}

#[test]
fn response_goes_back() {
    let client = key_pair_from_hex(&"04".repeat(32)).unwrap();
    let resp = ServerResponse {
        responses: vec![
            ServerResponseType::Challenge { connection_id: 3 },
            ServerResponseType::Data { connection_id: 3, data: vec![7; 300], compressed: true },
        ],
    };
    let sealed = seal_response(&client.public_key, &resp).unwrap();
    let back = open_response(&client.private_key, &sealed).unwrap();
    assert_eq!(back.responses.len(), 2);
    match &back.responses[1] {
        ServerResponseType::Data { connection_id, data, compressed } => {
            assert_eq!(*connection_id, 3);
            assert_eq!(data, &vec![7; 300]);
            assert!(*compressed);
        }
        _ => panic!("expected data"),
    }
    assert_eq!(
        open_response(&client.private_key, &[1, 2, 3]).unwrap_err(),
        ProtocolError::DecryptionError(DecryptFault::TooShort)
    );
}

#[test]
fn plain_variant_reads_ids_without_signatures() {
    let owner = key_pair_from_hex(&"05".repeat(32)).unwrap();
    let other = key_pair_from_hex(&"06".repeat(32)).unwrap();
    let mut table = ConnectionTable::new(4);
    assert!(table.insert(21));
    // a close signed by another key still names connection 21
    let m = censorless_protocol::client::close_message(&other.private_key, &"s".to_string(), 1, 21);
    let m2 = m.clone();
    assert!(matches!(plan_message(&owner.public_key, &mut table, m2), MessageAction::Skip));
    assert!(matches!(plan_message_unsigned(&mut table, m), MessageAction::Close { connection_id: 21 }));
    assert!(!table.contains(21));
    // a signed id shorter than 72 bytes names nothing
    let short = ClientMessageType::Data { connection_id_signed: vec![0u8; 71], data: vec![1], compressed: false };
    assert!(matches!(plan_message_unsigned(&mut table, short), MessageAction::Skip));
}

#[test]
fn refused_nonce_is_answered_with_an_error() {
    let mut v = NonceValidator::new();
    assert!(admit_nonce(&mut v, 5, "refused".to_string()).is_none());
    assert_eq!(v.last_nonce(), 5);
    let answer = admit_nonce(&mut v, 5, "refused".to_string()).unwrap();
    assert_eq!(answer.responses.len(), 1);
    match &answer.responses[0] {
        ServerResponseType::Error { connection_id, error_code, message } => {
            assert_eq!(*connection_id, 0);
            assert_eq!(*error_code, ErrorCode::InvalidNonce);
            assert_eq!(message, "refused");
        }
        _ => panic!("expected an error"),
    }
    assert!(admit_nonce(&mut v, 0, String::new()).is_some());
    assert!(admit_nonce(&mut v, 4, String::new()).is_none());
}

#[test]
fn read_outcomes_become_responses() {
    let (r, over) = read_responses(7, vec![1, 2], ReadEnd::StillOpen);
    assert!(!over);
    assert_eq!(r.len(), 1);
    assert!(matches!(&r[0], ServerResponseType::Data { connection_id: 7, compressed: true, data } if data == &vec![1, 2]));
    let (r, over) = read_responses(7, vec![], ReadEnd::StillOpen);
    assert!(!over && r.is_empty());
    let (r, over) = read_responses(8, vec![3], ReadEnd::Closed);
    assert!(over);
    assert_eq!(r.len(), 2);
    assert!(matches!(&r[1], ServerResponseType::Close { connection_id: 8, message } if message.is_empty()));
    let (r, over) = read_responses(9, vec![], ReadEnd::Failed { message: "Read error: x".to_string() });
    assert!(over);
    assert_eq!(r.len(), 1);
    assert!(matches!(&r[0], ServerResponseType::Close { connection_id: 9, message } if message == "Read error: x"));
}
