use censorless_protocol::address::SocksAddress;
use censorless_protocol::batch::{sender_step, servers_to_poll, Batcher, Outgoing};
use censorless_protocol::message::ClientMessageType;

fn data(n: u8) -> ClientMessageType {
    ClientMessageType::Data { connection_id_signed: vec![n], data: vec![n], compressed: false }
}

#[test]
fn items_are_batched_per_server_under_one_nonce() {
    let key = [1u8; 32];
    let mut b = Batcher::new(3, 500);
    assert_eq!(b.servers(), 3);
    assert!(b.is_empty());
    b.queue(2, data(1));
    b.queue(0, ClientMessageType::Poll);
    b.queue(2, data(2));
    assert!(!b.is_empty());
    let sent = b.flush(&key);
    assert!(b.is_empty());
    assert_eq!(sent.len(), 2);
    assert_eq!(sent[0].0, 0);
    assert_eq!(sent[0].1.nonce, 500);
    assert!(matches!(sent[0].1.messages[..], [ClientMessageType::Poll]));
    assert_eq!(sent[1].0, 2);
    assert_eq!(sent[1].1.nonce, 500);
    assert_eq!(sent[1].1.client_public_key, key);
    assert_eq!(sent[1].1.messages.len(), 2);
    match &sent[1].1.messages[0] {
        ClientMessageType::Data { data, .. } => assert_eq!(data, &vec![1]),
        _ => panic!("expected data"),
    }
    // the next message of a server that sent takes the next nonce; server 1
    // sent nothing and keeps its nonce
    b.queue(2, ClientMessageType::Poll);
    b.queue(1, ClientMessageType::Poll);
    let sent = b.flush(&key);
    assert_eq!((sent[0].0, sent[0].1.nonce), (1, 500));
    assert_eq!((sent[1].0, sent[1].1.nonce), (2, 501));
    assert!(b.flush(&key).is_empty());
}

#[test]
fn a_start_goes_alone_after_what_waits() {
    let key = [2u8; 32];
    let mut b = Batcher::new(1, 7);
    b.queue(0, data(3));
    let (sent, start) = b.start(&key, 0, SocksAddress::Domain("example.com".to_string()), 443);
    assert_eq!(sent.len(), 1);
    assert_eq!(sent[0].1.nonce, 7);
    assert_eq!(start.nonce, 8);
    assert_eq!(start.messages.len(), 1);
    assert!(matches!(&start.messages[0], ClientMessageType::StartConnection { port: 443, .. }));
    assert_eq!(b.take_nonce(0), 9);
    assert!(b.is_empty());
}

#[test]
fn nonces_wrap_as_the_counter_does() {
    let mut b = Batcher::new(1, u64::MAX);
    assert_eq!(b.take_nonce(0), u64::MAX);
    assert_eq!(b.take_nonce(0), 0);
}

#[test]
fn sender_step_queues_items_and_sends_starts_last() {
    let key = [3u8; 32];
    let mut b = Batcher::new(2, 10);
    let sent = sender_step(&mut b, &key, Outgoing::Item { server: 1, item: ClientMessageType::Poll });
    assert!(sent.is_empty());
    let sent = sender_step(&mut b, &key, Outgoing::Item { server: 0, item: data(4) });
    assert!(sent.is_empty());
    let sent = sender_step(
        &mut b,
        &key,
        Outgoing::Start { server: 1, host: SocksAddress::IPv4([1, 2, 3, 4]), port: 80 },
    );
    assert_eq!(sent.len(), 3);
    assert_eq!((sent[0].0, sent[0].1.nonce), (0, 10));
    assert_eq!((sent[1].0, sent[1].1.nonce), (1, 10));
    assert_eq!((sent[2].0, sent[2].1.nonce), (1, 11));
    assert!(matches!(&sent[2].1.messages[..], [ClientMessageType::StartConnection { port: 80, .. }]));
    assert!(b.is_empty());
    // a start with nothing waiting goes alone
    let sent = sender_step(
        &mut b,
        &key,
        Outgoing::Start { server: 0, host: SocksAddress::IPv4([1, 2, 3, 4]), port: 81 },
    );
    assert_eq!(sent.len(), 1);
    assert_eq!((sent[0].0, sent[0].1.nonce), (0, 11));
}

#[test]
fn each_server_with_connections_is_polled_once_in_order() {
    let open = vec![(2, 5), (0, 1), (2, 6), (2, 7)];
    assert_eq!(servers_to_poll(3, &open), vec![0, 2]);
    assert_eq!(servers_to_poll(3, &vec![]), Vec::<usize>::new());
    // indexes beyond the configured servers are not polled
    assert_eq!(servers_to_poll(2, &open), vec![0]);
}
