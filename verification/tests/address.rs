use censorless_protocol::address::SocksAddress;
use censorless_protocol::error::{DataFault, ProtocolError};

#[test]
fn test_ipv4_encode_decode() {
    let addr = SocksAddress::IPv4([127, 0, 0, 1]);
    let mut buf = Vec::new();
    addr.encode(&mut buf).unwrap();

    let (decoded, _) = SocksAddress::decode(buf.as_slice(), 0).unwrap();
    assert_eq!(addr, decoded);
}

#[test]
fn test_domain_encode_decode() {
    let addr = SocksAddress::Domain("example.com".to_string());
    let mut buf = Vec::new();
    addr.encode(&mut buf).unwrap();

    let (decoded, _) = SocksAddress::decode(buf.as_slice(), 0).unwrap();
    assert_eq!(addr, decoded);
}

#[test]
fn test_ipv6_encode_decode() {
    let addr = SocksAddress::IPv6([0, 0, 0, 0, 0, 0, 0, 0, 0, 0, 0, 0, 0, 0, 0, 1]);
    let mut buf = Vec::new();
    addr.encode(&mut buf).unwrap();

    let (decoded, _) = SocksAddress::decode(buf.as_slice(), 0).unwrap();
    assert_eq!(addr, decoded);
}

#[test]
fn address_encodings_are_exact() {
    let mut buf = vec![0xAA];
    SocksAddress::IPv4([10, 1, 2, 3]).encode(&mut buf).unwrap();
    assert_eq!(buf, vec![0xAA, 0x01, 10, 1, 2, 3]);

    let mut buf = Vec::new();
    SocksAddress::Domain("ab".to_string()).encode(&mut buf).unwrap();
    assert_eq!(buf, vec![0x03, 2, b'a', b'b']);

    let mut buf = Vec::new();
    let v6 = [0x20, 0x01, 0x0d, 0xb8, 0, 0, 0, 0, 0, 0, 0, 0, 0, 0, 0, 0x42];
    SocksAddress::IPv6(v6).encode(&mut buf).unwrap();
    let mut expected = vec![0x04];
    expected.extend_from_slice(&v6);
    assert_eq!(buf, expected);
}

#[test]
fn domain_of_non_ascii_text_roundtrips() {
    let addr = SocksAddress::Domain("bücher.example".to_string());
    let mut buf = Vec::new();
    addr.encode(&mut buf).unwrap();
    assert_eq!(buf[1] as usize, "bücher.example".len());
    let (decoded, end) = SocksAddress::decode(buf.as_slice(), 0).unwrap();
    assert_eq!(decoded, addr);
    assert_eq!(end, buf.len());
}

#[test]
fn domain_too_long_is_refused_and_leaves_buffer() {
    let long = "a".repeat(256);
    let mut buf = vec![1, 2, 3];
    let r = SocksAddress::Domain(long).encode(&mut buf);
    assert_eq!(r, Err(ProtocolError::InvalidData(DataFault::DomainTooLong)));
    assert_eq!(buf, vec![1, 2, 3]);
    let ok = "a".repeat(255);
    let mut buf = Vec::new();
    assert!(SocksAddress::Domain(ok).encode(&mut buf).is_ok());
    assert_eq!(buf.len(), 257);
}

#[test]
fn decode_at_a_position_and_errors() {
    let data = [9u8, 9, 0x01, 1, 2, 3, 4, 7];
    let (a, end) = SocksAddress::decode(&data, 2).unwrap();
    assert_eq!(a, SocksAddress::IPv4([1, 2, 3, 4]));
    assert_eq!(end, 7);

    assert_eq!(SocksAddress::decode(&[], 0), Err(ProtocolError::Io));
    assert_eq!(SocksAddress::decode(&[0x01, 1, 2, 3], 0), Err(ProtocolError::Io));
    assert_eq!(SocksAddress::decode(&[0x03], 0), Err(ProtocolError::Io));
    assert_eq!(SocksAddress::decode(&[0x03, 3, b'a'], 0), Err(ProtocolError::Io));
    assert_eq!(SocksAddress::decode(&[0x04, 0, 0], 0), Err(ProtocolError::Io));
    assert_eq!(SocksAddress::decode(&[0x02, 0, 0], 0), Err(ProtocolError::InvalidAddressType(2)));
    assert_eq!(
        SocksAddress::decode(&[0x03, 2, 0xff, 0xfe], 0),
        Err(ProtocolError::InvalidData(DataFault::InvalidDomainName))
    );
}

#[test]
fn encoded_sizes() {
    assert_eq!(SocksAddress::IPv4([1, 1, 1, 1]).encoded_size(), 5);
    assert_eq!(SocksAddress::IPv6([0; 16]).encoded_size(), 17);
    assert_eq!(SocksAddress::Domain("example.com".to_string()).encoded_size(), 13);
    let mut buf = Vec::new();
    let d = SocksAddress::Domain("example.com".to_string());
    d.encode(&mut buf).unwrap();
    assert_eq!(buf.len(), d.encoded_size());
}

#[test]
fn decoded_address_encodes_to_the_same_bytes() {
    for bytes in [
        vec![0x01, 9, 8, 7, 6],
        vec![0x03, 3, b'a', b'.', b'b'],
        vec![0x04, 0xfe, 0x80, 0, 0, 0, 0, 0, 0, 0, 0, 0, 0, 0, 0, 0, 1],
    ] {
        let (a, end) = SocksAddress::decode(&bytes, 0).unwrap();
        assert_eq!(end, bytes.len());
        let mut out = Vec::new();
        a.encode(&mut out).unwrap();
        assert_eq!(out, bytes);
    }
}
