//! Decisions of the client: signed connection ids, and what it does with the
//! server's answers.
use vstd::prelude::*;
use crate::address::{spec_encode_address, AddressView, SocksAddress};
use crate::crypto::{
    ed25519_public_key, ed25519_signature, sign_connection_id, signed_message, SIGNATURE_LEN,
};
use crate::message::{ClientMessageType, ErrorCode, ServerResponseType};
use crate::server::spec_verified_connection_id;
use crate::text::text_bytes;
use crate::wire::{le16, le64, lemma_le16_read, lemma_le64_read, push_u16_le, push_u64_le};

verus! {

/// The encoded server address of the domain name `host`.
pub open spec fn encoded_host(host: Seq<char>) -> Seq<u8> {
    spec_encode_address(AddressView::Domain(host)).unwrap()
}

/// A signed connection id: encoded server address, port, connection id,
/// then the signature of these bytes.
pub open spec fn spec_signed_id(signing_key: Seq<u8>, host: Seq<char>, port: u16, connection_id: u64) -> Seq<u8> {
    let m = signed_message(encoded_host(host), port, connection_id);
    m + ed25519_signature(signing_key, m)
}

/// Build the signed connection id that proves ownership of a connection on
/// the server at `server_host:server_port`. The server reads it back as
/// `connection_id` under the public key of `signing_key`.
pub fn build_signed_connection_id(
    signing_key: &[u8; 32],
    server_host: &String,
    server_port: u16,
    connection_id: u64,
) -> (r: Vec<u8>)
    requires
        text_bytes(server_host@).len() <= 255,
    ensures
        r@ == spec_signed_id(signing_key@, server_host@, server_port, connection_id),
        spec_verified_connection_id(ed25519_public_key(signing_key@), r@) == Some(connection_id),
{
    let mut server_addr_buf: Vec<u8> = Vec::new();
    let server_addr = SocksAddress::Domain(server_host.clone());
    let _ = server_addr.encode(&mut server_addr_buf);
    let signature = sign_connection_id(
        signing_key,
        server_addr_buf.as_slice(),
        server_port,
        connection_id,
    );
    let mut signed: Vec<u8> = Vec::new();
    signed.extend_from_slice(server_addr_buf.as_slice());
    push_u16_le(&mut signed, server_port);
    push_u64_le(&mut signed, connection_id);
    signed.extend_from_slice(signature.as_slice());
    proof {
        let a = encoded_host(server_host@);
        let m = signed_message(a, server_port, connection_id);
        let s = signed@;
        assert(server_addr_buf@ =~= a);
        assert(s =~= m + signature@);
        let sd = s.len() - SIGNATURE_LEN;
        assert(sd == a.len() + 10);
        assert(s.subrange(sd - 10, sd - 8) =~= le16(server_port));
        lemma_le16_read(server_port, s, sd - 10);
        assert(s.subrange(sd - 8, sd) =~= le64(connection_id));
        lemma_le64_read(connection_id, s, sd - 8);
        assert(s.subrange(0, sd - 10) =~= a);
        assert(s.subrange(sd, s.len() as int) =~= signature@);
    }
    signed
}

/// The data message for a connection: its signed id, the data, compression
/// asked for.
pub fn data_message(
    signing_key: &[u8; 32],
    server_host: &String,
    server_port: u16,
    connection_id: u64,
    data: Vec<u8>,
) -> (r: ClientMessageType)
    requires
        text_bytes(server_host@).len() <= 255,
    ensures
        r matches ClientMessageType::Data { connection_id_signed, data: d, compressed }
            && connection_id_signed@ == spec_signed_id(signing_key@, server_host@, server_port, connection_id)
            && d@ == data@ && compressed,
{
    let connection_id_signed = build_signed_connection_id(signing_key, server_host, server_port, connection_id);
    ClientMessageType::Data { connection_id_signed, data, compressed: true }
}

/// The close message for a connection: its signed id.
pub fn close_message(
    signing_key: &[u8; 32],
    server_host: &String,
    server_port: u16,
    connection_id: u64,
) -> (r: ClientMessageType)
    requires
        text_bytes(server_host@).len() <= 255,
    ensures
        r matches ClientMessageType::Close { connection_id_signed }
            && connection_id_signed@ == spec_signed_id(signing_key@, server_host@, server_port, connection_id),
{
    let connection_id_signed = build_signed_connection_id(signing_key, server_host, server_port, connection_id);
    ClientMessageType::Close { connection_id_signed }
}

/// The SOCKS5 reply to a failed CONNECT.
#[derive(Debug, Clone, Copy, PartialEq, Eq, Structural)]
pub enum ConnectReply {
    ConnectionRefused,
    HostUnreachable,
    TtlExpired,
    GeneralFailure,
}

/// The SOCKS5 reply for a server error code.
pub fn reply_for_error(code: ErrorCode) -> (r: ConnectReply)
    ensures
        r == match code {
            ErrorCode::ConnectionRefused => ConnectReply::ConnectionRefused,
            ErrorCode::HostUnreachable => ConnectReply::HostUnreachable,
            ErrorCode::Timeout => ConnectReply::TtlExpired,
            _ => ConnectReply::GeneralFailure,
        },
{
    match code {
        ErrorCode::ConnectionRefused => ConnectReply::ConnectionRefused,
        ErrorCode::HostUnreachable => ConnectReply::HostUnreachable,
        ErrorCode::Timeout => ConnectReply::TtlExpired,
        _ => ConnectReply::GeneralFailure,
    }
}

/// Where a server response goes.
#[derive(Debug, Clone, Copy, PartialEq, Eq, Structural)]
pub enum ResponseRoute {
    /// To the connection that is being started, if any.
    Starter,
    /// To the established connection with this id, if known.
    Connection(u64),
}

/// Challenges and errors answer the start of a connection; data and close
/// responses go to their connection.
pub fn route_response(resp: &ServerResponseType) -> (r: ResponseRoute)
    ensures
        r == match *resp {
            ServerResponseType::Challenge { .. } => ResponseRoute::Starter,
            ServerResponseType::Error { .. } => ResponseRoute::Starter,
            ServerResponseType::Data { connection_id, .. } => ResponseRoute::Connection(connection_id),
            ServerResponseType::Close { connection_id, .. } => ResponseRoute::Connection(connection_id),
        },
{
    match resp {
        ServerResponseType::Challenge { .. } => ResponseRoute::Starter,
        ServerResponseType::Error { .. } => ResponseRoute::Starter,
        ServerResponseType::Data { connection_id, .. } => ResponseRoute::Connection(*connection_id),
        ServerResponseType::Close { connection_id, .. } => ResponseRoute::Connection(*connection_id),
    }
}

} // verus!
