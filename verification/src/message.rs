//! Messages between client and server, and their byte format (the bytes
//! that are encrypted).
use vstd::prelude::*;
use vstd::utf8::*;
use crate::address::{
    lemma_address_roundtrip, spec_decode_address, spec_encode_address, AddressView,
    SocksAddress,
};
use crate::compression::{
    lemma_data_piece_roundtrip, push_data_piece, read_data_piece, spec_data_piece,
    spec_decode_data_piece, spec_wire_data, wire_data_lossless,
};
use crate::error::{DataFault, ProtocolError};
use crate::text::{lemma_text_roundtrip, string_bytes, string_from_utf8, text_bytes};
use crate::wire::{
    le16, le32, le64, lemma_le16_read, lemma_le32_read, lemma_le64_read, push_u16_le,
    push_u32_le, push_u64_le, read_u16_le, read_u32_le, read_u64_le, u16_at, u32_at, u64_at,
};

verus! {

/// Message type bytes.
pub const MSG_START_CONNECTION: u8 = 0x00;
pub const MSG_DATA: u8 = 0x01;
pub const MSG_CLOSE: u8 = 0x02;
pub const MSG_POLL: u8 = 0x03;

/// Response type bytes.
pub const RESP_CHALLENGE: u8 = 0x00;
pub const RESP_DATA: u8 = 0x01;
pub const RESP_CLOSE: u8 = 0x02;
pub const RESP_ERROR: u8 = 0x03;

/// Length of the client message header: public key and nonce.
pub const CLIENT_HEADER_LEN: usize = 40;

// ---------------------------------------------------------------------------
// Client messages
// ---------------------------------------------------------------------------

/// Client message types.
#[derive(Debug, Clone)]
pub enum ClientMessageType {
    StartConnection { host: SocksAddress, port: u16 },
    Data { connection_id_signed: Vec<u8>, data: Vec<u8>, compressed: bool },
    Close { connection_id_signed: Vec<u8> },
    /// Request pending data without sending new data.
    Poll,
}

/// A message from the client to the server (through the lambda).
#[derive(Debug, Clone)]
pub struct ClientMessage {
    pub client_public_key: [u8; 32],
    pub nonce: u64,
    pub messages: Vec<ClientMessageType>,
}

/// What a `ClientMessageType` denotes.
pub enum ClientItem {
    StartConnection { host: AddressView, port: u16 },
    Data { connection_id_signed: Seq<u8>, data: Seq<u8>, compressed: bool },
    Close { connection_id_signed: Seq<u8> },
    Poll,
}

/// What a `ClientMessage` denotes.
pub struct ClientMessageView {
    pub client_public_key: Seq<u8>,
    pub nonce: u64,
    pub messages: Seq<ClientItem>,
}

impl View for ClientMessageType {
    type V = ClientItem;

    open spec fn view(&self) -> ClientItem {
        match self {
            ClientMessageType::StartConnection { host, port } => ClientItem::StartConnection {
                host: host@,
                port: *port,
            },
            ClientMessageType::Data { connection_id_signed, data, compressed } => ClientItem::Data {
                connection_id_signed: connection_id_signed@,
                data: data@,
                compressed: *compressed,
            },
            ClientMessageType::Close { connection_id_signed } => ClientItem::Close {
                connection_id_signed: connection_id_signed@,
            },
            ClientMessageType::Poll => ClientItem::Poll,
        }
    }
}

impl View for ClientMessage {
    type V = ClientMessageView;

    open spec fn view(&self) -> ClientMessageView {
        ClientMessageView {
            client_public_key: self.client_public_key@,
            nonce: self.nonce,
            messages: self.messages@.map_values(|m: ClientMessageType| m@),
        }
    }
}

/// `w` in front of the bytes of `r`, or the error of `r`.
pub open spec fn prepend_bytes(w: Seq<u8>, r: Result<Seq<u8>, ProtocolError>) -> Result<Seq<u8>, ProtocolError> {
    match r {
        Ok(x) => Ok(w + x),
        Err(e) => Err(e),
    }
}

/// The encoding of one client message item.
pub open spec fn spec_encode_client_item(it: ClientItem) -> Result<Seq<u8>, ProtocolError> {
    match it {
        ClientItem::StartConnection { host, port } => match spec_encode_address(host) {
            Some(a) => Ok(seq![MSG_START_CONNECTION] + a + le16(port)),
            None => Err(ProtocolError::InvalidData(DataFault::DomainTooLong)),
        },
        ClientItem::Data { connection_id_signed, data, compressed } => if connection_id_signed.len()
            > 255 {
            Err(ProtocolError::InvalidData(DataFault::SignedIdTooLong))
        } else {
            Ok(seq![MSG_DATA, connection_id_signed.len() as u8] + connection_id_signed
                + spec_data_piece(data, compressed))
        },
        ClientItem::Close { connection_id_signed } => if connection_id_signed.len() > 255 {
            Err(ProtocolError::InvalidData(DataFault::SignedIdTooLong))
        } else {
            Ok(seq![MSG_CLOSE, connection_id_signed.len() as u8] + connection_id_signed)
        },
        ClientItem::Poll => Ok(seq![MSG_POLL]),
    }
}

/// The encoding of a sequence of items, in order; the first item that cannot
/// be encoded gives the error.
pub open spec fn spec_encode_client_items(items: Seq<ClientItem>) -> Result<Seq<u8>, ProtocolError>
    decreases items.len(),
{
    if items.len() == 0 {
        Ok(seq![])
    } else {
        match spec_encode_client_item(items[0]) {
            Ok(b) => prepend_bytes(b, spec_encode_client_items(items.drop_first())),
            Err(e) => Err(e),
        }
    }
}

/// The serialization of a client message: public key, nonce, items.
pub open spec fn spec_serialize_client(m: ClientMessageView) -> Result<Seq<u8>, ProtocolError> {
    prepend_bytes(m.client_public_key + le64(m.nonce), spec_encode_client_items(m.messages))
}

/// Decoding one client item at position `pos` (which lies inside `s`): the
/// item and the position just past it.
#[verifier::opaque]
pub open spec fn spec_parse_client_item(s: Seq<u8>, pos: int) -> Result<(ClientItem, int), ProtocolError> {
    let t = s[pos];
    if t == MSG_START_CONNECTION {
        match spec_decode_address(s, pos + 1) {
            Ok((host, p)) => if p + 2 > s.len() {
                Err(ProtocolError::Io)
            } else {
                Ok((ClientItem::StartConnection { host, port: u16_at(s, p) }, p + 2))
            },
            Err(e) => Err(e),
        }
    } else if t == MSG_DATA || t == MSG_CLOSE {
        if pos + 2 > s.len() || pos + 2 + s[pos + 1] > s.len() {
            Err(ProtocolError::Io)
        } else {
            let sig = s.subrange(pos + 2, pos + 2 + s[pos + 1]);
            if t == MSG_CLOSE {
                Ok((ClientItem::Close { connection_id_signed: sig }, pos + 2 + s[pos + 1]))
            } else {
                match spec_decode_data_piece(s, pos + 2 + s[pos + 1]) {
                    Ok((data, compressed, e)) => Ok(
                        (ClientItem::Data { connection_id_signed: sig, data, compressed }, e),
                    ),
                    Err(e) => Err(e),
                }
            }
        }
    } else if t == MSG_POLL {
        Ok((ClientItem::Poll, pos + 1))
    } else {
        Err(ProtocolError::InvalidMessageType(t))
    }
}

/// Decoding items from position `pos` to the end of `s`.
pub open spec fn spec_parse_client_items(s: Seq<u8>, pos: int) -> Result<Seq<ClientItem>, ProtocolError>
    decreases s.len() - pos,
{
    if pos < 0 || pos >= s.len() {
        Ok(seq![])
    } else {
        match spec_parse_client_item(s, pos) {
            Ok((it, next)) => if pos < next <= s.len() {
                match spec_parse_client_items(s, next) {
                    Ok(rest) => Ok(seq![it] + rest),
                    Err(e) => Err(e),
                }
            } else {
                Err(ProtocolError::Io)
            },
            Err(e) => Err(e),
        }
    }
}

/// The deserialization of a client message.
pub open spec fn spec_deserialize_client(s: Seq<u8>) -> Result<ClientMessageView, ProtocolError> {
    if s.len() < CLIENT_HEADER_LEN {
        Err(ProtocolError::Io)
    } else {
        match spec_parse_client_items(s, CLIENT_HEADER_LEN as int) {
            Ok(items) => Ok(
                ClientMessageView {
                    client_public_key: s.subrange(0, 32),
                    nonce: u64_at(s, 32),
                    messages: items,
                },
            ),
            Err(e) => Err(e),
        }
    }
}

/// An item as it reads back: a data item is flagged compressed exactly when
/// compression was applied on the wire.
pub open spec fn normalize_client_item(it: ClientItem) -> ClientItem {
    match it {
        ClientItem::Data { connection_id_signed, data, compressed } => ClientItem::Data {
            connection_id_signed,
            data,
            compressed: spec_wire_data(data, compressed).0,
        },
        _ => it,
    }
}

/// A message as it reads back after serialization.
pub open spec fn normalize_client(m: ClientMessageView) -> ClientMessageView {
    ClientMessageView {
        client_public_key: m.client_public_key,
        nonce: m.nonce,
        messages: m.messages.map_values(|it: ClientItem| normalize_client_item(it)),
    }
}

/// The lengths of an item fit the `u32` length fields, and its address is one
/// that a `SocksAddress` holds.
pub open spec fn client_item_fits(it: ClientItem) -> bool {
    match it {
        ClientItem::StartConnection { host, .. } => host.wf(),
        ClientItem::Data { data, .. } => data.len() <= u32::MAX,
        _ => true,
    }
}

/// The compressed bytes chosen for a data item decompress back.
pub open spec fn client_item_lossless(it: ClientItem) -> bool {
    match it {
        ClientItem::Data { data, compressed, .. } => wire_data_lossless(data, compressed),
        _ => true,
    }
}

#[verifier::spinoff_prover]
#[verifier::rlimit(30)]
proof fn lemma_start_roundtrip(host: AddressView, port: u16, prefix: Seq<u8>, suffix: Seq<u8>)
    requires
        host.wf(),
        spec_encode_address(host) is Some,
    ensures
        ({
            let it = ClientItem::StartConnection { host, port };
            let e = spec_encode_client_item(it)->Ok_0;
            spec_parse_client_item(prefix + e + suffix, prefix.len() as int) == Ok::<
                (ClientItem, int),
                ProtocolError,
            >((it, prefix.len() + e.len() as int))
        }),
{
    reveal(spec_parse_client_item);
    let it = ClientItem::StartConnection { host, port };
    let a = spec_encode_address(host).unwrap();
    let e = spec_encode_client_item(it)->Ok_0;
    let s = prefix + e + suffix;
    let p = prefix.len() as int;
    assert(s[p] == e[0]);
    lemma_address_roundtrip(host, prefix + seq![MSG_START_CONNECTION], le16(port) + suffix);
    assert(prefix + seq![MSG_START_CONNECTION] + a + (le16(port) + suffix) =~= s);
    let q = p + 1 + a.len();
    assert(s.subrange(q, q + 2) =~= le16(port));
    lemma_le16_read(port, s, q);
}

#[verifier::spinoff_prover]
#[verifier::rlimit(30)]
proof fn lemma_data_roundtrip(sig: Seq<u8>, data: Seq<u8>, compressed: bool, prefix: Seq<u8>, suffix: Seq<u8>)
    requires
        sig.len() <= 255,
        data.len() <= u32::MAX,
        wire_data_lossless(data, compressed),
    ensures
        ({
            let it = ClientItem::Data { connection_id_signed: sig, data, compressed };
            let e = spec_encode_client_item(it)->Ok_0;
            spec_parse_client_item(prefix + e + suffix, prefix.len() as int) == Ok::<
                (ClientItem, int),
                ProtocolError,
            >((normalize_client_item(it), prefix.len() + e.len() as int))
        }),
{
    reveal(spec_parse_client_item);
    let it = ClientItem::Data { connection_id_signed: sig, data, compressed };
    let e = spec_encode_client_item(it)->Ok_0;
    let s = prefix + e + suffix;
    let p = prefix.len() as int;
    let head = prefix + seq![MSG_DATA, sig.len() as u8] + sig;
    assert(s[p] == e[0]);
    assert(s[p + 1] == e[1]);
    assert(s.subrange(p + 2, p + 2 + sig.len()) =~= sig);
    lemma_data_piece_roundtrip(data, compressed, head, suffix);
    assert(head + spec_data_piece(data, compressed) + suffix =~= s);
}

proof fn lemma_close_roundtrip(sig: Seq<u8>, prefix: Seq<u8>, suffix: Seq<u8>)
    requires
        sig.len() <= 255,
    ensures
        ({
            let it = ClientItem::Close { connection_id_signed: sig };
            let e = spec_encode_client_item(it)->Ok_0;
            spec_parse_client_item(prefix + e + suffix, prefix.len() as int) == Ok::<
                (ClientItem, int),
                ProtocolError,
            >((it, prefix.len() + e.len() as int))
        }),
{
    reveal(spec_parse_client_item);
    let it = ClientItem::Close { connection_id_signed: sig };
    let e = spec_encode_client_item(it)->Ok_0;
    let s = prefix + e + suffix;
    let p = prefix.len() as int;
    assert(s[p] == e[0]);
    assert(s[p + 1] == e[1]);
    assert(s.subrange(p + 2, p + 2 + sig.len()) =~= sig);
}

proof fn lemma_client_item_roundtrip(it: ClientItem, prefix: Seq<u8>, suffix: Seq<u8>)
    requires
        client_item_fits(it),
        client_item_lossless(it),
        spec_encode_client_item(it) is Ok,
    ensures
        ({
            let e = spec_encode_client_item(it)->Ok_0;
            spec_parse_client_item(prefix + e + suffix, prefix.len() as int) == Ok::<
                (ClientItem, int),
                ProtocolError,
            >((normalize_client_item(it), prefix.len() + e.len() as int))
        }),
{
    match it {
        ClientItem::StartConnection { host, port } => {
            lemma_start_roundtrip(host, port, prefix, suffix);
        },
        ClientItem::Data { connection_id_signed, data, compressed } => {
            lemma_data_roundtrip(connection_id_signed, data, compressed, prefix, suffix);
        },
        ClientItem::Close { connection_id_signed } => {
            lemma_close_roundtrip(connection_id_signed, prefix, suffix);
        },
        ClientItem::Poll => {
            reveal(spec_parse_client_item);
            let e = seq![MSG_POLL];
            assert((prefix + e + suffix)[prefix.len() as int] == MSG_POLL);
        },
    }
}

#[verifier::spinoff_prover]
#[verifier::rlimit(30)]
proof fn lemma_client_items_roundtrip(items: Seq<ClientItem>, prefix: Seq<u8>, suffix: Seq<u8>)
    requires
        forall|i: int| 0 <= i < items.len() ==> client_item_fits(#[trigger] items[i]),
        forall|i: int| 0 <= i < items.len() ==> client_item_lossless(#[trigger] items[i]),
        spec_encode_client_items(items) is Ok,
    ensures
        ({
            let e = spec_encode_client_items(items)->Ok_0;
            let s = prefix + e + suffix;
            spec_parse_client_items(s, prefix.len() as int) == match spec_parse_client_items(
                s,
                (prefix.len() + e.len()) as int,
            ) {
                Ok(rest) => Ok(items.map_values(|it: ClientItem| normalize_client_item(it)) + rest),
                Err(err) => Err(err),
            }
        }),
    decreases items.len(),
{
    let e = spec_encode_client_items(items)->Ok_0;
    let s = prefix + e + suffix;
    if items.len() == 0 {
        assert(items.map_values(|it: ClientItem| normalize_client_item(it)) =~= seq![]);
        match spec_parse_client_items(s, prefix.len() as int) {
            Ok(rest) => {
                assert(seq![] + rest =~= rest);
            },
            Err(_) => {},
        }
    } else {
        let e0 = spec_encode_client_item(items[0])->Ok_0;
        let rest = items.drop_first();
        let er = spec_encode_client_items(rest)->Ok_0;
        assert(items[0] == items[0]);
        assert(client_item_fits(items[0]) && client_item_lossless(items[0]));
        assert forall|i: int| 0 <= i < rest.len() implies client_item_fits(#[trigger] rest[i])
            && client_item_lossless(rest[i]) by {
            assert(rest[i] == items[i + 1]);
        }
        lemma_client_item_roundtrip(items[0], prefix, er + suffix);
        assert(s =~= prefix + e0 + (er + suffix));
        lemma_client_items_roundtrip(rest, prefix + e0, suffix);
        assert((prefix + e0) + er + suffix =~= s);
        assert(e0.len() > 0);
        let norm = items.map_values(|it: ClientItem| normalize_client_item(it));
        let norm_rest = rest.map_values(|it: ClientItem| normalize_client_item(it));
        assert(norm =~= seq![normalize_client_item(items[0])] + norm_rest);
        match spec_parse_client_items(s, (prefix.len() + e.len()) as int) {
            Ok(tail) => {
                assert(seq![normalize_client_item(items[0])] + (norm_rest + tail) =~= norm + tail);
            },
            Err(_) => {},
        }
    }
}

/// Serializing a message whose data lengths fit the `u32` length fields and
/// deserializing the bytes gives the message back, with each data item
/// flagged compressed exactly when compression was applied.
pub proof fn lemma_client_roundtrip(m: ClientMessageView)
    requires
        m.client_public_key.len() == 32,
        forall|i: int| 0 <= i < m.messages.len() ==> client_item_fits(#[trigger] m.messages[i]),
        forall|i: int| 0 <= i < m.messages.len() ==> client_item_lossless(#[trigger] m.messages[i]),
        spec_serialize_client(m) is Ok,
    ensures
        spec_deserialize_client(spec_serialize_client(m)->Ok_0) == Ok::<ClientMessageView, ProtocolError>(
            normalize_client(m),
        ),
{
    let h = m.client_public_key + le64(m.nonce);
    let s = spec_serialize_client(m)->Ok_0;
    lemma_client_items_roundtrip(m.messages, h, seq![]);
    assert(h + spec_encode_client_items(m.messages)->Ok_0 + seq![] =~= s);
    assert(m.messages.map_values(|it: ClientItem| normalize_client_item(it)) + seq![] =~= m.messages.map_values(
        |it: ClientItem| normalize_client_item(it),
    ));
    assert(s.subrange(0, 32) =~= m.client_public_key);
    assert(s.subrange(32, 40) =~= le64(m.nonce));
    lemma_le64_read(m.nonce, s, 32);
}

/// Whether `b` is the type byte of a client item.
pub open spec fn is_client_item_type(b: u8) -> bool {
    b == MSG_START_CONNECTION || b == MSG_DATA || b == MSG_CLOSE || b == MSG_POLL
}

/// A serialized message followed by a byte that is no item type, and any
/// bytes after it, is refused with `InvalidMessageType` of that byte: the
/// items before it are not returned.
pub proof fn lemma_client_bad_type_after(m: ClientMessageView, b: u8, rest: Seq<u8>)
    requires
        m.client_public_key.len() == 32,
        forall|i: int| 0 <= i < m.messages.len() ==> client_item_fits(#[trigger] m.messages[i]),
        forall|i: int| 0 <= i < m.messages.len() ==> client_item_lossless(#[trigger] m.messages[i]),
        spec_serialize_client(m) is Ok,
        !is_client_item_type(b),
    ensures
        spec_deserialize_client(spec_serialize_client(m)->Ok_0 + seq![b] + rest) == Err::<
            ClientMessageView,
            ProtocolError,
        >(ProtocolError::InvalidMessageType(b)),
{
    let h = m.client_public_key + le64(m.nonce);
    let e = spec_encode_client_items(m.messages)->Ok_0;
    let s = spec_serialize_client(m)->Ok_0 + seq![b] + rest;
    lemma_client_items_roundtrip(m.messages, h, seq![b] + rest);
    assert(h + e + (seq![b] + rest) =~= s);
    let p = (h.len() + e.len()) as int;
    assert(s[p] == b);
    reveal(spec_parse_client_item);
    assert(spec_parse_client_item(s, p) == Err::<(ClientItem, int), ProtocolError>(
        ProtocolError::InvalidMessageType(b),
    ));
    assert(spec_parse_client_items(s, p) == Err::<Seq<ClientItem>, ProtocolError>(
        ProtocolError::InvalidMessageType(b),
    ));
}

fn encode_client_item(it: &ClientMessageType, buf: &mut Vec<u8>) -> (r: Result<(), ProtocolError>)
    ensures
        match spec_encode_client_item(it@) {
            Ok(b) => r is Ok && final(buf)@ == old(buf)@ + b,
            Err(e) => r == Err::<(), _>(e),
        },
        r is Ok ==> client_item_lossless(it@),
{
    match it {
        ClientMessageType::StartConnection { host, port } => {
            buf.push(MSG_START_CONNECTION);
            host.encode(buf)?;
            push_u16_le(buf, *port);
            proof {
                let a = spec_encode_address(host@).unwrap();
                assert(buf@ =~= old(buf)@ + (seq![MSG_START_CONNECTION] + a + le16(*port)));
            }
        },
        ClientMessageType::Data { connection_id_signed, data, compressed } => {
            if connection_id_signed.len() > 255 {
                return Err(ProtocolError::InvalidData(DataFault::SignedIdTooLong));
            }
            buf.push(MSG_DATA);
            buf.push(connection_id_signed.len() as u8);
            buf.extend_from_slice(connection_id_signed.as_slice());
            push_data_piece(buf, data, *compressed);
            assert(buf@ =~= old(buf)@ + (seq![MSG_DATA, connection_id_signed@.len() as u8]
                + connection_id_signed@ + spec_data_piece(data@, *compressed)));
        },
        ClientMessageType::Close { connection_id_signed } => {
            if connection_id_signed.len() > 255 {
                return Err(ProtocolError::InvalidData(DataFault::SignedIdTooLong));
            }
            buf.push(MSG_CLOSE);
            buf.push(connection_id_signed.len() as u8);
            buf.extend_from_slice(connection_id_signed.as_slice());
            assert(buf@ =~= old(buf)@ + (seq![MSG_CLOSE, connection_id_signed@.len() as u8]
                + connection_id_signed@));
        },
        ClientMessageType::Poll => {
            buf.push(MSG_POLL);
            assert(buf@ =~= old(buf)@ + seq![MSG_POLL]);
        },
    }
    Ok(())
}

/// Decodes the client item at position `pos < s.len()`.
fn parse_client_item(s: &[u8], pos: usize) -> (r: Result<(ClientMessageType, usize), ProtocolError>)
    requires
        pos < s@.len(),
    ensures
        match spec_parse_client_item(s@, pos as int) {
            Ok((it, end)) => r matches Ok((item, e)) && item@ == it && e == end && pos < e <= s@.len(),
            Err(err) => r == Err::<(ClientMessageType, usize), _>(err),
        },
{
    reveal(spec_parse_client_item);
    let t = s[pos];
    if t == MSG_START_CONNECTION {
        let (host, p) = SocksAddress::decode(s, pos + 1)?;
        if p > s.len() || s.len() - p < 2 {
            return Err(ProtocolError::Io);
        }
        let port = read_u16_le(s, p);
        Ok((ClientMessageType::StartConnection { host, port }, p + 2))
    } else if t == MSG_DATA || t == MSG_CLOSE {
        if s.len() - pos < 2 {
            return Err(ProtocolError::Io);
        }
        let n = s[pos + 1] as usize;
        if s.len() - pos - 2 < n {
            return Err(ProtocolError::Io);
        }
        let sig = vstd::slice::slice_to_vec(vstd::slice::slice_subrange(s, pos + 2, pos + 2 + n));
        if t == MSG_CLOSE {
            Ok((ClientMessageType::Close { connection_id_signed: sig }, pos + 2 + n))
        } else {
            let (data, compressed, e) = read_data_piece(s, pos + 2 + n)?;
            Ok((ClientMessageType::Data { connection_id_signed: sig, data, compressed }, e))
        }
    } else if t == MSG_POLL {
        Ok((ClientMessageType::Poll, pos + 1))
    } else {
        Err(ProtocolError::InvalidMessageType(t))
    }
}

impl ClientMessage {
    /// Serialize the client message (before encryption). Fails only on a
    /// domain name or a signed connection id longer than 255 bytes; what it
    /// writes deserializes back to the message when the data lengths fit the
    /// `u32` length fields.
    #[verifier::spinoff_prover]
    #[verifier::rlimit(30)]
    pub fn serialize(&self) -> (r: Result<Vec<u8>, ProtocolError>)
        ensures
            match spec_serialize_client(self@) {
                Ok(b) => r matches Ok(v) && v@ == b,
                Err(e) => r == Err::<Vec<u8>, _>(e),
            },
            r matches Ok(v) ==> ((forall|i: int|
                0 <= i < self@.messages.len() ==> client_item_fits(#[trigger] self@.messages[i]))
                ==> spec_deserialize_client(v@) == Ok::<ClientMessageView, ProtocolError>(
                normalize_client(self@),
            )),
    {
        let mut buf: Vec<u8> = Vec::new();
        buf.extend_from_slice(self.client_public_key.as_slice());
        push_u64_le(&mut buf, self.nonce);
        let ghost header = buf@;
        let ghost items = self@.messages;
        assert(header =~= self@.client_public_key + le64(self.nonce));
        let ghost mut written: Seq<u8> = seq![];
        let n = self.messages.len();
        let mut i: usize = 0;
        assert(items.skip(0) =~= items);
        while i < n
            invariant
                n == self.messages@.len(),
                items == self@.messages,
                items.len() == n,
                0 <= i <= n,
                buf@ == header + written,
                spec_encode_client_items(items) == prepend_bytes(
                    written,
                    spec_encode_client_items(items.skip(i as int)),
                ),
                forall|j: int| 0 <= j < i ==> client_item_lossless(#[trigger] items[j]),
            decreases n - i,
        {
            let it = &self.messages[i];
            assert(it@ == items[i as int]);
            assert(items.skip(i as int)[0] == items[i as int]);
            assert(items.skip(i as int).drop_first() =~= items.skip(i + 1));
            let res = encode_client_item(it, &mut buf);
            match res {
                Ok(()) => {},
                Err(e) => {
                    return Err(e);
                },
            }
            proof {
                let b = spec_encode_client_item(items[i as int])->Ok_0;
                assert(buf@ =~= header + (written + b));
                match spec_encode_client_items(items.skip(i + 1)) {
                    Ok(x) => {
                        assert(written + (b + x) =~= (written + b) + x);
                    },
                    Err(_) => {},
                }
                written = written + b;
            }
            i = i + 1;
        }
        proof {
            assert(items.skip(n as int) =~= Seq::<ClientItem>::empty());
            assert(written + seq![] =~= written);
            assert(spec_serialize_client(self@) == Ok::<Seq<u8>, ProtocolError>(buf@));
            if forall|i: int| 0 <= i < self@.messages.len() ==> client_item_fits(#[trigger] self@.messages[i]) {
                lemma_client_roundtrip(self@);
            }
        }
        Ok(buf)
    }

    /// Deserialize a client message (after decryption).
    #[verifier::spinoff_prover]
    #[verifier::rlimit(30)]
    pub fn deserialize(data: &[u8]) -> (r: Result<ClientMessage, ProtocolError>)
        ensures
            match spec_deserialize_client(data@) {
                Ok(m) => r matches Ok(msg) && msg@ == m,
                Err(e) => r == Err::<ClientMessage, _>(e),
            },
    {
        if data.len() < CLIENT_HEADER_LEN {
            return Err(ProtocolError::Io);
        }
        let mut client_public_key = [0u8; 32];
        let mut k: usize = 0;
        while k < 32
            invariant
                0 <= k <= 32,
                data@.len() >= 40,
                forall|j: int| 0 <= j < k ==> client_public_key@[j] == data@[j],
            decreases 32 - k,
        {
            client_public_key[k] = data[k];
            k = k + 1;
        }
        assert(client_public_key@ =~= data@.subrange(0, 32));
        let nonce = read_u64_le(data, 32);
        let mut messages: Vec<ClientMessageType> = Vec::new();
        let mut pos: usize = CLIENT_HEADER_LEN;
        let ghost s = data@;
        while pos < data.len()
            invariant
                s == data@,
                CLIENT_HEADER_LEN <= pos <= s.len(),
                spec_parse_client_items(s, CLIENT_HEADER_LEN as int) == match spec_parse_client_items(s, pos as int) {
                    Ok(rest) => Ok(messages@.map_values(|m: ClientMessageType| m@) + rest),
                    Err(e) => Err(e),
                },
            decreases s.len() - pos,
        {
            let (item, next) = parse_client_item(data, pos)?;
            let ghost done = messages@.map_values(|m: ClientMessageType| m@);
            proof {
                assert(spec_parse_client_items(s, pos as int) == match spec_parse_client_items(s, next as int) {
                    Ok(rest) => Ok(seq![item@] + rest),
                    Err(e) => Err::<Seq<ClientItem>, ProtocolError>(e),
                });
                match spec_parse_client_items(s, next as int) {
                    Ok(rest) => {
                        assert(done + (seq![item@] + rest) =~= done.push(item@) + rest);
                    },
                    Err(_) => {},
                }
            }
            messages.push(item);
            assert(messages@.map_values(|m: ClientMessageType| m@) =~= done.push(item@));
            pos = next;
        }
        proof {
            assert(messages@.map_values(|m: ClientMessageType| m@) + seq![] =~= messages@.map_values(
                |m: ClientMessageType| m@,
            ));
        }
        Ok(ClientMessage { client_public_key, nonce, messages })
    }
}


// ---------------------------------------------------------------------------
// Server responses
// ---------------------------------------------------------------------------

/// Error codes for server error responses.
#[derive(Debug, Clone, Copy, PartialEq, Eq, Structural)]
pub enum ErrorCode {
    Timeout,
    ConnectionRefused,
    HostUnreachable,
    TooManyConnections,
    InvalidNonce,
    Unknown,
}

/// The byte that stands for an error code on the wire.
pub open spec fn spec_error_code_byte(c: ErrorCode) -> u8 {
    match c {
        ErrorCode::Timeout => 0x01,
        ErrorCode::ConnectionRefused => 0x02,
        ErrorCode::HostUnreachable => 0x03,
        ErrorCode::TooManyConnections => 0x04,
        ErrorCode::InvalidNonce => 0x05,
        ErrorCode::Unknown => 0xFF,
    }
}

/// The error code that a byte stands for; bytes of no known code stand for
/// `Unknown`.
pub open spec fn spec_error_code_from_byte(v: u8) -> ErrorCode {
    if v == 0x01 {
        ErrorCode::Timeout
    } else if v == 0x02 {
        ErrorCode::ConnectionRefused
    } else if v == 0x03 {
        ErrorCode::HostUnreachable
    } else if v == 0x04 {
        ErrorCode::TooManyConnections
    } else if v == 0x05 {
        ErrorCode::InvalidNonce
    } else {
        ErrorCode::Unknown
    }
}

impl ErrorCode {
    pub fn from_u8(value: u8) -> (r: Self)
        ensures
            r == spec_error_code_from_byte(value),
    {
        match value {
            0x01 => ErrorCode::Timeout,
            0x02 => ErrorCode::ConnectionRefused,
            0x03 => ErrorCode::HostUnreachable,
            0x04 => ErrorCode::TooManyConnections,
            0x05 => ErrorCode::InvalidNonce,
            _ => ErrorCode::Unknown,
        }
    }

    /// The byte that stands for this code on the wire.
    pub fn to_u8(self) -> (r: u8)
        ensures
            r == spec_error_code_byte(self),
    {
        match self {
            ErrorCode::Timeout => 0x01,
            ErrorCode::ConnectionRefused => 0x02,
            ErrorCode::HostUnreachable => 0x03,
            ErrorCode::TooManyConnections => 0x04,
            ErrorCode::InvalidNonce => 0x05,
            ErrorCode::Unknown => 0xFF,
        }
    }
}

/// Reading the byte of an error code gives the code back.
pub proof fn lemma_error_code_roundtrip(c: ErrorCode)
    ensures
        spec_error_code_from_byte(spec_error_code_byte(c)) == c,
{
}

/// A byte reads as a code whose byte is itself exactly when it is the byte
/// of a known code (`0x01` to `0x05`) or `0xFF`.
pub proof fn lemma_error_byte_roundtrip(v: u8)
    ensures
        (spec_error_code_byte(spec_error_code_from_byte(v)) == v) <==> ((0x01 <= v <= 0x05)
            || v == 0xFF),
{
}

/// Server response types.
#[derive(Debug, Clone)]
pub enum ServerResponseType {
    Challenge { connection_id: u64 },
    Data { connection_id: u64, data: Vec<u8>, compressed: bool },
    Close { connection_id: u64, message: String },
    /// `connection_id` is 0 for errors before a connection is established.
    Error { connection_id: u64, error_code: ErrorCode, message: String },
}

/// A response from the server to the client.
#[derive(Debug, Clone)]
pub struct ServerResponse {
    pub responses: Vec<ServerResponseType>,
}

/// What a `ServerResponseType` denotes.
pub enum ServerItem {
    Challenge { connection_id: u64 },
    Data { connection_id: u64, data: Seq<u8>, compressed: bool },
    Close { connection_id: u64, message: Seq<char> },
    Error { connection_id: u64, error_code: ErrorCode, message: Seq<char> },
}

impl View for ServerResponseType {
    type V = ServerItem;

    open spec fn view(&self) -> ServerItem {
        match self {
            ServerResponseType::Challenge { connection_id } => ServerItem::Challenge {
                connection_id: *connection_id,
            },
            ServerResponseType::Data { connection_id, data, compressed } => ServerItem::Data {
                connection_id: *connection_id,
                data: data@,
                compressed: *compressed,
            },
            ServerResponseType::Close { connection_id, message } => ServerItem::Close {
                connection_id: *connection_id,
                message: message@,
            },
            ServerResponseType::Error { connection_id, error_code, message } => ServerItem::Error {
                connection_id: *connection_id,
                error_code: *error_code,
                message: message@,
            },
        }
    }
}

impl View for ServerResponse {
    type V = Seq<ServerItem>;

    open spec fn view(&self) -> Seq<ServerItem> {
        self.responses@.map_values(|r: ServerResponseType| r@)
    }
}

/// A text field: `u32` byte length (truncating as the cast does), then the
/// UTF-8 bytes.
pub open spec fn spec_text_field(m: Seq<char>) -> Seq<u8> {
    le32(text_bytes(m).len() as u32) + text_bytes(m)
}

/// The encoding of one server response item.
pub open spec fn spec_encode_server_item(it: ServerItem) -> Seq<u8> {
    match it {
        ServerItem::Challenge { connection_id } => seq![RESP_CHALLENGE] + le64(connection_id),
        ServerItem::Data { connection_id, data, compressed } => seq![RESP_DATA] + le64(connection_id)
            + spec_data_piece(data, compressed),
        ServerItem::Close { connection_id, message } => seq![RESP_CLOSE] + le64(connection_id)
            + spec_text_field(message),
        ServerItem::Error { connection_id, error_code, message } => seq![RESP_ERROR] + le64(
            connection_id,
        ) + seq![spec_error_code_byte(error_code)] + spec_text_field(message),
    }
}

/// The serialization of a server response: its items in order.
pub open spec fn spec_serialize_server(items: Seq<ServerItem>) -> Seq<u8>
    decreases items.len(),
{
    if items.len() == 0 {
        seq![]
    } else {
        spec_encode_server_item(items[0]) + spec_serialize_server(items.drop_first())
    }
}

/// Decoding a text field at position `pos`: the text and the position just
/// past it.
#[verifier::opaque]
pub open spec fn spec_parse_text_field(s: Seq<u8>, pos: int) -> Result<(Seq<char>, int), ProtocolError> {
    if pos + 4 > s.len() || pos + 4 + u32_at(s, pos) > s.len() {
        Err(ProtocolError::Io)
    } else {
        let b = s.subrange(pos + 4, pos + 4 + u32_at(s, pos));
        if valid_utf8(b) {
            Ok((decode_utf8(b), pos + 4 + u32_at(s, pos)))
        } else {
            Err(ProtocolError::InvalidData(DataFault::InvalidUtf8))
        }
    }
}

/// Decoding the body of an error item (code byte, then text) at `pos`.
pub open spec fn spec_parse_error_body(s: Seq<u8>, pos: int, id: u64) -> Result<(ServerItem, int), ProtocolError> {
    if pos + 1 > s.len() {
        Err(ProtocolError::Io)
    } else {
        match spec_parse_text_field(s, pos + 1) {
            Ok((message, e)) => Ok(
                (
                    ServerItem::Error {
                        connection_id: id,
                        error_code: spec_error_code_from_byte(s[pos]),
                        message,
                    },
                    e,
                ),
            ),
            Err(e) => Err(e),
        }
    }
}

/// Decoding one server item at position `pos` (which lies inside `s`).
#[verifier::opaque]
pub open spec fn spec_parse_server_item(s: Seq<u8>, pos: int) -> Result<(ServerItem, int), ProtocolError> {
    let t = s[pos];
    if t == RESP_CHALLENGE || t == RESP_DATA || t == RESP_CLOSE || t == RESP_ERROR {
        if pos + 9 > s.len() {
            Err(ProtocolError::Io)
        } else {
            let id = u64_at(s, pos + 1);
            if t == RESP_CHALLENGE {
                Ok((ServerItem::Challenge { connection_id: id }, pos + 9))
            } else if t == RESP_DATA {
                match spec_decode_data_piece(s, pos + 9) {
                    Ok((data, compressed, e)) => Ok(
                        (ServerItem::Data { connection_id: id, data, compressed }, e),
                    ),
                    Err(e) => Err(e),
                }
            } else if t == RESP_CLOSE {
                match spec_parse_text_field(s, pos + 9) {
                    Ok((message, e)) => Ok((ServerItem::Close { connection_id: id, message }, e)),
                    Err(e) => Err(e),
                }
            } else {
                spec_parse_error_body(s, pos + 9, id)
            }
        }
    } else {
        Err(ProtocolError::InvalidMessageType(t))
    }
}

/// Decoding server items from position `pos` to the end of `s`.
pub open spec fn spec_parse_server_items(s: Seq<u8>, pos: int) -> Result<Seq<ServerItem>, ProtocolError>
    decreases s.len() - pos,
{
    if pos < 0 || pos >= s.len() {
        Ok(seq![])
    } else {
        match spec_parse_server_item(s, pos) {
            Ok((it, next)) => if pos < next <= s.len() {
                match spec_parse_server_items(s, next) {
                    Ok(rest) => Ok(seq![it] + rest),
                    Err(e) => Err(e),
                }
            } else {
                Err(ProtocolError::Io)
            },
            Err(e) => Err(e),
        }
    }
}

/// The deserialization of a server response.
pub open spec fn spec_deserialize_server(s: Seq<u8>) -> Result<Seq<ServerItem>, ProtocolError> {
    spec_parse_server_items(s, 0)
}

/// An item as it reads back: a data item is flagged compressed exactly when
/// compression was applied on the wire.
pub open spec fn normalize_server_item(it: ServerItem) -> ServerItem {
    match it {
        ServerItem::Data { connection_id, data, compressed } => ServerItem::Data {
            connection_id,
            data,
            compressed: spec_wire_data(data, compressed).0,
        },
        _ => it,
    }
}

/// The lengths of an item fit the `u32` length fields.
pub open spec fn server_item_fits(it: ServerItem) -> bool {
    match it {
        ServerItem::Challenge { .. } => true,
        ServerItem::Data { data, .. } => data.len() <= u32::MAX,
        ServerItem::Close { message, .. } => text_bytes(message).len() <= u32::MAX,
        ServerItem::Error { message, .. } => text_bytes(message).len() <= u32::MAX,
    }
}

/// The compressed bytes chosen for a data item decompress back.
pub open spec fn server_item_lossless(it: ServerItem) -> bool {
    match it {
        ServerItem::Data { data, compressed, .. } => wire_data_lossless(data, compressed),
        _ => true,
    }
}

proof fn lemma_text_field_roundtrip(m: Seq<char>, prefix: Seq<u8>, suffix: Seq<u8>)
    requires
        text_bytes(m).len() <= u32::MAX,
    ensures
        spec_parse_text_field(prefix + spec_text_field(m) + suffix, prefix.len() as int) == Ok::<
            (Seq<char>, int),
            ProtocolError,
        >((m, prefix.len() + spec_text_field(m).len() as int)),
{
    reveal(spec_parse_text_field);
    let b = text_bytes(m);
    let s = prefix + spec_text_field(m) + suffix;
    let p = prefix.len() as int;
    assert(s.subrange(p, p + 4) =~= le32(b.len() as u32));
    lemma_le32_read(b.len() as u32, s, p);
    assert(s.subrange(p + 4, p + 4 + b.len()) =~= b);
    lemma_text_roundtrip(m);
}

proof fn lemma_server_id_read(t: u8, connection_id: u64, body: Seq<u8>, prefix: Seq<u8>, suffix: Seq<u8>)
    ensures
        ({
            let s = prefix + (seq![t] + le64(connection_id) + body) + suffix;
            let p = prefix.len() as int;
            &&& s[p] == t
            &&& p + 9 <= s.len()
            &&& u64_at(s, p + 1) == connection_id
            &&& s == (prefix + seq![t] + le64(connection_id)) + body + suffix
        }),
{
    let e = seq![t] + le64(connection_id) + body;
    let s = prefix + e + suffix;
    let p = prefix.len() as int;
    assert(s[p] == e[0]);
    assert(s.subrange(p + 1, p + 9) =~= le64(connection_id));
    lemma_le64_read(connection_id, s, p + 1);
    assert(s =~= (prefix + seq![t] + le64(connection_id)) + body + suffix);
}

proof fn lemma_server_challenge_roundtrip(connection_id: u64, prefix: Seq<u8>, suffix: Seq<u8>)
    ensures
        ({
            let it = ServerItem::Challenge { connection_id };
            spec_parse_server_item(prefix + spec_encode_server_item(it) + suffix, prefix.len() as int)
                == Ok::<(ServerItem, int), ProtocolError>((it, prefix.len() as int + 9))
        }),
{
    reveal(spec_parse_server_item);
    lemma_server_id_read(RESP_CHALLENGE, connection_id, seq![], prefix, suffix);
    assert(spec_encode_server_item(ServerItem::Challenge { connection_id }) =~= seq![RESP_CHALLENGE]
        + le64(connection_id) + seq![]);
}

#[verifier::spinoff_prover]
#[verifier::rlimit(30)]
proof fn lemma_server_data_roundtrip(connection_id: u64, data: Seq<u8>, compressed: bool, prefix: Seq<u8>, suffix: Seq<u8>)
    requires
        data.len() <= u32::MAX,
        wire_data_lossless(data, compressed),
    ensures
        ({
            let it = ServerItem::Data { connection_id, data, compressed };
            spec_parse_server_item(prefix + spec_encode_server_item(it) + suffix, prefix.len() as int)
                == Ok::<(ServerItem, int), ProtocolError>(
                (normalize_server_item(it), prefix.len() + spec_encode_server_item(it).len() as int),
            )
        }),
{
    reveal(spec_parse_server_item);
    let it = ServerItem::Data { connection_id, data, compressed };
    let body = spec_data_piece(data, compressed);
    let p = prefix.len() as int;
    lemma_server_id_read(RESP_DATA, connection_id, body, prefix, suffix);
    let head = prefix + seq![RESP_DATA] + le64(connection_id);
    let s = head + body + suffix;
    assert(spec_encode_server_item(it) == seq![RESP_DATA] + le64(connection_id) + body);
    assert(head.len() == p + 9);
    lemma_data_piece_roundtrip(data, compressed, head, suffix);
    assert(spec_decode_data_piece(s, p + 9) == Ok::<(Seq<u8>, bool, int), ProtocolError>(
        (data, spec_wire_data(data, compressed).0, p + 9 + body.len()),
    ));
}

#[verifier::spinoff_prover]
#[verifier::rlimit(30)]
proof fn lemma_server_close_roundtrip(connection_id: u64, message: Seq<char>, prefix: Seq<u8>, suffix: Seq<u8>)
    requires
        text_bytes(message).len() <= u32::MAX,
    ensures
        ({
            let it = ServerItem::Close { connection_id, message };
            spec_parse_server_item(prefix + spec_encode_server_item(it) + suffix, prefix.len() as int)
                == Ok::<(ServerItem, int), ProtocolError>(
                (it, prefix.len() + spec_encode_server_item(it).len() as int),
            )
        }),
{
    reveal(spec_parse_server_item);
    let body = spec_text_field(message);
    lemma_server_id_read(RESP_CLOSE, connection_id, body, prefix, suffix);
    let head = prefix + seq![RESP_CLOSE] + le64(connection_id);
    lemma_text_field_roundtrip(message, head, suffix);
}

#[verifier::spinoff_prover]
#[verifier::rlimit(30)]
proof fn lemma_server_error_roundtrip(connection_id: u64, error_code: ErrorCode, message: Seq<char>, prefix: Seq<u8>, suffix: Seq<u8>)
    requires
        text_bytes(message).len() <= u32::MAX,
    ensures
        ({
            let it = ServerItem::Error { connection_id, error_code, message };
            spec_parse_server_item(prefix + spec_encode_server_item(it) + suffix, prefix.len() as int)
                == Ok::<(ServerItem, int), ProtocolError>(
                (it, prefix.len() + spec_encode_server_item(it).len() as int),
            )
        }),
{
    reveal(spec_parse_server_item);
    let p = prefix.len() as int;
    let c = spec_error_code_byte(error_code);
    let body = seq![c] + spec_text_field(message);
    lemma_server_id_read(RESP_ERROR, connection_id, body, prefix, suffix);
    let head = prefix + seq![RESP_ERROR] + le64(connection_id);
    let s = head + body + suffix;
    assert(s[p + 9] == c);
    lemma_text_field_roundtrip(message, head + seq![c], suffix);
    assert((head + seq![c]) + spec_text_field(message) + suffix =~= s);
    assert(spec_encode_server_item(ServerItem::Error { connection_id, error_code, message })
        =~= seq![RESP_ERROR] + le64(connection_id) + body);
    assert(spec_parse_text_field(s, p + 10) == Ok::<(Seq<char>, int), ProtocolError>(
        (message, p + 10 + spec_text_field(message).len()),
    ));
    assert(p + 10 <= s.len());
    assert(spec_parse_error_body(s, p + 9, connection_id) == Ok::<(ServerItem, int), ProtocolError>(
        (ServerItem::Error { connection_id, error_code, message }, p + 10 + spec_text_field(message).len()),
    ));
}

proof fn lemma_server_item_roundtrip(it: ServerItem, prefix: Seq<u8>, suffix: Seq<u8>)
    requires
        server_item_fits(it),
        server_item_lossless(it),
    ensures
        spec_parse_server_item(prefix + spec_encode_server_item(it) + suffix, prefix.len() as int)
            == Ok::<(ServerItem, int), ProtocolError>(
            (normalize_server_item(it), prefix.len() + spec_encode_server_item(it).len() as int),
        ),
{
    match it {
        ServerItem::Challenge { connection_id } => {
            lemma_server_challenge_roundtrip(connection_id, prefix, suffix);
        },
        ServerItem::Data { connection_id, data, compressed } => {
            lemma_server_data_roundtrip(connection_id, data, compressed, prefix, suffix);
        },
        ServerItem::Close { connection_id, message } => {
            lemma_server_close_roundtrip(connection_id, message, prefix, suffix);
        },
        ServerItem::Error { connection_id, error_code, message } => {
            lemma_server_error_roundtrip(connection_id, error_code, message, prefix, suffix);
        },
    }
}

#[verifier::spinoff_prover]
#[verifier::rlimit(30)]
proof fn lemma_server_items_roundtrip(items: Seq<ServerItem>, prefix: Seq<u8>, suffix: Seq<u8>)
    requires
        forall|i: int| 0 <= i < items.len() ==> server_item_fits(#[trigger] items[i]),
        forall|i: int| 0 <= i < items.len() ==> server_item_lossless(#[trigger] items[i]),
    ensures
        ({
            let e = spec_serialize_server(items);
            let s = prefix + e + suffix;
            spec_parse_server_items(s, prefix.len() as int) == match spec_parse_server_items(
                s,
                (prefix.len() + e.len()) as int,
            ) {
                Ok(rest) => Ok(items.map_values(|it: ServerItem| normalize_server_item(it)) + rest),
                Err(err) => Err(err),
            }
        }),
    decreases items.len(),
{
    let e = spec_serialize_server(items);
    let s = prefix + e + suffix;
    if items.len() == 0 {
        assert(items.map_values(|it: ServerItem| normalize_server_item(it)) =~= seq![]);
        match spec_parse_server_items(s, prefix.len() as int) {
            Ok(rest) => {
                assert(seq![] + rest =~= rest);
            },
            Err(_) => {},
        }
    } else {
        let e0 = spec_encode_server_item(items[0]);
        let rest = items.drop_first();
        let er = spec_serialize_server(rest);
        assert(server_item_fits(items[0]) && server_item_lossless(items[0]));
        assert forall|i: int| 0 <= i < rest.len() implies server_item_fits(#[trigger] rest[i])
            && server_item_lossless(rest[i]) by {
            assert(rest[i] == items[i + 1]);
        }
        lemma_server_item_roundtrip(items[0], prefix, er + suffix);
        assert(s =~= prefix + e0 + (er + suffix));
        lemma_server_items_roundtrip(rest, prefix + e0, suffix);
        assert((prefix + e0) + er + suffix =~= s);
        assert(e0.len() > 0);
        let norm = items.map_values(|it: ServerItem| normalize_server_item(it));
        let norm_rest = rest.map_values(|it: ServerItem| normalize_server_item(it));
        assert(norm =~= seq![normalize_server_item(items[0])] + norm_rest);
        match spec_parse_server_items(s, (prefix.len() + e.len()) as int) {
            Ok(tail) => {
                assert(seq![normalize_server_item(items[0])] + (norm_rest + tail) =~= norm + tail);
            },
            Err(_) => {},
        }
    }
}

/// Deserializing the serialization of a response whose lengths fit the `u32`
/// length fields gives the response back, with each data item flagged
/// compressed exactly when compression was applied.
pub proof fn lemma_server_roundtrip(items: Seq<ServerItem>)
    requires
        forall|i: int| 0 <= i < items.len() ==> server_item_fits(#[trigger] items[i]),
        forall|i: int| 0 <= i < items.len() ==> server_item_lossless(#[trigger] items[i]),
    ensures
        spec_deserialize_server(spec_serialize_server(items)) == Ok::<Seq<ServerItem>, ProtocolError>(
            items.map_values(|it: ServerItem| normalize_server_item(it)),
        ),
{
    lemma_server_items_roundtrip(items, seq![], seq![]);
    assert(seq![] + spec_serialize_server(items) + seq![] =~= spec_serialize_server(items));
    assert(items.map_values(|it: ServerItem| normalize_server_item(it)) + seq![] =~= items.map_values(
        |it: ServerItem| normalize_server_item(it),
    ));
}

/// Whether `b` is the type byte of a server item.
pub open spec fn is_server_item_type(b: u8) -> bool {
    b == RESP_CHALLENGE || b == RESP_DATA || b == RESP_CLOSE || b == RESP_ERROR
}

/// A serialized response followed by a byte that is no item type, and any
/// bytes after it, is refused with `InvalidMessageType` of that byte: the
/// items before it are not returned.
pub proof fn lemma_server_bad_type_after(items: Seq<ServerItem>, b: u8, rest: Seq<u8>)
    requires
        forall|i: int| 0 <= i < items.len() ==> server_item_fits(#[trigger] items[i]),
        forall|i: int| 0 <= i < items.len() ==> server_item_lossless(#[trigger] items[i]),
        !is_server_item_type(b),
    ensures
        spec_deserialize_server(spec_serialize_server(items) + seq![b] + rest) == Err::<
            Seq<ServerItem>,
            ProtocolError,
        >(ProtocolError::InvalidMessageType(b)),
{
    let e = spec_serialize_server(items);
    let s = e + seq![b] + rest;
    lemma_server_items_roundtrip(items, seq![], seq![b] + rest);
    assert(seq![] + e + (seq![b] + rest) =~= s);
    let p = e.len() as int;
    assert(s[p] == b);
    reveal(spec_parse_server_item);
    assert(spec_parse_server_item(s, p) == Err::<(ServerItem, int), ProtocolError>(
        ProtocolError::InvalidMessageType(b),
    ));
    assert(spec_parse_server_items(s, p) == Err::<Seq<ServerItem>, ProtocolError>(
        ProtocolError::InvalidMessageType(b),
    ));
}

fn push_text_field(buf: &mut Vec<u8>, message: &String)
    ensures
        final(buf)@ == old(buf)@ + spec_text_field(message@),
{
    let b = string_bytes(message);
    push_u32_le(buf, b.len() as u32);
    buf.extend_from_slice(b);
    assert(buf@ =~= old(buf)@ + spec_text_field(message@));
}

fn encode_server_item(it: &ServerResponseType, buf: &mut Vec<u8>)
    ensures
        final(buf)@ == old(buf)@ + spec_encode_server_item(it@),
        server_item_lossless(it@),
{
    match it {
        ServerResponseType::Challenge { connection_id } => {
            buf.push(RESP_CHALLENGE);
            push_u64_le(buf, *connection_id);
        },
        ServerResponseType::Data { connection_id, data, compressed } => {
            buf.push(RESP_DATA);
            push_u64_le(buf, *connection_id);
            push_data_piece(buf, data, *compressed);
        },
        ServerResponseType::Close { connection_id, message } => {
            buf.push(RESP_CLOSE);
            push_u64_le(buf, *connection_id);
            push_text_field(buf, message);
        },
        ServerResponseType::Error { connection_id, error_code, message } => {
            buf.push(RESP_ERROR);
            push_u64_le(buf, *connection_id);
            buf.push(error_code.to_u8());
            push_text_field(buf, message);
        },
    }
    assert(buf@ =~= old(buf)@ + spec_encode_server_item(it@));
}

fn read_text_field(s: &[u8], pos: usize) -> (r: Result<(String, usize), ProtocolError>)
    ensures
        match spec_parse_text_field(s@, pos as int) {
            Ok((m, end)) => r matches Ok((msg, e)) && msg@ == m && e == end,
            Err(err) => r == Err::<(String, usize), _>(err),
        },
        r matches Ok((_, e)) ==> pos + 4 <= e <= s@.len(),
{
    reveal(spec_parse_text_field);
    if pos > s.len() || s.len() - pos < 4 {
        return Err(ProtocolError::Io);
    }
    let n = read_u32_le(s, pos) as usize;
    if s.len() - pos - 4 < n {
        return Err(ProtocolError::Io);
    }
    let b = vstd::slice::slice_to_vec(vstd::slice::slice_subrange(s, pos + 4, pos + 4 + n));
    match string_from_utf8(b) {
        Some(m) => Ok((m, pos + 4 + n)),
        None => Err(ProtocolError::InvalidData(DataFault::InvalidUtf8)),
    }
}

/// Decodes the server item at position `pos < s.len()`.
fn parse_server_item(s: &[u8], pos: usize) -> (r: Result<(ServerResponseType, usize), ProtocolError>)
    requires
        pos < s@.len(),
    ensures
        match spec_parse_server_item(s@, pos as int) {
            Ok((it, end)) => r matches Ok((item, e)) && item@ == it && e == end && pos < e <= s@.len(),
            Err(err) => r == Err::<(ServerResponseType, usize), _>(err),
        },
{
    reveal(spec_parse_server_item);
    let t = s[pos];
    if !(t == RESP_CHALLENGE || t == RESP_DATA || t == RESP_CLOSE || t == RESP_ERROR) {
        return Err(ProtocolError::InvalidMessageType(t));
    }
    if s.len() - pos < 9 {
        return Err(ProtocolError::Io);
    }
    let connection_id = read_u64_le(s, pos + 1);
    if t == RESP_CHALLENGE {
        Ok((ServerResponseType::Challenge { connection_id }, pos + 9))
    } else if t == RESP_DATA {
        let (data, compressed, e) = read_data_piece(s, pos + 9)?;
        Ok((ServerResponseType::Data { connection_id, data, compressed }, e))
    } else if t == RESP_CLOSE {
        let (message, e) = read_text_field(s, pos + 9)?;
        Ok((ServerResponseType::Close { connection_id, message }, e))
    } else {
        if s.len() - pos < 10 {
            return Err(ProtocolError::Io);
        }
        let error_code = ErrorCode::from_u8(s[pos + 9]);
        let (message, e) = read_text_field(s, pos + 10)?;
        Ok((ServerResponseType::Error { connection_id, error_code, message }, e))
    }
}

impl ServerResponse {
    /// Serialize the server response (before encryption). It never fails;
    /// what it writes deserializes back to the response when the lengths fit
    /// the `u32` length fields.
    #[verifier::spinoff_prover]
    #[verifier::rlimit(30)]
    pub fn serialize(&self) -> (r: Result<Vec<u8>, ProtocolError>)
        ensures
            r matches Ok(v) && v@ == spec_serialize_server(self@),
            r matches Ok(v) ==> ((forall|i: int|
                0 <= i < self@.len() ==> server_item_fits(#[trigger] self@[i]))
                ==> spec_deserialize_server(v@) == Ok::<Seq<ServerItem>, ProtocolError>(
                self@.map_values(|it: ServerItem| normalize_server_item(it)),
            )),
    {
        let mut buf: Vec<u8> = Vec::new();
        let ghost items = self@;
        let n = self.responses.len();
        let mut i: usize = 0;
        assert(items.skip(0) =~= items);
        assert(buf@ =~= seq![]);
        while i < n
            invariant
                n == self.responses@.len(),
                items == self@,
                items.len() == n,
                0 <= i <= n,
                spec_serialize_server(items) == buf@ + spec_serialize_server(items.skip(i as int)),
                forall|j: int| 0 <= j < i ==> server_item_lossless(#[trigger] items[j]),
            decreases n - i,
        {
            let it = &self.responses[i];
            assert(it@ == items[i as int]);
            assert(items.skip(i as int)[0] == items[i as int]);
            assert(items.skip(i as int).drop_first() =~= items.skip(i + 1));
            let ghost before = buf@;
            encode_server_item(it, &mut buf);
            assert(before + (spec_encode_server_item(items[i as int]) + spec_serialize_server(
                items.skip(i + 1),
            )) =~= buf@ + spec_serialize_server(items.skip(i + 1)));
            i = i + 1;
        }
        proof {
            assert(items.skip(n as int) =~= Seq::<ServerItem>::empty());
            assert(buf@ + seq![] =~= buf@);
            if forall|i: int| 0 <= i < self@.len() ==> server_item_fits(#[trigger] self@[i]) {
                lemma_server_roundtrip(self@);
            }
        }
        Ok(buf)
    }

    /// Deserialize a server response (after decryption).
    #[verifier::spinoff_prover]
    #[verifier::rlimit(30)]
    pub fn deserialize(data: &[u8]) -> (r: Result<ServerResponse, ProtocolError>)
        ensures
            match spec_deserialize_server(data@) {
                Ok(items) => r matches Ok(resp) && resp@ == items,
                Err(e) => r == Err::<ServerResponse, _>(e),
            },
    {
        let mut responses: Vec<ServerResponseType> = Vec::new();
        let mut pos: usize = 0;
        let ghost s = data@;
        assert(responses@.map_values(|m: ServerResponseType| m@) + spec_parse_server_items(s, 0)->Ok_0
            =~= spec_parse_server_items(s, 0)->Ok_0);
        while pos < data.len()
            invariant
                s == data@,
                0 <= pos <= s.len(),
                spec_parse_server_items(s, 0) == match spec_parse_server_items(s, pos as int) {
                    Ok(rest) => Ok(responses@.map_values(|m: ServerResponseType| m@) + rest),
                    Err(e) => Err(e),
                },
            decreases s.len() - pos,
        {
            let (item, next) = parse_server_item(data, pos)?;
            let ghost done = responses@.map_values(|m: ServerResponseType| m@);
            proof {
                assert(spec_parse_server_items(s, pos as int) == match spec_parse_server_items(s, next as int) {
                    Ok(rest) => Ok(seq![item@] + rest),
                    Err(e) => Err::<Seq<ServerItem>, ProtocolError>(e),
                });
                match spec_parse_server_items(s, next as int) {
                    Ok(rest) => {
                        assert(done + (seq![item@] + rest) =~= done.push(item@) + rest);
                    },
                    Err(_) => {},
                }
            }
            responses.push(item);
            assert(responses@.map_values(|m: ServerResponseType| m@) =~= done.push(item@));
            pos = next;
        }
        proof {
            assert(responses@.map_values(|m: ServerResponseType| m@) + seq![] =~= responses@.map_values(
                |m: ServerResponseType| m@,
            ));
        }
        Ok(ServerResponse { responses })
    }
}

} // verus!
