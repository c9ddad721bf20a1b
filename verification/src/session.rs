//! One exchange between client and server: sealing and opening requests and
//! responses, and what the server does with each item of a request.
use vstd::prelude::*;
use crate::address::SocksAddress;
use crate::crypto::{
    decrypt_payload, ed25519_key_decodes, encrypt_payload, encryptable, keys_agree,
    spec_decrypt_payload,
};
use crate::connections::{ConnectionTable, OpenConnections};
use crate::error::ProtocolError;
use crate::nonce::NonceValidator;
use crate::message::{
    client_item_fits, normalize_client, normalize_server_item, server_item_fits,
    spec_deserialize_client, spec_deserialize_server, spec_serialize_client,
    spec_serialize_server, ClientMessage, ClientMessageType, ClientMessageView, ErrorCode,
    ServerItem, ServerResponse, ServerResponseType,
};
use crate::server::{
    spec_unverified_connection_id, spec_verified_connection_id, unverified_connection_id,
    verified_connection_id,
};

verus! {

/// Opening a request: decrypt with the server's secret key, then deserialize.
pub open spec fn spec_open_request(key: Seq<u8>, data: Seq<u8>) -> Result<ClientMessageView, ProtocolError> {
    match spec_decrypt_payload(key, data) {
        Ok(p) => spec_deserialize_client(p),
        Err(e) => Err(e),
    }
}

/// Opening a response: decrypt with the client's secret key, then deserialize.
pub open spec fn spec_open_response(key: Seq<u8>, data: Seq<u8>) -> Result<Seq<ServerItem>, ProtocolError> {
    match spec_decrypt_payload(key, data) {
        Ok(p) => spec_deserialize_server(p),
        Err(e) => Err(e),
    }
}

/// The data lengths of a message fit the `u32` length fields.
pub open spec fn client_message_fits(m: ClientMessageView) -> bool {
    forall|i: int| 0 <= i < m.messages.len() ==> client_item_fits(#[trigger] m.messages[i])
}

/// The lengths of a response fit the `u32` length fields.
pub open spec fn server_response_fits(items: Seq<ServerItem>) -> bool {
    forall|i: int| 0 <= i < items.len() ==> server_item_fits(#[trigger] items[i])
}

/// Serialize and encrypt a client message for the server whose public key is
/// `server_public_key`. Fails when the message cannot be serialized, when the
/// key is no Ed25519 public key, or when the message is too long to encrypt;
/// what it returns opens, under every secret key that agrees with the
/// server's public key, to the message (data items flagged compressed
/// exactly when compression was applied).
pub fn seal_request(server_public_key: &[u8; 32], message: &ClientMessage) -> (r: Result<Vec<u8>, ProtocolError>)
    ensures
        r is Ok <==> (spec_serialize_client(message@) is Ok && ed25519_key_decodes(server_public_key@)
            && encryptable(spec_serialize_client(message@)->Ok_0)),
        spec_serialize_client(message@) is Err ==> r == Err::<Vec<u8>, _>(
            spec_serialize_client(message@)->Err_0,
        ),
        spec_serialize_client(message@) is Ok && !ed25519_key_decodes(server_public_key@) ==> r
            == Err::<Vec<u8>, _>(ProtocolError::InvalidPublicKey),
        spec_serialize_client(message@) is Ok && ed25519_key_decodes(server_public_key@) && r is Err
            ==> r == Err::<Vec<u8>, _>(ProtocolError::EncryptionError),
        r matches Ok(v) ==> (client_message_fits(message@) ==> forall|secret: [u8; 32]|
            #[trigger] keys_agree(secret@, server_public_key@) ==> spec_open_request(secret@, v@)
                == Ok::<ClientMessageView, ProtocolError>(normalize_client(message@))),
{
    let serialized = message.serialize()?;
    encrypt_payload(server_public_key, serialized.as_slice())
}

/// Decrypt a request with the server's secret key and deserialize it.
pub fn open_request(server_private_key: &[u8; 32], encrypted: &[u8]) -> (r: Result<ClientMessage, ProtocolError>)
    ensures
        match spec_open_request(server_private_key@, encrypted@) {
            Ok(m) => r matches Ok(msg) && msg@ == m,
            Err(e) => r == Err::<ClientMessage, _>(e),
        },
{
    let decrypted = decrypt_payload(server_private_key, encrypted)?;
    ClientMessage::deserialize(decrypted.as_slice())
}

/// Serialize and encrypt a response for the client whose public key is
/// `client_public_key`. Fails when the key is no Ed25519 public key or the
/// response is too long to encrypt; what it returns opens, under every
/// secret key that agrees with the client's public key, to the response.
pub fn seal_response(client_public_key: &[u8; 32], response: &ServerResponse) -> (r: Result<Vec<u8>, ProtocolError>)
    ensures
        r is Ok <==> ed25519_key_decodes(client_public_key@) && encryptable(
            spec_serialize_server(response@),
        ),
        !ed25519_key_decodes(client_public_key@) ==> r == Err::<Vec<u8>, _>(
            ProtocolError::InvalidPublicKey,
        ),
        ed25519_key_decodes(client_public_key@) && r is Err ==> r == Err::<Vec<u8>, _>(
            ProtocolError::EncryptionError,
        ),
        r matches Ok(v) ==> (server_response_fits(response@) ==> forall|secret: [u8; 32]|
            #[trigger] keys_agree(secret@, client_public_key@) ==> spec_open_response(secret@, v@)
                == Ok::<Seq<ServerItem>, ProtocolError>(
                response@.map_values(|it: ServerItem| normalize_server_item(it)),
            )),
{
    let serialized = response.serialize()?;
    encrypt_payload(client_public_key, serialized.as_slice())
}

/// Decrypt a response with the client's secret key and deserialize it.
pub fn open_response(client_private_key: &[u8; 32], encrypted: &[u8]) -> (r: Result<ServerResponse, ProtocolError>)
    ensures
        match spec_open_response(client_private_key@, encrypted@) {
            Ok(items) => r matches Ok(resp) && resp@ == items,
            Err(e) => r == Err::<ServerResponse, _>(e),
        },
{
    let decrypted = decrypt_payload(client_private_key, encrypted)?;
    ServerResponse::deserialize(decrypted.as_slice())
}

/// Check a request's nonce against the client's window. An accepted nonce
/// is recorded and `None` returned; a refused one changes nothing, and the
/// answer is a response with one error for connection 0, `InvalidNonce`,
/// carrying `refusal_text`.
pub fn admit_nonce(validator: &mut NonceValidator, nonce: u64, refusal_text: String) -> (r: Option<ServerResponse>)
    ensures
        final(validator)@ == old(validator)@.after(nonce),
        old(validator)@.accepts(nonce) <==> r is None,
        r matches Some(resp) ==> resp@ == seq![
            ServerItem::Error {
                connection_id: 0,
                error_code: ErrorCode::InvalidNonce,
                message: refusal_text@,
            },
        ],
{
    if validator.check(nonce) {
        None
    } else {
        let mut responses: Vec<ServerResponseType> = Vec::new();
        responses.push(
            ServerResponseType::Error { connection_id: 0, error_code: ErrorCode::InvalidNonce, message: refusal_text },
        );
        let resp = ServerResponse { responses };
        assert(resp@ =~= seq![
            ServerItem::Error {
                connection_id: 0,
                error_code: ErrorCode::InvalidNonce,
                message: refusal_text@,
            },
        ]);
        Some(resp)
    }
}

/// How reading from a target ended.
pub enum ReadEnd {
    /// The connection is still open.
    StillOpen,
    /// The target closed the connection.
    Closed,
    /// Reading failed; the message says why.
    Failed { message: String },
}

/// The responses for what was read from the target of a connection: the
/// bytes read, if any, as data to be compressed, then a close when the
/// target closed (empty message) or reading failed (its message). The
/// boolean says whether the connection is over and is to be forgotten.
pub fn read_responses(connection_id: u64, data: Vec<u8>, end: ReadEnd) -> (r: (Vec<ServerResponseType>, bool))
    ensures
        r.0@.map_values(|x: ServerResponseType| x@) == (if data@.len() > 0 {
            seq![ServerItem::Data { connection_id, data: data@, compressed: true }]
        } else {
            Seq::<ServerItem>::empty()
        }) + match end {
            ReadEnd::StillOpen => Seq::<ServerItem>::empty(),
            ReadEnd::Closed => seq![ServerItem::Close { connection_id, message: Seq::<char>::empty() }],
            ReadEnd::Failed { message } => seq![ServerItem::Close { connection_id, message: message@ }],
        },
        r.1 == !(end is StillOpen),
{
    let ghost d = data@;
    let mut out: Vec<ServerResponseType> = Vec::new();
    if data.len() > 0 {
        out.push(ServerResponseType::Data { connection_id, data, compressed: true });
    }
    let ghost first = out@.map_values(|x: ServerResponseType| x@);
    assert(first =~= (if d.len() > 0 {
        seq![ServerItem::Data { connection_id, data: d, compressed: true }]
    } else {
        Seq::<ServerItem>::empty()
    }));
    let over = match end {
        ReadEnd::StillOpen => {
            assert(first + Seq::<ServerItem>::empty() =~= first);
            false
        },
        ReadEnd::Closed => {
            let message = String::new();
            out.push(ServerResponseType::Close { connection_id, message });
            assert(out@.map_values(|x: ServerResponseType| x@) =~= first + seq![
                ServerItem::Close { connection_id, message: Seq::<char>::empty() },
            ]);
            true
        },
        ReadEnd::Failed { message } => {
            let ghost m = message@;
            out.push(ServerResponseType::Close { connection_id, message });
            assert(out@.map_values(|x: ServerResponseType| x@) =~= first + seq![
                ServerItem::Close { connection_id, message: m },
            ]);
            true
        },
    };
    (out, over)
}

/// What the server does with one item of a request.
pub enum MessageAction {
    /// Refuse to start a connection: the client has as many as allowed.
    RefuseTooManyConnections,
    /// Check the target, then connect to it.
    Start { host: SocksAddress, port: u16 },
    /// Write the data to the open connection with this id, then read its
    /// answer.
    Forward { connection_id: u64, data: Vec<u8> },
    /// Close the connection with this id, which was open and is now
    /// forgotten.
    Close { connection_id: u64 },
    /// Read what the client's connections have pending.
    Poll,
    /// Ignore the item: its signed connection id is malformed, its
    /// signature does not verify, or its connection is not open.
    Skip,
}

/// What planning an item does: a start is refused when the table is full;
/// data is forwarded, and a close closes, when the item's connection id is
/// `id` and that connection is open, and are skipped otherwise. Only a close
/// changes the table: it forgets the connection.
pub open spec fn spec_planned(
    before: OpenConnections,
    after: OpenConnections,
    msg: ClientMessageType,
    id: Option<u64>,
    r: MessageAction,
) -> bool {
    &&& after.limit == before.limit
    &&& match msg {
        ClientMessageType::StartConnection { host, port } => after == before && if before.ids.len()
            >= before.limit {
            r is RefuseTooManyConnections
        } else {
            r matches MessageAction::Start { host: h, port: p } && h == host && p == port
        },
        ClientMessageType::Data { data, .. } => after == before && match id {
            Some(i) => if before.ids.contains(i) {
                r matches MessageAction::Forward { connection_id, data: d } && connection_id == i
                    && d@ == data@
            } else {
                r is Skip
            },
            None => r is Skip,
        },
        ClientMessageType::Close { .. } => match id {
            Some(i) => after.ids == before.ids.remove(i) && if before.ids.contains(i) {
                r matches MessageAction::Close { connection_id } && connection_id == i
            } else {
                r is Skip
            },
            None => after == before && r is Skip,
        },
        ClientMessageType::Poll => after == before && r is Poll,
    }
}

/// The connection id that a data or close item carries, when its signed
/// connection id verifies under the client's key.
pub open spec fn signed_item_id(client_public_key: Seq<u8>, msg: ClientMessageType) -> Option<u64> {
    match msg {
        ClientMessageType::Data { connection_id_signed, .. } => spec_verified_connection_id(
            client_public_key,
            connection_id_signed@,
        ),
        ClientMessageType::Close { connection_id_signed } => spec_verified_connection_id(
            client_public_key,
            connection_id_signed@,
        ),
        _ => None,
    }
}

/// The connection id that a data or close item carries, read without
/// checking its signature.
pub open spec fn unsigned_item_id(msg: ClientMessageType) -> Option<u64> {
    match msg {
        ClientMessageType::Data { connection_id_signed, .. } => spec_unverified_connection_id(
            connection_id_signed@,
        ),
        ClientMessageType::Close { connection_id_signed } => spec_unverified_connection_id(
            connection_id_signed@,
        ),
        _ => None,
    }
}

fn plan_item(table: &mut ConnectionTable, msg: ClientMessageType, id: Option<u64>) -> (r: MessageAction)
    ensures
        spec_planned(old(table)@, final(table)@, msg, id, r),
{
    match msg {
        ClientMessageType::StartConnection { host, port } => {
            if !table.has_room() {
                MessageAction::RefuseTooManyConnections
            } else {
                MessageAction::Start { host, port }
            }
        },
        ClientMessageType::Data { data, .. } => {
            match id {
                Some(connection_id) => {
                    if table.contains(connection_id) {
                        MessageAction::Forward { connection_id, data }
                    } else {
                        MessageAction::Skip
                    }
                },
                None => MessageAction::Skip,
            }
        },
        ClientMessageType::Close { .. } => {
            match id {
                Some(connection_id) => {
                    if table.remove(connection_id) {
                        MessageAction::Close { connection_id }
                    } else {
                        MessageAction::Skip
                    }
                },
                None => MessageAction::Skip,
            }
        },
        ClientMessageType::Poll => MessageAction::Poll,
    }
}

/// The action for one item of a request from the client with the given key,
/// whose open connections are `table`; data and close items name their
/// connection by a signed connection id that must verify under the key.
pub fn plan_message(client_public_key: &[u8; 32], table: &mut ConnectionTable, msg: ClientMessageType) -> (r: MessageAction)
    ensures
        spec_planned(old(table)@, final(table)@, msg, signed_item_id(client_public_key@, msg), r),
{
    let id = match &msg {
        ClientMessageType::Data { connection_id_signed, .. } => verified_connection_id(
            client_public_key,
            connection_id_signed.as_slice(),
        ),
        ClientMessageType::Close { connection_id_signed } => verified_connection_id(
            client_public_key,
            connection_id_signed.as_slice(),
        ),
        _ => None,
    };
    plan_item(table, msg, id)
}

/// The action for one item in the plain protocol variant, where the
/// connection id of a data or close item is read without checking the
/// signature around it.
pub fn plan_message_unsigned(table: &mut ConnectionTable, msg: ClientMessageType) -> (r: MessageAction)
    ensures
        spec_planned(old(table)@, final(table)@, msg, unsigned_item_id(msg), r),
{
    let id = match &msg {
        ClientMessageType::Data { connection_id_signed, .. } => unverified_connection_id(
            connection_id_signed.as_slice(),
        ),
        ClientMessageType::Close { connection_id_signed } => unverified_connection_id(
            connection_id_signed.as_slice(),
        ),
        _ => None,
    };
    plan_item(table, msg, id)
}

} // verus!
