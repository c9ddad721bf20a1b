//! The relay function: the request it takes from the client, and the servers
//! it forwards to.
use vstd::prelude::*;
use crate::address::{
    lemma_address_roundtrip, spec_decode_address, spec_encode_address, AddressView,
    SocksAddress,
};
use crate::crypto::{
    derive_public_key, ed25519_public_key, ed25519_sign, ed25519_signature, ed25519_verify,
    ed25519_verify_bytes,
};
use crate::error::{DataFault, ProtocolError};
use crate::keys::{parse_key_hex, spec_parse_key_hex, KeyError};
use crate::wire::{le16, le32, lemma_le16_read, lemma_le32_read, push_u16_le, push_u32_le, read_u16_le, read_u32_le, u16_at, u32_at};

verus! {

/// A request to the relay: where to forward, whose it is (the client's
/// public key, for the relay's client whitelist, and the client's signature
/// over the server address, port and payload), and the encrypted payload.
pub struct LambdaRequest {
    pub server_addr: SocksAddress,
    /// The server address as it was encoded in the body.
    pub server_addr_encoded: Vec<u8>,
    pub server_port: u16,
    pub client_public_key: [u8; 32],
    pub client_signature: [u8; 64],
    pub encrypted_payload: Vec<u8>,
}

/// What a `LambdaRequest` denotes.
pub struct RequestView {
    pub server_addr: AddressView,
    pub server_addr_encoded: Seq<u8>,
    pub server_port: u16,
    pub client_public_key: Seq<u8>,
    pub client_signature: Seq<u8>,
    pub payload: Seq<u8>,
}

impl View for LambdaRequest {
    type V = RequestView;

    open spec fn view(&self) -> RequestView {
        RequestView {
            server_addr: self.server_addr@,
            server_addr_encoded: self.server_addr_encoded@,
            server_port: self.server_port,
            client_public_key: self.client_public_key@,
            client_signature: self.client_signature@,
            payload: self.encrypted_payload@,
        }
    }
}

/// Why a request body was refused.
#[derive(Debug, Clone, Copy, PartialEq, Eq, Structural)]
pub enum LambdaRequestError {
    /// The server address could not be decoded.
    ServerAddress(ProtocolError),
    /// The body ends before the server port.
    ServerPort,
    /// The body ends before the client public key.
    ClientKey,
    /// The body ends before the client signature.
    ClientSignature,
    /// The body ends before the payload length.
    PayloadLength,
    /// The body holds fewer payload bytes than announced.
    Payload { expected: usize },
}

/// The bytes the client's signature covers: the encoded server address, the
/// server port, the encrypted payload.
pub open spec fn request_signed_bytes(server_addr_encoded: Seq<u8>, port: u16, payload: Seq<u8>) -> Seq<u8> {
    server_addr_encoded + le16(port) + payload
}

/// The request body that the client with secret key `client_secret` sends:
/// server address, server port, the client's public key, its signature over
/// address, port and payload, payload length (`u32`, truncating as the cast
/// does), payload.
pub open spec fn spec_frame_request(host: Seq<char>, port: u16, client_secret: Seq<u8>, payload: Seq<u8>) -> Option<Seq<u8>> {
    match spec_encode_address(AddressView::Domain(host)) {
        Some(a) => Some(
            a + le16(port) + ed25519_public_key(client_secret) + ed25519_signature(
                client_secret,
                request_signed_bytes(a, port, payload),
            ) + le32(payload.len() as u32) + payload,
        ),
        None => None,
    }
}

/// Decoding a request body: address, port, client public key, client
/// signature, payload; bytes after the payload are ignored.
pub open spec fn spec_parse_request(s: Seq<u8>) -> Result<RequestView, LambdaRequestError> {
    match spec_decode_address(s, 0) {
        Err(e) => Err(LambdaRequestError::ServerAddress(e)),
        Ok((a, p)) => if p + 2 > s.len() {
            Err(LambdaRequestError::ServerPort)
        } else if p + 34 > s.len() {
            Err(LambdaRequestError::ClientKey)
        } else if p + 98 > s.len() {
            Err(LambdaRequestError::ClientSignature)
        } else if p + 102 > s.len() {
            Err(LambdaRequestError::PayloadLength)
        } else if p + 102 + u32_at(s, p + 98) > s.len() {
            Err(LambdaRequestError::Payload { expected: u32_at(s, p + 98) as usize })
        } else {
            Ok(
                RequestView {
                    server_addr: a,
                    server_addr_encoded: s.subrange(0, p),
                    server_port: u16_at(s, p),
                    client_public_key: s.subrange(p + 2, p + 34),
                    client_signature: s.subrange(p + 34, p + 98),
                    payload: s.subrange(p + 102, p + 102 + u32_at(s, p + 98)),
                },
            )
        },
    }
}

/// Whether the request's signature verifies, under the public key it
/// carries, on its server address, port and payload.
pub open spec fn spec_request_signed(r: RequestView) -> bool {
    ed25519_verify(
        r.client_public_key,
        request_signed_bytes(r.server_addr_encoded, r.server_port, r.payload),
        r.client_signature,
    )
}

/// Build the request body for the relay, signed with the client's secret
/// key. Fails only on a host name longer than 255 bytes; the body parses back
/// to the server, the client's public key and the payload, and its signature
/// verifies.
pub fn frame_lambda_request(
    server_host: &String,
    server_port: u16,
    client_private_key: &[u8; 32],
    encrypted: &[u8],
) -> (r: Result<Vec<u8>, ProtocolError>)
    ensures
        match spec_frame_request(server_host@, server_port, client_private_key@, encrypted@) {
            Some(b) => r matches Ok(v) && v@ == b,
            None => r == Err::<Vec<u8>, _>(ProtocolError::InvalidData(DataFault::DomainTooLong)),
        },
        r matches Ok(v) ==> (encrypted@.len() <= u32::MAX ==> (spec_parse_request(v@) matches Ok(req)
            && req.server_addr == AddressView::Domain(server_host@) && req.server_port == server_port
            && req.client_public_key == ed25519_public_key(client_private_key@) && req.payload
            == encrypted@ && spec_request_signed(req))),
{
    let mut body: Vec<u8> = Vec::new();
    let server_addr = SocksAddress::Domain(server_host.clone());
    server_addr.encode(&mut body)?;
    let ghost a = body@;
    push_u16_le(&mut body, server_port);
    let mut signed: Vec<u8> = Vec::new();
    signed.extend_from_slice(body.as_slice());
    signed.extend_from_slice(encrypted);
    assert(signed@ =~= request_signed_bytes(a, server_port, encrypted@));
    let public_key = derive_public_key(client_private_key);
    let signature = ed25519_sign(client_private_key, signed.as_slice());
    body.extend_from_slice(public_key.as_slice());
    body.extend_from_slice(signature.as_slice());
    push_u32_le(&mut body, encrypted.len() as u32);
    body.extend_from_slice(encrypted);
    proof {
        assert(body@ =~= a + le16(server_port) + public_key@ + signature@ + le32(
            encrypted@.len() as u32,
        ) + encrypted@);
        if encrypted@.len() <= u32::MAX {
            lemma_request_roundtrip(server_host@, server_port, public_key@, signature@, encrypted@);
        }
    }
    Ok(body)
}

proof fn lemma_request_roundtrip(
    host: Seq<char>,
    port: u16,
    client_key: Seq<u8>,
    signature: Seq<u8>,
    payload: Seq<u8>,
)
    requires
        spec_encode_address(AddressView::Domain(host)) is Some,
        client_key.len() == 32,
        signature.len() == 64,
        payload.len() <= u32::MAX,
    ensures
        ({
            let a = spec_encode_address(AddressView::Domain(host)).unwrap();
            spec_parse_request(a + le16(port) + client_key + signature + le32(payload.len() as u32) + payload)
                == Ok::<RequestView, LambdaRequestError>(
                RequestView {
                    server_addr: AddressView::Domain(host),
                    server_addr_encoded: a,
                    server_port: port,
                    client_public_key: client_key,
                    client_signature: signature,
                    payload,
                },
            )
        }),
{
    let d = AddressView::Domain(host);
    let a = spec_encode_address(d).unwrap();
    let s = a + le16(port) + client_key + signature + le32(payload.len() as u32) + payload;
    let rest = le16(port) + client_key + signature + le32(payload.len() as u32) + payload;
    lemma_address_roundtrip(d, seq![], rest);
    assert(seq![] + a + rest =~= s);
    let p = a.len() as int;
    assert(s.subrange(0, p) =~= a);
    assert(s.subrange(p, p + 2) =~= le16(port));
    lemma_le16_read(port, s, p);
    assert(s.subrange(p + 2, p + 34) =~= client_key);
    assert(s.subrange(p + 34, p + 98) =~= signature);
    assert(s.subrange(p + 98, p + 102) =~= le32(payload.len() as u32));
    lemma_le32_read(payload.len() as u32, s, p + 98);
    assert(s.subrange(p + 102, p + 102 + payload.len()) =~= payload);
}

/// The 32 bytes of `body` from `at`.
fn read_key(body: &[u8], at: usize) -> (r: [u8; 32])
    requires
        at + 32 <= body@.len(),
    ensures
        r@ == body@.subrange(at as int, at + 32),
{
    let mut out = [0u8; 32];
    let mut k: usize = 0;
    let n: usize = body.len();
    while k < 32
        invariant
            0 <= k <= 32,
            n == body@.len(),
            at + 32 <= body@.len(),
            forall|j: int| 0 <= j < k ==> out@[j] == body@[at + j],
        decreases 32 - k,
    {
        out[k] = body[at + k];
        k = k + 1;
    }
    assert(out@ =~= body@.subrange(at as int, at + 32));
    out
}

/// The 64 bytes of `body` from `at`.
fn read_signature(body: &[u8], at: usize) -> (r: [u8; 64])
    requires
        at + 64 <= body@.len(),
    ensures
        r@ == body@.subrange(at as int, at + 64),
{
    let mut out = [0u8; 64];
    let mut k: usize = 0;
    let n: usize = body.len();
    while k < 64
        invariant
            0 <= k <= 64,
            n == body@.len(),
            at + 64 <= body@.len(),
            forall|j: int| 0 <= j < k ==> out@[j] == body@[at + j],
        decreases 64 - k,
    {
        out[k] = body[at + k];
        k = k + 1;
    }
    assert(out@ =~= body@.subrange(at as int, at + 64));
    out
}

/// Parse a request body.
pub fn parse_lambda_request(body: &[u8]) -> (r: Result<LambdaRequest, LambdaRequestError>)
    ensures
        match spec_parse_request(body@) {
            Ok(v) => r matches Ok(req) && req@ == v,
            Err(e) => r == Err::<LambdaRequest, _>(e),
        },
{
    let (server_addr, p) = match SocksAddress::decode(body, 0) {
        Ok(x) => x,
        Err(e) => {
            return Err(LambdaRequestError::ServerAddress(e));
        },
    };
    if p > body.len() || body.len() - p < 2 {
        return Err(LambdaRequestError::ServerPort);
    }
    let server_port = read_u16_le(body, p);
    if body.len() - p < 34 {
        return Err(LambdaRequestError::ClientKey);
    }
    let client_public_key = read_key(body, p + 2);
    if body.len() - p < 98 {
        return Err(LambdaRequestError::ClientSignature);
    }
    let client_signature = read_signature(body, p + 34);
    if body.len() - p < 102 {
        return Err(LambdaRequestError::PayloadLength);
    }
    let payload_len = read_u32_le(body, p + 98) as usize;
    if body.len() - p - 102 < payload_len {
        return Err(LambdaRequestError::Payload { expected: payload_len });
    }
    let server_addr_encoded = vstd::slice::slice_to_vec(vstd::slice::slice_subrange(body, 0, p));
    let encrypted_payload = vstd::slice::slice_to_vec(
        vstd::slice::slice_subrange(body, p + 102, p + 102 + payload_len),
    );
    Ok(
        LambdaRequest {
            server_addr,
            server_addr_encoded,
            server_port,
            client_public_key,
            client_signature,
            encrypted_payload,
        },
    )
}

/// Whether some entry of the client whitelist, a hex text, is the 32-byte
/// key `client_public_key`.
pub open spec fn spec_client_whitelisted(entries: Seq<Seq<char>>, client_public_key: Seq<u8>) -> bool {
    exists|i: int|
        0 <= i < entries.len() && #[trigger] spec_parse_key_hex(entries[i]) == Ok::<Seq<u8>, KeyError>(
            client_public_key,
        )
}

fn same_key(a: &[u8; 32], b: &[u8; 32]) -> (r: bool)
    ensures
        r == (a@ == b@),
{
    let mut k: usize = 0;
    while k < 32
        invariant
            0 <= k <= 32,
            forall|j: int| 0 <= j < k ==> a@[j] == b@[j],
        decreases 32 - k,
    {
        if a[k] != b[k] {
            return false;
        }
        k = k + 1;
    }
    assert(a@ =~= b@);
    true
}

/// Whether the client with this public key is on the client whitelist
/// (entries that are no 32-byte hex key match no client).
pub fn is_client_whitelisted(entries: &Vec<String>, client_public_key: &[u8; 32]) -> (r: bool)
    ensures
        r == spec_client_whitelisted(entries@.map_values(|e: String| e@), client_public_key@),
        r <==> exists|i: int|
            0 <= i < entries@.len() && #[trigger] spec_parse_key_hex(entries@[i]@) == Ok::<
                Seq<u8>,
                KeyError,
            >(client_public_key@),
{
    let ghost w = entries@.map_values(|e: String| e@);
    let mut k: usize = 0;
    while k < entries.len()
        invariant
            0 <= k <= entries@.len(),
            w == entries@.map_values(|e: String| e@),
            forall|i: int|
                0 <= i < k ==> #[trigger] spec_parse_key_hex(w[i]) != Ok::<Seq<u8>, KeyError>(
                    client_public_key@,
                ),
        decreases entries@.len() - k,
    {
        assert(w[k as int] == entries@[k as int]@);
        match parse_key_hex(&entries[k]) {
            Ok(key) => {
                if same_key(&key, client_public_key) {
                    assert(key@ == client_public_key@);
                    return true;
                }
                assert(key@ != client_public_key@);
            },
            Err(_) => {},
        }
        k = k + 1;
    }
    proof {
        assert forall|i: int| 0 <= i < entries@.len() implies #[trigger] spec_parse_key_hex(entries@[i]@)
            != Ok::<Seq<u8>, KeyError>(client_public_key@) by {
            assert(w[i] == entries@[i]@);
        }
    }
    false
}

/// Why the relay refuses a client when its client whitelist is set.
#[derive(Debug, Clone, Copy, PartialEq, Eq, Structural)]
pub enum ClientRefusal {
    /// The public key the request carries is not on the whitelist.
    NotListed,
    /// The request's signature does not verify under the key it carries.
    BadSignature,
}

/// Admit a request under the client whitelist: `Ok` exactly when the public
/// key it carries is listed and its signature verifies under that key, so
/// only the holder of a listed secret key gets a request forwarded.
pub fn admit_client(entries: &Vec<String>, request: &LambdaRequest) -> (r: Result<(), ClientRefusal>)
    ensures
        !spec_client_whitelisted(entries@.map_values(|e: String| e@), request@.client_public_key) ==> r
            == Err::<(), _>(ClientRefusal::NotListed),
        spec_client_whitelisted(entries@.map_values(|e: String| e@), request@.client_public_key) ==> r
            == (if spec_request_signed(request@) {
            Ok::<(), ClientRefusal>(())
        } else {
            Err(ClientRefusal::BadSignature)
        }),
        r is Ok <==> spec_client_whitelisted(entries@.map_values(|e: String| e@), request@.client_public_key)
            && spec_request_signed(request@),
{
    if !is_client_whitelisted(entries, &request.client_public_key) {
        return Err(ClientRefusal::NotListed);
    }
    let mut signed: Vec<u8> = Vec::new();
    signed.extend_from_slice(request.server_addr_encoded.as_slice());
    push_u16_le(&mut signed, request.server_port);
    signed.extend_from_slice(request.encrypted_payload.as_slice());
    assert(signed@ =~= request_signed_bytes(
        request@.server_addr_encoded,
        request.server_port,
        request@.payload,
    ));
    if ed25519_verify_bytes(&request.client_public_key, signed.as_slice(), &request.client_signature) {
        Ok(())
    } else {
        Err(ClientRefusal::BadSignature)
    }
}

/// A server that the relay may forward to.
pub struct ServerWhitelistEntry {
    pub host: String,
    pub port: u16,
    pub public_key: String,
}

/// Whether some entry has this host (as text) and port.
pub open spec fn spec_whitelisted(entries: Seq<(Seq<char>, u16)>, host: Seq<char>, port: u16) -> bool {
    exists|i: int| 0 <= i < entries.len() && #[trigger] entries[i] == (host, port)
}

/// The host and port of each entry.
pub open spec fn whitelist_view(entries: Seq<ServerWhitelistEntry>) -> Seq<(Seq<char>, u16)> {
    entries.map_values(|e: ServerWhitelistEntry| (e.host@, e.port))
}

/// Whether the server at `host` (an IP address in text form or a domain
/// name) and `port` is on the whitelist.
pub fn is_server_whitelisted(entries: &Vec<ServerWhitelistEntry>, host: &String, port: u16) -> (r: bool)
    ensures
        r == spec_whitelisted(whitelist_view(entries@), host@, port),
        forall|i: int|
            0 <= i < entries@.len() && #[trigger] entries@[i].host@ == host@ && entries@[i].port == port
                ==> r,
        r ==> exists|i: int|
            0 <= i < entries@.len() && #[trigger] entries@[i].host@ == host@ && entries@[i].port == port,
{
    proof {
        assert forall|i: int| 0 <= i < entries@.len() implies #[trigger] whitelist_view(entries@)[i] == (
        entries@[i].host@, entries@[i].port) by {}
    }
    let ghost w = whitelist_view(entries@);
    let mut k: usize = 0;
    while k < entries.len()
        invariant
            0 <= k <= entries@.len(),
            w == whitelist_view(entries@),
            forall|i: int| 0 <= i < k ==> #[trigger] w[i] != (host@, port),
        decreases entries@.len() - k,
    {
        let e = &entries[k];
        assert(w[k as int] == (e.host@, e.port));
        if e.host == *host && e.port == port {
            return true;
        }
        k = k + 1;
    }
    proof {
        assert forall|i: int|
            0 <= i < entries@.len() && #[trigger] entries@[i].host@ == host@ implies entries@[i].port
            != port by {
            assert(w[i] == (entries@[i].host@, entries@[i].port));
        }
    }
    false
}

} // verus!
