//! Payload encryption (X25519 key agreement with the recipient's Ed25519
//! key, then ChaCha20-Poly1305) and connection id signatures (Ed25519).
use vstd::prelude::*;
use chacha20poly1305::aead::{Aead, KeyInit};
use chacha20poly1305::{ChaCha20Poly1305, Nonce};
use curve25519_dalek::montgomery::MontgomeryPoint;
use ed25519_dalek::{Signature, Signer, SigningKey, Verifier, VerifyingKey};
use rand::RngCore;
use crate::error::{DecryptFault, ProtocolError};
use crate::wire::{le16, le64, push_u16_le, push_u64_le};

verus! {

/// Length of an X25519 public key, which opens an encrypted payload.
pub const EPHEMERAL_KEY_LEN: usize = 32;

/// Length of the nonce that follows the ephemeral public key.
pub const NONCE_LEN: usize = 12;

/// Length of what precedes the ciphertext: ephemeral public key and nonce.
pub const HEADER_LEN: usize = 44;

/// Length of the authentication tag that ends the ciphertext.
pub const TAG_LEN: usize = 16;

/// Length of an Ed25519 signature.
pub const SIGNATURE_LEN: usize = 64;

// ---------------------------------------------------------------------------
// ChaCha20-Poly1305
// ---------------------------------------------------------------------------

/// The ciphertext (with its 16-byte tag) that ChaCha20-Poly1305 makes of
/// `plaintext` under `key` and `nonce`, with no associated data.
pub uninterp spec fn chacha20poly1305_seal(key: Seq<u8>, nonce: Seq<u8>, plaintext: Seq<u8>) -> Seq<u8>;

/// What ChaCha20-Poly1305 decryption of `ciphertext` under `key` and `nonce`
/// (no associated data) returns: the plaintext, or `None` when refused.
pub uninterp spec fn chacha20poly1305_open(key: Seq<u8>, nonce: Seq<u8>, ciphertext: Seq<u8>) -> Option<Seq<u8>>;

/// `Aead::encrypt` of `ChaCha20Poly1305`, with a 12-byte nonce. Per the
/// crate's source it fails exactly when the plaintext has at least
/// `u32::MAX` blocks of 64 bytes; otherwise the ciphertext is the
/// plaintext's length plus the 16-byte tag, and decrypting it under the same
/// key and nonce gives the plaintext back.
#[verifier::external_body]
fn aead_encrypt(key: &[u8; 32], nonce: &[u8], plaintext: &[u8]) -> (r: Option<Vec<u8>>)
    requires
        nonce@.len() == 12,
    ensures
        r is Some <==> plaintext@.len() / 64 < u32::MAX,
        r matches Some(c) ==> {
            &&& c@ == chacha20poly1305_seal(key@, nonce@, plaintext@)
            &&& c@.len() == plaintext@.len() + 16
            &&& chacha20poly1305_open(key@, nonce@, c@) == Some(plaintext@)
        },
{
    ChaCha20Poly1305::new(key.into()).encrypt(Nonce::from_slice(nonce), plaintext).ok()
}

/// `Aead::decrypt` of `ChaCha20Poly1305`, with a 12-byte nonce. Per the
/// crate's source a ciphertext shorter than the 16-byte tag is refused.
#[verifier::external_body]
fn aead_decrypt(key: &[u8; 32], nonce: &[u8], ciphertext: &[u8]) -> (r: Option<Vec<u8>>)
    requires
        nonce@.len() == 12,
    ensures
        match r {
            Some(p) => chacha20poly1305_open(key@, nonce@, ciphertext@) == Some(p@)
                && ciphertext@.len() >= 16,
            None => chacha20poly1305_open(key@, nonce@, ciphertext@) is None,
        },
{
    ChaCha20Poly1305::new(key.into()).decrypt(Nonce::from_slice(nonce), ciphertext).ok()
}

/// `len` bytes from `rand::rng()`; nothing is promised of their values.
#[verifier::external_body]
fn random_bytes(len: usize) -> (r: Vec<u8>)
    ensures
        r@.len() == len,
{
    let mut bytes = vec![0u8; len];
    rand::rng().fill_bytes(&mut bytes);
    bytes
}

// ---------------------------------------------------------------------------
// X25519 key agreement
// ---------------------------------------------------------------------------

/// The X25519 public key of `secret`: the base point times the clamped
/// secret.
pub uninterp spec fn x25519_public_key(secret: Seq<u8>) -> Seq<u8>;

/// The X25519 shared secret of `secret` with the point `public_key`: the
/// point times the clamped secret.
pub uninterp spec fn x25519_shared_secret(secret: Seq<u8>, public_key: Seq<u8>) -> Seq<u8>;

/// `MontgomeryPoint::mul_base_clamped(secret).to_bytes()`: the X25519 public
/// key of `secret`. Scalar multiplication commutes, so any secret `t` agrees
/// with `secret` on one shared secret: `t` times this key equals `secret`
/// times the public key of `t`.
#[verifier::external_body]
fn x25519_base_mul(secret: &[u8; 32]) -> (r: [u8; 32])
    ensures
        r@ == x25519_public_key(secret@),
        forall|t: [u8; 32]|
            #[trigger] x25519_shared_secret(t@, r@) == x25519_shared_secret(
                secret@,
                x25519_public_key(t@),
            ),
{
    MontgomeryPoint::mul_base_clamped(*secret).to_bytes()
}

/// `MontgomeryPoint(public_key).mul_clamped(secret).to_bytes()`: the X25519
/// shared secret of `secret` with `public_key`.
#[verifier::external_body]
fn x25519_mul(secret: &[u8; 32], public_key: &[u8; 32]) -> (r: [u8; 32])
    ensures
        r@ == x25519_shared_secret(secret@, public_key@),
{
    MontgomeryPoint(*public_key).mul_clamped(*secret).to_bytes()
}

/// The 32 bytes of a slice of that length, as an array.
fn array32(bytes: &[u8]) -> (r: [u8; 32])
    requires
        bytes@.len() == 32,
    ensures
        r@ == bytes@,
{
    let mut out = [0u8; 32];
    let mut k: usize = 0;
    while k < 32
        invariant
            0 <= k <= 32,
            bytes@.len() == 32,
            forall|j: int| 0 <= j < k ==> out@[j] == bytes@[j],
        decreases 32 - k,
    {
        out[k] = bytes[k];
        k = k + 1;
    }
    assert(out@ =~= bytes@);
    out
}

/// The 12 bytes of a slice of that length, as an array.
fn array12(bytes: &[u8]) -> (r: [u8; 12])
    requires
        bytes@.len() == 12,
    ensures
        r@ == bytes@,
{
    let mut out = [0u8; 12];
    let mut k: usize = 0;
    while k < 12
        invariant
            0 <= k <= 12,
            bytes@.len() == 12,
            forall|j: int| 0 <= j < k ==> out@[j] == bytes@[j],
        decreases 12 - k,
    {
        out[k] = bytes[k];
        k = k + 1;
    }
    assert(out@ =~= bytes@);
    out
}

// ---------------------------------------------------------------------------
// Payload encryption
// ---------------------------------------------------------------------------

/// Encryption succeeds exactly when the payload has fewer than `u32::MAX`
/// blocks of 64 bytes.
pub open spec fn encryptable(payload: Seq<u8>) -> bool {
    payload.len() / 64 < u32::MAX
}

/// Whether `secret` is the Ed25519 secret key that belongs to `public_key`
/// for key agreement: the Montgomery form of the public key is the X25519
/// public key of the secret's scalar.
pub open spec fn keys_agree(secret: Seq<u8>, public_key: Seq<u8>) -> bool {
    ed25519_to_montgomery(public_key) == x25519_public_key(ed25519_scalar_bytes(secret)@)
}

/// The payload key that the sender derives: its ephemeral secret times the
/// Montgomery form of the recipient's Ed25519 public key.
pub open spec fn sender_key(recipient_public_key: Seq<u8>, ephemeral_secret: Seq<u8>) -> Seq<u8> {
    x25519_shared_secret(ephemeral_secret, ed25519_to_montgomery(recipient_public_key))
}

/// The payload key that the recipient derives: the scalar of its Ed25519
/// secret key times the sender's ephemeral public key.
pub open spec fn recipient_key(private_key: Seq<u8>, ephemeral_public_key: Seq<u8>) -> Seq<u8> {
    x25519_shared_secret(ed25519_scalar_bytes(private_key)@, ephemeral_public_key)
}

/// The encrypted payload for a given ephemeral secret and nonce: the
/// ephemeral public key, the nonce, then the ciphertext under the agreed
/// key. Fails when the recipient's key is no Ed25519 public key, or when the
/// payload is too long for the cipher.
pub open spec fn spec_encrypt_payload(
    recipient_public_key: Seq<u8>,
    ephemeral_secret: Seq<u8>,
    nonce: Seq<u8>,
    payload: Seq<u8>,
) -> Result<Seq<u8>, ProtocolError> {
    if !ed25519_key_decodes(recipient_public_key) {
        Err(ProtocolError::InvalidPublicKey)
    } else if !encryptable(payload) {
        Err(ProtocolError::EncryptionError)
    } else {
        Ok(x25519_public_key(ephemeral_secret) + nonce + chacha20poly1305_seal(
            sender_key(recipient_public_key, ephemeral_secret),
            nonce,
            payload,
        ))
    }
}

/// Decrypting: the first 32 bytes are the ephemeral public key, the next 12
/// the nonce, the rest the ciphertext under the key agreed with it.
pub open spec fn spec_decrypt_payload(private_key: Seq<u8>, data: Seq<u8>) -> Result<Seq<u8>, ProtocolError> {
    if data.len() < HEADER_LEN {
        Err(ProtocolError::DecryptionError(DecryptFault::TooShort))
    } else {
        match chacha20poly1305_open(
            recipient_key(private_key, data.subrange(0, 32)),
            data.subrange(32, 44),
            data.subrange(44, data.len() as int),
        ) {
            Some(p) => Ok(p),
            None => Err(ProtocolError::DecryptionError(DecryptFault::Refused)),
        }
    }
}

/// Encrypt a payload for the holder of the secret key of
/// `recipient_public_key`, with the given ephemeral secret and nonce. The
/// result is exactly `spec_encrypt_payload`; it is 60 bytes longer than the
/// payload, and every secret key that agrees with the recipient's public key
/// decrypts it to the payload.
pub fn encrypt_payload_with_secrets(
    recipient_public_key: &[u8; 32],
    ephemeral_secret: &[u8; 32],
    nonce: &[u8; 12],
    payload: &[u8],
) -> (r: Result<Vec<u8>, ProtocolError>)
    ensures
        match spec_encrypt_payload(recipient_public_key@, ephemeral_secret@, nonce@, payload@) {
            Ok(b) => r matches Ok(v) && v@ == b,
            Err(e) => r == Err::<Vec<u8>, _>(e),
        },
        r matches Ok(v) ==> v@.len() == HEADER_LEN + payload@.len() + TAG_LEN,
        r matches Ok(v) ==> forall|secret: [u8; 32]|
            #[trigger] keys_agree(secret@, recipient_public_key@) ==> spec_decrypt_payload(
                secret@,
                v@,
            ) == Ok::<Seq<u8>, ProtocolError>(payload@),
{
    let montgomery = match ed25519_montgomery(recipient_public_key) {
        Some(m) => m,
        None => {
            return Err(ProtocolError::InvalidPublicKey);
        },
    };
    let key = x25519_mul(ephemeral_secret, &montgomery);
    let ciphertext = match aead_encrypt(&key, nonce.as_slice(), payload) {
        Some(c) => c,
        None => {
            return Err(ProtocolError::EncryptionError);
        },
    };
    let ephemeral_public = x25519_base_mul(ephemeral_secret);
    let mut result: Vec<u8> = Vec::new();
    result.extend_from_slice(ephemeral_public.as_slice());
    result.extend_from_slice(nonce.as_slice());
    result.extend_from_slice(ciphertext.as_slice());
    proof {
        assert(result@ =~= ephemeral_public@ + nonce@ + ciphertext@);
        assert(result@.subrange(0, 32) =~= ephemeral_public@);
        assert(result@.subrange(32, 44) =~= nonce@);
        assert(result@.subrange(44, result@.len() as int) =~= ciphertext@);
        assert forall|secret: [u8; 32]| #[trigger]
            keys_agree(secret@, recipient_public_key@) implies spec_decrypt_payload(secret@, result@)
            == Ok::<Seq<u8>, ProtocolError>(payload@) by {
            let t = ed25519_scalar_bytes(secret@);
            assert(x25519_shared_secret(t@, ephemeral_public@) == x25519_shared_secret(
                ephemeral_secret@,
                x25519_public_key(t@),
            ));
            assert(recipient_key(secret@, result@.subrange(0, 32)) == key@);
        }
    }
    Ok(result)
}

/// Encrypt a payload for the holder of the secret key of
/// `recipient_public_key`, under a fresh random ephemeral secret and nonce.
/// Fails with `InvalidPublicKey` when the key is no Ed25519 public key, and
/// with `EncryptionError` when the payload is too long for the cipher; the
/// result is 60 bytes longer than the payload, is what
/// `spec_encrypt_payload` gives for some ephemeral secret and nonce, and
/// every secret key that agrees with the recipient's public key decrypts it
/// to the payload.
pub fn encrypt_payload(recipient_public_key: &[u8; 32], payload: &[u8]) -> (r: Result<Vec<u8>, ProtocolError>)
    ensures
        r is Ok <==> ed25519_key_decodes(recipient_public_key@) && encryptable(payload@),
        !ed25519_key_decodes(recipient_public_key@) ==> r == Err::<Vec<u8>, _>(
            ProtocolError::InvalidPublicKey,
        ),
        ed25519_key_decodes(recipient_public_key@) && !encryptable(payload@) ==> r == Err::<
            Vec<u8>,
            _,
        >(ProtocolError::EncryptionError),
        r matches Ok(v) ==> v@.len() == HEADER_LEN + payload@.len() + TAG_LEN,
        r matches Ok(v) ==> exists|ephemeral_secret: Seq<u8>, nonce: Seq<u8>|
            ephemeral_secret.len() == 32 && nonce.len() == 12 && #[trigger] spec_encrypt_payload(
                recipient_public_key@,
                ephemeral_secret,
                nonce,
                payload@,
            ) == Ok::<Seq<u8>, ProtocolError>(v@),
        r matches Ok(v) ==> forall|secret: [u8; 32]|
            #[trigger] keys_agree(secret@, recipient_public_key@) ==> spec_decrypt_payload(
                secret@,
                v@,
            ) == Ok::<Seq<u8>, ProtocolError>(payload@),
{
    let secret_bytes = random_bytes(EPHEMERAL_KEY_LEN);
    let ephemeral_secret = array32(secret_bytes.as_slice());
    let nonce_bytes = random_bytes(NONCE_LEN);
    let nonce = array12(nonce_bytes.as_slice());
    encrypt_payload_with_secrets(recipient_public_key, &ephemeral_secret, &nonce, payload)
}

/// Decrypt a payload (ephemeral public key, nonce, then ciphertext) with the
/// recipient's secret key. Data shorter than the header and the tag is
/// always refused.
pub fn decrypt_payload(private_key: &[u8; 32], encrypted_data: &[u8]) -> (r: Result<Vec<u8>, ProtocolError>)
    ensures
        match spec_decrypt_payload(private_key@, encrypted_data@) {
            Ok(p) => r matches Ok(v) && v@ == p,
            Err(e) => r == Err::<Vec<u8>, _>(e),
        },
        encrypted_data@.len() < HEADER_LEN + TAG_LEN ==> r matches Err(
            ProtocolError::DecryptionError(_),
        ),
{
    if encrypted_data.len() < HEADER_LEN {
        return Err(ProtocolError::DecryptionError(DecryptFault::TooShort));
    }
    let ephemeral_public = array32(vstd::slice::slice_subrange(encrypted_data, 0, 32));
    let nonce_bytes = vstd::slice::slice_subrange(encrypted_data, 32, HEADER_LEN);
    let ciphertext = vstd::slice::slice_subrange(encrypted_data, HEADER_LEN, encrypted_data.len());
    let scalar = ed25519_secret_scalar(private_key);
    let key = x25519_mul(&scalar, &ephemeral_public);
    match aead_decrypt(&key, nonce_bytes, ciphertext) {
        Some(p) => Ok(p),
        None => Err(ProtocolError::DecryptionError(DecryptFault::Refused)),
    }
}

// ---------------------------------------------------------------------------
// Ed25519
// ---------------------------------------------------------------------------

/// The public key bytes of the Ed25519 secret key `secret`.
pub uninterp spec fn ed25519_public_key(secret: Seq<u8>) -> Seq<u8>;

/// The Ed25519 signature bytes that `secret` makes on `message`.
pub uninterp spec fn ed25519_signature(secret: Seq<u8>, message: Seq<u8>) -> Seq<u8>;

/// Whether `public_key` decodes to an Ed25519 verifying key.
pub uninterp spec fn ed25519_key_decodes(public_key: Seq<u8>) -> bool;

/// Whether `signature` verifies on `message` under the verifying key that
/// `public_key` decodes to (false when it decodes to none).
pub uninterp spec fn ed25519_verify(public_key: Seq<u8>, message: Seq<u8>, signature: Seq<u8>) -> bool;

/// The Montgomery form of the Ed25519 public key `public_key`: an X25519
/// public key (meaningful when the key decodes).
pub uninterp spec fn ed25519_to_montgomery(public_key: Seq<u8>) -> Seq<u8>;

/// The unclamped scalar bytes of the Ed25519 secret key `secret`: the first
/// half of its SHA-512 hash.
pub uninterp spec fn ed25519_scalar_bytes(secret: Seq<u8>) -> [u8; 32];

/// `SigningKey::from_bytes(secret).verifying_key().to_bytes()`: the public key
/// of a secret key, which decodes to the verifying key it came from. As the
/// crate documents for `VerifyingKey::to_montgomery` and
/// `SigningKey::to_scalar_bytes`, its Montgomery form is the X25519 public
/// key whose secret is the secret key's scalar bytes.
#[verifier::external_body]
pub(crate) fn derive_public_key(secret: &[u8; 32]) -> (r: [u8; 32])
    ensures
        r@ == ed25519_public_key(secret@),
        ed25519_key_decodes(r@),
        keys_agree(secret@, r@),
{
    SigningKey::from_bytes(secret).verifying_key().to_bytes()
}

/// `SigningKey::sign` on a key made from `secret`: the signature bytes, which
/// verify on `message` under the key's public key.
#[verifier::external_body]
pub(crate) fn ed25519_sign(secret: &[u8; 32], message: &[u8]) -> (r: [u8; 64])
    ensures
        r@ == ed25519_signature(secret@, message@),
        ed25519_verify(ed25519_public_key(secret@), message@, r@),
{
    SigningKey::from_bytes(secret).sign(message).to_bytes()
}

/// `SigningKey::from_bytes(secret).to_scalar_bytes()`: the scalar bytes of
/// the secret key, its X25519 secret.
#[verifier::external_body]
fn ed25519_secret_scalar(secret: &[u8; 32]) -> (r: [u8; 32])
    ensures
        r == ed25519_scalar_bytes(secret@),
{
    SigningKey::from_bytes(secret).to_scalar_bytes()
}

/// `VerifyingKey::from_bytes(public_key)` then `to_montgomery().to_bytes()`:
/// `None` when the bytes decode to no verifying key, else its Montgomery
/// form.
#[verifier::external_body]
fn ed25519_montgomery(public_key: &[u8; 32]) -> (r: Option<[u8; 32]>)
    ensures
        match r {
            Some(m) => ed25519_key_decodes(public_key@) && m@ == ed25519_to_montgomery(public_key@),
            None => !ed25519_key_decodes(public_key@),
        },
{
    match VerifyingKey::from_bytes(public_key) {
        Ok(key) => Some(key.to_montgomery().to_bytes()),
        Err(_) => None,
    }
}

/// `VerifyingKey::from_bytes`: whether the bytes decode to a verifying key.
#[verifier::external_body]
pub(crate) fn public_key_decodes(public_key: &[u8; 32]) -> (r: bool)
    ensures
        r == ed25519_key_decodes(public_key@),
{
    VerifyingKey::from_bytes(public_key).is_ok()
}

/// `Verifier::verify` of the verifying key that `public_key` decodes to, on
/// `Signature::from_bytes(signature)`; false when the key does not decode.
#[verifier::external_body]
pub(crate) fn ed25519_verify_bytes(public_key: &[u8; 32], message: &[u8], signature: &[u8; 64]) -> (r: bool)
    ensures
        r == ed25519_verify(public_key@, message@, signature@),
{
    match VerifyingKey::from_bytes(public_key) {
        Ok(key) => key.verify(message, &Signature::from_bytes(signature)).is_ok(),
        Err(_) => false,
    }
}

/// The bytes that a connection id signature covers: the encoded server
/// address, the server port, the connection id.
pub open spec fn signed_message(server_addr_encoded: Seq<u8>, server_port: u16, connection_id: u64) -> Seq<u8> {
    server_addr_encoded + le16(server_port) + le64(connection_id)
}

/// Whether `signature_bytes` is a valid signature of the connection id.
pub open spec fn spec_verify_connection_id(
    verifying_key: Seq<u8>,
    server_addr_encoded: Seq<u8>,
    server_port: u16,
    connection_id: u64,
    signature_bytes: Seq<u8>,
) -> bool {
    signature_bytes.len() == SIGNATURE_LEN && ed25519_verify(
        verifying_key,
        signed_message(server_addr_encoded, server_port, connection_id),
        signature_bytes,
    )
}

fn signed_message_bytes(server_addr_encoded: &[u8], server_port: u16, connection_id: u64) -> (r: Vec<u8>)
    ensures
        r@ == signed_message(server_addr_encoded@, server_port, connection_id),
{
    let mut data: Vec<u8> = Vec::new();
    data.extend_from_slice(server_addr_encoded);
    push_u16_le(&mut data, server_port);
    push_u64_le(&mut data, connection_id);
    assert(data@ =~= signed_message(server_addr_encoded@, server_port, connection_id));
    data
}

/// Sign a connection id to prove ownership. The signature covers the
/// encoded server address, the server port and the connection id, and
/// verifies under the public key of `signing_key`.
pub fn sign_connection_id(
    signing_key: &[u8; 32],
    server_addr_encoded: &[u8],
    server_port: u16,
    connection_id: u64,
) -> (r: Vec<u8>)
    ensures
        r@ == ed25519_signature(
            signing_key@,
            signed_message(server_addr_encoded@, server_port, connection_id),
        ),
        spec_verify_connection_id(
            ed25519_public_key(signing_key@),
            server_addr_encoded@,
            server_port,
            connection_id,
            r@,
        ),
{
    let data = signed_message_bytes(server_addr_encoded, server_port, connection_id);
    let signature = ed25519_sign(signing_key, data.as_slice());
    vstd::slice::slice_to_vec(signature.as_slice())
}

/// Verify a connection id signature: `Ok` exactly when the signature has 64
/// bytes and verifies, `InvalidSignature` otherwise.
pub fn verify_connection_id(
    verifying_key: &[u8; 32],
    server_addr_encoded: &[u8],
    server_port: u16,
    connection_id: u64,
    signature_bytes: &[u8],
) -> (r: Result<(), ProtocolError>)
    ensures
        r is Ok <==> spec_verify_connection_id(
            verifying_key@,
            server_addr_encoded@,
            server_port,
            connection_id,
            signature_bytes@,
        ),
        r is Err ==> r == Err::<(), _>(ProtocolError::InvalidSignature),
{
    if signature_bytes.len() != SIGNATURE_LEN {
        return Err(ProtocolError::InvalidSignature);
    }
    let data = signed_message_bytes(server_addr_encoded, server_port, connection_id);
    let mut signature = [0u8; 64];
    let mut k: usize = 0;
    while k < 64
        invariant
            0 <= k <= 64,
            signature_bytes@.len() == 64,
            forall|j: int| 0 <= j < k ==> signature@[j] == signature_bytes@[j],
        decreases 64 - k,
    {
        signature[k] = signature_bytes[k];
        k = k + 1;
    }
    assert(signature@ =~= signature_bytes@);
    if ed25519_verify_bytes(verifying_key, data.as_slice(), &signature) {
        Ok(())
    } else {
        Err(ProtocolError::InvalidSignature)
    }
}

} // verus!
