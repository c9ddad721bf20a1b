use censorless_protocol::keys::{check_public_key, KeyPair};
use censorless_protocol::crypto::{
    decrypt_payload, encrypt_payload, encrypt_payload_with_secrets,
    sign_connection_id, verify_connection_id,
};
use censorless_protocol::error::{DecryptFault, ProtocolError};

fn unhex(s: &str) -> Vec<u8> {
    (0..s.len()).step_by(2).map(|i| u8::from_str_radix(&s[i..i + 2], 16).unwrap()).collect()
}

fn derive_public_key(sk: &[u8; 32]) -> [u8; 32] {
    KeyPair::from_private_key(*sk).public_key
}

fn key32(s: &str) -> [u8; 32] {
    let v = unhex(s);
    let mut k = [0u8; 32];
    k.copy_from_slice(&v);
    k
}

// RFC 8032, section 7.1, test 2
const RECIPIENT_SECRET: &str = "4ccd089b28ff96da9db6c346ec114e0f5b8a319f35aba624da8cf6ed4fb8a6fb";

#[test]
fn encrypt_then_decrypt_gives_payload_back() {
    let sk = key32(RECIPIENT_SECRET);
    let pk = derive_public_key(&sk);
    let payload = b"hello through the relay".to_vec();
    let sealed = encrypt_payload(&pk, &payload).unwrap();
    assert_eq!(sealed.len(), 32 + 12 + payload.len() + 16);
    assert_ne!(&sealed[44..44 + payload.len()], payload.as_slice());
    assert_eq!(decrypt_payload(&sk, &sealed).unwrap(), payload);
    // two encryptions use different ephemeral keys and nonces
    let sealed2 = encrypt_payload(&pk, &payload).unwrap();
    assert_ne!(sealed[..32], sealed2[..32]);
    assert_ne!(sealed[32..44], sealed2[32..44]);
    assert_eq!(decrypt_payload(&sk, &sealed2).unwrap(), payload);
}

#[test]
fn public_key_does_not_decrypt() {
    let sk = key32(RECIPIENT_SECRET);
    let pk = derive_public_key(&sk);
    let sealed = encrypt_payload(&pk, b"secret").unwrap();
    // what a relay that knows only the public key can try
    assert_eq!(
        decrypt_payload(&pk, &sealed).unwrap_err(),
        ProtocolError::DecryptionError(DecryptFault::Refused)
    );
}

#[test]
fn encrypt_with_given_secrets_is_deterministic() {
    let sk = key32(RECIPIENT_SECRET);
    let pk = derive_public_key(&sk);
    let ephemeral = [9u8; 32];
    let nonce = [1u8; 12];
    let a = encrypt_payload_with_secrets(&pk, &ephemeral, &nonce, b"abc").unwrap();
    let b = encrypt_payload_with_secrets(&pk, &ephemeral, &nonce, b"abc").unwrap();
    assert_eq!(a, b);
    assert_eq!(&a[32..44], &nonce);
    assert_eq!(a.len(), 44 + 3 + 16);
    assert_eq!(decrypt_payload(&sk, &a).unwrap(), b"abc".to_vec());
    let empty = encrypt_payload_with_secrets(&pk, &ephemeral, &nonce, b"").unwrap();
    assert_eq!(empty.len(), 60);
    assert_eq!(decrypt_payload(&sk, &empty).unwrap(), Vec::<u8>::new());
    // another ephemeral secret gives another ephemeral public key
    let c = encrypt_payload_with_secrets(&pk, &[10u8; 32], &nonce, b"abc").unwrap();
    assert_ne!(a[..32], c[..32]);
}

#[test]
fn x25519_matches_rfc7748() {
    // RFC 7748, section 6.1: Alice's secret and public key; the ephemeral
    // public key written first is the X25519 public key of the ephemeral secret
    let alice = key32("77076d0a7318a57d3c16c17251b26645df4c2f87ebc0992ab177fba51db92c2a");
    let alice_public = key32("8520f0098930a754748b7ddcb43ef75a0dbf3a0d26381af4eba4a98eaa9b4e6a");
    let pk = derive_public_key(&key32(RECIPIENT_SECRET));
    let sealed = encrypt_payload_with_secrets(&pk, &alice, &[0u8; 12], b"x").unwrap();
    assert_eq!(sealed[..32], alice_public);
}

#[test]
fn encrypt_refuses_a_key_that_is_no_point() {
    let mut bad = [0u8; 32];
    bad[0] = 2;
    assert_eq!(encrypt_payload(&bad, b"x").unwrap_err(), ProtocolError::InvalidPublicKey);
}

#[test]
fn decrypt_errors() {
    let sk = key32(RECIPIENT_SECRET);
    let pk = derive_public_key(&sk);
    assert_eq!(
        decrypt_payload(&sk, &[0u8; 43]).unwrap_err(),
        ProtocolError::DecryptionError(DecryptFault::TooShort)
    );
    assert_eq!(
        decrypt_payload(&sk, &[0u8; 44]).unwrap_err(),
        ProtocolError::DecryptionError(DecryptFault::Refused)
    );
    assert_eq!(
        decrypt_payload(&sk, &[0u8; 59]).unwrap_err(),
        ProtocolError::DecryptionError(DecryptFault::Refused)
    );
    let mut sealed = encrypt_payload(&pk, b"payload").unwrap();
    let last = sealed.len() - 1;
    sealed[last] ^= 1;
    assert_eq!(
        decrypt_payload(&sk, &sealed).unwrap_err(),
        ProtocolError::DecryptionError(DecryptFault::Refused)
    );
    let mut sealed = encrypt_payload(&pk, b"payload").unwrap();
    sealed[0] ^= 1;
    assert_eq!(
        decrypt_payload(&sk, &sealed).unwrap_err(),
        ProtocolError::DecryptionError(DecryptFault::Refused)
    );
    let sealed = encrypt_payload(&pk, b"payload").unwrap();
    assert_eq!(
        decrypt_payload(&[4u8; 32], &sealed).unwrap_err(),
        ProtocolError::DecryptionError(DecryptFault::Refused)
    );
}

// RFC 8032, section 7.1, test 1
const RFC_SECRET: &str = "9d61b19deffd5a60ba844af492ec2cc44449c5697b326919703bac031cae7f60";
const RFC_PUBLIC: &str = "d75a980182b10ab7d54bfed3c964073a0ee172f3daa62325af021a68f707511a";

#[test]
fn public_key_of_rfc_vector() {
    let pk = derive_public_key(&key32(RFC_SECRET));
    assert_eq!(pk.to_vec(), unhex(RFC_PUBLIC));
    assert_eq!(check_public_key(&pk), Ok(()));
    // y = 2 is not the coordinate of a curve point
    let mut bad = [0u8; 32];
    bad[0] = 2;
    assert_eq!(check_public_key(&bad), Err(ProtocolError::InvalidPublicKey));
}

#[test]
fn sign_then_verify_connection_id() {
    let sk = key32(RFC_SECRET);
    let pk = derive_public_key(&sk);
    let addr = [0x03, 4, b'h', b'o', b's', b't'];
    let sig = sign_connection_id(&sk, &addr, 1337, 77);
    assert_eq!(sig.len(), 64);
    assert_eq!(verify_connection_id(&pk, &addr, 1337, 77, &sig), Ok(()));
    // any change of what is covered breaks it
    assert_eq!(verify_connection_id(&pk, &addr, 1338, 77, &sig), Err(ProtocolError::InvalidSignature));
    assert_eq!(verify_connection_id(&pk, &addr, 1337, 78, &sig), Err(ProtocolError::InvalidSignature));
    assert_eq!(verify_connection_id(&pk, &addr[..5], 1337, 77, &sig), Err(ProtocolError::InvalidSignature));
    assert_eq!(verify_connection_id(&pk, &addr, 1337, 77, &sig[..63]), Err(ProtocolError::InvalidSignature));
    let other = derive_public_key(&[1u8; 32]);
    assert_eq!(verify_connection_id(&other, &addr, 1337, 77, &sig), Err(ProtocolError::InvalidSignature));
    // signing is deterministic
    assert_eq!(sign_connection_id(&sk, &addr, 1337, 77), sig);
}
