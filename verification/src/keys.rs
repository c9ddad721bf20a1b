//! Keys given in configuration as hex strings.
use vstd::prelude::*;
use crate::crypto::{
    derive_public_key, ed25519_key_decodes, ed25519_public_key, keys_agree, public_key_decodes,
};
use crate::error::ProtocolError;
use crate::text::{string_bytes, text_bytes};

verus! {

/// The value of a hex digit (either case), or `None`.
pub open spec fn hex_digit(c: u8) -> Option<u8> {
    if 0x41 <= c <= 0x46 {
        Some((c - 0x41 + 10) as u8)
    } else if 0x61 <= c <= 0x66 {
        Some((c - 0x61 + 10) as u8)
    } else if 0x30 <= c <= 0x39 {
        Some((c - 0x30) as u8)
    } else {
        None
    }
}

/// The bytes that a hex text of even length stands for, two digits per byte,
/// high digit first; `None` for an odd length or a non-hex character.
pub open spec fn spec_hex_decode(s: Seq<u8>) -> Option<Seq<u8>>
    decreases s.len(),
{
    if s.len() % 2 != 0 {
        None
    } else if s.len() == 0 {
        Some(seq![])
    } else {
        match (hex_digit(s[0]), hex_digit(s[1]), spec_hex_decode(s.skip(2))) {
            (Some(h), Some(l), Some(rest)) => Some(seq![(h * 16 + l) as u8] + rest),
            _ => None,
        }
    }
}

/// The value of a hex digit.
fn hex_value(c: u8) -> (r: Option<u8>)
    ensures
        r == hex_digit(c),
{
    if 0x41 <= c && c <= 0x46 {
        Some(c - 0x41 + 10)
    } else if 0x61 <= c && c <= 0x66 {
        Some(c - 0x61 + 10)
    } else if 0x30 <= c && c <= 0x39 {
        Some(c - 0x30)
    } else {
        None
    }
}

/// The bytes that a hex text stands for, as `hex::decode` reads it: two
/// digits of either case per byte; `None` for an odd length or a non-hex
/// character.
fn hex_decode(text: &[u8]) -> (r: Option<Vec<u8>>)
    ensures
        match spec_hex_decode(text@) {
            Some(b) => r matches Some(v) && v@ == b,
            None => r is None,
        },
{
    let n = text.len();
    if n % 2 != 0 {
        return None;
    }
    let mut out: Vec<u8> = Vec::new();
    let mut i: usize = 0;
    assert(text@.skip(0) =~= text@);
    while i < n
        invariant
            n == text@.len(),
            n % 2 == 0,
            i % 2 == 0,
            0 <= i <= n,
            spec_hex_decode(text@) == match spec_hex_decode(text@.skip(i as int)) {
                Some(rest) => Some(out@ + rest),
                None => None::<Seq<u8>>,
            },
        decreases n - i,
    {
        let ghost t = text@.skip(i as int);
        assert(t.len() % 2 == 0 && t.len() >= 2);
        assert(t[0] == text@[i as int] && t[1] == text@[i + 1]);
        assert(t.skip(2) =~= text@.skip(i + 2));
        let high = hex_value(text[i]);
        let low = hex_value(text[i + 1]);
        match (high, low) {
            (Some(h), Some(l)) => {
                let b: u8 = h * 16 + l;
                proof {
                    match spec_hex_decode(text@.skip(i + 2)) {
                        Some(rest) => {
                            assert(out@.push(b) + rest =~= out@ + (seq![b] + rest));
                        },
                        None => {},
                    }
                }
                out.push(b);
            },
            _ => {
                return None;
            },
        }
        i = i + 2;
    }
    assert(text@.skip(n as int) =~= Seq::<u8>::empty());
    assert(out@ + Seq::<u8>::empty() =~= out@);
    Some(out)
}

/// Why a configured key was refused.
#[derive(Debug, Clone, Copy, PartialEq, Eq, Structural)]
pub enum KeyError {
    /// Not a hex string.
    InvalidHex,
    /// Not 32 bytes.
    InvalidLength,
}

/// A key of 32 bytes from its hex text.
pub open spec fn spec_parse_key_hex(text: Seq<char>) -> Result<Seq<u8>, KeyError> {
    match spec_hex_decode(text_bytes(text)) {
        Some(b) => if b.len() == 32 {
            Ok(b)
        } else {
            Err(KeyError::InvalidLength)
        },
        None => Err(KeyError::InvalidHex),
    }
}

/// Parse a 32-byte key from hex.
pub fn parse_key_hex(text: &String) -> (r: Result<[u8; 32], KeyError>)
    ensures
        match spec_parse_key_hex(text@) {
            Ok(b) => r matches Ok(k) && k@ == b,
            Err(e) => r == Err::<[u8; 32], _>(e),
        },
{
    let bytes = match hex_decode(string_bytes(text)) {
        Some(b) => b,
        None => {
            return Err(KeyError::InvalidHex);
        },
    };
    if bytes.len() != 32 {
        return Err(KeyError::InvalidLength);
    }
    let mut key = [0u8; 32];
    let mut k: usize = 0;
    while k < 32
        invariant
            0 <= k <= 32,
            bytes@.len() == 32,
            forall|j: int| 0 <= j < k ==> key@[j] == bytes@[j],
        decreases 32 - k,
    {
        key[k] = bytes[k];
        k = k + 1;
    }
    assert(key@ =~= bytes@);
    Ok(key)
}

/// A secret key and its public key.
pub struct KeyPair {
    pub private_key: [u8; 32],
    pub public_key: [u8; 32],
}

impl KeyPair {
    /// The key pair of a secret key: the public key is the Ed25519 public
    /// key of the secret key.
    pub fn from_private_key(private_key: [u8; 32]) -> (r: KeyPair)
        ensures
            r.private_key@ == private_key@,
            r.public_key@ == ed25519_public_key(private_key@),
            ed25519_key_decodes(r.public_key@),
            keys_agree(r.private_key@, r.public_key@),
    {
        let public_key = derive_public_key(&private_key);
        KeyPair { private_key, public_key }
    }
}

/// Whether a client's public key is one that signatures can be checked
/// against: `InvalidPublicKey` when it decodes to no verifying key.
pub fn check_public_key(public_key: &[u8; 32]) -> (r: Result<(), ProtocolError>)
    ensures
        r is Ok <==> ed25519_key_decodes(public_key@),
        r is Err ==> r == Err::<(), _>(ProtocolError::InvalidPublicKey),
{
    if public_key_decodes(public_key) {
        Ok(())
    } else {
        Err(ProtocolError::InvalidPublicKey)
    }
}

/// The key pair of a secret key given in hex.
pub fn key_pair_from_hex(private_key_hex: &String) -> (r: Result<KeyPair, KeyError>)
    ensures
        match spec_parse_key_hex(private_key_hex@) {
            Ok(b) => r matches Ok(kp) && kp.private_key@ == b && kp.public_key@ == ed25519_public_key(b)
                && ed25519_key_decodes(kp.public_key@) && keys_agree(b, kp.public_key@),
            Err(e) => r == Err::<KeyPair, _>(e),
        },
{
    let private_key = parse_key_hex(private_key_hex)?;
    Ok(KeyPair::from_private_key(private_key))
}

} // verus!
