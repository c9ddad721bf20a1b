//! SOCKS5 addresses and their encoding.
use vstd::prelude::*;
use vstd::utf8::*;
use crate::error::{DataFault, ProtocolError};
use crate::text::{lemma_text_roundtrip, string_bytes, string_from_utf8, text_bytes};

verus! {

/// SOCKS5 address format.
#[derive(Debug, Clone, PartialEq, Eq)]
pub enum SocksAddress {
    /// The four octets of an IPv4 address.
    IPv4([u8; 4]),
    /// A domain name.
    Domain(String),
    /// The sixteen octets of an IPv6 address.
    IPv6([u8; 16]),
}

/// What a `SocksAddress` denotes.
pub enum AddressView {
    IPv4(Seq<u8>),
    Domain(Seq<char>),
    IPv6(Seq<u8>),
}

impl View for SocksAddress {
    type V = AddressView;

    open spec fn view(&self) -> AddressView {
        match self {
            SocksAddress::IPv4(o) => AddressView::IPv4(o@),
            SocksAddress::Domain(d) => AddressView::Domain(d@),
            SocksAddress::IPv6(o) => AddressView::IPv6(o@),
        }
    }
}

/// Address type bytes.
pub const ATYP_IPV4: u8 = 0x01;
pub const ATYP_DOMAIN: u8 = 0x03;
pub const ATYP_IPV6: u8 = 0x04;

impl AddressView {
    /// An address as a value of `SocksAddress` can hold it.
    pub open spec fn wf(self) -> bool {
        match self {
            AddressView::IPv4(o) => o.len() == 4,
            AddressView::Domain(_) => true,
            AddressView::IPv6(o) => o.len() == 16,
        }
    }
}

/// The SOCKS5 encoding of an address, or `None` for a domain name longer
/// than 255 bytes.
pub open spec fn spec_encode_address(a: AddressView) -> Option<Seq<u8>> {
    match a {
        AddressView::IPv4(o) => Some(seq![ATYP_IPV4] + o),
        AddressView::Domain(d) => if text_bytes(d).len() > 255 {
            None
        } else {
            Some(seq![ATYP_DOMAIN, text_bytes(d).len() as u8] + text_bytes(d))
        },
        AddressView::IPv6(o) => Some(seq![ATYP_IPV6] + o),
    }
}

/// The number of bytes of the encoding (type byte, length byte for a domain,
/// then the address).
pub open spec fn spec_encoded_size(a: AddressView) -> int {
    match a {
        AddressView::IPv4(_) => 5,
        AddressView::Domain(d) => 2 + text_bytes(d).len() as int,
        AddressView::IPv6(_) => 17,
    }
}

/// Decoding an address that starts at position `pos` of `s`: the address and
/// the position just past it.
pub open spec fn spec_decode_address(s: Seq<u8>, pos: int) -> Result<(AddressView, int), ProtocolError> {
    if pos >= s.len() {
        Err(ProtocolError::Io)
    } else {
        let t = s[pos];
        if t == ATYP_IPV4 {
            if pos + 5 <= s.len() {
                Ok((AddressView::IPv4(s.subrange(pos + 1, pos + 5)), pos + 5))
            } else {
                Err(ProtocolError::Io)
            }
        } else if t == ATYP_DOMAIN {
            if pos + 2 <= s.len() && pos + 2 + s[pos + 1] <= s.len() {
                let b = s.subrange(pos + 2, pos + 2 + s[pos + 1]);
                if valid_utf8(b) {
                    Ok((AddressView::Domain(decode_utf8(b)), pos + 2 + s[pos + 1]))
                } else {
                    Err(ProtocolError::InvalidData(DataFault::InvalidDomainName))
                }
            } else {
                Err(ProtocolError::Io)
            }
        } else if t == ATYP_IPV6 {
            if pos + 17 <= s.len() {
                Ok((AddressView::IPv6(s.subrange(pos + 1, pos + 17)), pos + 17))
            } else {
                Err(ProtocolError::Io)
            }
        } else {
            Err(ProtocolError::InvalidAddressType(t))
        }
    }
}

impl SocksAddress {
    /// Encode the address into SOCKS5 format, appending to `buf`.
    pub fn encode(&self, buf: &mut Vec<u8>) -> (r: Result<(), ProtocolError>)
        ensures
            match spec_encode_address(self@) {
                Some(b) => r is Ok && final(buf)@ == old(buf)@ + b,
                None => r == Err::<(), _>(ProtocolError::InvalidData(DataFault::DomainTooLong))
                    && final(buf)@ == old(buf)@,
            },
    {
        match self {
            SocksAddress::IPv4(addr) => {
                buf.push(ATYP_IPV4);
                buf.extend_from_slice(addr.as_slice());
                assert(buf@ =~= old(buf)@ + (seq![ATYP_IPV4] + addr@));
            },
            SocksAddress::Domain(domain) => {
                let bytes = string_bytes(domain);
                if bytes.len() > 255 {
                    return Err(ProtocolError::InvalidData(DataFault::DomainTooLong));
                }
                buf.push(ATYP_DOMAIN);
                buf.push(bytes.len() as u8);
                buf.extend_from_slice(bytes);
                assert(buf@ =~= old(buf)@ + (seq![ATYP_DOMAIN, bytes@.len() as u8] + bytes@));
            },
            SocksAddress::IPv6(addr) => {
                buf.push(ATYP_IPV6);
                buf.extend_from_slice(addr.as_slice());
                assert(buf@ =~= old(buf)@ + (seq![ATYP_IPV6] + addr@));
            },
        }
        Ok(())
    }

    /// Decode an address that starts at position `pos` of `data`; returns the
    /// address and the position just past it.
    pub fn decode(data: &[u8], pos: usize) -> (r: Result<(SocksAddress, usize), ProtocolError>)
        ensures
            match spec_decode_address(data@, pos as int) {
                Ok((a, end)) => r matches Ok((addr, e)) && addr@ == a && e == end,
                Err(err) => r == Err::<(SocksAddress, usize), _>(err),
            },
    {
        if pos >= data.len() {
            return Err(ProtocolError::Io);
        }
        let t = data[pos];
        if t == ATYP_IPV4 {
            if data.len() - pos < 5 {
                return Err(ProtocolError::Io);
            }
            let o = [data[pos + 1], data[pos + 2], data[pos + 3], data[pos + 4]];
            assert(o@ =~= data@.subrange(pos + 1, pos + 5));
            Ok((SocksAddress::IPv4(o), pos + 5))
        } else if t == ATYP_DOMAIN {
            if data.len() - pos < 2 {
                return Err(ProtocolError::Io);
            }
            let n = data[pos + 1] as usize;
            if data.len() - pos - 2 < n {
                return Err(ProtocolError::Io);
            }
            let b = vstd::slice::slice_to_vec(vstd::slice::slice_subrange(data, pos + 2, pos + 2 + n));
            match string_from_utf8(b) {
                Some(d) => Ok((SocksAddress::Domain(d), pos + 2 + n)),
                None => Err(ProtocolError::InvalidData(DataFault::InvalidDomainName)),
            }
        } else if t == ATYP_IPV6 {
            if data.len() - pos < 17 {
                return Err(ProtocolError::Io);
            }
            let o = [
                data[pos + 1], data[pos + 2], data[pos + 3], data[pos + 4],
                data[pos + 5], data[pos + 6], data[pos + 7], data[pos + 8],
                data[pos + 9], data[pos + 10], data[pos + 11], data[pos + 12],
                data[pos + 13], data[pos + 14], data[pos + 15], data[pos + 16],
            ];
            assert(o@ =~= data@.subrange(pos + 1, pos + 17));
            Ok((SocksAddress::IPv6(o), pos + 17))
        } else {
            Err(ProtocolError::InvalidAddressType(t))
        }
    }

    /// Get the encoded size of this address.
    pub fn encoded_size(&self) -> (r: usize)
        requires
            spec_encoded_size(self@) <= usize::MAX,
        ensures
            r == spec_encoded_size(self@),
    {
        match self {
            SocksAddress::IPv4(_) => 1 + 4,
            SocksAddress::Domain(d) => 1 + 1 + string_bytes(d).len(),
            SocksAddress::IPv6(_) => 1 + 16,
        }
    }
}

/// Decoding what `encode` wrote, wherever it stands in a buffer, gives back
/// the address and the position just past its encoding.
pub proof fn lemma_address_roundtrip(a: AddressView, prefix: Seq<u8>, suffix: Seq<u8>)
    requires
        a.wf(),
        spec_encode_address(a) is Some,
    ensures
        spec_decode_address(prefix + spec_encode_address(a).unwrap() + suffix, prefix.len() as int)
            == Ok::<(AddressView, int), ProtocolError>((a, prefix.len() + spec_encode_address(a).unwrap().len() as int)),
{
    let e = spec_encode_address(a).unwrap();
    let s = prefix + e + suffix;
    let p = prefix.len() as int;
    assert(s.subrange(p, p + e.len()) =~= e);
    assert(s[p] == e[0]);
    match a {
        AddressView::IPv4(o) => {
            assert(s.subrange(p + 1, p + 5) =~= o);
        },
        AddressView::Domain(d) => {
            lemma_text_roundtrip(d);
            assert(s[p + 1] == e[1]);
            assert(s.subrange(p + 2, p + 2 + s[p + 1]) =~= text_bytes(d));
        },
        AddressView::IPv6(o) => {
            assert(s.subrange(p + 1, p + 17) =~= o);
        },
    }
}

/// The encoding has the length that `encoded_size` reports.
pub proof fn lemma_encoded_size(a: AddressView)
    requires
        a.wf(),
        spec_encode_address(a) is Some,
    ensures
        spec_encode_address(a).unwrap().len() == spec_encoded_size(a),
{
}

/// The encoding is canonical: encoding an address decoded from some bytes
/// gives exactly those bytes back.
pub proof fn lemma_address_decode_encode(s: Seq<u8>, pos: int)
    requires
        0 <= pos,
        spec_decode_address(s, pos) is Ok,
    ensures
        ({
            let (a, end) = spec_decode_address(s, pos)->Ok_0;
            &&& a.wf()
            &&& spec_encode_address(a) == Some(s.subrange(pos, end))
        }),
{
    let (a, end) = spec_decode_address(s, pos)->Ok_0;
    let t = s[pos];
    if t == ATYP_DOMAIN {
        let b = s.subrange(pos + 2, end);
        decode_utf8_encode_utf8(b);
        assert(s.subrange(pos, end) =~= seq![ATYP_DOMAIN, b.len() as u8] + b);
    } else if t == ATYP_IPV4 {
        assert(s.subrange(pos, end) =~= seq![ATYP_IPV4] + s.subrange(pos + 1, pos + 5));
    } else {
        assert(s.subrange(pos, end) =~= seq![ATYP_IPV6] + s.subrange(pos + 1, pos + 17));
    }
}

} // verus!
