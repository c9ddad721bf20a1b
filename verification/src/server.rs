//! Decisions of the server: which targets it refuses, connection ids, and
//! which signed connection ids it honours.
use vstd::prelude::*;
use crate::address::SocksAddress;
use crate::crypto::{spec_verify_connection_id, verify_connection_id, SIGNATURE_LEN};
use crate::message::ErrorCode;
use crate::wire::{read_u16_le, read_u64_le, u16_at, u64_at};

verus! {

/// Default milliseconds to wait for target data after writing.
pub fn default_read_timeout() -> (r: u64)
    ensures
        r == 1000,
{
    1000
}

/// Default milliseconds to wait for target data during a poll.
pub fn default_poll_timeout() -> (r: u64)
    ensures
        r == 500,
{
    500
}

/// Default buffer limit in bytes.
pub fn default_buffer_max() -> (r: usize)
    ensures
        r == 1_048_576,
{
    1_048_576
}

/// The bytes read from a target so far, after `read` more, in the plain
/// protocol variant: `None` when that passes the buffer limit, and the
/// connection is then closed.
pub fn charge_buffer(used: usize, read: usize, buffer_max: usize) -> (r: Option<usize>)
    ensures
        r == (if used + read > buffer_max {
            None
        } else {
            Some((used + read) as usize)
        }),
{
    if used > buffer_max || read > buffer_max - used {
        None
    } else {
        Some(used + read)
    }
}

// ---------------------------------------------------------------------------
// Private addresses
// ---------------------------------------------------------------------------

/// An IP address, by its octets.
#[derive(Debug, Clone, Copy, PartialEq, Eq)]
pub enum IpAddr {
    V4([u8; 4]),
    V6([u8; 16]),
}

/// 127.0.0.0/8
pub open spec fn v4_loopback(o: Seq<u8>) -> bool {
    o[0] == 127
}

/// 10.0.0.0/8, 172.16.0.0/12, 192.168.0.0/16
pub open spec fn v4_private(o: Seq<u8>) -> bool {
    o[0] == 10 || (o[0] == 172 && (o[1] & 0xf0) == 16) || (o[0] == 192 && o[1] == 168)
}

/// 169.254.0.0/16
pub open spec fn v4_link_local(o: Seq<u8>) -> bool {
    o[0] == 169 && o[1] == 254
}

/// 224.0.0.0/4
pub open spec fn v4_multicast(o: Seq<u8>) -> bool {
    224 <= o[0] <= 239
}

/// 255.255.255.255
pub open spec fn v4_broadcast(o: Seq<u8>) -> bool {
    o[0] == 255 && o[1] == 255 && o[2] == 255 && o[3] == 255
}

/// 192.0.2.0/24, 198.51.100.0/24, 203.0.113.0/24
pub open spec fn v4_documentation(o: Seq<u8>) -> bool {
    (o[0] == 192 && o[1] == 0 && o[2] == 2) || (o[0] == 198 && o[1] == 51 && o[2] == 100) || (o[0]
        == 203 && o[1] == 0 && o[2] == 113)
}

/// 0.0.0.0
pub open spec fn v4_unspecified(o: Seq<u8>) -> bool {
    o[0] == 0 && o[1] == 0 && o[2] == 0 && o[3] == 0
}

/// The first 16-bit segment of an IPv6 address.
pub open spec fn v6_segment0(o: Seq<u8>) -> u16 {
    ((o[0] as u16) << 8u16) | (o[1] as u16)
}

/// `::1`
pub open spec fn v6_loopback(o: Seq<u8>) -> bool {
    (forall|i: int| 0 <= i < 15 ==> o[i] == 0) && o[15] == 1
}

/// `::`
pub open spec fn v6_unspecified(o: Seq<u8>) -> bool {
    forall|i: int| 0 <= i < 16 ==> o[i] == 0
}

/// ff00::/8
pub open spec fn v6_multicast(o: Seq<u8>) -> bool {
    o[0] == 0xff
}

/// `::ffff:a.b.c.d`, an IPv4 address mapped into IPv6.
pub open spec fn v6_ipv4_mapped(o: Seq<u8>) -> bool {
    (forall|i: int| 0 <= i < 10 ==> o[i] == 0) && o[10] == 0xff && o[11] == 0xff
}

/// Whether the IPv4 address is loopback, private, link-local, multicast,
/// broadcast, documentation or unspecified.
pub open spec fn spec_is_private_v4(o: Seq<u8>) -> bool {
    v4_loopback(o) || v4_private(o) || v4_link_local(o) || v4_multicast(o) || v4_broadcast(o)
        || v4_documentation(o) || v4_unspecified(o)
}

/// Whether the address is private: for IPv4 as `spec_is_private_v4`; for
/// IPv6 loopback, multicast, unspecified, unique local (fc00::/7),
/// link-local (fe80::/10), or an IPv4-mapped address whose IPv4 address is
/// private.
pub open spec fn spec_is_private_ip(ip: IpAddr) -> bool {
    match ip {
        IpAddr::V4(a) => spec_is_private_v4(a@),
        IpAddr::V6(a) => {
            let o = a@;
            v6_loopback(o) || v6_multicast(o) || v6_unspecified(o) || (v6_segment0(o) & 0xfe00)
                == 0xfc00 || (v6_segment0(o) & 0xffc0) == 0xfe80 || (v6_ipv4_mapped(o)
                && spec_is_private_v4(o.subrange(12, 16)))
        },
    }
}

/// The 32-bit number that four octets stand for, most significant first.
pub open spec fn v4_number(o: Seq<u8>) -> int {
    o[0] * 0x100_0000 + o[1] * 0x1_0000 + o[2] * 0x100 + o[3]
}

/// Whether the IPv4 address lies in one of the refused ranges, as numbers:
/// 0.0.0.0, 10.0.0.0/8, 127.0.0.0/8, 169.254.0.0/16, 172.16.0.0/12,
/// 192.0.2.0/24, 192.168.0.0/16, 198.51.100.0/24, 203.0.113.0/24,
/// 224.0.0.0/4 and 255.255.255.255.
pub open spec fn v4_in_refused_range(o: Seq<u8>) -> bool {
    let a = v4_number(o);
    ||| a == 0
    ||| 0x0A00_0000 <= a <= 0x0AFF_FFFF
    ||| 0x7F00_0000 <= a <= 0x7FFF_FFFF
    ||| 0xA9FE_0000 <= a <= 0xA9FE_FFFF
    ||| 0xAC10_0000 <= a <= 0xAC1F_FFFF
    ||| 0xC000_0200 <= a <= 0xC000_02FF
    ||| 0xC0A8_0000 <= a <= 0xC0A8_FFFF
    ||| 0xC633_6400 <= a <= 0xC633_64FF
    ||| 0xCB00_7100 <= a <= 0xCB00_71FF
    ||| 0xE000_0000 <= a <= 0xEFFF_FFFF
    ||| a == 0xFFFF_FFFF
}

/// Whether the IPv6 address lies in one of the refused ranges: `::1`, `::`,
/// ff00::/8, fc00::/7, fe80::/10, or ::ffff:0:0/96 with an IPv4 address in
/// a refused range.
pub open spec fn v6_in_refused_range(o: Seq<u8>) -> bool {
    ||| (forall|i: int| 0 <= i < 15 ==> o[i] == 0) && o[15] == 1
    ||| (forall|i: int| 0 <= i < 16 ==> o[i] == 0)
    ||| o[0] == 0xff
    ||| o[0] == 0xfc || o[0] == 0xfd
    ||| o[0] == 0xfe && 0x80 <= o[1] <= 0xbf
    ||| (forall|i: int| 0 <= i < 10 ==> o[i] == 0) && o[10] == 0xff && o[11] == 0xff
        && v4_in_refused_range(o.subrange(12, 16))
}

/// Whether the address lies in one of the refused ranges.
pub open spec fn ip_in_refused_range(ip: IpAddr) -> bool {
    match ip {
        IpAddr::V4(a) => v4_in_refused_range(a@),
        IpAddr::V6(a) => v6_in_refused_range(a@),
    }
}

proof fn lemma_v4_ranges(o: Seq<u8>)
    requires
        o.len() == 4,
    ensures
        spec_is_private_v4(o) == v4_in_refused_range(o),
{
    let b = o[1];
    assert(((b & 0xf0u8) == 16u8) == (16 <= b <= 31)) by (bit_vector);
    let a = v4_number(o);
    assert(0 <= o[1] * 0x1_0000 + o[2] * 0x100 + o[3] <= 0xFF_FFFF);
    assert(0 <= o[2] * 0x100 + o[3] <= 0xFFFF);
    assert(o[0] * 0x100_0000 <= a < o[0] * 0x100_0000 + 0x100_0000);
    assert(o[0] * 0x100_0000 + o[1] * 0x1_0000 <= a < o[0] * 0x100_0000 + o[1] * 0x1_0000 + 0x1_0000);
    assert(o[0] * 0x100_0000 + o[1] * 0x1_0000 + o[2] * 0x100 <= a < o[0] * 0x100_0000 + o[1]
        * 0x1_0000 + o[2] * 0x100 + 0x100);
}

proof fn lemma_v6_ranges(a: [u8; 16])
    ensures
        spec_is_private_ip(IpAddr::V6(a)) == v6_in_refused_range(a@),
{
    let o = a@;
    let x = o[0];
    let y = o[1];
    assert(((((x as u16) << 8u16) | (y as u16)) & 0xfe00u16 == 0xfc00u16) == (x == 0xfc || x == 0xfd))
        by (bit_vector);
    assert(((((x as u16) << 8u16) | (y as u16)) & 0xffc0u16 == 0xfe80u16) == (x == 0xfe && 0x80 <= y
        <= 0xbf)) by (bit_vector);
    lemma_v4_ranges(o.subrange(12, 16));
}

/// What is private, by ranges of addresses: an address is private exactly
/// when it lies in one of the refused ranges.
pub proof fn lemma_private_is_refused_range(ip: IpAddr)
    ensures
        spec_is_private_ip(ip) == ip_in_refused_range(ip),
{
    match ip {
        IpAddr::V4(a) => lemma_v4_ranges(a@),
        IpAddr::V6(a) => lemma_v6_ranges(a),
    }
}

/// Every address of 127.0.0.0/8 is private (loopback).
pub proof fn lemma_v4_loopback_is_private(o: [u8; 4])
    requires
        o[0] == 127,
    ensures
        spec_is_private_ip(IpAddr::V4(o)),
{
    lemma_private_is_refused_range(IpAddr::V4(o));
}

/// Every address of ff00::/8 is private (multicast).
pub proof fn lemma_v6_multicast_is_private(o: [u8; 16])
    requires
        o[0] == 0xff,
    ensures
        spec_is_private_ip(IpAddr::V6(o)),
{
    lemma_private_is_refused_range(IpAddr::V6(o));
}

fn all_zero(o: &[u8; 16], end: usize) -> (r: bool)
    requires
        end <= 16,
    ensures
        r == (forall|i: int| 0 <= i < end ==> o@[i] == 0),
{
    let mut k: usize = 0;
    while k < end
        invariant
            0 <= k <= end <= 16,
            forall|i: int| 0 <= i < k ==> o@[i] == 0,
        decreases end - k,
    {
        if o[k] != 0 {
            return false;
        }
        k = k + 1;
    }
    true
}

fn is_private_v4(o: [u8; 4]) -> (r: bool)
    ensures
        r == spec_is_private_v4(o@),
{
    let loopback = o[0] == 127;
    let private = o[0] == 10 || (o[0] == 172 && (o[1] & 0xf0) == 16) || (o[0] == 192 && o[1]
        == 168);
    let link_local = o[0] == 169 && o[1] == 254;
    let multicast = o[0] >= 224 && o[0] <= 239;
    let broadcast = o[0] == 255 && o[1] == 255 && o[2] == 255 && o[3] == 255;
    let documentation = (o[0] == 192 && o[1] == 0 && o[2] == 2) || (o[0] == 198 && o[1] == 51
        && o[2] == 100) || (o[0] == 203 && o[1] == 0 && o[2] == 113);
    let unspecified = o[0] == 0 && o[1] == 0 && o[2] == 0 && o[3] == 0;
    loopback || private || link_local || multicast || broadcast || documentation || unspecified
}

/// Check if an IP address is private/internal; an IPv4-mapped IPv6 address
/// is judged by its IPv4 address.
pub fn is_private_ip(ip: IpAddr) -> (r: bool)
    ensures
        r == spec_is_private_ip(ip),
        r == ip_in_refused_range(ip),
{
    proof {
        lemma_private_is_refused_range(ip);
    }
    match ip {
        IpAddr::V4(o) => is_private_v4(o),
        IpAddr::V6(o) => {
            let loopback = all_zero(&o, 15) && o[15] == 1;
            let multicast = o[0] == 0xff;
            let unspecified = all_zero(&o, 16);
            let segment0: u16 = ((o[0] as u16) << 8u16) | (o[1] as u16);
            let mapped = all_zero(&o, 10) && o[10] == 0xff && o[11] == 0xff;
            let embedded: [u8; 4] = [o[12], o[13], o[14], o[15]];
            assert(embedded@ =~= o@.subrange(12, 16));
            let mapped_private = mapped && is_private_v4(embedded);
            loopback || multicast || unspecified || (segment0 & 0xfe00) == 0xfc00 || (segment0
                & 0xffc0) == 0xfe80 || mapped_private
        },
    }
}

/// Whether a connection to `target` is refused as private: an IP address
/// that is private, or a domain name one of whose resolved addresses is.
pub open spec fn spec_is_blocked_target(target: SocksAddress, resolved: Seq<IpAddr>) -> bool {
    match target {
        SocksAddress::IPv4(o) => spec_is_private_ip(IpAddr::V4(o)),
        SocksAddress::IPv6(o) => spec_is_private_ip(IpAddr::V6(o)),
        SocksAddress::Domain(_) => exists|i: int| 0 <= i < resolved.len() && spec_is_private_ip(
            #[trigger] resolved[i],
        ),
    }
}

/// A domain target is blocked as soon as any one of the addresses it
/// resolved to is private, whatever its place in the list, and only then.
pub proof fn lemma_domain_blocked_by_any_address(target: SocksAddress, resolved: Seq<IpAddr>, i: int)
    requires
        target is Domain,
        0 <= i < resolved.len(),
    ensures
        spec_is_private_ip(resolved[i]) ==> spec_is_blocked_target(target, resolved),
        spec_is_blocked_target(target, resolved) ==> exists|j: int|
            0 <= j < resolved.len() && ip_in_refused_range(#[trigger] resolved[j]),
{
    if spec_is_blocked_target(target, resolved) {
        let j = choose|j: int| 0 <= j < resolved.len() && spec_is_private_ip(#[trigger] resolved[j]);
        lemma_private_is_refused_range(resolved[j]);
    }
}

/// Whether a connection to `target` is refused as private; `resolved` holds
/// the addresses a domain name resolved to (empty when resolution failed).
pub fn is_blocked_target(target: &SocksAddress, resolved: &Vec<IpAddr>) -> (r: bool)
    ensures
        r == spec_is_blocked_target(*target, resolved@),
        *target matches SocksAddress::IPv4(o) ==> r == v4_in_refused_range(o@),
        *target matches SocksAddress::IPv6(o) ==> r == v6_in_refused_range(o@),
        *target is Domain ==> (r <==> exists|i: int|
            0 <= i < resolved@.len() && ip_in_refused_range(#[trigger] resolved@[i])),
        *target is Domain ==> forall|i: int|
            0 <= i < resolved@.len() && spec_is_private_ip(#[trigger] resolved@[i]) ==> r,
{
    proof {
        assert forall|i: int| 0 <= i < resolved@.len() implies spec_is_private_ip(#[trigger] resolved@[i])
            == ip_in_refused_range(resolved@[i]) by {
            lemma_private_is_refused_range(resolved@[i]);
        }
        match *target {
            SocksAddress::IPv4(o) => lemma_private_is_refused_range(IpAddr::V4(o)),
            SocksAddress::IPv6(o) => lemma_private_is_refused_range(IpAddr::V6(o)),
            SocksAddress::Domain(_) => {},
        }
    }
    match target {
        SocksAddress::IPv4(o) => is_private_ip(IpAddr::V4(*o)),
        SocksAddress::IPv6(o) => is_private_ip(IpAddr::V6(*o)),
        SocksAddress::Domain(_) => {
            let mut k: usize = 0;
            while k < resolved.len()
                invariant
                    *target is Domain,
                    0 <= k <= resolved@.len(),
                    forall|i: int| 0 <= i < k ==> !spec_is_private_ip(#[trigger] resolved@[i]),
                decreases resolved@.len() - k,
            {
                if is_private_ip(resolved[k]) {
                    assert(spec_is_private_ip(resolved@[k as int]));
                    return true;
                }
                k = k + 1;
            }
            false
        },
    }
}

/// How an attempt to connect to a target failed.
#[derive(Debug, Clone, Copy, PartialEq, Eq, Structural)]
pub enum ConnectFailure {
    Refused,
    TimedOut,
    Other,
    /// The connect timeout expired.
    Deadline,
}

/// The error code reported for a failed connection attempt.
pub fn error_code_for_connect_failure(f: ConnectFailure) -> (r: ErrorCode)
    ensures
        r == match f {
            ConnectFailure::Refused => ErrorCode::ConnectionRefused,
            ConnectFailure::TimedOut => ErrorCode::Timeout,
            ConnectFailure::Deadline => ErrorCode::Timeout,
            ConnectFailure::Other => ErrorCode::HostUnreachable,
        },
{
    match f {
        ConnectFailure::Refused => ErrorCode::ConnectionRefused,
        ConnectFailure::TimedOut => ErrorCode::Timeout,
        ConnectFailure::Deadline => ErrorCode::Timeout,
        ConnectFailure::Other => ErrorCode::HostUnreachable,
    }
}

// ---------------------------------------------------------------------------
// Connection ids
// ---------------------------------------------------------------------------

/// What a generator stands for: the next id, the ids issued so far, and
/// whether the counter has wrapped past `u64::MAX`.
pub struct IdIssuance {
    pub next: u64,
    pub issued: Set<u64>,
    pub wrapped: bool,
}

/// The source of connection ids; it starts at 1, as 0 is reserved for errors.
/// Until it wraps, the ids it has issued are exactly 1 up to the one before
/// `next`.
pub struct ConnectionIdGenerator {
    next: u64,
    issued: Ghost<Set<u64>>,
    wrapped: Ghost<bool>,
}

impl View for ConnectionIdGenerator {
    type V = IdIssuance;

    closed spec fn view(&self) -> IdIssuance {
        IdIssuance { next: self.next, issued: self.issued@, wrapped: self.wrapped@ }
    }
}

/// The ids from 1 up to `n`, both included.
pub open spec fn ids_up_to(n: u64) -> Set<u64> {
    Set::new(|x: u64| 1 <= x <= n)
}

impl ConnectionIdGenerator {
    #[verifier::type_invariant]
    spec fn issued_so_far(self) -> bool {
        !self.wrapped@ ==> self.next >= 1 && self.issued@ == ids_up_to((self.next - 1) as u64)
    }

    pub fn new() -> (r: Self)
        ensures
            r@.next == 1,
            r@.issued == Set::<u64>::empty(),
            !r@.wrapped,
    {
        assert(ids_up_to(0) =~= Set::<u64>::empty());
        ConnectionIdGenerator { next: 1, issued: Ghost(Set::empty()), wrapped: Ghost(false) }
    }
}

/// Generate a connection id: the counter's value, which then moves on by one
/// (wrapping at `u64::MAX`). Until the counter wraps, the id is never 0 and
/// was never issued before, and the ids issued by all calls so far are
/// exactly 1 up to this one.
pub fn generate_connection_id(counter: &mut ConnectionIdGenerator) -> (r: u64)
    ensures
        r == old(counter)@.next,
        final(counter)@.next == (if old(counter)@.next == u64::MAX {
            0
        } else {
            old(counter)@.next + 1
        }),
        final(counter)@.issued == old(counter)@.issued.insert(r),
        final(counter)@.wrapped == (old(counter)@.wrapped || r == u64::MAX),
        !old(counter)@.wrapped ==> r != 0 && !old(counter)@.issued.contains(r)
            && final(counter)@.issued == ids_up_to(r),
{
    proof {
        use_type_invariant(&*counter);
    }
    let id = counter.next;
    let ghost issued = counter.issued@.insert(id);
    let ghost wrapped = counter.wrapped@ || id == u64::MAX;
    proof {
        if !counter.wrapped@ {
            assert(issued =~= ids_up_to(id));
        }
    }
    let next = if id == u64::MAX { 0 } else { id + 1 };
    *counter = ConnectionIdGenerator { next, issued: Ghost(issued), wrapped: Ghost(wrapped) };
    id
}

// ---------------------------------------------------------------------------
// Signed connection ids
// ---------------------------------------------------------------------------

/// The parts of a signed connection id: encoded server address, server port,
/// connection id, signature (the last 64 bytes).
pub struct SignedConnectionId {
    pub server_addr_encoded: Vec<u8>,
    pub server_port: u16,
    pub connection_id: u64,
    pub signature: Vec<u8>,
}

/// Splitting a signed connection id; `None` when it is shorter than a
/// signature, a connection id and a port.
pub open spec fn spec_parse_signed_id(s: Seq<u8>) -> Option<(Seq<u8>, u16, u64, Seq<u8>)> {
    if s.len() < SIGNATURE_LEN + 10 {
        None
    } else {
        let sd = s.len() - SIGNATURE_LEN;
        Some(
            (
                s.subrange(0, sd - 10),
                u16_at(s, sd - 10),
                u64_at(s, sd - 8),
                s.subrange(sd, s.len() as int),
            ),
        )
    }
}

/// The connection id that a signed connection id carries, when its
/// signature verifies under `client_public_key`.
pub open spec fn spec_verified_connection_id(client_public_key: Seq<u8>, s: Seq<u8>) -> Option<u64> {
    match spec_parse_signed_id(s) {
        Some((addr, port, id, sig)) => if spec_verify_connection_id(
            client_public_key,
            addr,
            port,
            id,
            sig,
        ) {
            Some(id)
        } else {
            None
        },
        None => None,
    }
}

/// Split a signed connection id into its parts.
pub fn parse_signed_connection_id(signed: &[u8]) -> (r: Option<SignedConnectionId>)
    ensures
        match spec_parse_signed_id(signed@) {
            Some((a, p, id, sig)) => r matches Some(x) && x.server_addr_encoded@ == a
                && x.server_port == p && x.connection_id == id && x.signature@ == sig,
            None => r is None,
        },
{
    if signed.len() < SIGNATURE_LEN + 10 {
        return None;
    }
    let sd = signed.len() - SIGNATURE_LEN;
    let server_addr_encoded = vstd::slice::slice_to_vec(vstd::slice::slice_subrange(signed, 0, sd - 10));
    let server_port = read_u16_le(signed, sd - 10);
    let connection_id = read_u64_le(signed, sd - 8);
    let signature = vstd::slice::slice_to_vec(vstd::slice::slice_subrange(signed, sd, signed.len()));
    Some(SignedConnectionId { server_addr_encoded, server_port, connection_id, signature })
}

/// The connection id carried by a signed connection id, when it is long
/// enough and its signature verifies under the client's public key.
pub fn verified_connection_id(client_public_key: &[u8; 32], signed: &[u8]) -> (r: Option<u64>)
    ensures
        r == spec_verified_connection_id(client_public_key@, signed@),
{
    match parse_signed_connection_id(signed) {
        Some(p) => {
            match verify_connection_id(
                client_public_key,
                p.server_addr_encoded.as_slice(),
                p.server_port,
                p.connection_id,
                p.signature.as_slice(),
            ) {
                Ok(()) => Some(p.connection_id),
                Err(_) => None,
            }
        },
        None => None,
    }
}

/// The connection id of a signed connection id read without checking the
/// signature: the 8 bytes before the last 64; `None` when shorter than 72.
pub open spec fn spec_unverified_connection_id(s: Seq<u8>) -> Option<u64> {
    if s.len() < SIGNATURE_LEN + 8 {
        None
    } else {
        Some(u64_at(s, s.len() - SIGNATURE_LEN - 8))
    }
}

/// The connection id of a signed connection id read without checking the
/// signature: the 8 bytes before the last 64; `None` when shorter than 72.
pub fn unverified_connection_id(signed: &[u8]) -> (r: Option<u64>)
    ensures
        r == spec_unverified_connection_id(signed@),
{
    if signed.len() < SIGNATURE_LEN + 8 {
        return None;
    }
    Some(read_u64_le(signed, signed.len() - SIGNATURE_LEN - 8))
}

} // verus!
