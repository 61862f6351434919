//! The resolver: the candidate headers in their order of trust, the scan
//! over them, and the fallback to the address of the transport peer.

use vstd::prelude::*;
use crate::address::{IpAddrRejection, IpAddress, RealIp, RealIpPrivacyMask};
use crate::parser::{address_of, parse_ip};
use crate::request::{first_header_value, header_values, stored_ip, stored_real_ip};

verus! {

/// How many headers the resolver knows.
pub const CANDIDATE_COUNT: usize = 10usize;

/// The headers that may carry the client's address, the most trusted first.
///
/// Headers that a CDN or a platform sets at its edge come before the general
/// ones, which a client can forge more easily.
pub open spec fn candidate_headers() -> Seq<Seq<char>> {
    seq![
        "cf-connecting-ip"@,
        "x-cluster-client-ip"@,
        "fly-client-ip"@,
        "fastly-client-ip"@,
        "cloudfront-viewer-address"@,
        "x-real-ip"@,
        "x-forwarded-for"@,
        "x-original-forwarded-for"@,
        "true-client-ip"@,
        "client-ip"@,
    ]
}

/// The address that the candidate header at `index` yields: `None` where the
/// header is absent or its value holds no address.
pub open spec fn candidate_address(headers: Map<Seq<char>, Seq<u8>>, index: int) -> Option<
    IpAddress,
> {
    let name = candidate_headers()[index];
    if headers.contains_key(name) {
        address_of(headers[name])
    } else {
        None
    }
}

/// The address of the first candidate header, from `index` on, that yields
/// one.
pub open spec fn scan_from(headers: Map<Seq<char>, Seq<u8>>, index: int) -> Option<IpAddress>
    decreases CANDIDATE_COUNT - index,
{
    if index < 0 || index >= CANDIDATE_COUNT {
        None
    } else {
        match candidate_address(headers, index) {
            Some(address) => Some(address),
            None => scan_from(headers, index + 1),
        }
    }
}

/// The resolved address of a request: that of the first candidate header
/// that yields one, else the address of the transport peer, if it is known.
pub open spec fn resolve(headers: Map<Seq<char>, Seq<u8>>, peer: Option<RealIp>) -> Option<
    RealIp,
> {
    match scan_from(headers, 0) {
        Some(address) => Some(RealIp(address)),
        None => peer,
    }
}

/// What an extraction returns: the address stored with the request where
/// there is one, else the resolved address, else the rejection.
pub open spec fn extract(
    stored: Option<RealIp>,
    headers: Map<Seq<char>, Seq<u8>>,
    peer: Option<RealIp>,
) -> Result<RealIp, IpAddrRejection> {
    match stored {
        Some(ip) => Ok(ip),
        None => match resolve(headers, peer) {
            Some(ip) => Ok(ip),
            None => Err(IpAddrRejection),
        },
    }
}

/// The name of the candidate header at `index`.
pub fn candidate_header(index: usize) -> (name: &'static str)
    requires
        index < CANDIDATE_COUNT,
    ensures
        name@ == candidate_headers()[index as int],
{
    match index {
        0 => "cf-connecting-ip",
        1 => "x-cluster-client-ip",
        2 => "fly-client-ip",
        3 => "fastly-client-ip",
        4 => "cloudfront-viewer-address",
        5 => "x-real-ip",
        6 => "x-forwarded-for",
        7 => "x-original-forwarded-for",
        8 => "true-client-ip",
        _ => "client-ip",
    }
}

/// Resolves the address of the client from the head of a request.
///
/// The candidate headers are tried in order and the first that yields an
/// address decides; a header that is absent or malformed is passed over.
/// `peer` is the address of the transport peer where the caller knows it and
/// wants it used: it is the result where no header yields an address.
pub fn get_ip_from_parts(parts: &http::request::Parts, peer: Option<RealIp>) -> (ip: Option<
    RealIp,
>)
    ensures
        ip == resolve(header_values(*parts), peer),
{
    let mut index: usize = 0;
    while index < CANDIDATE_COUNT
        invariant
            index <= CANDIDATE_COUNT,
            scan_from(header_values(*parts), 0) == scan_from(header_values(*parts), index as int),
        decreases CANDIDATE_COUNT - index,
    {
        if let Some(value) = first_header_value(parts, candidate_header(index)) {
            if let Some(address) = parse_ip(value.as_slice()) {
                return Some(RealIp(address));
            }
        }
        index += 1;
    }
    peer
}

impl RealIp {
    /// Extracts the address of the client: the one stored with the request
    /// where there is one, else the one resolved from its head. Fails only
    /// where nothing is stored and nothing resolves.
    pub fn from_request_parts(parts: &http::request::Parts, peer: Option<RealIp>) -> (out: Result<
        RealIp,
        IpAddrRejection,
    >)
        ensures
            out == extract(stored_ip(*parts), header_values(*parts), peer),
    {
        if let Some(ip) = stored_real_ip(parts) {
            return Ok(ip);
        }
        match get_ip_from_parts(parts, peer) {
            Some(ip) => Ok(ip),
            None => Err(IpAddrRejection),
        }
    }
}

impl RealIpPrivacyMask {
    /// Extracts the address of the client as [`RealIp::from_request_parts`]
    /// does, and masks it.
    pub fn from_request_parts(parts: &http::request::Parts, peer: Option<RealIp>) -> (out: Result<
        RealIpPrivacyMask,
        IpAddrRejection,
    >)
        ensures
            out == match extract(stored_ip(*parts), header_values(*parts), peer) {
                Ok(ip) => Ok(RealIpPrivacyMask::mask(ip)),
                Err(rejection) => Err(rejection),
            },
    {
        match RealIp::from_request_parts(parts, peer) {
            Ok(ip) => Ok(RealIpPrivacyMask::from(ip)),
            Err(rejection) => Err(rejection),
        }
    }
}

/// The scan returns the address of the first candidate header that yields
/// one: a header decides as soon as every header before it yields none.
pub proof fn lemma_first_hit_decides(
    headers: Map<Seq<char>, Seq<u8>>,
    peer: Option<RealIp>,
    index: int,
)
    requires
        0 <= index < CANDIDATE_COUNT,
        candidate_address(headers, index) is Some,
        forall|earlier: int|
            0 <= earlier < index ==> candidate_address(headers, earlier) is None,
    ensures
        resolve(headers, peer) == Some(RealIp(candidate_address(headers, index)->0)),
{
    lemma_scan_skips(headers, 0, index);
}

/// A scan that starts among headers that yield nothing goes on to the first
/// that is not known to.
pub proof fn lemma_scan_skips(headers: Map<Seq<char>, Seq<u8>>, from: int, to: int)
    requires
        0 <= from <= to <= CANDIDATE_COUNT,
        forall|between: int| from <= between < to ==> candidate_address(headers, between) is None,
    ensures
        scan_from(headers, from) == scan_from(headers, to),
    decreases to - from,
{
    if from < to {
        lemma_scan_skips(headers, from + 1, to);
    }
}

/// What a scan returns is the address of one of the candidate headers.
pub proof fn lemma_scan_finds_a_candidate(headers: Map<Seq<char>, Seq<u8>>, from: int) -> (index:
    int)
    requires
        0 <= from,
        scan_from(headers, from) is Some,
    ensures
        from <= index < CANDIDATE_COUNT,
        candidate_address(headers, index) == scan_from(headers, from),
        forall|earlier: int| from <= earlier < index ==> candidate_address(headers, earlier) is None,
    decreases CANDIDATE_COUNT - from,
{
    if candidate_address(headers, from) is Some {
        from
    } else {
        lemma_scan_finds_a_candidate(headers, from + 1)
    }
}

/// A resolved address that is not the peer's comes from a header, and is an
/// IPv4 address.
pub proof fn lemma_resolved_is_ipv4_or_peer(headers: Map<Seq<char>, Seq<u8>>, peer: Option<RealIp>)
    ensures
        resolve(headers, peer) == peer || match resolve(headers, peer) {
            Some(ip) => ip.0.is_ipv4(),
            None => false,
        },
{
    if scan_from(headers, 0) is Some {
        lemma_scan_finds_a_candidate(headers, 0);
    }
}

/// A valid address in the first candidate header, `cf-connecting-ip`, is the
/// resolved address, whatever the other headers and the peer are.
pub proof fn lemma_first_candidate_wins(
    headers: Map<Seq<char>, Seq<u8>>,
    peer: Option<RealIp>,
    address: IpAddress,
)
    requires
        headers.contains_key("cf-connecting-ip"@),
        address_of(headers["cf-connecting-ip"@]) == Some(address),
    ensures
        resolve(headers, peer) == Some(RealIp(address)),
{
    assert(candidate_headers()[0] == "cf-connecting-ip"@);
    assert(candidate_address(headers, 0) == Some(address));
}

/// Where no candidate header yields an address, the peer decides; where
/// there is no peer either, nothing resolves and an extraction that finds
/// nothing stored is rejected.
pub proof fn lemma_nothing_found(headers: Map<Seq<char>, Seq<u8>>, peer: Option<RealIp>)
    requires
        forall|index: int|
            0 <= index < CANDIDATE_COUNT ==> candidate_address(headers, index) is None,
    ensures
        resolve(headers, peer) == peer,
        peer is None ==> extract(None, headers, peer) == Err::<RealIp, IpAddrRejection>(
            IpAddrRejection,
        ),
{
    lemma_scan_skips(headers, 0, CANDIDATE_COUNT as int);
}

/// With none of the candidate headers present and no peer, nothing resolves.
pub proof fn lemma_no_headers_no_peer(headers: Map<Seq<char>, Seq<u8>>)
    requires
        forall|index: int|
            0 <= index < CANDIDATE_COUNT ==> !headers.contains_key(
                #[trigger] candidate_headers()[index],
            ),
    ensures
        resolve(headers, None) is None,
        extract(None, headers, None) == Err::<RealIp, IpAddrRejection>(IpAddrRejection),
{
    assert forall|index: int| 0 <= index < CANDIDATE_COUNT implies candidate_address(
        headers,
        index,
    ) is None by {
        assert(!headers.contains_key(candidate_headers()[index]));
    }
    lemma_nothing_found(headers, None);
}

} // verus!
