//! What the library reads from, and writes to, the head of a request.
//!
//! The head is an `http::request::Parts`. The items here are the only ones
//! that touch it; their contracts are taken on trust from the `http` crate.

use vstd::prelude::*;
use crate::address::RealIp;

verus! {

#[verifier::external_type_specification]
#[verifier::external_body]
pub struct ExParts(http::request::Parts);

/// The headers of a request, as a lookup by name sees them: each name under
/// which `http::HeaderMap::get` finds a value, with the bytes of the first
/// value held under it. Names that differ only in case find the same value.
pub uninterp spec fn header_values(parts: http::request::Parts) -> Map<Seq<char>, Seq<u8>>;

/// The resolved address that the request's extensions hold, if one was stored.
pub uninterp spec fn stored_ip(parts: http::request::Parts) -> Option<RealIp>;

/// Calls `http::HeaderMap::get` on the request's headers with `name`, and
/// `http::HeaderValue::as_bytes` on what it finds.
///
/// Trusted: the result is the entry of `header_values` under `name`. `get`
/// returns the first value stored under a name and `None` for a name that is
/// absent or is no header name at all; it does not panic.
#[verifier::external_body]
pub(crate) fn first_header_value(parts: &http::request::Parts, name: &str) -> (value: Option<
    Vec<u8>,
>)
    ensures
        value is Some <==> header_values(*parts).contains_key(name@),
        value is Some ==> value->0@ == header_values(*parts)[name@],
{
    match parts.headers.get(name) {
        Some(found) => Some(found.as_bytes().to_vec()),
        None => None,
    }
}

/// Calls `http::Extensions::get` on the request's extensions, for a
/// [`RealIp`].
///
/// Trusted: the result is `stored_ip` of the request.
#[verifier::external_body]
pub(crate) fn stored_real_ip(parts: &http::request::Parts) -> (ip: Option<RealIp>)
    ensures
        ip == stored_ip(*parts),
{
    parts.extensions.get::<RealIp>().copied()
}

/// Calls `http::Extensions::insert` on the request's extensions.
///
/// Trusted: afterwards the extensions hold `ip`, in place of any address
/// stored before, and the headers are what they were.
#[verifier::external_body]
pub(crate) fn store_real_ip(parts: &mut http::request::Parts, ip: RealIp)
    ensures
        stored_ip(*final(parts)) == Some(ip),
        header_values(*final(parts)) == header_values(*old(parts)),
{
    parts.extensions.insert(ip);
}

} // verus!
