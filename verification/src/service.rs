//! The caching stage: it resolves the address once, before the inner stage
//! runs, and stores it with the request for every later reader.

use vstd::prelude::*;
use crate::address::{IpAddrRejection, RealIp};
use crate::request::{header_values, store_real_ip, stored_ip};
use crate::resolver::{extract, get_ip_from_parts, resolve};

verus! {

/// A stage that stores the resolved address with the request, where there is
/// one, before its inner stage sees the request.
#[derive(Debug)]
pub struct RealIpService<I>(pub I);

/// Makes a [`RealIpService`] around an inner stage.
#[derive(Debug, Clone, Copy)]
pub struct RealIpLayer;

/// What the request holds as its stored address once the caching stage has
/// seen it: the resolved address where there is one, else what it held.
pub open spec fn stored_after(
    stored: Option<RealIp>,
    headers: Map<Seq<char>, Seq<u8>>,
    peer: Option<RealIp>,
) -> Option<RealIp> {
    match resolve(headers, peer) {
        Some(ip) => Some(ip),
        None => stored,
    }
}

impl<I: Clone> Clone for RealIpService<I> {
    fn clone(&self) -> (copy: Self)
        ensures
            call_ensures(I::clone, (&self.0,), copy.0),
    {
        RealIpService(self.0.clone())
    }
}

impl<I: Copy> Copy for RealIpService<I> {}

impl RealIpLayer {
    /// Wraps `inner` in the caching stage.
    pub fn layer<I>(&self, inner: I) -> (service: RealIpService<I>)
        ensures
            service.0 == inner,
    {
        RealIpService(inner)
    }
}

impl<I> RealIpService<I> {
    /// The inner stage.
    pub fn into_inner(self) -> (inner: I)
        ensures
            inner == self.0,
    {
        self.0
    }

    /// The stage's own step, taken before the inner stage is called:
    /// resolves the address of the client and stores it with the request.
    ///
    /// Where nothing resolves the request is left as it is: that is no
    /// failure here, and a reader that needs an address deals with it.
    /// Returns what was resolved.
    pub fn prepare(&self, parts: &mut http::request::Parts, peer: Option<RealIp>) -> (resolved:
        Option<RealIp>)
        ensures
            resolved == resolve(header_values(*old(parts)), peer),
            header_values(*final(parts)) == header_values(*old(parts)),
            stored_ip(*final(parts)) == stored_after(
                stored_ip(*old(parts)),
                header_values(*old(parts)),
                peer,
            ),
            resolved is None ==> *final(parts) == *old(parts),
    {
        let resolved = get_ip_from_parts(parts, peer);
        if let Some(ip) = resolved {
            store_real_ip(parts, ip);
        }
        resolved
    }
}

/// Once the caching stage has stored an address, an extraction returns that
/// address, which is the resolved one, and reads no header for it.
pub proof fn lemma_extraction_returns_cached(
    stored: Option<RealIp>,
    headers: Map<Seq<char>, Seq<u8>>,
    other_headers: Map<Seq<char>, Seq<u8>>,
    peer: Option<RealIp>,
    other_peer: Option<RealIp>,
)
    requires
        resolve(headers, peer) is Some,
    ensures
        extract(stored_after(stored, headers, peer), other_headers, other_peer) == Ok::<
            RealIp,
            IpAddrRejection,
        >(resolve(headers, peer)->0),
{
}

/// For a request that held no stored address when the caching stage saw it,
/// an extraction after the stage returns what an extraction without the
/// stage returns.
pub proof fn lemma_extraction_agrees_with_resolution(
    headers: Map<Seq<char>, Seq<u8>>,
    peer: Option<RealIp>,
)
    ensures
        extract(stored_after(None, headers, peer), headers, peer) == extract(None, headers, peer),
{
}

} // verus!
