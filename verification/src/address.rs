//! Addresses, the resolved client address, and its privacy mask.

use vstd::prelude::*;

verus! {

/// The bits of an IPv6 address that the privacy mask keeps: the leading 64,
/// which hold the routing prefix.
pub const ROUTING_PREFIX_MASK: u128 = 0xFFFF_FFFF_FFFF_FFFF_0000_0000_0000_0000u128;

/// A validated network address.
///
/// An IPv4 address is its four octets, first octet first. An IPv6 address is
/// its 128 bits in network order, so that `2001:db8::` is
/// `0x2001_0db8_0000_0000_0000_0000_0000_0000`.
///
/// The derived order puts every IPv4 address before every IPv6 address and
/// orders each family by its octets, first octet first.
#[derive(Clone, Copy, Debug, PartialEq, Eq, PartialOrd, Ord, Hash, Structural)]
pub enum IpAddress {
    V4(u8, u8, u8, u8),
    V6(u128),
}

/// The address with the interface identifier of an IPv6 address cleared:
/// the trailing 64 bits become zero, the leading 64 stay. An IPv4 address
/// is left as it is.
pub open spec fn mask_address(address: IpAddress) -> IpAddress {
    match address {
        IpAddress::V4(a, b, c, d) => IpAddress::V4(a, b, c, d),
        IpAddress::V6(bits) => IpAddress::V6(bits & ROUTING_PREFIX_MASK),
    }
}

impl IpAddress {
    pub open spec fn is_ipv4(self) -> bool {
        self is V4
    }

    /// Clears the interface identifier of an IPv6 address.
    pub fn masked(self) -> (out: IpAddress)
        ensures
            out == mask_address(self),
    {
        match self {
            IpAddress::V4(a, b, c, d) => IpAddress::V4(a, b, c, d),
            IpAddress::V6(bits) => IpAddress::V6(bits & ROUTING_PREFIX_MASK),
        }
    }
}

/// The address of the client, as far as the request tells it.
#[derive(Clone, Copy, Debug, PartialEq, Eq, PartialOrd, Ord, Hash, Structural)]
pub struct RealIp(pub IpAddress);

/// Like [`RealIp`], but with the last 64 bits of any IPv6 address set to
/// zero, so that clients that rotate their interface identifier are not
/// taken for different clients.
///
/// Values made by `from` are always masked; see [`RealIpPrivacyMask::wf`].
#[derive(Clone, Copy, Debug, PartialEq, Eq, PartialOrd, Ord, Hash, Structural)]
pub struct RealIpPrivacyMask(pub RealIp);

/// No address was found for the request.
#[derive(Clone, Copy, Debug, PartialEq, Eq, Hash, Structural)]
pub struct IpAddrRejection;

impl RealIp {
    /// The address itself.
    pub fn ip(&self) -> (address: IpAddress)
        ensures
            address == self.0,
    {
        self.0
    }
}

impl RealIpPrivacyMask {
    /// What `from` makes of a resolved address.
    pub open spec fn mask(ip: RealIp) -> RealIpPrivacyMask {
        RealIpPrivacyMask(RealIp(mask_address(ip.0)))
    }

    /// The value holds a masked address: masking it again changes nothing.
    pub open spec fn wf(self) -> bool {
        mask_address(self.0.0) == self.0.0
    }

    /// The masked address.
    pub fn real_ip(&self) -> (ip: RealIp)
        ensures
            ip == self.0,
    {
        self.0
    }
}

impl From<RealIp> for RealIpPrivacyMask {
    fn from(ip: RealIp) -> (masked: Self) {
        RealIpPrivacyMask(RealIp(ip.0.masked()))
    }
}

impl vstd::std_specs::convert::FromSpecImpl<RealIp> for RealIpPrivacyMask {
    open spec fn obeys_from_spec() -> bool {
        true
    }

    open spec fn from_spec(ip: RealIp) -> Self {
        RealIpPrivacyMask::mask(ip)
    }
}

/// Masking is idempotent: a masked address is its own mask.
pub proof fn lemma_mask_idempotent(address: IpAddress)
    ensures
        mask_address(mask_address(address)) == mask_address(address),
{
    match address {
        IpAddress::V4(_, _, _, _) => {},
        IpAddress::V6(bits) => {
            assert((bits & ROUTING_PREFIX_MASK) & ROUTING_PREFIX_MASK == bits & ROUTING_PREFIX_MASK)
                by (bit_vector);
        },
    }
}

/// Masking an IPv4 address is the identity.
pub proof fn lemma_mask_ipv4_identity(address: IpAddress)
    requires
        address.is_ipv4(),
    ensures
        mask_address(address) == address,
{
}

/// Every value that `from` makes is well formed, and making a mask of the
/// address it holds gives the same value again.
pub proof fn lemma_mask_wf(ip: RealIp)
    ensures
        RealIpPrivacyMask::mask(ip).wf(),
        RealIpPrivacyMask::mask(RealIpPrivacyMask::mask(ip).0) == RealIpPrivacyMask::mask(ip),
        ip.0.is_ipv4() ==> RealIpPrivacyMask::mask(ip).0 == ip,
{
    lemma_mask_idempotent(ip.0);
}

/// Masking keeps the leading 64 bits of an IPv6 address and clears the rest.
pub proof fn lemma_mask_keeps_prefix(bits: u128)
    ensures
        (bits & ROUTING_PREFIX_MASK) >> 64 == bits >> 64,
        (bits & ROUTING_PREFIX_MASK) & 0xFFFF_FFFF_FFFF_FFFFu128 == 0,
{
    assert((bits & ROUTING_PREFIX_MASK) >> 64 == bits >> 64) by (bit_vector);
    assert((bits & ROUTING_PREFIX_MASK) & 0xFFFF_FFFF_FFFF_FFFFu128 == 0) by (bit_vector);
}

} // verus!
