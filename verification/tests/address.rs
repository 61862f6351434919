use real_ip::address::{IpAddrRejection, IpAddress, RealIp, RealIpPrivacyMask};
use std::collections::HashSet;

#[test]
fn mask_clears_the_interface_identifier() {
    let ip = RealIp(IpAddress::V6(0x2001_0db8_85a3_0000_0000_8a2e_0370_7334));
    let masked = RealIpPrivacyMask::from(ip);
    assert_eq!(masked.0, RealIp(IpAddress::V6(0x2001_0db8_85a3_0000_0000_0000_0000_0000)));
    assert_eq!(masked.real_ip().ip(), IpAddress::V6(0x2001_0db8_85a3_0000_0000_0000_0000_0000));
}

#[test]
fn mask_is_idempotent() {
    let ip = RealIp(IpAddress::V6(0x2001_0db8_85a3_0000_0000_8a2e_0370_7334));
    let once = RealIpPrivacyMask::from(ip);
    let twice = RealIpPrivacyMask::from(once.0);
    assert_eq!(once, twice);
    let all = RealIp(IpAddress::V6(u128::MAX));
    let once = RealIpPrivacyMask::from(all);
    assert_eq!(once.0, RealIp(IpAddress::V6(0xFFFF_FFFF_FFFF_FFFF_0000_0000_0000_0000)));
    assert_eq!(RealIpPrivacyMask::from(once.0), once);
}

#[test]
fn mask_keeps_an_ipv4_address() {
    let ip = RealIp(IpAddress::V4(203, 0, 113, 7));
    assert_eq!(RealIpPrivacyMask::from(ip).0, ip);
    let ip = RealIp(IpAddress::V4(255, 255, 255, 255));
    assert_eq!(RealIpPrivacyMask::from(ip).0, ip);
    let ip = RealIp(IpAddress::V4(0, 0, 0, 0));
    assert_eq!(RealIpPrivacyMask::from(ip).0, ip);
}

#[test]
fn mask_keeps_an_address_without_interface_identifier() {
    let ip = RealIp(IpAddress::V6(0x2001_0db8_0000_0001_0000_0000_0000_0000));
    assert_eq!(RealIpPrivacyMask::from(ip).0, ip);
    assert_eq!(IpAddress::V6(0).masked(), IpAddress::V6(0));
    assert_eq!(IpAddress::V6(1).masked(), IpAddress::V6(0));
}

#[test]
fn addresses_of_one_prefix_share_a_mask() {
    let a = RealIp(IpAddress::V6(0x2001_0db8_85a3_0000_0000_8a2e_0370_7334));
    let b = RealIp(IpAddress::V6(0x2001_0db8_85a3_0000_1111_2222_3333_4444));
    let c = RealIp(IpAddress::V6(0x2001_0db8_85a3_0001_0000_8a2e_0370_7334));
    assert_eq!(RealIpPrivacyMask::from(a), RealIpPrivacyMask::from(b));
    assert_ne!(RealIpPrivacyMask::from(a), RealIpPrivacyMask::from(c));
}

#[test]
fn addresses_are_ordered_and_hashable() {
    let low = RealIp(IpAddress::V4(10, 0, 0, 1));
    let high = RealIp(IpAddress::V4(10, 0, 1, 0));
    let six = RealIp(IpAddress::V6(1));
    assert!(low < high);
    assert!(high < six);
    assert!(RealIp(IpAddress::V4(255, 255, 255, 255)) < RealIp(IpAddress::V6(0)));
    let mut seen = HashSet::new();
    assert!(seen.insert(low));
    assert!(!seen.insert(low));
    assert!(seen.insert(six));
    let copy = low;
    assert_eq!(copy, low);
}

#[test]
fn rejection_is_one_value() {
    assert_eq!(IpAddrRejection, IpAddrRejection);
    assert_eq!(format!("{:?}", IpAddrRejection), "IpAddrRejection");
}
