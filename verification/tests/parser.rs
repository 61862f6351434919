use real_ip::address::IpAddress;
use real_ip::parser::{
    find_delimiter, find_dot, is_text, parse_ip, parse_ipv4, parse_octet, trim_blanks,
};

#[test]
fn plain_address_is_read() {
    assert_eq!(parse_ip(b"203.0.113.7"), Some(IpAddress::V4(203, 0, 113, 7)));
    assert_eq!(parse_ip(b"0.0.0.0"), Some(IpAddress::V4(0, 0, 0, 0)));
    assert_eq!(parse_ip(b"255.255.255.255"), Some(IpAddress::V4(255, 255, 255, 255)));
}

#[test]
fn first_entry_of_a_chain_wins() {
    assert_eq!(parse_ip(b"203.0.113.7, 70.41.3.18"), Some(IpAddress::V4(203, 0, 113, 7)));
    assert_eq!(parse_ip(b"203.0.113.7,70.41.3.18,10.0.0.1"), Some(IpAddress::V4(203, 0, 113, 7)));
}

#[test]
fn first_entry_decides_even_when_malformed() {
    assert_eq!(parse_ip(b"unknown, 70.41.3.18"), None);
    assert_eq!(parse_ip(b", 70.41.3.18"), None);
}

#[test]
fn port_is_split_off() {
    assert_eq!(parse_ip(b"203.0.113.7:4711"), Some(IpAddress::V4(203, 0, 113, 7)));
    assert_eq!(parse_ip(b"203.0.113.7:4711, 70.41.3.18:80"), Some(IpAddress::V4(203, 0, 113, 7)));
}

#[test]
fn blanks_around_the_candidate_are_trimmed() {
    assert_eq!(parse_ip(b"  203.0.113.7  "), Some(IpAddress::V4(203, 0, 113, 7)));
    assert_eq!(parse_ip(b"\t203.0.113.7 \t, 70.41.3.18"), Some(IpAddress::V4(203, 0, 113, 7)));
    assert_eq!(parse_ip(b" 203.0.113.7 :80"), Some(IpAddress::V4(203, 0, 113, 7)));
}

#[test]
fn blanks_inside_the_candidate_are_not() {
    assert_eq!(parse_ip(b"203.0. 113.7"), None);
    assert_eq!(parse_ip(b"203 .0.113.7"), None);
}

#[test]
fn ipv6_literals_do_not_survive_the_split() {
    assert_eq!(parse_ip(b"2001:db8:85a3::8a2e:370:7334"), None);
    assert_eq!(parse_ip(b"::1"), None);
    assert_eq!(parse_ip(b"[2001:db8::1]:443"), None);
    assert_eq!(parse_ip(b"::ffff:203.0.113.7"), None);
}

#[test]
fn empty_and_blank_values_hold_nothing() {
    assert_eq!(parse_ip(b""), None);
    assert_eq!(parse_ip(b"   "), None);
    assert_eq!(parse_ip(b","), None);
    assert_eq!(parse_ip(b":"), None);
}

#[test]
fn hostnames_hold_nothing() {
    assert_eq!(parse_ip(b"example.com"), None);
    assert_eq!(parse_ip(b"localhost"), None);
    assert_eq!(parse_ip(b"a.b.c.d"), None);
}

#[test]
fn malformed_literals_hold_nothing() {
    assert_eq!(parse_ip(b"203.0.113"), None);
    assert_eq!(parse_ip(b"203.0.113.7.1"), None);
    assert_eq!(parse_ip(b"203.0.113."), None);
    assert_eq!(parse_ip(b".203.0.113"), None);
    assert_eq!(parse_ip(b"203..113.7"), None);
    assert_eq!(parse_ip(b"256.0.113.7"), None);
    assert_eq!(parse_ip(b"203.0.113.1000"), None);
    assert_eq!(parse_ip(b"203.0.113.07"), None);
    assert_eq!(parse_ip(b"203.00.113.7"), None);
    assert_eq!(parse_ip(b"203.0.113.-7"), None);
    assert_eq!(parse_ip(b"203.0.113.7/24"), None);
    assert_eq!(parse_ip(b"+203.0.113.7"), None);
}

#[test]
fn bytes_that_are_no_text_hold_nothing() {
    assert_eq!(parse_ip(&[0xff]), None);
    assert_eq!(parse_ip(b"203.0.113.7,\xff"), None);
    assert_eq!(parse_ip(b"\n203.0.113.7"), None);
    assert_eq!(parse_ip(b"203.0.113.7\x7f"), None);
}

#[test]
fn text_is_tabs_and_printable_ascii() {
    assert!(is_text(b""));
    assert!(is_text(b"a b\tc~"));
    assert!(!is_text(b"a\x1fb"));
    assert!(!is_text(b"a\x7fb"));
    assert!(!is_text(b"caf\xc3\xa9"));
}

#[test]
fn delimiter_is_the_first_comma_or_colon() {
    assert_eq!(find_delimiter(b"ab,cd:ef", 0), 2);
    assert_eq!(find_delimiter(b"ab,cd:ef", 3), 5);
    assert_eq!(find_delimiter(b"ab:cd,ef", 0), 2);
    assert_eq!(find_delimiter(b"abcdef", 0), 6);
    assert_eq!(find_delimiter(b"abcdef", 6), 6);
    assert_eq!(find_delimiter(b"", 0), 0);
}

#[test]
fn dot_is_found_from_the_start_given() {
    assert_eq!(find_dot(b"1.22.3", 0), 1);
    assert_eq!(find_dot(b"1.22.3", 2), 4);
    assert_eq!(find_dot(b"1.22.3", 5), 6);
    assert_eq!(find_dot(b"1.22.3", 9), 6);
}

#[test]
fn trim_takes_blanks_from_both_ends() {
    assert_eq!(trim_blanks(b" \t a b \t"), b"a b");
    assert_eq!(trim_blanks(b"a"), b"a");
    assert_eq!(trim_blanks(b"  \t "), b"");
    assert_eq!(trim_blanks(b""), b"");
    assert_eq!(trim_blanks(b"\na "), b"\na");
}

#[test]
fn octet_is_one_to_three_digits_up_to_255() {
    assert_eq!(parse_octet(b"0"), Some(0));
    assert_eq!(parse_octet(b"7"), Some(7));
    assert_eq!(parse_octet(b"42"), Some(42));
    assert_eq!(parse_octet(b"255"), Some(255));
    assert_eq!(parse_octet(b"256"), None);
    assert_eq!(parse_octet(b"999"), None);
    assert_eq!(parse_octet(b"0255"), None);
    assert_eq!(parse_octet(b"00"), None);
    assert_eq!(parse_octet(b"01"), None);
    assert_eq!(parse_octet(b""), None);
    assert_eq!(parse_octet(b"1a"), None);
    assert_eq!(parse_octet(b" 1"), None);
}

#[test]
fn dotted_decimal_is_four_octets() {
    assert_eq!(parse_ipv4(b"70.41.3.18"), Some(IpAddress::V4(70, 41, 3, 18)));
    assert_eq!(parse_ipv4(b"1.2.3.4"), Some(IpAddress::V4(1, 2, 3, 4)));
    assert_eq!(parse_ipv4(b"1.2.3"), None);
    assert_eq!(parse_ipv4(b"1.2.3.4.5"), None);
    assert_eq!(parse_ipv4(b" 1.2.3.4"), None);
    assert_eq!(parse_ipv4(b""), None);
    assert_eq!(parse_ipv4(b"..."), None);
}
