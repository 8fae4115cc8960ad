use netmon::classify::{ipv4_from_octets, is_rfc1918_private, should_track_ip, Cidr};

#[test]
fn octets_build_the_expected_address() {
    assert_eq!(ipv4_from_octets(0, 0, 0, 0), 0);
    assert_eq!(ipv4_from_octets(255, 255, 255, 255), u32::MAX);
    assert_eq!(ipv4_from_octets(192, 168, 1, 5), 0xC0A8_0105);
    assert_eq!(ipv4_from_octets(8, 8, 8, 8), 0x0808_0808);
}

#[test]
fn rfc1918_ranges_are_private() {
    assert!(is_rfc1918_private(ipv4_from_octets(10, 0, 0, 0)));
    assert!(is_rfc1918_private(ipv4_from_octets(10, 255, 255, 255)));
    assert!(is_rfc1918_private(ipv4_from_octets(172, 16, 0, 0)));
    assert!(is_rfc1918_private(ipv4_from_octets(172, 31, 255, 255)));
    assert!(is_rfc1918_private(ipv4_from_octets(192, 168, 0, 1)));
    assert!(is_rfc1918_private(ipv4_from_octets(192, 168, 255, 255)));
}

#[test]
fn public_addresses_are_not_private() {
    assert!(!is_rfc1918_private(ipv4_from_octets(9, 255, 255, 255)));
    assert!(!is_rfc1918_private(ipv4_from_octets(11, 0, 0, 0)));
    assert!(!is_rfc1918_private(ipv4_from_octets(172, 15, 255, 255)));
    assert!(!is_rfc1918_private(ipv4_from_octets(172, 32, 0, 0)));
    assert!(!is_rfc1918_private(ipv4_from_octets(192, 167, 0, 1)));
    assert!(!is_rfc1918_private(ipv4_from_octets(8, 8, 8, 8)));
}

#[test]
fn cidr_contains_matches_the_prefix() {
    let net = Cidr::new(ipv4_from_octets(192, 168, 1, 0), 24).unwrap();
    assert!(net.contains(ipv4_from_octets(192, 168, 1, 5)));
    assert!(net.contains(ipv4_from_octets(192, 168, 1, 255)));
    assert!(!net.contains(ipv4_from_octets(192, 168, 2, 5)));
    assert!(!net.contains(ipv4_from_octets(10, 0, 1, 5)));
}

#[test]
fn cidr_edge_prefixes() {
    // A zero prefix matches everything.
    let all = Cidr::new(0, 0).unwrap();
    assert!(all.contains(0));
    assert!(all.contains(u32::MAX));
    // A host prefix matches exactly one address.
    let host = Cidr::new(ipv4_from_octets(10, 1, 2, 3), 32).unwrap();
    assert!(host.contains(ipv4_from_octets(10, 1, 2, 3)));
    assert!(!host.contains(ipv4_from_octets(10, 1, 2, 4)));
    // A prefix longer than an address is rejected.
    assert!(Cidr::new(0, 33).is_none());
}

#[test]
fn filter_overrides_the_default_policy() {
    let net = Cidr::new(ipv4_from_octets(203, 0, 113, 0), 24);
    // The filter admits its own network even though it is public ...
    assert!(should_track_ip(ipv4_from_octets(203, 0, 113, 9), net));
    // ... and excludes private addresses outside it.
    assert!(!should_track_ip(ipv4_from_octets(192, 168, 1, 5), net));
    // Without a filter the private-range default applies.
    assert!(should_track_ip(ipv4_from_octets(192, 168, 1, 5), None));
    assert!(!should_track_ip(ipv4_from_octets(203, 0, 113, 9), None));
}
