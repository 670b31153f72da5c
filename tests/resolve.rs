use classify_client::{forwarded_chain, resolve, resolve_header, IpAddress, IpNet};

fn v4(s: &str) -> IpAddress {
    IpAddress::parse(s).unwrap()
}

fn host(s: &str) -> IpNet {
    IpNet::host(v4(s))
}

fn chain(items: &[&str]) -> Vec<String> {
    items.iter().map(|s| s.to_string()).collect()
}

#[test]
fn untrusted_entry_before_trusted_tail_is_the_client() {
    let trusted = vec![host("192.168.1.1"), host("203.0.113.5")];
    let c = chain(&["198.51.100.7", "203.0.113.5", "192.168.1.1"]);
    assert_eq!(resolve(&c, &trusted, v4("10.0.0.9")), v4("198.51.100.7"));
}

#[test]
fn all_trusted_falls_back_to_peer() {
    let trusted = vec![host("203.0.113.5")];
    let c = chain(&["203.0.113.5"]);
    assert_eq!(resolve(&c, &trusted, v4("10.0.0.9")), v4("10.0.0.9"));
}

#[test]
fn empty_chain_gives_peer() {
    let trusted = vec![host("203.0.113.5")];
    assert_eq!(resolve(&Vec::new(), &trusted, v4("10.0.0.9")), v4("10.0.0.9"));
}

#[test]
fn malformed_entry_falls_back_to_peer() {
    let trusted = vec![host("203.0.113.5")];
    let c = chain(&["not-an-ip", "203.0.113.5"]);
    assert_eq!(resolve(&c, &trusted, v4("10.0.0.9")), v4("10.0.0.9"));
}

#[test]
fn resolution_is_deterministic() {
    let trusted = vec![IpNet::parse("10.0.0.0/8").unwrap()];
    let c = chain(&["1.2.3.4", "10.1.1.1"]);
    let a = resolve(&c, &trusted, v4("10.0.0.9"));
    let b = resolve(&c, &trusted, v4("10.0.0.9"));
    assert_eq!(a, b);
    assert_eq!(a, v4("1.2.3.4"));
}

#[test]
fn header_is_split_and_trimmed() {
    let c = forwarded_chain(" 198.51.100.7,203.0.113.5 ,\t192.168.1.1");
    assert_eq!(c, chain(&["198.51.100.7", "203.0.113.5", "192.168.1.1"]));
    assert_eq!(forwarded_chain(""), chain(&[""]));
    assert_eq!(forwarded_chain("a,,b"), chain(&["a", "", "b"]));
}

#[test]
fn header_resolution_through_cidr() {
    let trusted = vec![IpNet::parse("203.0.113.0/24").unwrap(), IpNet::parse("2001:db8::/32").unwrap()];
    let peer = v4("10.0.0.9");
    assert_eq!(
        resolve_header("198.51.100.7, 203.0.113.77, 2001:db8::1", &trusted, peer),
        v4("198.51.100.7")
    );
    assert_eq!(resolve_header("203.0.113.1", &trusted, peer), peer);
    assert_eq!(resolve_header("", &trusted, peer), peer);
}

#[test]
fn parses_ipv4() {
    assert_eq!(IpAddress::parse("192.168.1.1"), Some(IpAddress::V4(0xC0A8_0101)));
    assert_eq!(IpAddress::parse("0.0.0.0"), Some(IpAddress::V4(0)));
    assert_eq!(IpAddress::parse("255.255.255.255"), Some(IpAddress::V4(u32::MAX)));
    assert_eq!(IpAddress::parse("256.1.1.1"), None);
    assert_eq!(IpAddress::parse("01.1.1.1"), None);
    assert_eq!(IpAddress::parse("1.1.1"), None);
    assert_eq!(IpAddress::parse("1.1.1.1.1"), None);
    assert_eq!(IpAddress::parse(""), None);
    assert_eq!(IpAddress::parse("not-an-ip"), None);
}

#[test]
fn parses_ipv6() {
    assert_eq!(IpAddress::parse("::"), Some(IpAddress::V6(0)));
    assert_eq!(IpAddress::parse("::1"), Some(IpAddress::V6(1)));
    assert_eq!(
        IpAddress::parse("2001:db8::1"),
        Some(IpAddress::V6(0x2001_0db8_0000_0000_0000_0000_0000_0001))
    );
    assert_eq!(
        IpAddress::parse("2001:DB8:0:0:8:800:200C:417A"),
        Some(IpAddress::V6(0x2001_0db8_0000_0000_0008_0800_200c_417a))
    );
    assert_eq!(IpAddress::parse("fe80::"), Some(IpAddress::V6(0xfe80 << 112)));
    assert_eq!(IpAddress::parse("1:2:3:4:5:6:7"), None);
    assert_eq!(IpAddress::parse("1::2::3"), None);
    assert_eq!(IpAddress::parse(":::"), None);
    assert_eq!(IpAddress::parse("12345::"), None);
    assert_eq!(IpAddress::parse("1:2:3:4:5:6:7:8:9"), None);
    assert_eq!(IpAddress::parse("1:2:3:4::5:6:7:8"), None);
}

#[test]
fn networks_hold_their_prefix() {
    let n = IpNet::parse("10.0.0.0/8").unwrap();
    assert!(n.contains(v4("10.255.0.1")));
    assert!(!n.contains(v4("11.0.0.1")));
    assert!(!n.contains(IpAddress::parse("::a00:1").unwrap()));
    let all = IpNet::parse("0.0.0.0/0").unwrap();
    assert!(all.contains(v4("8.8.8.8")));
    assert_eq!(IpNet::parse("10.0.0.0/33"), None);
    assert_eq!(IpNet::parse("10.0.0.0/08"), None);
    assert_eq!(IpNet::parse("10.0.0.0/"), None);
    assert_eq!(IpNet::parse("1.2.3.4"), Some(IpNet { addr: v4("1.2.3.4"), prefix: 32 }));
    let v6 = IpNet::parse("2001:db8::/127").unwrap();
    assert!(v6.contains(IpAddress::parse("2001:db8::1").unwrap()));
    assert!(!v6.contains(IpAddress::parse("2001:db8::2").unwrap()));
    assert_eq!(IpNet::new(v4("1.2.3.4"), 33), None);
    assert_eq!(IpNet::new(v4("1.2.3.4"), 24), Some(IpNet { addr: v4("1.2.3.4"), prefix: 24 }));
}

#[test]
fn parses_ipv6_with_dotted_tail() {
    assert_eq!(IpAddress::parse("::ffff:1.2.3.4"), Some(IpAddress::V6(0xffff_0102_0304)));
    assert_eq!(IpAddress::parse("::1.2.3.4"), Some(IpAddress::V6(0x0102_0304)));
    assert_eq!(
        IpAddress::parse("1:2:3:4:5:6:1.2.3.4"),
        Some(IpAddress::V6(0x0001_0002_0003_0004_0005_0006_0102_0304))
    );
    assert_eq!(IpAddress::parse("1:2:3:4:5:6:7:1.2.3.4"), None);
    assert_eq!(IpAddress::parse("1.2.3.4::"), None);
    assert_eq!(IpAddress::parse("::1.2.3.4:5"), None);
    assert_eq!(IpAddress::parse("::1.2.3.256"), None);
}
