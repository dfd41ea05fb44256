use shadow_dns::addr::{IpAddr, Ipv4Addr, Ipv6Addr};

fn v6(s: [u16; 8]) -> IpAddr {
    IpAddr::V6(Ipv6Addr::new(s[0], s[1], s[2], s[3], s[4], s[5], s[6], s[7]))
}

#[test]
fn ipv6_text() {
    let cases: Vec<([u16; 8], &str)> = vec![
        ([0, 0, 0, 0, 0, 0, 0, 0], "::"),
        ([0, 0, 0, 0, 0, 0, 0, 1], "::1"),
        ([0x2001, 0xdb8, 0, 0, 0, 0, 0, 1], "2001:db8::1"),
        ([0, 0, 0, 0, 0, 0xffff, 0xc00a, 0x2ff], "::ffff:192.10.2.255"),
        ([0, 0, 0, 0, 0, 0, 0xc00a, 0x2ff], "::c00a:2ff"),
        ([1, 0, 0, 2, 0, 0, 0, 3], "1:0:0:2::3"),
        ([1, 0, 0, 2, 0, 0, 3, 4], "1::2:0:0:3:4"),
        ([1, 0, 2, 0, 3, 0, 4, 0], "1:0:2:0:3:0:4:0"),
        ([0, 1, 2, 3, 4, 5, 6, 0], "0:1:2:3:4:5:6:0"),
        ([0xffff; 8], "ffff:ffff:ffff:ffff:ffff:ffff:ffff:ffff"),
        ([0xfe80, 0, 0, 0, 0x1ff, 0xfe23, 0x4567, 0x890a], "fe80::1ff:fe23:4567:890a"),
        ([0xff02, 0, 0, 0, 0, 0, 0, 1], "ff02::1"),
        ([0, 0, 0, 0, 0, 0xffff, 0, 0], "::ffff:0.0.0.0"),
        ([0, 0, 0, 0, 0, 0xfffe, 0, 0], "::fffe:0:0"),
        ([0xa, 0xbc, 0xdef, 0x1234, 0, 0, 0, 0], "a:bc:def:1234::"),
        ([1, 2, 3, 4, 5, 6, 7, 8], "1:2:3:4:5:6:7:8"),
        ([1, 0, 0, 0, 0, 0, 0, 0], "1::"),
        ([0, 0, 1, 0, 0, 0, 0, 0], "0:0:1::"),
    ];
    for (segs, text) in cases {
        assert_eq!(v6(segs).to_text(), text, "segments {:?}", segs);
    }
}

#[test]
fn ipv4_text() {
    assert_eq!(IpAddr::V4(Ipv4Addr::new(0, 0, 0, 0)).to_text(), "0.0.0.0");
    assert_eq!(IpAddr::V4(Ipv4Addr::new(255, 255, 255, 255)).to_text(), "255.255.255.255");
    assert_eq!(IpAddr::V4(Ipv4Addr::new(100, 1, 2, 3)).to_text(), "100.1.2.3");
    assert_eq!(IpAddr::V4(Ipv4Addr::new(10, 0, 99, 9)).to_text(), "10.0.99.9");
    assert_eq!(IpAddr::V4(Ipv4Addr::new(1, 20, 100, 249)).to_text(), "1.20.100.249");
}

#[test]
fn ipv4_classification() {
    assert!(Ipv4Addr::new(0, 0, 0, 0).is_unspecified());
    assert!(!Ipv4Addr::new(0, 0, 0, 1).is_unspecified());
    assert!(Ipv4Addr::new(127, 0, 0, 1).is_loopback());
    assert!(Ipv4Addr::new(127, 45, 3, 9).is_loopback());
    assert!(!Ipv4Addr::new(128, 0, 0, 1).is_loopback());
    assert!(Ipv4Addr::new(255, 255, 255, 255).is_broadcast());
    assert!(!Ipv4Addr::new(255, 255, 255, 254).is_broadcast());
    assert!(Ipv4Addr::new(224, 0, 0, 1).is_multicast());
    assert!(Ipv4Addr::new(239, 255, 255, 255).is_multicast());
    assert!(!Ipv4Addr::new(223, 255, 255, 255).is_multicast());
    assert!(!Ipv4Addr::new(240, 0, 0, 0).is_multicast());
}

#[test]
fn ipv6_classification() {
    assert!(v6([0; 8]).is_unspecified());
    assert!(!v6([0, 0, 0, 0, 0, 0, 0, 1]).is_unspecified());
    assert!(v6([0, 0, 0, 0, 0, 0, 0, 1]).is_loopback());
    assert!(!v6([0, 0, 0, 0, 0, 0, 0, 2]).is_loopback());
    assert!(v6([0xff02, 0, 0, 0, 0, 0, 0, 1]).is_multicast());
    assert!(v6([0xff00, 0, 0, 0, 0, 0, 0, 0]).is_multicast());
    assert!(!v6([0xfe80, 0, 0, 0, 0, 0, 0, 1]).is_multicast());
}

#[test]
fn address_order() {
    let a = IpAddr::V4(Ipv4Addr::new(100, 1, 2, 3));
    let b = IpAddr::V4(Ipv4Addr::new(100, 1, 2, 4));
    let c = IpAddr::V4(Ipv4Addr::new(200, 3, 2, 1));
    let d = v6([0, 0, 0, 0, 0, 0, 0, 1]);
    let e = v6([0x2001, 0xdb8, 0, 0, 0, 0, 0, 1]);
    let ordered = [a, b, c, d, e];
    for (i, x) in ordered.iter().enumerate() {
        for (j, y) in ordered.iter().enumerate() {
            assert_eq!(x.precedes(y), i < j);
        }
    }
}

#[test]
fn constructors_give_named_addresses() {
    assert_eq!(Ipv4Addr::unspecified(), Ipv4Addr::new(0, 0, 0, 0));
    assert_eq!(Ipv4Addr::localhost(), Ipv4Addr::new(127, 0, 0, 1));
    assert_eq!(Ipv4Addr::broadcast(), Ipv4Addr::new(255, 255, 255, 255));
    assert_eq!(Ipv4Addr::new(100, 1, 2, 3).bits, 0x6401_0203);
    assert_eq!(
        Ipv6Addr::new(0x2001, 0xdb8, 0, 0, 0, 0, 0, 1).bits,
        0x2001_0db8_0000_0000_0000_0000_0000_0001
    );
}
