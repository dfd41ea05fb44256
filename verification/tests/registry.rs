use shadow_dns::addr::{IpAddr, Ipv4Addr, Ipv6Addr};
use shadow_dns::dns::{DnsBuilder, RegistrationError};
use shadow_dns::model::HostId;
use shadow_dns::probe::{errno_is, ipv6_loopback, ipv6_unspecified, ErrnoMismatch};

fn v4(a: u8, b: u8, c: u8, d: u8) -> IpAddr {
    IpAddr::V4(Ipv4Addr::new(a, b, c, d))
}

fn v6(s: [u16; 8]) -> IpAddr {
    IpAddr::V6(Ipv6Addr::new(s[0], s[1], s[2], s[3], s[4], s[5], s[6], s[7]))
}

#[test]
fn error_messages() {
    assert_eq!(
        RegistrationError::BroadcastAddrInvalid.message(),
        "broadcast address '255.255.255.255' is invalid in DNS"
    );
    assert_eq!(
        RegistrationError::LoopbackAddrInvalid(v4(127, 0, 0, 1)).message(),
        "loopback address '127.0.0.1' is invalid in DNS"
    );
    assert_eq!(
        RegistrationError::MulticastAddrInvalid(v6([0xff02, 0, 0, 0, 0, 0, 0, 1])).message(),
        "multicast address 'ff02::1' is invalid in DNS"
    );
    assert_eq!(
        RegistrationError::UnspecifiedAddrInvalid.message(),
        "unspecified address '0.0.0.0' is invalid in DNS"
    );
    assert_eq!(
        RegistrationError::NameInvalid(String::from("LocalHost")).message(),
        "name 'LocalHost' is invalid in DNS"
    );
    assert_eq!(
        RegistrationError::NameExists(String::from("myhost")).message(),
        "a DNS registration record already exists for name 'myhost'"
    );
    assert_eq!(
        RegistrationError::AddrExists(v4(100, 1, 2, 3)).message(),
        "a DNS registration record already exists for address '100.1.2.3'"
    );
}

#[test]
fn reserved_ipv6_addresses_refused() {
    let mut b = DnsBuilder::new();
    let id = HostId::from(3u32);
    assert_eq!(
        b.register(id, v6([0; 8]), String::from("h")),
        Err(RegistrationError::UnspecifiedAddrInvalid)
    );
    let lo = v6([0, 0, 0, 0, 0, 0, 0, 1]);
    assert_eq!(
        b.register(id, lo, String::from("h")),
        Err(RegistrationError::LoopbackAddrInvalid(lo))
    );
    let mc = v6([0xff02, 0, 0, 0, 0, 0, 0, 1]);
    assert_eq!(
        b.register(id, mc, String::from("h")),
        Err(RegistrationError::MulticastAddrInvalid(mc))
    );
    assert!(b.register(id, v6([0xfe80, 0, 0, 0, 0, 0, 0, 1]), String::from("h")).is_ok());
}

#[test]
fn localhost_name_refused_in_any_case() {
    let mut b = DnsBuilder::new();
    let id = HostId::from(3u32);
    for name in ["localhost", "LOCALHOST", "LocalHost", "localHOST"] {
        assert_eq!(
            b.register(id, v4(10, 0, 0, 1), String::from(name)),
            Err(RegistrationError::NameInvalid(String::from(name)))
        );
    }
    assert!(b.register(id, v4(10, 0, 0, 1), String::from("localhost2")).is_ok());
    assert!(b.register(id, v4(10, 0, 0, 2), String::from("localhos")).is_ok());
}

#[test]
fn refusals_come_in_order() {
    let mut b = DnsBuilder::new();
    let id = HostId::from(1u32);
    b.register(id, v4(10, 0, 0, 1), String::from("taken")).unwrap();
    // a loopback address is reported before the name
    assert_eq!(
        b.register(HostId::from(2u32), v4(127, 0, 0, 1), String::from("localhost")),
        Err(RegistrationError::LoopbackAddrInvalid(v4(127, 0, 0, 1)))
    );
    // an occupied address is reported before an occupied name
    assert_eq!(
        b.register(HostId::from(2u32), v4(10, 0, 0, 1), String::from("taken")),
        Err(RegistrationError::AddrExists(v4(10, 0, 0, 1)))
    );
}

#[test]
fn refused_registration_changes_nothing() {
    let mut b = DnsBuilder::new();
    let id = HostId::from(1u32);
    b.register(id, v4(10, 0, 0, 1), String::from("one")).unwrap();
    assert!(b.register(HostId::from(2u32), v4(10, 0, 0, 1), String::from("two")).is_err());
    assert!(b.register(HostId::from(2u32), v4(10, 0, 0, 2), String::from("one")).is_err());
    let dns = b.into_dns();
    assert_eq!(dns.addr_to_host_id(v4(10, 0, 0, 2)), None);
    assert_eq!(dns.name_to_addrs("two"), Vec::<IpAddr>::new());
    assert_eq!(dns.name_to_addrs("one"), vec![v4(10, 0, 0, 1)]);
    assert_eq!(
        dns.hosts_file_contents(),
        "127.0.0.1 localhost\n::1 localhost\n10.0.0.1 one\n"
    );
}

#[test]
fn hosts_file_independent_of_registration_order() {
    let regs = [
        (HostId::from(1u32), v6([0x2001, 0xdb8, 0, 0, 0, 0, 0, 1]), "a"),
        (HostId::from(1u32), v4(100, 1, 2, 3), "a"),
        (HostId::from(2u32), v4(20, 1, 2, 3), "b"),
        (HostId::from(3u32), v6([0xfe80, 0, 0, 0, 0, 0, 0, 9]), "c"),
    ];
    let mut forward = DnsBuilder::new();
    for (id, addr, name) in regs.iter() {
        forward.register(*id, *addr, String::from(*name)).unwrap();
    }
    let mut backward = DnsBuilder::new();
    for (id, addr, name) in regs.iter().rev() {
        backward.register(*id, *addr, String::from(*name)).unwrap();
    }
    let f = forward.into_dns();
    let b = backward.into_dns();
    let expected = "127.0.0.1 localhost\n::1 localhost\n20.1.2.3 b\n100.1.2.3 a\n2001:db8::1 a\nfe80::9 c\n";
    assert_eq!(f.hosts_file_contents(), expected);
    assert_eq!(b.hosts_file_contents(), expected);
    // lookups by name keep the registration order
    assert_eq!(
        f.name_to_addrs("a"),
        vec![v6([0x2001, 0xdb8, 0, 0, 0, 0, 0, 1]), v4(100, 1, 2, 3)]
    );
    assert_eq!(
        b.name_to_addrs("a"),
        vec![v4(100, 1, 2, 3), v6([0x2001, 0xdb8, 0, 0, 0, 0, 0, 1])]
    );
    assert_eq!(f.name_to_addr_v4("a"), Some(Ipv4Addr::new(100, 1, 2, 3)));
    assert_eq!(
        f.name_to_addr_v6("a"),
        Some(Ipv6Addr::new(0x2001, 0xdb8, 0, 0, 0, 0, 0, 1))
    );
    assert_eq!(f.name_to_addr_v6("b"), None);
}

#[test]
fn empty_registry_hosts_file() {
    let dns = DnsBuilder::default().into_dns();
    assert_eq!(dns.hosts_file_contents(), "127.0.0.1 localhost\n::1 localhost\n");
    assert_eq!(dns.addr_to_name(v4(1, 2, 3, 4)), None);
}

#[test]
fn names_with_whitespace_do_not_fit() {
    let mut b = DnsBuilder::new();
    b.register(HostId::from(1u32), v4(10, 0, 0, 1), String::from("ok")).unwrap();
    assert!(b.names_fit_hosts_file());
    b.register(HostId::from(2u32), v4(10, 0, 0, 2), String::from("bad\tname")).unwrap();
    assert!(!b.names_fit_hosts_file());
}

#[test]
fn host_id_conversions() {
    let id = HostId::from(7u32);
    assert_eq!(u32::from(id), 7);
    assert_eq!(id.raw, 7);
}

#[test]
fn fixed_ipv6_addresses() {
    let mut expected = [0u8; 16];
    assert_eq!(ipv6_unspecified(), expected);
    expected[15] = 1;
    assert_eq!(ipv6_loopback(), expected);
}

#[test]
fn errno_verdicts() {
    assert_eq!(errno_is(-1, Some(98), 98), Ok(()));
    assert_eq!(
        errno_is(-1, Some(98), 22),
        Err(ErrnoMismatch::WrongErrno { expected: 98, got: 22 })
    );
    assert_eq!(errno_is(-1, None, 22), Err(ErrnoMismatch::UnexpectedError { got: 22 }));
    assert_eq!(errno_is(0, Some(98), 0), Err(ErrnoMismatch::UnexpectedSuccess { expected: 98 }));
    assert_eq!(errno_is(0, None, 22), Ok(()));
    assert_eq!(errno_is(5, None, 0), Ok(()));
}
