use shadow_dns::addr::{IpAddr, Ipv4Addr, Ipv6Addr};
use shadow_dns::dns::{DnsBuilder, RegistrationError};
use shadow_dns::model::HostId;

fn host_a() -> (HostId, IpAddr, String) {
    let id = HostId::from(0u32);
    let addr = IpAddr::V4(Ipv4Addr::new(100, 1, 2, 3));
    let name = String::from("myhost");
    (id, addr, name)
}

fn host_b() -> (HostId, IpAddr, String) {
    let id = HostId::from(1u32);
    let addr = IpAddr::V4(Ipv4Addr::new(200, 3, 2, 1));
    let name = String::from("theirhost");
    (id, addr, name)
}

#[test]
fn register() {
    let (id_a, addr_a, name_a) = host_a();
    let (id_b, addr_b, name_b) = host_b();

    let mut builder = DnsBuilder::new();

    assert!(builder.register(id_a, addr_a, name_a.clone()).is_ok());

    assert_eq!(
        builder.register(id_b, IpAddr::V4(Ipv4Addr::unspecified()), name_b.clone()),
        Err(RegistrationError::UnspecifiedAddrInvalid)
    );
    assert_eq!(
        builder.register(id_b, IpAddr::V4(Ipv4Addr::broadcast()), name_b.clone()),
        Err(RegistrationError::BroadcastAddrInvalid)
    );
    let multicast_example_addr = Ipv4Addr::new(224, 0, 0, 1);
    assert_eq!(
        // Multicast addresses not allowed.
        builder.register(id_b, IpAddr::V4(multicast_example_addr), name_b.clone()),
        Err(RegistrationError::MulticastAddrInvalid(IpAddr::V4(
            multicast_example_addr
        )))
    );
    assert_eq!(
        builder.register(id_b, IpAddr::V4(Ipv4Addr::localhost()), name_b.clone()),
        Err(RegistrationError::LoopbackAddrInvalid(IpAddr::V4(
            Ipv4Addr::localhost()
        )))
    );
    let localhost_string = String::from("localhost");
    assert_eq!(
        builder.register(id_b, addr_b, localhost_string.clone()),
        Err(RegistrationError::NameInvalid(localhost_string))
    );
    assert_eq!(
        builder.register(id_b, addr_a, name_b.clone()),
        Err(RegistrationError::AddrExists(addr_a))
    );
    assert_eq!(
        builder.register(id_b, addr_b, name_a.clone()),
        Err(RegistrationError::NameExists(name_a))
    );

    assert!(builder.register(id_b, addr_b, name_b.clone()).is_ok());
}

#[test]
fn lookups() {
    let (id_a, addr_a, name_a) = host_a();
    let (id_b, addr_b, name_b) = host_b();

    let mut builder = DnsBuilder::new();
    builder.register(id_a, addr_a, name_a.clone()).unwrap();
    builder.register(id_b, addr_b, name_b.clone()).unwrap();
    let dns = builder.into_dns();

    assert_eq!(dns.addr_to_host_id(addr_a), Some(id_a));
    assert_eq!(dns.addr_to_host_id(addr_b), Some(id_b));
    assert_eq!(
        dns.addr_to_host_id(IpAddr::V4(Ipv4Addr::new(1, 2, 3, 4))),
        None
    );

    assert_eq!(dns.addr_to_name(addr_a), Some(name_a.as_str()));
    assert_eq!(dns.addr_to_name(addr_b), Some(name_b.as_str()));
    assert_eq!(
        dns.addr_to_name(IpAddr::V4(Ipv4Addr::new(1, 2, 3, 4))),
        None
    );

    assert_eq!(dns.name_to_addr_v4(&name_a), Some(Ipv4Addr::new(100, 1, 2, 3)));
    assert_eq!(dns.name_to_addr_v4(&name_b), Some(Ipv4Addr::new(200, 3, 2, 1)));
    assert_eq!(dns.name_to_addr_v4("empty"), None);
    assert_eq!(dns.name_to_addr_v4("localhost"), None);

    assert_eq!(dns.name_to_addrs(&name_a), vec![addr_a]);
    assert_eq!(dns.name_to_addrs(&name_b), vec![addr_b]);
    assert!(dns.name_to_addrs("empty").is_empty());
}

#[test]
fn hosts_file() {
    let (id_a, addr_a, name_a) = host_a();
    let (id_b, addr_b, name_b) = host_b();

    let mut builder = DnsBuilder::new();
    builder.register(id_a, addr_a, name_a.clone()).unwrap();
    builder.register(id_b, addr_b, name_b.clone()).unwrap();
    let dns = builder.into_dns();

    let contents = dns.hosts_file_contents();

    let expected = "127.0.0.1 localhost\n::1 localhost\n100.1.2.3 myhost\n200.3.2.1 theirhost\n";
    assert_eq!(contents, expected);
    let unexpected = "127.0.0.1 localhost\n::1 localhost\n200.3.2.1 theirhost\n100.1.2.3 myhost\n";
    assert_ne!(contents, unexpected);
}

#[test]
fn dual_stack_registration() {
    let (id, addr_v4, name) = host_a();
    let addr_v6 = IpAddr::V6(Ipv6Addr::new(0x2001, 0xdb8, 0, 0, 0, 0, 0, 1));

    let mut builder = DnsBuilder::new();
    builder.register(id, addr_v4, name.clone()).unwrap();
    // a second address for the same host and name is allowed
    builder.register(id, addr_v6, name.clone()).unwrap();

    let dns = builder.into_dns();

    assert_eq!(dns.name_to_addrs(&name), vec![addr_v4, addr_v6]);
    assert_eq!(dns.name_to_addr_v4(&name), Some(Ipv4Addr::new(100, 1, 2, 3)));
    assert_eq!(
        dns.name_to_addr_v6(&name),
        Some(Ipv6Addr::new(0x2001, 0xdb8, 0, 0, 0, 0, 0, 1))
    );
    assert_eq!(dns.addr_to_host_id(addr_v4), Some(id));
    assert_eq!(dns.addr_to_host_id(addr_v6), Some(id));

    // a different host may not register an additional address under the
    // same name
    let mut builder = DnsBuilder::new();
    builder.register(id, addr_v4, name.clone()).unwrap();
    let (id_b, addr_b, _) = host_b();
    assert_eq!(
        builder.register(id_b, addr_v6, name.clone()),
        Err(RegistrationError::NameExists(name))
    );
    let _ = addr_b;
}
