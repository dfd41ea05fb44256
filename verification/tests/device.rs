use shadow_dns::addr::{IpAddr, Ipv4Addr, Ipv6Addr};
use shadow_dns::device::PacketDevice;
use std::cell::RefCell;

struct Loop {
    addr: IpAddr,
    queue: RefCell<Vec<u32>>,
}

impl PacketDevice for Loop {
    type Packet = u32;

    fn primary_address(&self) -> IpAddr {
        self.addr
    }

    fn get_address(&self) -> IpAddr {
        self.addr
    }

    fn pop(&self) -> Option<u32> {
        self.queue.borrow_mut().pop()
    }

    fn push(&self, packet: u32) {
        self.queue.borrow_mut().push(packet)
    }
}

#[test]
fn default_has_address_is_primary_address() {
    let dev = Loop {
        addr: IpAddr::V4(Ipv4Addr::new(10, 0, 0, 1)),
        queue: RefCell::new(Vec::new()),
    };
    assert!(dev.has_address(IpAddr::V4(Ipv4Addr::new(10, 0, 0, 1))));
    assert!(!dev.has_address(IpAddr::V4(Ipv4Addr::new(10, 0, 0, 2))));
    assert!(!dev.has_address(IpAddr::V6(Ipv6Addr::new(0, 0, 0, 0, 0, 0xffff, 0x0a00, 1))));
    dev.push(7);
    assert_eq!(dev.pop(), Some(7));
}
