use agent_core::net::addr::{get_mac_by_ip, is_unicast_link_local, Addr, IpAddress};
use agent_core::net::error::Error;
use agent_core::net::link::Link;
use agent_core::net::link_flags::LinkFlags;
use agent_core::net::mac::MacAddr;
use neli::consts::rtnl::{Iff, IffFlags};
use std::cmp::Ordering;

#[test]
fn kernel_flags_carry_over() {
    let flags = IffFlags::new(&[Iff::Up, Iff::Multicast, Iff::Running, Iff::Promisc]);
    let link_flags = LinkFlags::from(&flags);
    assert_eq!(link_flags.bits(), LinkFlags::UP | LinkFlags::MULTICAST);
    assert_eq!(link_flags.bits(), 0x1001);

    let all = IffFlags::from_bitmask(u32::MAX);
    assert_eq!(LinkFlags::from(&all).bits(), LinkFlags::ALL);
    assert_eq!(LinkFlags::from(&IffFlags::empty()), LinkFlags::empty());
    assert_eq!(
        LinkFlags::from(&IffFlags::new(&[Iff::Loopback])).bits(),
        LinkFlags::LOOPBACK
    );
    assert_eq!(
        LinkFlags::from(&IffFlags::new(&[Iff::Pointopoint, Iff::Broadcast])).bits(),
        LinkFlags::POINT_TO_POINT | LinkFlags::BROADCAST
    );
}

#[test]
fn link_flag_words() {
    assert_eq!(LinkFlags::UP, 1);
    assert_eq!(LinkFlags::BROADCAST, 2);
    assert_eq!(LinkFlags::LOOPBACK, 8);
    assert_eq!(LinkFlags::POINT_TO_POINT, 16);
    assert_eq!(LinkFlags::MULTICAST, 4096);
    assert_eq!(LinkFlags::from(0xffff_ffffu32).bits(), 0x101b);
    assert_eq!(LinkFlags::from_bits_truncate(0x1007).bits(), 0x1003);
    assert_eq!(LinkFlags::default().bits(), 0);

    let mut flags = LinkFlags::from(LinkFlags::UP);
    assert!(flags.contains(LinkFlags::from(LinkFlags::UP)));
    assert!(!flags.contains(LinkFlags::from(LinkFlags::LOOPBACK)));
    assert!(flags.contains(LinkFlags::empty()));
    flags.insert(LinkFlags::from(LinkFlags::LOOPBACK));
    assert_eq!(flags.bits(), 9);
    assert!(flags.contains(LinkFlags::from(9)));
    assert!(!flags.contains(LinkFlags::from(11)));
}

fn link(if_index: u32, last: u8) -> Link {
    Link {
        if_index,
        mac_addr: MacAddr::from([2, 0, 0, 0, 0, last]),
        name: format!("eth{}", if_index),
        ..Link::default()
    }
}

fn addr(if_index: u32, ip: u32) -> Addr {
    Addr { if_index, ip_addr: IpAddress::V4(ip), scope: 0, prefix_len: 24 }
}

#[test]
fn links_compare_by_index() {
    assert_eq!(link(3, 1), link(3, 2));
    assert_ne!(link(3, 1), link(4, 1));
    assert_eq!(link(3, 1).partial_cmp(&link(4, 0)), Some(Ordering::Less));
    assert_eq!(link(5, 1).partial_cmp(&link(4, 9)), Some(Ordering::Greater));
    assert_eq!(link(5, 1).partial_cmp(&link(5, 9)), Some(Ordering::Equal));
    assert!(link(1, 9) < link(2, 0));
}

#[test]
fn default_link_is_blank() {
    let l = Link::default();
    assert_eq!(l.if_index, 0);
    assert_eq!(l.mac_addr, MacAddr::zero());
    assert_eq!(l.name, "");
    assert_eq!(l.flags, LinkFlags::empty());
    assert_eq!(l.if_type, None);
    assert_eq!(l.parent_index, None);
}

#[test]
fn mac_is_found_through_the_interface_index() {
    let links = [link(1, 1), link(2, 2), link(2, 3)];
    let addrs = [addr(7, 0x0a00_0001), addr(2, 0x0a00_0002), addr(1, 0x0a00_0002)];
    let mac = get_mac_by_ip(&links, &addrs, IpAddress::V4(0x0a00_0002), "10.0.0.2").unwrap();
    assert_eq!(mac, MacAddr::from([2, 0, 0, 0, 0, 2]));
}

#[test]
fn mac_lookup_says_what_was_missing() {
    let links = [link(1, 1), link(2, 2)];
    let addrs = [addr(7, 0x0a00_0001), addr(2, 0x0a00_0002)];
    match get_mac_by_ip(&links, &addrs, IpAddress::V4(0x0a00_0003), "10.0.0.3") {
        Err(Error::LinkIdxNotFoundByIP(text)) => {
            assert_eq!(text, "can't find interface index by ip 10.0.0.3")
        }
        other => panic!("{:?}", other),
    }
    match get_mac_by_ip(&links, &addrs, IpAddress::V4(0x0a00_0001), "10.0.0.1") {
        Err(Error::LinkIdxNotFoundByIP(text)) => {
            assert_eq!(text, "can't find mac address by ip 10.0.0.1")
        }
        other => panic!("{:?}", other),
    }
    match get_mac_by_ip(&links, &addrs, IpAddress::V6(0x0a00_0002), "::a00:2") {
        Err(Error::LinkIdxNotFoundByIP(text)) => {
            assert_eq!(text, "can't find interface index by ip ::a00:2")
        }
        other => panic!("{:?}", other),
    }
    assert!(get_mac_by_ip(&[], &[], IpAddress::V4(1), "0.0.0.1").is_err());
}

#[test]
fn link_local_is_fe80_slash_10() {
    assert!(is_unicast_link_local(&[0xfe80, 0, 0, 0, 0, 0, 0, 1]));
    assert!(is_unicast_link_local(&[0xfebf, 0xffff, 0, 0, 0, 0, 0, 1]));
    assert!(!is_unicast_link_local(&[0xfec0, 0, 0, 0, 0, 0, 0, 1]));
    assert!(!is_unicast_link_local(&[0xfe7f, 0, 0, 0, 0, 0, 0, 1]));
    assert!(!is_unicast_link_local(&[0, 0, 0, 0, 0, 0, 0, 1]));
    assert!(!is_unicast_link_local(&[0xff02, 0, 0, 0, 0, 0, 0, 1]));
}
