//! Addresses, routes and neighbours of the local host, and the lookup
//! from an IP address to the hardware address of the interface that has it.

use vstd::prelude::*;
use vstd::string::StringExecFns;
use crate::net::error::Error;
use crate::net::link::Link;
use crate::net::mac::MacAddr;

verus! {

/// An IP address as a plain number: the 32 bits of an IPv4 address or the
/// 128 bits of an IPv6 address, most significant bit first.
#[derive(Clone, Copy, Debug, PartialEq, Eq, Structural, Hash)]
pub enum IpAddress {
    V4(u32),
    V6(u128),
}

/// An address that an interface has.
#[derive(Debug, Clone, Copy)]
pub struct Addr {
    pub if_index: u32,
    pub ip_addr: IpAddress,
    pub scope: u8,
    pub prefix_len: u8,
}

/// The route to a destination: the address to send from, the interface to
/// send on, and the gateway, if any.
#[derive(Debug, Clone, Copy)]
pub struct Route {
    pub src_ip: IpAddress,
    pub oif_index: u32,
    pub gateway: Option<IpAddress>,
}

/// A neighbour resolved on a link.
#[derive(Debug)]
pub struct NeighborEntry {
    pub src_addr: IpAddress,
    pub src_link: Link,
    pub dest_addr: IpAddress,
    pub dest_mac_addr: MacAddr,
}

/// Whether an IPv6 address, given by its eight segments, is a link-local
/// unicast address: one of `fe80::/10`.
pub fn is_unicast_link_local(segments: &[u16; 8]) -> (r: bool)
    ensures
        r == (0xfe80 <= segments@[0] <= 0xfebf),
{
    let first = segments[0];
    assert((first & 0xffc0 == 0xfe80) == (0xfe80 <= first && first <= 0xfebf)) by (bit_vector);
    first & 0xffc0 == 0xfe80
}

/// Index of the first of `addrs`, from `from` on, that is the address `ip`.
pub open spec fn first_addr(addrs: Seq<Addr>, ip: IpAddress, from: int) -> Option<int>
    decreases addrs.len() - from,
{
    if from < 0 || from >= addrs.len() {
        None
    } else if addrs[from].ip_addr == ip {
        Some(from)
    } else {
        first_addr(addrs, ip, from + 1)
    }
}

/// Index of the first of `links`, from `from` on, whose interface index is
/// `if_index`.
pub open spec fn first_link(links: Seq<Link>, if_index: u32, from: int) -> Option<int>
    decreases links.len() - from,
{
    if from < 0 || from >= links.len() {
        None
    } else if links[from].if_index == if_index {
        Some(from)
    } else {
        first_link(links, if_index, from + 1)
    }
}

/// `first_addr` is the least index not before `from` of an address equal to
/// `ip`, or `None` exactly when there is none.
pub proof fn lemma_first_addr(addrs: Seq<Addr>, ip: IpAddress, from: int)
    requires
        0 <= from,
    ensures
        match first_addr(addrs, ip, from) {
            Some(i) => from <= i < addrs.len() && addrs[i].ip_addr == ip && forall|j: int|
                from <= j < i ==> addrs[j].ip_addr != ip,
            None => forall|j: int| from <= j < addrs.len() ==> addrs[j].ip_addr != ip,
        },
    decreases addrs.len() - from,
{
    if from < addrs.len() && addrs[from].ip_addr != ip {
        lemma_first_addr(addrs, ip, from + 1);
    }
}

/// `first_link` is the least index not before `from` of a link with the
/// interface index `if_index`, or `None` exactly when there is none.
pub proof fn lemma_first_link(links: Seq<Link>, if_index: u32, from: int)
    requires
        0 <= from,
    ensures
        match first_link(links, if_index, from) {
            Some(i) => from <= i < links.len() && links[i].if_index == if_index && forall|j: int|
                from <= j < i ==> links[j].if_index != if_index,
            None => forall|j: int| from <= j < links.len() ==> links[j].if_index != if_index,
        },
    decreases links.len() - from,
{
    if from < links.len() && links[from].if_index != if_index {
        lemma_first_link(links, if_index, from + 1);
    }
}

/// What the lookup answers: the hardware address of the first link whose
/// index is that of the first address equal to `ip`; `None` where no
/// address is `ip`, or no link has that index.
pub open spec fn mac_by_ip(links: Seq<Link>, addrs: Seq<Addr>, ip: IpAddress) -> Option<MacAddr> {
    match first_addr(addrs, ip, 0) {
        Some(i) => match first_link(links, addrs[i].if_index, 0) {
            Some(j) => Some(links[j].mac_addr),
            None => None,
        },
        None => None,
    }
}

/// The text of the error for an address that no interface has.
pub open spec fn no_interface_text(ip_text: Seq<char>) -> Seq<char> {
    "can't find interface index by ip "@ + ip_text
}

/// The text of the error for an interface that no link describes.
pub open spec fn no_mac_text(ip_text: Seq<char>) -> Seq<char> {
    "can't find mac address by ip "@ + ip_text
}

/// Finds the hardware address of the interface that has the address `ip`,
/// among the links and addresses given. `ip_text` is how `ip` reads in the
/// error, which says whether no interface has the address or no link has
/// that interface's index.
pub fn get_mac_by_ip(links: &[Link], addrs: &[Addr], ip: IpAddress, ip_text: &str) -> (r: Result<
    MacAddr,
    Error,
>)
    ensures
        match r {
            Ok(mac) => mac_by_ip(links@, addrs@, ip) == Some(mac),
            Err(e) => mac_by_ip(links@, addrs@, ip) is None && (e matches Error::LinkIdxNotFoundByIP(
                text,
            ) && text@ == if first_addr(addrs@, ip, 0) is None {
                no_interface_text(ip_text@)
            } else {
                no_mac_text(ip_text@)
            }),
        },
{
    let mut i: usize = 0;
    while i < addrs.len() && addrs[i].ip_addr != ip
        invariant
            i <= addrs@.len(),
            first_addr(addrs@, ip, 0) == first_addr(addrs@, ip, i as int),
        decreases addrs@.len() - i,
    {
        i += 1;
    }
    if i >= addrs.len() {
        let mut text = String::from_str("can't find interface index by ip ");
        text.append(ip_text);
        return Err(Error::LinkIdxNotFoundByIP(text));
    }
    let if_idx = addrs[i].if_index;
    let mut j: usize = 0;
    while j < links.len() && links[j].if_index != if_idx
        invariant
            j <= links@.len(),
            first_link(links@, if_idx, 0) == first_link(links@, if_idx, j as int),
        decreases links@.len() - j,
    {
        j += 1;
    }
    if j >= links.len() {
        let mut text = String::from_str("can't find mac address by ip ");
        text.append(ip_text);
        return Err(Error::LinkIdxNotFoundByIP(text));
    }
    Ok(links[j].mac_addr)
}

} // verus!
