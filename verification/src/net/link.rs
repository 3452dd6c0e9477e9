//! Network interfaces of the local host.

use vstd::prelude::*;
use vstd::std_specs::cmp::{PartialEqSpecImpl, PartialOrdSpecImpl};
use core::cmp::Ordering;
use crate::net::link_flags::LinkFlags;
use crate::net::mac::MacAddr;

verus! {

/// A network interface. Two links are the same link, and are ordered, by
/// their interface index alone.
#[derive(Debug, Clone)]
pub struct Link {
    pub if_index: u32,
    pub mac_addr: MacAddr,
    pub name: String,
    pub flags: LinkFlags,
    pub if_type: Option<String>,
    pub parent_index: Option<u32>,
}

impl Default for Link {
    /// The link with index zero, the zero address, no name and no flags.
    fn default() -> (r: Link)
        ensures
            r.if_index == 0,
            r.mac_addr@ == seq![0u8, 0u8, 0u8, 0u8, 0u8, 0u8],
            r.name@.len() == 0,
            r.flags@ == 0,
            r.if_type is None,
            r.parent_index is None,
    {
        Link {
            if_index: 0,
            mac_addr: MacAddr::default(),
            name: String::new(),
            flags: LinkFlags::default(),
            if_type: None,
            parent_index: None,
        }
    }
}

impl PartialEq for Link {
    fn eq(&self, other: &Link) -> (r: bool) {
        self.if_index == other.if_index
    }
}

impl PartialEqSpecImpl for Link {
    open spec fn obeys_eq_spec() -> bool {
        true
    }

    open spec fn eq_spec(&self, other: &Link) -> bool {
        self.if_index == other.if_index
    }
}

impl Eq for Link {

}

impl PartialOrd for Link {
    fn partial_cmp(&self, other: &Link) -> (r: Option<Ordering>) {
        if self.if_index < other.if_index {
            Some(Ordering::Less)
        } else if self.if_index > other.if_index {
            Some(Ordering::Greater)
        } else {
            Some(Ordering::Equal)
        }
    }
}

impl PartialOrdSpecImpl for Link {
    open spec fn obeys_partial_cmp_spec() -> bool {
        true
    }

    open spec fn partial_cmp_spec(&self, other: &Link) -> Option<Ordering> {
        if self.if_index < other.if_index {
            Some(Ordering::Less)
        } else if self.if_index > other.if_index {
            Some(Ordering::Greater)
        } else {
            Some(Ordering::Equal)
        }
    }
}

} // verus!
