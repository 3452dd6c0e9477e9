//! Value types for the links and addresses of the local host.

pub mod addr;
pub mod error;
pub mod link;
pub mod link_flags;
pub mod mac;
pub mod mac_text;
