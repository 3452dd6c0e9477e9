//! What the lookups and conversions of this module fail with.

use vstd::prelude::*;

verus! {

/// A failed conversion or lookup; each variant carries the text to report.
#[derive(Debug)]
pub enum Error {
    /// The text is no hardware address; it is carried as it was given.
    ParseMacFailed(String),
    /// No interface, or no hardware address, is known for an IP address.
    LinkIdxNotFoundByIP(String),
}

} // verus!
