//! The flags of a network interface that the agent cares about.

use vstd::prelude::*;
use vstd::std_specs::convert::FromSpecImpl;
use neli::consts::rtnl::{Iff, IffFlags};

verus! {

/// The flag words of an interface as the kernel reports them.
#[verifier::external_type_specification]
#[verifier::external_body]
pub struct ExIffFlags(IffFlags);

/// The flag words that a set of kernel flags holds: every word all of whose
/// bits are set in it.
pub uninterp spec fn iff_members(flags: IffFlags) -> Set<u32>;

/// `IffFlags::contains`, asked for the flag whose kernel word is `word`:
/// whether the set holds that flag.
#[verifier::external_body]
fn iff_contains(flags: &IffFlags, word: u32) -> (r: bool)
    ensures
        r == iff_members(*flags).contains(word),
{
    flags.contains(&Iff::from(word))
}

/// A set of interface flags, one bit each, at the bit the kernel uses.
#[derive(Clone, Copy, Debug, PartialEq, Eq, Structural, Hash)]
pub struct LinkFlags {
    bits: u32,
}

impl View for LinkFlags {
    type V = u32;

    closed spec fn view(&self) -> u32 {
        self.bits
    }
}

impl LinkFlags {
    /// The interface is up.
    pub const UP: u32 = 1 << 0;

    /// The interface has a broadcast address.
    pub const BROADCAST: u32 = 1 << 1;

    /// The interface is a loopback.
    pub const LOOPBACK: u32 = 1 << 3;

    /// The interface is one end of a point-to-point link.
    pub const POINT_TO_POINT: u32 = 1 << 4;

    /// The interface supports multicast.
    pub const MULTICAST: u32 = 1 << 12;

    /// Every flag there is.
    pub const ALL: u32 = 0x101b;

    /// The set without any flag.
    pub fn empty() -> (r: LinkFlags)
        ensures
            r@ == 0,
    {
        LinkFlags { bits: 0 }
    }

    /// The flags as one word.
    pub fn bits(&self) -> (r: u32)
        ensures
            r == self@,
    {
        self.bits
    }

    /// The set of the flags in `bits`; bits that are no flag are dropped.
    pub fn from_bits_truncate(bits: u32) -> (r: LinkFlags)
        ensures
            r@ == bits & LinkFlags::ALL,
    {
        LinkFlags { bits: bits & LinkFlags::ALL }
    }

    /// Whether every flag of `other` is in this set.
    pub fn contains(&self, other: LinkFlags) -> (r: bool)
        ensures
            r == (self@ & other@ == other@),
    {
        self.bits & other.bits == other.bits
    }

    /// Adds the flags of `other` to this set.
    pub fn insert(&mut self, other: LinkFlags)
        ensures
            final(self)@ == old(self)@ | other@,
    {
        self.bits = self.bits | other.bits;
    }
}

impl Default for LinkFlags {
    /// The set without any flag.
    fn default() -> (r: LinkFlags)
        ensures
            r@ == 0,
    {
        LinkFlags::empty()
    }
}

impl From<u32> for LinkFlags {
    /// The set of the flags in `flags`; bits that are no flag are dropped.
    fn from(flags: u32) -> (r: LinkFlags)
        ensures
            r@ == flags & LinkFlags::ALL,
    {
        LinkFlags::from_bits_truncate(flags)
    }
}

impl FromSpecImpl<u32> for LinkFlags {
    open spec fn obeys_from_spec() -> bool {
        true
    }

    closed spec fn from_spec(flags: u32) -> LinkFlags {
        LinkFlags { bits: flags & LinkFlags::ALL }
    }
}

/// `word` if the kernel flags `members` hold it, else no bit.
pub open spec fn kept(members: Set<u32>, word: u32) -> u32 {
    if members.contains(word) {
        word
    } else {
        0
    }
}

/// The link flags that stand for kernel flags: each of the five flags
/// exactly where the kernel set holds it, and no other bit.
pub open spec fn link_bits(members: Set<u32>) -> u32 {
    kept(members, LinkFlags::UP) | kept(members, LinkFlags::BROADCAST) | kept(
        members,
        LinkFlags::LOOPBACK,
    ) | kept(members, LinkFlags::POINT_TO_POINT) | kept(members, LinkFlags::MULTICAST)
}

impl From<&IffFlags> for LinkFlags {
    /// The link flags that stand for the kernel's: up, broadcast, loopback,
    /// point-to-point and multicast are carried over, all others dropped.
    fn from(flags: &IffFlags) -> (r: LinkFlags)
        ensures
            r@ == link_bits(iff_members(*flags)),
    {
        let mut fs = LinkFlags::default();
        if iff_contains(flags, LinkFlags::UP) {
            fs.insert(LinkFlags { bits: LinkFlags::UP });
        }
        if iff_contains(flags, LinkFlags::BROADCAST) {
            fs.insert(LinkFlags { bits: LinkFlags::BROADCAST });
        }
        if iff_contains(flags, LinkFlags::LOOPBACK) {
            fs.insert(LinkFlags { bits: LinkFlags::LOOPBACK });
        }
        if iff_contains(flags, LinkFlags::POINT_TO_POINT) {
            fs.insert(LinkFlags { bits: LinkFlags::POINT_TO_POINT });
        }
        if iff_contains(flags, LinkFlags::MULTICAST) {
            fs.insert(LinkFlags { bits: LinkFlags::MULTICAST });
        }
        proof {
            let m = iff_members(*flags);
            let (a, b, c, d, e) = (
                kept(m, LinkFlags::UP),
                kept(m, LinkFlags::BROADCAST),
                kept(m, LinkFlags::LOOPBACK),
                kept(m, LinkFlags::POINT_TO_POINT),
                kept(m, LinkFlags::MULTICAST),
            );
            assert(((((0u32 | a) | b) | c) | d) | e == a | b | c | d | e) by (bit_vector);
            assert(forall|x: u32| #[trigger] (x | 0) == x) by (bit_vector);
        }
        fs
    }
}

impl FromSpecImpl<&IffFlags> for LinkFlags {
    open spec fn obeys_from_spec() -> bool {
        true
    }

    closed spec fn from_spec(flags: &IffFlags) -> LinkFlags {
        LinkFlags { bits: link_bits(iff_members(*flags)) }
    }
}

/// The link flags that stand for kernel flags hold a flag exactly where
/// the kernel flags do, and hold nothing that is no link flag.
pub proof fn lemma_link_bits(members: Set<u32>)
    ensures
        link_bits(members) & LinkFlags::UP != 0 <==> members.contains(LinkFlags::UP),
        link_bits(members) & LinkFlags::BROADCAST != 0 <==> members.contains(LinkFlags::BROADCAST),
        link_bits(members) & LinkFlags::LOOPBACK != 0 <==> members.contains(LinkFlags::LOOPBACK),
        link_bits(members) & LinkFlags::POINT_TO_POINT != 0 <==> members.contains(
            LinkFlags::POINT_TO_POINT,
        ),
        link_bits(members) & LinkFlags::MULTICAST != 0 <==> members.contains(LinkFlags::MULTICAST),
        link_bits(members) & LinkFlags::ALL == link_bits(members),
{
    let (a, b, c, d, e) = (
        kept(members, LinkFlags::UP),
        kept(members, LinkFlags::BROADCAST),
        kept(members, LinkFlags::LOOPBACK),
        kept(members, LinkFlags::POINT_TO_POINT),
        kept(members, LinkFlags::MULTICAST),
    );
    assert((a == 0 || a == 1) && (b == 0 || b == 2) && (c == 0 || c == 8) && (d == 0 || d == 16)
        && (e == 0 || e == 4096)) by {
        assert(1u32 << 0 == 1 && 1u32 << 1 == 2 && 1u32 << 3 == 8 && 1u32 << 4 == 16 && 1u32 << 12
            == 4096) by (bit_vector);
    }
    assert(((a | b | c | d | e) & 1 != 0 <==> a == 1) && ((a | b | c | d | e) & 2 != 0 <==> b == 2)
        && ((a | b | c | d | e) & 8 != 0 <==> c == 8) && ((a | b | c | d | e) & 16 != 0 <==> d
        == 16) && ((a | b | c | d | e) & 4096 != 0 <==> e == 4096) && ((a | b | c | d | e)
        & 0x101b == (a | b | c | d | e))) by (bit_vector)
        requires
            a == 0 || a == 1,
            b == 0 || b == 2,
            c == 0 || c == 8,
            d == 0 || d == 16,
            e == 0 || e == 4096,
    ;
    assert(1u32 << 0 == 1 && 1u32 << 1 == 2 && 1u32 << 3 == 8 && 1u32 << 4 == 16 && 1u32 << 12
        == 4096) by (bit_vector);
}

} // verus!
