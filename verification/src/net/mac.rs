//! Hardware addresses.

use vstd::prelude::*;
use vstd::std_specs::cmp::PartialEqSpecImpl;
use vstd::std_specs::convert::{FromSpecImpl, TryFromSpecImpl};
use std::array::TryFromSliceError;

verus! {

/// Octets in a hardware address.
pub const MAC_ADDR_LEN: usize = 6;

/// The number of the broadcast address: all 48 bits set.
pub const BROADCAST: u64 = 0xffff_ffff_ffff;

/// The group bit within the number of an address: the lowest bit of its
/// first octet.
pub const MULTICAST: u64 = 0x0100_0000_0000;

/// The number that six octets write, most significant octet first.
pub open spec fn mac_number(o: Seq<u8>) -> nat {
    (o[0] * 0x100_0000_0000 + o[1] * 0x1_0000_0000 + o[2] * 0x100_0000 + o[3] * 0x1_0000 + o[4]
        * 0x100 + o[5]) as nat
}

/// The six octets that write `n`, most significant octet first.
pub open spec fn mac_octets(n: nat) -> Seq<u8> {
    seq![
        (n / 0x100_0000_0000 % 0x100) as u8,
        (n / 0x1_0000_0000 % 0x100) as u8,
        (n / 0x100_0000 % 0x100) as u8,
        (n / 0x1_0000 % 0x100) as u8,
        (n / 0x100 % 0x100) as u8,
        (n % 0x100) as u8,
    ]
}

/// What `<[u8; 6]>::try_from` answers for a slice that is not six long.
#[verifier::external_type_specification]
#[verifier::external_body]
pub struct ExTryFromSliceError(TryFromSliceError);

/// `<[u8; 6]>::try_from`: the array that copies `octets` when they are six,
/// and an error for every other length.
#[verifier::external_body]
fn six_octets(octets: &[u8]) -> (r: Result<[u8; 6], TryFromSliceError>)
    ensures
        r is Ok <==> octets@.len() == MAC_ADDR_LEN,
        r is Ok ==> r.unwrap()@ == octets@,
{
    <[u8; 6]>::try_from(octets)
}

/// A 48-bit hardware address, most significant octet first.
#[derive(Clone, Copy, Debug, Eq, PartialOrd, Ord, Hash)]
pub struct MacAddr([u8; 6]);

impl View for MacAddr {
    type V = Seq<u8>;

    closed spec fn view(&self) -> Seq<u8> {
        self.0@
    }
}

impl MacAddr {
    /// The address of all zeroes.
    pub fn zero() -> (r: MacAddr)
        ensures
            r@ == seq![0u8, 0u8, 0u8, 0u8, 0u8, 0u8],
    {
        let r = MacAddr([0, 0, 0, 0, 0, 0]);
        assert(r@ =~= seq![0u8, 0u8, 0u8, 0u8, 0u8, 0u8]);
        r
    }

    /// Whether the address that `octets` starts with names a group of
    /// stations: the lowest bit of its first octet is set.
    pub fn is_multicast(octets: &[u8]) -> (r: bool)
        requires
            octets@.len() > MAC_ADDR_LEN,
        ensures
            r == (octets@[0] % 2 == 1),
    {
        let first = octets[0];
        assert(first & 0x1 == first % 2) by (bit_vector);
        first & 0x1 == 1
    }

    /// Whether `mac` names a single station: it is neither the broadcast
    /// address nor a group address.
    pub fn is_unicast(mac: MacAddr) -> (r: bool)
        ensures
            r == (mac.number() != BROADCAST && mac@[0] % 2 == 0),
    {
        let mac_num = u64::from(mac);
        let ghost first = mac@[0] as u64;
        assert(mac_num & 0x0100_0000_0000 != 0x0100_0000_0000 <==> first % 2 == 0) by (bit_vector)
            requires
                mac_num / 0x100_0000_0000 == first,
        ;
        mac_num != BROADCAST && mac_num & MULTICAST != MULTICAST
    }

    /// The number of the address: its octets read as one 48-bit integer.
    pub open spec fn number(&self) -> nat {
        mac_number(self@)
    }

    /// The six octets of the address.
    pub fn octets(&self) -> (r: [u8; 6])
        ensures
            r@ == self@,
    {
        self.0
    }
}

impl PartialEq for MacAddr {
    fn eq(&self, other: &MacAddr) -> (r: bool) {
        let (a, b) = (self.0, other.0);
        let r = a[0] == b[0] && a[1] == b[1] && a[2] == b[2] && a[3] == b[3] && a[4] == b[4]
            && a[5] == b[5];
        proof {
            if r {
                assert(self@ =~= other@);
            }
        }
        r
    }
}

impl PartialEqSpecImpl for MacAddr {
    open spec fn obeys_eq_spec() -> bool {
        true
    }

    /// Two addresses are equal when their octets are.
    open spec fn eq_spec(&self, other: &MacAddr) -> bool {
        self@ == other@
    }
}

impl Default for MacAddr {
    /// The address of all zeroes.
    fn default() -> (r: MacAddr)
        ensures
            r@ == seq![0u8, 0u8, 0u8, 0u8, 0u8, 0u8],
    {
        MacAddr::zero()
    }
}

impl From<[u8; 6]> for MacAddr {
    /// The address with the given octets.
    fn from(octets: [u8; 6]) -> (r: MacAddr)
        ensures
            r@ == octets@,
    {
        MacAddr(octets)
    }
}

impl FromSpecImpl<[u8; 6]> for MacAddr {
    open spec fn obeys_from_spec() -> bool {
        true
    }

    closed spec fn from_spec(octets: [u8; 6]) -> MacAddr {
        MacAddr(octets)
    }
}

impl From<MacAddr> for u64 {
    /// The number of the address.
    fn from(mac: MacAddr) -> (r: u64)
        ensures
            r == mac.number(),
    {
        let o = mac.0;
        let (a, b, c, d, e, f) = (o[0], o[1], o[2], o[3], o[4], o[5]);
        let r = ((a as u64) << 40) | ((b as u64) << 32) | ((c as u64) << 24) | ((d as u64) << 16) | ((
        e as u64) << 8) | (f as u64);
        assert(r == a * 0x100_0000_0000 + b * 0x1_0000_0000 + c * 0x100_0000 + d * 0x1_0000 + e
            * 0x100 + f) by (bit_vector)
            requires
                r == ((a as u64) << 40) | ((b as u64) << 32) | ((c as u64) << 24) | ((d as u64)
                    << 16) | ((e as u64) << 8) | (f as u64),
        ;
        r
    }
}

impl FromSpecImpl<MacAddr> for u64 {
    open spec fn obeys_from_spec() -> bool {
        true
    }

    open spec fn from_spec(mac: MacAddr) -> u64 {
        mac.number() as u64
    }
}

impl TryFrom<u64> for MacAddr {
    type Error = u64;

    /// The address whose number is `value`; `value` itself, as the error,
    /// when it does not fit 48 bits.
    fn try_from(value: u64) -> (r: Result<MacAddr, u64>)
        ensures
            value <= BROADCAST ==> r is Ok && r.unwrap()@ == mac_octets(value as nat)
                && r.unwrap().number() == value,
            value > BROADCAST ==> r == Err::<MacAddr, u64>(value),
    {
        if value & 0xFFFF_0000_0000_0000 != 0 {
            assert(value > 0xffff_ffff_ffff) by (bit_vector)
                requires
                    value & 0xFFFF_0000_0000_0000 != 0,
            ;
            return Err(value);
        }
        assert(value <= 0xffff_ffff_ffff) by (bit_vector)
            requires
                value & 0xFFFF_0000_0000_0000 == 0,
        ;
        let r = MacAddr(
            [
                (value >> 40) as u8,
                ((value >> 32) & 0xff) as u8,
                ((value >> 24) & 0xff) as u8,
                ((value >> 16) & 0xff) as u8,
                ((value >> 8) & 0xff) as u8,
                (value & 0xff) as u8,
            ],
        );
        proof {
            assert((value >> 40) == value / 0x100_0000_0000 % 0x100) by (bit_vector)
                requires
                    value <= 0xffff_ffff_ffff,
            ;
            assert(((value >> 32) & 0xff) == value / 0x1_0000_0000 % 0x100) by (bit_vector);
            assert(((value >> 24) & 0xff) == value / 0x100_0000 % 0x100) by (bit_vector);
            assert(((value >> 16) & 0xff) == value / 0x1_0000 % 0x100) by (bit_vector);
            assert(((value >> 8) & 0xff) == value / 0x100 % 0x100) by (bit_vector);
            assert((value & 0xff) == value % 0x100) by (bit_vector);
            assert(r@ =~= mac_octets(value as nat));
            lemma_number_of_octets(value as nat);
        }
        Ok(r)
    }
}

impl TryFromSpecImpl<u64> for MacAddr {
    open spec fn obeys_try_from_spec() -> bool {
        true
    }

    closed spec fn try_from_spec(value: u64) -> Result<MacAddr, u64> {
        if value <= BROADCAST {
            Ok(
                MacAddr(
                    [
                        (value / 0x100_0000_0000 % 0x100) as u8,
                        (value / 0x1_0000_0000 % 0x100) as u8,
                        (value / 0x100_0000 % 0x100) as u8,
                        (value / 0x1_0000 % 0x100) as u8,
                        (value / 0x100 % 0x100) as u8,
                        (value % 0x100) as u8,
                    ],
                ),
            )
        } else {
            Err(value)
        }
    }
}

impl TryFrom<&[u8]> for MacAddr {
    type Error = TryFromSliceError;

    /// The address with the given octets, which must be six.
    fn try_from(octets: &[u8]) -> (r: Result<MacAddr, TryFromSliceError>)
        ensures
            r is Ok <==> octets@.len() == MAC_ADDR_LEN,
            r is Ok ==> r.unwrap()@ == octets@,
    {
        match six_octets(octets) {
            Ok(a) => Ok(MacAddr(a)),
            Err(e) => Err(e),
        }
    }
}

impl TryFromSpecImpl<&[u8]> for MacAddr {
    /// The error of a refused slice cannot be written down, so the outcome
    /// is stated by `try_from` itself.
    open spec fn obeys_try_from_spec() -> bool {
        false
    }

    open spec fn try_from_spec(octets: &[u8]) -> Result<MacAddr, TryFromSliceError> {
        arbitrary()
    }
}

/// Two addresses with the same octets are the same address.
pub proof fn lemma_same_octets(a: MacAddr, b: MacAddr)
    requires
        a@ == b@,
    ensures
        a == b,
{
    assert(a.0 =~= b.0);
}

/// Six octets write a 48-bit number, whose octets they are.
pub proof fn lemma_octets_of_number(o: Seq<u8>)
    requires
        o.len() == MAC_ADDR_LEN,
    ensures
        mac_number(o) <= BROADCAST,
        mac_octets(mac_number(o)) == o,
{
    let (a, b, c, d, e, f) = (
        o[0] as u64,
        o[1] as u64,
        o[2] as u64,
        o[3] as u64,
        o[4] as u64,
        o[5] as u64,
    );
    let n = (a * 0x100_0000_0000 + b * 0x1_0000_0000 + c * 0x100_0000 + d * 0x1_0000 + e * 0x100
        + f) as u64;
    assert(n <= 0xffff_ffff_ffff && n / 0x100_0000_0000 % 0x100 == a && n / 0x1_0000_0000 % 0x100
        == b && n / 0x100_0000 % 0x100 == c && n / 0x1_0000 % 0x100 == d && n / 0x100 % 0x100 == e
        && n % 0x100 == f) by (bit_vector)
        requires
            a < 0x100,
            b < 0x100,
            c < 0x100,
            d < 0x100,
            e < 0x100,
            f < 0x100,
            n == a * 0x100_0000_0000 + b * 0x1_0000_0000 + c * 0x100_0000 + d * 0x1_0000 + e
                * 0x100 + f,
    ;
    assert(mac_octets(mac_number(o)) =~= o);
}

/// The octets of a 48-bit number write that number.
pub proof fn lemma_number_of_octets(n: nat)
    requires
        n <= BROADCAST,
    ensures
        mac_number(mac_octets(n)) == n,
{
    let v = n as u64;
    assert((v / 0x100_0000_0000 % 0x100) * 0x100_0000_0000 + (v / 0x1_0000_0000 % 0x100)
        * 0x1_0000_0000 + (v / 0x100_0000 % 0x100) * 0x100_0000 + (v / 0x1_0000 % 0x100) * 0x1_0000
        + (v / 0x100 % 0x100) * 0x100 + v % 0x100 == v) by (bit_vector)
        requires
            v <= 0xffff_ffff_ffff,
    ;
}

} // verus!
