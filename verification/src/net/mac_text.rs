//! Hardware addresses as text: six groups of hexadecimal digits, parted by
//! colons.

use vstd::prelude::*;
use vstd::string::{StrSliceExecFns, StringExecFns, StringSliceAdditionalSpecFns};
use vstd::utf8::{encode_utf8, is_ascii_chars, is_ascii_chars_encode_utf8};
use std::str::FromStr;
use crate::net::error::Error;
use crate::net::mac::{MacAddr, MAC_ADDR_LEN};

verus! {

/// ASCII `:`.
pub const COLON: u8 = 58;

/// ASCII `+`.
pub const PLUS: u8 = 43;

/// The value of a hexadecimal digit, of either case.
pub open spec fn hex_digit(b: u8) -> Option<nat> {
    if 48 <= b <= 57 {
        Some((b - 48) as nat)
    } else if 97 <= b <= 102 {
        Some((b - 87) as nat)
    } else if 65 <= b <= 70 {
        Some((b - 55) as nat)
    } else {
        None
    }
}

/// Every byte of `s` is a hexadecimal digit.
pub open spec fn all_hex(s: Seq<u8>) -> bool {
    forall|i: int| 0 <= i < s.len() ==> hex_digit(#[trigger] s[i]) is Some
}

/// The number that the digits of `s` write in base sixteen; a byte that is
/// no digit counts as zero.
pub open spec fn hex_value(s: Seq<u8>) -> nat
    decreases s.len(),
{
    if s.len() == 0 {
        0
    } else {
        hex_value(s.drop_last()) * 16 + match hex_digit(s.last()) {
            Some(d) => d,
            None => 0,
        }
    }
}

/// The octet that `digits` write: one or more hexadecimal digits whose
/// value fits an octet.
pub open spec fn hex_number(digits: Seq<u8>) -> Option<u8> {
    if digits.len() > 0 && all_hex(digits) && hex_value(digits) <= u8::MAX {
        Some(hex_value(digits) as u8)
    } else {
        None
    }
}

/// The octet that one group writes: an optional plus sign, then one or more
/// hexadecimal digits whose value fits an octet.
pub open spec fn hex_octet(group: Seq<u8>) -> Option<u8> {
    if group.len() > 0 && group[0] == PLUS {
        hex_number(group.skip(1))
    } else {
        hex_number(group)
    }
}

/// Where the group that starts at `from` ends: at the next colon, or at the
/// end of `s`.
pub open spec fn group_end(s: Seq<u8>, from: int) -> int
    decreases s.len() - from,
{
    if from >= s.len() || s[from] == COLON {
        from
    } else {
        group_end(s, from + 1)
    }
}

/// A group ends at or after its start, within `s`.
pub proof fn lemma_group_end_bounds(s: Seq<u8>, from: int)
    requires
        0 <= from <= s.len(),
    ensures
        from <= group_end(s, from) <= s.len(),
        group_end(s, from) < s.len() ==> s[group_end(s, from)] == COLON,
        forall|j: int| from <= j < group_end(s, from) ==> s[j] != COLON,
    decreases s.len() - from,
{
    if from < s.len() && s[from] != COLON {
        lemma_group_end_bounds(s, from + 1);
    }
}

/// Reads the groups of `s` from `from` on into `acc`, the first of them
/// into place `idx`. Fails on a group that writes no octet, and on a
/// seventh group.
pub open spec fn parse_groups(s: Seq<u8>, from: int, idx: int, acc: Seq<u8>) -> Option<Seq<u8>>
    decreases s.len() - from,
{
    if idx >= MAC_ADDR_LEN || from < 0 || from > s.len() {
        None
    } else {
        let end = group_end(s, from);
        match hex_octet(s.subrange(from, end)) {
            None => None,
            Some(v) => if end >= s.len() {
                Some(acc.update(idx, v))
            } else {
                proof {
                    lemma_group_end_bounds(s, from);
                }
                parse_groups(s, end + 1, idx + 1, acc.update(idx, v))
            },
        }
    }
}

/// The octets that the text `s` writes: up to six colon-separated groups,
/// the octets of missing groups being zero.
pub open spec fn parse_mac(s: Seq<u8>) -> Option<Seq<u8>> {
    parse_groups(s, 0, 0, seq![0u8, 0u8, 0u8, 0u8, 0u8, 0u8])
}

/// A longer digit string never writes a smaller number than its prefix.
pub proof fn lemma_hex_prefix(s: Seq<u8>, k: int)
    requires
        0 <= k <= s.len(),
    ensures
        hex_value(s.take(k)) <= hex_value(s),
    decreases s.len() - k,
{
    if k < s.len() {
        lemma_hex_prefix(s, k + 1);
        assert(s.take(k + 1).drop_last() =~= s.take(k));
    } else {
        assert(s.take(k) =~= s);
    }
}

/// Reads the octet that the group `bytes[from..end]` writes.
fn read_hex_octet(bytes: &[u8], from: usize, end: usize) -> (r: Option<u8>)
    requires
        from <= end <= bytes@.len(),
    ensures
        r == hex_octet(bytes@.subrange(from as int, end as int)),
{
    let ghost group = bytes@.subrange(from as int, end as int);
    let start = if from < end && bytes[from] == PLUS {
        from + 1
    } else {
        from
    };
    let ghost digits = bytes@.subrange(start as int, end as int);
    assert(digits =~= if group.len() > 0 && group[0] == PLUS {
        group.skip(1)
    } else {
        group
    });
    assert(hex_octet(group) == hex_number(digits));
    if start == end {
        return None;
    }
    let mut value: u8 = 0;
    let mut i = start;
    while i < end
        invariant
            from <= start <= i <= end <= bytes@.len(),
            digits == bytes@.subrange(start as int, end as int),
            hex_octet(bytes@.subrange(from as int, end as int)) == hex_number(digits),
            all_hex(digits.take(i - start)),
            value as nat == hex_value(digits.take(i - start)),
        decreases end - i,
    {
        let b = bytes[i];
        let ghost before = digits.take(i - start);
        let ghost after = digits.take(i + 1 - start);
        proof {
            assert(after.drop_last() =~= before);
            assert(after.last() == b);
            lemma_hex_prefix(digits, i + 1 - start);
        }
        let d: u8 = if 48 <= b && b <= 57 {
            b - 48
        } else if 97 <= b && b <= 102 {
            b - 87
        } else if 65 <= b && b <= 70 {
            b - 55
        } else {
            assert(hex_digit(digits[i - start]) is None);
            return None;
        };
        if value > 15 {
            return None;
        }
        value = value * 16 + d;
        i += 1;
        assert forall|j: int| 0 <= j < after.len() implies hex_digit(#[trigger] after[j]) is Some by {
            if j < before.len() {
                assert(after[j] == before[j]);
            }
        }
    }
    assert(digits.take(end - start) =~= digits);
    Some(value)
}

/// The lower-case hexadecimal digit for a value below sixteen.
pub open spec fn hex_char(n: nat) -> char {
    if n < 10 {
        ((48 + n) as u8) as char
    } else {
        ((87 + n) as u8) as char
    }
}

/// The two digits that write one octet.
pub open spec fn octet_text(b: u8) -> Seq<char> {
    seq![hex_char((b / 16) as nat), hex_char((b % 16) as nat)]
}

/// The text of the first `n` octets of `o`: two digits each, a colon
/// between neighbours.
pub open spec fn octets_text(o: Seq<u8>, n: nat) -> Seq<char>
    decreases n,
{
    if n == 0 {
        Seq::empty()
    } else if n == 1 {
        octet_text(o[0])
    } else {
        octets_text(o, (n - 1) as nat).push(':') + octet_text(o[n - 1])
    }
}

/// The text of an address: its six octets as `xx:xx:xx:xx:xx:xx`.
pub open spec fn mac_text(o: Seq<u8>) -> Seq<char> {
    octets_text(o, MAC_ADDR_LEN as nat)
}

/// A digit that `hex_char` writes is read back by `hex_digit`, and is
/// neither a colon nor a plus sign.
pub proof fn lemma_hex_char(n: nat)
    requires
        n < 16,
    ensures
        hex_digit(hex_char(n) as u8) == Some(n),
        hex_char(n) as u8 != COLON,
        hex_char(n) as u8 != PLUS,
        hex_char(n) as u8 <= 0x7f,
{
}

/// The character at place `k` of the text of `o`: the two digits of octet
/// `k / 3`, then a colon.
pub open spec fn text_char(o: Seq<u8>, k: int) -> char {
    if k % 3 == 0 {
        hex_char((o[k / 3] / 16) as nat)
    } else if k % 3 == 1 {
        hex_char((o[k / 3] % 16) as nat)
    } else {
        ':'
    }
}

/// The text of the first `n` octets has two digits for each octet and a
/// colon after each but the last.
pub proof fn lemma_octets_text_shape(o: Seq<u8>, n: nat)
    requires
        0 < n <= o.len(),
    ensures
        octets_text(o, n).len() == 3 * n - 1,
        forall|k: int| 0 <= k < 3 * n - 1 ==> #[trigger] octets_text(o, n)[k] == text_char(o, k),
    decreases n,
{
    if n > 1 {
        lemma_octets_text_shape(o, (n - 1) as nat);
        let front = octets_text(o, (n - 1) as nat);
        let all = octets_text(o, n);
        assert(all == front.push(':') + octet_text(o[n - 1]));
        assert forall|k: int| 0 <= k < 3 * n - 1 implies #[trigger] all[k] == text_char(o, k) by {
            if k < 3 * n - 4 {
                assert(all[k] == front[k]);
            }
        }
    }
}

/// The bytes of the text of six octets: seventeen bytes, each the
/// character of its place.
pub proof fn lemma_text_bytes(o: Seq<u8>)
    requires
        o.len() == MAC_ADDR_LEN,
    ensures
        encode_utf8(mac_text(o)).len() == 17,
        forall|k: int|
            0 <= k < 17 ==> #[trigger] encode_utf8(mac_text(o))[k] == text_char(o, k) as u8,
{
    let chars = mac_text(o);
    lemma_octets_text_shape(o, 6);
    assert forall|k: int| 0 <= k < chars.len() implies '\0' <= #[trigger] chars[k] <= '\u{7f}' by {
        assert(chars[k] == text_char(o, k));
        lemma_hex_char((o[k / 3] / 16) as nat);
        lemma_hex_char((o[k / 3] % 16) as nat);
    }
    assert(is_ascii_chars(chars));
    is_ascii_chars_encode_utf8(chars);
    let t = encode_utf8(chars);
    assert forall|k: int| 0 <= k < 17 implies #[trigger] t[k] == text_char(o, k) as u8 by {
        assert(t[k] == chars[k] as u8);
    }
}

/// Reading the text of `o` from its group `idx` on, with the octets before
/// it already in place, gives `o`.
proof fn lemma_groups_round_trip(o: Seq<u8>, idx: int, acc: Seq<u8>)
    requires
        o.len() == MAC_ADDR_LEN,
        acc.len() == MAC_ADDR_LEN,
        0 <= idx < MAC_ADDR_LEN,
        forall|j: int| 0 <= j < idx ==> acc[j] == o[j],
    ensures
        parse_groups(encode_utf8(mac_text(o)), 3 * idx, idx, acc) == Some(o),
    decreases MAC_ADDR_LEN - idx,
{
    let t = encode_utf8(mac_text(o));
    let from = 3 * idx;
    let (hi, lo) = ((o[idx] / 16) as nat, (o[idx] % 16) as nat);
    lemma_text_bytes(o);
    lemma_hex_char(hi);
    lemma_hex_char(lo);
    assert(t[from] == text_char(o, from) as u8);
    assert(t[from + 1] == text_char(o, from + 1) as u8);
    assert(t[from] == hex_char(hi) as u8 && t[from + 1] == hex_char(lo) as u8);
    if idx < 5 {
        assert(t[from + 2] == text_char(o, from + 2) as u8);
        assert(t[from + 2] == COLON);
    }
    reveal_with_fuel(group_end, 3);
    assert(group_end(t, from) == from + 2);
    let group = t.subrange(from, from + 2);
    reveal_with_fuel(hex_value, 3);
    assert(group.drop_last() =~= seq![t[from]]);
    assert(group.drop_last().drop_last() =~= Seq::<u8>::empty());
    assert(hex_value(group) == hi * 16 + lo);
    assert(all_hex(group));
    assert(hex_octet(group) == Some(o[idx]));
    let next = acc.update(idx, o[idx]);
    if idx < 5 {
        lemma_groups_round_trip(o, idx + 1, next);
    } else {
        assert(next =~= o);
    }
}

/// The text of an address reads back as that address.
pub proof fn lemma_text_round_trip(o: Seq<u8>)
    requires
        o.len() == MAC_ADDR_LEN,
    ensures
        parse_mac(encode_utf8(mac_text(o))) == Some(o),
{
    lemma_groups_round_trip(o, 0, seq![0u8, 0u8, 0u8, 0u8, 0u8, 0u8]);
}

/// The one-digit text for a value below sixteen.
fn hex_str(n: u8) -> (r: &'static str)
    requires
        n < 16,
    ensures
        r@ == seq![hex_char(n as nat)],
{
    let digits = "0123456789abcdef";
    proof {
        reveal_strlit("0123456789abcdef");
    }
    let r = digits.substring_ascii(n as usize, n as usize + 1);
    assert(r@ =~= seq![hex_char(n as nat)]);
    r
}

impl MacAddr {
    /// The address as text: six groups of two lower-case hexadecimal
    /// digits, parted by colons.
    pub fn to_string(&self) -> (r: String)
        ensures
            r@ == mac_text(self@),
    {
        let o = self.octets();
        let mut text = String::new();
        let mut i: usize = 0;
        while i < MAC_ADDR_LEN
            invariant
                i <= MAC_ADDR_LEN,
                o@ == self@,
                o@.len() == MAC_ADDR_LEN,
                text@ == octets_text(o@, i as nat),
            decreases MAC_ADDR_LEN - i,
        {
            if i > 0 {
                proof {
                    reveal_strlit(":");
                }
                text.append(":");
            }
            let b = o[i];
            text.append(hex_str(b / 16));
            text.append(hex_str(b % 16));
            i += 1;
            assert(text@ =~= octets_text(o@, i as nat));
        }
        text
    }
}

impl FromStr for MacAddr {
    type Err = Error;

    /// Reads an address from text such as `12:34:56:78:9a:bc`. The error
    /// carries the text as it was given.
    fn from_str(s: &str) -> (r: Result<MacAddr, Error>)
        ensures
            match r {
                Ok(mac) => parse_mac(s.spec_bytes()) == Some(mac@),
                Err(e) => parse_mac(s.spec_bytes()) is None && (e matches Error::ParseMacFailed(t)
                    && t@ == s@),
            },
    {
        let bytes = s.as_bytes();
        let mut addr = [0u8;6];
        assert(addr@ =~= seq![0u8, 0u8, 0u8, 0u8, 0u8, 0u8]);
        let mut from: usize = 0;
        let mut idx: usize = 0;
        loop
            invariant
                bytes@ == s.spec_bytes(),
                from <= bytes@.len(),
                idx <= MAC_ADDR_LEN,
                parse_groups(bytes@, from as int, idx as int, addr@) == parse_mac(bytes@),
            decreases bytes@.len() - from,
        {
            if idx >= MAC_ADDR_LEN {
                return Err(Error::ParseMacFailed(s.to_owned()));
            }
            let mut end = from;
            while end < bytes.len() && bytes[end] != COLON
                invariant
                    from <= end <= bytes@.len(),
                    group_end(bytes@, from as int) == group_end(bytes@, end as int),
                decreases bytes@.len() - end,
            {
                end += 1;
            }
            match read_hex_octet(bytes, from, end) {
                Some(v) => {
                    addr[idx] = v;
                },
                None => {
                    return Err(Error::ParseMacFailed(s.to_owned()));
                },
            }
            if end >= bytes.len() {
                return Ok(MacAddr::from(addr));
            }
            from = end + 1;
            idx += 1;
        }
    }
}

} // verus!
