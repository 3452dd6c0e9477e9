//! Line-level primitives of RESP: where a line ends, and what length a
//! header line declares.

use vstd::prelude::*;

verus! {

/// Carriage return, first byte of the line terminator.
pub const CR: u8 = 13;

/// Line feed, second byte of the line terminator.
pub const LF: u8 = 10;

/// ASCII `0`.
pub const ZERO: u8 = 48;

/// ASCII `9`.
pub const NINE: u8 = 57;

/// The two-byte terminator CR LF starts at index `i` of `s`.
pub open spec fn terminator_at(s: Seq<u8>, i: int) -> bool {
    0 <= i && i + 1 < s.len() && s[i] == CR && s[i + 1] == LF
}

/// Index of the first terminator of `s` that starts at or after `from`.
pub open spec fn line_end(s: Seq<u8>, from: int) -> Option<int>
    decreases s.len() - from,
{
    if from + 1 >= s.len() {
        None
    } else if terminator_at(s, from) {
        Some(from)
    } else {
        line_end(s, from + 1)
    }
}

/// `line_end` is the least terminator position not before `from`, or `None`
/// exactly when no terminator starts there or later.
pub proof fn lemma_line_end_first(s: Seq<u8>, from: int)
    requires
        0 <= from,
    ensures
        match line_end(s, from) {
            Some(e) => from <= e && terminator_at(s, e) && forall|j: int|
                from <= j < e ==> !terminator_at(s, j),
            None => forall|j: int| from <= j ==> !terminator_at(s, j),
        },
    decreases s.len() - from,
{
    if from + 1 < s.len() && !terminator_at(s, from) {
        lemma_line_end_first(s, from + 1);
    }
}

/// `b` is an ASCII decimal digit.
pub open spec fn is_digit(b: u8) -> bool {
    ZERO <= b <= NINE
}

/// The number a digit byte stands for; zero for any other byte.
pub open spec fn digit_value(b: u8) -> nat {
    if is_digit(b) {
        (b - ZERO) as nat
    } else {
        0
    }
}

/// Every byte of `s` is an ASCII decimal digit.
pub open spec fn all_digits(s: Seq<u8>) -> bool {
    forall|i: int| 0 <= i < s.len() ==> is_digit(#[trigger] s[i])
}

/// The number that the digits of `s` write in base ten, most significant
/// digit first.
pub open spec fn decimal_value(s: Seq<u8>) -> nat
    decreases s.len(),
{
    if s.len() == 0 {
        0
    } else {
        decimal_value(s.drop_last()) * 10 + digit_value(s.last())
    }
}

/// The length that `s` declares: `s` is one or more ASCII digits and the
/// number they write fits the machine word.
pub open spec fn declared_length(s: Seq<u8>) -> Option<nat> {
    if s.len() > 0 && all_digits(s) && decimal_value(s) <= usize::MAX {
        Some(decimal_value(s))
    } else {
        None
    }
}

/// The header line that starts at `from`: the length it declares and the
/// offset just past its terminator.
pub open spec fn length_line(s: Seq<u8>, from: int) -> Option<(nat, int)> {
    match line_end(s, from) {
        Some(e) => match declared_length(s.subrange(from, e)) {
            Some(n) => Some((n, e + 2)),
            None => None,
        },
        None => None,
    }
}

/// A longer digit string never writes a smaller number than its prefix.
pub proof fn lemma_decimal_prefix(s: Seq<u8>, k: int)
    requires
        0 <= k <= s.len(),
    ensures
        decimal_value(s.take(k)) <= decimal_value(s),
    decreases s.len() - k,
{
    if k < s.len() {
        lemma_decimal_prefix(s, k + 1);
        assert(s.take(k + 1).drop_last() =~= s.take(k));
    } else {
        assert(s.take(k) =~= s);
    }
}

} // verus!
