//! RESP as it is written on the wire: replies, headers, bulk strings and
//! arrays as byte sequences, and how the scanner reads them back.

use vstd::prelude::*;
use crate::resp::model::{ARRAY, BULK, is_inline_marker};
use crate::resp::scan::{
    all_digits, CR, decimal_value, is_digit, lemma_line_end_first, length_line, LF, line_end,
    terminator_at, ZERO,
};

verus! {

/// The buffer that holds the given pieces one after the other.
pub open spec fn joined(pieces: Seq<Seq<u8>>) -> Seq<u8>
    decreases pieces.len(),
{
    if pieces.len() == 0 {
        Seq::empty()
    } else {
        joined(pieces.drop_last()) + pieces.last()
    }
}

/// Piece `i` of a joined buffer is the window that starts where the pieces
/// before it end.
pub proof fn lemma_joined_window(pieces: Seq<Seq<u8>>, i: int)
    requires
        0 <= i < pieces.len(),
    ensures
        joined(pieces.take(i)).len() + pieces[i].len() == joined(pieces.take(i + 1)).len(),
        joined(pieces.take(i + 1)).len() <= joined(pieces).len(),
        joined(pieces).subrange(
            joined(pieces.take(i)).len() as int,
            joined(pieces.take(i + 1)).len() as int,
        ) == pieces[i],
    decreases pieces.len(),
{
    let front = pieces.drop_last();
    if i == pieces.len() - 1 {
        assert(pieces.take(i) =~= front);
        assert(pieces.take(i + 1) =~= pieces);
        assert(joined(pieces).subrange(joined(front).len() as int, joined(pieces).len() as int)
            =~= pieces[i]);
    } else {
        lemma_joined_window(front, i);
        assert(front.take(i) =~= pieces.take(i));
        assert(front.take(i + 1) =~= pieces.take(i + 1));
        assert(joined(pieces).subrange(
            joined(pieces.take(i)).len() as int,
            joined(pieces.take(i + 1)).len() as int,
        ) =~= joined(front).subrange(
            joined(pieces.take(i)).len() as int,
            joined(pieces.take(i + 1)).len() as int,
        ));
    }
}

/// Where `r` is the window of `p` that starts at `a`, a line of `r` ends
/// at the same place in `p`.
pub proof fn lemma_line_end_in_window(p: Seq<u8>, a: int, r: Seq<u8>, k: int, e: int)
    requires
        0 <= a,
        a + r.len() <= p.len(),
        p.subrange(a, a + r.len()) == r,
        0 <= k,
        line_end(r, k) == Some(e),
    ensures
        line_end(p, a + k) == Some(a + e),
{
    lemma_line_end_first(r, k);
    lemma_line_end_first(p, a + k);
    assert(r[e] == p[a + e] && r[e + 1] == p[a + e + 1]);
    assert(terminator_at(p, a + e));
    assert forall|j: int| a + k <= j < a + e implies !terminator_at(p, j) by {
        assert(r[j - a] == p[j] && r[j - a + 1] == p[j + 1]);
        assert(!terminator_at(r, j - a));
    }
}

/// An inline reply that stands alone: a marker, a line without terminator
/// in it, and the terminator that ends it.
pub open spec fn is_simple_reply(r: Seq<u8>) -> bool {
    r.len() >= 3 && is_inline_marker(r[0]) && line_end(r, 1) == Some(r.len() - 2)
}

/// The decimal digits that write `n`, without leading zeroes.
pub open spec fn decimal_text(n: nat) -> Seq<u8>
    decreases n,
{
    if n < 10 {
        seq![(ZERO + n) as u8]
    } else {
        decimal_text(n / 10).push((ZERO + n % 10) as u8)
    }
}

/// The digits of `n` are digits, at least one, and write `n`.
pub proof fn lemma_decimal_text(n: nat)
    ensures
        decimal_text(n).len() > 0,
        all_digits(decimal_text(n)),
        decimal_value(decimal_text(n)) == n,
    decreases n,
{
    if n < 10 {
        let s = decimal_text(n);
        assert(s.drop_last() =~= Seq::<u8>::empty());
        assert(decimal_value(s.drop_last()) == 0);
    } else {
        lemma_decimal_text(n / 10);
        let front = decimal_text(n / 10);
        let s = decimal_text(n);
        assert(s.drop_last() =~= front);
        assert forall|i: int| 0 <= i < s.len() implies is_digit(#[trigger] s[i]) by {
            if i < front.len() {
                assert(s[i] == front[i]);
            }
        }
    }
}

/// A header line: a marker, the digits of `n`, and the terminator.
pub open spec fn header_text(marker: u8, n: nat) -> Seq<u8> {
    seq![marker] + decimal_text(n) + seq![CR, LF]
}

/// A bulk string on the wire: its header, its bytes, and the terminator.
pub open spec fn bulk_text(token: Seq<u8>) -> Seq<u8> {
    header_text(BULK, token.len()) + token + seq![CR, LF]
}

/// An array of bulk strings on the wire: its header, then each bulk string.
pub open spec fn array_text(tokens: Seq<Seq<u8>>) -> Seq<u8> {
    header_text(ARRAY, tokens.len()) + joined(tokens.map_values(|t: Seq<u8>| bulk_text(t)))
}

/// Where a header line stands in `p` at `at`, the length it declares is
/// read, and the line ends where the header does.
pub proof fn lemma_header_is_read(p: Seq<u8>, at: int, marker: u8, n: nat)
    requires
        0 <= at,
        at + header_text(marker, n).len() <= p.len(),
        p.subrange(at, at + header_text(marker, n).len()) == header_text(marker, n),
        n <= usize::MAX,
    ensures
        length_line(p, at + 1) == Some((n, at + header_text(marker, n).len())),
{
    let h = header_text(marker, n);
    let digits = decimal_text(n);
    let d = digits.len() as int;
    lemma_decimal_text(n);
    lemma_line_end_first(h, 1);
    assert(h[1 + d] == CR && h[2 + d] == LF);
    assert(terminator_at(h, 1 + d));
    assert forall|j: int| 1 <= j < 1 + d implies !terminator_at(h, j) by {
        assert(h[j] == digits[j - 1]);
        assert(is_digit(digits[j - 1]));
    }
    assert(line_end(h, 1) == Some(1 + d));
    lemma_line_end_in_window(p, at, h, 1, 1 + d);
    assert(p.subrange(at + 1, at + 1 + d) =~= digits) by {
        assert forall|j: int| 0 <= j < d implies p.subrange(at + 1, at + 1 + d)[j] == digits[j] by {
            assert(p.subrange(at, at + h.len())[j + 1] == h[j + 1]);
        }
    }
}

} // verus!
