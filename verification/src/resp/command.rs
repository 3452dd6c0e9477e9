//! Well-formed commands: what an array of bulk strings renders to.

use vstd::prelude::*;
use crate::resp::wire::{
    array_text, bulk_text, header_text, joined, lemma_decimal_text, lemma_header_is_read,
};
use crate::resp::model::{
    ARRAY, BULK, clipped, dispatch, first_space, parse_outcome, read_array, read_bulk, read_bulks,
    read_element, Rendering, request_type, SPACE, Step,
};

verus! {

/// What tokens add to a rendering, in their order.
pub open spec fn render_tokens(st: Rendering, tokens: Seq<Seq<u8>>) -> Rendering
    decreases tokens.len(),
{
    if tokens.len() == 0 {
        st
    } else {
        render_tokens(st, tokens.drop_last()).append_token(tokens.last())
    }
}

/// The tokens, each clipped, with a space between neighbours.
pub open spec fn spaced(tokens: Seq<Seq<u8>>) -> Seq<u8>
    decreases tokens.len(),
{
    if tokens.len() == 0 {
        Seq::empty()
    } else if tokens.len() == 1 {
        clipped(tokens[0])
    } else {
        spaced(tokens.drop_last()).push(SPACE) + clipped(tokens.last())
    }
}

/// Where a bulk string stands in `p` at `at`, it is read in full: its token
/// is appended, and the next offset is its end.
pub proof fn lemma_bulk_is_read(st: Rendering, p: Seq<u8>, at: int, token: Seq<u8>)
    requires
        0 <= at,
        at + bulk_text(token).len() <= p.len(),
        p.subrange(at, at + bulk_text(token).len()) == bulk_text(token),
        token.len() <= usize::MAX,
    ensures
        read_bulk(st, p, at) == (Step {
            state: st.append_token(token),
            next: Some(at + bulk_text(token).len()),
        }),
{
    let b = bulk_text(token);
    let h = header_text(BULK, token.len());
    let window = p.subrange(at, at + b.len());
    assert(p.subrange(at, at + h.len()) =~= h) by {
        assert forall|j: int| 0 <= j < h.len() implies p.subrange(at, at + h.len())[j] == h[j] by {
            assert(window[j] == b[j]);
        }
    }
    lemma_header_is_read(p, at, BULK, token.len());
    let start = at + h.len();
    assert(p.subrange(start, start + token.len()) =~= token) by {
        assert forall|j: int| 0 <= j < token.len() implies p.subrange(
            start,
            start + token.len(),
        )[j] == token[j] by {
            assert(window[h.len() + j] == b[h.len() + j]);
        }
    }
}

/// Reading `n + 1` bulk strings is reading `n` and then one more.
pub proof fn lemma_bulks_then_one(st: Rendering, p: Seq<u8>, at: int, n: nat)
    ensures
        read_bulks(st, p, at, n + 1) == match read_bulks(st, p, at, n).next {
            Some(next) => read_bulk(read_bulks(st, p, at, n).state, p, next),
            None => read_bulks(st, p, at, n),
        },
    decreases n,
{
    reveal_with_fuel(read_bulks, 2);
    if n > 0 {
        let first = read_bulk(st, p, at);
        match first.next {
            Some(next) => {
                lemma_bulks_then_one(first.state, p, next, (n - 1) as nat);
                assert(read_bulks(st, p, at, n) == read_bulks(
                    first.state,
                    p,
                    next,
                    (n - 1) as nat,
                ));
                assert(read_bulks(st, p, at, n + 1) == read_bulks(first.state, p, next, n));
            },
            None => {},
        }
    }
}

/// Where bulk strings stand in `p` one after the other from `at` on, they
/// are all read: their tokens are appended in order, and the next offset is
/// the end of the last.
pub proof fn lemma_bulks_are_read(st: Rendering, p: Seq<u8>, at: int, tokens: Seq<Seq<u8>>)
    requires
        0 <= at,
        at + joined(tokens.map_values(|t: Seq<u8>| bulk_text(t))).len() <= p.len(),
        p.subrange(at, at + joined(tokens.map_values(|t: Seq<u8>| bulk_text(t))).len()) == joined(
            tokens.map_values(|t: Seq<u8>| bulk_text(t)),
        ),
        forall|i: int| 0 <= i < tokens.len() ==> (#[trigger] tokens[i]).len() <= usize::MAX,
    ensures
        read_bulks(st, p, at, tokens.len()) == (Step {
            state: render_tokens(st, tokens),
            next: Some(at + joined(tokens.map_values(|t: Seq<u8>| bulk_text(t))).len()),
        }),
    decreases tokens.len(),
{
    if tokens.len() > 0 {
        let texts = tokens.map_values(|t: Seq<u8>| bulk_text(t));
        let front = tokens.drop_last();
        let front_texts = front.map_values(|t: Seq<u8>| bulk_text(t));
        assert(texts.drop_last() =~= front_texts);
        assert(texts.last() == bulk_text(tokens.last()));
        let all = joined(texts);
        let head = joined(front_texts);
        assert(all == head + bulk_text(tokens.last()));
        let window = p.subrange(at, at + all.len());
        assert(p.subrange(at, at + head.len()) =~= head) by {
            assert forall|j: int| 0 <= j < head.len() implies p.subrange(at, at + head.len())[j]
                == head[j] by {
                assert(window[j] == all[j]);
            }
        }
        lemma_bulks_are_read(st, p, at, front);
        let mid = at + head.len();
        let last = bulk_text(tokens.last());
        assert(p.subrange(mid, mid + last.len()) =~= last) by {
            assert forall|j: int| 0 <= j < last.len() implies p.subrange(mid, mid + last.len())[j]
                == last[j] by {
                assert(window[head.len() + j] == all[head.len() + j]);
            }
        }
        lemma_bulk_is_read(render_tokens(st, front), p, mid, tokens.last());
        lemma_bulks_then_one(st, p, at, front.len());
    }
}

/// Tokens that open a message render as the tokens, clipped and parted by
/// spaces, after what was rendered before.
pub proof fn lemma_tokens_are_spaced(st: Rendering, tokens: Seq<Seq<u8>>)
    requires
        !st.message_open,
    ensures
        render_tokens(st, tokens) == (Rendering {
            content: st.content + spaced(tokens),
            message_open: tokens.len() > 0,
            ..st
        }),
    decreases tokens.len(),
{
    if tokens.len() == 0 {
        assert(st.content + spaced(tokens) =~= st.content);
    } else {
        let front = tokens.drop_last();
        lemma_tokens_are_spaced(st, front);
        if front.len() == 0 {
            assert(st.content + spaced(front) =~= st.content);
            assert(tokens[0] == tokens.last());
        } else {
            assert((st.content + spaced(front)).push(SPACE) + clipped(tokens.last()) =~= st.content
                + spaced(tokens));
        }
    }
}

/// The first space of `s` is at `k` when no byte before `k` is a space and
/// `s` ends at `k` or holds a space there.
pub proof fn lemma_first_space_is(s: Seq<u8>, from: int, k: int)
    requires
        0 <= from <= k <= s.len(),
        forall|j: int| from <= j < k ==> s[j] != SPACE,
        k == s.len() || s[k] == SPACE,
    ensures
        first_space(s, from) == k,
    decreases k - from,
{
    if from < k {
        lemma_first_space_is(s, from + 1, k);
    }
}

/// The spaced tokens start with the first token, clipped, and go on with a
/// space if they go on.
pub proof fn lemma_spaced_starts(tokens: Seq<Seq<u8>>)
    requires
        tokens.len() > 0,
    ensures
        clipped(tokens[0]).is_prefix_of(spaced(tokens)),
        spaced(tokens).len() > clipped(tokens[0]).len() ==> spaced(tokens)[clipped(
            tokens[0],
        ).len() as int] == SPACE,
        tokens.len() == 1 ==> spaced(tokens) == clipped(tokens[0]),
    decreases tokens.len(),
{
    if tokens.len() > 1 {
        let front = tokens.drop_last();
        lemma_spaced_starts(front);
        assert(front[0] == tokens[0]);
    }
}

/// A well-formed command, an array of one or more bulk strings alone in
/// its buffer, parses from the empty state to one element: the content is
/// its tokens, clipped and parted by spaces, and neither an error reply
/// nor multiplexing is flagged. A parse error is flagged only where that
/// content is empty. Where the first token, clipped, holds no space, it is
/// the request type.
pub proof fn lemma_command_renders(tokens: Seq<Seq<u8>>)
    requires
        0 < tokens.len() <= usize::MAX,
        forall|i: int| 0 <= i < tokens.len() ==> (#[trigger] tokens[i]).len() <= usize::MAX,
    ensures
        parse_outcome(Rendering::empty(), array_text(tokens)).content == spaced(tokens),
        parse_outcome(Rendering::empty(), array_text(tokens)).error_content.len() == 0,
        parse_outcome(Rendering::empty(), array_text(tokens)).element_count == 1,
        !parse_outcome(Rendering::empty(), array_text(tokens)).response_error,
        !parse_outcome(Rendering::empty(), array_text(tokens)).multiplexed,
        parse_outcome(Rendering::empty(), array_text(tokens)).parse_error == (spaced(tokens).len()
            == 0),
        (forall|j: int| 0 <= j < clipped(tokens[0]).len() ==> clipped(tokens[0])[j] != SPACE)
            ==> request_type(parse_outcome(Rendering::empty(), array_text(tokens))) == clipped(
            tokens[0],
        ),
{
    let p = array_text(tokens);
    let h = header_text(ARRAY, tokens.len());
    let texts = tokens.map_values(|t: Seq<u8>| bulk_text(t));
    let body = joined(texts);
    let begun = Rendering::empty().begin_element();
    lemma_decimal_text(tokens.len());
    assert(p.subrange(0, h.len() as int) =~= h);
    lemma_header_is_read(p, 0, ARRAY, tokens.len());
    let start = h.len() as int;
    assert(p.subrange(start, start + body.len()) =~= body);
    assert(texts.last() == bulk_text(tokens.last()));
    assert(body.len() > 0);
    lemma_bulks_are_read(begun, p, start, tokens);
    lemma_tokens_are_spaced(begun, tokens);
    assert(begun.content + spaced(tokens) =~= spaced(tokens));
    assert(p[0] == ARRAY);
    assert(read_element(Rendering::empty(), p, 0) == read_array(Rendering::empty(), p, 0));
    let out = render_tokens(begun, tokens);
    assert(dispatch(Rendering::empty(), p, 0) == out);
    lemma_spaced_starts(tokens);
    if forall|j: int| 0 <= j < clipped(tokens[0]).len() ==> clipped(tokens[0])[j] != SPACE {
        let verb = clipped(tokens[0]);
        assert forall|j: int| 0 <= j < verb.len() implies spaced(tokens)[j] != SPACE by {
            assert(spaced(tokens)[j] == verb[j]);
        }
        lemma_first_space_is(spaced(tokens), 0, verb.len() as int);
        assert(spaced(tokens).take(verb.len() as int) =~= verb);
    }
}

} // verus!
