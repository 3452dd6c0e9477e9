//! Buffers of simple replies: what they render to, and that replies past
//! the ceiling are left alone.

use vstd::prelude::*;
use crate::resp::wire::{is_simple_reply, joined, lemma_joined_window, lemma_line_end_in_window};
use crate::resp::model::{
    clipped, dispatch, ERROR, MAX_COUNT, parse_outcome, pipeline_label, read_element, read_inline,
    Rendering, request_type, Step,
};

verus! {

/// What one simple reply adds to a rendering: a new element, whose token is
/// the reply without marker and terminator; an error reply as well where
/// `as_error` holds.
pub open spec fn render_reply(st: Rendering, reply: Seq<u8>, as_error: bool) -> Rendering {
    let begun = st.begin_element();
    let token = reply.subrange(1, reply.len() - 2);
    let routed = if as_error {
        begun.append_error_token(token)
    } else {
        begun
    };
    routed.append_token(token)
}

/// What simple replies add to a rendering, in their order.
pub open spec fn render_replies(st: Rendering, replies: Seq<Seq<u8>>, as_error: bool) -> Rendering
    decreases replies.len(),
{
    if replies.len() == 0 {
        st
    } else {
        render_reply(render_replies(st, replies.drop_last(), as_error), replies.last(), as_error)
    }
}

/// Rendering `n` replies from the empty state counts `n` elements.
pub proof fn lemma_replies_count(replies: Seq<Seq<u8>>, as_error: bool)
    ensures
        render_replies(Rendering::empty(), replies, as_error).element_count == replies.len(),
    decreases replies.len(),
{
    if replies.len() > 0 {
        lemma_replies_count(replies.drop_last(), as_error);
    }
}

/// Rendering replies from the empty state flags no parse error.
pub proof fn lemma_replies_keep_status(replies: Seq<Seq<u8>>, as_error: bool)
    ensures
        !render_replies(Rendering::empty(), replies, as_error).parse_error,
    decreases replies.len(),
{
    if replies.len() > 0 {
        lemma_replies_keep_status(replies.drop_last(), as_error);
    }
}

/// Replies whose first has a body render content, without a parse error,
/// and flag multiplexing from the second reply on.
pub proof fn lemma_replies_flags(replies: Seq<Seq<u8>>, as_error: bool)
    requires
        replies.len() > 0,
        replies[0].len() > 3,
    ensures
        render_replies(Rendering::empty(), replies, as_error).content.len() > 0,
        !render_replies(Rendering::empty(), replies, as_error).parse_error,
        render_replies(Rendering::empty(), replies, as_error).multiplexed == (replies.len() > 1),
        render_replies(Rendering::empty(), replies, as_error).response_error == as_error,
    decreases replies.len(),
{
    if replies.len() > 1 {
        assert(replies.drop_last()[0] == replies[0]);
        lemma_replies_flags(replies.drop_last(), as_error);
    } else {
        reveal_with_fuel(render_replies, 2);
        assert(replies.drop_last() =~= Seq::<Seq<u8>>::empty());
        assert(replies.last() == replies[0]);
        assert(clipped(replies[0].subrange(1, replies[0].len() - 2)).len() > 0);
    }
}

/// Decoding a buffer of simple replies, from the reply `i` on and with the
/// replies before it rendered, renders the replies up to the ceiling.
proof fn lemma_replies_from(replies: Seq<Seq<u8>>, i: int)
    requires
        0 <= i < replies.len(),
        i < MAX_COUNT,
        forall|j: int| 0 <= j < replies.len() ==> is_simple_reply(#[trigger] replies[j]),
    ensures
        dispatch(
            render_replies(Rendering::empty(), replies.take(i), replies[0][0] == ERROR),
            joined(replies),
            joined(replies.take(i)).len() as int,
        ) == render_replies(
            Rendering::empty(),
            replies.take(
                if replies.len() <= MAX_COUNT {
                    replies.len() as int
                } else {
                    MAX_COUNT as int
                },
            ),
            replies[0][0] == ERROR,
        ),
    decreases replies.len() - i,
{
    let p = joined(replies);
    let as_error = replies[0][0] == ERROR;
    let st = render_replies(Rendering::empty(), replies.take(i), as_error);
    let at = joined(replies.take(i)).len() as int;
    let reply = replies[i];
    assert(is_simple_reply(reply));
    lemma_joined_window(replies, i);
    lemma_joined_window(replies, 0);
    assert(replies.take(0) =~= Seq::<Seq<u8>>::empty());
    assert(joined(replies.take(0)).len() == 0);
    assert(p[0] == p.subrange(0, replies[0].len() as int)[0]);
    assert(p[at] == p.subrange(at, at + reply.len())[0]);
    lemma_line_end_in_window(p, at, reply, 1, reply.len() - 2);
    let end = at + reply.len() - 2;
    assert(p.subrange(at + 1, end) =~= reply.subrange(1, reply.len() - 2));
    let after = render_reply(st, reply, as_error);
    assert(read_inline(st, p, at) == (Step { state: after, next: Some(end + 2) }));
    assert(read_element(st, p, at) == read_inline(st, p, at));
    assert(replies.take(i + 1).drop_last() =~= replies.take(i));
    assert(after == render_replies(Rendering::empty(), replies.take(i + 1), as_error));
    lemma_replies_count(replies.take(i + 1), as_error);
    if i + 1 < replies.len() && i + 1 < MAX_COUNT {
        lemma_joined_window(replies, i + 1);
        lemma_replies_from(replies, i + 1);
    } else if i + 1 == replies.len() {
        assert(replies.take(i + 1) =~= replies);
    }
}

/// A buffer of simple replies renders its first `MAX_COUNT` replies, one
/// element each, and nothing of the rest.
pub proof fn lemma_replies_render(replies: Seq<Seq<u8>>)
    requires
        replies.len() > 0,
        forall|j: int| 0 <= j < replies.len() ==> is_simple_reply(#[trigger] replies[j]),
    ensures
        dispatch(Rendering::empty(), joined(replies), 0) == render_replies(
            Rendering::empty(),
            replies.take(
                if replies.len() <= MAX_COUNT {
                    replies.len() as int
                } else {
                    MAX_COUNT as int
                },
            ),
            replies[0][0] == ERROR,
        ),
{
    assert(replies.take(0) =~= Seq::<Seq<u8>>::empty());
    lemma_replies_from(replies, 0);
}

/// Replies past the ceiling change nothing: a buffer of `MAX_COUNT` or more
/// simple replies parses to what its first `MAX_COUNT` replies parse to,
/// with `MAX_COUNT` elements counted.
pub proof fn lemma_excess_replies_ignored(replies: Seq<Seq<u8>>)
    requires
        replies.len() >= MAX_COUNT,
        forall|j: int| 0 <= j < replies.len() ==> is_simple_reply(#[trigger] replies[j]),
    ensures
        parse_outcome(Rendering::empty(), joined(replies)) == parse_outcome(
            Rendering::empty(),
            joined(replies.take(MAX_COUNT as int)),
        ),
        parse_outcome(Rendering::empty(), joined(replies)).element_count == MAX_COUNT,
        parse_outcome(Rendering::empty(), joined(replies)).parse_error == (parse_outcome(
            Rendering::empty(),
            joined(replies),
        ).content.len() == 0),
{
    let first = replies.take(MAX_COUNT as int);
    lemma_replies_render(replies);
    lemma_replies_render(first);
    assert(first.take(MAX_COUNT as int) =~= first);
    lemma_replies_count(first, replies[0][0] == ERROR);
    lemma_replies_keep_status(first, replies[0][0] == ERROR);
}

/// A buffer of two or more simple replies, the first with a body, is a
/// pipeline: multiplexing is flagged, the request type is `pipeline`, no
/// parse error is flagged, and an error reply is flagged exactly where the
/// buffer starts with the error marker.
pub proof fn lemma_pipeline(replies: Seq<Seq<u8>>)
    requires
        replies.len() >= 2,
        replies[0].len() > 3,
        forall|j: int| 0 <= j < replies.len() ==> is_simple_reply(#[trigger] replies[j]),
    ensures
        parse_outcome(Rendering::empty(), joined(replies)).multiplexed,
        !parse_outcome(Rendering::empty(), joined(replies)).parse_error,
        parse_outcome(Rendering::empty(), joined(replies)).response_error == (replies[0][0]
            == ERROR),
        request_type(parse_outcome(Rendering::empty(), joined(replies))) == pipeline_label(),
{
    let shown = replies.take(
        if replies.len() <= MAX_COUNT {
            replies.len() as int
        } else {
            MAX_COUNT as int
        },
    );
    lemma_replies_render(replies);
    lemma_replies_flags(shown, replies[0][0] == ERROR);
    lemma_replies_count(shown, replies[0][0] == ERROR);
}

} // verus!
