//! What holds of every parse: bounds, truncation, and flags that only rise.

use vstd::prelude::*;
use crate::common::{IpProtocol, ParseParam};
use crate::resp::model::{
    ARRAY, BULK, clipped, data_error, dispatch, ERROR, is_inline_marker, is_marker,
    lemma_element_advances, MAX_COUNT, MAX_LEN, MIN_LEN, parse_outcome, plausible_command,
    read_bulk, read_bulks, read_element, Rendering, SPACE, Step,
};
use crate::resp::scan::{lemma_line_end_first, length_line, line_end};

verus! {

/// Parsing a buffer shorter than `MIN_LEN` decodes nothing: the state stays
/// as it was, but for the parse error that is flagged when no element has
/// begun or nothing has been rendered. From the empty state, every such
/// buffer yields a parse error and empty content.
pub proof fn lemma_short_buffer(st: Rendering, p: Seq<u8>)
    requires
        p.len() < MIN_LEN,
    ensures
        parse_outcome(st, p) == if st.element_count == 0 || st.content.len() == 0 {
            st.fail()
        } else {
            st
        },
        parse_outcome(Rendering::empty(), p) == Rendering::empty().fail(),
        parse_outcome(Rendering::empty(), p).parse_error,
        parse_outcome(Rendering::empty(), p).content.len() == 0,
{
}

/// A bulk string whose declared length reaches or passes the end of the
/// buffer is not read: the token fails, nothing is rendered for it, and a
/// parse that meets it as a top-level element flags a parse error.
pub proof fn lemma_truncated_bulk(st: Rendering, p: Seq<u8>, at: int, len: nat, start: int)
    requires
        0 <= at,
        at + MIN_LEN <= p.len(),
        p[at] == BULK,
        length_line(p, at + 1) == Some((len, start)),
        len >= p.len() - start,
    ensures
        read_bulk(st, p, at) == (Step { state: st, next: None }),
        dispatch(st, p, at) == st.fail(),
        at == 0 ==> parse_outcome(st, p) == st.fail(),
{
}

/// Appending a token renders at most `MAX_LEN` of its bytes, after at most
/// one separator; what was rendered before stays in front.
pub proof fn lemma_token_is_clipped(st: Rendering, token: Seq<u8>)
    ensures
        clipped(token).len() <= MAX_LEN,
        clipped(token).len() <= token.len(),
        clipped(token) == token.take(clipped(token).len() as int),
        st.append_token(token).content.len() <= st.content.len() + 1 + MAX_LEN,
        st.content.is_prefix_of(st.append_token(token).content),
        st.append_error_token(token).error_content.len() <= st.error_content.len() + 1 + MAX_LEN,
        st.error_content.is_prefix_of(st.append_error_token(token).error_content),
{
    assert(token.take(token.len() as int) =~= token);
}

/// Of a bulk string longer than `MAX_LEN` only the first `MAX_LEN` bytes are
/// rendered: the content grows by them, after a space where the message
/// already holds a token.
pub proof fn lemma_long_bulk_is_clipped(st: Rendering, p: Seq<u8>, at: int, len: nat, start: int)
    requires
        0 <= at,
        length_line(p, at + 1) == Some((len, start)),
        start + len < p.len(),
        len > MAX_LEN,
    ensures
        read_bulk(st, p, at).next == Some(start + len + 2),
        read_bulk(st, p, at).state.content == (if st.message_open {
            st.content.push(SPACE)
        } else {
            st.content
        }) + p.subrange(start, start + MAX_LEN),
{
    lemma_line_end_first(p, at + 1);
    let token = p.subrange(start, start + len);
    assert(token.take(MAX_LEN as int) =~= p.subrange(start, start + MAX_LEN));
}

/// Reading bulk strings begins no element.
pub proof fn lemma_bulks_keep_count(st: Rendering, p: Seq<u8>, at: int, n: nat)
    ensures
        read_bulks(st, p, at, n).state.element_count == st.element_count,
    decreases n,
{
    if n > 0 {
        let first = read_bulk(st, p, at);
        match first.next {
            Some(next) => lemma_bulks_keep_count(first.state, p, next, (n - 1) as nat),
            None => {},
        }
    }
}

/// Reading one top-level element begins at most one element.
pub proof fn lemma_element_counts_once(st: Rendering, p: Seq<u8>, at: int)
    ensures
        st.element_count <= read_element(st, p, at).state.element_count <= st.element_count + 1,
{
    match length_line(p, at + 1) {
        Some((n, start)) => lemma_bulks_keep_count(st.begin_element(), p, start, n),
        None => {},
    }
}

/// Decoding never begins more than `MAX_COUNT` elements, or one more than
/// had begun before where that is more.
pub proof fn lemma_element_ceiling(st: Rendering, p: Seq<u8>, at: int)
    ensures
        st.element_count <= dispatch(st, p, at).element_count,
        dispatch(st, p, at).element_count <= if st.element_count < MAX_COUNT {
            MAX_COUNT as nat
        } else {
            st.element_count + 1
        },
    decreases p.len() - at,
{
    if !(at < 0 || at + MIN_LEN > p.len()) {
        let step = read_element(st, p, at);
        lemma_element_counts_once(st, p, at);
        lemma_element_advances(st, p, at);
        match step.next {
            Some(next) => {
                if next < p.len() && step.state.element_count < MAX_COUNT {
                    lemma_element_ceiling(step.state, p, next);
                }
            },
            None => {},
        }
    }
}

/// A parse from the empty state counts at most `MAX_COUNT` elements, and
/// flags a parse error whenever it counts none.
pub proof fn lemma_parse_count(p: Seq<u8>)
    ensures
        parse_outcome(Rendering::empty(), p).element_count <= MAX_COUNT,
        parse_outcome(Rendering::empty(), p).element_count == 0 ==> parse_outcome(
            Rendering::empty(),
            p,
        ).parse_error,
{
    lemma_element_ceiling(Rendering::empty(), p, 0);
}

/// `a` has everything that `b` had: what `b` had rendered is still in
/// front, every flag of `b` is still set, and no element is uncounted.
pub open spec fn extends(a: Rendering, b: Rendering) -> bool {
    &&& b.content.is_prefix_of(a.content)
    &&& b.error_content.is_prefix_of(a.error_content)
    &&& b.parse_error ==> a.parse_error
    &&& b.response_error ==> a.response_error
    &&& b.multiplexed ==> a.multiplexed
    &&& b.element_count <= a.element_count
}

/// Reading bulk strings only adds to a rendering.
pub proof fn lemma_bulks_extend(st: Rendering, p: Seq<u8>, at: int, n: nat)
    ensures
        extends(read_bulks(st, p, at, n).state, st),
        read_bulks(st, p, at, n).state.response_error == st.response_error,
        read_bulks(st, p, at, n).state.multiplexed == st.multiplexed,
        read_bulks(st, p, at, n).state.error_content == st.error_content,
    decreases n,
{
    if n > 0 {
        let first = read_bulk(st, p, at);
        match first.next {
            Some(next) => lemma_bulks_extend(first.state, p, next, (n - 1) as nat),
            None => {},
        }
    }
}

/// Reading one element only adds to a rendering. It renders an error reply
/// only where the buffer starts with the error marker, and flags
/// multiplexing only where content had been rendered before.
pub proof fn lemma_element_extends(st: Rendering, p: Seq<u8>, at: int)
    ensures
        extends(read_element(st, p, at).state, st),
        p[0] != ERROR ==> read_element(st, p, at).state.response_error == st.response_error
            && read_element(st, p, at).state.error_content == st.error_content,
        read_element(st, p, at).state.multiplexed == (st.multiplexed || (st.content.len() > 0
            && (p[at] == ARRAY || is_inline_marker(p[at])))),
{
    match length_line(p, at + 1) {
        Some((n, start)) => lemma_bulks_extend(st.begin_element(), p, start, n),
        None => {},
    }
}

/// Decoding only adds to a rendering: what was rendered stays in front,
/// also where decoding fails later, and no flag is ever cleared.
pub proof fn lemma_dispatch_extends(st: Rendering, p: Seq<u8>, at: int)
    ensures
        extends(dispatch(st, p, at), st),
    decreases p.len() - at,
{
    if !(at < 0 || at + MIN_LEN > p.len()) {
        let step = read_element(st, p, at);
        lemma_element_extends(st, p, at);
        lemma_element_advances(st, p, at);
        match step.next {
            Some(next) => {
                if next < p.len() && step.state.element_count < MAX_COUNT {
                    lemma_dispatch_extends(step.state, p, next);
                }
            },
            None => {},
        }
    }
}

/// Parsing only adds to a rendering.
pub proof fn lemma_parse_extends(st: Rendering, p: Seq<u8>)
    ensures
        extends(parse_outcome(st, p), st),
{
    lemma_dispatch_extends(st, p, 0);
}

/// An element that cannot be read ends the decoding: a parse error is
/// flagged, and what the element rendered before it failed stays.
pub proof fn lemma_failed_element(st: Rendering, p: Seq<u8>, at: int)
    requires
        0 <= at,
        at + MIN_LEN <= p.len(),
        read_element(st, p, at).next is None,
    ensures
        dispatch(st, p, at) == read_element(st, p, at).state.fail(),
        dispatch(st, p, at).parse_error,
        extends(dispatch(st, p, at), st),
{
    lemma_element_extends(st, p, at);
}

/// A run of bulk strings fails where one of them does: if the first `k`
/// are read and the next is not, no longer run is read, and it renders
/// what the first `k` rendered.
pub proof fn lemma_failed_bulk_fails_run(st: Rendering, p: Seq<u8>, at: int, k: nat, n: nat)
    requires
        k < n,
        read_bulks(st, p, at, k).next is Some,
        read_bulk(read_bulks(st, p, at, k).state, p, read_bulks(st, p, at, k).next.unwrap()).next
            is None,
    ensures
        read_bulks(st, p, at, n).next is None,
        read_bulks(st, p, at, n).state == read_bulks(st, p, at, k).state,
    decreases n,
{
    if k > 0 {
        let first = read_bulk(st, p, at);
        lemma_failed_bulk_fails_run(
            first.state,
            p,
            first.next.unwrap(),
            (k - 1) as nat,
            (n - 1) as nat,
        );
    }
}

/// Decoding a buffer that does not start with the error marker renders no
/// error reply.
pub proof fn lemma_no_error_without_marker(st: Rendering, p: Seq<u8>, at: int)
    requires
        p.len() > 0,
        p[0] != ERROR,
    ensures
        dispatch(st, p, at).response_error == st.response_error,
        dispatch(st, p, at).error_content == st.error_content,
    decreases p.len() - at,
{
    if !(at < 0 || at + MIN_LEN > p.len()) {
        let step = read_element(st, p, at);
        lemma_element_extends(st, p, at);
        lemma_element_advances(st, p, at);
        match step.next {
            Some(next) => {
                if next < p.len() && step.state.element_count < MAX_COUNT {
                    lemma_no_error_without_marker(step.state, p, next);
                }
            },
            None => {},
        }
    }
}

/// A parse from the empty state flags an error reply exactly where the
/// buffer starts with an error reply: the error marker, and a line that is
/// terminated.
pub proof fn lemma_response_error_iff(p: Seq<u8>)
    ensures
        parse_outcome(Rendering::empty(), p).response_error <==> (p.len() >= MIN_LEN && p[0]
            == ERROR && line_end(p, 1) is Some),
{
    let st = Rendering::empty();
    if p.len() >= MIN_LEN {
        if p[0] == ERROR {
            let step = read_element(st, p, 0);
            lemma_element_advances(st, p, 0);
            match step.next {
                Some(next) => {
                    lemma_dispatch_extends(step.state, p, next);
                },
                None => {},
            }
        } else {
            lemma_no_error_without_marker(st, p, 0);
        }
    }
}

/// Where multiplexing is flagged, an element has begun and content has
/// been rendered.
pub open spec fn multiplexing_is_founded(st: Rendering) -> bool {
    st.multiplexed ==> st.content.len() > 0 && st.element_count > 0
}

/// Decoding keeps multiplexing founded.
pub proof fn lemma_multiplexing_founded(st: Rendering, p: Seq<u8>, at: int)
    requires
        multiplexing_is_founded(st),
    ensures
        multiplexing_is_founded(dispatch(st, p, at)),
        at == 0 ==> multiplexing_is_founded(parse_outcome(st, p)),
    decreases p.len() - at,
{
    if !(at < 0 || at + MIN_LEN > p.len()) {
        let step = read_element(st, p, at);
        lemma_element_extends(st, p, at);
        lemma_element_counts_once(st, p, at);
        lemma_element_advances(st, p, at);
        assert(multiplexing_is_founded(step.state)) by {
            match length_line(p, at + 1) {
                Some((n, start)) => {
                    lemma_bulks_extend(st.begin_element(), p, start, n);
                    lemma_bulks_keep_count(st.begin_element(), p, start, n);
                },
                None => {},
            }
        }
        match step.next {
            Some(next) => {
                if next < p.len() && step.state.element_count < MAX_COUNT {
                    lemma_multiplexing_founded(step.state, p, next);
                }
            },
            None => {},
        }
    }
}

/// The four cases of the data-error heuristic, for a rendering with an
/// error reply: nothing cut off means a data error; else a multiplexed
/// buffer means none; else a payload that starts with a RESP marker means
/// none, and any other payload means a data error. Without an error reply
/// there is never a data error.
pub proof fn lemma_data_error_cases(st: Rendering, original_len: int, p: Seq<u8>)
    ensures
        !st.response_error ==> !data_error(st, original_len, p),
        st.response_error && original_len == p.len() ==> data_error(st, original_len, p),
        st.response_error && original_len != p.len() && st.multiplexed ==> !data_error(
            st,
            original_len,
            p,
        ),
        st.response_error && original_len != p.len() && !st.multiplexed && p.len() > 0
            && is_marker(p[0]) ==> !data_error(st, original_len, p),
        st.response_error && original_len != p.len() && !st.multiplexed && !(p.len() > 0
            && is_marker(p[0])) ==> data_error(st, original_len, p),
{
}

/// The pre-check refuses every buffer that does not start with the array
/// marker, and every capture that is not raw or not TCP; and it accepts an
/// array header that a RESP marker follows, in a raw TCP capture.
pub proof fn lemma_check_cases(p: Seq<u8>, param: ParseParam, n: nat, next: int)
    ensures
        p.len() == 0 || p[0] != ARRAY ==> !plausible_command(p, param),
        param.l4_protocol != IpProtocol::Tcp ==> !plausible_command(p, param),
        !param.ebpf_type.is_raw_protocol() ==> !plausible_command(p, param),
        param.ebpf_type.is_raw_protocol() && param.l4_protocol == IpProtocol::Tcp && p.len() > 0
            && p[0] == ARRAY && length_line(p, 1) == Some((n, next)) && next < p.len()
            && is_marker(p[next]) ==> plausible_command(p, param),
{
}

} // verus!
