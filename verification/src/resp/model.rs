//! What a parse leaves behind, as a mathematical value, and how each token
//! of a buffer changes it.

use vstd::prelude::*;
use crate::common::{IpProtocol, ParseParam};
use crate::resp::scan::{lemma_line_end_first, length_line, line_end};

verus! {

/// Shortest buffer that can hold a token.
pub const MIN_LEN: usize = 2;

/// Most bytes of one token that are rendered.
pub const MAX_LEN: usize = 32;

/// Most top-level elements that are decoded from one buffer.
pub const MAX_COUNT: usize = 20;

/// Marker of an array.
pub const ARRAY: u8 = 42;

/// Marker of a bulk string.
pub const BULK: u8 = 36;

/// Marker of a simple string.
pub const SIMPLE: u8 = 43;

/// Marker of an error reply.
pub const ERROR: u8 = 45;

/// Marker of an integer.
pub const INTEGER: u8 = 58;

/// Separator between the tokens of one top-level message.
pub const SPACE: u8 = 32;

/// Separator between top-level messages, and between error replies.
pub const NEWLINE: u8 = 10;

/// `b` is one of the three markers of an inline token.
pub open spec fn is_inline_marker(b: u8) -> bool {
    b == SIMPLE || b == ERROR || b == INTEGER
}

/// `b` is one of the five markers that may lead a RESP value.
pub open spec fn is_marker(b: u8) -> bool {
    b == ARRAY || b == BULK || is_inline_marker(b)
}

/// The part of a token that is rendered: its first `MAX_LEN` bytes.
pub open spec fn clipped(token: Seq<u8>) -> Seq<u8> {
    if token.len() <= MAX_LEN {
        token
    } else {
        token.take(MAX_LEN as int)
    }
}

/// The state of a parser: what has been rendered and flagged so far.
pub struct Rendering {
    /// Rendered tokens; a space between the tokens of one message, a newline
    /// between messages.
    pub content: Seq<u8>,
    /// Rendered error replies, newline-separated.
    pub error_content: Seq<u8>,
    /// Decoding failed, or nothing was decoded.
    pub parse_error: bool,
    /// An error reply was rendered.
    pub response_error: bool,
    /// A top-level element began after content had been rendered.
    pub multiplexed: bool,
    /// Top-level elements begun so far.
    pub element_count: nat,
    /// A token has been appended since the current top-level message began.
    pub message_open: bool,
}

impl Rendering {
    /// The state before anything is parsed.
    pub open spec fn empty() -> Rendering {
        Rendering {
            content: Seq::empty(),
            error_content: Seq::empty(),
            parse_error: false,
            response_error: false,
            multiplexed: false,
            element_count: 0,
            message_open: false,
        }
    }

    /// A top-level element begins: a newline parts it from earlier content,
    /// which also marks the buffer as multiplexed, and it is counted.
    pub open spec fn begin_element(self) -> Rendering {
        Rendering {
            content: if self.content.len() > 0 {
                self.content.push(NEWLINE)
            } else {
                self.content
            },
            multiplexed: self.multiplexed || self.content.len() > 0,
            element_count: self.element_count + 1,
            message_open: false,
            ..self
        }
    }

    /// A token is rendered: after a space unless it is the first of its
    /// message, and clipped to `MAX_LEN` bytes.
    pub open spec fn append_token(self, token: Seq<u8>) -> Rendering {
        let lead = if self.message_open {
            self.content.push(SPACE)
        } else {
            self.content
        };
        Rendering { content: lead + clipped(token), message_open: true, ..self }
    }

    /// An error reply is rendered into the error buffer: after a newline
    /// unless the buffer is empty, and clipped to `MAX_LEN` bytes.
    pub open spec fn append_error_token(self, token: Seq<u8>) -> Rendering {
        let lead = if self.error_content.len() > 0 {
            self.error_content.push(NEWLINE)
        } else {
            self.error_content
        };
        Rendering { error_content: lead + clipped(token), response_error: true, ..self }
    }

    /// Decoding failed.
    pub open spec fn fail(self) -> Rendering {
        Rendering { parse_error: true, ..self }
    }
}

/// Outcome of reading one token: the state it leaves and, when the token
/// was read in full, the offset just past it.
pub struct Step {
    pub state: Rendering,
    pub next: Option<int>,
}

/// Reads the bulk string whose marker is at `at`: its header declares a
/// length, and that many bytes must end before the buffer does.
pub open spec fn read_bulk(st: Rendering, p: Seq<u8>, at: int) -> Step {
    match length_line(p, at + 1) {
        Some((len, start)) => if start + len >= p.len() {
            Step { state: st, next: None }
        } else {
            Step {
                state: st.append_token(p.subrange(start, start + len)),
                next: Some(start + len + 2),
            }
        },
        None => Step { state: st, next: None },
    }
}

/// Reads `n` bulk strings one after the other, the first at `at`, and stops
/// at the first that fails.
pub open spec fn read_bulks(st: Rendering, p: Seq<u8>, at: int, n: nat) -> Step
    decreases n,
{
    if n == 0 {
        Step { state: st, next: Some(at) }
    } else {
        let first = read_bulk(st, p, at);
        match first.next {
            Some(next) => read_bulks(first.state, p, next, (n - 1) as nat),
            None => first,
        }
    }
}

/// Reads the array whose marker is at `at`: a new top-level element, whose
/// header declares how many bulk strings follow. Bytes must follow the
/// header.
pub open spec fn read_array(st: Rendering, p: Seq<u8>, at: int) -> Step {
    let begun = st.begin_element();
    match length_line(p, at + 1) {
        Some((n, start)) => if start >= p.len() {
            Step { state: begun, next: None }
        } else {
            read_bulks(begun, p, start, n)
        },
        None => Step { state: begun, next: None },
    }
}

/// Reads the inline token whose marker is at `at`: a new top-level element,
/// whose payload runs from the marker to the line's terminator. Where the
/// buffer itself starts with the error marker, the payload is an error
/// reply as well.
pub open spec fn read_inline(st: Rendering, p: Seq<u8>, at: int) -> Step {
    let begun = st.begin_element();
    match line_end(p, at + 1) {
        Some(e) => {
            let token = p.subrange(at + 1, e);
            let routed = if p[0] == ERROR {
                begun.append_error_token(token)
            } else {
                begun
            };
            Step { state: routed.append_token(token), next: Some(e + 2) }
        },
        None => Step { state: begun, next: None },
    }
}

/// Reads the top-level element at `at`, by its marker.
pub open spec fn read_element(st: Rendering, p: Seq<u8>, at: int) -> Step {
    if p[at] == ARRAY {
        read_array(st, p, at)
    } else if p[at] == BULK {
        read_bulk(st, p, at)
    } else if is_inline_marker(p[at]) {
        read_inline(st, p, at)
    } else {
        Step { state: st, next: None }
    }
}

/// No bulk string can be read where fewer than two bytes follow the marker.
pub proof fn lemma_bulk_needs_bytes(st: Rendering, p: Seq<u8>, at: int)
    requires
        at + 2 >= p.len(),
    ensures
        read_bulk(st, p, at) == (Step { state: st, next: None }),
{
}

/// A bulk string that is read in full ends after its marker.
pub proof fn lemma_bulk_advances(st: Rendering, p: Seq<u8>, at: int)
    requires
        0 <= at,
    ensures
        match read_bulk(st, p, at).next {
            Some(next) => at + 3 < next <= p.len() + 1,
            None => true,
        },
{
    lemma_line_end_first(p, at + 1);
}

/// A run of bulk strings that is read in full ends at or after its start.
pub proof fn lemma_bulks_advance(st: Rendering, p: Seq<u8>, at: int, n: nat)
    requires
        0 <= at,
    ensures
        match read_bulks(st, p, at, n).next {
            Some(next) => at <= next && (next <= p.len() + 1 || next == at),
            None => true,
        },
    decreases n,
{
    if n > 0 {
        lemma_bulk_advances(st, p, at);
        let first = read_bulk(st, p, at);
        match first.next {
            Some(next) => lemma_bulks_advance(first.state, p, next, (n - 1) as nat),
            None => {},
        }
    }
}

/// An element that is read in full ends after its marker, and at most one
/// byte past the buffer.
pub proof fn lemma_element_advances(st: Rendering, p: Seq<u8>, at: int)
    requires
        0 <= at,
    ensures
        match read_element(st, p, at).next {
            Some(next) => at < next <= p.len() + 1,
            None => true,
        },
{
    lemma_line_end_first(p, at + 1);
    lemma_bulk_advances(st, p, at);
    if p[at] == ARRAY {
        match length_line(p, at + 1) {
            Some((n, start)) => lemma_bulks_advance(st.begin_element(), p, start, n),
            None => {},
        }
    }
}

/// Decodes top-level elements from `at` on: one after the other while bytes
/// remain and fewer than `MAX_COUNT` elements have begun. Fewer than
/// `MIN_LEN` remaining bytes leave the state as it is; an element that
/// cannot be read flags a parse error and ends the decoding.
pub open spec fn dispatch(st: Rendering, p: Seq<u8>, at: int) -> Rendering
    decreases p.len() - at,
{
    if at < 0 || at + MIN_LEN > p.len() {
        st
    } else {
        let step = read_element(st, p, at);
        match step.next {
            None => step.state.fail(),
            Some(next) => {
                if next < p.len() && step.state.element_count < MAX_COUNT {
                    proof {
                        lemma_element_advances(st, p, at);
                    }
                    dispatch(step.state, p, next)
                } else {
                    step.state
                }
            },
        }
    }
}

/// The state after a whole buffer was parsed: decoded from its first byte,
/// and flagged as a parse error as well when no element began or nothing
/// was rendered.
pub open spec fn parse_outcome(st: Rendering, p: Seq<u8>) -> Rendering {
    let decoded = dispatch(st, p, 0);
    if decoded.element_count == 0 || decoded.content.len() == 0 {
        decoded.fail()
    } else {
        decoded
    }
}

/// What `get_req_type` answers for a multiplexed buffer: the bytes of
/// `pipeline`.
pub open spec fn pipeline_label() -> Seq<u8> {
    seq![112u8, 105u8, 112u8, 101u8, 108u8, 105u8, 110u8, 101u8]
}

/// Index of the first space of `s` at or after `from`, or the length of `s`
/// when there is none.
pub open spec fn first_space(s: Seq<u8>, from: int) -> int
    decreases s.len() - from,
{
    if from >= s.len() || s[from] == SPACE {
        from
    } else {
        first_space(s, from + 1)
    }
}

/// The request type of a rendering: `pipeline` for a multiplexed buffer,
/// else the content up to its first space.
pub open spec fn request_type(st: Rendering) -> Seq<u8> {
    if st.multiplexed {
        pipeline_label()
    } else {
        st.content.take(first_space(st.content, 0))
    }
}

/// Whether an error reply in `st` is to be discounted as an artifact, given
/// the length first captured and the payload that was parsed: with an error
/// reply rendered, either nothing was cut off, or a lone element does not
/// even start with a RESP marker.
pub open spec fn data_error(st: Rendering, original_len: int, p: Seq<u8>) -> bool {
    st.response_error && (original_len == p.len() || (!st.multiplexed && !(p.len() > 0
        && is_marker(p[0]))))
}

/// Whether `p`, captured in the context `param`, looks like a RESP command:
/// raw bytes of a TCP stream that start with an array header, right after
/// which a RESP marker follows.
pub open spec fn plausible_command(p: Seq<u8>, param: ParseParam) -> bool {
    &&& param.ebpf_type.is_raw_protocol()
    &&& param.l4_protocol == IpProtocol::Tcp
    &&& p.len() > 0
    &&& p[0] == ARRAY
    &&& match length_line(p, 1) {
        Some((_, next)) => next < p.len() && is_marker(p[next]),
        None => false,
    }
}

} // verus!
