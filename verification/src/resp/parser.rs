//! The parser: executable code that renders one captured buffer.

use vstd::prelude::*;
use vstd::slice::slice_subrange;
use vstd::string::StringSliceAdditionalSpecFns;
use vstd::utf8::{decode_utf8, valid_utf8};
use std::str::Utf8Error;
use crate::common::{IpProtocol, ParseParam};
use crate::resp::laws::lemma_element_ceiling;
use crate::resp::model::{
    data_error, dispatch, first_space, lemma_bulk_advances, lemma_bulk_needs_bytes,
    lemma_element_advances, parse_outcome, plausible_command, read_array, read_bulk, read_bulks,
    read_inline, request_type, Rendering, ARRAY, BULK, ERROR, INTEGER, MAX_COUNT, MAX_LEN, MIN_LEN,
    NEWLINE, SIMPLE, SPACE,
};
use crate::resp::scan::{
    all_digits, decimal_value, is_digit, lemma_decimal_prefix, lemma_line_end_first, length_line,
    line_end, terminator_at, CR, LF, NINE, ZERO,
};

verus! {

/// Status bit: decoding failed, or nothing was decoded.
const PARSE_ERR: u8 = 1;

/// Status bit: an error reply was rendered.
const RESP_ERR: u8 = 2;

/// Status bit: the buffer held more than one top-level message.
const RESP_MUL: u8 = 4;

/// An offset as the parser holds it: the mathematical offset, saturating
/// at the largest machine word.
spec fn held(next: Option<int>) -> Option<usize> {
    match next {
        Some(k) => Some(if k <= usize::MAX { k as usize } else { usize::MAX }),
        None => None,
    }
}

/// What `std::str::from_utf8` answers for bytes that are not valid UTF-8.
#[verifier::external_type_specification]
#[verifier::external_body]
pub struct ExUtf8Error(Utf8Error);

/// `std::str::from_utf8`: the string slice over `bytes` when they are valid
/// UTF-8, and an error when they are not.
#[verifier::external_body]
fn utf8_str(bytes: &[u8]) -> (r: Result<&str, Utf8Error>)
    ensures
        match r {
            Ok(s) => valid_utf8(bytes@) && s.spec_bytes() == bytes@,
            Err(_) => !valid_utf8(bytes@),
        },
{
    std::str::from_utf8(bytes)
}

/// Renders the RESP tokens of one captured buffer into a log-friendly line
/// and keeps the flags that say how the decoding went.
#[derive(Debug)]
pub struct RedisParser {
    lines: Vec<u8>,
    err_lines: Vec<u8>,
    status: u8,
    count: usize,
    message_open: bool,
}

impl View for RedisParser {
    type V = Rendering;

    closed spec fn view(&self) -> Rendering {
        Rendering {
            content: self.lines@,
            error_content: self.err_lines@,
            parse_error: self.status & PARSE_ERR != 0,
            response_error: self.status & RESP_ERR != 0,
            multiplexed: self.status & RESP_MUL != 0,
            element_count: self.count as nat,
            message_open: self.message_open,
        }
    }
}

impl Default for RedisParser {
    /// A parser that has seen nothing yet.
    fn default() -> (r: RedisParser)
        ensures
            r@ == Rendering::empty(),
    {
        let r = RedisParser {
            lines: Vec::new(),
            err_lines: Vec::new(),
            status: 0,
            count: 0,
            message_open: false,
        };
        proof {
            assert(0u8 & 1 == 0 && 0u8 & 2 == 0 && 0u8 & 4 == 0) by (bit_vector);
        }
        r
    }
}

impl RedisParser {
    fn set_resp_err(&mut self)
        ensures
            final(self)@ == (Rendering { response_error: true, ..old(self)@ }),
    {
        let s = self.status;
        proof {
            assert((s | 2) & 2 != 0 && (s | 2) & 1 == s & 1 && (s | 2) & 4 == s & 4) by (bit_vector);
        }
        self.status = s | RESP_ERR;
    }

    fn set_parse_err(&mut self)
        ensures
            final(self)@ == old(self)@.fail(),
    {
        let s = self.status;
        proof {
            assert((s | 1) & 1 != 0 && (s | 1) & 2 == s & 2 && (s | 1) & 4 == s & 4) by (bit_vector);
        }
        self.status = s | PARSE_ERR;
    }

    fn set_resp_mul(&mut self)
        ensures
            final(self)@ == (Rendering { multiplexed: true, ..old(self)@ }),
    {
        let s = self.status;
        proof {
            assert((s | 4) & 4 != 0 && (s | 4) & 1 == s & 1 && (s | 4) & 2 == s & 2) by (bit_vector);
        }
        self.status = s | RESP_MUL;
    }

    /// Whether an error reply was rendered.
    pub fn is_resp_err(&self) -> (r: bool)
        ensures
            r == self@.response_error,
    {
        self.status & RESP_ERR > 0
    }

    /// Whether decoding failed or nothing was decoded.
    pub fn is_parse_err(&self) -> (r: bool)
        ensures
            r == self@.parse_error,
    {
        self.status & PARSE_ERR > 0
    }

    /// Whether the buffer held more than one top-level message.
    pub fn is_resp_mul(&self) -> (r: bool)
        ensures
            r == self@.multiplexed,
    {
        self.status & RESP_MUL > 0
    }

    /// The rendered content.
    pub fn get_content(&self) -> (r: &[u8])
        ensures
            r@ == self@.content,
    {
        self.lines.as_slice()
    }

    /// The rendered error replies.
    pub fn get_err(&self) -> (r: &[u8])
        ensures
            r@ == self@.error_content,
    {
        self.err_lines.as_slice()
    }

    /// The rendered content as text, or the empty string when it is not
    /// valid UTF-8.
    pub fn get_content_str(&self) -> (r: &str)
        ensures
            valid_utf8(self@.content) ==> r.spec_bytes() == self@.content && r@ == decode_utf8(
                self@.content,
            ),
            !valid_utf8(self@.content) ==> r@.len() == 0,
    {
        match utf8_str(self.lines.as_slice()) {
            Ok(s) => {
                proof {
                    vstd::utf8::encode_utf8_decode_utf8(s@);
                }
                s
            },
            Err(_) => {
                proof {
                    reveal_strlit("");
                }
                ""
            },
        }
    }

    /// Whether an error reply that was rendered is to be discounted: see
    /// `data_error`.
    pub fn is_data_err(&self, original_payload_len: u32, payload: &[u8]) -> (r: bool)
        ensures
            r == data_error(self@, original_payload_len as int, payload@),
    {
        if !self.is_resp_err() {
            return false;
        }
        if original_payload_len as usize == payload.len() {
            return true;
        }
        if self.is_resp_mul() {
            return false;
        }
        if payload.len() == 0 {
            return true;
        }
        let b = payload[0];
        !(b == SIMPLE || b == ERROR || b == INTEGER || b == ARRAY || b == BULK)
    }

    /// The request type: `pipeline` for a multiplexed buffer, else the
    /// content up to its first space.
    pub fn get_req_type(&self) -> (r: &[u8])
        ensures
            r@ == request_type(self@),
    {
        if self.is_resp_mul() {
            return PIPELINE.as_slice();
        }
        let mut i: usize = 0;
        while i < self.lines.len() && self.lines[i] != SPACE
            invariant
                i <= self.lines.len(),
                first_space(self.lines@, 0) == first_space(self.lines@, i as int),
            decreases self.lines.len() - i,
        {
            i += 1;
        }
        slice_subrange(self.lines.as_slice(), 0, i)
    }

    fn add_line(&mut self)
        requires
            old(self)@.element_count < usize::MAX,
        ensures
            final(self)@ == old(self)@.begin_element(),
    {
        if self.lines.len() > 0 {
            self.lines.push(NEWLINE);
            self.set_resp_mul();
        }
        self.count += 1;
        self.message_open = false;
    }

    fn push(&mut self, payload: &[u8])
        ensures
            final(self)@ == old(self)@.append_token(payload@),
    {
        if self.message_open {
            self.lines.push(SPACE);
        }
        let shown = if payload.len() < MAX_LEN {
            payload
        } else {
            slice_subrange(payload, 0, MAX_LEN)
        };
        self.lines.extend_from_slice(shown);
        self.message_open = true;
        assert(self.lines@ =~= old(self)@.append_token(payload@).content);
    }

    fn push_err(&mut self, payload: &[u8])
        ensures
            final(self)@ == old(self)@.append_error_token(payload@),
    {
        self.set_resp_err();
        if self.err_lines.len() > 0 {
            self.err_lines.push(NEWLINE);
        }
        let shown = if payload.len() < MAX_LEN {
            payload
        } else {
            slice_subrange(payload, 0, MAX_LEN)
        };
        self.err_lines.extend_from_slice(shown);
        assert(self.err_lines@ =~= old(self)@.append_error_token(payload@).error_content);
    }

    /// Scans `payload` from `offset` for the first CR LF and returns the
    /// index of its CR, or `None` when no terminator starts at or after
    /// `offset`.
    pub fn read_line_end(payload: &[u8], offset: usize) -> (r: Option<usize>)
        ensures
            match r {
                Some(e) => line_end(payload@, offset as int) == Some(e as int) && offset <= e
                    && terminator_at(payload@, e as int) && forall|j: int|
                    offset <= j < e ==> !terminator_at(payload@, j),
                None => line_end(payload@, offset as int) is None && forall|j: int|
                    offset <= j ==> !terminator_at(payload@, j),
            },
    {
        proof {
            lemma_line_end_first(payload@, offset as int);
        }
        let len = payload.len();
        if len < 2 {
            return None;
        }
        let mut i = offset;
        while i < len - 1
            invariant
                len == payload.len(),
                len >= 2,
                offset <= i,
                line_end(payload@, offset as int) == line_end(payload@, i as int),
            decreases len - i,
        {
            if payload[i] == CR && payload[i + 1] == LF {
                proof {
                    lemma_line_end_first(payload@, offset as int);
                }
                return Some(i);
            }
            i += 1;
        }
        None
    }

    /// Reads the decimal length declared on the line that starts at
    /// `offset`. Returns the length and the offset just past the line's
    /// terminator, or `None` when the line has no terminator, is empty,
    /// holds a byte that is no digit, or declares more than the machine
    /// word can hold.
    pub fn read_len(payload: &[u8], offset: usize) -> (r: Option<(usize, usize)>)
        ensures
            match r {
                Some((n, next)) => length_line(payload@, offset as int) == Some(
                    (n as nat, next as int),
                ),
                None => length_line(payload@, offset as int) is None,
            },
    {
        let end = match Self::read_line_end(payload, offset) {
            Some(e) => e,
            None => { return None; },
        };
        proof {
            lemma_line_end_first(payload@, offset as int);
        }
        if end == offset {
            return None;
        }
        let ghost digits = payload@.subrange(offset as int, end as int);
        let mut value: usize = 0;
        let mut i = offset;
        while i < end
            invariant
                offset <= i <= end,
                end + 1 < payload.len(),
                line_end(payload@, offset as int) == Some(end as int),
                digits == payload@.subrange(offset as int, end as int),
                all_digits(digits.take(i - offset)),
                value as nat == decimal_value(digits.take(i - offset)),
            decreases end - i,
        {
            let b = payload[i];
            let ghost before = digits.take(i - offset);
            let ghost after = digits.take(i + 1 - offset);
            proof {
                assert(after.drop_last() =~= before);
                assert(after.last() == b);
                lemma_decimal_prefix(digits, i + 1 - offset);
            }
            if b < ZERO || b > NINE {
                assert(!is_digit(digits[i - offset]));
                return None;
            }
            let digit = (b - ZERO) as usize;
            let scaled = match value.checked_mul(10) {
                Some(v) => v,
                None => { return None; },
            };
            value = match scaled.checked_add(digit) {
                Some(v) => v,
                None => { return None; },
            };
            i += 1;
            assert forall|j: int| 0 <= j < after.len() implies is_digit(#[trigger] after[j]) by {
                if j < before.len() {
                    assert(after[j] == before[j]);
                }
            }
        }
        assert(digits.take(end - offset) =~= digits);
        Some((value, end + 2))
    }

    /// Reads the bulk string whose marker is at `offset` and renders it.
    /// Returns the offset just past its terminator, or `None`, with nothing
    /// rendered, when its header or its bytes are cut short.
    fn read_dollar(&mut self, payload: &[u8], offset: usize) -> (r: Option<usize>)
        ensures
            final(self)@ == read_bulk(old(self)@, payload@, offset as int).state,
            r == held(read_bulk(old(self)@, payload@, offset as int).next),
    {
        if offset >= payload.len() {
            proof {
                lemma_bulk_needs_bytes(self@, payload@, offset as int);
            }
            return None;
        }
        match Self::read_len(payload, offset + 1) {
            Some((len, start)) => {
                proof {
                    lemma_line_end_first(payload@, offset + 1);
                }
                if len >= payload.len() - start {
                    return None;
                }
                self.push(slice_subrange(payload, start, start + len));
                Some((start + len).saturating_add(2))
            },
            None => None,
        }
    }

    /// Reads the array whose marker is at `offset`: begins a top-level
    /// element and renders the bulk strings that its header counts. Returns
    /// the offset just past the last of them, or `None` as soon as the
    /// header or one of them cannot be read.
    fn read_star(&mut self, payload: &[u8], offset: usize) -> (r: Option<usize>)
        requires
            offset < payload.len(),
            old(self)@.element_count < usize::MAX,
        ensures
            final(self)@ == read_array(old(self)@, payload@, offset as int).state,
            r == held(read_array(old(self)@, payload@, offset as int).next),
    {
        self.add_line();
        let ghost begun = self@;
        match Self::read_len(payload, offset + 1) {
            Some((n, start)) => {
                proof {
                    lemma_line_end_first(payload@, offset + 1);
                }
                if start >= payload.len() {
                    return None;
                }
                let mut at = start;
                let ghost mut spec_at: int = start as int;
                let mut i: usize = 0;
                while i < n
                    invariant
                        i <= n,
                        0 <= spec_at,
                        offset < payload.len(),
                        start < payload.len(),
                        begun == old(self)@.begin_element(),
                        length_line(payload@, offset + 1) == Some((n as nat, start as int)),
                        Some(at) == held(Some(spec_at)),
                        spec_at <= payload.len() + 1,
                        read_bulks(self@, payload@, spec_at, (n - i) as nat) == read_bulks(
                            begun,
                            payload@,
                            start as int,
                            n as nat,
                        ),
                    decreases n - i,
                {
                    let ghost before = self@;
                    proof {
                        lemma_bulk_advances(before, payload@, spec_at);
                        if spec_at > usize::MAX {
                            lemma_bulk_needs_bytes(before, payload@, spec_at);
                            lemma_bulk_needs_bytes(before, payload@, at as int);
                        }
                    }
                    match self.read_dollar(payload, at) {
                        Some(o) => {
                            proof {
                                spec_at = read_bulk(before, payload@, spec_at).next.unwrap();
                            }
                            at = o;
                        },
                        None => {
                            return None;
                        },
                    }
                    i += 1;
                }
                Some(at)
            },
            None => None,
        }
    }

    /// Reads the inline token whose marker is at `offset`: begins a
    /// top-level element and renders the bytes between the marker and the
    /// line's terminator, as an error reply too where the buffer starts
    /// with the error marker. Returns the offset just past the terminator,
    /// or `None` when the line has none.
    fn read_str(&mut self, payload: &[u8], offset: usize) -> (r: Option<usize>)
        requires
            offset < payload.len(),
            old(self)@.element_count < usize::MAX,
        ensures
            final(self)@ == read_inline(old(self)@, payload@, offset as int).state,
            r == held(read_inline(old(self)@, payload@, offset as int).next),
    {
        self.add_line();
        match Self::read_line_end(payload, offset + 1) {
            Some(end) => {
                proof {
                    lemma_line_end_first(payload@, offset + 1);
                }
                let token = slice_subrange(payload, offset + 1, end);
                if payload[0] == ERROR {
                    self.push_err(token);
                }
                self.push(token);
                Some(end + 2)
            },
            None => None,
        }
    }

    /// Decodes top-level elements from `offset` on, until the buffer is
    /// used up, `MAX_COUNT` elements have begun, or one cannot be read,
    /// which flags a parse error.
    fn dispatcher(&mut self, payload: &[u8], offset: usize)
        requires
            old(self)@.element_count < usize::MAX,
        ensures
            final(self)@ == dispatch(old(self)@, payload@, offset as int),
    {
        let mut at = offset;
        loop
            invariant
                self@.element_count < usize::MAX,
                dispatch(self@, payload@, at as int) == dispatch(
                    old(self)@,
                    payload@,
                    offset as int,
                ),
            decreases payload.len() - at,
        {
            if at > payload.len() || payload.len() - at < MIN_LEN {
                return ;
            }
            let ghost before = self@;
            proof {
                lemma_element_advances(before, payload@, at as int);
            }
            let marker = payload[at];
            let next = if marker == ARRAY {
                self.read_star(payload, at)
            } else if marker == BULK {
                self.read_dollar(payload, at)
            } else if marker == SIMPLE || marker == ERROR || marker == INTEGER {
                self.read_str(payload, at)
            } else {
                None
            };
            match next {
                Some(n) => {
                    if n < payload.len() && self.count < MAX_COUNT {
                        at = n;
                    } else {
                        return ;
                    }
                },
                None => {
                    self.set_parse_err();
                    return ;
                },
            }
        }
    }

    /// Parses one captured buffer: renders its tokens into the content and
    /// error buffers and sets the status flags. A parse error is flagged
    /// when an element cannot be read, and when no element began or nothing
    /// was rendered, as for every buffer shorter than `MIN_LEN`.
    pub fn parse(&mut self, payload: &[u8])
        requires
            old(self)@.element_count < usize::MAX,
        ensures
            final(self)@ == parse_outcome(old(self)@, payload@),
            final(self)@.element_count == 0 ==> final(self)@.parse_error,
            old(self)@.element_count < MAX_COUNT ==> final(self)@.element_count <= MAX_COUNT,
    {
        proof {
            lemma_element_ceiling(self@, payload@, 0);
        }
        self.dispatcher(payload, 0);
        if self.count == 0 || self.lines.len() < 1 {
            self.set_parse_err();
        }
    }

    /// Whether `payload`, captured in the context `param`, looks like a RESP
    /// command at all: see `plausible_command`.
    pub fn check(payload: &[u8], param: &ParseParam) -> (r: bool)
        ensures
            r == plausible_command(payload@, *param),
    {
        if !param.ebpf_type.is_raw_protocol() {
            return false;
        }
        if param.l4_protocol != IpProtocol::Tcp {
            return false;
        }
        if payload.len() == 0 || payload[0] != ARRAY {
            return false;
        }
        match Self::read_len(payload, 1) {
            Some((_, idx)) => {
                if idx >= payload.len() {
                    return false;
                }
                let b = payload[idx];
                b == SIMPLE || b == ERROR || b == INTEGER || b == ARRAY || b == BULK
            },
            None => false,
        }
    }
}

/// The bytes of `pipeline`.
pub const PIPELINE: [u8; 8] = [112, 105, 112, 101, 108, 105, 110, 101];

} // verus!
