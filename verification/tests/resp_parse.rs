use agent_core::resp::parser::RedisParser;

fn parsed(payload: &[u8]) -> RedisParser {
    let mut p = RedisParser::default();
    p.parse(payload);
    p
}

#[test]
fn short_buffers_are_parse_errors() {
    for payload in [&b""[..], &b"+"[..], &b"*"[..], &b"\r"[..]] {
        let p = parsed(payload);
        assert!(p.is_parse_err());
        assert_eq!(p.get_content(), b"");
        assert_eq!(p.get_err(), b"");
        assert!(!p.is_resp_err());
        assert!(!p.is_resp_mul());
    }
}

#[test]
fn array_of_bulk_strings_renders_space_joined() {
    let p = parsed(b"*3\r\n$3\r\nSET\r\n$1\r\na\r\n$1\r\n1\r\n");
    assert_eq!(p.get_content(), b"SET a 1");
    assert_eq!(p.get_content_str(), "SET a 1");
    assert!(!p.is_parse_err());
    assert!(!p.is_resp_err());
    assert!(!p.is_resp_mul());
    assert_eq!(p.get_req_type(), b"SET");
}

#[test]
fn simple_reply_renders_without_marker() {
    let p = parsed(b"+OK\r\n");
    assert_eq!(p.get_content(), b"OK");
    assert!(!p.is_parse_err());
    assert!(!p.is_resp_err());
    assert!(!p.is_resp_mul());
    assert_eq!(p.get_req_type(), b"OK");
}

#[test]
fn error_reply_is_rendered_twice() {
    let p = parsed(b"-ERR bad\r\n");
    assert!(p.is_resp_err());
    assert_eq!(p.get_err(), b"ERR bad");
    assert_eq!(p.get_content(), b"ERR bad");
    assert_eq!(p.get_req_type(), b"ERR");
    assert!(!p.is_parse_err());
    assert!(!p.is_resp_mul());
}

#[test]
fn two_replies_are_a_pipeline() {
    let p = parsed(b"+OK\r\n+OK\r\n");
    assert!(p.is_resp_mul());
    assert_eq!(p.get_content(), b"OK\nOK");
    assert_eq!(p.get_req_type(), b"pipeline");
    assert!(!p.is_parse_err());
    assert!(!p.is_resp_err());
}

#[test]
fn bulk_longer_than_buffer_is_a_parse_error() {
    let p = parsed(b"$10\r\nabc\r\n");
    assert!(p.is_parse_err());
    assert_eq!(p.get_content(), b"");
}

#[test]
fn long_bulk_token_is_clipped_to_32_bytes() {
    let mut payload = b"*2\r\n$40\r\n".to_vec();
    payload.extend_from_slice(&[b'x'; 40]);
    payload.extend_from_slice(b"\r\n$3\r\nend\r\n");
    let p = parsed(&payload);
    let mut expected = vec![b'x'; 32];
    expected.extend_from_slice(b" end");
    assert_eq!(p.get_content(), &expected[..]);
    assert!(!p.is_parse_err());
    assert_eq!(p.get_req_type(), &[b'x'; 32][..]);
}

#[test]
fn token_of_exactly_32_bytes_is_kept_whole() {
    let mut payload = b"$32\r\n".to_vec();
    payload.extend_from_slice(&[b'y'; 32]);
    payload.extend_from_slice(b"\r\n");
    let mut p = RedisParser::default();
    p.parse(b"+a\r\n");
    p.parse(&payload);
    let mut expected = b"a ".to_vec();
    expected.extend_from_slice(&[b'y'; 32]);
    assert_eq!(p.get_content(), &expected[..]);
}

#[test]
fn long_error_reply_is_clipped_in_both_buffers() {
    let mut payload = b"-".to_vec();
    payload.extend_from_slice(&[b'e'; 50]);
    payload.extend_from_slice(b"\r\n");
    let p = parsed(&payload);
    assert_eq!(p.get_err(), &[b'e'; 32][..]);
    assert_eq!(p.get_content(), &[b'e'; 32][..]);
    assert!(p.is_resp_err());
}

#[test]
fn only_twenty_replies_are_rendered() {
    let mut payload = Vec::new();
    for i in 0..25u8 {
        payload.push(b'+');
        payload.push(b'a' + i);
        payload.extend_from_slice(b"\r\n");
    }
    let p = parsed(&payload);
    let mut expected = Vec::new();
    for i in 0..20u8 {
        if i > 0 {
            expected.push(b'\n');
        }
        expected.push(b'a' + i);
    }
    assert_eq!(p.get_content(), &expected[..]);
    assert!(!p.is_parse_err());
    assert!(!p.is_resp_err());
    assert!(p.is_resp_mul());
    assert_eq!(p.get_req_type(), b"pipeline");

    let twenty = parsed(&payload[..20 * 4]);
    assert_eq!(twenty.get_content(), p.get_content());
    assert!(!twenty.is_parse_err());
    let twenty_one = parsed(&payload[..21 * 4]);
    assert_eq!(twenty_one.get_content(), p.get_content());
    assert!(!twenty_one.is_parse_err());
}

#[test]
fn every_reply_of_an_error_buffer_is_an_error_reply() {
    let p = parsed(b"-ERR one\r\n+two\r\n:3\r\n");
    assert_eq!(p.get_content(), b"ERR one\ntwo\n3");
    assert_eq!(p.get_err(), b"ERR one\ntwo\n3");
    assert!(p.is_resp_err());
    assert!(p.is_resp_mul());
    assert!(!p.is_parse_err());
}

#[test]
fn error_marker_later_in_the_buffer_is_no_error_reply() {
    let p = parsed(b"+OK\r\n-ERR late\r\n");
    assert_eq!(p.get_content(), b"OK\nERR late");
    assert_eq!(p.get_err(), b"");
    assert!(!p.is_resp_err());
    assert!(p.is_resp_mul());
}

#[test]
fn integer_reply_renders_its_digits() {
    let p = parsed(b":1000\r\n");
    assert_eq!(p.get_content(), b"1000");
    assert_eq!(p.get_req_type(), b"1000");
    assert!(!p.is_parse_err());
}

#[test]
fn unknown_marker_is_a_parse_error() {
    let p = parsed(b"hello\r\n");
    assert!(p.is_parse_err());
    assert_eq!(p.get_content(), b"");
    let q = parsed(b"+OK\r\nhello\r\n");
    assert!(q.is_parse_err());
    assert_eq!(q.get_content(), b"OK");
    assert!(!q.is_resp_mul());
}

#[test]
fn missing_terminator_is_a_parse_error_after_the_element_began() {
    let p = parsed(b"+OK\r\n+PON");
    assert!(p.is_parse_err());
    assert!(p.is_resp_mul());
    assert_eq!(p.get_content(), b"OK\n");
}

#[test]
fn truncated_array_keeps_what_was_rendered() {
    let p = parsed(b"*3\r\n$3\r\nSET\r\n$5\r\nhel");
    assert!(p.is_parse_err());
    assert_eq!(p.get_content(), b"SET");
    assert_eq!(p.get_req_type(), b"SET");
    assert!(!p.is_resp_mul());
}

#[test]
fn bulk_that_ends_with_the_buffer_is_cut_short() {
    let p = parsed(b"*1\r\n$3\r\nfoo");
    assert!(p.is_parse_err());
    assert_eq!(p.get_content(), b"");
    let q = parsed(b"*1\r\n$3\r\nfoo\r");
    assert!(!q.is_parse_err());
    assert_eq!(q.get_content(), b"foo");
}

#[test]
fn array_header_needs_bytes_after_it() {
    assert!(parsed(b"*0\r\n").is_parse_err());
    assert!(parsed(b"*2\r\n").is_parse_err());
    let p = parsed(b"*0\r\n+OK\r\n");
    assert!(!p.is_parse_err());
    assert_eq!(p.get_content(), b"OK");
    assert!(!p.is_resp_mul());
}

#[test]
fn length_must_be_plain_digits() {
    for payload in [
        &b"*+1\r\n$3\r\nfoo\r\n"[..],
        &b"*-1\r\n$3\r\nfoo\r\n"[..],
        &b"* 1\r\n$3\r\nfoo\r\n"[..],
        &b"*\r\n$3\r\nfoo\r\n"[..],
        &b"*1x\r\n$3\r\nfoo\r\n"[..],
        &b"*\xff\r\n$3\r\nfoo\r\n"[..],
        &b"*99999999999999999999999999\r\n$3\r\nfoo\r\n"[..],
        &b"$18446744073709551616\r\nfoo\r\n"[..],
        &b"$18446744073709551615\r\nfoo\r\n"[..],
    ] {
        let p = parsed(payload);
        assert!(p.is_parse_err(), "{:?}", payload);
        assert_eq!(p.get_content(), b"");
    }
    let p = parsed(b"*01\r\n$003\r\nfoo\r\n");
    assert!(!p.is_parse_err());
    assert_eq!(p.get_content(), b"foo");
}

#[test]
fn top_level_bulk_strings_are_rendered_but_begin_no_element() {
    let p = parsed(b"$3\r\nfoo\r\n$3\r\nbar\r\n");
    assert_eq!(p.get_content(), b"foo bar");
    assert!(!p.is_resp_mul());
    assert!(p.is_parse_err());
    let q = parsed(b"+OK\r\n$3\r\nfoo\r\n");
    assert_eq!(q.get_content(), b"OK foo");
    assert!(!q.is_parse_err());
    assert!(!q.is_resp_mul());
    let r = parsed(b"$3\r\nfoo\r\n+OK\r\n");
    assert_eq!(r.get_content(), b"foo\nOK");
    assert!(r.is_resp_mul());
    assert!(!r.is_parse_err());
}

#[test]
fn empty_rendering_is_a_parse_error() {
    let p = parsed(b"+\r\n");
    assert!(p.is_parse_err());
    assert_eq!(p.get_content(), b"");
    let q = parsed(b"*1\r\n$0\r\n\r\n");
    assert!(q.is_parse_err());
}

#[test]
fn trailing_single_byte_is_left_alone() {
    let p = parsed(b"+OK\r\n+");
    assert_eq!(p.get_content(), b"OK");
    assert!(!p.is_parse_err());
    assert!(!p.is_resp_mul());
}

#[test]
fn bulk_token_may_hold_terminators_and_spaces() {
    let p = parsed(b"*2\r\n$4\r\na\r\nb\r\n$3\r\nc d\r\n");
    assert_eq!(p.get_content(), b"a\r\nb c d");
    assert_eq!(p.get_req_type(), b"a\r\nb");
    assert!(!p.is_parse_err());
}

#[test]
fn content_that_is_not_utf8_reads_as_empty_text() {
    let p = parsed(b"*1\r\n$2\r\n\xff\xfe\r\n");
    assert_eq!(p.get_content(), b"\xff\xfe");
    assert_eq!(p.get_content_str(), "");
    let q = parsed("+h\u{e9}llo\r\n".as_bytes());
    assert_eq!(q.get_content_str(), "h\u{e9}llo");
}

#[test]
fn data_error_heuristic() {
    let clean = parsed(b"+OK\r\n");
    assert!(!clean.is_data_err(5, b"+OK\r\n"));
    assert!(!clean.is_data_err(9, b"+OK\r\n"));

    let single = parsed(b"-ERR bad\r\n");
    assert!(single.is_data_err(10, b"-ERR bad\r\n"));
    assert!(!single.is_data_err(100, b"-ERR bad\r\n"));
    assert!(!single.is_data_err(100, b"*1\r\n"));
    assert!(!single.is_data_err(100, b"$1\r\n"));
    assert!(!single.is_data_err(100, b"+1\r\n"));
    assert!(!single.is_data_err(100, b":1\r\n"));
    assert!(single.is_data_err(100, b"bad\r\n"));
    assert!(single.is_data_err(100, b""));
    assert!(single.is_data_err(0, b""));

    let several = parsed(b"-ERR a\r\n-ERR b\r\n");
    assert!(several.is_resp_mul());
    assert!(several.is_data_err(16, b"-ERR a\r\n-ERR b\r\n"));
    assert!(!several.is_data_err(99, b"-ERR a\r\n-ERR b\r\n"));
    assert!(!several.is_data_err(99, b"xyz"));
}

#[test]
fn state_accumulates_over_calls() {
    let mut p = RedisParser::default();
    p.parse(b"");
    assert!(p.is_parse_err());
    p.parse(b"+OK\r\n");
    assert!(p.is_parse_err());
    assert_eq!(p.get_content(), b"OK");
    p.parse(b"+PONG\r\n");
    assert_eq!(p.get_content(), b"OK\nPONG");
    assert!(p.is_resp_mul());
}
