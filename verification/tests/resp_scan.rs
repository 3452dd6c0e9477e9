use agent_core::common::{EbpfType, IpProtocol, ParseParam};
use agent_core::resp::parser::RedisParser;

#[test]
fn line_end_is_the_first_terminator() {
    assert_eq!(RedisParser::read_line_end(b"ab\r\ncd\r\n", 0), Some(2));
    assert_eq!(RedisParser::read_line_end(b"ab\r\ncd\r\n", 2), Some(2));
    assert_eq!(RedisParser::read_line_end(b"ab\r\ncd\r\n", 3), Some(6));
    assert_eq!(RedisParser::read_line_end(b"ab\r\ncd\r\n", 7), None);
    assert_eq!(RedisParser::read_line_end(b"ab\r\ncd\r\n", 8), None);
    assert_eq!(RedisParser::read_line_end(b"ab\r\ncd\r\n", 800), None);
    assert_eq!(RedisParser::read_line_end(b"ab\rcd\n", 0), None);
    assert_eq!(RedisParser::read_line_end(b"\n\r", 0), None);
    assert_eq!(RedisParser::read_line_end(b"\r\n", 0), Some(0));
    assert_eq!(RedisParser::read_line_end(b"\r", 0), None);
    assert_eq!(RedisParser::read_line_end(b"", 0), None);
    assert_eq!(RedisParser::read_line_end(b"", 5), None);
}

#[test]
fn length_line_gives_value_and_next_offset() {
    assert_eq!(RedisParser::read_len(b"*2\r\n$3\r\n", 1), Some((2, 4)));
    assert_eq!(RedisParser::read_len(b"*2\r\n$3\r\n", 5), Some((3, 8)));
    assert_eq!(RedisParser::read_len(b"1234567\r\n", 0), Some((1234567, 9)));
    assert_eq!(RedisParser::read_len(b"007\r\n", 0), Some((7, 5)));
    assert_eq!(RedisParser::read_len(b"0\r\n", 0), Some((0, 3)));
    assert_eq!(
        RedisParser::read_len(b"18446744073709551615\r\n", 0),
        if usize::MAX as u128 == u64::MAX as u128 {
            Some((usize::MAX, 22))
        } else {
            None
        }
    );
}

#[test]
fn length_line_refuses_what_is_no_length() {
    assert_eq!(RedisParser::read_len(b"12", 0), None);
    assert_eq!(RedisParser::read_len(b"\r\n", 0), None);
    assert_eq!(RedisParser::read_len(b"*2\r\n", 0), None);
    assert_eq!(RedisParser::read_len(b"+2\r\n", 0), None);
    assert_eq!(RedisParser::read_len(b"-2\r\n", 0), None);
    assert_eq!(RedisParser::read_len(b"2 \r\n", 0), None);
    assert_eq!(RedisParser::read_len(b"2a\r\n", 0), None);
    assert_eq!(RedisParser::read_len(b"\xe2\x82\xac\r\n", 0), None);
    assert_eq!(RedisParser::read_len(b"\xff\r\n", 0), None);
    assert_eq!(RedisParser::read_len(b"340282366920938463463374607431768211456\r\n", 0), None);
    assert_eq!(RedisParser::read_len(b"18446744073709551616\r\n", 0), None);
    assert_eq!(RedisParser::read_len(b"", 0), None);
    assert_eq!(RedisParser::read_len(b"1\r\n", 9), None);
}

fn param(ebpf_type: EbpfType, l4_protocol: IpProtocol) -> ParseParam {
    ParseParam { ebpf_type, l4_protocol }
}

#[test]
fn check_accepts_a_command_in_raw_tcp() {
    let raw_tcp = param(EbpfType::Packet, IpProtocol::Tcp);
    assert!(RedisParser::check(b"*2\r\n$3\r\nGET\r\n$1\r\na\r\n", &raw_tcp));
    assert!(RedisParser::check(b"*2\r\n$3\r\nGET\r\n", &raw_tcp));
    assert!(RedisParser::check(b"*1\r\n+", &raw_tcp));
    assert!(RedisParser::check(b"*1\r\n-", &raw_tcp));
    assert!(RedisParser::check(b"*1\r\n:", &raw_tcp));
    assert!(RedisParser::check(b"*1\r\n*", &raw_tcp));
    assert!(RedisParser::check(b"*1\r\n$", &param(EbpfType::TracePoint, IpProtocol::Tcp)));
    assert!(RedisParser::check(b"*1\r\n$", &param(EbpfType::TlsUprobe, IpProtocol::Tcp)));
}

#[test]
fn check_rejects_other_buffers_and_contexts() {
    let raw_tcp = param(EbpfType::Packet, IpProtocol::Tcp);
    let command = b"*2\r\n$3\r\nGET\r\n$1\r\na\r\n";
    assert!(!RedisParser::check(command, &param(EbpfType::Packet, IpProtocol::Udp)));
    assert!(!RedisParser::check(command, &param(EbpfType::Packet, IpProtocol::Icmpv4)));
    assert!(!RedisParser::check(command, &param(EbpfType::Packet, IpProtocol::Icmpv6)));
    assert!(!RedisParser::check(command, &param(EbpfType::Packet, IpProtocol::Other)));
    assert!(!RedisParser::check(command, &param(EbpfType::GoHttp2Uprobe, IpProtocol::Tcp)));
    assert!(!RedisParser::check(b"+OK\r\n", &raw_tcp));
    assert!(!RedisParser::check(b"$3\r\nGET\r\n", &raw_tcp));
    assert!(!RedisParser::check(b"", &raw_tcp));
    assert!(!RedisParser::check(b"*", &raw_tcp));
    assert!(!RedisParser::check(b"*2\r\n", &raw_tcp));
    assert!(!RedisParser::check(b"*2\r\nGET", &raw_tcp));
    assert!(!RedisParser::check(b"*x\r\n$3\r\nGET\r\n", &raw_tcp));
    assert!(!RedisParser::check(b"*2$3\r", &raw_tcp));
}

#[test]
fn raw_capture_kinds() {
    assert!(EbpfType::Packet.is_raw_protocol());
    assert!(EbpfType::TracePoint.is_raw_protocol());
    assert!(EbpfType::TlsUprobe.is_raw_protocol());
    assert!(!EbpfType::GoHttp2Uprobe.is_raw_protocol());
}
