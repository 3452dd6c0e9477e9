//! Capture metadata that a caller hands over with a buffer.

use vstd::prelude::*;

verus! {

/// Transport or network protocol of a captured packet.
#[derive(Clone, Copy, Debug, PartialEq, Eq, Structural)]
pub enum IpProtocol {
    Icmpv4,
    Tcp,
    Udp,
    Icmpv6,
    Other,
}

/// How the bytes of a capture were obtained.
#[derive(Clone, Copy, Debug, PartialEq, Eq, Structural)]
pub enum EbpfType {
    /// Not captured by a kernel probe: bytes as seen on the wire.
    Packet,
    /// Captured at a kernel trace point: bytes as the socket saw them.
    TracePoint,
    /// Captured around a TLS library: the plain text of the stream.
    TlsUprobe,
    /// Captured inside a Go HTTP/2 stack: header fields, already decoded.
    GoHttp2Uprobe,
}

impl EbpfType {
    /// Whether the capture holds the raw bytes of the protocol, as opposed
    /// to fields that the capture point has already decoded.
    pub open spec fn spec_is_raw_protocol(&self) -> bool {
        !(*self is GoHttp2Uprobe)
    }

    /// Whether the capture holds the raw bytes of the protocol.
    #[verifier::when_used_as_spec(spec_is_raw_protocol)]
    pub fn is_raw_protocol(&self) -> (r: bool)
        ensures
            r == self.spec_is_raw_protocol(),
    {
        match self {
            EbpfType::GoHttp2Uprobe => false,
            _ => true,
        }
    }
}

/// Context of a capture, read by the pre-check that decides whether a
/// buffer is worth decoding.
#[derive(Clone, Copy, Debug)]
pub struct ParseParam {
    pub ebpf_type: EbpfType,
    pub l4_protocol: IpProtocol,
}

} // verus!
