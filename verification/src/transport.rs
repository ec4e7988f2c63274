use vstd::prelude::*;

verus! {

/// Message transport over TCP: the nameserver to connect to.
///
/// TCP framing prepends a two-octet big-endian length to each message;
/// the socket work is done by the caller around the codec.
#[derive(Debug)]
pub struct TcpTransport {
    pub nameserver: String,
}

impl TcpTransport {
    /// Creates a new TcpTransport object.
    pub fn new(nameserver: String) -> (r: TcpTransport)
        ensures
            r.nameserver@ == nameserver@,
    {
        TcpTransport { nameserver }
    }
}

/// Message transport over UDP: the nameserver to send to and the largest
/// response datagram to accept.
#[derive(Debug)]
pub struct UdpTransport {
    pub nameserver: String,
    pub max_response_size: u16,
}

impl UdpTransport {
    /// Creates a new UdpTransport object.
    pub fn new(nameserver: String, max_size: u16) -> (r: UdpTransport)
        ensures
            r.nameserver@ == nameserver@,
            r.max_response_size == max_size,
    {
        UdpTransport { nameserver, max_response_size: max_size }
    }
}

} // verus!
