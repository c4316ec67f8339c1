//! Link State Acknowledgment packets.
use vstd::prelude::*;

use crate::packet_v3;
use crate::packet_v3::{get_headers, put_headers, LsaV3Header, PacketV3Error};

verus! {

/// The body of an acknowledgment: the headers acknowledged.
#[derive(Debug)]
pub struct LsAckV3Packet {
    pub headers: Vec<LsaV3Header>,
}

impl View for LsAckV3Packet {
    type V = Seq<LsaV3Header>;

    open spec fn view(&self) -> Seq<LsaV3Header> {
        self.headers@
    }
}

impl LsAckV3Packet {
    /// Appends the octets of the body.
    pub fn encode(&self, buf: &mut Vec<u8>)
        ensures
            final(buf)@ == old(buf)@ + packet_v3::headers_bytes(self@),
    {
        put_headers(buf, &self.headers);
    }

    /// Reads an acknowledgment body.
    pub fn parse(data: &[u8]) -> (r: Result<LsAckV3Packet, PacketV3Error>)
        ensures
            match (r, packet_v3::headers_from(data@, 0)) {
                (Ok(p), Ok(v)) => p@ == v,
                (Err(e), Err(f)) => e == f,
                _ => false,
            },
    {
        match get_headers(data, 0) {
            Err(e) => Err(e),
            Ok(headers) => Ok(LsAckV3Packet { headers }),
        }
    }
}

} // verus!
