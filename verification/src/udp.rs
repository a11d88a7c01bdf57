//! UDP datagrams.

use vstd::prelude::*;
use vstd::slice::slice_subrange;

use crate::wire::{be_u16, read_be_u16};

verus! {

/// A UDP datagram: the header fields and the payload that the length field
/// delimits.
#[derive(Debug)]
pub struct UdpPacket<'a> {
    pub source_port: u16,
    pub destination_port: u16,
    pub length: u16,
    pub checksum: u16,
    pub payload: &'a [u8],
}

/// The value of the UDP length field of `data`.
pub open spec fn udp_length(data: Seq<u8>) -> nat {
    be_u16(data[4], data[5])
}

/// Whether `data` parses as a UDP datagram: it holds the 8-byte header and
/// at least as many bytes as the length field states.
pub open spec fn udp_parses(data: Seq<u8>) -> bool {
    data.len() >= 8 && data.len() >= udp_length(data)
}

/// Whether parsing `data` would slice the payload with its end before its
/// start: the header is there but the length field is below 8.
pub open spec fn udp_length_below_header(data: Seq<u8>) -> bool {
    data.len() >= 8 && udp_length(data) < 8
}

impl<'a> UdpPacket<'a> {
    /// Parses a UDP datagram. Fails when the data is shorter than the 8-byte
    /// header or than the length field states; the payload is the bytes from
    /// offset 8 up to that length. A length field below 8 is left out: the
    /// payload would end before it starts.
    pub fn parse(data: &'a [u8]) -> (result: Result<Self, String>)
        requires
            !udp_length_below_header(data@),
        ensures
            match result {
                Ok(p) => {
                    &&& udp_parses(data@)
                    &&& p.source_port == be_u16(data@[0], data@[1])
                    &&& p.destination_port == be_u16(data@[2], data@[3])
                    &&& p.length == udp_length(data@)
                    &&& p.checksum == be_u16(data@[6], data@[7])
                    &&& p.payload@ == data@.subrange(8, udp_length(data@) as int)
                },
                Err(e) => {
                    &&& !udp_parses(data@)
                    &&& data@.len() < 8 ==> e@ == "UDP packet too short"@
                    &&& data@.len() >= 8 ==> e@ == "UDP length larger than packet"@
                },
            },
    {
        if data.len() < 8 {
            return Err(String::from_str("UDP packet too short"));
        }
        let source_port = read_be_u16(data, 0);
        let destination_port = read_be_u16(data, 2);
        let length = read_be_u16(data, 4);
        let checksum = read_be_u16(data, 6);
        if data.len() < length as usize {
            return Err(String::from_str("UDP length larger than packet"));
        }
        let payload = slice_subrange(data, 8, length as usize);
        Ok(UdpPacket { source_port, destination_port, length, checksum, payload })
    }
}

} // verus!
