//! TCP segments.

use vstd::prelude::*;
use vstd::slice::slice_subrange;

use crate::wire::{be_u16, be_u32, read_be_u16, read_be_u32};

verus! {

/// A TCP segment: the header fields and the payload after the header.
#[derive(Debug)]
pub struct TcpPacket<'a> {
    pub source_port: u16,
    pub destination_port: u16,
    pub sequence_number: u32,
    pub acknowledgement_number: u32,
    pub data_offset: u8,
    pub flags: u16,
    pub window_size: u16,
    pub checksum: u16,
    pub urgent_pointer: u16,
    pub payload: &'a [u8],
}

/// The header length in bytes: the data offset nibble times four.
pub open spec fn tcp_data_offset(data: Seq<u8>) -> nat {
    (data[12] as nat / 16) * 4
}

/// The flag bits: the low five bits of byte 12 and all of byte 13.
pub open spec fn tcp_flags(data: Seq<u8>) -> nat {
    be_u16((data[12] as nat % 32) as u8, data[13])
}

/// Whether `data` parses as a TCP segment: it holds the 20-byte fixed header
/// and the header length that the data offset states.
pub open spec fn tcp_parses(data: Seq<u8>) -> bool {
    data.len() >= 20 && data.len() >= tcp_data_offset(data)
}

/// Whether the flag with the one-bit mask `mask` is set in `flags`.
pub open spec fn flag_bit(flags: u16, mask: nat) -> bool {
    (flags as nat / mask) % 2 == 1
}

impl<'a> TcpPacket<'a> {
    /// Parses a TCP segment. Fails when the data is shorter than 20 bytes,
    /// or shorter than the header length that the data offset states; the
    /// payload is everything after the header.
    pub fn parse(data: &'a [u8]) -> (result: Result<Self, String>)
        ensures
            match result {
                Ok(p) => {
                    &&& tcp_parses(data@)
                    &&& p.source_port == be_u16(data@[0], data@[1])
                    &&& p.destination_port == be_u16(data@[2], data@[3])
                    &&& p.sequence_number == be_u32(data@[4], data@[5], data@[6], data@[7])
                    &&& p.acknowledgement_number == be_u32(data@[8], data@[9], data@[10], data@[11])
                    &&& p.data_offset == tcp_data_offset(data@)
                    &&& p.flags == tcp_flags(data@)
                    &&& p.window_size == be_u16(data@[14], data@[15])
                    &&& p.checksum == be_u16(data@[16], data@[17])
                    &&& p.urgent_pointer == be_u16(data@[18], data@[19])
                    &&& p.payload@ == data@.subrange(tcp_data_offset(data@) as int, data@.len() as int)
                },
                Err(e) => {
                    &&& !tcp_parses(data@)
                    &&& data@.len() < 20 ==> e@ == "TCP packet too short"@
                    &&& data@.len() >= 20 ==> e@ == "TCP header length exceeds packet size"@
                },
            },
    {
        if data.len() < 20 {
            return Err(String::from_str("TCP packet too short"));
        }
        let source_port = read_be_u16(data, 0);
        let destination_port = read_be_u16(data, 2);
        let sequence_number = read_be_u32(data, 4);
        let acknowledgement_number = read_be_u32(data, 8);
        let b12 = data[12];
        assert(b12 >> 4 == b12 / 16 && b12 & 0x1F == b12 % 32) by (bit_vector);
        let data_offset = (b12 >> 4) * 4;
        let flags = (((b12 & 0x1F) as u16) * 256) + (data[13] as u16);
        let window_size = read_be_u16(data, 14);
        let checksum = read_be_u16(data, 16);
        let urgent_pointer = read_be_u16(data, 18);
        if data.len() < data_offset as usize {
            return Err(String::from_str("TCP header length exceeds packet size"));
        }
        let payload = slice_subrange(data, data_offset as usize, data.len());
        Ok(TcpPacket {
            source_port,
            destination_port,
            sequence_number,
            acknowledgement_number,
            data_offset,
            flags,
            window_size,
            checksum,
            urgent_pointer,
            payload,
        })
    }

    /// Whether the SYN flag (mask 0x02) is set.
    pub fn syn(&self) -> (set: bool)
        ensures
            set == flag_bit(self.flags, 2),
    {
        let f = self.flags;
        assert((f & 0x002 != 0) == ((f / 2) % 2 == 1)) by (bit_vector);
        f & 0x002 != 0
    }

    /// Whether the ACK flag (mask 0x10) is set.
    pub fn ack(&self) -> (set: bool)
        ensures
            set == flag_bit(self.flags, 16),
    {
        let f = self.flags;
        assert((f & 0x010 != 0) == ((f / 16) % 2 == 1)) by (bit_vector);
        f & 0x010 != 0
    }

    /// Whether the FIN flag (mask 0x01) is set.
    pub fn fin(&self) -> (set: bool)
        ensures
            set == flag_bit(self.flags, 1),
    {
        let f = self.flags;
        assert((f & 0x001 != 0) == (f % 2 == 1)) by (bit_vector);
        f & 0x001 != 0
    }
}

} // verus!
