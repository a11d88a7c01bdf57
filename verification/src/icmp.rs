//! ICMP messages.

use vstd::prelude::*;
use vstd::slice::slice_subrange;

use crate::checksum::{compute_checksum, internet_checksum, raw_sum};
use crate::wire::{be_u16, read_be_u16, suffix};

verus! {

/// An ICMP message: type, code, checksum and the rest of the message.
#[derive(Debug)]
pub struct IcmpPacket<'a> {
    pub icmp_type: u8,
    pub code: u8,
    pub checksum: u16,
    pub payload: &'a [u8],
}

impl<'a> IcmpPacket<'a> {
    /// Whether the checksum of the ICMP message `data` is valid: the
    /// internet checksum over the whole message, checksum field included,
    /// is 0.
    pub fn validate_checksum(data: &[u8]) -> (valid: bool)
        requires
            raw_sum(data@) <= u32::MAX,
        ensures
            valid == (internet_checksum(data@) == 0),
    {
        compute_checksum(data) == 0
    }

    /// Parses an ICMP message. Fails exactly when the data is shorter than
    /// the 4-byte header; the payload is everything after it.
    pub fn parse(data: &'a [u8]) -> (result: Result<Self, String>)
        ensures
            match result {
                Ok(p) => {
                    &&& data@.len() >= 4
                    &&& p.icmp_type == data@[0]
                    &&& p.code == data@[1]
                    &&& p.checksum == be_u16(data@[2], data@[3])
                    &&& p.payload@ == suffix(data@, 4)
                },
                Err(e) => data@.len() < 4 && e@ == "ICMP packet too short"@,
            },
    {
        if data.len() < 4 {
            return Err(String::from_str("ICMP packet too short"));
        }
        let icmp_type = data[0];
        let code = data[1];
        let checksum = read_be_u16(data, 2);
        let payload = slice_subrange(data, 4, data.len());
        Ok(IcmpPacket { icmp_type, code, checksum, payload })
    }

    /// The name of an ICMP message type: 0 is an echo reply, 8 an echo
    /// request, any other type is unknown.
    pub fn icmp_type_name(icmp_type: u8) -> (name: &'static str)
        ensures
            icmp_type == 0 ==> name@ == "Echo Reply"@,
            icmp_type == 8 ==> name@ == "Echo Request"@,
            icmp_type != 0 && icmp_type != 8 ==> name@ == "Unknown"@,
    {
        match icmp_type {
            0 => "Echo Reply",
            8 => "Echo Request",
            _ => "Unknown",
        }
    }
}

} // verus!
