//! Ethernet II frames.

use vstd::prelude::*;
use vstd::slice::slice_subrange;

use crate::text::{hex_byte, push_hex_byte};
use crate::wire::{be_u16, read_be_u16};

verus! {

/// An Ethernet II frame: two MAC addresses, the EtherType and the payload.
#[derive(Debug)]
pub struct EthernetFrame<'a> {
    pub destination_mac: [u8; 6],
    pub source_mac: [u8; 6],
    pub ethertype: u16,
    pub payload: &'a [u8],
}

/// The text of a MAC address: six two-digit lower-case hexadecimal bytes
/// separated by colons.
pub open spec fn mac_text(mac: Seq<u8>) -> Seq<char> {
    hex_byte(mac[0]) + seq![':'] + hex_byte(mac[1]) + seq![':'] + hex_byte(mac[2]) + seq![':']
        + hex_byte(mac[3]) + seq![':'] + hex_byte(mac[4]) + seq![':'] + hex_byte(mac[5])
}

impl<'a> EthernetFrame<'a> {
    /// Parses an Ethernet II frame. Fails exactly when the data is shorter
    /// than the 14-byte header; the payload is everything after it.
    pub fn parse(data: &'a [u8]) -> (result: Result<Self, String>)
        ensures
            match result {
                Ok(frame) => {
                    &&& data@.len() >= 14
                    &&& frame.destination_mac@ == data@.subrange(0, 6)
                    &&& frame.source_mac@ == data@.subrange(6, 12)
                    &&& frame.ethertype == be_u16(data@[12], data@[13])
                    &&& frame.payload@ == data@.subrange(14, data@.len() as int)
                },
                Err(e) => data@.len() < 14 && e@ == "Ethernet frame too short"@,
            },
    {
        if data.len() < 14 {
            return Err(String::from_str("Ethernet frame too short"));
        }
        let destination_mac = [data[0], data[1], data[2], data[3], data[4], data[5]];
        let source_mac = [data[6], data[7], data[8], data[9], data[10], data[11]];
        let ethertype = read_be_u16(data, 12);
        let payload = slice_subrange(data, 14, data.len());
        assert(destination_mac@ =~= data@.subrange(0, 6));
        assert(source_mac@ =~= data@.subrange(6, 12));
        Ok(EthernetFrame { destination_mac, source_mac, ethertype, payload })
    }

    /// Renders a MAC address as `aa:bb:cc:dd:ee:ff`.
    pub fn format_mac(mac: &[u8; 6]) -> (text: String)
        ensures
            text@ == mac_text(mac@),
    {
        let mut s = String::new();
        proof {
            reveal_strlit(":");
        }
        push_hex_byte(&mut s, mac[0]);
        s.append(":");
        push_hex_byte(&mut s, mac[1]);
        s.append(":");
        push_hex_byte(&mut s, mac[2]);
        s.append(":");
        push_hex_byte(&mut s, mac[3]);
        s.append(":");
        push_hex_byte(&mut s, mac[4]);
        s.append(":");
        push_hex_byte(&mut s, mac[5]);
        assert(s@ =~= mac_text(mac@));
        s
    }
}

} // verus!
