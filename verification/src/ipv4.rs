//! IPv4 packets.

use vstd::prelude::*;
use vstd::slice::slice_subrange;

use crate::checksum::{compute_checksum, internet_checksum, lemma_raw_sum_bound};
use crate::text::{decimal_chars, push_decimal_u8};
use crate::wire::{be_u16, read_be_u16};

verus! {

/// An IPv4 packet: the header fields the stack reads, and the payload that
/// follows the header.
#[derive(Debug)]
pub struct Ipv4Packet<'a> {
    pub version: u8,
    pub header_length: u8,
    pub total_length: u16,
    pub ttl: u8,
    pub protocol: u8,
    pub source_ip: [u8; 4],
    pub destination_ip: [u8; 4],
    pub payload: &'a [u8],
}

/// The IP version: the high nibble of the first byte.
pub open spec fn ipv4_version(data: Seq<u8>) -> nat {
    data[0] as nat / 16
}

/// The header length in bytes: the low nibble of the first byte (IHL) times four.
pub open spec fn ipv4_header_length(data: Seq<u8>) -> nat {
    (data[0] as nat % 16) * 4
}

/// Whether `data` parses as an IPv4 packet: it holds the fixed 20-byte
/// header and the header length that it states.
pub open spec fn ipv4_parses(data: Seq<u8>) -> bool {
    data.len() >= 20 && data.len() >= ipv4_header_length(data)
}

/// The payload of the IPv4 packet `data`: what follows its header.
pub open spec fn ipv4_payload(data: Seq<u8>) -> Seq<u8> {
    data.subrange(ipv4_header_length(data) as int, data.len() as int)
}

/// The text of an IPv4 address in dotted decimal.
pub open spec fn ip_text(ip: Seq<u8>) -> Seq<char> {
    decimal_chars(ip[0] as nat) + seq!['.'] + decimal_chars(ip[1] as nat) + seq!['.']
        + decimal_chars(ip[2] as nat) + seq!['.'] + decimal_chars(ip[3] as nat)
}

impl<'a> Ipv4Packet<'a> {
    /// Parses an IPv4 packet. Fails when the data is shorter than 20 bytes,
    /// or shorter than the header length that the IHL field states.
    pub fn parse(data: &'a [u8]) -> (result: Result<Self, String>)
        ensures
            match result {
                Ok(p) => {
                    &&& ipv4_parses(data@)
                    &&& p.version == ipv4_version(data@)
                    &&& p.header_length == ipv4_header_length(data@)
                    &&& p.total_length == be_u16(data@[2], data@[3])
                    &&& p.ttl == data@[8]
                    &&& p.protocol == data@[9]
                    &&& p.source_ip@ == data@.subrange(12, 16)
                    &&& p.destination_ip@ == data@.subrange(16, 20)
                    &&& p.payload@ == ipv4_payload(data@)
                },
                Err(e) => {
                    &&& !ipv4_parses(data@)
                    &&& data@.len() < 20 ==> e@ == "IPv4 packet too short"@
                    &&& data@.len() >= 20 ==> e@ == "Invalid IPv4 header length"@
                },
            },
    {
        if data.len() < 20 {
            return Err(String::from_str("IPv4 packet too short"));
        }
        let first = data[0];
        assert(first >> 4 == first / 16 && first & 0x0F == first % 16) by (bit_vector);
        let version = first >> 4;
        let header_length = (first & 0x0F) * 4;
        if data.len() < header_length as usize {
            return Err(String::from_str("Invalid IPv4 header length"));
        }
        let total_length = read_be_u16(data, 2);
        let ttl = data[8];
        let protocol = data[9];
        let source_ip = [data[12], data[13], data[14], data[15]];
        let destination_ip = [data[16], data[17], data[18], data[19]];
        let payload = slice_subrange(data, header_length as usize, data.len());
        assert(source_ip@ =~= data@.subrange(12, 16));
        assert(destination_ip@ =~= data@.subrange(16, 20));
        Ok(Ipv4Packet {
            version,
            header_length,
            total_length,
            ttl,
            protocol,
            source_ip,
            destination_ip,
            payload,
        })
    }

    /// Whether the header checksum of the IPv4 packet in `data` is valid:
    /// the packet must parse, and the internet checksum over its header
    /// (the first `header_length` bytes, checksum field included) must be 0.
    pub fn validate_checksum(data: &[u8]) -> (valid: bool)
        ensures
            valid == (ipv4_parses(data@) && internet_checksum(
                data@.subrange(0, ipv4_header_length(data@) as int),
            ) == 0),
    {
        if data.len() < 20 {
            return false;
        }
        let first = data[0];
        assert(first & 0x0F == first % 16) by (bit_vector);
        let header_length = ((first & 0x0F) * 4) as usize;
        if data.len() < header_length {
            return false;
        }
        let header = slice_subrange(data, 0, header_length);
        proof {
            lemma_raw_sum_bound(header@);
        }
        compute_checksum(header) == 0
    }

    /// Renders an IPv4 address in dotted decimal, such as `10.0.0.2`.
    pub fn format_ip(ip: &[u8; 4]) -> (text: String)
        ensures
            text@ == ip_text(ip@),
    {
        let mut s = String::new();
        proof {
            reveal_strlit(".");
        }
        push_decimal_u8(&mut s, ip[0]);
        s.append(".");
        push_decimal_u8(&mut s, ip[1]);
        s.append(".");
        push_decimal_u8(&mut s, ip[2]);
        s.append(".");
        push_decimal_u8(&mut s, ip[3]);
        assert(s@ =~= ip_text(ip@));
        s
    }
}

} // verus!
