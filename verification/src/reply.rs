//! Reply packets: an IPv4 header from this stack back to the sender,
//! followed by an ICMP, UDP or TCP message, each with its checksums.

use vstd::prelude::*;

use crate::checksum::{
    compute_checksum, internet_checksum, lemma_checksum_validates, lemma_raw_sum_bound, put_u16,
    raw_sum,
};
use crate::ipv4::{ipv4_header_length, ipv4_parses, ipv4_payload, ipv4_version, Ipv4Packet};
use crate::tcp::{tcp_data_offset, tcp_flags, tcp_parses, TcpPacket};
use crate::udp::{udp_length, udp_parses, UdpPacket};
use crate::wire::{
    be_u16, be_u32, lemma_u32_bytes_roundtrip, low_u16, push_bytes, push_u16, push_u32, suffix,
    u16_bytes, u32_bytes,
};

verus! {

/// `s` with its internet checksum written into the zero field at `k`.
pub open spec fn with_checksum(s: Seq<u8>, k: int) -> Seq<u8> {
    put_u16(s, k, internet_checksum(s))
}

/// The 20-byte IPv4 header this stack sends, checksum field still zero:
/// version 4, IHL 5, no options, identification and fragment fields zero,
/// TTL 64.
pub open spec fn ipv4_header_fields(
    total_length: u16,
    protocol: u8,
    source: Seq<u8>,
    destination: Seq<u8>,
) -> Seq<u8> {
    seq![0x45u8, 0x00u8] + u16_bytes(total_length) + seq![0u8, 0u8, 0u8, 0u8, 64u8, protocol, 0u8, 0u8]
        + source + destination
}

/// The IPv4 header this stack sends, with its header checksum at offset 10.
pub open spec fn ipv4_reply_header(
    total_length: u16,
    protocol: u8,
    source: Seq<u8>,
    destination: Seq<u8>,
) -> Seq<u8> {
    with_checksum(ipv4_header_fields(total_length, protocol, source, destination), 10)
}

/// The ICMP echo reply to the echo request `request`: type 0, code 0, the
/// identifier, sequence number and data of the request, checksum field zero.
pub open spec fn echo_reply_fields(request: Seq<u8>) -> Seq<u8> {
    seq![0u8, 0u8, 0u8, 0u8] + suffix(request, 4)
}

/// The whole echo reply packet to the IPv4 packet whose source is `src`,
/// destination `dst` and payload the echo request `request`.
pub open spec fn echo_reply_packet(src: Seq<u8>, dst: Seq<u8>, request: Seq<u8>) -> Seq<u8> {
    ipv4_reply_header((20 + request.len()) as u16, 1, dst, src) + with_checksum(
        echo_reply_fields(request),
        2,
    )
}

/// The UDP datagram echoing `payload` back from port `from_port` to port
/// `to_port`, with no checksum (zero).
pub open spec fn udp_echo_datagram(from_port: u16, to_port: u16, payload: Seq<u8>) -> Seq<u8> {
    u16_bytes(from_port) + u16_bytes(to_port) + u16_bytes((8 + payload.len()) as u16) + seq![0u8, 0u8]
        + payload
}

/// The whole UDP echo reply packet.
pub open spec fn udp_echo_reply_packet(
    src: Seq<u8>,
    dst: Seq<u8>,
    src_port: u16,
    dst_port: u16,
    payload: Seq<u8>,
) -> Seq<u8> {
    ipv4_reply_header((28 + payload.len()) as u16, 17, dst, src) + udp_echo_datagram(
        dst_port,
        src_port,
        payload,
    )
}

/// The TCP pseudo-header that the TCP checksum covers, followed by the segment.
pub open spec fn tcp_pseudo_packet(source: Seq<u8>, destination: Seq<u8>, segment: Seq<u8>) -> Seq<u8> {
    source + destination + seq![0u8, 6u8] + u16_bytes(segment.len() as u16) + segment
}

/// A 20-byte TCP header without options (data offset 5, window 64240, urgent
/// pointer 0) and its payload, checksum field still zero.
pub open spec fn tcp_segment_fields(
    from_port: u16,
    to_port: u16,
    sequence_number: u32,
    acknowledgement_number: u32,
    flags: u8,
    payload: Seq<u8>,
) -> Seq<u8> {
    u16_bytes(from_port) + u16_bytes(to_port) + u32_bytes(sequence_number) + u32_bytes(
        acknowledgement_number,
    ) + seq![0x50u8, flags] + u16_bytes(64240) + seq![0u8, 0u8, 0u8, 0u8] + payload
}

/// The TCP checksum of `segment` sent from `source` to `destination`.
pub open spec fn tcp_checksum(source: Seq<u8>, destination: Seq<u8>, segment: Seq<u8>) -> u16 {
    internet_checksum(tcp_pseudo_packet(source, destination, segment))
}

/// A TCP segment from this stack, its checksum at offset 16.
pub open spec fn tcp_reply_segment(
    source: Seq<u8>,
    destination: Seq<u8>,
    from_port: u16,
    to_port: u16,
    sequence_number: u32,
    acknowledgement_number: u32,
    flags: u8,
    payload: Seq<u8>,
) -> Seq<u8> {
    let fields = tcp_segment_fields(
        from_port,
        to_port,
        sequence_number,
        acknowledgement_number,
        flags,
        payload,
    );
    put_u16(fields, 16, tcp_checksum(source, destination, fields))
}

/// The whole TCP reply packet to a segment from `src`:`src_port` to
/// `dst`:`dst_port`.
pub open spec fn tcp_reply_packet(
    src: Seq<u8>,
    dst: Seq<u8>,
    src_port: u16,
    dst_port: u16,
    sequence_number: u32,
    acknowledgement_number: u32,
    flags: u8,
    payload: Seq<u8>,
) -> Seq<u8> {
    ipv4_reply_header((40 + payload.len()) as u16, 6, dst, src) + tcp_reply_segment(
        dst,
        src,
        dst_port,
        src_port,
        sequence_number,
        acknowledgement_number,
        flags,
        payload,
    )
}

/// Every IPv4 header this stack sends carries a valid header checksum.
pub proof fn lemma_reply_header_checksum_valid(
    total_length: u16,
    protocol: u8,
    source: Seq<u8>,
    destination: Seq<u8>,
)
    requires
        source.len() == 4,
        destination.len() == 4,
    ensures
        ipv4_reply_header(total_length, protocol, source, destination).len() == 20,
        internet_checksum(ipv4_reply_header(total_length, protocol, source, destination)) == 0,
{
    let fields = ipv4_header_fields(total_length, protocol, source, destination);
    assert(fields[10] == 0 && fields[11] == 0);
    lemma_checksum_validates(fields, 10);
}

/// Every IPv4 header this stack sends is 20 bytes long and begins with 0x45
/// (version 4, five 32-bit words of header).
pub proof fn lemma_reply_header_starts(
    total_length: u16,
    protocol: u8,
    source: Seq<u8>,
    destination: Seq<u8>,
)
    requires
        source.len() == 4,
        destination.len() == 4,
    ensures
        ipv4_reply_header(total_length, protocol, source, destination).len() == 20,
        ipv4_reply_header(total_length, protocol, source, destination)[0] == 0x45,
{
    let fields = ipv4_header_fields(total_length, protocol, source, destination);
    assert(fields[0] == 0x45);
}

/// Every echo reply carries a valid ICMP checksum.
pub proof fn lemma_echo_reply_checksum_valid(request: Seq<u8>)
    requires
        request.len() >= 4,
    ensures
        internet_checksum(with_checksum(echo_reply_fields(request), 2)) == 0,
{
    let fields = echo_reply_fields(request);
    assert(fields[2] == 0 && fields[3] == 0);
    lemma_checksum_validates(fields, 2);
}

/// Every TCP segment this stack sends carries a valid TCP checksum over the
/// pseudo-header of its own addresses.
pub proof fn lemma_tcp_reply_checksum_valid(
    source: Seq<u8>,
    destination: Seq<u8>,
    from_port: u16,
    to_port: u16,
    sequence_number: u32,
    acknowledgement_number: u32,
    flags: u8,
    payload: Seq<u8>,
)
    requires
        source.len() == 4,
        destination.len() == 4,
    ensures
        tcp_checksum(
            source,
            destination,
            tcp_reply_segment(
                source,
                destination,
                from_port,
                to_port,
                sequence_number,
                acknowledgement_number,
                flags,
                payload,
            ),
        ) == 0,
{
    let fields = tcp_segment_fields(
        from_port,
        to_port,
        sequence_number,
        acknowledgement_number,
        flags,
        payload,
    );
    let pseudo = tcp_pseudo_packet(source, destination, fields);
    let c = internet_checksum(pseudo);
    assert(pseudo[28] == 0 && pseudo[29] == 0);
    lemma_checksum_validates(pseudo, 28);
    assert(tcp_pseudo_packet(source, destination, put_u16(fields, 16, c)) =~= put_u16(pseudo, 28, c));
}

/// Parsing the echo reply sent for an echo request gives back an IPv4
/// packet from `dst` to `src` with a valid header checksum, carrying an
/// echo reply (type 0, code 0) with a valid checksum that repeats the
/// request's identifier, sequence number and data.
#[verifier::spinoff_prover]
#[verifier::rlimit(40)]
pub proof fn lemma_echo_reply_parses_back(src: Seq<u8>, dst: Seq<u8>, request: Seq<u8>)
    requires
        src.len() == 4,
        dst.len() == 4,
        request.len() >= 4,
        request.len() + 20 <= 0xFFFF,
    ensures
        ({
            let p = echo_reply_packet(src, dst, request);
            let m = ipv4_payload(p);
            &&& ipv4_parses(p)
            &&& ipv4_version(p) == 4
            &&& ipv4_header_length(p) == 20
            &&& be_u16(p[2], p[3]) == p.len()
            &&& p[8] == 64
            &&& p[9] == 1
            &&& p.subrange(12, 16) == dst
            &&& p.subrange(16, 20) == src
            &&& internet_checksum(p.subrange(0, 20)) == 0
            &&& m.len() == request.len()
            &&& m[0] == 0
            &&& m[1] == 0
            &&& suffix(m, 4) == suffix(request, 4)
            &&& internet_checksum(m) == 0
        }),
{
    let total = (20 + request.len()) as u16;
    let header = ipv4_reply_header(total, 1, dst, src);
    let fields = ipv4_header_fields(total, 1, dst, src);
    let message = with_checksum(echo_reply_fields(request), 2);
    let p = echo_reply_packet(src, dst, request);
    lemma_reply_header_checksum_valid(total, 1, dst, src);
    lemma_echo_reply_checksum_valid(request);
    assert(header.len() == 20);
    assert(p.subrange(0, 20) =~= header);
    assert(ipv4_payload(p) =~= message);
    assert(header[0] == fields[0] && header[2] == fields[2] && header[3] == fields[3]);
    assert(header[8] == 64 && header[9] == 1);
    assert(header.subrange(12, 16) =~= dst);
    assert(header.subrange(16, 20) =~= src);
    assert(suffix(message, 4) =~= suffix(request, 4));
}

/// Parsing a TCP reply gives back an IPv4 packet from `dst` to `src` with a
/// valid header checksum, carrying a segment from `dst_port` to `src_port`
/// with the given sequence and acknowledgement numbers, a 20-byte header,
/// the given flags (the flag field as parsed also holds the low bit of the
/// data offset, 0x1000), the given payload and a valid TCP checksum.
#[verifier::spinoff_prover]
#[verifier::rlimit(40)]
pub proof fn lemma_tcp_reply_parses_back(
    src: Seq<u8>,
    dst: Seq<u8>,
    src_port: u16,
    dst_port: u16,
    sequence_number: u32,
    acknowledgement_number: u32,
    flags: u8,
    payload: Seq<u8>,
)
    requires
        src.len() == 4,
        dst.len() == 4,
        40 + payload.len() <= 0xFFFF,
    ensures
        ({
            let p = tcp_reply_packet(
                src,
                dst,
                src_port,
                dst_port,
                sequence_number,
                acknowledgement_number,
                flags,
                payload,
            );
            let seg = ipv4_payload(p);
            &&& ipv4_parses(p)
            &&& ipv4_version(p) == 4
            &&& ipv4_header_length(p) == 20
            &&& be_u16(p[2], p[3]) == p.len()
            &&& p[8] == 64
            &&& p[9] == 6
            &&& p.subrange(12, 16) == dst
            &&& p.subrange(16, 20) == src
            &&& internet_checksum(p.subrange(0, 20)) == 0
            &&& tcp_parses(seg)
            &&& be_u16(seg[0], seg[1]) == dst_port
            &&& be_u16(seg[2], seg[3]) == src_port
            &&& be_u32(seg[4], seg[5], seg[6], seg[7]) == sequence_number
            &&& be_u32(seg[8], seg[9], seg[10], seg[11]) == acknowledgement_number
            &&& tcp_data_offset(seg) == 20
            &&& tcp_flags(seg) == 0x1000 + flags
            &&& be_u16(seg[14], seg[15]) == 64240
            &&& be_u16(seg[18], seg[19]) == 0
            &&& suffix(seg, 20) == payload
            &&& tcp_checksum(dst, src, seg) == 0
        }),
{
    let total = (40 + payload.len()) as u16;
    let header = ipv4_reply_header(total, 6, dst, src);
    let fields = ipv4_header_fields(total, 6, dst, src);
    let seg = tcp_reply_segment(
        dst,
        src,
        dst_port,
        src_port,
        sequence_number,
        acknowledgement_number,
        flags,
        payload,
    );
    let seg_fields = tcp_segment_fields(
        dst_port,
        src_port,
        sequence_number,
        acknowledgement_number,
        flags,
        payload,
    );
    let p = tcp_reply_packet(
        src,
        dst,
        src_port,
        dst_port,
        sequence_number,
        acknowledgement_number,
        flags,
        payload,
    );
    lemma_reply_header_checksum_valid(total, 6, dst, src);
    lemma_tcp_reply_checksum_valid(
        dst,
        src,
        dst_port,
        src_port,
        sequence_number,
        acknowledgement_number,
        flags,
        payload,
    );
    lemma_u32_bytes_roundtrip(sequence_number);
    lemma_u32_bytes_roundtrip(acknowledgement_number);
    assert(p.subrange(0, 20) =~= header);
    assert(ipv4_payload(p) =~= seg);
    assert(header[0] == fields[0] && header[2] == fields[2] && header[3] == fields[3]);
    assert(header[8] == 64 && header[9] == 6);
    assert(header.subrange(12, 16) =~= dst);
    assert(header.subrange(16, 20) =~= src);
    assert(seg.len() == 20 + payload.len());
    assert(seg[0] == seg_fields[0] && seg[1] == seg_fields[1] && seg[2] == seg_fields[2] && seg[3]
        == seg_fields[3]);
    assert(seg[4] == seg_fields[4] && seg[5] == seg_fields[5] && seg[6] == seg_fields[6] && seg[7]
        == seg_fields[7]);
    assert(seg[8] == seg_fields[8] && seg[9] == seg_fields[9] && seg[10] == seg_fields[10]
        && seg[11] == seg_fields[11]);
    assert(seg[12] == 0x50 && seg[13] == flags);
    lemma_tcp_reply_window(
        dst,
        src,
        dst_port,
        src_port,
        sequence_number,
        acknowledgement_number,
        flags,
        payload,
    );
    assert(suffix(seg, 20) =~= payload);
}

/// Parsing a UDP echo reply gives back an IPv4 packet from `dst` to `src`
/// with a valid header checksum, carrying a datagram from `dst_port` to
/// `src_port` whose length field covers exactly the echoed payload, with no
/// checksum.
#[verifier::spinoff_prover]
#[verifier::rlimit(40)]
pub proof fn lemma_udp_echo_reply_parses_back(
    src: Seq<u8>,
    dst: Seq<u8>,
    src_port: u16,
    dst_port: u16,
    payload: Seq<u8>,
)
    requires
        src.len() == 4,
        dst.len() == 4,
        28 + payload.len() <= 0xFFFF,
    ensures
        ({
            let p = udp_echo_reply_packet(src, dst, src_port, dst_port, payload);
            let d = ipv4_payload(p);
            &&& ipv4_parses(p)
            &&& ipv4_version(p) == 4
            &&& ipv4_header_length(p) == 20
            &&& be_u16(p[2], p[3]) == p.len()
            &&& p[8] == 64
            &&& p[9] == 17
            &&& p.subrange(12, 16) == dst
            &&& p.subrange(16, 20) == src
            &&& internet_checksum(p.subrange(0, 20)) == 0
            &&& udp_parses(d)
            &&& be_u16(d[0], d[1]) == dst_port
            &&& be_u16(d[2], d[3]) == src_port
            &&& udp_length(d) == d.len()
            &&& be_u16(d[6], d[7]) == 0
            &&& d.subrange(8, udp_length(d) as int) == payload
        }),
{
    let total = (28 + payload.len()) as u16;
    let header = ipv4_reply_header(total, 17, dst, src);
    let fields = ipv4_header_fields(total, 17, dst, src);
    let d = udp_echo_datagram(dst_port, src_port, payload);
    let p = udp_echo_reply_packet(src, dst, src_port, dst_port, payload);
    lemma_reply_header_checksum_valid(total, 17, dst, src);
    assert(p.subrange(0, 20) =~= header);
    assert(ipv4_payload(p) =~= d);
    assert(header[0] == fields[0] && header[2] == fields[2] && header[3] == fields[3]);
    assert(header[8] == 64 && header[9] == 17);
    assert(header.subrange(12, 16) =~= dst);
    assert(header.subrange(16, 20) =~= src);
    assert(d.subrange(8, d.len() as int) =~= payload);
}

/// Every TCP segment the stack builds, whatever its flags and payload,
/// advertises the window 64240, has a zero urgent pointer and a 20-byte
/// header (data offset 5).
pub proof fn lemma_tcp_reply_window(
    source: Seq<u8>,
    destination: Seq<u8>,
    from_port: u16,
    to_port: u16,
    sequence_number: u32,
    acknowledgement_number: u32,
    flags: u8,
    payload: Seq<u8>,
)
    ensures
        ({
            let seg = tcp_reply_segment(
                source,
                destination,
                from_port,
                to_port,
                sequence_number,
                acknowledgement_number,
                flags,
                payload,
            );
            &&& seg.len() == 20 + payload.len()
            &&& seg[12] == 0x50
            &&& seg[13] == flags
            &&& be_u16(seg[14], seg[15]) == 64240
            &&& be_u16(seg[18], seg[19]) == 0
        }),
{
    let fields = tcp_segment_fields(
        from_port,
        to_port,
        sequence_number,
        acknowledgement_number,
        flags,
        payload,
    );
    let seg = tcp_reply_segment(
        source,
        destination,
        from_port,
        to_port,
        sequence_number,
        acknowledgement_number,
        flags,
        payload,
    );
    assert(fields[14] == 0xFA && fields[15] == 0xF0);
    assert(seg[14] == fields[14] && seg[15] == fields[15]);
    assert(seg[12] == fields[12] && seg[13] == fields[13]);
    assert(seg[18] == fields[18] && seg[19] == fields[19]);
}

/// Appends the four bytes of an IPv4 address.
fn push_ip(out: &mut Vec<u8>, ip: &[u8; 4])
    ensures
        final(out)@ == old(out)@ + ip@,
{
    out.push(ip[0]);
    out.push(ip[1]);
    out.push(ip[2]);
    out.push(ip[3]);
    assert(out@ =~= old(out)@ + ip@);
}

/// Writes the internet checksum of `v` into its zero field at the even offset `k`.
fn insert_checksum(v: &mut Vec<u8>, k: usize)
    requires
        k % 2 == 0,
        k + 1 < old(v)@.len(),
        old(v)@[k as int] == 0,
        old(v)@[k + 1] == 0,
        raw_sum(old(v)@) <= u32::MAX,
    ensures
        final(v)@ == with_checksum(old(v)@, k as int),
{
    let c = compute_checksum(v.as_slice());
    v.set(k, (c / 256) as u8);
    v.set(k + 1, (c % 256) as u8);
}

/// Builds the IPv4 header of a reply from `source` to `destination`.
fn build_ipv4_header(total_length: u16, protocol: u8, source: &[u8; 4], destination: &[u8; 4]) -> (header: Vec<u8>)
    ensures
        header@ == ipv4_reply_header(total_length, protocol, source@, destination@),
{
    let mut header = Vec::new();
    header.push(0x45);
    header.push(0x00);
    push_u16(&mut header, total_length);
    push_u16(&mut header, 0);
    push_u16(&mut header, 0);
    header.push(64);
    header.push(protocol);
    push_u16(&mut header, 0);
    push_ip(&mut header, source);
    push_ip(&mut header, destination);
    assert(header@ =~= ipv4_header_fields(total_length, protocol, source@, destination@));
    proof {
        lemma_raw_sum_bound(header@);
    }
    insert_checksum(&mut header, 10);
    header
}

/// Builds the echo reply to the echo request that `ipv4_packet` carries:
/// addresses swapped, the request's identifier, sequence number and data
/// echoed, both checksums filled in.
pub fn build_icmp_echo_reply(ipv4_packet: &Ipv4Packet) -> (reply: Vec<u8>)
    requires
        ipv4_packet.payload@.len() >= 4,
        ipv4_packet.payload@.len() <= usize::MAX - 20,
        raw_sum(echo_reply_fields(ipv4_packet.payload@)) <= u32::MAX,
    ensures
        reply@ == echo_reply_packet(
            ipv4_packet.source_ip@,
            ipv4_packet.destination_ip@,
            ipv4_packet.payload@,
        ),
{
    let request = ipv4_packet.payload;
    let total_length = 20 + request.len();
    let mut reply = build_ipv4_header(
        low_u16(total_length),
        1,
        &ipv4_packet.destination_ip,
        &ipv4_packet.source_ip,
    );
    let mut message = Vec::new();
    push_u16(&mut message, 0);
    push_u16(&mut message, 0);
    push_bytes(&mut message, vstd::slice::slice_subrange(request, 4, request.len()));
    assert(message@ =~= echo_reply_fields(request@));
    insert_checksum(&mut message, 2);
    push_bytes(&mut reply, message.as_slice());
    reply
}

/// Builds the UDP echo reply to `udp_packet`, carried by `ipv4_packet`:
/// addresses and ports swapped, the same payload, no UDP checksum.
pub fn build_udp_echo_reply(ipv4_packet: &Ipv4Packet, udp_packet: &UdpPacket) -> (reply: Vec<u8>)
    requires
        udp_packet.payload@.len() <= usize::MAX - 28,
    ensures
        reply@ == udp_echo_reply_packet(
            ipv4_packet.source_ip@,
            ipv4_packet.destination_ip@,
            udp_packet.source_port,
            udp_packet.destination_port,
            udp_packet.payload@,
        ),
{
    let udp_payload = udp_packet.payload;
    let udp_length = 8 + udp_payload.len();
    let total_length = 20 + udp_length;
    let mut reply = build_ipv4_header(
        total_length as u16,
        17,
        &ipv4_packet.destination_ip,
        &ipv4_packet.source_ip,
    );
    let ghost header = reply@;
    push_u16(&mut reply, udp_packet.destination_port);
    push_u16(&mut reply, udp_packet.source_port);
    push_u16(&mut reply, udp_length as u16);
    push_u16(&mut reply, 0);
    push_bytes(&mut reply, udp_payload);
    assert(reply@ =~= header + udp_echo_datagram(
        udp_packet.destination_port,
        udp_packet.source_port,
        udp_payload@,
    ));
    reply
}

/// Computes the TCP checksum of `tcp_segment` sent from `source_ip` to
/// `destination_ip`: the internet checksum over the pseudo-header (both
/// addresses, protocol 6, segment length) and the segment.
pub fn compute_tcp_checksum(source_ip: &[u8; 4], destination_ip: &[u8; 4], tcp_segment: &[u8]) -> (checksum: u16)
    requires
        raw_sum(tcp_pseudo_packet(source_ip@, destination_ip@, tcp_segment@)) <= u32::MAX,
    ensures
        checksum == tcp_checksum(source_ip@, destination_ip@, tcp_segment@),
{
    let mut pseudo_packet = Vec::new();
    push_ip(&mut pseudo_packet, source_ip);
    push_ip(&mut pseudo_packet, destination_ip);
    pseudo_packet.push(0);
    pseudo_packet.push(6);
    push_u16(&mut pseudo_packet, low_u16(tcp_segment.len()));
    push_bytes(&mut pseudo_packet, tcp_segment);
    assert(pseudo_packet@ =~= tcp_pseudo_packet(source_ip@, destination_ip@, tcp_segment@));
    compute_checksum(pseudo_packet.as_slice())
}

/// Whether the TCP checksum of a reply to `ipv4_packet` carrying `fields`
/// (its checksum field zero) can be summed in 32 bits.
pub open spec fn tcp_reply_sum_fits(ipv4_packet: Ipv4Packet, fields: Seq<u8>) -> bool {
    raw_sum(tcp_pseudo_packet(ipv4_packet.destination_ip@, ipv4_packet.source_ip@, fields)) <= u32::MAX
}

/// Builds a TCP reply to `tcp_packet`, carried by `ipv4_packet`: addresses
/// and ports swapped, the given sequence and acknowledgement numbers, flags
/// and payload, a 20-byte header, both checksums filled in.
pub fn build_tcp_packet(
    ipv4_packet: &Ipv4Packet,
    tcp_packet: &TcpPacket,
    sequence_number: u32,
    acknowledgement_number: u32,
    flags: u8,
    payload: &[u8],
) -> (reply: Vec<u8>)
    requires
        payload@.len() <= usize::MAX - 40,
        tcp_reply_sum_fits(
            *ipv4_packet,
            tcp_segment_fields(
                tcp_packet.destination_port,
                tcp_packet.source_port,
                sequence_number,
                acknowledgement_number,
                flags,
                payload@,
            ),
        ),
    ensures
        reply@ == tcp_reply_packet(
            ipv4_packet.source_ip@,
            ipv4_packet.destination_ip@,
            tcp_packet.source_port,
            tcp_packet.destination_port,
            sequence_number,
            acknowledgement_number,
            flags,
            payload@,
        ),
{
    let tcp_header_len: usize = 20;
    let tcp_length = tcp_header_len + payload.len();
    let total_length = 20 + tcp_length;
    let mut reply = build_ipv4_header(
        low_u16(total_length),
        6,
        &ipv4_packet.destination_ip,
        &ipv4_packet.source_ip,
    );
    let mut segment = Vec::new();
    push_u16(&mut segment, tcp_packet.destination_port);
    push_u16(&mut segment, tcp_packet.source_port);
    push_u32(&mut segment, sequence_number);
    push_u32(&mut segment, acknowledgement_number);
    segment.push(0x50);
    segment.push(flags);
    push_u16(&mut segment, 64240);
    push_u16(&mut segment, 0);
    push_u16(&mut segment, 0);
    push_bytes(&mut segment, payload);
    let ghost fields = segment@;
    assert(fields =~= tcp_segment_fields(
        tcp_packet.destination_port,
        tcp_packet.source_port,
        sequence_number,
        acknowledgement_number,
        flags,
        payload@,
    ));
    let tcp_checksum = compute_tcp_checksum(
        &ipv4_packet.destination_ip,
        &ipv4_packet.source_ip,
        segment.as_slice(),
    );
    segment.set(16, (tcp_checksum / 256) as u8);
    segment.set(17, (tcp_checksum % 256) as u8);
    push_bytes(&mut reply, segment.as_slice());
    reply
}

/// Builds the SYN-ACK answering the SYN `tcp_packet`: sequence number
/// `server_seq`, acknowledging the client's sequence number plus one.
pub fn build_tcp_syn_ack_reply(ipv4_packet: &Ipv4Packet, tcp_packet: &TcpPacket, server_seq: u32) -> (reply: Vec<u8>)
    requires
        tcp_reply_sum_fits(
            *ipv4_packet,
            tcp_segment_fields(
                tcp_packet.destination_port,
                tcp_packet.source_port,
                server_seq,
                tcp_packet.sequence_number.wrapping_add(1),
                0x12,
                Seq::empty(),
            ),
        ),
    ensures
        reply@ == tcp_reply_packet(
            ipv4_packet.source_ip@,
            ipv4_packet.destination_ip@,
            tcp_packet.source_port,
            tcp_packet.destination_port,
            server_seq,
            tcp_packet.sequence_number.wrapping_add(1),
            0x12,
            Seq::empty(),
        ),
{
    let ack_number = tcp_packet.sequence_number.wrapping_add(1);
    let empty: Vec<u8> = Vec::new();
    build_tcp_packet(ipv4_packet, tcp_packet, server_seq, ack_number, 0x12, empty.as_slice())
}

/// Builds the segment carrying the HTTP response `http_response` (flags
/// PSH and ACK).
pub fn build_tcp_http_reply(
    ipv4_packet: &Ipv4Packet,
    tcp_packet: &TcpPacket,
    sequence_number: u32,
    acknowledgement_number: u32,
    http_response: &[u8],
) -> (reply: Vec<u8>)
    requires
        http_response@.len() <= usize::MAX - 40,
        tcp_reply_sum_fits(
            *ipv4_packet,
            tcp_segment_fields(
                tcp_packet.destination_port,
                tcp_packet.source_port,
                sequence_number,
                acknowledgement_number,
                0x18,
                http_response@,
            ),
        ),
    ensures
        reply@ == tcp_reply_packet(
            ipv4_packet.source_ip@,
            ipv4_packet.destination_ip@,
            tcp_packet.source_port,
            tcp_packet.destination_port,
            sequence_number,
            acknowledgement_number,
            0x18,
            http_response@,
        ),
{
    build_tcp_packet(
        ipv4_packet,
        tcp_packet,
        sequence_number,
        acknowledgement_number,
        0x18,
        http_response,
    )
}

/// Builds a segment without payload carrying only control flags.
pub fn build_tcp_control_packet(
    ipv4_packet: &Ipv4Packet,
    tcp_packet: &TcpPacket,
    sequence_number: u32,
    acknowledgement_number: u32,
    flags: u8,
) -> (reply: Vec<u8>)
    requires
        tcp_reply_sum_fits(
            *ipv4_packet,
            tcp_segment_fields(
                tcp_packet.destination_port,
                tcp_packet.source_port,
                sequence_number,
                acknowledgement_number,
                flags,
                Seq::empty(),
            ),
        ),
    ensures
        reply@ == tcp_reply_packet(
            ipv4_packet.source_ip@,
            ipv4_packet.destination_ip@,
            tcp_packet.source_port,
            tcp_packet.destination_port,
            sequence_number,
            acknowledgement_number,
            flags,
            Seq::empty(),
        ),
{
    let empty: Vec<u8> = Vec::new();
    build_tcp_packet(
        ipv4_packet,
        tcp_packet,
        sequence_number,
        acknowledgement_number,
        flags,
        empty.as_slice(),
    )
}

} // verus!
