//! The stack's handling of one packet read from the TUN device: find the
//! IPv4 packet, keep it if it is addressed to the stack, and answer ICMP
//! echo requests, UDP datagrams to the listening port and TCP segments.

use vstd::prelude::*;
use vstd::slice::slice_subrange;

use crate::checksum::{lemma_raw_sum_bound, raw_sum};
use crate::connection::{
    apply_change, handle_tcp, key_id, lookup, packets_view, reply_packets, tcp_transition,
    ConnectionTable, TcpAction, TcpConnection, TCP_LISTEN_PORT,
};
use crate::icmp::IcmpPacket;
use crate::ipv4::{ipv4_parses, ipv4_payload, Ipv4Packet};
use crate::reply::{
    build_icmp_echo_reply, lemma_echo_reply_parses_back, lemma_reply_header_starts, build_udp_echo_reply, echo_reply_fields, echo_reply_packet,
    udp_echo_reply_packet,
};
use crate::tcp::{tcp_data_offset, tcp_flags, tcp_parses, TcpPacket};
use crate::udp::{udp_length, udp_length_below_header, udp_parses, UdpPacket};
use crate::wire::{be_u16, be_u32, push_bytes, suffix};

verus! {

/// The address of the stack.
pub open spec fn stack_ip() -> Seq<u8> {
    seq![10u8, 0u8, 0u8, 2u8]
}

/// The largest packet the stack reads from the device at once.
pub const READ_BUFFER_SIZE: usize = 1504;

/// Where the IPv4 packet starts in what was read, and whether a 4-byte TUN
/// header precedes it: at 0 if the first byte has IP version 4, else at 4
/// if there is more than the header and byte 4 has version 4.
pub open spec fn packet_start(raw: Seq<u8>) -> Option<(int, bool)> {
    if raw.len() > 0 && raw[0] / 16 == 4 {
        Some((0, false))
    } else if raw.len() > 4 && raw[4] / 16 == 4 {
        Some((4, true))
    } else {
        None
    }
}

/// `packet` as written to the device: after the TUN header `00 00 08 00`
/// when the packet read came with one.
pub open spec fn framed(packet: Seq<u8>, has_tun_header: bool) -> Seq<u8> {
    if has_tun_header {
        seq![0u8, 0u8, 8u8, 0u8] + packet
    } else {
        packet
    }
}

/// The name of an IP protocol number.
pub fn protocol_name(protocol: u8) -> (name: &'static str)
    ensures
        protocol == 1 ==> name@ == "ICMP"@,
        protocol == 6 ==> name@ == "TCP"@,
        protocol == 17 ==> name@ == "UDP"@,
        protocol != 1 && protocol != 6 && protocol != 17 ==> name@ == "Unknown"@,
{
    match protocol {
        1 => "ICMP",
        6 => "TCP",
        17 => "UDP",
        _ => "Unknown",
    }
}

/// Frames `packet` for the device.
pub fn frame_packet(packet: &[u8], has_tun_header: bool) -> (out: Vec<u8>)
    ensures
        out@ == framed(packet@, has_tun_header),
{
    let mut framed_packet = Vec::new();
    if has_tun_header {
        framed_packet.push(0x00);
        framed_packet.push(0x00);
        framed_packet.push(0x08);
        framed_packet.push(0x00);
    }
    push_bytes(&mut framed_packet, packet);
    assert(framed_packet@ =~= framed(packet@, has_tun_header));
    framed_packet
}

/// What was done with an ICMP message.
pub enum IcmpOutcome {
    /// The message does not parse; the error says why.
    ParseError(String),
    /// An echo request, answered with an echo reply.
    EchoReplied,
    /// A message of another type; nothing is sent.
    NotEchoRequest,
}

/// What was done with a UDP datagram.
pub enum UdpOutcome {
    /// The datagram does not parse; the error says why.
    ParseError(String),
    /// A datagram to the listening port, echoed back.
    EchoReplied,
    /// A datagram to another port; nothing is sent.
    NotListening,
}

/// Whether `outcome` is what the stack does with the ICMP message `message`.
pub open spec fn icmp_outcome_matches(outcome: IcmpOutcome, message: Seq<u8>) -> bool {
    if message.len() < 4 {
        outcome matches IcmpOutcome::ParseError(e) && e@ == "ICMP packet too short"@
    } else if message[0] == 8 {
        outcome matches IcmpOutcome::EchoReplied
    } else {
        outcome matches IcmpOutcome::NotEchoRequest
    }
}

/// The packets the stack sends for the ICMP message `message` from `src` to `dst`.
pub open spec fn icmp_replies(src: Seq<u8>, dst: Seq<u8>, message: Seq<u8>) -> Seq<Seq<u8>> {
    if message.len() >= 4 && message[0] == 8 {
        seq![echo_reply_packet(src, dst, message)]
    } else {
        seq![]
    }
}

/// Whether `outcome` is what the stack does with the UDP datagram `datagram`.
pub open spec fn udp_outcome_matches(outcome: UdpOutcome, datagram: Seq<u8>) -> bool {
    if !udp_parses(datagram) {
        &&& outcome matches UdpOutcome::ParseError(e)
        &&& datagram.len() < 8 ==> e@ == "UDP packet too short"@
        &&& datagram.len() >= 8 ==> e@ == "UDP length larger than packet"@
    } else if be_u16(datagram[2], datagram[3]) == TCP_LISTEN_PORT {
        outcome matches UdpOutcome::EchoReplied
    } else {
        outcome matches UdpOutcome::NotListening
    }
}

/// The packets the stack sends for the UDP datagram `datagram` from `src` to `dst`.
pub open spec fn udp_replies(src: Seq<u8>, dst: Seq<u8>, datagram: Seq<u8>) -> Seq<Seq<u8>> {
    if udp_parses(datagram) && be_u16(datagram[2], datagram[3]) == TCP_LISTEN_PORT {
        seq![
            udp_echo_reply_packet(
                src,
                dst,
                be_u16(datagram[0], datagram[1]) as u16,
                be_u16(datagram[2], datagram[3]) as u16,
                datagram.subrange(8, udp_length(datagram) as int),
            ),
        ]
    } else {
        seq![]
    }
}

/// Answers the ICMP message that `ipv4_packet` carries: an echo request
/// gets an echo reply.
pub fn handle_icmp(ipv4_packet: &Ipv4Packet) -> (out: (IcmpOutcome, Vec<Vec<u8>>))
    requires
        ipv4_packet.payload@.len() <= usize::MAX - 20,
        ipv4_packet.payload@.len() >= 4 && ipv4_packet.payload@[0] == 8 ==> raw_sum(
            echo_reply_fields(ipv4_packet.payload@),
        ) <= u32::MAX,
    ensures
        icmp_outcome_matches(out.0, ipv4_packet.payload@),
        packets_view(out.1@) == icmp_replies(
            ipv4_packet.source_ip@,
            ipv4_packet.destination_ip@,
            ipv4_packet.payload@,
        ),
{
    let mut replies: Vec<Vec<u8>> = Vec::new();
    let message = match IcmpPacket::parse(ipv4_packet.payload) {
        Ok(packet) => packet,
        Err(e) => {
            assert(packets_view(replies@) =~= seq![]);
            return (IcmpOutcome::ParseError(e), replies);
        },
    };
    if message.icmp_type == 8 {
        let reply = build_icmp_echo_reply(ipv4_packet);
        replies.push(reply);
        assert(packets_view(replies@) =~= icmp_replies(
            ipv4_packet.source_ip@,
            ipv4_packet.destination_ip@,
            ipv4_packet.payload@,
        ));
        (IcmpOutcome::EchoReplied, replies)
    } else {
        assert(packets_view(replies@) =~= seq![]);
        (IcmpOutcome::NotEchoRequest, replies)
    }
}

/// Answers the UDP datagram that `ipv4_packet` carries: one to the listening
/// port is echoed back.
pub fn handle_udp(ipv4_packet: &Ipv4Packet) -> (out: (UdpOutcome, Vec<Vec<u8>>))
    requires
        !udp_length_below_header(ipv4_packet.payload@),
    ensures
        udp_outcome_matches(out.0, ipv4_packet.payload@),
        packets_view(out.1@) == udp_replies(
            ipv4_packet.source_ip@,
            ipv4_packet.destination_ip@,
            ipv4_packet.payload@,
        ),
{
    let mut replies: Vec<Vec<u8>> = Vec::new();
    let udp_packet = match UdpPacket::parse(ipv4_packet.payload) {
        Ok(packet) => packet,
        Err(e) => {
            assert(packets_view(replies@) =~= seq![]);
            return (UdpOutcome::ParseError(e), replies);
        },
    };
    if udp_packet.destination_port == TCP_LISTEN_PORT {
        let reply = build_udp_echo_reply(ipv4_packet, &udp_packet);
        replies.push(reply);
        assert(packets_view(replies@) =~= udp_replies(
            ipv4_packet.source_ip@,
            ipv4_packet.destination_ip@,
            ipv4_packet.payload@,
        ));
        (UdpOutcome::EchoReplied, replies)
    } else {
        assert(packets_view(replies@) =~= seq![]);
        (UdpOutcome::NotListening, replies)
    }
}

/// What was done with one packet read from the device.
pub enum PacketOutcome {
    /// Neither at offset 0 nor after a TUN header is there an IPv4 packet.
    NotIpv4,
    /// The IPv4 packet does not parse.
    InvalidIpv4,
    /// The IPv4 packet is addressed to another host.
    NotForStack,
    /// An ICMP message to the stack.
    Icmp(IcmpOutcome),
    /// A UDP datagram to the stack.
    Udp(UdpOutcome),
    /// A TCP segment to the stack that does not parse; the error says why.
    TcpParseError(String),
    /// A TCP segment to the stack, run through the state machine.
    Tcp(TcpAction),
    /// A packet of another protocol.
    UnsupportedProtocol(u8),
}

/// The result of handling one packet: where the IPv4 packet started, whether
/// a TUN header preceded it, what was done, and the packets to write back,
/// framed like the packet read.
pub struct PacketResult {
    pub packet_offset: usize,
    pub has_tun_header: bool,
    pub outcome: PacketOutcome,
    pub replies: Vec<Vec<u8>>,
}

/// The state machine's step on the TCP segment `segment` from `src` to
/// `dst`: what it did, the table after it, and the packets it sends.
pub open spec fn tcp_segment_step(
    table: Map<u128, TcpConnection>,
    src: Seq<u8>,
    dst: Seq<u8>,
    segment: Seq<u8>,
) -> (TcpAction, Map<u128, TcpConnection>, Seq<Seq<u8>>) {
    let src_port = be_u16(segment[0], segment[1]) as u16;
    let dst_port = be_u16(segment[2], segment[3]) as u16;
    let id = key_id(src, dst, src_port, dst_port) as u128;
    let (action, change, plans) = tcp_transition(
        lookup(table, id),
        dst_port,
        tcp_flags(segment) as u16,
        be_u32(segment[4], segment[5], segment[6], segment[7]) as u32,
        be_u32(segment[8], segment[9], segment[10], segment[11]) as u32,
        suffix(segment, tcp_data_offset(segment) as int),
    );
    (action, apply_change(table, id, change), reply_packets(src, dst, src_port, dst_port, plans))
}

/// Every packet of `packets` framed for the device.
pub open spec fn all_framed(packets: Seq<Seq<u8>>, has_tun_header: bool) -> Seq<Seq<u8>> {
    packets.map_values(|p: Seq<u8>| framed(p, has_tun_header))
}

/// Whether handling the IPv4 packet `data` (read with a TUN header or not)
/// with the table `table` may do `outcome`, leave the table `table2` and
/// write `written`.
pub open spec fn ipv4_packet_handled(
    table: Map<u128, TcpConnection>,
    data: Seq<u8>,
    has_tun_header: bool,
    outcome: PacketOutcome,
    written: Seq<Seq<u8>>,
    table2: Map<u128, TcpConnection>,
) -> bool {
    if !ipv4_parses(data) {
        outcome matches PacketOutcome::InvalidIpv4 && written.len() == 0 && table2 == table
    } else if data.subrange(16, 20) != stack_ip() {
        outcome matches PacketOutcome::NotForStack && written.len() == 0 && table2 == table
    } else {
        let src = data.subrange(12, 16);
        let dst = data.subrange(16, 20);
        let payload = ipv4_payload(data);
        if data[9] == 1 {
            &&& outcome matches PacketOutcome::Icmp(o) && icmp_outcome_matches(o, payload)
            &&& written == all_framed(icmp_replies(src, dst, payload), has_tun_header)
            &&& table2 == table
        } else if data[9] == 17 {
            &&& outcome matches PacketOutcome::Udp(o) && udp_outcome_matches(o, payload)
            &&& written == all_framed(udp_replies(src, dst, payload), has_tun_header)
            &&& table2 == table
        } else if data[9] == 6 {
            if !tcp_parses(payload) {
                &&& outcome matches PacketOutcome::TcpParseError(e)
                &&& payload.len() < 20 ==> e@ == "TCP packet too short"@
                &&& payload.len() >= 20 ==> e@ == "TCP header length exceeds packet size"@
                &&& written.len() == 0
                &&& table2 == table
            } else {
                let (action, next, packets) = tcp_segment_step(table, src, dst, payload);
                &&& outcome == PacketOutcome::Tcp(action)
                &&& written == all_framed(packets, has_tun_header)
                &&& table2 == next
            }
        } else {
            outcome == PacketOutcome::UnsupportedProtocol(data[9]) && written.len() == 0 && table2
                == table
        }
    }
}

/// Whether every packet of `packets` is an IPv4 packet this stack built: at
/// least a 20-byte header, whose first byte is 0x45.
pub open spec fn all_start_ipv4(packets: Seq<Seq<u8>>) -> bool {
    forall|i: int| 0 <= i < packets.len() ==> #[trigger] packets[i].len() >= 20 && packets[i][0] == 0x45
}

/// Whether every packet of `written` is framed as a packet read with
/// (`has_tun_header`) or without a TUN header: after `00 00 08 00`, or
/// directly, comes the IPv4 header byte 0x45.
pub open spec fn all_written_framed(written: Seq<Seq<u8>>, has_tun_header: bool) -> bool {
    forall|i: int|
        0 <= i < written.len() ==> if has_tun_header {
            &&& #[trigger] written[i].len() > 4
            &&& written[i].subrange(0, 4) == seq![0u8, 0u8, 8u8, 0u8]
            &&& written[i][4] == 0x45
        } else {
            written[i].len() > 0 && written[i][0] == 0x45
        }
}

/// Framing IPv4 packets puts the TUN header before each exactly when the
/// packet read had one.
proof fn lemma_all_framed_written(packets: Seq<Seq<u8>>, has_tun_header: bool)
    requires
        all_start_ipv4(packets),
    ensures
        all_written_framed(all_framed(packets, has_tun_header), has_tun_header),
{
    let w = all_framed(packets, has_tun_header);
    assert forall|i: int| 0 <= i < w.len() implies if has_tun_header {
        &&& #[trigger] w[i].len() > 4
        &&& w[i].subrange(0, 4) == seq![0u8, 0u8, 8u8, 0u8]
        &&& w[i][4] == 0x45
    } else {
        w[i].len() > 0 && w[i][0] == 0x45
    } by {
        assert(packets[i].len() >= 20 && packets[i][0] == 0x45);
        if has_tun_header {
            assert(w[i].subrange(0, 4) =~= seq![0u8, 0u8, 8u8, 0u8]);
        }
    }
}

/// The replies written for a packet are framed like the packet read, for
/// every protocol: each begins with `00 00 08 00` when a TUN header
/// preceded the packet and directly with the IPv4 header otherwise.
pub proof fn lemma_replies_framed_like_request(
    table: Map<u128, TcpConnection>,
    data: Seq<u8>,
    has_tun_header: bool,
    outcome: PacketOutcome,
    written: Seq<Seq<u8>>,
    table2: Map<u128, TcpConnection>,
)
    requires
        ipv4_packet_handled(table, data, has_tun_header, outcome, written, table2),
    ensures
        all_written_framed(written, has_tun_header),
{
    if ipv4_parses(data) && data.subrange(16, 20) == stack_ip() {
        let src = data.subrange(12, 16);
        let dst = data.subrange(16, 20);
        let payload = ipv4_payload(data);
        if data[9] == 1 {
            let packets = icmp_replies(src, dst, payload);
            if packets.len() > 0 {
                lemma_echo_reply_starts_ipv4(src, dst, payload);
            }
            lemma_all_framed_written(packets, has_tun_header);
        } else if data[9] == 17 {
            let packets = udp_replies(src, dst, payload);
            if packets.len() > 0 {
                lemma_udp_reply_starts_ipv4(src, dst, payload);
            }
            lemma_all_framed_written(packets, has_tun_header);
        } else if data[9] == 6 && tcp_parses(payload) {
            let packets = tcp_segment_step(table, src, dst, payload).2;
            lemma_tcp_replies_start_ipv4(table, src, dst, payload);
            lemma_all_framed_written(packets, has_tun_header);
        }
    }
}

/// Only well-formed IPv4 packets addressed to 10.0.0.2 are answered, only
/// TCP segments change the connection table, and packets of protocols
/// other than ICMP, UDP and TCP get no reply.
pub proof fn lemma_what_is_answered(
    table: Map<u128, TcpConnection>,
    data: Seq<u8>,
    has_tun_header: bool,
    outcome: PacketOutcome,
    written: Seq<Seq<u8>>,
    table2: Map<u128, TcpConnection>,
)
    requires
        ipv4_packet_handled(table, data, has_tun_header, outcome, written, table2),
    ensures
        !ipv4_parses(data) || data.subrange(16, 20) != seq![10u8, 0u8, 0u8, 2u8] ==> written.len()
            == 0 && table2 == table,
        !(ipv4_parses(data) && data[9] == 6) ==> table2 == table,
        ipv4_parses(data) && data[9] != 1 && data[9] != 6 && data[9] != 17 ==> written.len() == 0,
{
}

/// An echo request to the stack is answered by exactly one packet: an echo
/// reply from 10.0.0.2 back to the sender, framed like the request.
pub proof fn lemma_ping_answered(
    table: Map<u128, TcpConnection>,
    data: Seq<u8>,
    has_tun_header: bool,
    outcome: PacketOutcome,
    written: Seq<Seq<u8>>,
    table2: Map<u128, TcpConnection>,
)
    requires
        ipv4_packet_handled(table, data, has_tun_header, outcome, written, table2),
        ipv4_parses(data),
        data.len() + 20 <= 0xFFFF,
        data.subrange(16, 20) == stack_ip(),
        data[9] == 1,
        ipv4_payload(data).len() >= 4,
        ipv4_payload(data)[0] == 8,
    ensures
        written.len() == 1,
        ({
            let r = if has_tun_header {
                suffix(written[0], 4)
            } else {
                written[0]
            };
            &&& ipv4_parses(r)
            &&& r[9] == 1
            &&& r.subrange(12, 16) == stack_ip()
            &&& r.subrange(16, 20) == data.subrange(12, 16)
            &&& ipv4_payload(r)[0] == 0
            &&& suffix(ipv4_payload(r), 4) == suffix(ipv4_payload(data), 4)
        }),
        table2 == table,
{
    let src = data.subrange(12, 16);
    let dst = data.subrange(16, 20);
    let payload = ipv4_payload(data);
    lemma_echo_reply_parses_back(src, dst, payload);
    let p = echo_reply_packet(src, dst, payload);
    if has_tun_header {
        assert(suffix(framed(p, true), 4) =~= p);
    }
}

/// Whether the IPv4 packet that `raw` holds is a UDP datagram to the stack
/// whose length field is below the 8 bytes of its own header.
pub open spec fn has_short_udp_length(raw: Seq<u8>) -> bool {
    match packet_start(raw) {
        None => false,
        Some((start, _)) => {
            let data = suffix(raw, start);
            &&& ipv4_parses(data)
            &&& data.subrange(16, 20) == stack_ip()
            &&& data[9] == 17
            &&& udp_length_below_header(ipv4_payload(data))
        },
    }
}

/// An echo reply begins with a 20-byte IPv4 header whose first byte is 0x45.
proof fn lemma_echo_reply_starts_ipv4(src: Seq<u8>, dst: Seq<u8>, request: Seq<u8>)
    requires
        src.len() == 4,
        dst.len() == 4,
    ensures
        echo_reply_packet(src, dst, request).len() >= 20,
        echo_reply_packet(src, dst, request)[0] == 0x45,
{
    lemma_reply_header_starts((20 + request.len()) as u16, 1, dst, src);
}

/// A UDP echo reply begins with a 20-byte IPv4 header whose first byte is 0x45.
proof fn lemma_udp_reply_starts_ipv4(src: Seq<u8>, dst: Seq<u8>, datagram: Seq<u8>)
    requires
        src.len() == 4,
        dst.len() == 4,
        udp_parses(datagram),
        be_u16(datagram[2], datagram[3]) == TCP_LISTEN_PORT,
    ensures
        all_start_ipv4(udp_replies(src, dst, datagram)),
{
    let payload = datagram.subrange(8, udp_length(datagram) as int);
    lemma_reply_header_starts((28 + payload.len()) as u16, 17, dst, src);
}

/// Every TCP reply begins with a 20-byte IPv4 header whose first byte is 0x45.
proof fn lemma_tcp_replies_start_ipv4(
    table: Map<u128, TcpConnection>,
    src: Seq<u8>,
    dst: Seq<u8>,
    segment: Seq<u8>,
)
    requires
        src.len() == 4,
        dst.len() == 4,
    ensures
        all_start_ipv4(tcp_segment_step(table, src, dst, segment).2),
{
    let packets = tcp_segment_step(table, src, dst, segment).2;
    assert forall|i: int| 0 <= i < packets.len() implies #[trigger] packets[i].len() >= 20
        && packets[i][0] == 0x45 by {
        let src_port = be_u16(segment[0], segment[1]) as u16;
        let dst_port = be_u16(segment[2], segment[3]) as u16;
        let id = key_id(src, dst, src_port, dst_port) as u128;
        let plans = tcp_transition(
            lookup(table, id),
            dst_port,
            tcp_flags(segment) as u16,
            be_u32(segment[4], segment[5], segment[6], segment[7]) as u32,
            be_u32(segment[8], segment[9], segment[10], segment[11]) as u32,
            suffix(segment, tcp_data_offset(segment) as int),
        ).2;
        let p = plans[i];
        lemma_reply_header_starts((40 + p.3.len()) as u16, 6, dst, src);
    }
}

/// Whether `ip` is the stack's address.
fn is_stack_ip(ip: &[u8; 4]) -> (yes: bool)
    ensures
        yes == (ip@ == stack_ip()),
{
    let yes = ip[0] == 10 && ip[1] == 0 && ip[2] == 0 && ip[3] == 2;
    if yes {
        assert(ip@ =~= stack_ip());
    } else {
        assert(ip@ != stack_ip()) by {
            if ip@ == stack_ip() {
                assert(ip@[0] == 10 && ip@[1] == 0 && ip@[2] == 0 && ip@[3] == 2);
            }
        }
    }
    yes
}

/// Frames every packet of `packets` for the device.
fn frame_all(packets: &Vec<Vec<u8>>, has_tun_header: bool) -> (out: Vec<Vec<u8>>)
    ensures
        packets_view(out@) == all_framed(packets_view(packets@), has_tun_header),
{
    let mut out: Vec<Vec<u8>> = Vec::new();
    let mut i: usize = 0;
    while i < packets.len()
        invariant
            0 <= i <= packets@.len(),
            packets_view(out@) =~= all_framed(packets_view(packets@), has_tun_header).take(i as int),
        decreases packets@.len() - i,
    {
        let framed_packet = frame_packet(packets[i].as_slice(), has_tun_header);
        let ghost before = out@;
        out.push(framed_packet);
        assert(packets_view(out@) =~= packets_view(before).push(framed_packet@));
        assert(all_framed(packets_view(packets@), has_tun_header)[i as int] == framed_packet@);
        i = i + 1;
    }
    assert(all_framed(packets_view(packets@), has_tun_header).take(i as int) =~= all_framed(
        packets_view(packets@),
        has_tun_header,
    ));
    out
}

/// Whether the IPv4 packet that `raw` holds is a UDP datagram to the stack
/// whose length field is below its own 8-byte header: such a packet cannot
/// be processed, since its payload would end before it starts.
pub fn udp_length_field_too_short(raw: &[u8]) -> (short: bool)
    ensures
        short == has_short_udp_length(raw@),
{
    let packet_offset: usize = if raw.len() > 0 && {
        let b = raw[0];
        assert(b >> 4 == b / 16) by (bit_vector);
        (b >> 4) == 4
    } {
        0
    } else if raw.len() > 4 && {
        let b = raw[4];
        assert(b >> 4 == b / 16) by (bit_vector);
        (b >> 4) == 4
    } {
        4
    } else {
        return false;
    };
    let packet_data = slice_subrange(raw, packet_offset, raw.len());
    match Ipv4Packet::parse(packet_data) {
        Ok(ipv4_packet) => {
            let datagram = ipv4_packet.payload;
            is_stack_ip(&ipv4_packet.destination_ip) && ipv4_packet.protocol == 17
                && datagram.len() >= 8 && crate::wire::read_be_u16(datagram, 4) < 8
        },
        Err(_) => false,
    }
}

/// Handles one packet `raw` read from the device: finds the IPv4 packet
/// (after a TUN header or not), drops it unless it parses and is addressed
/// to the stack, and answers it by its protocol, updating `connections`
/// for TCP. The replies come framed like `raw`.
pub fn process_packet(connections: &mut ConnectionTable, raw: &[u8]) -> (result: PacketResult)
    requires
        raw@.len() <= READ_BUFFER_SIZE,
        !has_short_udp_length(raw@),
    ensures
        match packet_start(raw@) {
            None => {
                &&& result.outcome matches PacketOutcome::NotIpv4
                &&& result.replies@.len() == 0
                &&& final(connections)@ == old(connections)@
            },
            Some((start, has_tun_header)) => {
                &&& result.packet_offset == start
                &&& result.has_tun_header == has_tun_header
                &&& all_written_framed(packets_view(result.replies@), has_tun_header)
                &&& ipv4_packet_handled(
                    old(connections)@,
                    suffix(raw@, start),
                    has_tun_header,
                    result.outcome,
                    packets_view(result.replies@),
                    final(connections)@,
                )
            },
        },
{
    let no_replies: Vec<Vec<u8>> = Vec::new();
    let first_is_ipv4 = raw.len() > 0 && {
        let b = raw[0];
        assert(b >> 4 == b / 16) by (bit_vector);
        (b >> 4) == 4
    };
    let (packet_offset, has_tun_header) = if first_is_ipv4 {
        (0, false)
    } else if raw.len() > 4 && {
        let b = raw[4];
        assert(b >> 4 == b / 16) by (bit_vector);
        (b >> 4) == 4
    } {
        (4, true)
    } else {
        return PacketResult {
            packet_offset: 0,
            has_tun_header: false,
            outcome: PacketOutcome::NotIpv4,
            replies: no_replies,
        };
    };
    let packet_data = slice_subrange(raw, packet_offset, raw.len());
    let ipv4_packet = match Ipv4Packet::parse(packet_data) {
        Ok(packet) => packet,
        Err(_) => {
            return PacketResult {
                packet_offset,
                has_tun_header,
                outcome: PacketOutcome::InvalidIpv4,
                replies: no_replies,
            };
        },
    };
    if !is_stack_ip(&ipv4_packet.destination_ip) {
        return PacketResult {
            packet_offset,
            has_tun_header,
            outcome: PacketOutcome::NotForStack,
            replies: no_replies,
        };
    }
    let (outcome, replies) = if ipv4_packet.protocol == 1 {
        proof {
            lemma_raw_sum_bound(echo_reply_fields(ipv4_packet.payload@));
        }
        let (o, r) = handle_icmp(&ipv4_packet);
        (PacketOutcome::Icmp(o), r)
    } else if ipv4_packet.protocol == 6 {
        match TcpPacket::parse(ipv4_packet.payload) {
            Ok(tcp_packet) => {
                let (a, r) = handle_tcp(connections, &ipv4_packet, &tcp_packet);
                (PacketOutcome::Tcp(a), r)
            },
            Err(e) => (PacketOutcome::TcpParseError(e), no_replies),
        }
    } else if ipv4_packet.protocol == 17 {
        let (o, r) = handle_udp(&ipv4_packet);
        (PacketOutcome::Udp(o), r)
    } else {
        (PacketOutcome::UnsupportedProtocol(ipv4_packet.protocol), no_replies)
    };
    let framed_replies = frame_all(&replies, has_tun_header);
    proof {
        lemma_replies_framed_like_request(
            old(connections)@,
            packet_data@,
            has_tun_header,
            outcome,
            packets_view(framed_replies@),
            connections@,
        );
    }
    PacketResult { packet_offset, has_tun_header, outcome, replies: framed_replies }
}

} // verus!
