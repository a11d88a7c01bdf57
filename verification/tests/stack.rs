use mininetstack::checksum::compute_checksum;
use mininetstack::connection::{
    ConnectionKey, ConnectionTable, TcpAction, TcpConnection, TcpState, INITIAL_SERVER_SEQ,
};
use mininetstack::icmp::IcmpPacket;
use mininetstack::ipv4::Ipv4Packet;
use mininetstack::stack::{
    frame_packet, process_packet, protocol_name, udp_length_field_too_short, IcmpOutcome,
    PacketOutcome, UdpOutcome,
};
use mininetstack::tcp::TcpPacket;
use mininetstack::udp::UdpPacket;

const CLIENT: [u8; 4] = [10, 0, 0, 1];
const STACK: [u8; 4] = [10, 0, 0, 2];

fn ipv4_packet(protocol: u8, src: [u8; 4], dst: [u8; 4], payload: &[u8]) -> Vec<u8> {
    let total = 20 + payload.len();
    let mut p = vec![0x45, 0, (total >> 8) as u8, total as u8, 0, 0, 0, 0, 64, protocol, 0, 0];
    p.extend_from_slice(&src);
    p.extend_from_slice(&dst);
    let c = compute_checksum(&p);
    p[10] = (c >> 8) as u8;
    p[11] = c as u8;
    p.extend_from_slice(payload);
    p
}

fn tcp_segment(src_port: u16, dst_port: u16, seq: u32, ack: u32, flags: u8, payload: &[u8]) -> Vec<u8> {
    let mut s = Vec::new();
    s.extend_from_slice(&src_port.to_be_bytes());
    s.extend_from_slice(&dst_port.to_be_bytes());
    s.extend_from_slice(&seq.to_be_bytes());
    s.extend_from_slice(&ack.to_be_bytes());
    s.push(0x50);
    s.push(flags);
    s.extend_from_slice(&[0xff, 0xff, 0, 0, 0, 0]);
    s.extend_from_slice(payload);
    s
}

fn tcp(seq: u32, ack: u32, flags: u8, payload: &[u8]) -> Vec<u8> {
    ipv4_packet(6, CLIENT, STACK, &tcp_segment(40000, 8080, seq, ack, flags, payload))
}

fn key() -> u128 {
    ConnectionKey { src_ip: CLIENT, dst_ip: STACK, src_port: 40000, dst_port: 8080 }.id()
}

fn entry(table: &ConnectionTable) -> Option<(TcpState, u32, u32)> {
    table.get(key()).map(|c: TcpConnection| (c.state, c.send_seq, c.recv_seq))
}

fn reply_segment(reply: &[u8]) -> (u32, u32, u16, Vec<u8>) {
    let ip = Ipv4Packet::parse(reply).unwrap();
    let seg = TcpPacket::parse(ip.payload).unwrap();
    (seg.sequence_number, seg.acknowledgement_number, seg.flags & 0xff, seg.payload.to_vec())
}

#[test]
fn connection_key_packs_addresses_and_ports() {
    let k = ConnectionKey { src_ip: [1, 2, 3, 4], dst_ip: [5, 6, 7, 8], src_port: 0x090a, dst_port: 0x0b0c };
    assert_eq!(k.id(), 0x0102_0304_0506_0708_090a_0b0c);
}

#[test]
fn protocol_names() {
    assert_eq!(protocol_name(1), "ICMP");
    assert_eq!(protocol_name(6), "TCP");
    assert_eq!(protocol_name(17), "UDP");
    assert_eq!(protocol_name(2), "Unknown");
}

#[test]
fn framing_adds_the_tun_header() {
    assert_eq!(frame_packet(&[1, 2], true), vec![0, 0, 8, 0, 1, 2]);
    assert_eq!(frame_packet(&[1, 2], false), vec![1, 2]);
}

#[test]
fn non_ipv4_input_is_skipped() {
    let mut table = ConnectionTable::new();
    let r = process_packet(&mut table, &[0x60, 0, 0, 0, 0x60]);
    assert!(matches!(r.outcome, PacketOutcome::NotIpv4));
    assert!(r.replies.is_empty());
    let r = process_packet(&mut table, &[]);
    assert!(matches!(r.outcome, PacketOutcome::NotIpv4));
}

#[test]
fn packets_for_other_hosts_are_dropped() {
    let mut table = ConnectionTable::new();
    let raw = ipv4_packet(1, CLIENT, [10, 0, 0, 3], &[8, 0, 0, 0]);
    let r = process_packet(&mut table, &raw);
    assert!(matches!(r.outcome, PacketOutcome::NotForStack));
    assert!(r.replies.is_empty());
}

#[test]
fn invalid_ipv4_is_dropped() {
    let mut table = ConnectionTable::new();
    let r = process_packet(&mut table, &[0x45, 0, 0, 0]);
    assert!(matches!(r.outcome, PacketOutcome::InvalidIpv4));
}

#[test]
fn ping_is_answered() {
    let mut table = ConnectionTable::new();
    let request = [8, 0, 0, 0, 0, 1, 0, 1, b'x'];
    let raw = ipv4_packet(1, CLIENT, STACK, &request);
    let r = process_packet(&mut table, &raw);
    assert!(!r.has_tun_header);
    assert_eq!(r.packet_offset, 0);
    assert!(matches!(r.outcome, PacketOutcome::Icmp(IcmpOutcome::EchoReplied)));
    assert_eq!(r.replies.len(), 1);
    let ip = Ipv4Packet::parse(&r.replies[0]).unwrap();
    assert_eq!(ip.destination_ip, CLIENT);
    let icmp = IcmpPacket::parse(ip.payload).unwrap();
    assert_eq!(icmp.icmp_type, 0);
    assert!(IcmpPacket::validate_checksum(ip.payload));
    assert_eq!(table.len(), 0);
}

#[test]
fn ping_after_tun_header_is_answered_with_tun_header() {
    let mut table = ConnectionTable::new();
    let mut raw = vec![0, 0, 8, 0];
    raw.extend_from_slice(&ipv4_packet(1, CLIENT, STACK, &[8, 0, 0, 0, 0, 1, 0, 2]));
    let r = process_packet(&mut table, &raw);
    assert!(r.has_tun_header);
    assert_eq!(r.packet_offset, 4);
    assert_eq!(&r.replies[0][..4], &[0, 0, 8, 0]);
    assert!(Ipv4Packet::validate_checksum(&r.replies[0][4..]));
}

#[test]
fn other_icmp_types_and_short_messages_get_no_reply() {
    let mut table = ConnectionTable::new();
    let r = process_packet(&mut table, &ipv4_packet(1, CLIENT, STACK, &[0, 0, 0, 0]));
    assert!(matches!(r.outcome, PacketOutcome::Icmp(IcmpOutcome::NotEchoRequest)));
    assert!(r.replies.is_empty());
    let r = process_packet(&mut table, &ipv4_packet(1, CLIENT, STACK, &[8, 0]));
    match r.outcome {
        PacketOutcome::Icmp(IcmpOutcome::ParseError(e)) => assert_eq!(e, "ICMP packet too short"),
        _ => panic!("expected an ICMP parse error"),
    }
}

#[test]
fn udp_to_listening_port_is_echoed() {
    let mut table = ConnectionTable::new();
    let datagram = [0x30, 0x39, 0x1f, 0x90, 0x00, 0x0a, 0, 0, b'o', b'k'];
    let r = process_packet(&mut table, &ipv4_packet(17, CLIENT, STACK, &datagram));
    assert!(matches!(r.outcome, PacketOutcome::Udp(UdpOutcome::EchoReplied)));
    let ip = Ipv4Packet::parse(&r.replies[0]).unwrap();
    let udp = UdpPacket::parse(ip.payload).unwrap();
    assert_eq!(udp.destination_port, 12345);
    assert_eq!(udp.payload, b"ok");
}

#[test]
fn udp_to_other_ports_and_bad_datagrams_get_no_reply() {
    let mut table = ConnectionTable::new();
    let datagram = [0x30, 0x39, 0x00, 0x35, 0x00, 0x08, 0, 0];
    let r = process_packet(&mut table, &ipv4_packet(17, CLIENT, STACK, &datagram));
    assert!(matches!(r.outcome, PacketOutcome::Udp(UdpOutcome::NotListening)));
    assert!(r.replies.is_empty());
    let r = process_packet(&mut table, &ipv4_packet(17, CLIENT, STACK, &[0, 1, 0, 2]));
    match r.outcome {
        PacketOutcome::Udp(UdpOutcome::ParseError(e)) => assert_eq!(e, "UDP packet too short"),
        _ => panic!("expected a UDP parse error"),
    }
}

#[test]
fn udp_length_below_header_is_detected() {
    let datagram = [0x30, 0x39, 0x1f, 0x90, 0x00, 0x04, 0, 0];
    assert!(udp_length_field_too_short(&ipv4_packet(17, CLIENT, STACK, &datagram)));
    let fine = [0x30, 0x39, 0x1f, 0x90, 0x00, 0x08, 0, 0];
    assert!(!udp_length_field_too_short(&ipv4_packet(17, CLIENT, STACK, &fine)));
    assert!(!udp_length_field_too_short(&ipv4_packet(17, CLIENT, [1, 1, 1, 1], &datagram)));
}

#[test]
fn unsupported_protocols_are_reported() {
    let mut table = ConnectionTable::new();
    let r = process_packet(&mut table, &ipv4_packet(47, CLIENT, STACK, &[1, 2, 3]));
    assert!(matches!(r.outcome, PacketOutcome::UnsupportedProtocol(47)));
    assert!(r.replies.is_empty());
}

#[test]
fn tcp_parse_errors_are_reported() {
    let mut table = ConnectionTable::new();
    let r = process_packet(&mut table, &ipv4_packet(6, CLIENT, STACK, &[0u8; 10]));
    match r.outcome {
        PacketOutcome::TcpParseError(e) => assert_eq!(e, "TCP packet too short"),
        _ => panic!("expected a TCP parse error"),
    }
}

#[test]
fn tcp_to_other_ports_is_ignored() {
    let mut table = ConnectionTable::new();
    let raw = ipv4_packet(6, CLIENT, STACK, &tcp_segment(40000, 22, 1, 0, 0x02, &[]));
    let r = process_packet(&mut table, &raw);
    assert!(matches!(r.outcome, PacketOutcome::Tcp(TcpAction::PortNotListening)));
    assert!(r.replies.is_empty());
    assert_eq!(table.len(), 0);
}

#[test]
fn segment_without_connection_is_ignored() {
    let mut table = ConnectionTable::new();
    let r = process_packet(&mut table, &tcp(5, 1001, 0x10, &[]));
    assert!(matches!(r.outcome, PacketOutcome::Tcp(TcpAction::NoConnection)));
    assert!(r.replies.is_empty());
}

#[test]
fn full_http_session() {
    let mut table = ConnectionTable::new();

    // SYN
    let r = process_packet(&mut table, &tcp(5000, 0, 0x02, &[]));
    assert!(matches!(r.outcome, PacketOutcome::Tcp(TcpAction::ConnectionOpened)));
    assert_eq!(r.replies.len(), 1);
    assert_eq!(reply_segment(&r.replies[0]), (INITIAL_SERVER_SEQ, 5001, 0x12, vec![]));
    assert_eq!(entry(&table), Some((TcpState::SynReceived, 1000, 5001)));
    assert_eq!(table.len(), 1);

    // final ACK of the handshake
    let r = process_packet(&mut table, &tcp(5001, 1001, 0x10, &[]));
    assert!(matches!(r.outcome, PacketOutcome::Tcp(TcpAction::HandshakeComplete)));
    assert!(r.replies.is_empty());
    assert_eq!(entry(&table), Some((TcpState::Established, 1001, 5001)));

    // request
    let request = b"GET / HTTP/1.1\r\n\r\n";
    let r = process_packet(&mut table, &tcp(5001, 1001, 0x18, request));
    let response = mininetstack::http::build_http_response(request);
    let served_send = 1001 + response.len() as u32;
    let served_recv = 5001 + request.len() as u32;
    match r.outcome {
        PacketOutcome::Tcp(TcpAction::DataServed { send_seq, recv_seq }) => {
            assert_eq!(send_seq, served_send);
            assert_eq!(recv_seq, served_recv);
        },
        _ => panic!("expected the data to be served"),
    }
    assert_eq!(reply_segment(&r.replies[0]), (1001, served_recv, 0x18, response.clone()));
    assert_eq!(entry(&table), Some((TcpState::Established, served_send, served_recv)));

    // the same data again: only the ACK is repeated
    let r = process_packet(&mut table, &tcp(5001, 1001, 0x18, request));
    match r.outcome {
        PacketOutcome::Tcp(TcpAction::DuplicateData { expected, got }) => {
            assert_eq!(expected, served_recv);
            assert_eq!(got, 5001);
        },
        _ => panic!("expected duplicate data"),
    }
    assert_eq!(reply_segment(&r.replies[0]), (served_send, served_recv, 0x10, vec![]));
    assert_eq!(entry(&table), Some((TcpState::Established, served_send, served_recv)));

    // a bare ACK
    let r = process_packet(&mut table, &tcp(served_recv, served_send, 0x10, &[]));
    assert!(matches!(r.outcome, PacketOutcome::Tcp(TcpAction::AckReceived)));

    // FIN
    let r = process_packet(&mut table, &tcp(served_recv, served_send, 0x11, &[]));
    assert!(matches!(r.outcome, PacketOutcome::Tcp(TcpAction::FinReceived)));
    assert_eq!(r.replies.len(), 2);
    assert_eq!(reply_segment(&r.replies[0]), (served_send, served_recv + 1, 0x10, vec![]));
    assert_eq!(reply_segment(&r.replies[1]), (served_send, served_recv + 1, 0x11, vec![]));
    assert_eq!(entry(&table), Some((TcpState::CloseWait, served_send + 1, served_recv + 1)));

    // ACK of our FIN
    let r = process_packet(&mut table, &tcp(served_recv + 1, served_send + 1, 0x10, &[]));
    assert!(matches!(r.outcome, PacketOutcome::Tcp(TcpAction::ConnectionClosed)));
    assert_eq!(entry(&table), None);
    assert_eq!(table.len(), 0);
}

#[test]
fn wrong_ack_in_syn_received_changes_nothing() {
    let mut table = ConnectionTable::new();
    process_packet(&mut table, &tcp(7, 0, 0x02, &[]));
    let r = process_packet(&mut table, &tcp(8, 999, 0x10, &[]));
    assert!(matches!(r.outcome, PacketOutcome::Tcp(TcpAction::UnexpectedInSynReceived)));
    assert_eq!(entry(&table), Some((TcpState::SynReceived, 1000, 8)));
}

#[test]
fn close_wait_waits_for_an_ack() {
    let mut table = ConnectionTable::new();
    table.insert(key(), TcpConnection { state: TcpState::CloseWait, send_seq: 3, recv_seq: 4 });
    let r = process_packet(&mut table, &tcp(4, 3, 0x01, &[]));
    assert!(matches!(r.outcome, PacketOutcome::Tcp(TcpAction::AwaitingFinalAck)));
    assert_eq!(entry(&table), Some((TcpState::CloseWait, 3, 4)));
}

#[test]
fn closed_connection_is_removed() {
    let mut table = ConnectionTable::new();
    table.insert(key(), TcpConnection { state: TcpState::Closed, send_seq: 3, recv_seq: 4 });
    let r = process_packet(&mut table, &tcp(4, 3, 0x10, &[]));
    assert!(matches!(r.outcome, PacketOutcome::Tcp(TcpAction::ClosedRemoved)));
    assert_eq!(table.len(), 0);
}

#[test]
fn established_without_ack_is_ignored() {
    let mut table = ConnectionTable::new();
    table.insert(key(), TcpConnection { state: TcpState::Established, send_seq: 3, recv_seq: 4 });
    let r = process_packet(&mut table, &tcp(4, 3, 0x00, b"x"));
    assert!(matches!(r.outcome, PacketOutcome::Tcp(TcpAction::Ignored)));
    assert!(r.replies.is_empty());
}

#[test]
fn syn_replaces_an_existing_connection_only_for_its_key() {
    let mut table = ConnectionTable::new();
    let other = ConnectionKey { src_ip: [10, 0, 0, 9], dst_ip: STACK, src_port: 1, dst_port: 8080 }.id();
    table.insert(other, TcpConnection { state: TcpState::Established, send_seq: 1, recv_seq: 2 });
    table.insert(key(), TcpConnection { state: TcpState::Established, send_seq: 50, recv_seq: 60 });
    process_packet(&mut table, &tcp(70, 0, 0x02, &[]));
    assert_eq!(entry(&table), Some((TcpState::SynReceived, 1000, 71)));
    let o = table.get(other).unwrap();
    assert_eq!((o.state, o.send_seq, o.recv_seq), (TcpState::Established, 1, 2));
    assert_eq!(table.len(), 2);
}
