use mininetstack::checksum::compute_checksum;
use mininetstack::http::build_http_response;
use mininetstack::icmp::IcmpPacket;
use mininetstack::ipv4::Ipv4Packet;
use mininetstack::reply::{
    build_icmp_echo_reply, build_tcp_control_packet, build_tcp_http_reply, build_tcp_packet,
    build_tcp_syn_ack_reply, build_udp_echo_reply, compute_tcp_checksum,
};
use mininetstack::tcp::TcpPacket;
use mininetstack::udp::UdpPacket;

fn ipv4_packet(protocol: u8, src: [u8; 4], dst: [u8; 4], payload: &[u8]) -> Vec<u8> {
    let total = 20 + payload.len();
    let mut p = vec![0x45, 0, (total >> 8) as u8, total as u8, 0, 0, 0, 0, 64, protocol, 0, 0];
    p.extend_from_slice(&src);
    p.extend_from_slice(&dst);
    let c = compute_checksum(&p);
    p[10] = (c >> 8) as u8;
    p[11] = c as u8;
    p.extend_from_slice(payload);
    p
}

const CLIENT: [u8; 4] = [10, 0, 0, 1];
const STACK: [u8; 4] = [10, 0, 0, 2];

#[test]
fn echo_reply_answers_echo_request() {
    let request = [8, 0, 0x00, 0x00, 0x12, 0x34, 0x00, 0x07, b'p', b'i', b'n', b'g'];
    let raw = ipv4_packet(1, CLIENT, STACK, &request);
    let ip = Ipv4Packet::parse(&raw).unwrap();
    let reply = build_icmp_echo_reply(&ip);
    assert_eq!(reply.len(), 20 + request.len());

    let back = Ipv4Packet::parse(&reply).unwrap();
    assert_eq!(back.version, 4);
    assert_eq!(back.header_length, 20);
    assert_eq!(back.total_length as usize, reply.len());
    assert_eq!(back.ttl, 64);
    assert_eq!(back.protocol, 1);
    assert_eq!(back.source_ip, STACK);
    assert_eq!(back.destination_ip, CLIENT);
    assert!(Ipv4Packet::validate_checksum(&reply));

    let icmp = IcmpPacket::parse(back.payload).unwrap();
    assert_eq!(icmp.icmp_type, 0);
    assert_eq!(icmp.code, 0);
    assert_eq!(icmp.payload, &request[4..]);
    assert!(IcmpPacket::validate_checksum(back.payload));
}

#[test]
fn echo_reply_exact_bytes() {
    let request = [8, 0, 0xaa, 0xaa, 0, 1, 0, 2];
    let raw = ipv4_packet(1, CLIENT, STACK, &request);
    let ip = Ipv4Packet::parse(&raw).unwrap();
    let reply = build_icmp_echo_reply(&ip);
    let mut expected_header = vec![0x45, 0, 0, 28, 0, 0, 0, 0, 64, 1, 0, 0, 10, 0, 0, 2, 10, 0, 0, 1];
    let hc = compute_checksum(&expected_header);
    expected_header[10] = (hc >> 8) as u8;
    expected_header[11] = hc as u8;
    let mut expected_icmp = vec![0, 0, 0, 0, 0, 1, 0, 2];
    let ic = compute_checksum(&expected_icmp);
    expected_icmp[2] = (ic >> 8) as u8;
    expected_icmp[3] = ic as u8;
    assert_eq!(&reply[..20], &expected_header[..]);
    assert_eq!(&reply[20..], &expected_icmp[..]);
    assert_eq!(ic, !(0x0001u16 + 0x0002));
}

#[test]
fn udp_echo_reply_swaps_ports_and_echoes_payload() {
    let datagram = [0x30, 0x39, 0x1f, 0x90, 0x00, 0x0d, 0x00, 0x00, b'h', b'e', b'l', b'l', b'o'];
    let raw = ipv4_packet(17, CLIENT, STACK, &datagram);
    let ip = Ipv4Packet::parse(&raw).unwrap();
    let udp = UdpPacket::parse(ip.payload).unwrap();
    let reply = build_udp_echo_reply(&ip, &udp);

    let back = Ipv4Packet::parse(&reply).unwrap();
    assert_eq!(back.protocol, 17);
    assert_eq!(back.source_ip, STACK);
    assert_eq!(back.destination_ip, CLIENT);
    assert_eq!(back.total_length as usize, reply.len());
    assert!(Ipv4Packet::validate_checksum(&reply));
    let echoed = UdpPacket::parse(back.payload).unwrap();
    assert_eq!(echoed.source_port, 8080);
    assert_eq!(echoed.destination_port, 12345);
    assert_eq!(echoed.length, 13);
    assert_eq!(echoed.checksum, 0);
    assert_eq!(echoed.payload, b"hello");
}

fn tcp_segment(src_port: u16, dst_port: u16, seq: u32, ack: u32, flags: u8, payload: &[u8]) -> Vec<u8> {
    let mut s = Vec::new();
    s.extend_from_slice(&src_port.to_be_bytes());
    s.extend_from_slice(&dst_port.to_be_bytes());
    s.extend_from_slice(&seq.to_be_bytes());
    s.extend_from_slice(&ack.to_be_bytes());
    s.push(0x50);
    s.push(flags);
    s.extend_from_slice(&[0xff, 0xff, 0, 0, 0, 0]);
    s.extend_from_slice(payload);
    s
}

fn tcp_checksum_valid(src: [u8; 4], dst: [u8; 4], segment: &[u8]) -> bool {
    compute_tcp_checksum(&src, &dst, segment) == 0
}

#[test]
fn tcp_checksum_covers_pseudo_header() {
    let segment = [0u8; 20];
    let mut pseudo = Vec::new();
    pseudo.extend_from_slice(&CLIENT);
    pseudo.extend_from_slice(&STACK);
    pseudo.extend_from_slice(&[0, 6, 0, 20]);
    pseudo.extend_from_slice(&segment);
    assert_eq!(compute_tcp_checksum(&CLIENT, &STACK, &segment), compute_checksum(&pseudo));
    assert_eq!(compute_tcp_checksum(&CLIENT, &STACK, &segment), !(0x0a00u16 + 1 + 0x0a00 + 2 + 6 + 20));
}

#[test]
fn tcp_packet_reply_parses_back() {
    let raw = ipv4_packet(6, CLIENT, STACK, &tcp_segment(40000, 8080, 5, 0, 0x02, &[]));
    let ip = Ipv4Packet::parse(&raw).unwrap();
    let tcp = TcpPacket::parse(ip.payload).unwrap();
    let reply = build_tcp_packet(&ip, &tcp, 77, 99, 0x18, b"data");

    let back = Ipv4Packet::parse(&reply).unwrap();
    assert_eq!(back.protocol, 6);
    assert_eq!(back.source_ip, STACK);
    assert_eq!(back.destination_ip, CLIENT);
    assert_eq!(back.total_length as usize, reply.len());
    assert!(Ipv4Packet::validate_checksum(&reply));
    let seg = TcpPacket::parse(back.payload).unwrap();
    assert_eq!(seg.source_port, 8080);
    assert_eq!(seg.destination_port, 40000);
    assert_eq!(seg.sequence_number, 77);
    assert_eq!(seg.acknowledgement_number, 99);
    assert_eq!(seg.data_offset, 20);
    assert_eq!(seg.flags, 0x1018);
    assert_eq!(seg.window_size, 64240);
    assert_eq!(seg.urgent_pointer, 0);
    assert_eq!(seg.payload, b"data");
    assert!(tcp_checksum_valid(STACK, CLIENT, back.payload));
}

#[test]
fn syn_ack_acknowledges_client_sequence_plus_one() {
    let raw = ipv4_packet(6, CLIENT, STACK, &tcp_segment(40000, 8080, u32::MAX, 0, 0x02, &[]));
    let ip = Ipv4Packet::parse(&raw).unwrap();
    let tcp = TcpPacket::parse(ip.payload).unwrap();
    let reply = build_tcp_syn_ack_reply(&ip, &tcp, 1000);
    let back = Ipv4Packet::parse(&reply).unwrap();
    let seg = TcpPacket::parse(back.payload).unwrap();
    assert!(seg.syn() && seg.ack() && !seg.fin());
    assert_eq!(seg.sequence_number, 1000);
    assert_eq!(seg.acknowledgement_number, 0); // wraps around
    assert!(seg.payload.is_empty());
    assert!(tcp_checksum_valid(STACK, CLIENT, back.payload));
}

#[test]
fn control_and_http_replies() {
    let raw = ipv4_packet(6, CLIENT, STACK, &tcp_segment(40000, 8080, 10, 1001, 0x10, b"GET / HTTP/1.1\r\n"));
    let ip = Ipv4Packet::parse(&raw).unwrap();
    let tcp = TcpPacket::parse(ip.payload).unwrap();
    let fin_ack = build_tcp_control_packet(&ip, &tcp, 1001, 11, 0x11);
    let seg_bytes = &fin_ack[20..];
    let seg = TcpPacket::parse(seg_bytes).unwrap();
    assert!(seg.fin() && seg.ack());
    assert_eq!(seg.acknowledgement_number, 11);
    assert!(tcp_checksum_valid(STACK, CLIENT, seg_bytes));

    let response = build_http_response(tcp.payload);
    let http = build_tcp_http_reply(&ip, &tcp, 1001, 26, &response);
    let seg = TcpPacket::parse(&http[20..]).unwrap();
    assert_eq!(seg.payload, &response[..]);
    assert_eq!(seg.flags & 0xff, 0x18);
    assert!(tcp_checksum_valid(STACK, CLIENT, &http[20..]));
}

#[test]
fn http_response_to_root() {
    let response = build_http_response(b"GET / HTTP/1.1\r\nHost: x\r\n\r\n");
    let expected = "HTTP/1.1 200 OK\r\nContent-Type: text/plain\r\nContent-Length: 25\r\nConnection: close\r\nServer: MiniNetStack\r\n\r\nHello from MiniNetStack!\n";
    assert_eq!(response, expected.as_bytes());
}

#[test]
fn http_response_to_health() {
    let response = build_http_response(b"GET /health HTTP/1.1\r\n\r\n");
    let expected = "HTTP/1.1 200 OK\r\nContent-Type: text/plain\r\nContent-Length: 3\r\nConnection: close\r\nServer: MiniNetStack\r\n\r\nOK\n";
    assert_eq!(response, expected.as_bytes());
}

#[test]
fn http_response_to_other_requests() {
    let expected = "HTTP/1.1 200 OK\r\nContent-Type: text/plain\r\nContent-Length: 25\r\nConnection: close\r\nServer: MiniNetStack\r\n\r\nMiniNetStack HTTP Server\n";
    assert_eq!(build_http_response(b"POST / HTTP/1.1\r\n"), expected.as_bytes());
    assert_eq!(build_http_response(b"GET /"), expected.as_bytes());
    assert_eq!(build_http_response(b""), expected.as_bytes());
}

#[test]
fn http_response_to_invalid_utf8_is_the_default() {
    let expected = "HTTP/1.1 200 OK\r\nContent-Type: text/plain\r\nContent-Length: 25\r\nConnection: close\r\nServer: MiniNetStack\r\n\r\nMiniNetStack HTTP Server\n";
    assert_eq!(build_http_response(b"GET / \xff\xfe"), expected.as_bytes());
    assert_ne!(build_http_response(b"GET / ok"), expected.as_bytes());
}
