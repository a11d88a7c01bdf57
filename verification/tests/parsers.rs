use mininetstack::checksum::compute_checksum;
use mininetstack::ethernet::EthernetFrame;
use mininetstack::icmp::IcmpPacket;
use mininetstack::ipv4::Ipv4Packet;
use mininetstack::tcp::TcpPacket;
use mininetstack::udp::UdpPacket;

const SAMPLE_IPV4_HEADER: [u8; 20] = [
    0x45, 0x00, 0x00, 0x73, 0x00, 0x00, 0x40, 0x00, 0x40, 0x11, 0xb8, 0x61, 0xc0, 0xa8, 0x00, 0x01,
    0xc0, 0xa8, 0x00, 0xc7,
];

#[test]
fn checksum_of_known_ipv4_header() {
    let mut header = SAMPLE_IPV4_HEADER;
    header[10] = 0;
    header[11] = 0;
    assert_eq!(compute_checksum(&header), 0xb861);
    assert_eq!(compute_checksum(&SAMPLE_IPV4_HEADER), 0);
}

#[test]
fn checksum_of_empty_data() {
    assert_eq!(compute_checksum(&[]), 0xffff);
}

#[test]
fn checksum_pads_odd_length_with_zero() {
    assert_eq!(compute_checksum(&[0x01]), 0xfeff);
    assert_eq!(compute_checksum(&[0x12, 0x34, 0x56]), !(0x1234u16 + 0x5600));
}

#[test]
fn checksum_folds_carries() {
    // 0xffff + 0x0001 = 0x10000, folded to 0x0001.
    assert_eq!(compute_checksum(&[0xff, 0xff, 0x00, 0x01]), 0xfffe);
    // 0xffff + 0xffff = 0x1fffe, folded to 0xffff, complemented to 0.
    assert_eq!(compute_checksum(&[0xff, 0xff, 0xff, 0xff]), 0);
}

#[test]
fn checksum_written_back_validates() {
    let mut data = vec![0x08, 0x00, 0x00, 0x00, 0x12, 0x34, 0x00, 0x01, b'h', b'i', b'!'];
    let c = compute_checksum(&data);
    data[2] = (c >> 8) as u8;
    data[3] = (c & 0xff) as u8;
    assert_eq!(compute_checksum(&data), 0);
    assert!(IcmpPacket::validate_checksum(&data));
    data[10] ^= 1;
    assert!(!IcmpPacket::validate_checksum(&data));
}

#[test]
fn ethernet_frame_parses() {
    let mut data = vec![1, 2, 3, 4, 5, 6, 0xaa, 0xbb, 0xcc, 0xdd, 0xee, 0xff, 0x08, 0x00];
    data.extend_from_slice(&[9, 8, 7]);
    let frame = EthernetFrame::parse(&data).unwrap();
    assert_eq!(frame.destination_mac, [1, 2, 3, 4, 5, 6]);
    assert_eq!(frame.source_mac, [0xaa, 0xbb, 0xcc, 0xdd, 0xee, 0xff]);
    assert_eq!(frame.ethertype, 0x0800);
    assert_eq!(frame.payload, &[9, 8, 7]);
}

#[test]
fn ethernet_frame_header_only_has_empty_payload() {
    let data = [0u8; 14];
    let frame = EthernetFrame::parse(&data).unwrap();
    assert!(frame.payload.is_empty());
}

#[test]
fn ethernet_frame_too_short() {
    let err = EthernetFrame::parse(&[0u8; 13]).unwrap_err();
    assert_eq!(err, "Ethernet frame too short");
}

#[test]
fn mac_is_formatted_in_lower_case_hex() {
    assert_eq!(
        EthernetFrame::format_mac(&[0x00, 0x1b, 0x2c, 0xab, 0xff, 0x09]),
        "00:1b:2c:ab:ff:09"
    );
}

#[test]
fn ipv4_packet_parses() {
    let mut data = SAMPLE_IPV4_HEADER.to_vec();
    data.extend_from_slice(&[0xde, 0xad]);
    let p = Ipv4Packet::parse(&data).unwrap();
    assert_eq!(p.version, 4);
    assert_eq!(p.header_length, 20);
    assert_eq!(p.total_length, 0x73);
    assert_eq!(p.ttl, 0x40);
    assert_eq!(p.protocol, 17);
    assert_eq!(p.source_ip, [192, 168, 0, 1]);
    assert_eq!(p.destination_ip, [192, 168, 0, 199]);
    assert_eq!(p.payload, &[0xde, 0xad]);
}

#[test]
fn ipv4_payload_follows_stated_header_length() {
    let mut data = SAMPLE_IPV4_HEADER.to_vec();
    data[0] = 0x46; // 24-byte header
    data.extend_from_slice(&[1, 2, 3, 4, 5]);
    let p = Ipv4Packet::parse(&data).unwrap();
    assert_eq!(p.header_length, 24);
    assert_eq!(p.payload, &[5]);
}

#[test]
fn ipv4_packet_too_short() {
    let err = Ipv4Packet::parse(&SAMPLE_IPV4_HEADER[..19]).unwrap_err();
    assert_eq!(err, "IPv4 packet too short");
}

#[test]
fn ipv4_header_length_beyond_packet() {
    let mut data = SAMPLE_IPV4_HEADER.to_vec();
    data[0] = 0x4f; // 60-byte header
    let err = Ipv4Packet::parse(&data).unwrap_err();
    assert_eq!(err, "Invalid IPv4 header length");
}

#[test]
fn ipv4_header_checksum_validation() {
    let mut data = SAMPLE_IPV4_HEADER.to_vec();
    data.extend_from_slice(&[1, 2, 3]);
    assert!(Ipv4Packet::validate_checksum(&data));
    data[8] = 0x3f;
    assert!(!Ipv4Packet::validate_checksum(&data));
    assert!(!Ipv4Packet::validate_checksum(&SAMPLE_IPV4_HEADER[..10]));
}

#[test]
fn ip_is_formatted_in_dotted_decimal() {
    assert_eq!(Ipv4Packet::format_ip(&[10, 0, 0, 2]), "10.0.0.2");
    assert_eq!(Ipv4Packet::format_ip(&[192, 168, 100, 255]), "192.168.100.255");
    assert_eq!(Ipv4Packet::format_ip(&[0, 9, 10, 99]), "0.9.10.99");
}

#[test]
fn icmp_packet_parses() {
    let data = [8, 0, 0xf7, 0xfe, 0, 1];
    let p = IcmpPacket::parse(&data).unwrap();
    assert_eq!(p.icmp_type, 8);
    assert_eq!(p.code, 0);
    assert_eq!(p.checksum, 0xf7fe);
    assert_eq!(p.payload, &[0, 1]);
}

#[test]
fn icmp_packet_too_short() {
    let err = IcmpPacket::parse(&[8, 0, 0]).unwrap_err();
    assert_eq!(err, "ICMP packet too short");
}

#[test]
fn icmp_type_names() {
    assert_eq!(IcmpPacket::icmp_type_name(0), "Echo Reply");
    assert_eq!(IcmpPacket::icmp_type_name(8), "Echo Request");
    assert_eq!(IcmpPacket::icmp_type_name(3), "Unknown");
}

fn tcp_header(flags_byte: u8, offset_byte: u8) -> Vec<u8> {
    vec![
        0x1f, 0x90, 0x00, 0x50, 0x00, 0x00, 0x01, 0x00, 0xde, 0xad, 0xbe, 0xef, offset_byte,
        flags_byte, 0xfa, 0xf0, 0x12, 0x34, 0x00, 0x07,
    ]
}

#[test]
fn tcp_packet_parses() {
    let mut data = tcp_header(0x12, 0x50);
    data.extend_from_slice(b"abc");
    let p = TcpPacket::parse(&data).unwrap();
    assert_eq!(p.source_port, 8080);
    assert_eq!(p.destination_port, 80);
    assert_eq!(p.sequence_number, 256);
    assert_eq!(p.acknowledgement_number, 0xdeadbeef);
    assert_eq!(p.data_offset, 20);
    assert_eq!(p.flags, 0x1012);
    assert_eq!(p.window_size, 0xfaf0);
    assert_eq!(p.checksum, 0x1234);
    assert_eq!(p.urgent_pointer, 7);
    assert_eq!(p.payload, b"abc");
    assert!(p.syn());
    assert!(p.ack());
    assert!(!p.fin());
}

#[test]
fn tcp_flags_are_read_from_their_bits() {
    let data = tcp_header(0x01, 0x50);
    let p = TcpPacket::parse(&data).unwrap();
    assert!(p.fin());
    assert!(!p.syn());
    assert!(!p.ack());
}

#[test]
fn tcp_options_are_skipped() {
    let mut data = tcp_header(0x10, 0x60); // 24-byte header
    data.extend_from_slice(&[1, 1, 1, 1, 9]);
    let p = TcpPacket::parse(&data).unwrap();
    assert_eq!(p.data_offset, 24);
    assert_eq!(p.payload, &[9]);
}

#[test]
fn tcp_packet_too_short() {
    let err = TcpPacket::parse(&[0u8; 19]).unwrap_err();
    assert_eq!(err, "TCP packet too short");
}

#[test]
fn tcp_header_longer_than_packet() {
    let data = tcp_header(0x10, 0xf0);
    let err = TcpPacket::parse(&data).unwrap_err();
    assert_eq!(err, "TCP header length exceeds packet size");
}

#[test]
fn udp_packet_parses_up_to_its_length() {
    let data = [0x30, 0x39, 0x1f, 0x90, 0x00, 0x0b, 0xab, 0xcd, b'h', b'i', b'!', 0xee, 0xee];
    let p = UdpPacket::parse(&data).unwrap();
    assert_eq!(p.source_port, 12345);
    assert_eq!(p.destination_port, 8080);
    assert_eq!(p.length, 11);
    assert_eq!(p.checksum, 0xabcd);
    assert_eq!(p.payload, b"hi!");
}

#[test]
fn udp_packet_too_short() {
    let err = UdpPacket::parse(&[0u8; 7]).unwrap_err();
    assert_eq!(err, "UDP packet too short");
}

#[test]
fn udp_length_larger_than_packet() {
    let data = [0, 1, 0, 2, 0x00, 0x20, 0, 0, 1, 2];
    let err = UdpPacket::parse(&data).unwrap_err();
    assert_eq!(err, "UDP length larger than packet");
}
