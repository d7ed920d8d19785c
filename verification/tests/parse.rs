use netflow_agent::flow::FlowKey;
use netflow_agent::parse::parse_ethernet_ipv4;

fn udp_frame() -> Vec<u8> {
    // Ethernet header + minimal IPv4 UDP (20 + 8 = 28 bytes IP total)
    let mut frame = vec![0u8; 14 + 28];
    frame[12] = 0x08;
    frame[13] = 0x00;
    // IPv4
    frame[14] = 0x45;
    frame[16] = 0x00;
    frame[17] = 0x1c; // total length 28
    frame[23] = 17; // UDP
    frame[26] = 192;
    frame[27] = 168;
    frame[28] = 1;
    frame[29] = 10;
    frame[30] = 8;
    frame[31] = 8;
    frame[32] = 8;
    frame[33] = 8;
    // UDP ports 1234 -> 53
    frame[34] = 0x04;
    frame[35] = 0xd2;
    frame[36] = 0x00;
    frame[37] = 0x35;
    frame
}

#[test]
fn parses_minimal_udp_ipv4_over_ethernet() {
    let frame = udp_frame();
    let (key, bytes) = parse_ethernet_ipv4(&frame).expect("parse");
    assert_eq!(key.src_port, 1234);
    assert_eq!(key.dst_port, 53);
    assert_eq!(key.protocol, 17);
    assert_eq!(bytes, 28);
}

#[test]
fn parsed_addresses_are_big_endian_values() {
    let (key, _) = parse_ethernet_ipv4(&udp_frame()).expect("parse");
    assert_eq!(
        key,
        FlowKey {
            src_ip: 0xc0a8_010a,
            dst_ip: 0x0808_0808,
            src_port: 1234,
            dst_port: 53,
            protocol: 17,
        }
    );
}

#[test]
fn parses_vlan_tagged_frame() {
    let plain = udp_frame();
    let mut frame = Vec::new();
    frame.extend_from_slice(&plain[..12]);
    frame.extend_from_slice(&[0x81, 0x00, 0x00, 0x05, 0x08, 0x00]);
    frame.extend_from_slice(&plain[14..]);
    let (key, bytes) = parse_ethernet_ipv4(&frame).expect("parse");
    assert_eq!(key.src_port, 1234);
    assert_eq!(key.dst_port, 53);
    assert_eq!(bytes, 28);
}

#[test]
fn vlan_tag_without_room_is_rejected() {
    let mut frame = vec![0u8; 16];
    frame[12] = 0x81;
    frame[13] = 0x00;
    assert_eq!(parse_ethernet_ipv4(&frame), None);
}

#[test]
fn rejects_short_frames_and_other_ethertypes() {
    assert_eq!(parse_ethernet_ipv4(&[0u8; 13]), None);
    let mut frame = udp_frame();
    frame[12] = 0x86;
    frame[13] = 0xdd; // IPv6
    assert_eq!(parse_ethernet_ipv4(&frame), None);
}

#[test]
fn rejects_non_tcp_udp_and_bad_headers() {
    let mut icmp = udp_frame();
    icmp[23] = 1;
    assert_eq!(parse_ethernet_ipv4(&icmp), None);

    let mut v6 = udp_frame();
    v6[14] = 0x65;
    assert_eq!(parse_ethernet_ipv4(&v6), None);

    let mut short_ihl = udp_frame();
    short_ihl[14] = 0x44;
    assert_eq!(parse_ethernet_ipv4(&short_ihl), None);

    let mut too_long = udp_frame();
    too_long[17] = 0x40; // total length 64 > captured 28
    assert_eq!(parse_ethernet_ipv4(&too_long), None);

    let mut no_ports = udp_frame();
    no_ports[17] = 22; // only 2 bytes of transport header
    assert_eq!(parse_ethernet_ipv4(&no_ports), None);
}

#[test]
fn honours_ip_options_for_port_offset() {
    // IHL 6 (24-byte header): ports start 4 bytes later.
    let mut frame = vec![0u8; 14 + 32];
    frame[12] = 0x08;
    frame[14] = 0x46;
    frame[17] = 32;
    frame[23] = 6; // TCP
    frame[38] = 0x00;
    frame[39] = 0x50;
    frame[40] = 0x1f;
    frame[41] = 0x90;
    let (key, bytes) = parse_ethernet_ipv4(&frame).expect("parse");
    assert_eq!(key.protocol, 6);
    assert_eq!(key.src_port, 80);
    assert_eq!(key.dst_port, 8080);
    assert_eq!(bytes, 32);
}
