use net_traffic::analyze::{
    delivers_raw_ip, handle_ethernet_frame, handle_raw_ip_packet, is_upload,
    is_upload_by_macaddr, parse_ethernet_frame, read_be, wrap_raw_ip, Frame,
};
use net_traffic::config::{InterfaceInfo, IpAddress, ProtocolType};

fn iface(name: &str, ips: Vec<IpAddress>, mac: Option<u64>, p2p: bool) -> InterfaceInfo {
    InterfaceInfo {
        name: name.to_string(),
        is_up: true,
        is_loopback: name.starts_with("lo"),
        is_point_to_point: p2p,
        mac,
        ips,
    }
}

const LOCAL: u32 = 0xc0a8_0102; // 192.168.1.2
const REMOTE: u32 = 0x5db8_d822; // 93.184.216.34

fn ipv4_packet(protocol: u8, src: u32, dst: u32, sport: u16, dport: u16, transport_len: usize) -> Vec<u8> {
    let mut p = vec![0x45u8, 0, 0, 0, 0, 0, 0, 0, 64, protocol, 0, 0];
    p.extend_from_slice(&src.to_be_bytes());
    p.extend_from_slice(&dst.to_be_bytes());
    let mut t = vec![0u8; transport_len];
    t[0..2].copy_from_slice(&sport.to_be_bytes());
    t[2..4].copy_from_slice(&dport.to_be_bytes());
    if protocol == 6 {
        t[12] = ((transport_len / 4) as u8) << 4;
    }
    p.extend_from_slice(&t);
    p
}

fn ethernet(src_mac: [u8; 6], ethertype: u16, payload: &[u8]) -> Vec<u8> {
    let mut b = vec![0xffu8; 6];
    b.extend_from_slice(&src_mac);
    b.extend_from_slice(&ethertype.to_be_bytes());
    b.extend_from_slice(payload);
    b
}

const MAC: [u8; 6] = [0x02, 0x42, 0xac, 0x11, 0x00, 0x02];
const MAC_VALUE: u64 = 0x0242_ac11_0002;

#[test]
fn ipv4_tcp_upload_is_parsed() {
    let i = iface("en0", vec![IpAddress::V4(LOCAL)], Some(MAC_VALUE), false);
    let bytes = ethernet(MAC, 0x0800, &ipv4_packet(6, LOCAL, REMOTE, 50000, 443, 20));
    let f: Frame = handle_ethernet_frame(&i, &bytes).expect("tcp frame");
    assert_eq!(f.interface_name, "en0");
    assert_eq!(f.data_length, 14 + 20 + 20);
    assert!(f.is_upload);
    assert_eq!(f.protocol, ProtocolType::Tcp);
    assert_eq!(f.source_ip, IpAddress::V4(LOCAL));
    assert_eq!(f.destination_ip, IpAddress::V4(REMOTE));
    assert_eq!(f.source_port, 50000);
    assert_eq!(f.destination_port, 443);
    assert_eq!(f.local_port(), 50000);
    assert!(is_upload_by_macaddr(&i, &bytes));
}

#[test]
fn ipv4_udp_download_is_parsed() {
    let i = iface("en0", vec![IpAddress::V4(LOCAL)], Some(MAC_VALUE), false);
    let bytes = ethernet([1, 2, 3, 4, 5, 6], 0x0800, &ipv4_packet(17, REMOTE, LOCAL, 53, 40000, 8));
    let f = handle_ethernet_frame(&i, &bytes).expect("udp frame");
    assert!(!f.is_upload);
    assert_eq!(f.protocol, ProtocolType::Udp);
    assert_eq!(f.local_port(), 40000);
    assert_eq!(f.protocol_port().port, 40000);
    assert!(!is_upload_by_macaddr(&i, &bytes));
}

#[test]
fn ipv6_tcp_is_parsed() {
    let local: u128 = 0xfe80_0000_0000_0000_0000_0000_0000_0001;
    let remote: u128 = 0x2001_0db8_0000_0000_0000_0000_0000_0002;
    let mut p = vec![0x60u8, 0, 0, 0, 0, 20, 6, 64];
    p.extend_from_slice(&local.to_be_bytes());
    p.extend_from_slice(&remote.to_be_bytes());
    let mut t = vec![0u8; 20];
    t[0..2].copy_from_slice(&8080u16.to_be_bytes());
    t[2..4].copy_from_slice(&51000u16.to_be_bytes());
    t[12] = 0x50;
    p.extend_from_slice(&t);
    let bytes = ethernet(MAC, 0x86dd, &p);
    let i = iface("en1", vec![IpAddress::V6(local)], None, false);
    let f = handle_ethernet_frame(&i, &bytes).expect("ipv6 frame");
    assert!(f.is_upload);
    assert_eq!(f.source_ip, IpAddress::V6(local));
    assert_eq!(f.destination_ip, IpAddress::V6(remote));
    assert_eq!(f.source_port, 8080);
    assert_eq!(f.destination_port, 51000);
    assert_eq!(f.data_length, 14 + 40 + 20);
}

#[test]
fn other_protocols_and_ethertypes_are_dropped() {
    let i = iface("en0", vec![IpAddress::V4(LOCAL)], None, false);
    let icmp = ethernet(MAC, 0x0800, &ipv4_packet(1, LOCAL, REMOTE, 0, 0, 20));
    assert!(handle_ethernet_frame(&i, &icmp).is_none());
    let arp = ethernet(MAC, 0x0806, &[0u8; 28]);
    assert!(handle_ethernet_frame(&i, &arp).is_none());
}

#[test]
fn truncated_frames_are_rejected() {
    let i = iface("en0", vec![IpAddress::V4(LOCAL)], None, false);
    let full = ethernet(MAC, 0x0800, &ipv4_packet(6, LOCAL, REMOTE, 1, 2, 20));
    for n in 0..full.len() {
        assert!(handle_ethernet_frame(&i, &full[..n]).is_none(), "prefix of length {}", n);
    }
    assert!(handle_ethernet_frame(&i, &full).is_some());
    // An IHL that declares more header than is present.
    let mut long_header = full.clone();
    long_header[14] = 0x4f;
    assert!(handle_ethernet_frame(&i, &long_header).is_none());
    // An IHL below the minimum header.
    let mut short_header = full.clone();
    short_header[14] = 0x44;
    assert!(handle_ethernet_frame(&i, &short_header).is_none());
}

#[test]
fn udp_needs_only_its_eight_byte_header() {
    let i = iface("en0", vec![], None, false);
    let bytes = ethernet(MAC, 0x0800, &ipv4_packet(17, REMOTE, LOCAL, 5353, 5353, 8));
    assert!(handle_ethernet_frame(&i, &bytes).is_some());
    assert!(handle_ethernet_frame(&i, &bytes[..bytes.len() - 1]).is_none());
}

#[test]
fn raw_ip_gets_a_neutral_ethernet_header() {
    let packet = ipv4_packet(6, LOCAL, REMOTE, 1234, 80, 20);
    let wrapped = wrap_raw_ip(&packet).expect("ipv4 raw packet");
    assert_eq!(&wrapped[..12], &[0u8; 12]);
    assert_eq!(&wrapped[12..14], &[0x08, 0x00]);
    assert_eq!(&wrapped[14..], &packet[..]);
    assert!(wrap_raw_ip(&[]).is_none());
    assert!(wrap_raw_ip(&[0x50, 0, 0]).is_none());
    let v6 = wrap_raw_ip(&[0x60, 1, 2]).expect("ipv6 nibble");
    assert_eq!(&v6[12..], &[0x86, 0xdd, 0x60, 1, 2]);
}

#[test]
fn point_to_point_interfaces_read_raw_ip() {
    let tun = iface("utun3", vec![IpAddress::V4(LOCAL)], None, true);
    let packet = ipv4_packet(17, LOCAL, REMOTE, 4500, 4500, 8);
    let f = handle_ethernet_frame(&tun, &packet).expect("raw udp");
    assert!(f.is_upload);
    assert_eq!(f.data_length, packet.len() + 14);
    let g = handle_raw_ip_packet(&tun, &packet).expect("raw udp");
    assert_eq!(g.source_port, 4500);
    let eth = iface("en0", vec![IpAddress::V4(LOCAL)], None, false);
    assert!(handle_ethernet_frame(&eth, &packet).is_none());
}

#[test]
fn big_endian_reads() {
    let b = [0x12u8, 0x34, 0x56, 0x78, 0x9a];
    assert_eq!(read_be(&b, 0, 2), 0x1234);
    assert_eq!(read_be(&b, 1, 4), 0x3456789a);
    assert_eq!(read_be(&b, 5, 0), 0);
    let ones = [0xffu8; 16];
    assert_eq!(read_be(&ones, 0, 16), u128::MAX);
}

#[test]
fn upload_by_source_address() {
    let ips = vec![IpAddress::V4(LOCAL), IpAddress::V6(1)];
    assert!(is_upload(&ips, IpAddress::V6(1)));
    assert!(!is_upload(&ips, IpAddress::V4(REMOTE)));
    assert!(!is_upload(&vec![], IpAddress::V4(LOCAL)));
}

#[test]
fn tcp_header_must_be_as_long_as_its_data_offset() {
    let i = iface("en0", vec![IpAddress::V4(LOCAL)], None, false);
    let mut bytes = ethernet(MAC, 0x0800, &ipv4_packet(6, LOCAL, REMOTE, 1, 2, 20));
    assert_eq!(bytes.len(), 54);
    // Data offset 15 declares a 60-byte header, only 20 are present.
    bytes[14 + 20 + 12] = 0xf0;
    assert!(handle_ethernet_frame(&i, &bytes).is_none());
    // Data offset 4 is below the minimum header.
    bytes[14 + 20 + 12] = 0x40;
    assert!(handle_ethernet_frame(&i, &bytes).is_none());
    // A 24-byte header with options, present in full.
    let options = ethernet(MAC, 0x0800, &ipv4_packet(6, LOCAL, REMOTE, 7, 8, 24));
    let f = handle_ethernet_frame(&i, &options).expect("tcp with options");
    assert_eq!((f.source_port, f.destination_port), (7, 8));
    assert!(handle_ethernet_frame(&i, &options[..options.len() - 1]).is_none());
}

#[test]
fn loopback_reads_raw_ip_and_ethernet() {
    let lo = iface("lo0", vec![IpAddress::V4(0x7f00_0001)], None, false);
    let packet = ipv4_packet(6, 0x7f00_0001, 0x7f00_0001, 5000, 6000, 20);
    let raw = handle_ethernet_frame(&lo, &packet).expect("raw loopback packet");
    assert!(raw.is_upload);
    assert_eq!(raw.data_length, packet.len() + 14);
    assert_eq!((raw.source_port, raw.destination_port), (5000, 6000));
    // A loopback frame with a (null) Ethernet header is read as Ethernet.
    let mut framed = ethernet([0u8; 6], 0x0800, &packet);
    framed[0..6].copy_from_slice(&[0u8; 6]);
    let f = handle_ethernet_frame(&lo, &framed).expect("ethernet loopback frame");
    assert_eq!(f.data_length, framed.len());
}

#[test]
fn raw_packet_with_null_leading_address_on_loopback() {
    let lo = iface("lo", vec![IpAddress::V4(0x0000_0001)], None, false);
    // Source address 0.0.0.1: read as Ethernet, bytes 12..14 would be 0x0000.
    let packet = ipv4_packet(6, 0x0000_0001, REMOTE, 1000, 80, 20);
    assert!(delivers_raw_ip(&lo, &packet));
    assert!(parse_ethernet_frame(&lo, &packet).is_none());
    let f = handle_ethernet_frame(&lo, &packet).expect("raw packet on loopback");
    assert_eq!(f.source_ip, IpAddress::V4(1));
    assert_eq!((f.source_port, f.destination_port), (1000, 80));
    let wrapped = wrap_raw_ip(&packet).expect("ipv4");
    let g = parse_ethernet_frame(&lo, &wrapped).expect("wrapped packet");
    assert_eq!(g.data_length, f.data_length);
    let en = iface("en0", vec![], None, false);
    assert!(!delivers_raw_ip(&en, &packet));
}
