//! Frame parser: raw link-layer bytes to a normalized `Frame`.
use vstd::prelude::*;

use crate::config::{protocol_of_number, InterfaceInfo, IpAddress, ProtocolType};
use crate::sys_info::ProtocolPort;

verus! {

pub const ETHERNET_HEADER_LEN: usize = 14;

pub const ETHERTYPE_IPV4: u16 = 0x0800;

pub const ETHERTYPE_IPV6: u16 = 0x86dd;

pub const IPV4_MIN_HEADER_LEN: usize = 20;

pub const IPV6_HEADER_LEN: usize = 40;

pub const TCP_MIN_HEADER_LEN: usize = 20;

pub const UDP_HEADER_LEN: usize = 8;

/// One observed TCP or UDP packet, reduced to the fields that attribution needs.
#[derive(Clone, Debug)]
pub struct Frame {
    pub interface_name: String,
    /// Wire length of the captured frame, billed to its owner.
    pub data_length: usize,
    pub is_upload: bool,
    pub protocol: ProtocolType,
    pub source_ip: IpAddress,
    pub source_port: u16,
    pub destination_ip: IpAddress,
    pub destination_port: u16,
}

impl Frame {
    /// The port on this host's side: the source port of an upload, else the destination.
    pub open spec fn local_port_spec(self) -> u16 {
        if self.is_upload {
            self.source_port
        } else {
            self.destination_port
        }
    }

    /// The lookup key of this frame in a port map.
    pub open spec fn key(self) -> ProtocolPort {
        ProtocolPort { protocol: self.protocol, port: self.local_port_spec() }
    }

    pub fn local_port(&self) -> (r: u16)
        ensures
            r == self.local_port_spec(),
    {
        if self.is_upload {
            self.source_port
        } else {
            self.destination_port
        }
    }

    pub fn protocol_port(&self) -> (r: ProtocolPort)
        ensures
            r == self.key(),
    {
        ProtocolPort::new(self.protocol, self.local_port())
    }
}

/// The unsigned number that the bytes spell, most significant first.
pub open spec fn be_value(s: Seq<u8>) -> nat
    decreases s.len(),
{
    if s.len() == 0 {
        0
    } else {
        be_value(s.drop_last()) * 256 + s.last() as nat
    }
}

/// The big-endian field of `n` bytes at `start`.
pub open spec fn field(b: Seq<u8>, start: int, n: int) -> nat {
    be_value(b.subrange(start, start + n))
}

pub open spec fn pow256(n: nat) -> nat
    decreases n,
{
    if n == 0 {
        1
    } else {
        pow256((n - 1) as nat) * 256
    }
}

proof fn lemma_be_value_bound(s: Seq<u8>)
    ensures
        be_value(s) < pow256(s.len()),
    decreases s.len(),
{
    if s.len() > 0 {
        lemma_be_value_bound(s.drop_last());
        let a = be_value(s.drop_last());
        let p = pow256((s.len() - 1) as nat);
        let x = s.last() as nat;
        assert(a * 256 + x < p * 256) by (nonlinear_arith)
            requires
                a < p,
                x < 256,
        ;
    }
}

proof fn lemma_pow256_mono(a: nat, b: nat)
    requires
        a <= b,
    ensures
        pow256(a) <= pow256(b),
    decreases b - a,
{
    if a < b {
        lemma_pow256_mono(a, (b - 1) as nat);
    }
}

/// Reads the big-endian field of `n` bytes at `start`.
pub fn read_be(b: &[u8], start: usize, n: usize) -> (r: u128)
    requires
        n <= 16,
        start + n <= b@.len(),
    ensures
        r == field(b@, start as int, n as int),
{
    proof {
        reveal_with_fuel(pow256, 17);
        assert(pow256(16) == 0x1_0000_0000_0000_0000_0000_0000_0000_0000);
    }
    let len = b.len();
    let mut acc: u128 = 0;
    let mut k: usize = 0;
    while k < n
        invariant
            len == b@.len(),
            n <= 16,
            start + n <= b@.len(),
            k <= n,
            acc == field(b@, start as int, k as int),
            pow256(16) == 0x1_0000_0000_0000_0000_0000_0000_0000_0000,
        decreases n - k,
    {
        let ghost prev = b@.subrange(start as int, start + k);
        let ghost next = b@.subrange(start as int, start + k + 1);
        proof {
            assert(next.drop_last() =~= prev);
            lemma_be_value_bound(prev);
            lemma_pow256_mono(k as nat, 15);
            assert(pow256(16) == pow256(15) * 256);
            assert((acc as nat) * 256 + 255 < pow256(16)) by (nonlinear_arith)
                requires
                    acc < pow256(k as nat),
                    pow256(k as nat) <= pow256(15),
                    pow256(16) == pow256(15) * 256,
            ;
        }
        acc = acc * 256 + b[start + k] as u128;
        k = k + 1;
    }
    acc
}

/// Network-layer header fields that the parser reads.
#[derive(Clone, Copy, Debug, PartialEq, Eq, Structural)]
pub struct IpHeader {
    /// The IPv4 protocol or IPv6 next-header number.
    pub protocol: u8,
    pub source: IpAddress,
    pub destination: IpAddress,
    /// Offset in the frame where the transport header begins.
    pub payload_start: usize,
}

/// The IPv4 header at `off`: at least the minimum header, and the length its IHL field
/// declares, must be present.
pub open spec fn ipv4_header(b: Seq<u8>, off: int) -> Option<IpHeader> {
    let hl = (b[off] % 16) * 4;
    if off + IPV4_MIN_HEADER_LEN <= b.len() && hl >= IPV4_MIN_HEADER_LEN && off + hl <= b.len() {
        Some(
            IpHeader {
                protocol: b[off + 9],
                source: IpAddress::V4(field(b, off + 12, 4) as u32),
                destination: IpAddress::V4(field(b, off + 16, 4) as u32),
                payload_start: (off + hl) as usize,
            },
        )
    } else {
        None
    }
}

/// The fixed IPv6 header at `off`.
pub open spec fn ipv6_header(b: Seq<u8>, off: int) -> Option<IpHeader> {
    if off + IPV6_HEADER_LEN <= b.len() {
        Some(
            IpHeader {
                protocol: b[off + 6],
                source: IpAddress::V6(field(b, off + 8, 16) as u128),
                destination: IpAddress::V6(field(b, off + 24, 16) as u128),
                payload_start: (off + IPV6_HEADER_LEN) as usize,
            },
        )
    } else {
        None
    }
}

/// The IP header of an Ethernet frame, chosen by its ethertype.
pub open spec fn ip_header(b: Seq<u8>) -> Option<IpHeader> {
    if b.len() < ETHERNET_HEADER_LEN {
        None
    } else {
        let ethertype = field(b, 12, 2);
        if ethertype == ETHERTYPE_IPV4 {
            ipv4_header(b, ETHERNET_HEADER_LEN as int)
        } else if ethertype == ETHERTYPE_IPV6 {
            ipv6_header(b, ETHERNET_HEADER_LEN as int)
        } else {
            None
        }
    }
}

/// Whether the transport header at `off` is present in full: UDP's eight bytes, or the
/// TCP header at least its minimum and as long as its data-offset field declares.
pub open spec fn transport_complete(p: ProtocolType, b: Seq<u8>, off: int) -> bool {
    match p {
        ProtocolType::Tcp => {
            &&& off + TCP_MIN_HEADER_LEN <= b.len()
            &&& (b[off + 12] / 16) * 4 >= TCP_MIN_HEADER_LEN
            &&& off + (b[off + 12] / 16) * 4 <= b.len()
        },
        ProtocolType::Udp => off + UDP_HEADER_LEN <= b.len(),
    }
}

/// Source and destination port of the TCP or UDP header at `off`, when the whole
/// header is present.
pub open spec fn transport_ports(protocol: u8, b: Seq<u8>, off: int) -> Option<(u16, u16)> {
    match protocol_of_number(protocol) {
        None => None,
        Some(p) => {
            if transport_complete(p, b, off) {
                Some((field(b, off, 2) as u16, field(b, off + 2, 2) as u16))
            } else {
                None
            }
        },
    }
}

/// The frame is an Ethernet frame carrying a complete TCP or UDP header over IPv4 or IPv6.
pub open spec fn accepts(b: Seq<u8>) -> bool {
    &&& ip_header(b) is Some
    &&& transport_ports(ip_header(b)->0.protocol, b, ip_header(b)->0.payload_start as int) is Some
}

/// `f` is the record of the frame `b` captured on `iface`.
pub open spec fn describes(f: Frame, iface: InterfaceInfo, b: Seq<u8>) -> bool {
    let h = ip_header(b)->0;
    let ports = transport_ports(h.protocol, b, h.payload_start as int)->0;
    &&& f.interface_name@ == iface.name@
    &&& f.data_length == b.len()
    &&& f.protocol == protocol_of_number(h.protocol)->0
    &&& f.source_ip == h.source
    &&& f.destination_ip == h.destination
    &&& f.source_port == ports.0
    &&& f.destination_port == ports.1
    &&& f.is_upload == iface.ips@.contains(h.source)
}

pub fn parse_ipv4(b: &[u8], off: usize) -> (r: Option<IpHeader>)
    requires
        off <= b@.len(),
    ensures
        r == ipv4_header(b@, off as int),
{
    if b.len() - off < IPV4_MIN_HEADER_LEN {
        return None;
    }
    let hl = (b[off] % 16) as usize * 4;
    if hl < IPV4_MIN_HEADER_LEN || b.len() - off < hl {
        return None;
    }
    let source = read_be(b, off + 12, 4) as u32;
    let destination = read_be(b, off + 16, 4) as u32;
    Some(
        IpHeader {
            protocol: b[off + 9],
            source: IpAddress::V4(source),
            destination: IpAddress::V4(destination),
            payload_start: off + hl,
        },
    )
}

pub fn parse_ipv6(b: &[u8], off: usize) -> (r: Option<IpHeader>)
    requires
        off <= b@.len(),
    ensures
        r == ipv6_header(b@, off as int),
{
    if b.len() - off < IPV6_HEADER_LEN {
        return None;
    }
    let source = read_be(b, off + 8, 16);
    let destination = read_be(b, off + 24, 16);
    Some(
        IpHeader {
            protocol: b[off + 6],
            source: IpAddress::V6(source),
            destination: IpAddress::V6(destination),
            payload_start: off + IPV6_HEADER_LEN,
        },
    )
}

/// The IP header of an Ethernet frame.
pub fn parse_ip_header(b: &[u8]) -> (r: Option<IpHeader>)
    ensures
        r == ip_header(b@),
{
    if b.len() < ETHERNET_HEADER_LEN {
        return None;
    }
    let ethertype = read_be(b, 12, 2);
    if ethertype == ETHERTYPE_IPV4 as u128 {
        parse_ipv4(b, ETHERNET_HEADER_LEN)
    } else if ethertype == ETHERTYPE_IPV6 as u128 {
        parse_ipv6(b, ETHERNET_HEADER_LEN)
    } else {
        None
    }
}

/// Source and destination port of the transport header at `off`.
pub fn get_port(protocol: u8, b: &[u8], off: usize) -> (r: Option<(u16, u16)>)
    requires
        off <= b@.len(),
    ensures
        r == transport_ports(protocol, b@, off as int),
{
    match ProtocolType::from_number(protocol) {
        None => {
            return None;
        },
        Some(ProtocolType::Tcp) => {
            if b.len() - off < TCP_MIN_HEADER_LEN {
                return None;
            }
            let hl = (b[off + 12] / 16) as usize * 4;
            if hl < TCP_MIN_HEADER_LEN || b.len() - off < hl {
                return None;
            }
        },
        Some(ProtocolType::Udp) => {
            if b.len() - off < UDP_HEADER_LEN {
                return None;
            }
        },
    }
    Some((read_be(b, off, 2) as u16, read_be(b, off + 2, 2) as u16))
}

/// Whether `source` is one of the interface's own addresses.
pub fn is_upload(ips: &Vec<IpAddress>, source: IpAddress) -> (r: bool)
    ensures
        r == ips@.contains(source),
{
    let mut i: usize = 0;
    while i < ips.len()
        invariant
            i <= ips@.len(),
            forall|j: int| 0 <= j < i ==> ips@[j] != source,
        decreases ips@.len() - i,
    {
        if ips[i] == source {
            assert(ips@[i as int] == source);
            return true;
        }
        i = i + 1;
    }
    false
}

/// Whether the frame's Ethernet source address is the interface's own hardware address.
/// This is a diagnostic signal only: direction is decided by the source IP.
pub fn is_upload_by_macaddr(iface: &InterfaceInfo, b: &[u8]) -> (r: bool)
    requires
        b@.len() >= ETHERNET_HEADER_LEN,
    ensures
        r == (iface.mac == Some(field(b@, 6, 6) as u64)),
{
    match iface.mac {
        Some(mac) => mac == read_be(b, 6, 6) as u64,
        None => false,
    }
}

/// Parses bytes that carry an Ethernet header. Frames that are not TCP or UDP over IPv4
/// or IPv6, and frames too short for a header they declare, give `None`.
pub fn parse_ethernet_frame(iface: &InterfaceInfo, b: &[u8]) -> (r: Option<Frame>)
    ensures
        r is Some <==> accepts(b@),
        r is Some ==> describes(r->0, *iface, b@),
{
    let header = match parse_ip_header(b) {
        Some(h) => h,
        None => {
            return None;
        },
    };
    let (source_port, destination_port) = match get_port(header.protocol, b, header.payload_start) {
        Some(p) => p,
        None => {
            return None;
        },
    };
    let protocol = match ProtocolType::from_number(header.protocol) {
        Some(p) => p,
        None => {
            return None;
        },
    };
    Some(
        Frame {
            interface_name: iface.name.clone(),
            data_length: b.len(),
            is_upload: is_upload(&iface.ips, header.source),
            protocol,
            source_ip: header.source,
            source_port,
            destination_ip: header.destination,
            destination_port,
        },
    )
}

/// Every frame that is accepted holds each header it declares in full, and carries TCP
/// or UDP: a frame shorter than a header it declares is rejected.
pub proof fn lemma_accepted_frames_are_complete(b: Seq<u8>)
    requires
        accepts(b),
    ensures
        b.len() >= ETHERNET_HEADER_LEN,
        ip_header(b)->0.payload_start >= ETHERNET_HEADER_LEN + IPV4_MIN_HEADER_LEN,
        ip_header(b)->0.payload_start + UDP_HEADER_LEN <= b.len(),
        protocol_of_number(ip_header(b)->0.protocol) == Some(ProtocolType::Tcp) ==> {
            let off = ip_header(b)->0.payload_start as int;
            &&& off + TCP_MIN_HEADER_LEN <= b.len()
            &&& off + (b[off + 12] / 16) * 4 <= b.len()
        },
        protocol_of_number(ip_header(b)->0.protocol) is Some,
{
}

/// The ethertype that the IP version nibble of a raw IP packet calls for.
pub open spec fn raw_ethertype(b: Seq<u8>) -> Option<u16> {
    if b.len() == 0 {
        None
    } else if b[0] / 16 == 4 {
        Some(ETHERTYPE_IPV4)
    } else if b[0] / 16 == 6 {
        Some(ETHERTYPE_IPV6)
    } else {
        None
    }
}

/// A raw IP packet behind a neutral Ethernet header: null addresses and the ethertype.
pub open spec fn with_null_ethernet(b: Seq<u8>, ethertype: u16) -> Seq<u8> {
    Seq::new(12, |i: int| 0u8) + seq![(ethertype / 256) as u8, (ethertype % 256) as u8] + b
}

/// The Ethernet frame that the parser reads for bytes captured on `iface`. Loopback and
/// point-to-point interfaces may deliver raw IP packets: a buffer from one of them whose
/// first nibble is an IP version gets a neutral Ethernet header. (A frame that has a real
/// Ethernet header starts with its destination address, null on such interfaces.)
pub open spec fn link_frame(iface: InterfaceInfo, b: Seq<u8>) -> Seq<u8> {
    if (iface.is_loopback || iface.is_point_to_point) && raw_ethertype(b) is Some {
        with_null_ethernet(b, raw_ethertype(b)->0)
    } else {
        b
    }
}

/// Puts a neutral Ethernet header in front of a raw IPv4 or IPv6 packet.
pub fn wrap_raw_ip(b: &[u8]) -> (r: Option<Vec<u8>>)
    ensures
        match raw_ethertype(b@) {
            None => r is None,
            Some(t) => r is Some && r->0@ == with_null_ethernet(b@, t),
        },
{
    if b.len() == 0 {
        return None;
    }
    let ethertype = if b[0] / 16 == 4 {
        ETHERTYPE_IPV4
    } else if b[0] / 16 == 6 {
        ETHERTYPE_IPV6
    } else {
        return None;
    };
    let mut out: Vec<u8> = Vec::new();
    let mut i: usize = 0;
    while i < 12
        invariant
            i <= 12,
            out@ == Seq::new(i as nat, |j: int| 0u8),
        decreases 12 - i,
    {
        out.push(0);
        i = i + 1;
        assert(out@ =~= Seq::new(i as nat, |j: int| 0u8));
    }
    out.push((ethertype / 256) as u8);
    out.push((ethertype % 256) as u8);
    let ghost head = out@;
    assert(head =~= Seq::new(12, |j: int| 0u8) + seq![
        (ethertype / 256) as u8,
        (ethertype % 256) as u8,
    ]);
    let mut k: usize = 0;
    while k < b.len()
        invariant
            k <= b@.len(),
            out@ == head + b@.take(k as int),
        decreases b@.len() - k,
    {
        out.push(b[k]);
        k = k + 1;
        assert(out@ =~= head + b@.take(k as int));
    }
    assert(b@.take(k as int) =~= b@);
    Some(out)
}

/// Parses a raw IP packet as the frame with a neutral Ethernet header in front of it.
pub fn handle_raw_ip_packet(iface: &InterfaceInfo, b: &[u8]) -> (r: Option<Frame>)
    ensures
        match raw_ethertype(b@) {
            None => r is None,
            Some(t) => {
                &&& r is Some <==> accepts(with_null_ethernet(b@, t))
                &&& r is Some ==> describes(r->0, *iface, with_null_ethernet(b@, t))
            },
        },
{
    match wrap_raw_ip(b) {
        Some(frame) => parse_ethernet_frame(iface, frame.as_slice()),
        None => None,
    }
}

/// Whether bytes captured on `iface` are a raw IP packet with no Ethernet header: the
/// interface is a loopback or point-to-point one and the first nibble is an IP version.
pub fn delivers_raw_ip(iface: &InterfaceInfo, b: &[u8]) -> (r: bool)
    ensures
        r == ((iface.is_loopback || iface.is_point_to_point) && raw_ethertype(b@) is Some),
{
    (iface.is_loopback || iface.is_point_to_point) && b.len() > 0 && (b[0] / 16 == 4 || b[0] / 16
        == 6)
}

/// Parses bytes captured on `iface` into a frame record. Raw IP packets from loopback and
/// point-to-point interfaces are read behind a neutral Ethernet header; frames that are
/// not TCP or UDP over IPv4 or IPv6, and frames too short for a header they declare,
/// give `None`.
pub fn handle_ethernet_frame(iface: &InterfaceInfo, b: &[u8]) -> (r: Option<Frame>)
    ensures
        r is Some <==> accepts(link_frame(*iface, b@)),
        r is Some ==> describes(r->0, *iface, link_frame(*iface, b@)),
{
    if delivers_raw_ip(iface, b) {
        handle_raw_ip_packet(iface, b)
    } else {
        parse_ethernet_frame(iface, b)
    }
}

} // verus!
