//! Protocol and interface classes, and the plain description of an interface.
use vstd::prelude::*;
use vstd::string::StrSliceExecFns;

verus! {

/// Transport protocols whose traffic is attributed.
#[derive(Clone, Copy, Debug, PartialEq, Eq, Hash, Structural)]
pub enum ProtocolType {
    Tcp,
    Udp,
}

/// IANA protocol number of TCP.
pub const TCP_PROTOCOL: u8 = 6;

/// IANA protocol number of UDP.
pub const UDP_PROTOCOL: u8 = 17;

impl ProtocolType {
    /// The IP protocol number that carries this transport.
    pub open spec fn number(self) -> u8 {
        match self {
            ProtocolType::Tcp => TCP_PROTOCOL,
            ProtocolType::Udp => UDP_PROTOCOL,
        }
    }

    /// Whether an IP next-header / protocol field names this transport.
    pub fn filter(&self, protocol: u8) -> (r: bool)
        ensures
            r == (protocol == self.number()),
    {
        match self {
            ProtocolType::Tcp => protocol == TCP_PROTOCOL,
            ProtocolType::Udp => protocol == UDP_PROTOCOL,
        }
    }

    /// The transport carried under an IP protocol number, if it is TCP or UDP.
    pub fn from_number(protocol: u8) -> (r: Option<ProtocolType>)
        ensures
            r == protocol_of_number(protocol),
    {
        if protocol == TCP_PROTOCOL {
            Some(ProtocolType::Tcp)
        } else if protocol == UDP_PROTOCOL {
            Some(ProtocolType::Udp)
        } else {
            None
        }
    }
}

/// The transport named by an IP protocol number, when it is one that is attributed.
pub open spec fn protocol_of_number(protocol: u8) -> Option<ProtocolType> {
    if protocol == TCP_PROTOCOL {
        Some(ProtocolType::Tcp)
    } else if protocol == UDP_PROTOCOL {
        Some(ProtocolType::Udp)
    } else {
        None
    }
}

/// An IP address: a 32-bit IPv4 or a 128-bit IPv6 address, most significant byte first.
#[derive(Clone, Copy, Debug, PartialEq, Eq, Hash, Structural)]
pub enum IpAddress {
    V4(u32),
    V6(u128),
}

/// Name-prefix classes of network interfaces that a caller may choose to monitor.
#[derive(Clone, Copy, Debug, PartialEq, Eq, Hash, Structural)]
pub enum InterfaceType {
    Lo,
    En,
    Utun,
    Awdl,
    Llw,
    Bridge,
    P2p,
}

/// What the classifier and the parser read of one network interface.
#[derive(Clone, Debug)]
pub struct InterfaceInfo {
    pub name: String,
    pub is_up: bool,
    pub is_loopback: bool,
    pub is_point_to_point: bool,
    /// The hardware address as a 48-bit number, when the interface has one.
    pub mac: Option<u64>,
    pub ips: Vec<IpAddress>,
}

/// `p` is a prefix of `s`.
pub open spec fn has_prefix(s: Seq<char>, p: Seq<char>) -> bool {
    p.len() <= s.len() && s.subrange(0, p.len() as int) == p
}

/// Whether `s` starts with `p`, character by character.
pub fn starts_with(s: &str, p: &str) -> (r: bool)
    ensures
        r == has_prefix(s@, p@),
{
    let n = s.unicode_len();
    let m = p.unicode_len();
    if m > n {
        return false;
    }
    let mut i: usize = 0;
    while i < m
        invariant
            m == p@.len(),
            n == s@.len(),
            m <= n,
            i <= m,
            forall|j: int| 0 <= j < i ==> s@[j] == p@[j],
        decreases m - i,
    {
        if s.get_char(i) != p.get_char(i) {
            assert(s@.subrange(0, m as int)[i as int] != p@[i as int]);
            return false;
        }
        i = i + 1;
    }
    assert(s@.subrange(0, m as int) =~= p@);
    true
}

impl InterfaceType {
    /// The interface belongs to this class: by its name prefix, or for the loopback and
    /// point-to-point classes also by the interface's own flag.
    pub open spec fn matches(self, iface: InterfaceInfo) -> bool {
        match self {
            InterfaceType::Lo => has_prefix(iface.name@, "lo"@) || iface.is_loopback,
            InterfaceType::En => has_prefix(iface.name@, "en"@),
            InterfaceType::Utun => has_prefix(iface.name@, "utun"@),
            InterfaceType::Awdl => has_prefix(iface.name@, "awdl"@),
            InterfaceType::Llw => has_prefix(iface.name@, "llw"@),
            InterfaceType::Bridge => has_prefix(iface.name@, "bridge"@),
            InterfaceType::P2p => has_prefix(iface.name@, "p2p"@) || iface.is_point_to_point,
        }
    }

    /// Whether the interface belongs to this class.
    pub fn filter(&self, iface: &InterfaceInfo) -> (r: bool)
        ensures
            r == self.matches(*iface),
    {
        let name = iface.name.as_str();
        match self {
            InterfaceType::Lo => starts_with(name, "lo") || iface.is_loopback,
            InterfaceType::En => starts_with(name, "en"),
            InterfaceType::Utun => starts_with(name, "utun"),
            InterfaceType::Awdl => starts_with(name, "awdl"),
            InterfaceType::Llw => starts_with(name, "llw"),
            InterfaceType::Bridge => starts_with(name, "bridge"),
            InterfaceType::P2p => starts_with(name, "p2p") || iface.is_point_to_point,
        }
    }
}

/// An interface is eligible for capture: it is up, has an address, and belongs to one
/// of the allowed classes.
pub open spec fn eligible(iface: InterfaceInfo, types: Seq<InterfaceType>) -> bool {
    &&& iface.is_up
    &&& iface.ips.len() > 0
    &&& exists|k: int| 0 <= k < types.len() && (#[trigger] types[k]).matches(iface)
}

/// Positions of the eligible interfaces, in the order of the snapshot.
pub open spec fn eligible_indices(ifaces: Seq<InterfaceInfo>, types: Seq<InterfaceType>) -> Seq<
    usize,
>
    decreases ifaces.len(),
{
    if ifaces.len() == 0 {
        Seq::empty()
    } else {
        let prev = eligible_indices(ifaces.drop_last(), types);
        if eligible(ifaces.last(), types) {
            prev.push((ifaces.len() - 1) as usize)
        } else {
            prev
        }
    }
}

/// Whether some class of `types` holds the interface.
pub fn matches_any(iface: &InterfaceInfo, types: &Vec<InterfaceType>) -> (r: bool)
    ensures
        r == exists|k: int| 0 <= k < types@.len() && (#[trigger] types@[k]).matches(*iface),
{
    let mut k: usize = 0;
    while k < types.len()
        invariant
            k <= types@.len(),
            forall|j: int| 0 <= j < k ==> !(#[trigger] types@[j]).matches(*iface),
        decreases types@.len() - k,
    {
        if types[k].filter(iface) {
            return true;
        }
        k = k + 1;
    }
    false
}

/// The positions in `ifaces` of the interfaces eligible for capture under `types`.
pub fn select_interfaces(ifaces: &Vec<InterfaceInfo>, types: &Vec<InterfaceType>) -> (r: Vec<
    usize,
>)
    ensures
        r@ == eligible_indices(ifaces@, types@),
{
    let mut out: Vec<usize> = Vec::new();
    let mut i: usize = 0;
    while i < ifaces.len()
        invariant
            i <= ifaces@.len(),
            out@ == eligible_indices(ifaces@.take(i as int), types@),
        decreases ifaces@.len() - i,
    {
        let iface = &ifaces[i];
        let ok = iface.is_up && iface.ips.len() > 0 && matches_any(iface, types);
        assert(ifaces@.take(i + 1).drop_last() =~= ifaces@.take(i as int));
        if ok {
            out.push(i);
        }
        i = i + 1;
    }
    assert(ifaces@.take(i as int) =~= ifaces@);
    out
}

} // verus!
