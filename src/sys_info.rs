//! Correlation of observed ports with the processes that own their sockets.
use vstd::prelude::*;

use std::collections::HashMap;

use crate::analyze::Frame;
use crate::config::ProtocolType;

verus! {

broadcast use vstd::std_specs::hash::group_hash_axioms;

/// A transport protocol and a port on this host: the key of a port map.
#[derive(Clone, Copy, Debug, PartialEq, Eq, Hash, Structural)]
pub struct ProtocolPort {
    pub protocol: ProtocolType,
    pub port: u16,
}

impl ProtocolPort {
    pub fn new(protocol: ProtocolType, port: u16) -> (r: Self)
        ensures
            r == (ProtocolPort { protocol, port }),
    {
        ProtocolPort { protocol, port }
    }

    /// A distinct integer for each protocol and port: the port, plus 65536 for UDP.
    pub open spec fn key_spec(self) -> u32 {
        match self.protocol {
            ProtocolType::Tcp => self.port as u32,
            ProtocolType::Udp => (self.port as u32 + 65536) as u32,
        }
    }

    pub fn key(&self) -> (r: u32)
        ensures
            r == self.key_spec(),
    {
        match self.protocol {
            ProtocolType::Tcp => self.port as u32,
            ProtocolType::Udp => self.port as u32 + 65536,
        }
    }
}

/// The process id that stands for "no owning process found".
pub const UNKNOWN_PID: u32 = 0;

/// One live socket of the operating system: its protocol, local port and owning processes.
#[derive(Clone, Debug)]
pub struct SocketEntry {
    pub protocol: ProtocolType,
    pub local_port: u16,
    pub pids: Vec<u32>,
}

/// A map from protocol and local port to the owning process id, held in a hash map keyed
/// by `ProtocolPort::key_spec`.
#[derive(Clone, Debug)]
pub struct PortMap {
    owners: HashMap<u32, u32>,
}

impl View for PortMap {
    type V = Map<ProtocolPort, u32>;

    closed spec fn view(&self) -> Map<ProtocolPort, u32> {
        Map::new(
            |k: ProtocolPort| self.owners@.contains_key(k.key_spec()),
            |k: ProtocolPort| self.owners@[k.key_spec()],
        )
    }
}

impl PortMap {
    pub fn new() -> (r: Self)
        ensures
            r@ == Map::<ProtocolPort, u32>::empty(),
    {
        let r = PortMap { owners: HashMap::new() };
        assert(r@ =~= Map::<ProtocolPort, u32>::empty());
        r
    }

    /// The process id recorded for `k`, if `k` is a key.
    pub fn get(&self, k: &ProtocolPort) -> (r: Option<u32>)
        ensures
            r == (if self@.contains_key(*k) {
                Some(self@[*k])
            } else {
                None
            }),
    {
        match self.owners.get(&k.key()) {
            Some(pid) => Some(*pid),
            None => None,
        }
    }

    pub fn contains_key(&self, k: &ProtocolPort) -> (r: bool)
        ensures
            r == self@.contains_key(*k),
    {
        self.owners.contains_key(&k.key())
    }

    /// Records `pid` for `k`, replacing what was recorded before.
    pub fn insert(&mut self, k: ProtocolPort, pid: u32)
        ensures
            final(self)@ == old(self)@.insert(k, pid),
    {
        self.owners.insert(k.key(), pid);
        assert(self@ =~= old(self)@.insert(k, pid));
    }
}

/// The distinct keys of a batch of frames.
pub open spec fn frame_keys(frames: Seq<Frame>) -> Set<ProtocolPort>
    decreases frames.len(),
{
    if frames.len() == 0 {
        Set::empty()
    } else {
        frame_keys(frames.drop_last()).insert(frames.last().key())
    }
}

/// The owner that a socket snapshot gives to `k`: the first pid of the last socket on
/// that protocol and port that has one, or the unknown pid.
pub open spec fn socket_owner(sockets: Seq<SocketEntry>, k: ProtocolPort) -> u32
    decreases sockets.len(),
{
    if sockets.len() == 0 {
        UNKNOWN_PID
    } else {
        let s = sockets.last();
        if s.protocol == k.protocol && s.local_port == k.port && s.pids@.len() > 0 {
            s.pids@[0]
        } else {
            socket_owner(sockets.drop_last(), k)
        }
    }
}

/// The port map of a batch against a socket snapshot: every key of the batch, each with
/// the owner that the snapshot gives it.
pub open spec fn port_map_model(frames: Seq<Frame>, sockets: Seq<SocketEntry>) -> Map<
    ProtocolPort,
    u32,
> {
    Map::new(|k: ProtocolPort| frame_keys(frames).contains(k), |k: ProtocolPort| socket_owner(sockets, k))
}

/// Why the socket table could not be read.
#[derive(Clone, Copy, Debug, PartialEq, Eq, Structural)]
pub enum CorrelationError {
    /// The operating system refused or failed the enumeration of sockets.
    QueryFailed,
}

/// Seeds a map with every key of the batch as unattributed, then records for each key
/// the owner that the socket snapshot gives it.
pub fn build_port_map(frames: &Vec<Frame>, sockets: &Vec<SocketEntry>) -> (r: PortMap)
    ensures
        r@ == port_map_model(frames@, sockets@),
{
    let mut map = PortMap::new();
    let mut i: usize = 0;
    while i < frames.len()
        invariant
            i <= frames@.len(),
            map@ == Map::new(
                |k: ProtocolPort| frame_keys(frames@.take(i as int)).contains(k),
                |k: ProtocolPort| UNKNOWN_PID,
            ),
        decreases frames@.len() - i,
    {
        let key = frames[i].protocol_port();
        if !map.contains_key(&key) {
            map.insert(key, UNKNOWN_PID);
        }
        assert(frames@.take(i + 1).drop_last() =~= frames@.take(i as int));
        i = i + 1;
        assert(map@ =~= Map::new(
            |k: ProtocolPort| frame_keys(frames@.take(i as int)).contains(k),
            |k: ProtocolPort| UNKNOWN_PID,
        ));
    }
    assert(frames@.take(i as int) =~= frames@);
    let mut j: usize = 0;
    while j < sockets.len()
        invariant
            j <= sockets@.len(),
            map@ == Map::new(
                |k: ProtocolPort| frame_keys(frames@).contains(k),
                |k: ProtocolPort| socket_owner(sockets@.take(j as int), k),
            ),
        decreases sockets@.len() - j,
    {
        let s = &sockets[j];
        assert(sockets@.take(j + 1).drop_last() =~= sockets@.take(j as int));
        if s.pids.len() > 0 {
            let key = ProtocolPort::new(s.protocol, s.local_port);
            if map.contains_key(&key) {
                map.insert(key, s.pids[0]);
            }
        }
        j = j + 1;
        assert(map@ =~= Map::new(
            |k: ProtocolPort| frame_keys(frames@).contains(k),
            |k: ProtocolPort| socket_owner(sockets@.take(j as int), k),
        ));
    }
    assert(sockets@.take(j as int) =~= sockets@);
    map
}

/// The owning processes of the first socket whose local port is `port`, whatever its
/// protocol; `None` when no socket is on that port.
pub open spec fn first_owners(sockets: Seq<SocketEntry>, port: u16) -> Option<Seq<u32>>
    decreases sockets.len(),
{
    if sockets.len() == 0 {
        None
    } else if sockets[0].local_port == port {
        Some(sockets[0].pids@)
    } else {
        first_owners(sockets.drop_first(), port)
    }
}

/// The owning processes of the first socket of the snapshot on local port `port`.
pub fn owners_on_port(sockets: &Vec<SocketEntry>, port: u16) -> (r: Option<Vec<u32>>)
    ensures
        match r {
            Some(v) => first_owners(sockets@, port) == Some(v@),
            None => first_owners(sockets@, port) is None,
        },
{
    let mut i: usize = 0;
    assert(sockets@.skip(0) =~= sockets@);
    while i < sockets.len()
        invariant
            i <= sockets@.len(),
            first_owners(sockets@, port) == first_owners(sockets@.skip(i as int), port),
        decreases sockets@.len() - i,
    {
        assert(sockets@.skip(i as int)[0] == sockets@[i as int]);
        if sockets[i].local_port == port {
            let pids = &sockets[i].pids;
            let mut out: Vec<u32> = Vec::new();
            let mut k: usize = 0;
            while k < pids.len()
                invariant
                    k <= pids@.len(),
                    out@ == pids@.take(k as int),
                decreases pids@.len() - k,
            {
                out.push(pids[k]);
                k = k + 1;
                assert(out@ =~= pids@.take(k as int));
            }
            assert(pids@.take(k as int) =~= pids@);
            return Some(out);
        }
        assert(sockets@.skip(i as int).drop_first() =~= sockets@.skip(i + 1));
        i = i + 1;
    }
    assert(sockets@.skip(i as int) =~= Seq::<SocketEntry>::empty());
    None
}

/// The owning processes of the first socket on local port `port` in the result of a
/// socket-table query: `None` when the query failed or no socket is on that port.
pub fn get_process_by_port(query: Result<Vec<SocketEntry>, CorrelationError>, port: u16) -> (r:
    Option<Vec<u32>>)
    ensures
        match query {
            Ok(sockets) => match r {
                Some(v) => first_owners(sockets@, port) == Some(v@),
                None => first_owners(sockets@, port) is None,
            },
            Err(_) => r is None,
        },
{
    match query {
        Ok(sockets) => owners_on_port(&sockets, port),
        Err(_) => None,
    }
}

/// The port map of a batch against the result of a socket-table query. A failed query
/// leaves every key of the batch unattributed.
pub fn get_port_process_map(
    frames: &Vec<Frame>,
    query: Result<Vec<SocketEntry>, CorrelationError>,
) -> (r: PortMap)
    ensures
        r@.dom() == frame_keys(frames@),
        match query {
            Ok(sockets) => r@ == port_map_model(frames@, sockets@),
            Err(_) => forall|k: ProtocolPort| #[trigger] r@.contains_key(k) ==> r@[k] == UNKNOWN_PID,
        },
{
    let sockets = match query {
        Ok(v) => v,
        Err(_) => Vec::new(),
    };
    let r = build_port_map(frames, &sockets);
    assert(r@.dom() =~= frame_keys(frames@));
    r
}

} // verus!
