//! The collection controller: the Idle / Running state machine and the sampling step.
//! The caller performs what each transition asks for (spawning or signalling capture
//! workers, draining the shared buffer) and hands the results back.
use vstd::prelude::*;

use crate::analyze::Frame;
use crate::config::{select_interfaces, eligible_indices, InterfaceInfo, InterfaceType};
use crate::statistics::{
    batch_bytes, reduce, reduce_model, saturate_u64, window_totals, ProcessPacketLength,
    ProcessStatistics,
};
use crate::sys_info::{build_port_map, port_map_model, CorrelationError, SocketEntry};

verus! {

/// Relies on Vec::shrink_to_fit, which drops spare capacity and keeps the elements.
#[verifier::external_body]
fn compact(v: &mut Vec<ProcessPacketLength>)
    ensures
        final(v)@ == old(v)@,
{
    v.shrink_to_fit();
}

/// Milliseconds from `since` to `now`; zero if the clock reads earlier than `since`.
pub open spec fn elapsed_ms(since: u64, now: u64) -> u64 {
    if now >= since {
        (now - since) as u64
    } else {
        0
    }
}

/// The collection state machine and its configuration.
#[derive(Debug)]
pub struct Controller {
    running: bool,
    last_sample_ms: u64,
    include_unknown: bool,
    interface_types: Vec<InterfaceType>,
}

impl Controller {
    pub closed spec fn running_spec(&self) -> bool {
        self.running
    }

    /// The clock reading of the last start or sample.
    pub closed spec fn clock(&self) -> u64 {
        self.last_sample_ms
    }

    /// Whether frames without a known owner are reported under the unknown pid.
    pub closed spec fn keeps_unknown(&self) -> bool {
        self.include_unknown
    }

    /// The interface classes that are captured.
    pub closed spec fn classes(&self) -> Seq<InterfaceType> {
        self.interface_types@
    }

    pub fn include_unknown(&self) -> (r: bool)
        ensures
            r == self.keeps_unknown(),
    {
        self.include_unknown
    }

    pub fn interface_types(&self) -> (r: &Vec<InterfaceType>)
        ensures
            r@ == self.classes(),
    {
        &self.interface_types
    }

    /// An idle controller that captures Ethernet-class interfaces and reports frames
    /// without a known owner under the unknown pid.
    pub fn new() -> (r: Self)
        ensures
            !r.running_spec(),
            r.clock() == 0,
            r.keeps_unknown(),
            r.classes() == seq![InterfaceType::En],
    {
        let mut types: Vec<InterfaceType> = Vec::new();
        types.push(InterfaceType::En);
        Controller { running: false, last_sample_ms: 0, include_unknown: true, interface_types: types }
    }

    /// An idle controller with the given policy for unattributed frames and interface classes.
    pub fn with_policy(include_unknown: bool, interface_types: Vec<InterfaceType>) -> (r: Self)
        ensures
            !r.running_spec(),
            r.clock() == 0,
            r.keeps_unknown() == include_unknown,
            r.classes() == interface_types@,
    {
        Controller { running: false, last_sample_ms: 0, include_unknown, interface_types }
    }

    pub fn is_running(&self) -> (r: bool)
        ensures
            r == self.running_spec(),
    {
        self.running
    }

    /// Starts collecting at clock reading `now_ms`. Returns whether the caller must now
    /// reset the buffer and spawn the workers; an already running controller is left as
    /// it is.
    pub fn start(&mut self, now_ms: u64) -> (started: bool)
        ensures
            started == !old(self).running_spec(),
            final(self).running_spec(),
            final(self).clock() == if started {
                now_ms
            } else {
                old(self).clock()
            },
            final(self).keeps_unknown() == old(self).keeps_unknown(),
            final(self).classes() == old(self).classes(),
    {
        if self.running {
            return false;
        }
        self.running = true;
        self.last_sample_ms = now_ms;
        true
    }

    /// Stops collecting. Returns whether the caller must signal and join the workers.
    pub fn stop(&mut self) -> (stopped: bool)
        ensures
            stopped == old(self).running_spec(),
            !final(self).running_spec(),
            final(self).clock() == old(self).clock(),
            final(self).keeps_unknown() == old(self).keeps_unknown(),
            final(self).classes() == old(self).classes(),
    {
        let stopped = self.running;
        self.running = false;
        stopped
    }

    /// The positions in `ifaces` of the interfaces to capture.
    pub fn select_interfaces(&self, ifaces: &Vec<InterfaceInfo>) -> (r: Vec<usize>)
        ensures
            r@ == eligible_indices(ifaces@, self.classes()),
    {
        select_interfaces(ifaces, &self.interface_types)
    }

    /// One sample over the frames drained from the buffer, against a socket snapshot.
    /// Idle, it reports nothing and changes nothing. Running, it reports the reduction of
    /// the batch, the batch's totals and the time since the last start or sample, and
    /// restarts that clock at `now_ms`.
    pub fn sample_with(&mut self, frames: Vec<Frame>, sockets: &Vec<SocketEntry>, now_ms: u64) -> (r:
        ProcessStatistics)
        ensures
            !old(self).running_spec() ==> {
                &&& r.list@ == Seq::<ProcessPacketLength>::empty()
                &&& r.total_upload == 0
                &&& r.total_download == 0
                &&& r.elapse_millisecond == 0
                &&& final(self).clock() == old(self).clock()
            },
            old(self).running_spec() ==> {
                &&& r.list@ == reduce_model(
                    frames@,
                    port_map_model(frames@, sockets@),
                    old(self).keeps_unknown(),
                )
                &&& r.total_upload == saturate_u64(batch_bytes(frames@, true))
                &&& r.total_download == saturate_u64(batch_bytes(frames@, false))
                &&& r.elapse_millisecond == elapsed_ms(old(self).clock(), now_ms)
                &&& final(self).clock() == now_ms
            },
            final(self).running_spec() == old(self).running_spec(),
            final(self).keeps_unknown() == old(self).keeps_unknown(),
            final(self).classes() == old(self).classes(),
    {
        if !self.running {
            return ProcessStatistics {
                list: Vec::new(),
                total_upload: 0,
                total_download: 0,
                elapse_millisecond: 0,
            };
        }
        let map = build_port_map(&frames, sockets);
        let mut list = reduce(&frames, &map, self.include_unknown);
        compact(&mut list);
        let (total_upload, total_download) = window_totals(&frames);
        let elapse_millisecond = if now_ms >= self.last_sample_ms {
            now_ms - self.last_sample_ms
        } else {
            0
        };
        self.last_sample_ms = now_ms;
        ProcessStatistics { list, total_upload, total_download, elapse_millisecond }
    }

    /// One sample over the frames drained from the buffer, against the result of a
    /// socket-table query. Idle, it reports nothing and changes nothing, however often it
    /// is called. Running, it reports the reduction of the batch against the snapshot, or
    /// with every frame unattributed when the query failed, the batch's totals and the
    /// elapsed time.
    pub fn sample(
        &mut self,
        frames: Vec<Frame>,
        query: Result<Vec<SocketEntry>, CorrelationError>,
        now_ms: u64,
    ) -> (r: ProcessStatistics)
        ensures
            !old(self).running_spec() ==> {
                &&& r.list@ == Seq::<ProcessPacketLength>::empty()
                &&& r.total_upload == 0
                &&& r.total_download == 0
                &&& r.elapse_millisecond == 0
                &&& final(self).clock() == old(self).clock()
            },
            old(self).running_spec() ==> {
                &&& r.list@ == reduce_model(
                    frames@,
                    port_map_model(
                        frames@,
                        match query {
                            Ok(sockets) => sockets@,
                            Err(_) => Seq::<SocketEntry>::empty(),
                        },
                    ),
                    old(self).keeps_unknown(),
                )
                &&& r.total_upload == saturate_u64(batch_bytes(frames@, true))
                &&& r.total_download == saturate_u64(batch_bytes(frames@, false))
                &&& r.elapse_millisecond == elapsed_ms(old(self).clock(), now_ms)
                &&& final(self).clock() == now_ms
            },
            final(self).running_spec() == old(self).running_spec(),
            final(self).keeps_unknown() == old(self).keeps_unknown(),
            final(self).classes() == old(self).classes(),
    {
        let sockets = match query {
            Ok(v) => v,
            Err(_) => Vec::new(),
        };
        self.sample_with(frames, &sockets, now_ms)
    }
}

} // verus!
