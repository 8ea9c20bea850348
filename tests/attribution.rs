use net_traffic::analyze::Frame;
use net_traffic::buffer::FrameBuffer;
use net_traffic::config::{IpAddress, ProtocolType};
use net_traffic::controller::Controller;
use net_traffic::statistics::{reduce, window_totals, ProcessPacketLength};
use net_traffic::sys_info::{
    build_port_map, get_port_process_map, get_process_by_port, owners_on_port,
    CorrelationError, PortMap, ProtocolPort, SocketEntry,
};

fn frame(iface: &str, len: usize, upload: bool, protocol: ProtocolType, port: u16) -> Frame {
    let (source_port, destination_port) = if upload { (port, 443) } else { (443, port) };
    Frame {
        interface_name: iface.to_string(),
        data_length: len,
        is_upload: upload,
        protocol,
        source_ip: IpAddress::V4(1),
        source_port,
        destination_ip: IpAddress::V4(2),
        destination_port,
    }
}

fn socket(protocol: ProtocolType, port: u16, pids: Vec<u32>) -> SocketEntry {
    SocketEntry { protocol, local_port: port, pids }
}

fn entry(pid: u32, up: usize, down: usize) -> ProcessPacketLength {
    ProcessPacketLength { pid, upload_length: up, download_length: down }
}

#[test]
fn port_map_insert_and_get() {
    let mut m = PortMap::new();
    let k = ProtocolPort::new(ProtocolType::Tcp, 443);
    assert_eq!(m.get(&k), None);
    m.insert(k, 7);
    assert_eq!(m.get(&k), Some(7));
    m.insert(k, 9);
    assert_eq!(m.get(&k), Some(9));
    assert!(!m.contains_key(&ProtocolPort::new(ProtocolType::Udp, 443)));
}

#[test]
fn port_map_seeds_batch_keys_and_takes_first_owner() {
    let frames = vec![
        frame("en0", 10, true, ProtocolType::Tcp, 443),
        frame("en0", 10, false, ProtocolType::Udp, 53),
        frame("en0", 10, true, ProtocolType::Tcp, 8080),
    ];
    let sockets = vec![
        socket(ProtocolType::Tcp, 443, vec![7, 8]),
        socket(ProtocolType::Udp, 443, vec![99]),
        socket(ProtocolType::Udp, 53, vec![]),
        socket(ProtocolType::Tcp, 22, vec![5]),
    ];
    let m = build_port_map(&frames, &sockets);
    assert_eq!(m.get(&ProtocolPort::new(ProtocolType::Tcp, 443)), Some(7));
    assert_eq!(m.get(&ProtocolPort::new(ProtocolType::Udp, 53)), Some(0));
    assert_eq!(m.get(&ProtocolPort::new(ProtocolType::Tcp, 8080)), Some(0));
    assert_eq!(m.get(&ProtocolPort::new(ProtocolType::Tcp, 22)), None);
    assert_eq!(m.get(&ProtocolPort::new(ProtocolType::Udp, 443)), None);
}

#[test]
fn later_socket_on_the_same_port_wins() {
    let frames = vec![frame("en0", 10, true, ProtocolType::Tcp, 443)];
    let sockets = vec![
        socket(ProtocolType::Tcp, 443, vec![7]),
        socket(ProtocolType::Tcp, 443, vec![11]),
    ];
    let m = build_port_map(&frames, &sockets);
    assert_eq!(m.get(&ProtocolPort::new(ProtocolType::Tcp, 443)), Some(11));
}

#[test]
fn port_map_from_a_query_result() {
    let frames = vec![frame("en0", 10, true, ProtocolType::Tcp, 1), frame("en0", 1, false, ProtocolType::Udp, 2)];
    let ok = get_port_process_map(&frames, Ok(vec![socket(ProtocolType::Udp, 2, vec![31])]));
    assert_eq!(ok.get(&ProtocolPort::new(ProtocolType::Tcp, 1)), Some(0));
    assert_eq!(ok.get(&ProtocolPort::new(ProtocolType::Udp, 2)), Some(31));
    assert!(!ok.contains_key(&ProtocolPort::new(ProtocolType::Tcp, 2)));
    let failed = get_port_process_map(&frames, Err(CorrelationError::QueryFailed));
    assert_eq!(failed.get(&ProtocolPort::new(ProtocolType::Tcp, 1)), Some(0));
    assert_eq!(failed.get(&ProtocolPort::new(ProtocolType::Udp, 2)), Some(0));
    assert!(!failed.contains_key(&ProtocolPort::new(ProtocolType::Udp, 1)));
}

#[test]
fn process_by_port_from_a_query_result() {
    let sockets = vec![socket(ProtocolType::Tcp, 22, vec![9]), socket(ProtocolType::Udp, 22, vec![10])];
    assert_eq!(get_process_by_port(Ok(sockets.clone()), 22), Some(vec![9]));
    assert_eq!(get_process_by_port(Ok(sockets), 23), None);
    assert_eq!(get_process_by_port(Err(CorrelationError::QueryFailed), 22), None);
}

#[test]
fn owners_of_the_first_socket_on_a_port() {
    let sockets = vec![
        socket(ProtocolType::Udp, 53, vec![1]),
        socket(ProtocolType::Tcp, 80, vec![2, 4]),
        socket(ProtocolType::Udp, 80, vec![3]),
        socket(ProtocolType::Tcp, 8080, vec![]),
    ];
    assert_eq!(owners_on_port(&sockets, 80), Some(vec![2, 4]));
    assert_eq!(owners_on_port(&sockets, 53), Some(vec![1]));
    assert_eq!(owners_on_port(&sockets, 8080), Some(vec![]));
    assert_eq!(owners_on_port(&sockets, 22), None);
    assert_eq!(owners_on_port(&vec![], 80), None);
}


#[test]
fn attribution_correctness() {
    let mut m = PortMap::new();
    m.insert(ProtocolPort::new(ProtocolType::Tcp, 443), 7);
    let frames = vec![frame("en0", 100, true, ProtocolType::Tcp, 443)];
    assert_eq!(reduce(&frames, &m, true), vec![entry(7, 100, 0)]);
    assert_eq!(reduce(&frames, &m, false), vec![entry(7, 100, 0)]);
}

#[test]
fn unknown_frames_follow_the_policy() {
    let m = PortMap::new();
    let frames = vec![frame("en0", 64, false, ProtocolType::Udp, 5353)];
    assert_eq!(reduce(&frames, &m, true), vec![entry(0, 0, 64)]);
    assert_eq!(reduce(&frames, &m, false), Vec::<ProcessPacketLength>::new());
}

#[test]
fn entries_in_order_of_first_appearance_with_sums() {
    let mut m = PortMap::new();
    m.insert(ProtocolPort::new(ProtocolType::Tcp, 1000), 3);
    m.insert(ProtocolPort::new(ProtocolType::Udp, 2000), 5);
    m.insert(ProtocolPort::new(ProtocolType::Tcp, 3000), 3);
    let frames = vec![
        frame("en0", 10, false, ProtocolType::Udp, 2000),
        frame("en0", 20, true, ProtocolType::Tcp, 1000),
        frame("en0", 30, false, ProtocolType::Tcp, 3000),
        frame("en0", 40, true, ProtocolType::Udp, 2000),
        frame("en0", 50, true, ProtocolType::Tcp, 4000),
    ];
    assert_eq!(
        reduce(&frames, &m, true),
        vec![entry(5, 40, 10), entry(3, 20, 30), entry(0, 50, 0)]
    );
    assert_eq!(reduce(&frames, &m, false), vec![entry(5, 40, 10), entry(3, 20, 30)]);
}

#[test]
fn conservation_of_bytes() {
    let mut m = PortMap::new();
    m.insert(ProtocolPort::new(ProtocolType::Tcp, 1), 1);
    m.insert(ProtocolPort::new(ProtocolType::Tcp, 2), 2);
    let frames: Vec<Frame> = (0..20u16)
        .map(|k| frame("en0", 100 + k as usize, k % 3 == 0, ProtocolType::Tcp, k % 4))
        .collect();
    let out = reduce(&frames, &m, true);
    let up: usize = out.iter().map(|e| e.upload_length).sum();
    let down: usize = out.iter().map(|e| e.download_length).sum();
    let want_up: usize = frames.iter().filter(|f| f.is_upload).map(|f| f.data_length).sum();
    let want_down: usize = frames.iter().filter(|f| !f.is_upload).map(|f| f.data_length).sum();
    assert_eq!(up, want_up);
    assert_eq!(down, want_down);
    assert_eq!(window_totals(&frames), (want_up as u64, want_down as u64));
}

#[test]
fn counts_saturate() {
    let m = PortMap::new();
    let frames = vec![
        frame("en0", usize::MAX, true, ProtocolType::Tcp, 1),
        frame("en0", 5, true, ProtocolType::Tcp, 1),
    ];
    assert_eq!(reduce(&frames, &m, true), vec![entry(0, usize::MAX, 0)]);
    assert_eq!(window_totals(&frames).0, u64::MAX);
}

#[test]
fn empty_batch() {
    let m = PortMap::new();
    assert_eq!(reduce(&vec![], &m, true), Vec::<ProcessPacketLength>::new());
    assert_eq!(window_totals(&vec![]), (0, 0));
}

#[test]
fn drain_keeps_every_frame_once() {
    let mut b = FrameBuffer::new();
    for k in 0..5u16 {
        b.append(frame("en0", k as usize, true, ProtocolType::Tcp, k));
    }
    let drained = b.drain();
    assert_eq!(b.len(), 0);
    for k in 5..8u16 {
        b.append(frame("en0", k as usize, true, ProtocolType::Tcp, k));
    }
    let rest = b.drain();
    let all: Vec<usize> = drained.iter().chain(rest.iter()).map(|f| f.data_length).collect();
    assert_eq!(all, (0..8).collect::<Vec<usize>>());
    b.append(frame("en0", 1, true, ProtocolType::Tcp, 1));
    b.clear();
    assert_eq!(b.len(), 0);
}

#[test]
fn idle_sampling_is_empty_every_time() {
    let mut c = Controller::new();
    for k in 0..5u64 {
        let frames = vec![frame("en0", 100, true, ProtocolType::Tcp, 1)];
        let r = c.sample(frames, Ok(vec![socket(ProtocolType::Tcp, 1, vec![3])]), 1000 * k);
        assert_eq!(r.list.len(), 0);
        assert_eq!(r.elapse_millisecond, 0);
        assert_eq!((r.total_upload, r.total_download), (0, 0));
        assert!(!c.is_running());
    }
}

#[test]
fn start_and_stop_transitions() {
    let mut c = Controller::new();
    assert!(c.include_unknown());
    assert!(!c.stop());
    assert!(c.start(100));
    assert!(!c.start(200));
    assert!(c.is_running());
    let r = c.sample_with(vec![], &vec![], 1100);
    assert_eq!(r.elapse_millisecond, 1000);
    let r = c.sample_with(vec![], &vec![], 1600);
    assert_eq!(r.elapse_millisecond, 500);
    let r = c.sample_with(vec![], &vec![], 1000);
    assert_eq!(r.elapse_millisecond, 0);
    assert!(c.stop());
    assert!(!c.is_running());
}

#[test]
fn two_interfaces_sample() {
    let mut c = Controller::with_policy(false, vec![net_traffic::config::InterfaceType::En]);
    assert!(!c.include_unknown());
    assert!(c.start(0));
    let mut b = FrameBuffer::new();
    b.append(frame("en0", 1500, true, ProtocolType::Tcp, 50000));
    b.append(frame("en1", 500, false, ProtocolType::Udp, 53));
    let sockets = vec![
        socket(ProtocolType::Tcp, 50000, vec![42]),
        socket(ProtocolType::Udp, 53, vec![1]),
    ];
    let r = c.sample_with(b.drain(), &sockets, 1000);
    assert_eq!(r.list.len(), 2);
    assert!(r.list.contains(&entry(42, 1500, 0)));
    assert!(r.list.contains(&entry(1, 0, 500)));
    assert_eq!((r.total_upload, r.total_download), (1500, 500));
    assert_eq!(r.elapse_millisecond, 1000);
    assert_eq!(b.len(), 0);
}

#[test]
fn running_sample_with_a_failed_query_bills_the_unknown_pid() {
    let mut c = Controller::new();
    c.start(10);
    let frames = vec![
        frame("en0", 300, true, ProtocolType::Tcp, 1),
        frame("en0", 200, false, ProtocolType::Udp, 2),
    ];
    let r = c.sample(frames, Err(CorrelationError::QueryFailed), 60);
    assert_eq!((r.total_upload, r.total_download), (300, 200));
    assert_eq!(r.elapse_millisecond, 50);
    assert_eq!(r.list, vec![entry(0, 300, 200)]);
    let mut d = Controller::with_policy(false, vec![]);
    d.start(0);
    let frames = vec![frame("en0", 300, true, ProtocolType::Tcp, 1)];
    let r = d.sample(frames, Ok(vec![socket(ProtocolType::Tcp, 1, vec![77])]), 5);
    assert_eq!(r.list, vec![entry(77, 300, 0)]);
}
