use strack_sim::engine::{Event, EventKind, EventSeq};
use strack_sim::error::SimError;
use strack_sim::monitor::{FlowFct, SimSummary};
use strack_sim::network::packet::{FlowId, Packet, PacketKind};
use strack_sim::nic::{
    DcqcnProtocol, Protocol, ProtocolStats, RdmaProtocol, STrackMode, STrackProtocol, SimpleTcp, TcpReno,
};
use strack_sim::sim_runner::{HostDelay, HostDelays, NicSelector, PacketSlab, SimRunner};
use strack_sim::topology::{Dumbell, HostUplink, LeafSpine, Topology};
use strack_sim::traffic::{FlowDesc, Incast};
use strack_sim::viz::{
    build_viz_links, compute_positions, NodePlace, TimeSeriesSampler, TopoKind,
};

fn dumbell(hosts_per_side: u32) -> Topology {
    Dumbell {
        hosts_per_side,
        host_link_bps: 100_000_000_000,
        bottleneck_link_bps: 40_000_000_000,
        prop_delay_ns: 500,
        ecn_threshold_bytes: 50_000,
        buffer_bytes: 1_000_000,
    }
    .build()
}

fn leaf_spine() -> Topology {
    LeafSpine {
        n_leaf: 2,
        n_spine: 4,
        hosts_per_leaf: 4,
        host_link_bps: 100_000_000_000,
        fabric_link_bps: 400_000_000_000,
        prop_delay_ns: 500,
        ecn_threshold_bytes: 20_000,
        buffer_bytes: 200_000,
    }
    .build()
}

fn tcp_runner(topo: Topology) -> SimRunner<SimpleTcp> {
    SimRunner::new(topo, "tcp".to_string(), |h: u32, _t: &Topology| SimpleTcp::new(h)).unwrap()
}

fn one_flow(bytes: u64) -> Vec<FlowDesc> {
    vec![FlowDesc { flow_id: 3, src: 0, dst: 1, bytes, start_time_ns: 1000 }]
}

#[test]
fn one_packet_takes_the_time_of_its_way() {
    let mut r = tcp_runner(dumbell(1));
    r.inject_flows(one_flow(1024));
    r.run(1_000_000);
    // There: 81 + 500, 204 + 500, 81 + 500. Back: 5 + 500, 12 + 500, 5 + 500.
    assert_eq!(r.fcts[3].finish_ns, 4388);
    assert_eq!(r.fcts[3].fct_ns(), 3388);
    let s = r.summarize();
    assert_eq!((s.total_flows, s.completed_flows), (1, 1));
    assert_eq!((s.fct_p50_ns, s.fct_max_ns), (3388, 3388));
    assert_eq!(s.total_packets_sent, 1);
    assert_eq!(s.total_drops, 0);
    assert_eq!(s.mode, "tcp");
    assert_eq!(r.link_bytes_sent.iter().sum::<u64>(), 3 * 1024 + 3 * 64);
    assert_eq!(s.max_queue_depth_bytes, 1024);
}

#[test]
fn host_delays_postpone_a_packet() {
    let mut r = tcp_runner(dumbell(1));
    let d = HostDelay { tx_fixed_ns: 100, dma_bps: 8_000_000_000, rx_fixed_ns: 30 };
    r.host_delays = HostDelays { hosts: vec![d, d] };
    r.inject_flows(one_flow(1024));
    r.run(1_000_000);
    // 100 and 1024 before the packet leaves, 30 and 1024 when it comes in, 30 and 64 for the reply.
    assert_eq!(r.fcts[3].finish_ns, 4388 + 1124 + 1054 + 94);
    assert_eq!(r.host_total_fixed_overhead_ns, 100);
    assert_eq!(r.host_total_dma_time_ns, 1024);
    assert_eq!(r.host_total_queue_wait_ns, 0);
}

#[test]
fn the_copying_of_a_host_is_shared() {
    let mut r = tcp_runner(dumbell(1));
    let d = HostDelay { tx_fixed_ns: 0, dma_bps: 8_000_000_000, rx_fixed_ns: 0 };
    r.host_delays = HostDelays { hosts: vec![d] };
    r.inject_flows(one_flow(3 * 1024));
    r.run(1000);
    r.run(1_000_000);
    assert_eq!(r.host_total_dma_time_ns, 3 * 1024);
    assert_eq!(r.host_total_queue_wait_ns, 1024 + 2048);
    assert_eq!(r.host_max_queue_depth, 2048);
}

fn incast_completes<P: Protocol>(mut r: SimRunner<P>) -> SimSummary {
    let flows = Incast {
        senders: (1..8).collect(),
        receiver: 0,
        bytes_per_sender: 200 * 1024,
        start_time_ns: 1000,
    }
    .generate();
    r.inject_flows(flows);
    r.run(1_000_000_000);
    let s = r.summarize();
    assert_eq!(s.total_flows, 7);
    assert_eq!(s.completed_flows, 7);
    assert!(s.total_packets_sent >= 7 * 200);
    assert!(s.fct_p50_ns <= s.fct_p95_ns);
    assert!(s.fct_p95_ns <= s.fct_p99_ns);
    assert!(s.fct_p99_ns <= s.fct_max_ns);
    assert!(s.total_time_ns >= s.fct_max_ns);
    s
}

#[test]
fn incast_completes_with_a_simple_window() {
    let s = incast_completes(tcp_runner(leaf_spine()));
    assert!(s.total_ecn_marks > 0);
}

#[test]
fn incast_completes_with_fast_recovery() {
    incast_completes(
        SimRunner::new(leaf_spine(), "reno".to_string(), |h: u32, _t: &Topology| TcpReno::new(h))
            .unwrap(),
    );
}

#[test]
fn incast_completes_with_spraying() {
    incast_completes(
        SimRunner::new(leaf_spine(), "strack".to_string(), |h: u32, t: &Topology| {
            STrackProtocol::new(h, STrackMode::Strack, t)
        })
        .unwrap(),
    );
}

#[test]
fn incast_completes_with_queue_pairs() {
    let mut r =
        SimRunner::new(leaf_spine(), "rdma".to_string(), |h: u32, _t: &Topology| {
            RdmaProtocol::new(h)
        })
        .unwrap();
    let flows = Incast {
        senders: (1..8).collect(),
        receiver: 0,
        bytes_per_sender: 20 * 1024,
        start_time_ns: 1000,
    }
    .generate();
    r.inject_flows(flows);
    r.run(1_000_000_000);
    let s = r.summarize();
    assert_eq!((s.total_flows, s.completed_flows), (7, 7));
    assert_eq!(s.total_drops, 0);
    assert_eq!(r.protocols[0].stats().messages_completed, 7);
    assert_eq!(
        r.protocols[0].stats().packets_received,
        2 * (140 + s.total_packets_retransmitted)
    );
}

#[test]
fn incast_completes_with_rates() {
    incast_completes(
        SimRunner::new(leaf_spine(), "dcqcn".to_string(), |h: u32, _t: &Topology| {
            DcqcnProtocol::new(h)
        })
        .unwrap(),
    );
}

#[test]
fn a_flow_that_starts_at_once_is_counted() {
    let mut r = tcp_runner(dumbell(1));
    let at_once = FlowDesc { flow_id: 0, src: 0, dst: 1, bytes: 1024, start_time_ns: 0 };
    let later = FlowDesc { flow_id: 2, src: 0, dst: 1, bytes: 1024, start_time_ns: 9000 };
    r.inject_flows(vec![at_once, later]);
    r.run(1_000_000);
    let s = r.summarize();
    assert_eq!(r.fcts.len(), 3);
    assert_eq!((s.total_flows, s.completed_flows), (2, 2));
    assert_eq!(r.fcts[0].fct_ns(), 3388);
}

#[test]
fn a_run_ends_at_its_time() {
    let mut r = tcp_runner(dumbell(1));
    r.inject_flows(one_flow(1024));
    r.run(2000);
    assert_eq!(r.fcts[3].finish_ns, 0);
    assert!(r.sim.now() <= 2000);
    assert!(r.sim.peek_time().unwrap() > 2000);
    r.run(1_000_000);
    assert_eq!(r.fcts[3].finish_ns, 4388);
}

#[test]
fn a_stop_event_ends_the_run() {
    let mut r = tcp_runner(dumbell(1));
    r.inject_flows(one_flow(1024));
    let stop = Event::new(2500, EventKind::Stop, 0, &mut r.event_seq);
    r.sim.schedule(stop);
    r.run(1_000_000);
    assert!(r.sim.is_stopped());
    assert_eq!(r.sim.now(), 2500);
    assert_eq!(r.fcts[3].finish_ns, 0);
    assert_eq!(r.sim.peek_time(), Some(2866));
}

#[test]
fn a_lost_packet_is_sent_again_after_a_timeout() {
    let mut topo = dumbell(1);
    topo.switches[0].buffer_max_bytes = 0;
    let mut r = tcp_runner(topo);
    r.inject_flows(one_flow(1024));
    r.run(5_000);
    assert_eq!(r.topo.switches[0].drops, 1);
    r.topo.switches[0].buffer_max_bytes = 1_000_000;
    r.run(10_000_000);
    assert!(r.fcts[3].finish_ns > 0);
    assert_eq!(r.summarize().total_packets_retransmitted, 1);
}

#[test]
fn a_packet_lost_twice_is_sent_a_third_time() {
    let mut topo = dumbell(1);
    topo.switches[0].buffer_max_bytes = 0;
    let mut r = tcp_runner(topo);
    r.inject_flows(one_flow(1024));
    let mut until = 5_000;
    while r.topo.switches[0].drops < 2 {
        until += 10_000;
        assert!(until < 10_000_000);
        r.run(until);
    }
    r.topo.switches[0].buffer_max_bytes = 1_000_000;
    r.run(20_000_000);
    assert!(r.fcts[3].finish_ns > 0);
}

#[test]
fn a_host_without_a_connection_is_an_error() {
    let mut topo = dumbell(1);
    topo.host_uplink.remove(1);
    let r = SimRunner::new(topo, "tcp".to_string(), |h: u32, _t: &Topology| SimpleTcp::new(h));
    match r {
        Err(e) => assert_eq!(e.message(), "拓扑不一致: 主机 1 缺少上行链路"),
        Ok(_) => panic!("accepted"),
    }
}

#[test]
fn a_missing_switch_is_an_error() {
    let mut topo = dumbell(1);
    topo.host_uplink[0].edge_switch = 1234;
    let r = SimRunner::new(topo, "tcp".to_string(), |h: u32, _t: &Topology| SimpleTcp::new(h));
    match r {
        Err(SimError::Topology(text)) => assert_eq!(text, "交换机 1234 不存在于拓扑中"),
        _ => panic!("accepted"),
    }
    assert_eq!(SimError::Init("x".to_string()).message(), "初始化错误: x");
}

/// A protocol that sends what it is given and counts what it sees.
struct Scripted {
    host: u32,
    started: Vec<(FlowId, u32, u64, u64)>,
    to_send: Vec<Packet>,
    seen: Vec<(u64, bool)>,
    told: Vec<(FlowId, u32, u64)>,
    work: bool,
    deadline: Option<u64>,
}

impl Protocol for Scripted {
    fn start_flow(&mut self, flow_id: FlowId, dst: u32, total_bytes: u64, now: u64) {
        self.started.push((flow_id, dst, total_bytes, now));
    }
    fn on_tx_tick(&mut self, _now: u64) -> Vec<Packet> {
        std::mem::take(&mut self.to_send)
    }
    fn on_rx_data(&mut self, pkt: &Packet, now: u64) -> Vec<Packet> {
        self.seen.push((now, true));
        let (flow, seq, src) = (pkt.flow_id, pkt.seq, pkt.src);
        vec![Packet::control(0, 0, flow, seq + 1, self.host, src, false, 0, Vec::new(), now)]
    }
    fn on_tx_control(&mut self, _pkt: &Packet, now: u64) {
        self.seen.push((now, false));
    }
    fn all_flows_done(&self) -> bool {
        false
    }
    fn take_finished_flows(&mut self) -> Vec<(FlowId, u64)> {
        Vec::new()
    }
    fn stats(&self) -> ProtocolStats {
        ProtocolStats::default()
    }
    fn has_pending_work(&self) -> bool {
        self.work
    }
    fn next_rto_deadline(&self) -> Option<u64> {
        self.deadline
    }
    fn next_tx_time(&self) -> Option<u64> {
        None
    }
    fn update_send_time(&mut self, flow_id: FlowId, seq: u32, nic_depart_time: u64) {
        self.told.push((flow_id, seq, nic_depart_time));
    }
}

fn scripted_runner() -> SimRunner<Scripted> {
    SimRunner::new(dumbell(1), "scripted".to_string(), |h: u32, _t: &Topology| Scripted {
        host: h,
        started: Vec::new(),
        to_send: Vec::new(),
        seen: Vec::new(),
        told: Vec::new(),
        work: false,
        deadline: None,
    })
    .unwrap()
}

#[test]
fn a_protocol_is_handed_its_flows_and_packets() {
    let mut r = scripted_runner();
    r.protocols[0].to_send =
        vec![Packet::data(9, 9, 3, 0, 0, 1, 0), Packet::data(9, 9, 3, 1, 0, 1, 0)];
    r.inject_flows(one_flow(2048));
    r.run(1_000_000);
    assert_eq!(r.protocols[0].started, vec![(3, 1, 2048, 1000)]);
    assert_eq!(r.protocols[0].told, vec![(3, 0, 1000), (3, 1, 1000)]);
    assert_eq!(r.protocols[1].seen, vec![(2866, true), (3070, true)]);
    assert_eq!(r.protocols[0].seen, vec![(4388, false), (4592, false)]);
}

#[test]
fn only_one_timeout_of_a_host_is_pending() {
    let mut r = scripted_runner();
    r.plan_next_action(0, 10, 0, false, None, Some(500));
    assert_eq!((r.sim.pending(), r.pending_timeout_deadline[0]), (1, 500));
    r.plan_next_action(0, 10, 0, false, None, Some(900));
    assert_eq!((r.sim.pending(), r.pending_timeout_deadline[0]), (1, 500));
    r.plan_next_action(0, 10, 0, false, None, Some(300));
    assert_eq!((r.sim.pending(), r.pending_timeout_deadline[0]), (1, 300));
    r.plan_next_action(1, 10, 0, false, None, Some(400));
    assert_eq!(r.sim.pending(), 2);
    r.plan_next_action(0, 10, 200, true, None, None);
    assert_eq!((r.sim.pending(), r.pending_timeout_deadline[0]), (2, u64::MAX));
    assert_eq!(r.sim.peek_time(), Some(210));
    r.plan_next_action(1, 10, 0, false, None, None);
    assert_eq!(r.sim.pending(), 1);
}

#[test]
fn a_paced_host_ticks_when_it_may_send() {
    let mut r = scripted_runner();
    r.plan_next_action(0, 100, 200, true, Some(750), None);
    assert_eq!(r.sim.peek_time(), Some(750));
    let mut late = scripted_runner();
    late.plan_next_action(0, 100, 200, true, Some(50), None);
    assert_eq!(late.sim.peek_time(), Some(100));
}

#[test]
fn a_timeout_gives_the_host_a_tick() {
    let mut r = scripted_runner();
    r.pending_timeout_deadline[0] = 40;
    let mut seqs = EventSeq::new();
    r.dispatch(Event::new(40, EventKind::Timeout { timer_id: 0 }, 0, &mut seqs));
    assert_eq!(r.pending_timeout_deadline[0], u64::MAX);
    let ev = r.sim.pop_event().unwrap();
    assert!(matches!(ev.kind, EventKind::TxTick { host: 0 }));
    r.dispatch(Event::new(40, EventKind::Stop, 0, &mut seqs));
    r.dispatch(Event::new(40, EventKind::Custom("x".to_string()), 0, &mut seqs));
    assert_eq!(r.sim.pending(), 0);
}

#[test]
fn nics_are_picked_as_asked() {
    let mut r = scripted_runner();
    let second = HostUplink { host: 0, edge_switch: 3, link_to_switch: 2, link_to_host: 3 };
    r.topo.host_uplink.push(second);
    let first = r.topo.host_uplink[0].link_to_switch;
    let picked = |r: &mut SimRunner<Scripted>, hint| {
        r.pick_uplink(0, hint).unwrap().link_to_switch
    };
    assert_eq!(picked(&mut r, Some(1)), first);
    r.nic_selector = NicSelector::FlowHash;
    assert_eq!(picked(&mut r, Some(1)), 2);
    assert_eq!(picked(&mut r, Some(4)), first);
    assert_eq!(picked(&mut r, None), first);
    r.nic_selector = NicSelector::RoundRobin;
    let turns: Vec<u32> = (0..4).map(|_| picked(&mut r, None)).collect();
    assert_eq!(turns, vec![first, 2, first, 2]);
}

#[test]
fn a_slab_gives_packets_back() {
    let mut s = PacketSlab::new();
    let a = s.insert(Packet::data(77, 0, 0, 1, 0, 0, 0));
    let b = s.insert(Packet::data(77, 0, 0, 2, 0, 0, 0));
    assert_eq!((a, b), (0, 1));
    let p = s.remove(a).unwrap();
    assert_eq!((p.id, p.seq), (0, 1));
    assert!(s.remove(a).is_none());
    assert!(s.remove(99).is_none());
    assert_eq!(s.insert(Packet::data(77, 0, 0, 3, 0, 0, 0)), 0);
    assert_eq!(s.remove(b).unwrap().seq, 2);
}

#[test]
fn samples_are_taken_at_the_interval() {
    let mut r = tcp_runner(dumbell(1)).with_sampling(1000);
    assert!(r.sampler.is_enabled());
    r.inject_flows(one_flow(1024));
    r.run(1_000_000);
    let times: Vec<u64> = r.sampler.frames.iter().map(|f| f.time_ns).collect();
    assert_eq!(times, vec![1000, 2285, 3371, 4388]);
    let carried: u64 = r.sampler.frames.iter().flat_map(|f| &f.links).map(|l| l.delta_bytes).sum();
    assert_eq!(carried, r.link_bytes_sent.iter().sum::<u64>());
    let mut off = TimeSeriesSampler::disabled();
    off.maybe_sample(5, &[], &dumbell(0));
    assert!(!off.is_enabled() && off.frames.is_empty());
}

#[test]
fn a_sample_shows_what_is_queued() {
    let mut topo = dumbell(1);
    let p = Packet::data(0, 0, 0, 0, 0, 1, 0);
    topo.switches[0].ingress(p, 0);
    let link = topo.switches[0].ports.iter().find(|p| p.queue_bytes > 0).unwrap().link_id;
    let mut s = TimeSeriesSampler::new(10, topo.num_links());
    let sent: Vec<u64> = (0..topo.num_links() as u64).collect();
    s.maybe_sample(9, &sent, &topo);
    assert!(s.frames.is_empty());
    s.maybe_sample(10, &sent, &topo);
    for (i, l) in s.frames[0].links.iter().enumerate() {
        assert_eq!(l.delta_bytes, i as u64);
        assert_eq!(l.queue_depth_bytes, if i as u32 == link { 1024 } else { 0 });
    }
}

#[test]
fn percentiles_of_a_hundred_flows() {
    let mut fcts: Vec<FlowFct> = (0..100u64)
        .rev()
        .map(|i| FlowFct { flow_id: i as u32, start_ns: 10, finish_ns: 11 + i, bytes: 1 })
        .collect();
    fcts[0].finish_ns = 0;
    let s = SimSummary::from_fcts("m", &mut fcts);
    assert_eq!((s.total_flows, s.completed_flows), (100, 99));
    assert_eq!((s.fct_p50_ns, s.fct_p95_ns, s.fct_p99_ns, s.fct_max_ns), (50, 95, 99, 99));
    assert_eq!(fcts[0].flow_id, 99);
    let none = SimSummary::from_fcts("m", &mut []);
    assert_eq!((none.total_flows, none.fct_max_ns), (0, 0));
    assert!(SimSummary::csv_header().starts_with("mode,total_flows,"));
    assert_eq!(SimSummary::default().mode, "");
    assert_eq!(FlowFct::default().fct_ns(), 0);
}

#[test]
fn replies_are_control_packets() {
    let mut r = scripted_runner();
    let up = r.pick_uplink(0, None).unwrap();
    let reply = Packet::control(0, 0, 1, 1, 0, 1, false, 0, Vec::new(), 0);
    r.send_replies(0, up, vec![reply], 300);
    assert_eq!(r.sim.peek_time(), Some(805));
    let (marks, last) =
        r.transmit(0, up, vec![Packet::data(0, 0, 8, 2, 0, 1, 0)], 300);
    assert_eq!((marks, last), (vec![(8, 2, 300)], 300));
    let kinds: Vec<PacketKind> = r.packet_buf.slots.iter().map(|p| p.as_ref().unwrap().kind).collect();
    assert_eq!(kinds, vec![PacketKind::Control(0), PacketKind::Data]);
    assert_eq!(r.packet_buf.slots[1].as_ref().unwrap().depart_time, 300);
    r.record_finished(&vec![(0, 5)]);
    assert!(r.fcts.is_empty());
}

#[test]
fn nodes_are_placed_and_named() {
    let nodes = compute_positions(&TopoKind::Dumbell { hosts_per_side: 2 });
    let names: Vec<String> = nodes.iter().map(|n| n.label()).collect();
    assert_eq!(names, vec!["H0", "H1", "H2", "H3", "SW-L", "SW-R"]);
    assert_eq!(nodes[3].place, NodePlace::SideHost { right: true, index: 1, count: 2 });
    assert_eq!((nodes[0].kind(), nodes[4].kind()), ("host", "switch"));
    let nodes =
        compute_positions(&TopoKind::LeafSpine { n_leaf: 2, n_spine: 1, hosts_per_leaf: 6 });
    let names: Vec<String> = nodes[10..].iter().map(|n| n.label()).collect();
    assert_eq!(names, vec!["H10", "H11", "Leaf0", "Leaf1", "Spine0"]);
    assert_eq!(
        nodes[7].place,
        NodePlace::LeafHost { leaf: 1, n_leaf: 2, index: 1, count: 6 }
    );
    assert_eq!(build_viz_links(&dumbell(1)).len(), 6);
}
