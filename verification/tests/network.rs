use strack_sim::network::drop::{DropCounters, DropReason};
use strack_sim::network::switch::{HIGH_PRIORITY, LOW_PRIORITY};
use strack_sim::network::{
    GpuLink, Link, LinkRegistry, NodeTopology, Packet, PacketKind, Switch,
};

fn data_to(dst: u32, id: u64, seq: u32) -> Packet {
    Packet::data(id, 0, 0, seq, 100, dst, 0)
}

#[test]
fn serialization_at_100gbps() {
    let l = Link { id: 0, from: 0, to: 1, bandwidth_bps: 100_000_000_000, prop_delay_ns: 1000 };
    assert!((l.serialization_ns(1024) as i64 - 81).abs() <= 1);
}

#[test]
fn arrive_time_includes_propagation() {
    let l = Link { id: 0, from: 0, to: 1, bandwidth_bps: 100_000_000_000, prop_delay_ns: 1000 };
    let t = l.arrive_time(0, 1024);
    assert!(t >= 1080 && t <= 1090);
}

#[test]
fn serialization_is_rounded_down() {
    let l = Link { id: 0, from: 0, to: 1, bandwidth_bps: 40_000_000_000, prop_delay_ns: 0 };
    assert_eq!(l.serialization_ns(1024), 204);
    assert_eq!(l.serialization_ns(0), 0);
    let slow = Link { id: 0, from: 0, to: 1, bandwidth_bps: 1, prop_delay_ns: 0 };
    assert_eq!(slow.serialization_ns(u32::MAX), u64::MAX);
}

#[test]
fn links_are_numbered_in_order() {
    let mut r = LinkRegistry::new();
    assert!(r.is_empty());
    for i in 0..3u32 {
        let id = r.add(Link { id: 99, from: i, to: i + 1, bandwidth_bps: 1, prop_delay_ns: 0 });
        assert_eq!(id, i);
    }
    assert_eq!(r.len(), 3);
    assert_eq!(r.get(1).from, 1);
    assert_eq!(r.get(1).id, 1);
    assert_eq!(r.iter().map(|l| l.to).collect::<Vec<_>>(), vec![1, 2, 3]);
}

#[test]
fn no_route_drops() {
    let mut sw = Switch::new(0, 1_000_000, 2_000_000);
    sw.add_port(0);
    let pkt = Packet::data(1, 0, 0, 0, 100, 999, 0);
    let (_, dropped) = sw.ingress(pkt, 0);
    assert!(dropped);
    assert_eq!(sw.drops, 1);
}

#[test]
fn ecn_marks_above_threshold() {
    let mut sw = Switch::new(0, 1024, 10_240);
    let port = sw.add_port(0);
    sw.routing.add(999, port);
    let pkt1 = Packet::data(1, 0, 0, 0, 100, 999, 0);
    let (_, d1) = sw.ingress(pkt1, 0);
    assert!(!d1);
    assert_eq!(sw.ecn_marks, 0);
    let pkt2 = Packet::data(2, 0, 0, 1, 100, 999, 0);
    let (_, d2) = sw.ingress(pkt2, 0);
    assert!(!d2);
    assert_eq!(sw.ecn_marks, 1);
    assert!(sw.ports[0].priority_queues[LOW_PRIORITY].queue.back().unwrap().ecn);
}

#[test]
fn drops_when_buffer_full() {
    let mut sw = Switch::new(0, 1024, 2048);
    let p = sw.add_port(0);
    sw.routing.add(999, p);
    for i in 0..5 {
        let pkt = Packet::data(i, 0, 0, i as u32, 100, 999, 0);
        sw.ingress(pkt, 0);
    }
    assert!(sw.drops > 0);
    assert_eq!(sw.drops, 3);
}

#[test]
fn ecmp_hash_distributes() {
    let mut sw = Switch::new(0, 1_000_000, 10_000_000);
    let p1 = sw.add_port(10);
    let p2 = sw.add_port(11);
    let p3 = sw.add_port(12);
    sw.routing.add(999, p1);
    sw.routing.add(999, p2);
    sw.routing.add(999, p3);
    let mut counts = [0u32; 3];
    for i in 0..300u32 {
        let pkt = Packet::data(i as u64, 0, 0, i, 100, 999, 0);
        let (chosen, _) = sw.ingress(pkt, i);
        counts[chosen.unwrap() as usize] += 1;
    }
    for c in counts.iter() {
        assert!(*c > 50);
    }
}

#[test]
fn routing_tag_overrides_ecmp() {
    let mut sw = Switch::new(0, 1_000_000, 10_000_000);
    let p1 = sw.add_port(10);
    let p2 = sw.add_port(11);
    let p3 = sw.add_port(12);
    sw.routing.add(999, p1);
    sw.routing.add(999, p2);
    sw.routing.add(999, p3);
    let mut pkt = Packet::data(1, 0, 0, 0, 100, 999, 0);
    pkt.routing_tag = 2;
    let (chosen, _) = sw.ingress(pkt, 9999);
    assert_eq!(chosen.unwrap(), p2);
}

#[test]
fn a_port_serves_high_priority_first_and_keeps_order() {
    let mut sw = Switch::new(0, 1_000_000, 10_000_000);
    let p = sw.add_port(10);
    sw.routing.add(999, p);
    sw.ingress(data_to(999, 1, 0), 0);
    sw.ingress(data_to(999, 2, 1), 0);
    let mut urgent = data_to(999, 3, 2);
    urgent.routing_tag = 200;
    sw.ingress(urgent, 0);
    assert_eq!(sw.total_queue_bytes(), 3 * 1024);
    assert_eq!(sw.port(p).max_queue_depth_seen, 3 * 1024);
    let out: Vec<u64> = (0..3).map(|_| sw.dequeue(p).unwrap().id).collect();
    assert_eq!(out, vec![3, 1, 2]);
    assert!(sw.dequeue(p).is_none());
    assert_eq!(sw.total_queue_bytes(), 0);
}

#[test]
fn flow_control_pauses_and_releases_a_queue() {
    let mut sw = Switch::new(0, 1_000_000, 10_000_000);
    let p = sw.add_port(10);
    sw.routing.add(999, p);
    sw.port_mut(p).priority_queues[LOW_PRIORITY].pfc_threshold_bytes = 2048;
    sw.ingress(data_to(999, 1, 0), 0);
    assert_eq!(sw.pfc_pause_sent, 0);
    sw.ingress(data_to(999, 2, 1), 0);
    assert_eq!(sw.pfc_pause_sent, 0);
    sw.ingress(data_to(999, 3, 2), 0);
    assert_eq!(sw.pfc_pause_sent, 1);
    assert!(sw.port(p).priority_queues[LOW_PRIORITY].paused);
    assert!(sw.dequeue(p).is_none());
    let (first, pri) = sw.port_mut(p).dequeue_priority().unwrap();
    assert_eq!((first.id, pri), (1, LOW_PRIORITY));
    assert!(!sw.port_mut(p).check_pfc_resume(LOW_PRIORITY));
    assert_eq!(sw.port_mut(p).dequeue_priority().unwrap().0.id, 2);
    assert!(sw.port_mut(p).check_pfc_resume(LOW_PRIORITY));
    assert!(!sw.port_mut(p).check_pfc_resume(LOW_PRIORITY));
    assert!(!sw.port_mut(p).check_pfc_resume(HIGH_PRIORITY));
    assert_eq!(sw.dequeue(p).unwrap().id, 3);
}

#[test]
fn a_log_of_any_capacity_holds_every_drop() {
    let mut c = DropCounters::new(1);
    c.record(DropReason::NoRoute, None, 1, 1, 64, 9, 5);
    assert!(c.events.is_empty());
    c.enable_event_log(0);
    c.record(DropReason::BufferFull, Some(0), 2, 3, 1024, 9, 6);
    c.record(DropReason::NoRoute, None, 4, 5, 64, 9, 7);
    assert_eq!(c.events.len(), 2);
    assert_eq!((c.events[0].flow_id, c.events[0].seq, c.events[0].time_ns), (2, 3, 6));
    assert_eq!((c.events[1].flow_id, c.events[1].size), (4, 64));
}

#[test]
fn packets_have_their_kind_and_size() {
    let d = Packet::data(1, 2, 3, 4, 5, 6, 7);
    assert_eq!(d.kind, PacketKind::Data);
    assert_eq!((d.size, d.trace_id, d.flow_id, d.seq), (1024, 2, 3, 4));
    let c = Packet::control(1, 2, 3, 4, 5, 6, true, 9, vec![8], 7);
    assert_eq!(c.kind, PacketKind::Control(9));
    assert_eq!((c.size, c.ecn, c.payload.len()), (64, true, 1));
    let r = Packet::rdma_data(1, 2, 30, 40, 5, 6, 7, 8, 9);
    assert_eq!((r.qpn, r.psn, r.flow_id, r.seq), (30, 40, 30, 40));
}

#[test]
fn gpu_links_have_their_delay() {
    assert_eq!(GpuLink::NvLink.delay_ns(), 100);
    assert_eq!(GpuLink::NvSwitch.delay_ns(), 200);
    assert_eq!(GpuLink::PcieNic.delay_ns(), 2000);
    assert_eq!(GpuLink::PcieNic.bandwidth_bps(), 400_000_000_000);
}

#[test]
fn a_node_of_eight_gpus_knows_its_delays() {
    let n = NodeTopology::typical_8gpu_8nic();
    assert_eq!((n.num_gpus, n.num_nics), (8, 8));
    assert_eq!(n.gpu_to_nic, (0..8).collect::<Vec<u32>>());
    let near = n.gpu_to_nic_delay(2, 2);
    assert!(near <= n.gpu_to_nic_delay(2, 7));
    assert_eq!(n.gpu_to_nic_delay(2, 99), 3000);
    assert!(n.gpu_to_gpu_delay(0, 1) <= n.gpu_to_gpu_delay(0, 99));
}

#[test]
fn drops_are_counted_by_reason_port_and_flow() {
    let mut c = DropCounters::new(2);
    c.enable_event_log(4);
    c.record(DropReason::BufferFull, Some(1), 7, 3, 1024, 50, 9);
    c.record(DropReason::NoRoute, None, 7, 4, 1024, 60, 9);
    c.record(DropReason::BufferFull, Some(1), 8, 0, 64, 70, 9);
    assert_eq!(c.buffer_full_drops(), 2);
    assert_eq!(c.no_route_drops(), 1);
    assert_eq!(c.drops_by_reason(DropReason::TtlExceeded), 0);
    assert_eq!(c.total, 3);
    assert_eq!(c.by_port, vec![0, 2]);
    assert_eq!(c.per_flow[&7].no_route, 1);
    assert_eq!(DropReason::Other.as_str(), "Other");
}
