use strack_sim::network::packet::{Packet, PacketKind, MTU_BYTES};
use strack_sim::nic::cubic::GrowthRequest;
use strack_sim::nic::dcqcn::{MIN_RATE_BPS, RAI_NS, RATE_DECREASE_ACKS};
use strack_sim::nic::hpcc::{reported_utilization, MAX_RATE_BPS};
use strack_sim::nic::rdma::{MsgBoundary, QpState, QueuePair, RdmaOpcode};
use strack_sim::nic::rdma_protocol::PendingMessage;
use strack_sim::nic::rx::RxNic;
use strack_sim::nic::{
    DcqcnProtocol, HpccProtocol, Protocol, RdmaProtocol, STrackMode, STrackProtocol, SimpleTcp,
    TcpCubic, TcpReno,
};

fn ack(id: u64, flow: u32, seq: u32, src: u32, dst: u32, ecn: bool, now: u64) -> Packet {
    Packet::control(id, id, flow, seq, src, dst, ecn, 0, Vec::new(), now)
}

// ---- the receiver of packets over several paths ----

#[test]
fn rx_rx_in_order_delivery() {
    let mut rx = RxNic::new(99);
    for s in 0..10u32 {
        let pkt = Packet::data(s as u64, 0, 0, s, 1, 99, 0);
        let outs = rx.on_data(&pkt, 0);
        assert_eq!(outs.len(), 1);
        assert_eq!(outs[0].seq, s + 1);
    }
    assert_eq!(rx.flows[&0].next_expected, 10);
}

#[test]
fn rx_rx_out_of_order_then_fill_gap() {
    let mut rx = RxNic::new(99);
    for s in [0u32, 2, 3, 1] {
        let pkt = Packet::data(s as u64, 0, 0, s, 1, 99, 0);
        rx.on_data(&pkt, 0);
    }
    assert_eq!(rx.flows[&0].next_expected, 4);
    assert!(rx.stats.nacks_sent > 0);
}

#[test]
fn rx_rx_handles_duplicate() {
    let mut rx = RxNic::new(99);
    for _ in 0..3 {
        let pkt = Packet::data(0, 0, 0, 0, 1, 99, 0);
        rx.on_data(&pkt, 0);
    }
    assert_eq!(rx.flows[&0].next_expected, 1);
    assert!(rx.stats.duplicates >= 2);
}

// ---- packet spraying ----

#[test]
fn strack_rx_in_order_delivery() {
    let mut proto = STrackProtocol::with_path_count(99, STrackMode::Ecmp, 1);
    for s in 0..10u32 {
        let pkt = Packet::data(s as u64, 0, 0, s, 1, 99, 0);
        let outs = proto.on_data(&pkt, 0);
        assert_eq!(outs.len(), 1);
        assert_eq!(outs[0].seq, s + 1);
    }
    assert_eq!(proto.rx_flows[&0].next_expected, 10);
}

#[test]
fn strack_rx_out_of_order_then_fill_gap() {
    let mut proto = STrackProtocol::with_path_count(99, STrackMode::Ecmp, 1);
    for s in [0u32, 2, 3, 1] {
        let pkt = Packet::data(s as u64, 0, 0, s, 1, 99, 0);
        proto.on_data(&pkt, 0);
    }
    assert_eq!(proto.rx_flows[&0].next_expected, 4);
    assert!(proto.rx_stats.nacks_sent > 0);
}

#[test]
fn strack_rx_handles_duplicate() {
    let mut proto = STrackProtocol::with_path_count(99, STrackMode::Ecmp, 1);
    for _ in 0..3 {
        let pkt = Packet::data(0, 0, 0, 0, 1, 99, 0);
        proto.on_data(&pkt, 0);
    }
    assert_eq!(proto.rx_flows[&0].next_expected, 1);
    assert!(proto.rx_stats.duplicates >= 2);
}

#[test]
fn tx_sends_packets_up_to_cwnd() {
    let mut proto = STrackProtocol::with_path_count(1, STrackMode::Ecmp, 1);
    proto.start_flow(0, 2, 1024 * 100, 0);
    let pkts = proto.on_tx_tick(0);
    assert_eq!(pkts.len() as u32, proto.init_cwnd);
}

#[test]
fn tx_ack_advances_window() {
    let mut proto = STrackProtocol::with_path_count(1, STrackMode::Ecmp, 1);
    proto.start_flow(0, 2, 1024 * 100, 0);
    let _ = proto.on_tx_tick(0);
    let ack = Packet::control(1000, 0, 0, 16, 2, 1, false, 0, Vec::new(), 1000);
    proto.on_tx_control(&ack, 1000);
    let flow = &proto.tx_flows[&0];
    assert_eq!(flow.un_acked_base, 16);
    assert_eq!(flow.in_flight, 0);
}

#[test]
fn tx_ecn_reduces_cwnd() {
    let mut proto = STrackProtocol::with_path_count(1, STrackMode::Ecmp, 1);
    proto.start_flow(0, 2, 1024 * 100, 0);
    let _ = proto.on_tx_tick(0);
    let ack = Packet::control(1000, 0, 0, 16, 2, 1, true, 0, Vec::new(), 1000);
    proto.on_tx_control(&ack, 1000);
    let flow = &proto.tx_flows[&0];
    assert_eq!(flow.cwnd, proto.init_cwnd / 2);
}

#[test]
fn tx_nack_triggers_retransmit() {
    let mut proto = STrackProtocol::with_path_count(1, STrackMode::Ecmp, 1);
    proto.start_flow(0, 2, 1024 * 10, 0);
    let _ = proto.on_tx_tick(0);
    let mut payload = Vec::with_capacity(12);
    payload.extend_from_slice(&0u32.to_le_bytes());
    payload.extend_from_slice(&0u64.to_le_bytes());
    let nack = Packet::control(1000, 0, 0, 1, 2, 1, false, 1, payload, 1000);
    proto.on_tx_control(&nack, 1000);
    let flow = &proto.tx_flows[&0];
    assert!(flow.retransmit_queue.contains(&0));
}

#[test]
fn tx_rto_triggers_at_exact_deadline() {
    let mut proto = STrackProtocol::with_path_count(1, STrackMode::Ecmp, 1);
    proto.start_flow(0, 2, 1024 * 10, 0);
    let _ = proto.on_tx_tick(0);
    let deadline = proto.rto_ns;
    assert_eq!(proto.next_rto_deadline(), Some(deadline));
    let pkts = proto.on_tx_tick(deadline);
    assert!(!pkts.is_empty());
    assert!(proto.tx_stats.packets_retransmitted > 0);
}

#[test]
fn without_a_path_the_first_packet_is_given_up() {
    let mut proto = STrackProtocol::with_path_count(1, STrackMode::Strack, 2);
    proto.start_flow(5, 9, MTU_BYTES as u64 * 4, 0);
    assert_eq!(proto.on_tx_tick(0).len(), 4);
    let paths = std::mem::take(&mut proto.paths);
    assert_eq!(proto.on_tx_tick(1_000_000).len(), 0);
    assert_eq!(proto.tx_flows[&5].retransmit_queue, vec![1, 2, 3]);
    proto.paths = paths;
    let again: Vec<u32> = proto.on_tx_tick(1_000_100).iter().map(|p| p.seq).collect();
    assert_eq!(again, vec![1, 2, 3, 0]);
}

#[test]
fn a_sprayed_flow_uses_all_paths() {
    let mut proto = STrackProtocol::with_path_count(1, STrackMode::Strack, 4);
    proto.start_flow(0, 2, 1024 * 8, 0);
    let tags: Vec<u8> = proto.on_tx_tick(0).iter().map(|p| p.routing_tag).collect();
    for tag in 1..=4u8 {
        assert_eq!(tags.iter().filter(|&&t| t == tag).count(), 2);
    }
}

// ---- a simple window ----

#[test]
fn tcp_rx_in_order_delivery() {
    let mut tcp = SimpleTcp::new(99);
    for s in 0..10u32 {
        let pkt = Packet::data(s as u64, 0, 0, s, 1, 99, 0);
        let outs = tcp.on_rx_data(&pkt, 0);
        assert_eq!(outs.len(), 1);
        assert_eq!(outs[0].seq, s + 1);
    }
    assert_eq!(tcp.rx_flows[&0].next_expected, 10);
}

#[test]
fn tcp_rx_out_of_order_then_fill_gap() {
    let mut tcp = SimpleTcp::new(99);
    let pkt0 = Packet::data(0, 0, 0, 0, 1, 99, 0);
    let pkt2 = Packet::data(1, 0, 0, 2, 1, 99, 0);
    let pkt1 = Packet::data(2, 0, 0, 1, 1, 99, 0);

    let out0 = tcp.on_rx_data(&pkt0, 0);
    assert_eq!(out0[0].seq, 1);
    let out2 = tcp.on_rx_data(&pkt2, 0);
    assert_eq!(out2[0].seq, 1);
    let out1 = tcp.on_rx_data(&pkt1, 0);
    assert_eq!(out1[0].seq, 3);
    assert_eq!(tcp.rx_flows[&0].next_expected, 3);
}

#[test]
fn tcp_tx_sends_up_to_cwnd() {
    let mut tcp = SimpleTcp::new(1);
    tcp.start_flow(0, 2, 1024 * 100, 0);
    let pkts = tcp.on_tx_tick(0);
    assert_eq!(pkts.len() as u32, tcp.init_cwnd);
}

#[test]
fn tcp_ack_advances_window() {
    let mut tcp = SimpleTcp::new(1);
    tcp.start_flow(0, 2, 1024 * 100, 0);
    let _ = tcp.on_tx_tick(0);
    tcp.on_tx_control(&ack(1000, 0, 16, 2, 1, false, 1000), 1000);
    let flow = &tcp.tx_flows[&0];
    assert_eq!(flow.un_acked_base, 16);
    assert_eq!(flow.in_flight, 0);
}

#[test]
fn tcp_ecn_reduces_cwnd() {
    let mut tcp = SimpleTcp::new(1);
    tcp.start_flow(0, 2, 1024 * 100, 0);
    let _ = tcp.on_tx_tick(0);
    tcp.on_tx_control(&ack(1000, 0, 16, 2, 1, true, 1000), 1000);
    let flow = &tcp.tx_flows[&0];
    assert!(flow.cwnd <= tcp.init_cwnd);
    assert_eq!(flow.ssthresh, tcp.init_cwnd / 2);
}

#[test]
fn tcp_timeout_retransmit() {
    let mut tcp = SimpleTcp::new(1);
    tcp.start_flow(0, 2, 1024 * 10, 0);
    let pkts = tcp.on_tx_tick(0);
    assert!(!pkts.is_empty());
    let old_cwnd = tcp.tx_flows[&0].cwnd;
    let old_ssthresh = tcp.tx_flows[&0].ssthresh;
    let late = tcp.rto_ns + 1;
    let pkts2 = tcp.on_tx_tick(late);
    assert!(!pkts2.is_empty());
    let flow = &tcp.tx_flows[&0];
    assert_eq!(flow.cwnd, tcp.init_cwnd);
    assert_eq!(flow.ssthresh, old_cwnd / 2);
    assert_ne!(flow.ssthresh, old_ssthresh);
}

#[test]
fn tcp_fast_retransmit_on_3_dup_ack() {
    let mut tcp = SimpleTcp::new(1);
    tcp.start_flow(0, 2, 1024 * 100, 0);
    let _ = tcp.on_tx_tick(0);
    let sent_cwnd = tcp.tx_flows[&0].cwnd;
    for i in 0..3 {
        tcp.on_tx_control(&ack(1000 + i as u64, 0, 0, 2, 1, false, 1000), 1000);
    }
    let flow = &tcp.tx_flows[&0];
    assert_eq!(flow.dup_ack_count, 3);
    assert_eq!(flow.ssthresh, sent_cwnd / 2);
    assert!(flow.retransmit_queue.contains(&0));
}

#[test]
fn tcp_slow_start_vs_congestion_avoidance() {
    let mut tcp = SimpleTcp::new(1);
    tcp.init_cwnd = 1;
    tcp.start_flow(0, 2, 1024 * 1000, 0);
    let _ = tcp.on_tx_tick(0);
    assert_eq!(tcp.tx_flows[&0].cwnd, 1);
    assert_eq!(tcp.tx_flows[&0].ssthresh, 64);

    let mut ack_seq = 1;
    for _ in 0..10 {
        tcp.on_tx_control(&ack(1000 + ack_seq as u64, 0, ack_seq, 2, 1, false, 1000), 1000);
        ack_seq = tcp.tx_flows[&0].un_acked_base + 1;
    }
    assert_eq!(tcp.tx_flows[&0].cwnd, 11);

    while tcp.tx_flows[&0].cwnd < tcp.tx_flows[&0].ssthresh {
        tcp.on_tx_control(&ack(2000 + ack_seq as u64, 0, ack_seq, 2, 1, false, 2000), 2000);
        ack_seq = tcp.tx_flows[&0].un_acked_base + 1;
    }
    let cwnd_ca = tcp.tx_flows[&0].cwnd;
    let ssthresh = tcp.tx_flows[&0].ssthresh;
    assert!(cwnd_ca >= ssthresh);

    for _ in 0..cwnd_ca {
        tcp.on_tx_control(&ack(3000 + ack_seq as u64, 0, ack_seq, 2, 1, false, 3000), 3000);
        ack_seq = tcp.tx_flows[&0].un_acked_base + 1;
    }
    assert_eq!(tcp.tx_flows[&0].cwnd, cwnd_ca + 1);
}

#[test]
fn tcp_finishes_a_flow() {
    let mut tcp = SimpleTcp::new(1);
    assert!(!tcp.all_flows_done());
    tcp.start_flow(4, 2, 2000, 0);
    assert!(tcp.has_pending_work());
    assert_eq!(tcp.on_tx_tick(0).len(), 2);
    assert!(!tcp.has_pending_work());
    tcp.on_tx_control(&ack(9, 4, 2, 2, 1, false, 700), 700);
    assert!(tcp.all_flows_done());
    assert_eq!(tcp.take_finished_flows(), vec![(4, 700)]);
    assert!(tcp.take_finished_flows().is_empty());
    let s = tcp.stats();
    assert_eq!((s.packets_sent, s.flows_completed), (2, 1));
    assert_eq!(tcp.next_tx_time(), None);
}

// ---- fast recovery ----

#[test]
fn reno_fast_recovery_on_3_dup_acks() {
    let mut reno = TcpReno::new(0);
    reno.start_flow(1, 1, MTU_BYTES as u64 * 100, 0);
    let pkts = reno.on_tx_tick(0);
    assert_eq!(pkts.len(), 16);
    assert_eq!(reno.tx_flows[&1].cwnd, 16);

    reno.on_tx_control(&ack(100, 1, 0, 1, 0, false, 1000), 1000);
    assert_eq!(reno.tx_flows[&1].dup_ack_count, 1);
    assert!(!reno.tx_flows[&1].fast_recovery);

    reno.on_tx_control(&ack(101, 1, 0, 1, 0, false, 2000), 2000);
    assert_eq!(reno.tx_flows[&1].dup_ack_count, 2);

    reno.on_tx_control(&ack(102, 1, 0, 1, 0, false, 3000), 3000);
    let f = &reno.tx_flows[&1];
    assert!(f.fast_recovery);
    assert_eq!(f.ssthresh, 8);
    assert_eq!(f.cwnd, 11);
    assert!(!f.retransmit_queue.is_empty());

    reno.on_tx_control(&ack(103, 1, 0, 1, 0, false, 4000), 4000);
    assert_eq!(reno.tx_flows[&1].cwnd, 12);

    reno.on_tx_control(&ack(104, 1, 5, 1, 0, false, 5000), 5000);
    let f = &reno.tx_flows[&1];
    assert!(!f.fast_recovery);
    assert_eq!(f.cwnd, 8);
}

#[test]
fn reno_timeout_exits_fast_recovery() {
    let mut reno = TcpReno::new(1);
    reno.start_flow(1, 0, MTU_BYTES as u64 * 100, 0);
    reno.on_tx_tick(0);

    let flow = reno.tx_flows.get_mut(&1).unwrap();
    flow.fast_recovery = true;
    flow.cwnd = 11;
    flow.ssthresh = 8;
    flow.send_times.insert(0, 0);

    reno.on_tx_tick(200_000);
    let f = &reno.tx_flows[&1];
    assert!(!f.fast_recovery);
    assert_eq!(f.cwnd, 16);
    assert_eq!(f.ssthresh, 5);
}

#[test]
fn reno_is_told_when_packets_leave() {
    let mut reno = TcpReno::new(1);
    reno.start_flow(1, 0, MTU_BYTES as u64, 0);
    reno.on_tx_tick(10);
    reno.update_send_time(1, 0, 500);
    assert_eq!(reno.tx_flows[&1].send_times[&0], 500);
    reno.update_send_time(1, 3, 500);
    assert!(!reno.tx_flows[&1].send_times.contains_key(&3));
}

// ---- the cubic window ----

const CUBIC_C: f64 = 0.4;
const CUBIC_BETA: f64 = 0.3;

fn compute_k(w_max: u32) -> f64 {
    if w_max <= 1 {
        return 0.0;
    }
    (w_max as f64 * CUBIC_BETA / CUBIC_C).cbrt()
}

fn cubic_target(elapsed_rtt: f64, w_max: u32) -> f64 {
    let dt = elapsed_rtt - compute_k(w_max);
    (CUBIC_C * dt * dt * dt + w_max as f64).max(2.0)
}

fn tcp_friendly(w_max: u32, elapsed_rtt: f64) -> f64 {
    let wm = w_max as f64;
    let reno = wm * CUBIC_BETA + 3.0 * CUBIC_BETA / (2.0 - CUBIC_BETA) * elapsed_rtt;
    if wm > 0.0 && reno < wm {
        reno
    } else {
        0.0
    }
}

/// By how many packets the window grows, and what is left of a packet.
fn growth(g: &GrowthRequest, max_cwnd: u32) -> (u32, u64) {
    let mut accum = f64::from_bits(g.cwnd_accum_bits);
    let elapsed = g.elapsed_ns as f64 / g.rtt_ns as f64;
    let friendly = tcp_friendly(g.w_max_pkts, elapsed);
    let cur = g.cwnd as f64;
    let mut steps = 0;
    if cubic_target(elapsed, g.w_max_pkts).max(friendly) > cur {
        let mut next = cubic_target(elapsed + 1.0, g.w_max_pkts);
        if friendly > 0.0 {
            next = next.max(tcp_friendly(g.w_max_pkts, elapsed + 1.0));
        }
        if next > cur {
            accum += g.acked as f64 / (cur / (next - cur));
            while accum >= 1.0 && g.cwnd + steps < max_cwnd {
                steps += 1;
                accum -= 1.0;
            }
        }
    }
    (steps, accum.to_bits())
}

#[test]
fn cubic_loss_event_records_state() {
    let mut cubic = TcpCubic::new(0);
    cubic.start_flow_tx(1, 1, MTU_BYTES as u64 * 200, 0);
    cubic.try_send(0);
    assert_eq!(cubic.tx_flows[&1].cwnd, 16);

    for _ in 0..3 {
        cubic.on_ack(&ack(100, 1, 0, 1, 0, false, 1000), 1000);
    }
    let f = &cubic.tx_flows[&1];
    assert_eq!(f.w_max_pkts, 16);
    assert!(compute_k(f.w_max_pkts) > 0.0);
    assert_eq!(f.epoch_start_ns, 1000);
    assert!(f.fast_recovery);
    assert_eq!(f.cwnd, 7);
}

#[test]
fn cubic_growth_over_time() {
    let mut cubic = TcpCubic::new(0);
    cubic.start_flow_tx(1, 1, MTU_BYTES as u64 * 200, 0);
    cubic.try_send(0);
    {
        let f = cubic.tx_flows.get_mut(&1).unwrap();
        f.epoch_start_ns = 0;
        f.w_max_pkts = 80;
        f.ssthresh = 24;
        f.cwnd = 24;
        f.cwnd_accum_bits = 0;
        f.rtt_estimate_ns = 100_000;
        f.rtt_valid = true;
        f.in_flight = 0;
    }
    for i in 0..5000u64 {
        let now = i * 100_000;
        let a = ack(100 + i, 1, i as u32, 1, 0, false, now);
        if let Some(g) = cubic.on_ack(&a, now) {
            let (steps, bits) = growth(&g, cubic.max_cwnd);
            cubic.grow(g.flow_id, steps, bits);
        }
    }
    let f = &cubic.tx_flows[&1];
    assert!(f.cwnd >= 40, "the window did not grow: {}", f.cwnd);
}

#[test]
fn cubic_shrinks_the_old_maximum_after_a_smaller_one() {
    let mut cubic = TcpCubic::new(0);
    cubic.start_flow_tx(1, 1, MTU_BYTES as u64 * 200, 0);
    cubic.try_send(0);
    {
        let f = cubic.tx_flows.get_mut(&1).unwrap();
        f.w_max_pkts = 40;
        f.cwnd = 20;
    }
    for _ in 0..3 {
        cubic.on_ack(&ack(100, 1, 0, 1, 0, false, 1000), 1000);
    }
    let f = &cubic.tx_flows[&1];
    assert!(f.fast_convergence_applied);
    assert_eq!(f.w_max_pkts, 10);
}

// ---- rates ----

#[test]
fn cubic_converges_at_any_smaller_window() {
    let mut cubic = TcpCubic::new(0);
    cubic.start_flow_tx(1, 1, MTU_BYTES as u64 * 200, 0);
    cubic.try_send(0);
    {
        let f = cubic.tx_flows.get_mut(&1).unwrap();
        f.w_max_pkts = 51;
        f.cwnd = 50;
    }
    cubic.on_ack(&ack(100, 1, 1, 1, 0, true, 1000), 1000);
    assert_eq!(cubic.tx_flows[&1].w_max_pkts, 49);
    assert!(cubic.tx_flows[&1].fast_convergence_applied);
    cubic.tx_flows.get_mut(&1).unwrap().cwnd = 49;
    cubic.try_send(100_000);
    assert_eq!(cubic.tx_flows[&1].w_max_pkts, 49);
    assert!(!cubic.tx_flows[&1].fast_convergence_applied);
    cubic.tx_flows.get_mut(&1).unwrap().cwnd = 7;
    cubic.try_send(200_000);
    assert_eq!(cubic.tx_flows[&1].w_max_pkts, 1);
}

#[test]
fn dcqcn_rate_decrease_on_cnp() {
    let mut proto = DcqcnProtocol::new(1);
    proto.start_flow(0, 2, 1024 * 100, 0);
    let init_rate = proto.tx_flows[&0].current_rate_bps;
    assert!(init_rate > 0);

    let cnp = Packet::control(1000, 1000, 0, 0, 2, 1, false, 2, Vec::new(), 0);
    proto.on_cnp(&cnp, 0);

    let flow = &proto.tx_flows[&0];
    assert!(flow.current_rate_bps < init_rate);
    assert!(flow.in_fast_recovery);
}

#[test]
fn dcqcn_rates_stay_in_bounds() {
    let mut proto = DcqcnProtocol::new(1);
    proto.start_flow(0, 2, 1024 * 100, 0);
    let cnp = Packet::control(1000, 1000, 0, 0, 2, 1, false, 2, Vec::new(), 0);
    for now in 0..2000 {
        proto.on_cnp(&cnp, now * 100_000);
        assert!(proto.tx_flows[&0].current_rate_bps >= MIN_RATE_BPS);
    }
    assert_eq!(proto.tx_flows[&0].current_rate_bps, MIN_RATE_BPS);
}

#[test]
fn dcqcn_rate_recovery_after_ack() {
    let mut proto = DcqcnProtocol::new(1);
    proto.start_flow(0, 2, 1024 * 100, 0);
    let cnp = Packet::control(1000, 1000, 0, 0, 2, 1, false, 2, Vec::new(), 0);
    proto.on_cnp(&cnp, 0);
    let rate_after_cnp = proto.tx_flows[&0].current_rate_bps;

    for i in 0..RATE_DECREASE_ACKS + 10 {
        let now = (i as u64 + 1) * RAI_NS;
        proto.on_ack(&ack(2000 + i as u64, 0, i + 1, 2, 1, false, now), now);
    }
    assert!(proto.tx_flows[&0].current_rate_bps > rate_after_cnp);
}

#[test]
fn dcqcn_tx_pacing() {
    let mut proto = DcqcnProtocol::new(1);
    proto.start_flow(0, 2, 1024 * 100, 0);
    let pkts = proto.on_tx_tick(0);
    assert!(!pkts.is_empty());
    let pkts2 = proto.on_tx_tick(1);
    assert!(pkts2.is_empty() || pkts2.len() < pkts.len());
    assert!(proto.next_tx_time().is_some());
}

#[test]
fn dcqcn_ecn_generates_cnp() {
    let mut proto = DcqcnProtocol::new(2);
    let mut data = Packet::data(0, 0, 0, 0, 1, 2, 0);
    data.ecn = true;
    let outs = proto.on_rx_data(&data, 0);
    assert_eq!(outs.len(), 2);
    assert!(outs.iter().any(|p| matches!(p.kind, PacketKind::Control(2))));
}

#[test]
fn dcqcn_flow_completion() {
    let mut proto = DcqcnProtocol::new(1);
    proto.start_flow(0, 2, MTU_BYTES as u64 * 5, 0);
    let pkts = proto.on_tx_tick(0);
    assert!(!pkts.is_empty());
    for i in 1..=5 {
        proto.on_tx_control(&ack(1000 + i as u64, 0, i, 2, 1, false, 1000), 1000);
    }
    assert!(proto.all_flows_done());
    let finished = proto.take_finished_flows();
    assert_eq!(finished.len(), 1);
    assert_eq!(finished[0].0, 0);
}

#[test]
fn hpcc_basic_flow() {
    let mut proto = HpccProtocol::new(1);
    proto.start_flow_tx(0, 2, 1024 * 100, 0);
    let pkts = proto.try_send(0);
    assert!(!pkts.is_empty());
}

#[test]
fn hpcc_ack_adjusts_rate() {
    let mut proto = HpccProtocol::new(1);
    proto.start_flow_tx(0, 2, 1024 * 100, 0);
    let init_rate = proto.tx_flows[&0].current_rate_bps;
    let _ = proto.try_send(0);
    let payload = 0.9f64.to_le_bytes().to_vec();
    let ack = Packet::control(1000, 1000, 0, 1, 2, 1, false, 0, payload, 1000);
    let util = f64::from_bits(reported_utilization(&ack).unwrap());
    assert_eq!(util, 0.9);
    let scaled = (proto.rate_of(0).unwrap() as f64 * 0.95 / util) as u64;
    proto.on_ack(&ack, 1000, scaled);
    let new_rate = proto.tx_flows[&0].current_rate_bps;
    assert!(new_rate > init_rate || new_rate == MAX_RATE_BPS);
}

#[test]
fn hpcc_without_a_report_doubles_the_rate() {
    let mut proto = HpccProtocol::new(1);
    proto.start_flow_tx(0, 2, 1024 * 100, 0);
    let _ = proto.try_send(0);
    let before = proto.rate_of(0).unwrap();
    proto.on_ack(&ack(7, 0, 1, 2, 1, false, 1000), 1000, 5);
    assert_eq!(proto.rate_of(0), Some(2 * before));
    assert_eq!(proto.rate_of(9), None);
    let data = Packet::data(0, 0, 0, 0, 2, 1, 0);
    let reply = &proto.on_data(&data, 0)[0];
    assert_eq!(reply.payload, 0.5f64.to_le_bytes().to_vec());
}

// ---- queue pairs and messages ----

#[test]
fn rdma_qp_lifecycle() {
    let mut proto = RdmaProtocol::new(0);
    let qpn = proto.create_qp(1, 0);
    assert_eq!(proto.qp_state(qpn), Some(QpState::Rts));
    assert!(proto.qps[&qpn].state.can_send());
}

#[test]
fn rdma_post_send_creates_pending_message() {
    let mut proto = RdmaProtocol::new(0);
    let qpn = proto.create_qp(1, 0);
    proto.post_send(qpn, MTU_BYTES as u64 * 4, 0);
    assert_eq!(proto.pending_messages.len(), 1);
    assert_eq!(proto.pending_messages[0].total_packets, 4);
}

fn message(total_packets: u32, base_psn: u32) -> PendingMessage {
    PendingMessage {
        msg_id: 0,
        qpn: 0,
        dst: 1,
        opcode: RdmaOpcode::Send,
        total_bytes: MTU_BYTES as u64 * total_packets as u64,
        total_packets,
        next_packet_idx: 0,
        base_psn,
        posted_ns: 0,
    }
}

#[test]
fn rdma_segmentation_solo_message() {
    let segs = RdmaProtocol::segment_message(&message(1, 0));
    assert_eq!(segs.len(), 1);
    assert_eq!(segs[0].1, MsgBoundary::Solo.to_flags());
}

#[test]
fn rdma_segmentation_multi_packet() {
    let segs = RdmaProtocol::segment_message(&message(3, 10));
    assert_eq!(segs.len(), 3);
    assert_eq!(segs[0].1, MsgBoundary::First.to_flags());
    assert_eq!(segs[0].0, 10);
    assert_eq!(segs[1].1, MsgBoundary::Middle.to_flags());
    assert_eq!(segs[1].0, 11);
    assert_eq!(segs[2].1, MsgBoundary::Last.to_flags());
    assert_eq!(segs[2].0, 12);
}

#[test]
fn rdma_reassembly_single_message() {
    let mut proto = RdmaProtocol::new(0);
    let qpn = proto.create_qp(1, 0);
    let pkt = Packet::rdma_data(
        1,
        1,
        qpn,
        0,
        MsgBoundary::Solo.to_flags(),
        RdmaOpcode::Send.to_code(),
        0,
        1,
        1000,
    );
    proto.handle_rdma_data(&pkt, 1000);
    assert_eq!(proto.stats.messages_completed, 1);
}

#[test]
fn boundary_flags_round_trip() {
    for b in [MsgBoundary::First, MsgBoundary::Middle, MsgBoundary::Last, MsgBoundary::Solo] {
        assert_eq!(MsgBoundary::from_flags(b.to_flags()), b);
    }
}

#[test]
fn queue_pairs_become_ready_step_by_step() {
    let mut qp = QueuePair::new(1, 2, 3, 0);
    assert!(!qp.state.can_send());
    assert!(!qp.transition(QpState::Rts));
    assert!(qp.transition(QpState::Init));
    assert!(qp.transition(QpState::Rtr));
    assert!(qp.state.can_recv());
    assert!(qp.transition(QpState::Rts));
    assert!(qp.state.can_send());
    assert_eq!((qp.alloc_psn(), qp.alloc_psn()), (0, 1));
    qp.next_psn = 0xff_ffff;
    assert_eq!((qp.alloc_psn(), qp.alloc_psn()), (0xff_ffff, 0));
}

#[test]
fn rdma_puts_a_message_together() {
    let mut receiver = RdmaProtocol::new(1);
    let msg = PendingMessage { qpn: 7, opcode: RdmaOpcode::Write, ..message(3, 0xff_ffff) };
    let segs = RdmaProtocol::segment_message(&msg);
    assert_eq!(segs[1].0, 0);
    for (i, (psn, flags)) in segs.iter().enumerate() {
        assert_eq!(receiver.take_finished_messages(), vec![]);
        let mut pkt =
            Packet::rdma_data(1, 1, 7, *psn, *flags, RdmaOpcode::Write.to_code(), 0, 1, 0);
        pkt.payload = vec![i as u8];
        receiver.on_rx_data(&pkt, 100 + i as u64);
        if i < 2 {
            assert_eq!(receiver.rx_reassembly[&7].packets[psn], vec![i as u8]);
            assert_eq!(receiver.rx_reassembly[&7].received_count, i as u32 + 1);
            assert_eq!(receiver.rx_reassembly[&7].total_bytes, 1024 * (i as u64 + 1));
        }
    }
    assert_eq!(receiver.take_finished_messages(), vec![(0, 7, 102)]);
    assert!(receiver.rx_reassembly.is_empty());
}

#[test]
fn rdma_answers_a_message_that_it_cannot_take() {
    let mut receiver = RdmaProtocol::new(1);
    let qpn = receiver.create_qp(0, 0);
    let mut sender = RdmaProtocol::new(0);
    let last = Packet::rdma_data(
        1,
        1,
        qpn,
        4,
        MsgBoundary::Last.to_flags(),
        RdmaOpcode::Send.to_code(),
        0,
        1,
        0,
    );
    let replies = receiver.on_rx_data(&last, 10);
    assert_eq!(replies.len(), 2);
    assert_eq!(replies[0].kind, PacketKind::Control(0));
    assert_eq!((replies[0].id, replies[0].seq), (1, 5));
    assert_eq!(replies[1].kind, PacketKind::Control(1));
    assert_eq!((replies[1].id, replies[1].seq, replies[1].dst), (2, 4, 0));
    assert_eq!(receiver.stats().rnr_naks_sent, 1);
    assert_eq!(receiver.stats().messages_completed, 0);
    for reply in &replies {
        sender.on_tx_control(reply, 20);
    }
    assert_eq!(sender.stats().rnr_naks_received, 1);
    receiver.post_recv(qpn, 4096, 30);
    assert_eq!(receiver.on_rx_data(&last, 40).len(), 1);
    assert_eq!(receiver.stats().messages_completed, 1);
}

#[test]
fn rdma_sends_a_message_in_order() {
    let mut sender = RdmaProtocol::new(0);
    sender.start_flow(1, 1, MTU_BYTES as u64 * 20, 0);
    let sent = sender.on_tx_tick(0);
    assert_eq!(sent.len(), 16);
    assert_eq!(sent[0].msg_flags, MsgBoundary::First.to_flags());
    for (i, pkt) in sent.iter().enumerate() {
        assert_eq!((pkt.psn, pkt.seq), (i as u32, i as u32));
    }
    assert_eq!(sent[15].msg_flags, MsgBoundary::Middle.to_flags());
}

#[test]
fn rdma_sends_the_same_packets_again() {
    let mut sender = RdmaProtocol::new(0);
    let mut receiver = RdmaProtocol::new(1);
    sender.start_flow(5, 1, MTU_BYTES as u64 * 3, 0);
    let sent = sender.on_tx_tick(0);
    receiver.on_rx_data(&sent[0], 10);
    receiver.on_rx_data(&sent[1], 20);
    assert_eq!(receiver.stats().packets_received, 4);
    let again = sender.on_tx_tick(100_000);
    assert_eq!(again.len(), 3);
    for (a, b) in sent.iter().zip(&again) {
        assert_eq!((a.qpn, a.psn, a.msg_flags), (b.qpn, b.psn, b.msg_flags));
        assert_eq!((a.rdma_opcode, a.seq, a.flow_id), (b.rdma_opcode, b.seq, b.flow_id));
        assert!(b.qpn > 0);
    }
    receiver.on_rx_data(&again[2], 100_500);
    assert_eq!(receiver.take_finished_messages(), vec![(0, sent[0].qpn, 100_500)]);
    assert_eq!(receiver.stats().packets_received, 6);
}

#[test]
fn rdma_completes_a_flow() {
    let mut sender = RdmaProtocol::new(0);
    let mut receiver = RdmaProtocol::new(1);
    sender.start_flow(5, 1, MTU_BYTES as u64 * 3, 0);
    let mut now = 0;
    for _ in 0..10 {
        now += 10;
        for pkt in sender.on_tx_tick(now) {
            for reply in receiver.on_rx_data(&pkt, now) {
                sender.on_tx_control(&reply, now);
            }
        }
    }
    let s = sender.stats();
    assert_eq!(s.packets_sent, 3);
    assert_eq!(receiver.stats().packets_received, 6);
}
