//! STrack: packets sprayed over many paths, with selective retransmission.
//!
//! The protocol joins a sending NIC and a receiving NIC. It knows two modes:
//! - `Ecmp`: every flow stays on one path and halves its window on congestion;
//! - `Strack`: packets are sprayed over all paths, and congestion first closes a path.
use super::cc::make_paths;
use super::protocol::{Protocol, ProtocolStats};
use super::rx::receive_data;
use super::sender::{
    check_all_done, check_any_work, first_deadline, note_departure, packet_count, TickParams,
};
use super::tx::{send_over_paths, take_ack, take_nack};
use crate::network::packet::{FlowId, Packet, PacketKind, SeqNum};
use crate::network::Switch;
use crate::topology::Topology;
use crate::util::low_u8;
use crate::EntityId;
use std::collections::HashMap;
use vstd::prelude::*;

pub use super::cc::PathState;
pub use super::rx::{FlowRxState, RxStats};
pub use super::tx::{FlowTxState, TxStats};

verus! {

use super::protocol::zero_stats;
use super::rx::{zero_rx_stats, RxNicView};
use super::sender::{
    all_done, any_work, departed, flow_views, is_first_deadline, packets_for,
};
use super::tx::{fresh_tx, fresh_tx_nic, TxNicView, TxView};
use crate::network::packet::{packet_views, PacketView};
use crate::network::switch::SwitchView;
use crate::topology::{switch_from, uplink_from, TopologyView};

broadcast use vstd::std_specs::hash::group_hash_axioms;

/// How the protocol uses its paths.
#[derive(Debug, Clone, Copy, PartialEq, Eq, Structural)]
pub enum STrackMode {
    /// Every flow stays on one path.
    Ecmp,
    /// Packets are sprayed over all paths.
    Strack,
}

/// The STrack protocol of one host.
pub struct STrackProtocol {
    pub host_id: EntityId,
    pub mode: STrackMode,
    pub paths: Vec<PathState>,
    pub paths_rr_cursor: u8,
    pub tx_flows: HashMap<FlowId, FlowTxState>,
    pub rx_flows: HashMap<FlowId, FlowRxState>,
    pub tx_stats: TxStats,
    pub rx_stats: RxStats,
    pub next_packet_id: u64,
    pub init_cwnd: u32,
    pub max_cwnd: u32,
    pub min_cwnd: u32,
    pub blacklist_duration_ns: u64,
    pub rto_ns: u64,
    pub finished: Vec<(FlowId, u64)>,
}

/// What can be observed of a host.
#[verifier::ext_equal]
pub struct STrackView {
    /// The sending side.
    pub tx: TxNicView,
    pub rx_flows: Map<FlowId, FlowRxState>,
    pub rx_stats: RxStats,
    /// The completed flows that have not been handed out yet.
    pub finished: Seq<(FlowId, u64)>,
}

impl View for STrackProtocol {
    type V = STrackView;

    open spec fn view(&self) -> STrackView {
        STrackView {
            tx: TxNicView {
                host_id: self.host_id,
                spray: self.mode == STrackMode::Strack,
                paths: self.paths@,
                cursor: self.paths_rr_cursor,
                flows: flow_views(self.tx_flows@),
                stats: self.tx_stats,
                next_packet_id: self.next_packet_id,
                init_cwnd: self.init_cwnd,
                max_cwnd: self.max_cwnd,
                min_cwnd: self.min_cwnd,
                blacklist_duration_ns: self.blacklist_duration_ns,
                rto_ns: self.rto_ns,
            },
            rx_flows: self.rx_flows@,
            rx_stats: self.rx_stats,
            finished: self.finished@,
        }
    }
}

/// A host with `n_paths` paths and without flows, with the default parameters.
pub open spec fn fresh_host(host_id: EntityId, spray: bool, n_paths: u8) -> STrackView {
    STrackView {
        tx: fresh_tx_nic(host_id, spray, n_paths),
        rx_flows: Map::empty(),
        rx_stats: zero_rx_stats(),
        finished: Seq::empty(),
    }
}

impl STrackView {
    /// The receiving side.
    pub open spec fn rx(self) -> RxNicView {
        RxNicView {
            host_id: self.tx.host_id,
            flows: self.rx_flows,
            stats: self.rx_stats,
            next_packet_id: self.tx.next_packet_id,
        }
    }

    /// The host after a tick at `now`, and the packets that it sends.
    pub open spec fn ticked(self, now: u64) -> (STrackView, Seq<PacketView>) {
        let (tx, out) = self.tx.ticked(now, false);
        (STrackView { tx, ..self }, out)
    }

    /// The host after the data packet `pkt` has come in at `now`, and its answer.
    pub open spec fn received(self, pkt: PacketView, now: u64) -> (STrackView, Seq<PacketView>) {
        let (rx, out) = self.rx().received(pkt, now);
        (
            STrackView {
                tx: TxNicView { next_packet_id: rx.next_packet_id, ..self.tx },
                rx_flows: rx.flows,
                rx_stats: rx.stats,
                ..self
            },
            out,
        )
    }

    /// The host after an acknowledgement.
    pub open spec fn acknowledged(
        self,
        ack_id: u64,
        id: FlowId,
        seq: SeqNum,
        ecn: bool,
        now: u64,
    ) -> STrackView {
        STrackView {
            tx: self.tx.acknowledged(ack_id, id, seq, ecn, now),
            finished: if self.tx.ack_completes(ack_id, id, seq, ecn, now) {
                self.finished.push((self.tx.flows[id].flow_id, now))
            } else {
                self.finished
            },
            ..self
        }
    }

    /// The host after a negative acknowledgement.
    pub open spec fn nacked(self, id: FlowId, limit: SeqNum, payload: Seq<u8>) -> STrackView {
        STrackView { tx: self.tx.nacked(id, limit, payload), ..self }
    }

    /// The host after the NIC has reported that a packet left at `at`.
    pub open spec fn departure_noted(self, id: FlowId, seq: SeqNum, at: u64) -> STrackView {
        if self.tx.flows.contains_key(id) {
            let f = self.tx.flows[id];
            STrackView {
                tx: self.tx.with_flow(
                    id,
                    TxView { send_times: departed(f.send_times, seq, at), ..f },
                ),
                ..self
            }
        } else {
            self
        }
    }

    /// The counters of both sides.
    pub open spec fn stats(self) -> ProtocolStats {
        ProtocolStats {
            packets_sent: self.tx.stats.packets_sent,
            packets_retransmitted: self.tx.stats.packets_retransmitted,
            packets_received: self.rx_stats.packets_received,
            ecn_ack_received: self.tx.stats.ecn_ack_received,
            nack_received: self.tx.stats.nack_received,
            nacks_sent: self.rx_stats.nacks_sent,
            flows_completed: self.tx.stats.flows_completed,
            ..zero_stats()
        }
    }
}

/// The largest number of ports, by its low byte, that lead from a switch to one of `hosts` other
/// than `host`; at least one.
pub open spec fn most_paths(sw: SwitchView, hosts: Seq<EntityId>, host: EntityId) -> u8
    decreases hosts.len(),
{
    if hosts.len() == 0 {
        1
    } else {
        let before = most_paths(sw, hosts.drop_last(), host);
        let other = hosts.last();
        if other != host && sw.routes.contains_key(other) && sw.routes[other].len() as int % 256
            > before {
            (sw.routes[other].len() as int % 256) as u8
        } else {
            before
        }
    }
}

/// How many paths a host has: the largest number of ports that lead from its switch to another
/// host, or one if the host or its switch is not in the network.
pub open spec fn paths_of_host(topo: TopologyView, host: EntityId) -> u8 {
    match uplink_from(topo.uplinks, host, 0) {
        None => 1,
        Some(u) => match switch_from(topo.switches, topo.uplinks[u].edge_switch, 0) {
            None => 1,
            Some(s) => most_paths(topo.switches[s], topo.hosts, host),
        },
    }
}

fn count_most_paths(sw: &Switch, hosts: &Vec<EntityId>, host: EntityId) -> (n: u8)
    ensures
        n == most_paths(sw@, hosts@, host),
{
    let mut best: u8 = 1;
    let mut i: usize = 0;
    while i < hosts.len()
        invariant
            i <= hosts@.len(),
            best == most_paths(sw@, hosts@.take(i as int), host),
        decreases hosts@.len() - i,
    {
        let other: EntityId = hosts[i];
        assert(hosts@.take(i + 1).drop_last() =~= hosts@.take(i as int));
        if other != host {
            if let Some(ports) = sw.routing.ports_for(other) {
                let n: u8 = low_u8(ports.len());
                if n > best {
                    best = n;
                }
            }
        }
        i = i + 1;
    }
    assert(hosts@.take(i as int) =~= hosts@);
    best
}

impl STrackProtocol {
    /// A host of a network, with as many paths as its switch has ports to another host.
    pub fn new(host_id: EntityId, mode: STrackMode, topo: &Topology) -> (t: Self)
        ensures
            t@ == fresh_host(host_id, mode == STrackMode::Strack, paths_of_host(topo@, host_id)),
            t.mode == mode,
    {
        let n_paths: u8 = match topo.find_uplink(host_id) {
            None => 1,
            Some(u) => match topo.find_switch(topo.host_uplink[u].edge_switch) {
                None => 1,
                Some(s) => count_most_paths(&topo.switches[s], &topo.hosts, host_id),
            },
        };
        Self::with_path_count(host_id, mode, n_paths)
    }

    /// A host with `n_paths` paths.
    pub fn with_path_count(host_id: EntityId, mode: STrackMode, n_paths: u8) -> (t: Self)
        ensures
            t@ == fresh_host(host_id, mode == STrackMode::Strack, n_paths),
            t.mode == mode,
    {
        let t = STrackProtocol {
            host_id,
            mode,
            paths: make_paths(n_paths),
            paths_rr_cursor: 0,
            tx_flows: HashMap::new(),
            rx_flows: HashMap::new(),
            tx_stats: TxStats::default(),
            rx_stats: RxStats::default(),
            next_packet_id: 1,
            init_cwnd: 16,
            max_cwnd: 256,
            min_cwnd: 1,
            blacklist_duration_ns: 50_000,
            rto_ns: 100_000,
            finished: Vec::new(),
        };
        assert(t@.tx.flows =~= Map::empty());
        assert(t@.rx_flows =~= Map::empty());
        t
    }

    /// Registers a flow of `total_bytes`.
    pub fn start_flow_tx(&mut self, flow_id: FlowId, dst: EntityId, total_bytes: u64, now: u64)
        ensures
            final(self)@ == (STrackView {
                tx: old(self)@.tx.with_flow(
                    flow_id,
                    fresh_tx(flow_id, dst, packets_for(total_bytes), old(self)@.tx.init_cwnd, now),
                ),
                ..old(self)@
            }),
            final(self).mode == old(self).mode,
    {
        let flow = FlowTxState::new(
            flow_id,
            dst,
            packet_count(total_bytes),
            self.init_cwnd,
            now,
        );
        self.tx_flows.insert(flow_id, flow);
        assert(self@.tx.flows =~= old(self)@.tx.flows.insert(flow_id, flow@));
    }

    /// Sends what the flows may send at `now`.
    pub fn try_send(&mut self, now: u64) -> (out: Vec<Packet>)
        ensures
            (final(self)@, packet_views(out@)) == old(self)@.ticked(now),
            final(self).mode == old(self).mode,
    {
        let p = TickParams {
            now,
            rto_ns: self.rto_ns,
            init_cwnd: self.init_cwnd,
            min_cwnd: self.min_cwnd,
            routable: self.paths.len() > 0,
            strict: false,
        };
        send_over_paths(
            &p,
            self.host_id,
            self.mode == STrackMode::Strack,
            &self.paths,
            &mut self.paths_rr_cursor,
            &mut self.tx_flows,
            &mut self.tx_stats,
            &mut self.next_packet_id,
        )
    }

    /// Takes in an acknowledgement.
    pub fn on_ack(&mut self, ack: &Packet, now: u64)
        ensures
            final(self)@ == old(self)@.acknowledged(ack.id, ack.flow_id, ack.seq, ack.ecn, now),
            final(self).mode == old(self).mode,
    {
        let ghost nic = self@.tx;
        let (_known, completed) = take_ack(
            ack,
            now,
            self.mode == STrackMode::Strack,
            self.max_cwnd,
            self.min_cwnd,
            self.blacklist_duration_ns,
            &mut self.paths,
            &mut self.tx_flows,
            &mut self.tx_stats,
            Ghost(nic),
        );
        if let Some(flow_id) = completed {
            self.finished.push((flow_id, now));
        }
    }

    /// Takes in a negative acknowledgement.
    pub fn on_nack(&mut self, nack: &Packet, now: u64)
        ensures
            final(self)@ == old(self)@.nacked(nack.flow_id, nack.seq, nack@.payload),
            final(self).mode == old(self).mode,
    {
        let ghost nic = self@.tx;
        take_nack(nack, &mut self.tx_flows, &mut self.tx_stats, Ghost(nic));
    }

    /// Takes in a data packet and answers it.
    pub fn on_data(&mut self, pkt: &Packet, now: u64) -> (out: Vec<Packet>)
        ensures
            (final(self)@, packet_views(out@)) == old(self)@.received(pkt@, now),
            final(self).mode == old(self).mode,
    {
        receive_data(
            self.host_id,
            &mut self.rx_flows,
            &mut self.rx_stats,
            &mut self.next_packet_id,
            pkt,
            now,
        )
    }
}

impl Protocol for STrackProtocol {
    open spec fn started(
        &self,
        post: &Self,
        flow_id: FlowId,
        dst: EntityId,
        total_bytes: u64,
        now: u64,
    ) -> bool {
        post@ == (STrackView {
            tx: self@.tx.with_flow(
                flow_id,
                fresh_tx(flow_id, dst, packets_for(total_bytes), self@.tx.init_cwnd, now),
            ),
            ..self@
        })
    }

    open spec fn ticked(&self, post: &Self, now: u64, out: Seq<PacketView>) -> bool {
        (post@, out) == self@.ticked(now)
    }

    open spec fn took_data(
        &self,
        post: &Self,
        pkt: PacketView,
        now: u64,
        out: Seq<PacketView>,
    ) -> bool {
        (post@, out) == self@.received(pkt, now)
    }

    open spec fn took_control(&self, post: &Self, pkt: PacketView, now: u64) -> bool {
        post@ == match pkt.kind {
            PacketKind::Control(0) => self@.acknowledged(
                pkt.id,
                pkt.flow_id,
                pkt.seq,
                pkt.ecn,
                now,
            ),
            PacketKind::Control(1) => self@.nacked(pkt.flow_id, pkt.seq, pkt.payload),
            _ => self@,
        }
    }

    open spec fn is_done(&self) -> bool {
        all_done::<FlowTxState>(self@.tx.flows)
    }

    open spec fn finishes(&self, post: &Self, out: Seq<(FlowId, u64)>) -> bool {
        &&& out == self@.finished
        &&& post@ == (STrackView { finished: Seq::empty(), ..self@ })
    }

    open spec fn counters(&self) -> ProtocolStats {
        self@.stats()
    }

    open spec fn has_work(&self) -> bool {
        any_work::<FlowTxState>(self@.tx.flows)
    }

    open spec fn times_out(&self, at: Option<u64>) -> bool {
        is_first_deadline::<FlowTxState>(self@.tx.flows, self@.tx.rto_ns, at)
    }

    open spec fn noted_departure(
        &self,
        post: &Self,
        flow_id: FlowId,
        seq: SeqNum,
        nic_depart_time: u64,
    ) -> bool {
        post@ == self@.departure_noted(flow_id, seq, nic_depart_time)
    }

    open spec fn paced_until(&self, at: Option<u64>) -> bool {
        at is None
    }

    fn start_flow(&mut self, flow_id: FlowId, dst: EntityId, total_bytes: u64, now: u64) {
        self.start_flow_tx(flow_id, dst, total_bytes, now);
    }

    fn on_tx_tick(&mut self, now: u64) -> Vec<Packet> {
        self.try_send(now)
    }

    fn on_rx_data(&mut self, pkt: &Packet, now: u64) -> Vec<Packet> {
        self.on_data(pkt, now)
    }

    fn on_tx_control(&mut self, pkt: &Packet, now: u64) {
        match pkt.kind {
            PacketKind::Control(0) => self.on_ack(pkt, now),
            PacketKind::Control(1) => self.on_nack(pkt, now),
            _ => {},
        }
    }

    fn all_flows_done(&self) -> bool {
        check_all_done(&self.tx_flows)
    }

    fn take_finished_flows(&mut self) -> Vec<(FlowId, u64)> {
        let mut out: Vec<(FlowId, u64)> = Vec::new();
        std::mem::swap(&mut out, &mut self.finished);
        out
    }

    fn stats(&self) -> ProtocolStats {
        ProtocolStats {
            packets_sent: self.tx_stats.packets_sent,
            packets_retransmitted: self.tx_stats.packets_retransmitted,
            packets_received: self.rx_stats.packets_received,
            ecn_ack_received: self.tx_stats.ecn_ack_received,
            nack_received: self.tx_stats.nack_received,
            nacks_sent: self.rx_stats.nacks_sent,
            flows_completed: self.tx_stats.flows_completed,
            messages_completed: 0,
            rnr_naks_sent: 0,
            rnr_naks_received: 0,
        }
    }

    fn has_pending_work(&self) -> bool {
        check_any_work(&self.tx_flows)
    }

    fn next_rto_deadline(&self) -> Option<u64> {
        first_deadline(&self.tx_flows, self.rto_ns)
    }

    fn next_tx_time(&self) -> Option<u64> {
        None
    }

    fn update_send_time(&mut self, flow_id: FlowId, seq: SeqNum, nic_depart_time: u64)
        ensures
            final(self)@ == old(self)@.departure_noted(flow_id, seq, nic_depart_time),
    {
        let ghost before = self@;
        if let Some(mut flow) = self.tx_flows.remove(&flow_id) {
            assert(flow@ == before.tx.flows[flow_id]);
            note_departure(&mut flow.send_times, seq, nic_depart_time);
            self.tx_flows.insert(flow_id, flow);
        }
        assert(self@.tx.flows =~= before.departure_noted(flow_id, seq, nic_depart_time).tx.flows);
    }
}

} // verus!
