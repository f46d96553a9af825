//! The interface between the simulation and a transport protocol.
//!
//! The simulation orders events and models links; a protocol only deals with the
//! meaning of packets.
use crate::network::packet::{FlowId, Packet, SeqNum};
use crate::EntityId;
use vstd::prelude::*;

verus! {

use crate::network::packet::{packet_views, PacketView};

/// The counters that every protocol keeps. They stay at their maximum once they reach it.
#[derive(Debug, Clone, Copy)]
pub struct ProtocolStats {
    pub packets_sent: u64,
    pub packets_retransmitted: u64,
    pub packets_received: u64,
    pub ecn_ack_received: u64,
    pub nack_received: u64,
    pub nacks_sent: u64,
    pub flows_completed: u64,
    pub messages_completed: u64,
    pub rnr_naks_sent: u64,
    pub rnr_naks_received: u64,
}

/// Counters at zero.
pub open spec fn zero_stats() -> ProtocolStats {
    ProtocolStats {
        packets_sent: 0,
        packets_retransmitted: 0,
        packets_received: 0,
        ecn_ack_received: 0,
        nack_received: 0,
        nacks_sent: 0,
        flows_completed: 0,
        messages_completed: 0,
        rnr_naks_sent: 0,
        rnr_naks_received: 0,
    }
}

/// A counter after `n` more, at most its maximum.
pub open spec fn counted(c: u64, n: int) -> u64 {
    if c + n > u64::MAX {
        u64::MAX
    } else {
        (c + n) as u64
    }
}

impl ProtocolStats {
    /// The counters after `sent` packets have gone out, `resent` of them again.
    pub open spec fn after_sending(self, sent: int, resent: int) -> ProtocolStats {
        ProtocolStats {
            packets_sent: counted(self.packets_sent, sent),
            packets_retransmitted: counted(self.packets_retransmitted, resent),
            ..self
        }
    }

    /// The counters after a data packet has come in.
    pub open spec fn after_receiving(self) -> ProtocolStats {
        ProtocolStats { packets_received: counted(self.packets_received, 1), ..self }
    }

    /// The counters after `n` flows have completed.
    pub open spec fn after_completing(self, n: int) -> ProtocolStats {
        ProtocolStats { flows_completed: counted(self.flows_completed, n), ..self }
    }

    /// Counts packets that have gone out.
    pub fn count_sent(&mut self, sent: usize, resent: usize)
        ensures
            *final(self) == old(self).after_sending(sent as int, resent as int),
    {
        self.packets_sent = self.packets_sent.saturating_add(sent as u64);
        self.packets_retransmitted = self.packets_retransmitted.saturating_add(resent as u64);
    }

    /// Counts a data packet that has come in.
    pub fn count_received(&mut self)
        ensures
            *final(self) == old(self).after_receiving(),
    {
        self.packets_received = self.packets_received.saturating_add(1);
    }

    /// Counts a completed flow.
    pub fn count_completed(&mut self)
        ensures
            *final(self) == old(self).after_completing(1),
    {
        self.flows_completed = self.flows_completed.saturating_add(1);
    }
}

impl Default for ProtocolStats {
    fn default() -> (s: Self)
        ensures
            s == zero_stats(),
    {
        ProtocolStats {
            packets_sent: 0,
            packets_retransmitted: 0,
            packets_received: 0,
            ecn_ack_received: 0,
            nack_received: 0,
            nacks_sent: 0,
            flows_completed: 0,
            messages_completed: 0,
            rnr_naks_sent: 0,
            rnr_naks_received: 0,
        }
    }
}

/// A state before and after a call that changes nothing.
pub open spec fn unchanged<T: ?Sized>(pre: &T, post: &T) -> bool {
    pre == post
}

/// A transport protocol, with its sending and its receiving side.
///
/// What a protocol does is described by relations between its state before a call and its state
/// after it. A protocol that gives no description is free to do anything.
pub trait Protocol {
    /// `post` is the state after a flow was registered.
    open spec fn started(
        &self,
        post: &Self,
        flow_id: FlowId,
        dst: EntityId,
        total_bytes: u64,
        now: u64,
    ) -> bool {
        true
    }

    /// `post` is the state after a tick that sent `out`.
    open spec fn ticked(&self, post: &Self, now: u64, out: Seq<PacketView>) -> bool {
        true
    }

    /// `post` is the state after a data packet was taken in and answered with `out`.
    open spec fn took_data(
        &self,
        post: &Self,
        pkt: PacketView,
        now: u64,
        out: Seq<PacketView>,
    ) -> bool {
        true
    }

    /// `post` is the state after a control packet was taken in.
    open spec fn took_control(&self, post: &Self, pkt: PacketView, now: u64) -> bool {
        true
    }

    /// There are flows, and all of them are complete.
    open spec fn is_done(&self) -> bool {
        vstd::pervasive::arbitrary()
    }

    /// `post` is the state after the flows `out`, which had completed, were handed out.
    open spec fn finishes(&self, post: &Self, out: Seq<(FlowId, u64)>) -> bool {
        true
    }

    /// The counters.
    open spec fn counters(&self) -> ProtocolStats {
        vstd::pervasive::arbitrary()
    }

    /// A tick would send something, apart from timeouts.
    open spec fn has_work(&self) -> bool {
        vstd::pervasive::arbitrary()
    }

    /// `at` is when the first unacknowledged packet times out.
    open spec fn times_out(&self, at: Option<u64>) -> bool {
        true
    }

    /// `at` is when the sender may transmit next, if it is paced.
    open spec fn paced_until(&self, at: Option<u64>) -> bool {
        true
    }

    /// `post` is the state after the sender has noted when a packet has left the NIC.
    open spec fn noted_departure(
        &self,
        post: &Self,
        flow_id: FlowId,
        seq: SeqNum,
        nic_depart_time: u64,
    ) -> bool {
        true
    }

    /// Registers a flow to be sent.
    fn start_flow(&mut self, flow_id: FlowId, dst: EntityId, total_bytes: u64, now: u64)
        ensures
            old(self).started(final(self), flow_id, dst, total_bytes, now),
    ;

    /// Gives the sender a chance to transmit; returns the packets to put on the network.
    fn on_tx_tick(&mut self, now: u64) -> (out: Vec<Packet>)
        ensures
            old(self).ticked(final(self), now, packet_views(out@)),
    ;

    /// Takes in a data packet; returns the control packets to send back.
    fn on_rx_data(&mut self, pkt: &Packet, now: u64) -> (out: Vec<Packet>)
        ensures
            old(self).took_data(final(self), pkt@, now, packet_views(out@)),
    ;

    /// Takes in a control packet.
    fn on_tx_control(&mut self, pkt: &Packet, now: u64)
        ensures
            old(self).took_control(final(self), pkt@, now),
    ;

    /// Whether there are flows and all of them are complete.
    fn all_flows_done(&self) -> (r: bool)
        ensures
            r == self.is_done(),
    ;

    /// Hands out the flows that have completed since the last call, with their finish times.
    fn take_finished_flows(&mut self) -> (out: Vec<(FlowId, u64)>)
        ensures
            old(self).finishes(final(self), out@),
    ;

    /// The counters.
    fn stats(&self) -> (s: ProtocolStats)
        ensures
            s == self.counters(),
    ;

    /// Whether a tick would send something now, apart from timeouts.
    fn has_pending_work(&self) -> (r: bool)
        ensures
            r == self.has_work(),
    ;

    /// When the first unacknowledged packet times out.
    fn next_rto_deadline(&self) -> (r: Option<u64>)
        ensures
            self.times_out(r),
    ;

    /// When a paced sender may transmit next; a sender that is not paced has no such time.
    fn next_tx_time(&self) -> (r: Option<u64>)
        ensures
            self.paced_until(r),
    ;

    /// Tells the sender when a packet has really left the NIC.
    fn update_send_time(&mut self, flow_id: FlowId, seq: SeqNum, nic_depart_time: u64)
        ensures
            old(self).noted_departure(final(self), flow_id, seq, nic_depart_time),
    ;

    /// Posts a message to be sent on a queue pair.
    fn post_send(&mut self, qpn: u32, bytes: u64, now: u64)
        default_ensures
            unchanged(old(self), final(self)),
    {
    }

    /// Posts a message to be written on a queue pair.
    fn post_write(&mut self, qpn: u32, bytes: u64, now: u64)
        default_ensures
            unchanged(old(self), final(self)),
    {
    }

    /// Posts a buffer to receive into on a queue pair.
    fn post_recv(&mut self, qpn: u32, bytes: u64, now: u64)
        default_ensures
            unchanged(old(self), final(self)),
    {
    }

    /// Hands out the messages that have completed since the last call: their number,
    /// their queue pair and when they completed.
    fn take_finished_messages(&mut self) -> (out: Vec<(u64, u32, u64)>)
        default_ensures
            out@.len() == 0,
            unchanged(old(self), final(self)),
    {
        Vec::new()
    }
}

} // verus!
