//! What can be observed of a window-based transport, and what the calls of the
//! protocol interface make of it.
use crate::network::packet::{FlowId, PacketId};
use crate::EntityId;
use vstd::prelude::*;

verus! {

use super::protocol::{zero_stats, ProtocolStats};
use super::receiver::{rx_of, RxView};
use super::sender::{
    all_outgoing, flows_after, nth_id, resent_among, stamped, TickParams, TxFlow,
};
use crate::network::packet::{control_packet, PacketView};

/// A window-based transport whose sending flows look like `T`.
#[verifier::ext_equal]
#[verifier::reject_recursive_types(T)]
pub struct EndpointView<T> {
    pub host_id: EntityId,
    pub tx: Map<FlowId, T>,
    pub rx: Map<FlowId, RxView>,
    pub stats: ProtocolStats,
    pub next_packet_id: PacketId,
    pub init_cwnd: u32,
    pub max_cwnd: u32,
    pub min_cwnd: u32,
    pub rto_ns: u64,
    /// The completed flows that have not been handed out yet.
    pub finished: Seq<(FlowId, u64)>,
}

/// A transport without flows, with the default parameters.
pub open spec fn fresh_endpoint<T>(host_id: EntityId) -> EndpointView<T> {
    EndpointView {
        host_id,
        tx: Map::empty(),
        rx: Map::empty(),
        stats: zero_stats(),
        next_packet_id: 1,
        init_cwnd: 16,
        max_cwnd: 256,
        min_cwnd: 1,
        rto_ns: 100_000,
        finished: Seq::empty(),
    }
}

impl<T> EndpointView<T> {
    /// The parameters of a tick at `now`.
    pub open spec fn params(self, now: u64) -> TickParams {
        TickParams {
            now,
            rto_ns: self.rto_ns,
            init_cwnd: self.init_cwnd,
            min_cwnd: self.min_cwnd,
            routable: true,
            strict: false,
        }
    }

    /// The transport with the flow `id` set to `flow`.
    pub open spec fn with_flow(self, id: FlowId, flow: T) -> EndpointView<T> {
        EndpointView { tx: self.tx.insert(id, flow), ..self }
    }

    /// The transport after the flow that calls itself `flow_id` has completed at `now`.
    pub open spec fn completed(self, flow_id: FlowId, now: u64) -> EndpointView<T> {
        EndpointView {
            stats: self.stats.after_completing(1),
            finished: self.finished.push((flow_id, now)),
            ..self
        }
    }

    /// The transport after the data packet `pkt` has come in at `now`, and its answer: an
    /// acknowledgement of everything that has arrived without a gap.
    pub open spec fn received(self, pkt: PacketView, now: u64) -> (
        EndpointView<T>,
        Seq<PacketView>,
    ) {
        let flow = rx_of(self.rx, pkt.flow_id).after(pkt.seq);
        (
            EndpointView {
                rx: self.rx.insert(pkt.flow_id, flow),
                stats: self.stats.after_receiving(),
                next_packet_id: nth_id(self.next_packet_id, 1),
                ..self
            },
            seq![
                control_packet(
                    self.next_packet_id,
                    self.next_packet_id,
                    pkt.flow_id,
                    flow.next_expected,
                    self.host_id,
                    pkt.src,
                    pkt.ecn,
                    0,
                    Seq::empty(),
                    now,
                ),
            ],
        )
    }
}

/// The transport after a tick at `now`, and the packets that it sends.
pub open spec fn endpoint_ticked<F: TxFlow>(e: EndpointView<F::V>, now: u64) -> (
    EndpointView<F::V>,
    Seq<PacketView>,
) {
    let p = e.params(now);
    let sends = all_outgoing::<F>(e.tx, p);
    (
        EndpointView {
            tx: flows_after::<F>(e.tx, p),
            stats: e.stats.after_sending(sends.len() as int, resent_among(sends)),
            next_packet_id: nth_id(e.next_packet_id, sends.len() as int),
            ..e
        },
        stamped(sends, e.next_packet_id, e.host_id, now),
    )
}

} // verus!
