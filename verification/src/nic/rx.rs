//! The receiving NIC.
//!
//! Each flow keeps the number that it expects next and a bitmap of the packets behind it:
//! bit `i` says whether packet `next_expected + i` has arrived. Every data packet is
//! answered by an acknowledgement that carries both; a packet that opens a new gap is also
//! answered by a negative acknowledgement.
use crate::network::packet::{FlowId, Packet, SeqNum};
use crate::util::{push_le_u32, push_le_u64};
use crate::EntityId;
use std::collections::HashMap;
use vstd::prelude::*;

verus! {

use super::protocol::counted;
use super::sender::nth_id;
use crate::network::packet::{control_packet, packet_views, PacketView};
use crate::util::{le_bytes_u32, le_bytes_u64};
use vstd::arithmetic::div_mod::lemma_div_denominator;
use vstd::arithmetic::power2::{lemma_pow2_adds, lemma_pow2_pos, pow2};
use vstd::bits::lemma_u64_shr_is_div;
use vstd::std_specs::bits::u64_trailing_ones;

broadcast use vstd::std_specs::hash::group_hash_axioms;

/// The counters of a receiving NIC. They stay at their maximum once they reach it.
#[derive(Debug, Clone, Copy)]
pub struct RxStats {
    pub packets_received: u64,
    /// The most packets that a flow has delivered in order.
    pub packets_delivered: u64,
    pub duplicates: u64,
    pub out_of_order: u64,
    pub nacks_sent: u64,
}

/// Counters at zero.
pub open spec fn zero_rx_stats() -> RxStats {
    RxStats {
        packets_received: 0,
        packets_delivered: 0,
        duplicates: 0,
        out_of_order: 0,
        nacks_sent: 0,
    }
}

impl Default for RxStats {
    fn default() -> (s: Self)
        ensures
            s == zero_rx_stats(),
    {
        RxStats {
            packets_received: 0,
            packets_delivered: 0,
            duplicates: 0,
            out_of_order: 0,
            nacks_sent: 0,
        }
    }
}

/// The receiving side of one flow.
#[derive(Debug, Clone, Copy)]
pub struct FlowRxState {
    pub flow_id: FlowId,
    pub next_expected: SeqNum,
    /// Bit `i` says whether packet `next_expected + i` has arrived.
    pub received_bits: u64,
}

/// Bit `i` of `bits`.
pub open spec fn has_bit(bits: u64, i: u64) -> bool {
    (bits >> i) & 1u64 == 1u64
}

/// What the arrival of a packet means to its flow.
pub enum Arrival {
    /// The packet had been delivered before.
    Old,
    /// The packet is the expected one.
    InOrder,
    /// The packet is early and had not arrived before.
    Early,
    /// The packet is early and had arrived before.
    EarlyAgain,
    /// The packet is so early that the bitmap does not reach it.
    TooEarly,
}

impl FlowRxState {
    /// A flow of which nothing has arrived.
    pub fn new(flow_id: FlowId) -> (f: Self)
        ensures
            f == (FlowRxState { flow_id, next_expected: 0, received_bits: 0 }),
    {
        FlowRxState { flow_id, next_expected: 0, received_bits: 0 }
    }

    /// What the arrival of packet `seq` means.
    pub open spec fn arrival(self, seq: SeqNum) -> Arrival {
        if seq < self.next_expected {
            Arrival::Old
        } else if seq == self.next_expected {
            Arrival::InOrder
        } else if seq - self.next_expected >= 64 {
            Arrival::TooEarly
        } else if has_bit(self.received_bits, (seq - self.next_expected) as u64) {
            Arrival::EarlyAgain
        } else {
            Arrival::Early
        }
    }

    /// How many packets behind the expected one have arrived without a gap.
    pub open spec fn run(self) -> u32 {
        u64_trailing_ones(self.received_bits >> 1u64)
    }

    /// The flow after packet `seq` has arrived. The expected packet is delivered together with
    /// the early ones that follow it without a gap.
    pub open spec fn after(self, seq: SeqNum) -> FlowRxState {
        match self.arrival(seq) {
            Arrival::InOrder => FlowRxState {
                next_expected: self.next_expected.saturating_add((1 + self.run()) as u32),
                received_bits: (self.received_bits >> 1u64) >> self.run() as u64,
                ..self
            },
            Arrival::Early => FlowRxState {
                received_bits: self.received_bits | (1u64 << (seq - self.next_expected) as u64),
                ..self
            },
            _ => self,
        }
    }

    /// Packet `s` has arrived, as far as the flow knows.
    pub open spec fn knows(self, s: SeqNum) -> bool {
        s < self.next_expected || (s - self.next_expected < 64 && has_bit(
            self.received_bits,
            (s - self.next_expected) as u64,
        ))
    }

    /// Takes in packet `seq` and says what its arrival means.
    pub fn take_in(&mut self, seq: SeqNum) -> (a: Arrival)
        ensures
            a == old(self).arrival(seq),
            *final(self) == old(self).after(seq),
    {
        if seq < self.next_expected {
            Arrival::Old
        } else if seq == self.next_expected {
            let rest: u64 = self.received_bits >> 1u64;
            let run: u32 = rest.trailing_ones();
            proof {
                lemma_short_run(self.received_bits);
            }
            self.next_expected = self.next_expected.saturating_add(1 + run);
            self.received_bits = rest >> run as u64;
            Arrival::InOrder
        } else {
            let offset: u64 = (seq - self.next_expected) as u64;
            if offset >= 64 {
                Arrival::TooEarly
            } else if (self.received_bits >> offset) & 1u64 == 1u64 {
                Arrival::EarlyAgain
            } else {
                self.received_bits = self.received_bits | (1u64 << offset);
                Arrival::Early
            }
        }
    }
}

/// The bitmap behind its first bit cannot be full.
pub proof fn lemma_short_run(bits: u64)
    ensures
        u64_trailing_ones(bits >> 1u64) < 64,
{
    let rest = bits >> 1u64;
    vstd::std_specs::bits::axiom_u64_trailing_ones(rest);
    assert(rest == bits >> 1u64 ==> rest != 0xffff_ffff_ffff_ffffu64) by (bit_vector);
}

/// Shifting twice is shifting by the sum.
proof fn lemma_shift_twice(bits: u64, a: u64, b: u64, c: u64)
    requires
        c == a + b,
        c < 64,
    ensures
        (bits >> a) >> b == bits >> c,
{
    let (x, y) = (pow2(a as nat), pow2(b as nat));
    lemma_pow2_pos(a as nat);
    lemma_pow2_pos(b as nat);
    lemma_pow2_adds(a as nat, b as nat);
    lemma_u64_shr_is_div(bits, a);
    lemma_u64_shr_is_div(bits >> a, b);
    lemma_u64_shr_is_div(bits, c);
    lemma_div_denominator(bits as int, x as int, y as int);
}

/// A flow knows exactly what has arrived: after packet `seq`, which the bitmap reaches, has
/// arrived, it knows of `seq` and of what it knew before, and of nothing else.
pub proof fn law_bitmap_is_exact(f: FlowRxState, seq: SeqNum, s: SeqNum)
    requires
        seq < f.next_expected + 64,
        f.next_expected <= u32::MAX - 64,
    ensures
        f.after(seq).knows(s) <==> f.knows(s) || s == seq,
{
    let bits = f.received_bits;
    let next = f.next_expected;
    match f.arrival(seq) {
        Arrival::InOrder => {
            let rest = bits >> 1u64;
            let run = u64_trailing_ones(rest);
            lemma_short_run(bits);
            vstd::std_specs::bits::axiom_u64_trailing_ones(rest);
            let r = run as u64;
            let g = f.after(seq);
            if s > next {
                let i = (s - next) as u64;
                if s < g.next_expected {
                    // inside the run
                    let j = (i - 1) as u64;
                    assert((rest >> j) & 1u64 == 1u64);
                    lemma_shift_twice(bits, 1, j, i);
                } else if s - g.next_expected < 64 {
                    let k = (s - g.next_expected) as u64;
                    assert(i == k + r + 1);
                    if i < 64 {
                        let m = (r + 1) as u64;
                        lemma_shift_twice(bits, 1, r, m);
                        lemma_shift_twice(bits, m, k, i);
                    } else {
                        assert((((bits >> 1u64) >> r) >> k) & 1u64 == 0u64) by (bit_vector)
                            requires
                                k + r + 1 >= 64,
                                k < 64,
                                r < 64,
                        ;
                    }
                }
            }
        },
        Arrival::Early => {
            let o = (seq - next) as u64;
            if s >= next && s - next < 64 {
                let i = (s - next) as u64;
                assert(((bits | (1u64 << o)) >> i) & 1u64 == 1u64 <==> (bits >> i) & 1u64 == 1u64
                    || i == o) by (bit_vector)
                    requires
                        i < 64,
                        o < 64,
                ;
            }
        },
        _ => {},
    }
}

/// The state of a receiving flow; a flow is fresh until its first packet arrives.
pub open spec fn rx_of(flows: Map<FlowId, FlowRxState>, id: FlowId) -> FlowRxState {
    if flows.contains_key(id) {
        flows[id]
    } else {
        FlowRxState { flow_id: id, next_expected: 0, received_bits: 0 }
    }
}

/// The payload that tells a sender what has arrived.
pub open spec fn sack_payload(f: FlowRxState) -> Seq<u8> {
    le_bytes_u32(f.next_expected) + le_bytes_u64(f.received_bits)
}

/// Makes the payload that tells a sender what has arrived.
pub fn make_sack(f: &FlowRxState) -> (v: Vec<u8>)
    ensures
        v@ == sack_payload(*f),
{
    let mut v: Vec<u8> = Vec::with_capacity(12);
    push_le_u32(&mut v, f.next_expected);
    push_le_u64(&mut v, f.received_bits);
    assert(v@ =~= sack_payload(*f));
    v
}

/// What a receiving NIC holds.
#[verifier::ext_equal]
pub struct RxNicView {
    pub host_id: EntityId,
    pub flows: Map<FlowId, FlowRxState>,
    pub stats: RxStats,
    pub next_packet_id: u64,
}

impl RxStats {
    /// The counters after a packet has come in, with what its arrival means and the number
    /// that its flow now expects.
    pub open spec fn after(self, a: Arrival, next_expected: SeqNum) -> RxStats {
        RxStats {
            packets_received: counted(self.packets_received, 1),
            packets_delivered: if next_expected > self.packets_delivered {
                next_expected as u64
            } else {
                self.packets_delivered
            },
            duplicates: if a is Old || a is EarlyAgain {
                counted(self.duplicates, 1)
            } else {
                self.duplicates
            },
            out_of_order: if a is Early || a is EarlyAgain || a is TooEarly {
                counted(self.out_of_order, 1)
            } else {
                self.out_of_order
            },
            nacks_sent: if a is Early {
                counted(self.nacks_sent, 1)
            } else {
                self.nacks_sent
            },
        }
    }
}

impl RxNicView {
    /// The NIC after the data packet `pkt` has come in at `now`, and its answer: an
    /// acknowledgement and, if the packet is early and new, a negative acknowledgement.
    pub open spec fn received(self, pkt: PacketView, now: u64) -> (RxNicView, Seq<PacketView>) {
        let before = rx_of(self.flows, pkt.flow_id);
        let a = before.arrival(pkt.seq);
        let flow = before.after(pkt.seq);
        let ack = control_packet(
            self.next_packet_id,
            self.next_packet_id,
            pkt.flow_id,
            flow.next_expected,
            self.host_id,
            pkt.src,
            pkt.ecn,
            0,
            sack_payload(flow),
            now,
        );
        let nack_id = nth_id(self.next_packet_id, 1);
        let nack = control_packet(
            nack_id,
            nack_id,
            pkt.flow_id,
            pkt.seq,
            self.host_id,
            pkt.src,
            false,
            1,
            sack_payload(flow),
            now,
        );
        let out = if a is Early {
            seq![ack, nack]
        } else {
            seq![ack]
        };
        (
            RxNicView {
                flows: self.flows.insert(pkt.flow_id, flow),
                stats: self.stats.after(a, flow.next_expected),
                next_packet_id: nth_id(self.next_packet_id, out.len() as int),
                ..self
            },
            out,
        )
    }
}

/// Takes in a data packet for a host and answers it.
pub fn receive_data(
    host_id: EntityId,
    flows: &mut HashMap<FlowId, FlowRxState>,
    stats: &mut RxStats,
    next_packet_id: &mut u64,
    pkt: &Packet,
    now: u64,
) -> (out: Vec<Packet>)
    ensures
        ({
            let pre = RxNicView {
                host_id,
                flows: old(flows)@,
                stats: *old(stats),
                next_packet_id: *old(next_packet_id),
            };
            let post = RxNicView {
                host_id,
                flows: final(flows)@,
                stats: *final(stats),
                next_packet_id: *final(next_packet_id),
            };
            (post, packet_views(out@)) == pre.received(pkt@, now)
        }),
{
    let ghost pre = RxNicView {
        host_id,
        flows: flows@,
        stats: *stats,
        next_packet_id: *next_packet_id,
    };
    let mut flow: FlowRxState = match flows.get(&pkt.flow_id) {
        Some(f) => *f,
        None => FlowRxState::new(pkt.flow_id),
    };
    let a = flow.take_in(pkt.seq);
    flows.insert(pkt.flow_id, flow);
    stats.packets_received = stats.packets_received.saturating_add(1);
    if flow.next_expected as u64 > stats.packets_delivered {
        stats.packets_delivered = flow.next_expected as u64;
    }
    let mut out: Vec<Packet> = Vec::new();
    let id: u64 = *next_packet_id;
    *next_packet_id = id.wrapping_add(1);
    out.push(
        Packet::control(
            id,
            id,
            pkt.flow_id,
            flow.next_expected,
            host_id,
            pkt.src,
            pkt.ecn,
            0,
            make_sack(&flow),
            now,
        ),
    );
    match a {
        Arrival::Old => {
            stats.duplicates = stats.duplicates.saturating_add(1);
        },
        Arrival::InOrder => {},
        Arrival::Early => {
            stats.out_of_order = stats.out_of_order.saturating_add(1);
            stats.nacks_sent = stats.nacks_sent.saturating_add(1);
            let nack_id: u64 = *next_packet_id;
            *next_packet_id = nack_id.wrapping_add(1);
            out.push(
                Packet::control(
                    nack_id,
                    nack_id,
                    pkt.flow_id,
                    pkt.seq,
                    host_id,
                    pkt.src,
                    false,
                    1,
                    make_sack(&flow),
                    now,
                ),
            );
        },
        Arrival::EarlyAgain => {
            stats.out_of_order = stats.out_of_order.saturating_add(1);
            stats.duplicates = stats.duplicates.saturating_add(1);
        },
        Arrival::TooEarly => {
            stats.out_of_order = stats.out_of_order.saturating_add(1);
        },
    }
    assert(packet_views(out@) =~= pre.received(pkt@, now).1);
    out
}

/// The receiving NIC of a host.
pub struct RxNic {
    pub host_id: EntityId,
    pub flows: HashMap<FlowId, FlowRxState>,
    pub stats: RxStats,
    pub next_packet_id: u64,
}

impl View for RxNic {
    type V = RxNicView;

    open spec fn view(&self) -> RxNicView {
        RxNicView {
            host_id: self.host_id,
            flows: self.flows@,
            stats: self.stats,
            next_packet_id: self.next_packet_id,
        }
    }
}

/// The number of the first control packet of a receiving NIC.
pub const FIRST_CONTROL_ID: u64 = 10_000_000_000;

impl RxNic {
    /// A NIC that nothing has arrived at.
    pub fn new(host_id: EntityId) -> (r: Self)
        ensures
            r@ == (RxNicView {
                host_id,
                flows: Map::empty(),
                stats: zero_rx_stats(),
                next_packet_id: FIRST_CONTROL_ID,
            }),
    {
        let r = RxNic {
            host_id,
            flows: HashMap::new(),
            stats: RxStats::default(),
            next_packet_id: FIRST_CONTROL_ID,
        };
        assert(r@.flows =~= Map::empty());
        r
    }

    /// Takes in a data packet and answers it.
    pub fn on_data(&mut self, pkt: &Packet, now: u64) -> (out: Vec<Packet>)
        ensures
            (final(self)@, packet_views(out@)) == old(self)@.received(pkt@, now),
    {
        receive_data(
            self.host_id,
            &mut self.flows,
            &mut self.stats,
            &mut self.next_packet_id,
            pkt,
            now,
        )
    }
}

} // verus!
