//! Events at switches.
//!
//! A packet that arrives is routed and queued. A port that is free sends its next packet; a port
//! that is busy is served again when it becomes free.
use super::SimRunner;
use crate::engine::EventKind;
use crate::network::Packet;
use crate::nic::Protocol;
use crate::EntityId;
use vstd::prelude::*;

verus! {

use super::state::{index_entry, lemma_last_switch_bounds, lemma_with_switch_wf};
use crate::network::switch::{
    law_dequeue_keeps_shape, law_ingress_keeps_shape, PortView,
};

impl<P: Protocol> SimRunner<P> {
    /// The position of a switch.
    pub(crate) fn find_switch(&self, id: EntityId) -> (r: Option<usize>)
        requires
            self.wf(),
        ensures
            match self@.switch_at(id) {
                Some(i) => r is Some && r->0 == i && 0 <= i < self.topo.switches@.len(),
                None => r is None,
            },
    {
        let n: usize = self.topo.switches.len();
        proof {
            lemma_last_switch_bounds(self@.topo.switches, id, n as int);
        }
        if (id as u64) < self.switch_index.len() as u64 {
            assert(index_entry(self@.index, self@.topo.switches, id as int));
            let i: usize = self.switch_index[id as usize];
            if i == usize::MAX {
                None
            } else {
                Some(i)
            }
        } else {
            None
        }
    }

    /// Gives the port of a switch the chance to send.
    pub fn try_egress(&mut self, sw_idx: usize, port: u8, now: u64)
        requires
            old(self).wf(),
            sw_idx < old(self)@.topo.switches.len(),
            port < old(self)@.topo.switches[sw_idx as int].ports.len(),
        ensures
            final(self).wf(),
            final(self)@ == old(self)@.egressed(sw_idx as int, port, now),
            final(self).protocols@ == old(self).protocols@,
            old(self)@.same_setting(final(self)@),
    {
        let ghost v0 = self@;
        let ghost i = sw_idx as int;
        let ghost sw0 = v0.topo.switches[i];
        let ghost p0 = sw0.ports[port as int];
        proof {
            assert(sw0.wf() && v0.topo.ports_linked(i));
            assert(p0.link_id < v0.topo.links.len());
        }
        let sw = &self.topo.switches[sw_idx];
        let sw_id: EntityId = sw.id;
        let link_id: u32 = sw.port(port).link_id;
        let busy_until: u64 = sw.port(port).busy_until;
        assert(sw@ == sw0);
        if busy_until <= now {
            let next = self.topo.switches[sw_idx].dequeue(port);
            proof {
                law_dequeue_keeps_shape(sw0, port as int);
                lemma_with_switch_wf(v0, i, sw0.after_dequeue(port as int).0);
                assert(self@ =~= v0.with_switch(i, sw0.after_dequeue(port as int).0));
            }
            match next {
                None => {
                    assert(self@ =~= v0);
                },
                Some(pkt) => {
                    let ghost rest = sw0.after_dequeue(port as int).0;
                    let size: u32 = pkt.size;
                    let dst: EntityId = pkt.dst;
                    let link = *self.topo.links.get(link_id);
                    assert(v0.topo.links[link_id as int].bandwidth_bps > 0);
                    let done: u64 = now.saturating_add(link.serialization_ns(size));
                    let p = self.topo.switches[sw_idx].port_mut(port);
                    p.busy_until = done;
                    let again: bool = p.queue_bytes > 0 && !p.egress_pending;
                    if again {
                        p.egress_pending = true;
                    }
                    let ghost left = PortView { busy_until: done, ..rest.ports[port as int] };
                    let ghost served = rest.with_port(
                        port as int,
                        PortView { egress_pending: left.egress_pending || again, ..left },
                    );
                    proof {
                        assert(rest.ports[port as int].wf());
                        assert(self@.topo.switches[i] =~= served);
                        assert(self@ =~= v0.with_switch(i, served));
                        assert(served.wf());
                        lemma_with_switch_wf(v0, i, served);
                    }
                    self.put_on_wire(link_id, pkt, now, link.from, link.to);
                    if again {
                        self.post(
                            done,
                            EventKind::PacketDepart { packet_id: 0, dst, port },
                            sw_id,
                        );
                    }
                    assert(self@ =~= v0.egressed(i, port, now));
                },
            }
        } else {
            let p = self.topo.switches[sw_idx].port_mut(port);
            if !p.egress_pending {
                p.egress_pending = true;
                let ghost served = sw0.with_port(
                    port as int,
                    PortView { egress_pending: true, ..p0 },
                );
                proof {
                    assert(p0.wf());
                    assert(self@.topo.switches[i] =~= served);
                    assert(self@ =~= v0.with_switch(i, served));
                    assert(served.wf());
                    lemma_with_switch_wf(v0, i, served);
                }
                self.post(
                    busy_until,
                    EventKind::PacketDepart { packet_id: 0, dst: 0, port },
                    sw_id,
                );
            } else {
                proof {
                    assert(self@.topo.switches[i] =~= sw0);
                    assert(self@.topo.switches =~= v0.topo.switches);
                    assert(self@ =~= v0);
                }
            }
        }
    }

    /// Takes in a packet at a switch.
    pub fn handle_arrive_at_switch(&mut self, pkt: Packet, switch_id: EntityId, now: u64)
        requires
            old(self).wf(),
        ensures
            final(self).wf(),
            final(self)@ == old(self)@.arrived_at_switch(pkt, switch_id, now),
            final(self).protocols@ == old(self).protocols@,
            old(self)@.same_setting(final(self)@),
    {
        let ghost v0 = self@;
        match self.find_switch(switch_id) {
            None => {},
            Some(sw_idx) => {
                let ghost i = sw_idx as int;
                let ghost sw0 = v0.topo.switches[i];
                let pkt_id: u64 = pkt.id;
                let hash: u32 = pkt.src ^ pkt.dst ^ pkt.flow_id;
                proof {
                    assert(sw0.wf() && v0.topo.ports_linked(i));
                }
                let (port, dropped) = self.topo.switches[sw_idx].ingress(pkt, hash);
                let ghost sw1 = sw0.after_ingress(pkt, hash).0;
                proof {
                    law_ingress_keeps_shape(sw0, pkt, hash);
                    lemma_with_switch_wf(v0, i, sw1);
                    assert(self@ =~= v0.with_switch(i, sw1));
                }
                if dropped {
                    self.packet_buf.remove(pkt_id);
                    assert(self@ =~= v0.arrived_at_switch(pkt, switch_id, now));
                } else {
                    match port {
                        None => {},
                        Some(port) => self.try_egress(sw_idx, port, now),
                    }
                }
            },
        }
    }

    /// Serves a port of a switch that has become free.
    pub fn handle_packet_depart(&mut self, target: EntityId, port: u8, now: u64)
        requires
            old(self).wf(),
        ensures
            final(self).wf(),
            final(self)@ == old(self)@.port_freed(target, port, now),
            final(self).protocols@ == old(self).protocols@,
            old(self)@.same_setting(final(self)@),
    {
        let ghost v0 = self@;
        match self.find_switch(target) {
            None => {},
            Some(sw_idx) => {
                let ghost i = sw_idx as int;
                let ghost sw0 = v0.topo.switches[i];
                assert(self.topo.switches@[i]@ == sw0);
                if (port as usize) < self.topo.switches[sw_idx].ports.len() {
                    let p = self.topo.switches[sw_idx].port_mut(port);
                    let has_queue: bool = p.queue_bytes > 0;
                    p.egress_pending = false;
                    let ghost p0 = sw0.ports[port as int];
                    let ghost freed = sw0.with_port(
                        port as int,
                        PortView { egress_pending: false, ..p0 },
                    );
                    proof {
                        assert(sw0.wf() && v0.topo.ports_linked(i));
                        assert(p0.wf());
                        assert(self@.topo.switches[i] =~= freed);
                        assert(self@ =~= v0.with_switch(i, freed));
                        assert(freed.wf());
                        lemma_with_switch_wf(v0, i, freed);
                    }
                    if has_queue {
                        self.try_egress(sw_idx, port, now);
                    }
                }
            },
        }
    }
}

} // verus!
