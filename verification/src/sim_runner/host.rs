//! Events at hosts.
//!
//! A tick lets the protocol send: its packets are copied to the NIC one after the other, and go
//! onto the link when that is free. A data packet that arrives is given to the protocol, whose
//! replies are sent at once; a control packet that arrives may complete flows. After each of them
//! the next action of the host is planned.
use super::{NicSelector, SimRunner};
use crate::engine::{Event, EventKind};
use crate::network::packet::{FlowId, Packet, PacketKind, SeqNum};
use crate::nic::Protocol;
use crate::topology::HostUplink;
use crate::util::reversed;
use crate::EntityId;
use vstd::prelude::*;

verus! {

use super::state::{is_timeout, with_finished, RunnerView};
use crate::engine::queue::law_cancel_filters;
use crate::network::packet::packet_views;

/// `post` is the protocol after it was told when a packet left.
pub open spec fn told_one<P: Protocol>(pre: P, post: P, departure: (FlowId, SeqNum, u64)) -> bool {
    pre.noted_departure(&post, departure.0, departure.1, departure.2)
}

/// `post` is the protocol after it was told the first `n` of `departures`.
pub open spec fn told<P: Protocol>(
    pre: P,
    post: P,
    departures: Seq<(FlowId, SeqNum, u64)>,
    n: nat,
) -> bool
    decreases n,
{
    if n == 0 {
        post == pre
    } else {
        exists|mid: P| #[trigger]
            told_one(mid, post, departures[n - 1]) && told(pre, mid, departures, (n - 1) as nat)
    }
}

proof fn lemma_told_one_more<P: Protocol>(
    pre: P,
    mid: P,
    post: P,
    departures: Seq<(FlowId, SeqNum, u64)>,
    n: nat,
)
    requires
        told(pre, mid, departures, n),
        told_one(mid, post, departures[n as int]),
    ensures
        told(pre, post, departures, n + 1),
{
    assert(told_one(mid, post, departures[(n + 1) - 1]));
}

/// What a protocol says of its next transmission and its next timeout.
pub open spec fn answers<P: Protocol>(p: P, next_tx: Option<u64>, deadline: Option<u64>) -> bool {
    &&& p.paced_until(next_tx)
    &&& p.times_out(deadline)
}

/// The flow of the first packet.
pub open spec fn first_flow(pkts: Seq<Packet>) -> Option<FlowId> {
    if pkts.len() > 0 {
        Some(pkts[0].flow_id)
    } else {
        None
    }
}

/// What a tick of a host does when its protocol sends `pkts`, becomes `sent` by that and `end`
/// when it was told when they left, and then answers `next_tx` and `deadline`.
pub open spec fn ticks_with<P: Protocol>(
    pre: RunnerView,
    post: RunnerView,
    before: P,
    after: P,
    host: EntityId,
    now: u64,
    pkts: Seq<Packet>,
    sent: P,
    next_tx: Option<u64>,
    deadline: Option<u64>,
) -> bool {
    let (chosen, up) = pre.picked(host, first_flow(pkts));
    &&& before.ticked(&sent, now, packet_views(pkts))
    &&& match up {
        None => post == chosen && after == sent,
        Some(up) => {
            &&& told(sent, after, chosen.departures(host, up, pkts, now), pkts.len())
            &&& answers(after, next_tx, deadline)
            &&& post == chosen.host_sent_all(host, up, pkts, now, pkts.len()).next_action(
                host,
                chosen.last_departure(host, up, pkts, now, pkts.len()),
                pre.tx_tick_ns,
                after.has_work(),
                next_tx,
                deadline,
            )
        },
    }
}

/// What a tick of a host does.
pub open spec fn ticks<P: Protocol>(
    pre: RunnerView,
    post: RunnerView,
    before: P,
    after: P,
    host: EntityId,
    now: u64,
) -> bool {
    exists|pkts: Seq<Packet>, sent: P, next_tx: Option<u64>, deadline: Option<u64>| #[trigger]
        ticks_with(pre, post, before, after, host, now, pkts, sent, next_tx, deadline)
}

/// What a data packet does at a host whose protocol replies `replies` at `now` and then answers
/// `next_tx` and `deadline`.
pub open spec fn data_arrives_with<P: Protocol>(
    pre: RunnerView,
    post: RunnerView,
    before: P,
    after: P,
    pkt: Packet,
    host: EntityId,
    now: u64,
    replies: Seq<Packet>,
    next_tx: Option<u64>,
    deadline: Option<u64>,
) -> bool {
    let (chosen, up) = pre.picked(host, Some(pkt.flow_id));
    &&& before.took_data(&after, pkt@, now, packet_views(replies))
    &&& match up {
        None => post == chosen,
        Some(up) => {
            &&& answers(after, next_tx, deadline)
            &&& post == chosen.replied_all(host, up, replies, now, replies.len()).next_action(
                host,
                now,
                0,
                after.has_work(),
                next_tx,
                deadline,
            )
        },
    }
}

/// What a control packet does at a host whose protocol becomes `taken` by it, hands out the flows
/// `finished` and then answers `next_tx` and `deadline`.
pub open spec fn control_arrives_with<P: Protocol>(
    pre: RunnerView,
    post: RunnerView,
    before: P,
    after: P,
    pkt: Packet,
    host: EntityId,
    now: u64,
    taken: P,
    finished: Seq<(FlowId, u64)>,
    next_tx: Option<u64>,
    deadline: Option<u64>,
) -> bool {
    &&& before.took_control(&taken, pkt@, now)
    &&& taken.finishes(&after, finished)
    &&& answers(after, next_tx, deadline)
    &&& post == (RunnerView {
        fcts: with_finished(pre.fcts, finished, finished.len()),
        ..pre
    }).next_action(host, now, 0, after.has_work(), next_tx, deadline)
}

/// What a packet does at a host that processes it at `now`.
pub open spec fn arrives<P: Protocol>(
    pre: RunnerView,
    post: RunnerView,
    before: P,
    after: P,
    pkt: Packet,
    host: EntityId,
    now: u64,
) -> bool {
    match pkt.kind {
        PacketKind::Data => exists|
            replies: Seq<Packet>,
            next_tx: Option<u64>,
            deadline: Option<u64>,
        | #[trigger]
            data_arrives_with(
                pre,
                post,
                before,
                after,
                pkt,
                host,
                now,
                replies,
                next_tx,
                deadline,
            ),
        PacketKind::Control(_) => exists|
            taken: P,
            finished: Seq<(FlowId, u64)>,
            next_tx: Option<u64>,
            deadline: Option<u64>,
        | #[trigger]
            control_arrives_with(
                pre,
                post,
                before,
                after,
                pkt,
                host,
                now,
                taken,
                finished,
                next_tx,
                deadline,
            ),
    }
}

impl<P: Protocol> SimRunner<P> {
    /// Picks the connection that a host uses for its next packets.
    pub fn pick_uplink(&mut self, host: EntityId, hint_flow_id: Option<FlowId>) -> (r: Option<
        HostUplink,
    >)
        requires
            old(self).wf(),
            host < old(self)@.topo.hosts.len(),
        ensures
            final(self).wf(),
            (final(self)@, r) == old(self)@.picked(host, hint_flow_id),
            r is Some ==> r->0.link_to_switch < old(self)@.topo.links.len(),
            final(self).protocols@ == old(self).protocols@,
            old(self)@.same_setting(final(self)@),
    {
        let ghost mine = |u: HostUplink| u.host == host;
        let ghost all = self@.topo.uplinks;
        let mut ups: Vec<HostUplink> = Vec::new();
        let mut i: usize = 0;
        assert(all.take(0).filter(mine) =~= Seq::empty()) by {
            reveal(Seq::filter);
        }
        while i < self.topo.host_uplink.len()
            invariant
                i <= self.topo.host_uplink@.len(),
                *self == *old(self),
                all == self@.topo.uplinks,
                mine == (|u: HostUplink| u.host == host),
                ups@ == all.take(i as int).filter(mine),
            decreases self.topo.host_uplink@.len() - i,
        {
            proof {
                assert(all.take(i + 1) =~= all.take(i as int).push(all[i as int]));
                all.take(i as int).lemma_filter_push(all[i as int], mine);
            }
            if self.topo.host_uplink[i].host == host {
                ups.push(self.topo.host_uplink[i]);
            }
            i = i + 1;
        }
        assert(all.take(i as int) =~= all);
        assert(ups@ == self@.uplinks_of(host));
        let n: usize = ups.len();
        if n == 0 {
            return None;
        }
        let at: usize = match self.nic_selector {
            NicSelector::First => 0,
            NicSelector::FlowHash => {
                let id: u64 = match hint_flow_id {
                    Some(id) => id as u64,
                    None => 0,
                };
                (id % (n as u64)) as usize
            },
            NicSelector::RoundRobin => {
                let h: usize = host as usize;
                let k: usize = self.nic_rr_counters[h] % n;
                self.nic_rr_counters[h] = k + 1;
                k
            },
        };
        proof {
            assert(ups@.contains(ups@[at as int]));
            all.lemma_filter_contains_rev(mine, ups@[at as int]);
            let k = all.index_of(ups@[at as int]);
            assert(all[k] == ups@[at as int]);
            assert(self@ =~= old(self)@.picked(host, hint_flow_id).0);
        }
        Some(ups[at])
    }

    /// Sends a packet of a host and returns when it leaves the NIC.
    fn send_one(&mut self, host: EntityId, up: HostUplink, pkt: Packet, now: u64) -> (at: u64)
        requires
            old(self).wf(),
            host < old(self)@.topo.hosts.len(),
            up.link_to_switch < old(self)@.topo.links.len(),
        ensures
            final(self).wf(),
            final(self)@ == old(self)@.host_sent(host, up, pkt, now),
            at == old(self)@.nic_time(host, pkt.size, now),
            final(self).protocols@ == old(self).protocols@,
            old(self)@.same_setting(final(self)@),
    {
        let ghost v0 = self@;
        let mut pkt = pkt;
        let ghost pkt0 = pkt;
        let h: usize = host as usize;
        let link_id: u32 = up.link_to_switch;
        let fixed: u64 = self.host_delays.tx_fixed_overhead(host);
        let dma: u64 = self.host_delays.tx_dma_time(host, pkt.size);
        let ready: u64 = now.saturating_add(fixed);
        let busy: u64 = self.host_tx_busy_until[h];
        let dma_start: u64 = if ready > busy {
            ready
        } else {
            busy
        };
        let depart: u64 = dma_start.saturating_add(dma);
        self.host_total_fixed_overhead_ns = self.host_total_fixed_overhead_ns.saturating_add(fixed);
        self.host_total_dma_time_ns = self.host_total_dma_time_ns.saturating_add(dma);
        self.host_total_queue_wait_ns = self.host_total_queue_wait_ns.saturating_add(
            dma_start.saturating_sub(ready),
        );
        let depth: u64 = busy.saturating_sub(now);
        if depth > self.host_max_queue_depth {
            self.host_max_queue_depth = depth;
        }
        self.host_tx_busy_until[h] = depart;
        pkt.depart_time = depart;
        let link_busy: u64 = self.link_busy_until[link_id as usize];
        let start: u64 = if link_busy > depart {
            link_busy
        } else {
            depart
        };
        self.put_on_wire(link_id, pkt, start, host, up.edge_switch);
        assert(self@ =~= v0.host_sent(host, up, pkt0, now));
        depart
    }

    /// Sends the packets of a host. Returns when each of them leaves the NIC, by flow and
    /// sequence number, and when the last of them does.
    pub fn transmit(&mut self, host: EntityId, up: HostUplink, pkts: Vec<Packet>, now: u64) -> (r: (
        Vec<(FlowId, SeqNum, u64)>,
        u64,
    ))
        requires
            old(self).wf(),
            host < old(self)@.topo.hosts.len(),
            up.link_to_switch < old(self)@.topo.links.len(),
        ensures
            final(self).wf(),
            final(self)@ == old(self)@.host_sent_all(host, up, pkts@, now, pkts@.len()),
            r.0@ == old(self)@.departures(host, up, pkts@, now),
            r.1 == old(self)@.last_departure(host, up, pkts@, now, pkts@.len()),
            final(self).protocols@ == old(self).protocols@,
            old(self)@.same_setting(final(self)@),
    {
        let ghost v0 = self@;
        let ghost all = pkts@;
        let n: usize = pkts.len();
        let mut rest = reversed(pkts);
        let mut departures: Vec<(FlowId, SeqNum, u64)> = Vec::new();
        let mut last: u64 = now;
        let mut k: usize = 0;
        while k < n
            invariant
                k <= n,
                n == all.len(),
                rest@.len() == n - k,
                forall|i: int| 0 <= i < rest@.len() ==> #[trigger] rest@[i] == all[n - 1 - i],
                self.wf(),
                host < v0.topo.hosts.len(),
                up.link_to_switch < v0.topo.links.len(),
                v0 == old(self)@,
                self@ == v0.host_sent_all(host, up, all, now, k as nat),
                departures@ =~= v0.departures(host, up, all, now).take(k as int),
                last == v0.last_departure(host, up, all, now, k as nat),
                self.protocols@ == old(self).protocols@,
                v0.same_setting(self@),
            decreases n - k,
        {
            if let Some(pkt) = rest.pop() {
                assert(pkt == all[k as int]);
                let flow_id: FlowId = pkt.flow_id;
                let seq: SeqNum = pkt.seq;
                let at: u64 = self.send_one(host, up, pkt, now);
                departures.push((flow_id, seq, at));
                if at > last {
                    last = at;
                }
            }
            k = k + 1;
        }
        assert(departures@ =~= v0.departures(host, up, all, now));
        (departures, last)
    }

    /// Sends the replies of a host at `now`.
    pub fn send_replies(&mut self, host: EntityId, up: HostUplink, replies: Vec<Packet>, now: u64)
        requires
            old(self).wf(),
            up.link_to_switch < old(self)@.topo.links.len(),
        ensures
            final(self).wf(),
            final(self)@ == old(self)@.replied_all(host, up, replies@, now, replies@.len()),
            final(self).protocols@ == old(self).protocols@,
            old(self)@.same_setting(final(self)@),
    {
        let ghost v0 = self@;
        let ghost all = replies@;
        let n: usize = replies.len();
        let mut rest = reversed(replies);
        let mut k: usize = 0;
        while k < n
            invariant
                k <= n,
                n == all.len(),
                rest@.len() == n - k,
                forall|i: int| 0 <= i < rest@.len() ==> #[trigger] rest@[i] == all[n - 1 - i],
                self.wf(),
                up.link_to_switch < v0.topo.links.len(),
                v0 == old(self)@,
                self@ == v0.replied_all(host, up, all, now, k as nat),
                self.protocols@ == old(self).protocols@,
                v0.same_setting(self@),
            decreases n - k,
        {
            if let Some(popped) = rest.pop() {
                assert(popped == all[k as int]);
                let mut pkt = popped;
                pkt.depart_time = now;
                let link_busy: u64 = self.link_busy_until[up.link_to_switch as usize];
                let start: u64 = if link_busy > now {
                    link_busy
                } else {
                    now
                };
                self.put_on_wire(up.link_to_switch, pkt, start, host, up.edge_switch);
            }
            k = k + 1;
        }
    }

    /// Records flows that have finished; the first finish of a flow counts.
    pub fn record_finished(&mut self, finished: &Vec<(FlowId, u64)>)
        requires
            old(self).wf(),
        ensures
            final(self).wf(),
            final(self)@ == (RunnerView {
                fcts: with_finished(old(self)@.fcts, finished@, finished@.len()),
                ..old(self)@
            }),
            final(self).protocols@ == old(self).protocols@,
            old(self)@.same_setting(final(self)@),
    {
        let ghost v0 = self@;
        let mut k: usize = 0;
        while k < finished.len()
            invariant
                k <= finished@.len(),
                v0 == old(self)@,
                self@ == (RunnerView {
                    fcts: with_finished(v0.fcts, finished@, k as nat),
                    ..v0
                }),
                self.protocols@ == old(self).protocols@,
            decreases finished@.len() - k,
        {
            let (id, at) = finished[k];
            if (id as u64) < self.fcts.len() as u64 {
                let i: usize = id as usize;
                if self.fcts[i].finish_ns == 0 {
                    let mut f = self.fcts[i];
                    f.finish_ns = at;
                    self.fcts[i] = f;
                }
            }
            k = k + 1;
            assert(self@ =~= (RunnerView {
                fcts: with_finished(v0.fcts, finished@, k as nat),
                ..v0
            }));
        }
    }

    /// Removes the pending timeouts of a host and returns how many there were.
    pub fn cancel_host_timeouts(&mut self, host: EntityId) -> (removed: usize)
        requires
            old(self).wf(),
        ensures
            final(self).wf(),
            final(self)@ == old(self)@.timeouts_cancelled(host),
            removed == old(self)@.sim.events.len() - final(self)@.sim.events.len(),
            final(self).protocols@ == old(self).protocols@,
            old(self)@.same_setting(final(self)@),
    {
        let is_mine = |ev: &Event| -> (r: bool)
            ensures
                r == is_timeout(*ev, host),
            {
                match ev.kind {
                    EventKind::Timeout { .. } => ev.target == host,
                    _ => false,
                }
            };
        let ghost predicate = is_mine;
        let removed: usize = self.sim.cancel_where(is_mine);
        proof {
            law_cancel_filters(
                old(self)@.sim.events,
                self@.sim.events,
                predicate,
                |ev: Event| is_timeout(ev, host),
            );
            let a = old(self)@.sim.events.filter(|ev: Event| !is_timeout(ev, host));
            let not = |ev: Event| !((|ev: Event| is_timeout(ev, host))(ev));
            assert(old(self)@.sim.events.filter(not) =~= a) by {
                broadcast use vstd::multiset::group_multiset_axioms;

            }
            assert(self@ =~= old(self)@.timeouts_cancelled(host));
        }
        removed
    }

    /// Plans the next action of a host whose protocol has work or not, may send at `next_tx` and
    /// has a packet that times out at `deadline`.
    pub fn plan_next_action(
        &mut self,
        host: EntityId,
        now: u64,
        tick_delay: u64,
        has_work: bool,
        next_tx: Option<u64>,
        deadline: Option<u64>,
    )
        requires
            old(self).wf(),
            host < old(self)@.topo.hosts.len(),
        ensures
            final(self).wf(),
            final(self)@ == old(self)@.next_action(
                host,
                now,
                tick_delay,
                has_work,
                next_tx,
                deadline,
            ),
            final(self).protocols@ == old(self).protocols@,
            old(self)@.same_setting(final(self)@),
    {
        let h: usize = host as usize;
        if has_work {
            self.pending_timeout_deadline[h] = u64::MAX;
            assert(self@ =~= old(self)@.with_deadline(host, u64::MAX));
            self.cancel_host_timeouts(host);
            let tick: u64 = match next_tx {
                Some(t) => t,
                None => now.saturating_add(tick_delay),
            };
            let at: u64 = if tick > now {
                tick
            } else {
                now
            };
            self.post(at, EventKind::TxTick { host }, host);
        } else {
            match deadline {
                Some(at) => {
                    let pending: u64 = self.pending_timeout_deadline[h];
                    if pending != u64::MAX && pending <= at {
                        return;
                    }
                    self.cancel_host_timeouts(host);
                    let ghost mid = self@;
                    self.pending_timeout_deadline[h] = at;
                    assert(self@ =~= mid.with_deadline(host, at));
                    self.post(at, EventKind::Timeout { timer_id: 0 }, host);
                },
                None => {
                    self.pending_timeout_deadline[h] = u64::MAX;
                    assert(self@ =~= old(self)@.with_deadline(host, u64::MAX));
                    self.cancel_host_timeouts(host);
                },
            }
        }
    }

    /// Asks the protocol of a host and plans the next action of the host.
    fn schedule_host_next_action(&mut self, host: EntityId, now: u64, tick_delay: u64) -> (r: Ghost<
        (Option<u64>, Option<u64>),
    >)
        requires
            old(self).wf(),
            host < old(self)@.topo.hosts.len(),
        ensures
            final(self).wf(),
            answers(old(self).protocols@[host as int], r@.0, r@.1),
            final(self)@ == old(self)@.next_action(
                host,
                now,
                tick_delay,
                old(self).protocols@[host as int].has_work(),
                r@.0,
                r@.1,
            ),
            final(self).protocols@ == old(self).protocols@,
            old(self)@.same_setting(final(self)@),
    {
        let p = &self.protocols[host as usize];
        let has_work: bool = p.has_pending_work();
        let next_tx: Option<u64> = p.next_tx_time();
        let deadline: Option<u64> = p.next_rto_deadline();
        self.plan_next_action(host, now, tick_delay, has_work, next_tx, deadline);
        Ghost((next_tx, deadline))
    }

    /// Tells the protocol of a host when its packets have left the NIC.
    fn tell_departures(&mut self, host: EntityId, departures: &Vec<(FlowId, SeqNum, u64)>)
        requires
            old(self).wf(),
            host < old(self).protocols@.len(),
        ensures
            final(self).wf(),
            final(self)@ == old(self)@,
            final(self).protocols@ == old(self).protocols@.update(
                host as int,
                final(self).protocols@[host as int],
            ),
            told(
                old(self).protocols@[host as int],
                final(self).protocols@[host as int],
                departures@,
                departures@.len(),
            ),
    {
        let h: usize = host as usize;
        let ghost pp = self.protocols@;
        let mut k: usize = 0;
        assert(pp.update(h as int, pp[h as int]) =~= pp);
        while k < departures.len()
            invariant
                k <= departures@.len(),
                h == host,
                h < pp.len(),
                pp == old(self).protocols@,
                self@ == old(self)@,
                self.protocols@.len() == pp.len(),
                self.protocols@ =~= pp.update(h as int, self.protocols@[h as int]),
                told(pp[h as int], self.protocols@[h as int], departures@, k as nat),
            decreases departures@.len() - k,
        {
            let (flow_id, seq, at) = departures[k];
            let ghost mid = self.protocols@[h as int];
            self.protocols[h].update_send_time(flow_id, seq, at);
            proof {
                lemma_told_one_more(
                    pp[h as int],
                    mid,
                    self.protocols@[h as int],
                    departures@,
                    k as nat,
                );
            }
            k = k + 1;
        }
    }

    /// Lets the protocol of a host send.
    pub fn handle_tx_tick(&mut self, host: EntityId, now: u64)
        requires
            old(self).wf(),
        ensures
            final(self).wf(),
            host >= old(self).protocols@.len() ==> final(self)@ == old(self)@
                && final(self).protocols@ == old(self).protocols@,
            host < old(self).protocols@.len() ==> {
                &&& final(self).protocols@ == old(self).protocols@.update(
                    host as int,
                    final(self).protocols@[host as int],
                )
                &&& ticks(
                    old(self)@,
                    final(self)@,
                    old(self).protocols@[host as int],
                    final(self).protocols@[host as int],
                    host,
                    now,
                )
            },
            old(self)@.same_setting(final(self)@),
    {
        if host as u64 >= self.protocols.len() as u64 {
            return;
        }
        let h: usize = host as usize;
        let ghost v0 = self@;
        let ghost pp = self.protocols@;
        let pkts = self.protocols[h].on_tx_tick(now);
        let ghost all = pkts@;
        let ghost sent = self.protocols@[h as int];
        assert(self@ =~= v0);
        let hint: Option<FlowId> = if pkts.len() > 0 {
            Some(pkts[0].flow_id)
        } else {
            None
        };
        match self.pick_uplink(host, hint) {
            None => {
                assert(ticks_with(v0, self@, pp[h as int], sent, host, now, all, sent, None, None));
            },
            Some(up) => {
                let (departures, last) = self.transmit(host, up, pkts, now);
                self.tell_departures(host, &departures);
                let tick_delay: u64 = self.tx_tick_ns;
                let r = self.schedule_host_next_action(host, last, tick_delay);
                proof {
                    let (next_tx, deadline) = r@;
                    assert(ticks_with(
                        v0,
                        self@,
                        pp[h as int],
                        self.protocols@[h as int],
                        host,
                        now,
                        all,
                        sent,
                        next_tx,
                        deadline,
                    ));
                }
            },
        }
    }

    /// Gives a packet that has arrived at a host to its protocol.
    pub fn handle_arrive_at_host(&mut self, pkt: Packet, host: EntityId, now: u64)
        requires
            old(self).wf(),
        ensures
            final(self).wf(),
            host >= old(self).protocols@.len() ==> final(self)@ == old(self)@
                && final(self).protocols@ == old(self).protocols@,
            host < old(self).protocols@.len() ==> {
                &&& final(self).protocols@ == old(self).protocols@.update(
                    host as int,
                    final(self).protocols@[host as int],
                )
                &&& arrives(
                    old(self)@,
                    final(self)@,
                    old(self).protocols@[host as int],
                    final(self).protocols@[host as int],
                    pkt,
                    host,
                    old(self)@.processed_at(pkt, host, now),
                )
            },
            old(self)@.same_setting(final(self)@),
    {
        if host as u64 >= self.protocols.len() as u64 {
            return;
        }
        let h: usize = host as usize;
        let ghost v0 = self@;
        let ghost pp = self.protocols@;
        let rx_time: u64 = now.saturating_add(self.host_delays.rx_delay(host, pkt.size));
        match pkt.kind {
            PacketKind::Data => {
                let replies = self.protocols[h].on_rx_data(&pkt, rx_time);
                let ghost all = replies@;
                let ghost after = self.protocols@[h as int];
                assert(self@ =~= v0);
                match self.pick_uplink(host, Some(pkt.flow_id)) {
                    None => {
                        assert(data_arrives_with(
                            v0,
                            self@,
                            pp[h as int],
                            after,
                            pkt,
                            host,
                            rx_time,
                            all,
                            None,
                            None,
                        ));
                    },
                    Some(up) => {
                        self.send_replies(host, up, replies, rx_time);
                        let r = self.schedule_host_next_action(host, rx_time, 0);
                        proof {
                            let (next_tx, deadline) = r@;
                            assert(data_arrives_with(
                                v0,
                                self@,
                                pp[h as int],
                                after,
                                pkt,
                                host,
                                rx_time,
                                all,
                                next_tx,
                                deadline,
                            ));
                        }
                    },
                }
            },
            PacketKind::Control(_) => {
                self.protocols[h].on_tx_control(&pkt, rx_time);
                let ghost taken = self.protocols@[h as int];
                let finished = self.protocols[h].take_finished_flows();
                let ghost after = self.protocols@[h as int];
                assert(self@ =~= v0);
                self.record_finished(&finished);
                let r = self.schedule_host_next_action(host, rx_time, 0);
                proof {
                    let (next_tx, deadline) = r@;
                    assert(control_arrives_with(
                        v0,
                        self@,
                        pp[h as int],
                        after,
                        pkt,
                        host,
                        rx_time,
                        taken,
                        finished@,
                        next_tx,
                        deadline,
                    ));
                    assert(self.protocols@ =~= pp.update(h as int, after));
                }
            },
        }
    }
}

} // verus!
