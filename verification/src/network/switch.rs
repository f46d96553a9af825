//! Switches.
//!
//! - Every output port has one FIFO queue per priority.
//! - A packet that takes a port's queues above the marking threshold is ECN-marked.
//! - A packet that would take them above the buffer size is dropped.
//! - The routing table gives, for each destination, the ports that lead there.
//! - Priority flow control pauses a queue that has grown above its threshold.
use super::packet::Packet;
use crate::util::low_u8;
use crate::EntityId;
use std::collections::{HashMap, VecDeque};
use vstd::prelude::*;

verus! {

broadcast use vstd::std_specs::hash::group_hash_axioms;

/// The number of priorities.
pub const NUM_PRIORITIES: usize = 2;

/// The index of the high priority.
pub const HIGH_PRIORITY: usize = 0;

/// The index of the low priority.
pub const LOW_PRIORITY: usize = 1;

pub type PortId = u8;

/// The ports that lead to each destination.
#[derive(Debug, Clone)]
pub struct RoutingTable {
    table: HashMap<EntityId, Vec<PortId>>,
}

impl View for RoutingTable {
    type V = Map<EntityId, Seq<PortId>>;

    closed spec fn view(&self) -> Map<EntityId, Seq<PortId>> {
        self.table@.map_values(|v: Vec<PortId>| v@)
    }
}

/// The routes `routes` with `port` added behind the ports that lead to `dst`.
pub open spec fn route_added(
    routes: Map<EntityId, Seq<PortId>>,
    dst: EntityId,
    port: PortId,
) -> Map<EntityId, Seq<PortId>> {
    let known = if routes.contains_key(dst) {
        routes[dst]
    } else {
        Seq::empty()
    };
    routes.insert(dst, known.push(port))
}

impl RoutingTable {
    /// A table without routes.
    pub fn new() -> (t: Self)
        ensures
            t@ == Map::<EntityId, Seq<PortId>>::empty(),
    {
        let t = RoutingTable { table: HashMap::new() };
        assert(t@ =~= Map::<EntityId, Seq<PortId>>::empty());
        t
    }

    /// Adds a port behind those that lead to `dst`.
    pub fn add(&mut self, dst: EntityId, port: PortId)
        ensures
            final(self)@ == route_added(old(self)@, dst, port),
    {
        let mut ports: Vec<PortId> = match self.table.remove(&dst) {
            Some(ports) => ports,
            None => Vec::new(),
        };
        ports.push(port);
        self.table.insert(dst, ports);
        assert(self@ =~= route_added(old(self)@, dst, port));
    }

    /// The ports that lead to `dst`, in the order in which they were added.
    pub fn ports_for(&self, dst: EntityId) -> (r: Option<&[PortId]>)
        ensures
            match r {
                Some(ports) => self@.contains_key(dst) && ports@ == self@[dst],
                None => !self@.contains_key(dst),
            },
    {
        match self.table.get(&dst) {
            Some(ports) => Some(ports.as_slice()),
            None => None,
        }
    }
}

impl Default for RoutingTable {
    fn default() -> (t: Self)
        ensures
            t@ == Map::<EntityId, Seq<PortId>>::empty(),
    {
        Self::new()
    }
}

/// The queue of one priority.
#[derive(Debug, Clone)]
pub struct PriorityQueue {
    pub queue: VecDeque<Packet>,
    pub queue_bytes: u32,
    /// Whether flow control holds the queue back.
    pub paused: bool,
    /// The size above which flow control pauses the queue; zero turns it off.
    pub pfc_threshold_bytes: u32,
}

/// What a priority queue holds.
#[verifier::ext_equal]
pub struct QueueView {
    pub packets: Seq<Packet>,
    pub queue_bytes: u32,
    pub paused: bool,
    pub pfc_threshold_bytes: u32,
}

impl View for PriorityQueue {
    type V = QueueView;

    open spec fn view(&self) -> QueueView {
        QueueView {
            packets: self.queue@,
            queue_bytes: self.queue_bytes,
            paused: self.paused,
            pfc_threshold_bytes: self.pfc_threshold_bytes,
        }
    }
}

/// An empty queue without flow control.
pub open spec fn empty_queue() -> QueueView {
    QueueView { packets: Seq::empty(), queue_bytes: 0, paused: false, pfc_threshold_bytes: 0 }
}

impl QueueView {
    /// The queue with `pkt` at its end.
    pub open spec fn enqueued(self, pkt: Packet) -> QueueView {
        QueueView {
            packets: self.packets.push(pkt),
            queue_bytes: self.queue_bytes.saturating_add(pkt.size),
            ..self
        }
    }

    /// The queue without its first packet.
    pub open spec fn dequeued(self) -> QueueView {
        QueueView {
            packets: self.packets.subrange(1, self.packets.len() as int),
            queue_bytes: self.queue_bytes.saturating_sub(self.packets[0].size),
            ..self
        }
    }

    /// Flow control is to pause the queue: it exceeds its threshold.
    pub open spec fn pause_due(self) -> bool {
        self.pfc_threshold_bytes > 0 && self.queue_bytes > self.pfc_threshold_bytes && !self.paused
    }

    /// Flow control is to release the queue: it has fallen below its threshold.
    pub open spec fn resume_due(self) -> bool {
        self.paused && self.queue_bytes < self.pfc_threshold_bytes
    }
}

impl PriorityQueue {
    /// An empty queue without flow control.
    pub fn new() -> (q: Self)
        ensures
            q@ == empty_queue(),
    {
        PriorityQueue {
            queue: VecDeque::new(),
            queue_bytes: 0,
            paused: false,
            pfc_threshold_bytes: 0,
        }
    }
}

/// An output port.
#[derive(Debug, Clone)]
pub struct SwitchPort {
    pub id: PortId,
    pub link_id: u32,
    /// One queue per priority; index zero is the highest.
    pub priority_queues: Vec<PriorityQueue>,
    /// The bytes in all queues together.
    pub queue_bytes: u32,
    pub busy_until: u64,
    pub max_queue_depth_seen: u32,
    /// Whether an event is pending that will serve the port.
    pub egress_pending: bool,
}

/// What a port holds.
#[verifier::ext_equal]
pub struct PortView {
    pub id: PortId,
    pub link_id: u32,
    pub queues: Seq<QueueView>,
    pub queue_bytes: u32,
    pub busy_until: u64,
    pub max_queue_depth_seen: u32,
    pub egress_pending: bool,
}

impl View for SwitchPort {
    type V = PortView;

    open spec fn view(&self) -> PortView {
        PortView {
            id: self.id,
            link_id: self.link_id,
            queues: self.priority_queues@.map_values(|q: PriorityQueue| q@),
            queue_bytes: self.queue_bytes,
            busy_until: self.busy_until,
            max_queue_depth_seen: self.max_queue_depth_seen,
            egress_pending: self.egress_pending,
        }
    }
}

/// A port of which nothing has been used yet.
pub open spec fn fresh_port(id: PortId, link_id: u32) -> PortView {
    PortView {
        id,
        link_id,
        queues: seq![empty_queue(), empty_queue()],
        queue_bytes: 0,
        busy_until: 0,
        max_queue_depth_seen: 0,
        egress_pending: false,
    }
}

/// The first priority from `from` on whose queue holds a packet and, if `skip_paused`,
/// is not paused.
pub open spec fn next_priority(queues: Seq<QueueView>, from: int, skip_paused: bool) -> Option<int>
    decreases queues.len() - from,
{
    if from < 0 || from >= queues.len() {
        None
    } else if queues[from].packets.len() > 0 && !(skip_paused && queues[from].paused) {
        Some(from)
    } else {
        next_priority(queues, from + 1, skip_paused)
    }
}

/// The bytes of all of `packets`.
pub open spec fn packet_bytes(packets: Seq<Packet>) -> int
    decreases packets.len(),
{
    if packets.len() == 0 {
        0
    } else {
        packet_bytes(packets.drop_last()) + packets.last().size
    }
}

impl PortView {
    /// The port has one queue per priority.
    pub open spec fn wf(self) -> bool {
        self.queues.len() == NUM_PRIORITIES
    }

    /// The byte counters of the port and its queues say what is queued.
    pub open spec fn accounted(self) -> bool {
        &&& self.wf()
        &&& forall|i: int|
            0 <= i < self.queues.len() ==> (#[trigger] self.queues[i]).queue_bytes
                == packet_bytes(self.queues[i].packets)
        &&& self.queue_bytes == self.queues[0].queue_bytes + self.queues[1].queue_bytes
    }

    /// The port with the queue of `pri` replaced.
    pub open spec fn with_queue(self, pri: int, q: QueueView) -> PortView {
        PortView { queues: self.queues.update(pri, q), ..self }
    }

    /// The port after its queue of priority `pri` has given up its first packet.
    pub open spec fn dequeued(self, pri: int) -> PortView {
        PortView {
            queue_bytes: self.queue_bytes.saturating_sub(self.queues[pri].packets[0].size),
            ..self.with_queue(pri, self.queues[pri].dequeued())
        }
    }

    /// The port with the pause flag of `pri` set to `paused`.
    pub open spec fn with_pause(self, pri: int, paused: bool) -> PortView {
        self.with_queue(pri, QueueView { paused, ..self.queues[pri] })
    }
}

impl SwitchPort {
    /// A port of which nothing has been used yet.
    pub fn new(id: PortId, link_id: u32) -> (p: Self)
        ensures
            p@ == fresh_port(id, link_id),
            p@.wf(),
    {
        let mut priority_queues: Vec<PriorityQueue> = Vec::with_capacity(NUM_PRIORITIES);
        priority_queues.push(PriorityQueue::new());
        priority_queues.push(PriorityQueue::new());
        let p = SwitchPort {
            id,
            link_id,
            priority_queues,
            queue_bytes: 0,
            busy_until: 0,
            max_queue_depth_seen: 0,
            egress_pending: false,
        };
        assert(p@.queues =~= seq![empty_queue(), empty_queue()]);
        p
    }

    /// Replaces the queue of priority `pri`.
    fn put_queue(&mut self, pri: usize, q: PriorityQueue)
        requires
            pri < old(self).priority_queues@.len(),
        ensures
            final(self)@ == old(self)@.with_queue(pri as int, q@),
            final(self).priority_queues@.len() == old(self).priority_queues@.len(),
    {
        self.priority_queues[pri] = q;
        assert(self@.queues =~= old(self)@.queues.update(pri as int, q@));
    }

    /// Takes the first packet of the queue of priority `pri`.
    fn take_first(&mut self, pri: usize) -> (pkt: Packet)
        requires
            pri < old(self)@.queues.len(),
            old(self)@.queues[pri as int].packets.len() > 0,
        ensures
            pkt == old(self)@.queues[pri as int].packets[0],
            final(self)@ == old(self)@.dequeued(pri as int),
    {
        let ghost before = self@;
        let taken = self.priority_queues[pri].queue.pop_front();
        let pkt = match taken {
            Some(pkt) => pkt,
            None => {
                assert(false);
                vstd::pervasive::unreached()
            },
        };
        let bytes: u32 = self.priority_queues[pri].queue_bytes;
        self.priority_queues[pri].queue_bytes = bytes.saturating_sub(pkt.size);
        self.queue_bytes = self.queue_bytes.saturating_sub(pkt.size);
        assert(self@.queues =~= before.queues.update(pri as int, before.queues[pri as int].dequeued()));
        pkt
    }

    /// Takes the first packet of the highest priority that has one.
    pub fn dequeue_priority(&mut self) -> (r: Option<(Packet, usize)>)
        requires
            old(self)@.wf(),
        ensures
            match next_priority(old(self)@.queues, 0, false) {
                None => r is None && final(self)@ == old(self)@,
                Some(pri) => r == Some((old(self)@.queues[pri].packets[0], pri as usize))
                    && final(self)@ == old(self)@.dequeued(pri),
            },
            final(self)@.wf(),
    {
        let mut pri: usize = 0;
        while pri < NUM_PRIORITIES
            invariant
                pri <= NUM_PRIORITIES,
                self@.wf(),
                self@ == old(self)@,
                next_priority(old(self)@.queues, 0, false) == next_priority(
                    old(self)@.queues,
                    pri as int,
                    false,
                ),
            decreases NUM_PRIORITIES - pri,
        {
            if self.priority_queues[pri].queue.len() > 0 {
                let pkt = self.take_first(pri);
                return Some((pkt, pri));
            }
            pri = pri + 1;
        }
        None
    }

    /// Puts a packet into the queue of `priority`, or of the lowest priority if there is no such.
    pub fn enqueue_priority(&mut self, pkt: Packet, priority: usize)
        requires
            old(self)@.queues.len() == NUM_PRIORITIES,
        ensures
            ({
                let pri = if priority < NUM_PRIORITIES {
                    priority as int
                } else {
                    NUM_PRIORITIES - 1
                };
                final(self)@ == old(self)@.with_queue(pri, old(self)@.queues[pri].enqueued(pkt))
            }),
    {
        let pri: usize = if priority < NUM_PRIORITIES {
            priority
        } else {
            NUM_PRIORITIES - 1
        };
        let size: u32 = pkt.size;
        let bytes: u32 = self.priority_queues[pri].queue_bytes;
        self.priority_queues[pri].queue_bytes = bytes.saturating_add(size);
        self.priority_queues[pri].queue.push_back(pkt);
        assert(self@.queues =~= old(self)@.queues.update(
            pri as int,
            old(self)@.queues[pri as int].enqueued(pkt),
        ));
    }

    /// Pauses the queue of `priority` if it exceeds its threshold, and says whether it did.
    pub fn check_pfc(&mut self, priority: usize) -> (r: bool)
        requires
            old(self)@.queues.len() == NUM_PRIORITIES,
        ensures
            r == (priority < NUM_PRIORITIES && old(self)@.queues[priority as int].pause_due()),
            r ==> final(self)@ == old(self)@.with_pause(priority as int, true),
            !r ==> final(self)@ == old(self)@,
    {
        if priority >= NUM_PRIORITIES {
            return false;
        }
        let threshold: u32 = self.priority_queues[priority].pfc_threshold_bytes;
        if threshold > 0 && self.priority_queues[priority].queue_bytes > threshold
            && !self.priority_queues[priority].paused {
            self.priority_queues[priority].paused = true;
            assert(self@.queues =~= old(self)@.with_pause(priority as int, true).queues);
            return true;
        }
        false
    }

    /// Releases the queue of `priority` if it is paused and has fallen below its threshold, and
    /// says whether it did.
    pub fn check_pfc_resume(&mut self, priority: usize) -> (r: bool)
        requires
            old(self)@.queues.len() == NUM_PRIORITIES,
        ensures
            r == (priority < NUM_PRIORITIES && old(self)@.queues[priority as int].resume_due()),
            r ==> final(self)@ == old(self)@.with_pause(priority as int, false),
            !r ==> final(self)@ == old(self)@,
    {
        if priority >= NUM_PRIORITIES {
            return false;
        }
        let threshold: u32 = self.priority_queues[priority].pfc_threshold_bytes;
        if self.priority_queues[priority].paused && self.priority_queues[priority].queue_bytes
            < threshold {
            self.priority_queues[priority].paused = false;
            assert(self@.queues =~= old(self)@.with_pause(priority as int, false).queues);
            return true;
        }
        false
    }

    /// Takes the first packet of the highest priority that has one and is not paused.
    pub fn dequeue_priority_skip_paused(&mut self) -> (r: Option<(Packet, usize)>)
        requires
            old(self)@.wf(),
        ensures
            match next_priority(old(self)@.queues, 0, true) {
                None => r is None && final(self)@ == old(self)@,
                Some(pri) => r == Some((old(self)@.queues[pri].packets[0], pri as usize))
                    && final(self)@ == old(self)@.dequeued(pri),
            },
            final(self)@.wf(),
    {
        let mut pri: usize = 0;
        while pri < NUM_PRIORITIES
            invariant
                pri <= NUM_PRIORITIES,
                self@.wf(),
                self@ == old(self)@,
                next_priority(old(self)@.queues, 0, true) == next_priority(
                    old(self)@.queues,
                    pri as int,
                    true,
                ),
            decreases NUM_PRIORITIES - pri,
        {
            if !self.priority_queues[pri].paused && self.priority_queues[pri].queue.len() > 0 {
                let pkt = self.take_first(pri);
                return Some((pkt, pri));
            }
            pri = pri + 1;
        }
        None
    }
}

/// A switch.
pub struct Switch {
    pub id: EntityId,
    pub ports: Vec<SwitchPort>,
    pub ecn_threshold_bytes: u32,
    pub buffer_max_bytes: u32,
    pub routing: RoutingTable,
    pub drops: u64,
    pub ecn_marks: u64,
    /// How often flow control has paused a queue.
    pub pfc_pause_sent: u64,
    /// How often flow control has released a queue.
    pub pfc_resume_sent: u64,
}

/// What a switch holds.
#[verifier::ext_equal]
pub struct SwitchView {
    pub id: EntityId,
    pub ports: Seq<PortView>,
    pub ecn_threshold_bytes: u32,
    pub buffer_max_bytes: u32,
    pub routes: Map<EntityId, Seq<PortId>>,
    pub drops: u64,
    pub ecn_marks: u64,
    pub pfc_pause_sent: u64,
    pub pfc_resume_sent: u64,
}

impl View for Switch {
    type V = SwitchView;

    open spec fn view(&self) -> SwitchView {
        SwitchView {
            id: self.id,
            ports: self.ports@.map_values(|p: SwitchPort| p@),
            ecn_threshold_bytes: self.ecn_threshold_bytes,
            buffer_max_bytes: self.buffer_max_bytes,
            routes: self.routing@,
            drops: self.drops,
            ecn_marks: self.ecn_marks,
            pfc_pause_sent: self.pfc_pause_sent,
            pfc_resume_sent: self.pfc_resume_sent,
        }
    }
}

/// A switch without ports and routes.
pub open spec fn fresh_switch(
    id: EntityId,
    ecn_threshold_bytes: u32,
    buffer_max_bytes: u32,
) -> SwitchView {
    SwitchView {
        id,
        ports: Seq::empty(),
        ecn_threshold_bytes,
        buffer_max_bytes,
        routes: Map::empty(),
        drops: 0,
        ecn_marks: 0,
        pfc_pause_sent: 0,
        pfc_resume_sent: 0,
    }
}

/// The port that a packet takes among the ports that lead to its destination: the one
/// that its tag names, if it names one, or else the one that the hash picks.
pub open spec fn picked_port(ports: Seq<PortId>, routing_tag: u8, hash_key: u32) -> PortId {
    if 0 < routing_tag <= ports.len() {
        ports[routing_tag - 1]
    } else {
        ports[hash_key as int % ports.len() as int]
    }
}

/// The priority of a packet, by its tag.
pub open spec fn tag_priority(routing_tag: u8) -> int {
    if routing_tag >= 128 {
        HIGH_PRIORITY as int
    } else {
        LOW_PRIORITY as int
    }
}

impl SwitchView {
    /// Every port is well-formed, and every route names existing ports.
    pub open spec fn wf(self) -> bool {
        &&& forall|i: int| 0 <= i < self.ports.len() ==> (#[trigger] self.ports[i]).wf()
        &&& self.routed_ports_exist()
    }

    /// Every route names existing ports.
    pub open spec fn routed_ports_exist(self) -> bool {
        forall|dst: EntityId, i: int|
            self.routes.contains_key(dst) && 0 <= i < self.routes[dst].len() ==> (
            #[trigger] self.routes[dst][i]) < self.ports.len()
    }

    /// Some port leads to `dst`.
    pub open spec fn has_route(self, dst: EntityId) -> bool {
        self.routes.contains_key(dst) && self.routes[dst].len() > 0
    }

    /// The switch with the port at `i` replaced.
    pub open spec fn with_port(self, i: int, p: PortView) -> SwitchView {
        SwitchView { ports: self.ports.update(i, p), ..self }
    }

    /// The switch with one more packet dropped.
    pub open spec fn dropped_one(self) -> SwitchView {
        SwitchView { drops: self.drops.saturating_add(1), ..self }
    }

    /// The switch after it has accepted `pkt` at the port `i`: the packet is marked above
    /// the marking threshold, queued by its priority, and flow control is applied.
    pub open spec fn accepted(self, pkt: Packet, i: int) -> SwitchView {
        let port = self.ports[i];
        let total = port.queue_bytes + pkt.size;
        let mark = total > self.ecn_threshold_bytes;
        let stored = if mark {
            Packet { ecn: true, ..pkt }
        } else {
            pkt
        };
        let pri = tag_priority(pkt.routing_tag);
        let queue = port.queues[pri].enqueued(stored);
        let queued = PortView {
            queue_bytes: total as u32,
            max_queue_depth_seen: if total > port.max_queue_depth_seen {
                total as u32
            } else {
                port.max_queue_depth_seen
            },
            ..port.with_queue(pri, queue)
        };
        let pause = queue.pause_due();
        SwitchView {
            ecn_marks: if mark {
                self.ecn_marks.saturating_add(1)
            } else {
                self.ecn_marks
            },
            pfc_pause_sent: if pause {
                self.pfc_pause_sent.saturating_add(1)
            } else {
                self.pfc_pause_sent
            },
            ..self.with_port(
                i,
                if pause {
                    queued.with_pause(pri, true)
                } else {
                    queued
                },
            )
        }
    }

    /// What becomes of the switch, and what it answers, when `pkt` comes in.
    pub open spec fn after_ingress(self, pkt: Packet, hash_key: u32) -> (SwitchView, (
        Option<PortId>,
        bool,
    )) {
        if !self.has_route(pkt.dst) {
            (self.dropped_one(), (None, true))
        } else {
            let chosen = picked_port(self.routes[pkt.dst], pkt.routing_tag, hash_key);
            if self.ports[chosen as int].queue_bytes + pkt.size > self.buffer_max_bytes {
                (self.dropped_one(), (Some(chosen), true))
            } else {
                (self.accepted(pkt, chosen as int), (Some(chosen), false))
            }
        }
    }

    /// What becomes of the switch, and what it gives out, when the port `i` is served.
    pub open spec fn after_dequeue(self, i: int) -> (SwitchView, Option<Packet>) {
        let port = self.ports[i];
        match next_priority(port.queues, 0, true) {
            None => (self, None),
            Some(pri) => {
                let served = port.dequeued(pri);
                let released = if served.queues[pri].resume_due() {
                    served.with_pause(pri, false)
                } else {
                    served
                };
                (self.with_port(i, released), Some(port.queues[pri].packets[0]))
            },
        }
    }
}

/// The bytes queued at all of `ports`.
pub open spec fn queued_bytes(ports: Seq<PortView>) -> int
    decreases ports.len(),
{
    if ports.len() == 0 {
        0
    } else {
        queued_bytes(ports.drop_last()) + ports.last().queue_bytes
    }
}

proof fn lemma_queued_bytes_grow(ports: Seq<PortView>, n: int)
    requires
        0 <= n <= ports.len(),
    ensures
        0 <= queued_bytes(ports.take(n)) <= queued_bytes(ports),
    decreases ports.len(),
{
    if n == ports.len() {
        assert(ports.take(n) =~= ports);
        if n > 0 {
            lemma_queued_bytes_grow(ports.drop_last(), n - 1);
            assert(ports.drop_last().take(n - 1) =~= ports.drop_last());
        }
    } else {
        lemma_queued_bytes_grow(ports.drop_last(), n);
        assert(ports.drop_last().take(n) =~= ports.take(n));
    }
}

impl Switch {
    /// A switch without ports and routes.
    pub fn new(id: EntityId, ecn_threshold_bytes: u32, buffer_max_bytes: u32) -> (sw: Self)
        ensures
            sw@ == fresh_switch(id, ecn_threshold_bytes, buffer_max_bytes),
            sw@.wf(),
    {
        let sw = Switch {
            id,
            ports: Vec::new(),
            ecn_threshold_bytes,
            buffer_max_bytes,
            routing: RoutingTable::new(),
            drops: 0,
            ecn_marks: 0,
            pfc_pause_sent: 0,
            pfc_resume_sent: 0,
        };
        assert(sw@.ports =~= Seq::empty());
        sw
    }

    /// Adds a port onto the link `link_id` and returns its number, which is the low byte
    /// of its position.
    pub fn add_port(&mut self, link_id: u32) -> (id: PortId)
        ensures
            id as int == old(self)@.ports.len() as int % 256,
            final(self)@ == (SwitchView {
                ports: old(self)@.ports.push(fresh_port(id, link_id)),
                ..old(self)@
            }),
    {
        let id: PortId = low_u8(self.ports.len());
        let port = SwitchPort::new(id, link_id);
        self.ports.push(port);
        assert(self@.ports =~= old(self)@.ports.push(fresh_port(id, link_id)));
        id
    }

    /// Takes in a packet: picks its port, drops it if the buffer would overflow, marks it
    /// above the threshold, and queues it. Returns the port, and whether the packet was dropped.
    pub fn ingress(&mut self, pkt: Packet, hash_key: u32) -> (r: (Option<PortId>, bool))
        requires
            old(self)@.wf(),
        ensures
            (final(self)@, r) == old(self)@.after_ingress(pkt, hash_key),
            final(self)@.wf(),
    {
        let ghost sw0 = self@;
        let mut pkt = pkt;
        let ghost pkt0 = pkt;
        let chosen: PortId = match self.routing.ports_for(pkt.dst) {
            Some(ports) if ports.len() > 0 => {
                let tag: usize = pkt.routing_tag as usize;
                let idx: usize = if tag > 0 && tag - 1 < ports.len() {
                    tag - 1
                } else {
                    hash_key as usize % ports.len()
                };
                assert(ports@ == sw0.routes[pkt.dst]);
                assert(sw0.routes[pkt.dst][idx as int] < sw0.ports.len());
                ports[idx]
            },
            _ => {
                self.drops = self.drops.saturating_add(1);
                return (None, true);
            },
        };
        assert(chosen == picked_port(sw0.routes[pkt.dst], pkt.routing_tag, hash_key));
        let at: usize = chosen as usize;
        assert(sw0.ports[at as int].wf());
        let total: u64 = self.ports[at].queue_bytes as u64 + pkt.size as u64;
        if total > self.buffer_max_bytes as u64 {
            self.drops = self.drops.saturating_add(1);
            return (Some(chosen), true);
        }
        if total > self.ecn_threshold_bytes as u64 {
            pkt.ecn = true;
            self.ecn_marks = self.ecn_marks.saturating_add(1);
        }
        let priority: usize = if pkt.routing_tag >= 128 {
            HIGH_PRIORITY
        } else {
            LOW_PRIORITY
        };
        let port = &mut self.ports[at];
        port.enqueue_priority(pkt, priority);
        port.queue_bytes = total as u32;
        if port.queue_bytes > port.max_queue_depth_seen {
            port.max_queue_depth_seen = port.queue_bytes;
        }
        let paused: bool = port.check_pfc(priority);
        if paused {
            self.pfc_pause_sent = self.pfc_pause_sent.saturating_add(1);
        }
        proof {
            let want = sw0.accepted(pkt0, at as int);
            assert(self@.ports[at as int] =~= want.ports[at as int]);
            assert(self@.ports =~= want.ports);
            assert(self@ =~= want);
            assert(self@.ports[at as int].wf());
        }
        (Some(chosen), false)
    }

    /// Takes the next packet out of a port. Packets of a higher priority come first,
    /// except those that flow control holds back.
    pub fn dequeue(&mut self, port_id: PortId) -> (r: Option<Packet>)
        requires
            old(self)@.wf(),
            port_id < old(self)@.ports.len(),
        ensures
            (final(self)@, r) == old(self)@.after_dequeue(port_id as int),
            final(self)@.wf(),
    {
        let ghost sw0 = self@;
        let at: usize = port_id as usize;
        assert(sw0.ports[at as int].wf());
        let port = &mut self.ports[at];
        let taken = port.dequeue_priority_skip_paused();
        let r = match taken {
            None => None,
            Some((pkt, pri)) => {
                port.check_pfc_resume(pri);
                Some(pkt)
            },
        };
        let ghost served = port@;
        proof {
            reveal_with_fuel(next_priority, 3);
            assert(self@.ports =~= sw0.ports.update(at as int, served));
            let want = sw0.after_dequeue(at as int).0;
            assert(served == want.ports[at as int]);
            assert(self@ =~= want);
            assert(self@.ports[at as int].wf());
        }
        r
    }

    /// The port with the number `port_id`.
    pub fn port(&self, port_id: PortId) -> (p: &SwitchPort)
        requires
            port_id < self@.ports.len(),
        ensures
            *p == self.ports@[port_id as int],
    {
        &self.ports[port_id as usize]
    }

    /// The port with the number `port_id`, to be changed.
    pub fn port_mut(&mut self, port_id: PortId) -> (p: &mut SwitchPort)
        requires
            port_id < old(self)@.ports.len(),
        ensures
            *p == old(self).ports@[port_id as int],
            final(self)@ == old(self)@.with_port(port_id as int, final(p)@),
    {
        &mut self.ports[port_id as usize]
    }

    /// The bytes queued at all ports together.
    pub fn total_queue_bytes(&self) -> (n: u32)
        requires
            queued_bytes(self@.ports) <= u32::MAX,
        ensures
            n == queued_bytes(self@.ports),
    {
        let mut total: u32 = 0;
        let mut i: usize = 0;
        while i < self.ports.len()
            invariant
                i <= self.ports@.len(),
                total == queued_bytes(self@.ports.take(i as int)),
                queued_bytes(self@.ports) <= u32::MAX,
            decreases self.ports@.len() - i,
        {
            proof {
                lemma_queued_bytes_grow(self@.ports, i + 1);
                assert(self@.ports.take(i + 1).drop_last() =~= self@.ports.take(i as int));
            }
            total = total + self.ports[i].queue_bytes;
            i = i + 1;
        }
        assert(self@.ports.take(i as int) =~= self@.ports);
        total
    }
}

proof fn lemma_packet_bytes_push(packets: Seq<Packet>, pkt: Packet)
    ensures
        packet_bytes(packets.push(pkt)) == packet_bytes(packets) + pkt.size,
{
    assert(packets.push(pkt).drop_last() =~= packets);
}

proof fn lemma_packet_bytes_pop(packets: Seq<Packet>)
    requires
        packets.len() > 0,
    ensures
        packet_bytes(packets) == packets[0].size + packet_bytes(
            packets.subrange(1, packets.len() as int),
        ),
        packet_bytes(packets.subrange(1, packets.len() as int)) >= 0,
    decreases packets.len(),
{
    let tail = packets.subrange(1, packets.len() as int);
    if packets.len() == 1 {
        assert(packets.drop_last() =~= Seq::empty());
        assert(tail =~= Seq::empty());
    } else {
        lemma_packet_bytes_pop(packets.drop_last());
        assert(packets.drop_last().subrange(1, packets.len() - 1) =~= tail.drop_last());
    }
}

/// The byte counters of every port keep saying what is queued when a packet comes in.
pub proof fn law_ingress_keeps_accounts(sw: SwitchView, pkt: Packet, hash_key: u32)
    requires
        sw.wf(),
        forall|i: int| 0 <= i < sw.ports.len() ==> (#[trigger] sw.ports[i]).accounted(),
    ensures
        forall|i: int|
            0 <= i < sw.ports.len() ==> (#[trigger] sw.after_ingress(
                pkt,
                hash_key,
            ).0.ports[i]).accounted(),
        sw.after_ingress(pkt, hash_key).0.wf(),
{
    if sw.has_route(pkt.dst) {
        let ports = sw.routes[pkt.dst];
        let n = ports.len() as int;
        assert(0 <= hash_key as int % n < n) by (nonlinear_arith)
            requires
                n > 0,
                hash_key >= 0,
        ;
        let chosen = picked_port(ports, pkt.routing_tag, hash_key) as int;
        assert(chosen < sw.ports.len());
        let port = sw.ports[chosen];
        assert(port.accounted());
        if port.queue_bytes + pkt.size <= sw.buffer_max_bytes {
            let pri = tag_priority(pkt.routing_tag);
            let stored = if port.queue_bytes + pkt.size > sw.ecn_threshold_bytes {
                Packet { ecn: true, ..pkt }
            } else {
                pkt
            };
            assert(port.queues[pri].queue_bytes == packet_bytes(port.queues[pri].packets));
            lemma_packet_bytes_push(port.queues[pri].packets, stored);
            assert(sw.accepted(pkt, chosen).ports[chosen].accounted());
        }
    }
}

/// The byte counters of every port keep saying what is queued when a port is served.
pub proof fn law_dequeue_keeps_accounts(sw: SwitchView, at: int)
    requires
        sw.wf(),
        0 <= at < sw.ports.len(),
        forall|i: int| 0 <= i < sw.ports.len() ==> (#[trigger] sw.ports[i]).accounted(),
    ensures
        forall|i: int|
            0 <= i < sw.ports.len() ==> (#[trigger] sw.after_dequeue(at).0.ports[i]).accounted(),
        sw.after_dequeue(at).0.wf(),
{
    reveal_with_fuel(next_priority, 3);
    let port = sw.ports[at];
    assert(port.accounted());
    if let Some(pri) = next_priority(port.queues, 0, true) {
        assert(port.queues[pri].queue_bytes == packet_bytes(port.queues[pri].packets));
        lemma_packet_bytes_pop(port.queues[pri].packets);
        assert(port.dequeued(pri).accounted());
    }
}

/// A switch keeps its number and its ports when a port is served.
pub proof fn law_dequeue_keeps_shape(sw: SwitchView, at: int)
    requires
        sw.wf(),
        0 <= at < sw.ports.len(),
    ensures
        ({
            let after = sw.after_dequeue(at).0;
            &&& after.wf()
            &&& after.id == sw.id
            &&& after.routes == sw.routes
            &&& after.ports.len() == sw.ports.len()
            &&& forall|p: int|
                0 <= p < sw.ports.len() ==> (#[trigger] after.ports[p]).link_id
                    == sw.ports[p].link_id
        }),
{
    reveal_with_fuel(next_priority, 3);
    assert(sw.ports[at].wf());
}

/// A switch keeps its number and its ports when a packet comes in. A packet that is not dropped
/// has gone to one of its ports.
pub proof fn law_ingress_keeps_shape(sw: SwitchView, pkt: Packet, hash_key: u32)
    requires
        sw.wf(),
    ensures
        ({
            let (after, (port, dropped)) = sw.after_ingress(pkt, hash_key);
            &&& after.wf()
            &&& after.id == sw.id
            &&& after.routes == sw.routes
            &&& after.ports.len() == sw.ports.len()
            &&& forall|p: int|
                0 <= p < sw.ports.len() ==> (#[trigger] after.ports[p]).link_id
                    == sw.ports[p].link_id
            &&& !dropped ==> port is Some && port->0 < sw.ports.len()
        }),
{
    if sw.has_route(pkt.dst) {
        let ports = sw.routes[pkt.dst];
        let n = ports.len() as int;
        assert(0 <= hash_key as int % n < n) by (nonlinear_arith)
            requires
                n > 0,
                hash_key >= 0,
        ;
        let chosen = picked_port(ports, pkt.routing_tag, hash_key) as int;
        assert(chosen < sw.ports.len());
        assert(sw.ports[chosen].wf());
    }
}

/// A packet leaves a port before the packets of the same priority that came after it.
pub proof fn law_priority_is_fifo(sw: SwitchView, at: int, pri: int)
    requires
        sw.wf(),
        0 <= at < sw.ports.len(),
        next_priority(sw.ports[at].queues, 0, true) == Some(pri),
    ensures
        ({
            let (after, out) = sw.after_dequeue(at);
            &&& out == Some(sw.ports[at].queues[pri].packets[0])
            &&& after.ports[at].queues[pri].packets == sw.ports[at].queues[pri].packets.subrange(
                1,
                sw.ports[at].queues[pri].packets.len() as int,
            )
        }),
{
    reveal_with_fuel(next_priority, 3);
}

} // verus!
