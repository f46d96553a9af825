//! Why and where packets are lost.
//!
//! The counters are kept by reason, by port and by flow; a log of single drops can
//! be turned on.
use super::packet::{FlowId, SeqNum};
use super::switch::PortId;
use crate::EntityId;
use std::collections::HashMap;
use vstd::prelude::*;

verus! {

broadcast use vstd::std_specs::hash::group_hash_axioms;

/// Why a packet was dropped.
#[derive(Debug, Clone, Copy, PartialEq, Eq, Hash, Structural)]
pub enum DropReason {
    /// The routing table has no port for the destination.
    NoRoute,
    /// The buffer of the output port is full.
    BufferFull,
    /// The packet has taken too many hops.
    TtlExceeded,
    /// Anything else.
    Other,
}

impl DropReason {
    /// The name of the reason.
    pub open spec fn name(self) -> Seq<char> {
        match self {
            DropReason::NoRoute => "NoRoute"@,
            DropReason::BufferFull => "BufferFull"@,
            DropReason::TtlExceeded => "TtlExceeded"@,
            DropReason::Other => "Other"@,
        }
    }

    /// The name of the reason.
    pub fn as_str(&self) -> (s: &'static str)
        ensures
            s@ == self.name(),
    {
        match self {
            DropReason::NoRoute => "NoRoute",
            DropReason::BufferFull => "BufferFull",
            DropReason::TtlExceeded => "TtlExceeded",
            DropReason::Other => "Other",
        }
    }

    /// The position of the reason in a table of counters.
    pub open spec fn index(self) -> int {
        match self {
            DropReason::NoRoute => 0,
            DropReason::BufferFull => 1,
            DropReason::TtlExceeded => 2,
            DropReason::Other => 3,
        }
    }
}

/// One dropped packet.
#[derive(Debug, Clone, Copy)]
pub struct DropEvent {
    pub time_ns: u64,
    pub switch_id: EntityId,
    /// The output port, if the packet had one.
    pub port: Option<PortId>,
    pub reason: DropReason,
    pub flow_id: FlowId,
    pub seq: SeqNum,
    pub size: u32,
}

/// The drops of one flow.
#[derive(Debug, Clone, Copy)]
pub struct PerFlowDrops {
    pub buffer_full: u64,
    pub no_route: u64,
    pub total: u64,
}

/// No drops.
pub open spec fn no_flow_drops() -> PerFlowDrops {
    PerFlowDrops { buffer_full: 0, no_route: 0, total: 0 }
}

impl Default for PerFlowDrops {
    fn default() -> (d: Self)
        ensures
            d == no_flow_drops(),
    {
        PerFlowDrops { buffer_full: 0, no_route: 0, total: 0 }
    }
}

/// The drops by reason, port and flow. Counters stay at their maximum once they reach it.
#[derive(Debug, Clone)]
pub struct DropCounters {
    /// The drops for each reason.
    pub by_reason: [u64; 4],
    /// The drops at each port.
    pub by_port: Vec<u64>,
    /// All drops.
    pub total: u64,
    /// The drops of each flow.
    pub per_flow: HashMap<FlowId, PerFlowDrops>,
    /// The log of single drops.
    pub events: Vec<DropEvent>,
    /// Whether the log is kept.
    pub log_enabled: bool,
}

/// What the counters hold.
#[verifier::ext_equal]
pub struct DropView {
    pub by_reason: Seq<u64>,
    pub by_port: Seq<u64>,
    pub total: u64,
    pub per_flow: Map<FlowId, PerFlowDrops>,
    pub events: Seq<DropEvent>,
    pub log_enabled: bool,
}

impl View for DropCounters {
    type V = DropView;

    open spec fn view(&self) -> DropView {
        DropView {
            by_reason: self.by_reason@,
            by_port: self.by_port@,
            total: self.total,
            per_flow: self.per_flow@,
            events: self.events@,
            log_enabled: self.log_enabled,
        }
    }
}

/// The sequence with zeroes added until it has at least `n` elements.
pub open spec fn zero_padded(s: Seq<u64>, n: int) -> Seq<u64> {
    Seq::new(
        if s.len() < n {
            n as nat
        } else {
            s.len()
        },
        |i: int|
            if i < s.len() {
                s[i]
            } else {
                0
            },
    )
}

impl PerFlowDrops {
    /// The drops of the flow with one more for `reason`.
    pub open spec fn counted(self, reason: DropReason) -> PerFlowDrops {
        PerFlowDrops {
            total: self.total.saturating_add(1),
            buffer_full: if reason == DropReason::BufferFull {
                self.buffer_full.saturating_add(1)
            } else {
                self.buffer_full
            },
            no_route: if reason == DropReason::NoRoute {
                self.no_route.saturating_add(1)
            } else {
                self.no_route
            },
        }
    }
}

impl DropView {
    /// The counters after the drop `d`.
    pub open spec fn recorded(self, d: DropEvent) -> DropView {
        let r = d.reason.index();
        let of_flow = if self.per_flow.contains_key(d.flow_id) {
            self.per_flow[d.flow_id]
        } else {
            no_flow_drops()
        };
        DropView {
            by_reason: self.by_reason.update(r, self.by_reason[r].saturating_add(1)),
            by_port: match d.port {
                None => self.by_port,
                Some(p) => {
                    let padded = zero_padded(self.by_port, p + 1);
                    padded.update(p as int, padded[p as int].saturating_add(1))
                },
            },
            total: self.total.saturating_add(1),
            per_flow: self.per_flow.insert(d.flow_id, of_flow.counted(d.reason)),
            events: if self.log_enabled {
                self.events.push(d)
            } else {
                self.events
            },
            log_enabled: self.log_enabled,
        }
    }
}

impl DropView {
    /// The counters after the drops, one after another.
    pub open spec fn all_recorded(self, drops: Seq<DropEvent>) -> DropView
        decreases drops.len(),
    {
        if drops.len() == 0 {
            self
        } else {
            self.all_recorded(drops.drop_last()).recorded(drops.last())
        }
    }
}

/// A log that is kept holds every drop, in order; one that is not kept stays as it is.
pub proof fn law_log_holds_every_drop(c: DropView, drops: Seq<DropEvent>)
    ensures
        c.all_recorded(drops).log_enabled == c.log_enabled,
        c.log_enabled ==> c.all_recorded(drops).events == c.events + drops,
        !c.log_enabled ==> c.all_recorded(drops).events == c.events,
    decreases drops.len(),
{
    if drops.len() > 0 {
        law_log_holds_every_drop(c, drops.drop_last());
        assert(c.events + drops =~= (c.events + drops.drop_last()).push(drops.last()));
    } else {
        assert(c.events + drops =~= c.events);
    }
}

fn reason_to_index(r: DropReason) -> (i: usize)
    ensures
        i == r.index(),
{
    match r {
        DropReason::NoRoute => 0,
        DropReason::BufferFull => 1,
        DropReason::TtlExceeded => 2,
        DropReason::Other => 3,
    }
}

impl DropCounters {
    /// Counters at zero for `num_ports` ports, without a log.
    pub fn new(num_ports: usize) -> (c: Self)
        ensures
            c@ == (DropView {
                by_reason: seq![0, 0, 0, 0],
                by_port: Seq::new(num_ports as nat, |i: int| 0),
                total: 0,
                per_flow: Map::empty(),
                events: Seq::empty(),
                log_enabled: false,
            }),
    {
        let mut by_port: Vec<u64> = Vec::new();
        by_port.resize(num_ports, 0);
        let c = DropCounters {
            by_reason: [0, 0, 0, 0],
            by_port,
            total: 0,
            per_flow: HashMap::new(),
            events: Vec::new(),
            log_enabled: false,
        };
        assert(c@.by_reason =~= seq![0, 0, 0, 0]);
        assert(c@.by_port =~= Seq::new(num_ports as nat, |i: int| 0));
        c
    }

    /// Counts one dropped packet.
    pub fn record(
        &mut self,
        reason: DropReason,
        port: Option<PortId>,
        flow_id: FlowId,
        seq: SeqNum,
        size: u32,
        switch_id: EntityId,
        time_ns: u64,
    )
        ensures
            final(self)@ == old(self)@.recorded(
                DropEvent { time_ns, switch_id, port, reason, flow_id, seq, size },
            ),
    {
        let event = DropEvent { time_ns, switch_id, port, reason, flow_id, seq, size };
        let idx: usize = reason_to_index(reason);
        let counted: u64 = self.by_reason[idx].saturating_add(1);
        self.by_reason[idx] = counted;
        if let Some(p) = port {
            let pi: usize = p as usize;
            if pi >= self.by_port.len() {
                self.by_port.resize(pi + 1, 0);
            }
            assert(self.by_port@ =~= zero_padded(old(self).by_port@, p + 1));
            let at_port: u64 = self.by_port[pi].saturating_add(1);
            self.by_port[pi] = at_port;
        }
        self.total = self.total.saturating_add(1);
        let mut of_flow: PerFlowDrops = match self.per_flow.get(&flow_id) {
            Some(d) => *d,
            None => PerFlowDrops::default(),
        };
        of_flow.total = of_flow.total.saturating_add(1);
        match reason {
            DropReason::BufferFull => {
                of_flow.buffer_full = of_flow.buffer_full.saturating_add(1);
            },
            DropReason::NoRoute => {
                of_flow.no_route = of_flow.no_route.saturating_add(1);
            },
            _ => {},
        }
        self.per_flow.insert(flow_id, of_flow);
        if self.log_enabled {
            self.events.push(event);
        }
        assert(self@ =~= old(self)@.recorded(event));
    }

    /// Starts a new log of single drops, with room for `capacity` of them set aside.
    pub fn enable_event_log(&mut self, capacity: usize)
        ensures
            final(self)@ == (DropView {
                events: Seq::empty(),
                log_enabled: true,
                ..old(self)@
            }),
    {
        self.events = Vec::with_capacity(capacity);
        self.log_enabled = true;
    }

    /// The drops for `reason`.
    pub fn drops_by_reason(&self, reason: DropReason) -> (n: u64)
        ensures
            n == self@.by_reason[reason.index()],
    {
        self.by_reason[reason_to_index(reason)]
    }

    /// The drops for a full buffer.
    pub fn buffer_full_drops(&self) -> (n: u64)
        ensures
            n == self@.by_reason[DropReason::BufferFull.index()],
    {
        self.drops_by_reason(DropReason::BufferFull)
    }

    /// The drops for want of a route.
    pub fn no_route_drops(&self) -> (n: u64)
        ensures
            n == self@.by_reason[DropReason::NoRoute.index()],
    {
        self.drops_by_reason(DropReason::NoRoute)
    }
}

impl Default for DropCounters {
    fn default() -> (c: Self)
        ensures
            c@ == (DropView {
                by_reason: seq![0, 0, 0, 0],
                by_port: Seq::empty(),
                total: 0,
                per_flow: Map::empty(),
                events: Seq::empty(),
                log_enabled: false,
            }),
    {
        let c = Self::new(0);
        assert(c@.by_port =~= Seq::empty());
        c
    }
}

} // verus!
