//! Samples of the links, taken at a fixed interval.
use super::data::{LinkSnapshot, VizFrame};
use crate::topology::Topology;
use vstd::prelude::*;

verus! {

use super::data::FrameView;
use crate::network::switch::{PortView, SwitchView};
use crate::topology::TopologyView;

/// Takes a sample of every link whenever the interval has passed.
pub struct TimeSeriesSampler {
    interval_ns: u64,
    next_sample_ns: u64,
    prev_bytes: Vec<u64>,
    pub frames: Vec<VizFrame>,
    enabled: bool,
}

/// What a sampler holds.
#[verifier::ext_equal]
pub struct SamplerView {
    pub interval_ns: u64,
    pub next_sample_ns: u64,
    /// The bytes that each link had carried at the last sample.
    pub prev_bytes: Seq<u64>,
    pub frames: Seq<FrameView>,
    pub enabled: bool,
}

impl View for TimeSeriesSampler {
    type V = SamplerView;

    closed spec fn view(&self) -> SamplerView {
        SamplerView {
            interval_ns: self.interval_ns,
            next_sample_ns: self.next_sample_ns,
            prev_bytes: self.prev_bytes@,
            frames: self.frames@.map_values(|f: VizFrame| f@),
            enabled: self.enabled,
        }
    }
}

/// The bytes that wait for a link at the first of `ports` that leads onto it, from `from` on.
pub open spec fn depth_at_ports(ports: Seq<PortView>, link_id: u32, from: int) -> Option<u32>
    decreases ports.len() - from,
{
    if from < 0 || from >= ports.len() {
        None
    } else if ports[from].link_id == link_id {
        Some(ports[from].queue_bytes)
    } else {
        depth_at_ports(ports, link_id, from + 1)
    }
}

/// The bytes that wait for a link at the first port that leads onto it, from switch `from` on;
/// zero if there is none.
pub open spec fn depth_at_switches(switches: Seq<SwitchView>, link_id: u32, from: int) -> u32
    decreases switches.len() - from,
{
    if from < 0 || from >= switches.len() {
        0
    } else {
        match depth_at_ports(switches[from].ports, link_id, 0) {
            Some(d) => d,
            None => depth_at_switches(switches, link_id, from + 1),
        }
    }
}

impl SamplerView {
    /// The sampler knows as many links as the network has.
    pub open spec fn fits(self, n_links: nat) -> bool {
        self.enabled ==> self.prev_bytes.len() == n_links
    }

    /// The sampler after it was asked to take a sample at `now`.
    pub open spec fn after(self, now: u64, bytes: Seq<u64>, topo: TopologyView) -> SamplerView {
        if !self.enabled || now < self.next_sample_ns {
            self
        } else {
            SamplerView {
                prev_bytes: bytes,
                frames: self.frames.push(
                    FrameView {
                        time_ns: now,
                        links: Seq::new(
                            topo.links.len(),
                            |i: int|
                                LinkSnapshot {
                                    delta_bytes: bytes[i].saturating_sub(self.prev_bytes[i]),
                                    queue_depth_bytes: depth_at_switches(
                                        topo.switches,
                                        i as u32,
                                        0,
                                    ),
                                },
                        ),
                    },
                ),
                next_sample_ns: now.saturating_add(self.interval_ns),
                ..self
            }
        }
    }
}

/// The bytes that wait for a link; zero if no port leads onto it.
pub fn queue_depth_for_link(topo: &Topology, link_id: u32) -> (d: u32)
    ensures
        d == depth_at_switches(topo@.switches, link_id, 0),
{
    let mut i: usize = 0;
    while i < topo.switches.len()
        invariant
            i <= topo.switches@.len(),
            depth_at_switches(topo@.switches, link_id, 0) == depth_at_switches(
                topo@.switches,
                link_id,
                i as int,
            ),
        decreases topo.switches@.len() - i,
    {
        let sw = &topo.switches[i];
        assert(sw@ == topo@.switches[i as int]);
        let mut p: usize = 0;
        while p < sw.ports.len()
            invariant
                p <= sw.ports@.len(),
                i < topo.switches@.len(),
                sw@ == topo@.switches[i as int],
                depth_at_switches(topo@.switches, link_id, 0) == depth_at_switches(
                    topo@.switches,
                    link_id,
                    i as int,
                ),
                depth_at_ports(sw@.ports, link_id, 0) == depth_at_ports(
                    sw@.ports,
                    link_id,
                    p as int,
                ),
            decreases sw.ports@.len() - p,
        {
            assert(sw@.ports[p as int] == sw.ports@[p as int]@);
            if sw.ports[p].link_id == link_id {
                return sw.ports[p].queue_bytes;
            }
            p = p + 1;
        }
        i = i + 1;
    }
    0
}

impl TimeSeriesSampler {
    /// A sampler for `n_links` links that takes its first sample after one interval.
    pub fn new(interval_ns: u64, n_links: usize) -> (s: Self)
        ensures
            s@ == (SamplerView {
                interval_ns,
                next_sample_ns: interval_ns,
                prev_bytes: Seq::new(n_links as nat, |i: int| 0),
                frames: Seq::empty(),
                enabled: true,
            }),
    {
        let mut prev_bytes: Vec<u64> = Vec::new();
        prev_bytes.resize(n_links, 0);
        let s = TimeSeriesSampler {
            interval_ns,
            next_sample_ns: interval_ns,
            prev_bytes,
            frames: Vec::new(),
            enabled: true,
        };
        assert(s@.prev_bytes =~= Seq::new(n_links as nat, |i: int| 0));
        assert(s@.frames =~= Seq::empty());
        s
    }

    /// A sampler that takes no samples.
    pub fn disabled() -> (s: Self)
        ensures
            s@ == (SamplerView {
                interval_ns: 0,
                next_sample_ns: u64::MAX,
                prev_bytes: Seq::empty(),
                frames: Seq::empty(),
                enabled: false,
            }),
    {
        let s = TimeSeriesSampler {
            interval_ns: 0,
            next_sample_ns: u64::MAX,
            prev_bytes: Vec::new(),
            frames: Vec::new(),
            enabled: false,
        };
        assert(s@.prev_bytes =~= Seq::empty());
        assert(s@.frames =~= Seq::empty());
        s
    }

    /// Takes a sample at `now` if it is time to.
    pub fn maybe_sample(&mut self, now: u64, link_bytes_sent: &[u64], topo: &Topology)
        requires
            old(self)@.fits(topo@.links.len()),
            link_bytes_sent@.len() == topo@.links.len(),
            topo@.links.len() <= u32::MAX,
        ensures
            final(self)@ == old(self)@.after(now, link_bytes_sent@, topo@),
    {
        if !self.enabled || now < self.next_sample_ns {
            return;
        }
        let ghost before = self@;
        let n: usize = topo.links.len();
        let mut links: Vec<LinkSnapshot> = Vec::new();
        let mut bytes: Vec<u64> = Vec::new();
        let ghost want = before.after(now, link_bytes_sent@, topo@).frames.last().links;
        let mut i: usize = 0;
        while i < n
            invariant
                i <= n,
                n == topo@.links.len(),
                n <= u32::MAX,
                self@ == before,
                before.enabled,
                now >= before.next_sample_ns,
                before.fits(topo@.links.len()),
                link_bytes_sent@.len() == n,
                want == before.after(now, link_bytes_sent@, topo@).frames.last().links,
                links@ =~= want.take(i as int),
                bytes@ =~= link_bytes_sent@.take(i as int),
            decreases n - i,
        {
            let depth: u32 = queue_depth_for_link(topo, i as u32);
            links.push(
                LinkSnapshot {
                    delta_bytes: link_bytes_sent[i].saturating_sub(self.prev_bytes[i]),
                    queue_depth_bytes: depth,
                },
            );
            bytes.push(link_bytes_sent[i]);
            i = i + 1;
        }
        self.prev_bytes = bytes;
        let frame = VizFrame { time_ns: now, links };
        assert(frame@.links =~= want);
        self.frames.push(frame);
        self.next_sample_ns = now.saturating_add(self.interval_ns);
        assert(self@.prev_bytes =~= link_bytes_sent@);
        assert(self@.frames =~= before.after(now, link_bytes_sent@, topo@).frames);
    }

    /// Whether the sampler takes samples.
    pub fn is_enabled(&self) -> (r: bool)
        ensures
            r == self@.enabled,
    {
        self.enabled
    }
}

proof fn lemma_depth_at_ports(ports: Seq<PortView>, link_id: u32, from: int)
    requires
        0 <= from <= ports.len(),
    ensures
        match depth_at_ports(ports, link_id, from) {
            Some(d) => exists|p: int|
                from <= p < ports.len() && (#[trigger] ports[p]).link_id == link_id
                    && ports[p].queue_bytes == d && forall|o: int|
                    from <= o < p ==> (#[trigger] ports[o]).link_id != link_id,
            None => forall|o: int|
                from <= o < ports.len() ==> (#[trigger] ports[o]).link_id != link_id,
        },
    decreases ports.len() - from,
{
    if from < ports.len() {
        if ports[from].link_id == link_id {
            assert(ports[from].queue_bytes == depth_at_ports(ports, link_id, from)->0);
        } else {
            lemma_depth_at_ports(ports, link_id, from + 1);
            if let Some(d) = depth_at_ports(ports, link_id, from) {
                let p = choose|p: int|
                    from + 1 <= p < ports.len() && (#[trigger] ports[p]).link_id == link_id
                        && ports[p].queue_bytes == d && forall|o: int|
                        from + 1 <= o < p ==> (#[trigger] ports[o]).link_id != link_id;
                assert(ports[p].link_id == link_id);
            }
        }
    }
}

proof fn lemma_depth_at_switches(switches: Seq<SwitchView>, link_id: u32, from: int)
    requires
        0 <= from <= switches.len(),
    ensures
        ({
            let d = depth_at_switches(switches, link_id, from);
            ||| d == 0 && forall|s: int, p: int|
                from <= s < switches.len() && 0 <= p < switches[s].ports.len() ==> (
                #[trigger] switches[s].ports[p]).link_id != link_id
            ||| exists|s: int, p: int|
                from <= s < switches.len() && 0 <= p < switches[s].ports.len() && (
                #[trigger] switches[s].ports[p]).link_id == link_id
                    && switches[s].ports[p].queue_bytes == d
        }),
    decreases switches.len() - from,
{
    if from < switches.len() {
        let ports = switches[from].ports;
        lemma_depth_at_ports(ports, link_id, 0);
        match depth_at_ports(ports, link_id, 0) {
            Some(d) => {
                let p = choose|p: int|
                    0 <= p < ports.len() && (#[trigger] ports[p]).link_id == link_id
                        && ports[p].queue_bytes == d && forall|o: int|
                        0 <= o < p ==> (#[trigger] ports[o]).link_id != link_id;
                assert(switches[from].ports[p].link_id == link_id);
            },
            None => {
                lemma_depth_at_switches(switches, link_id, from + 1);
                assert forall|p: int| 0 <= p < ports.len() implies (
                #[trigger] switches[from].ports[p]).link_id != link_id by {
                    assert(ports[p].link_id != link_id);
                }
            },
        }
    }
}

/// The depth of a link is what is queued at a port that leads onto it, and zero if there is none.
pub proof fn law_depth_of_link(switches: Seq<SwitchView>, link_id: u32)
    ensures
        ({
            let d = depth_at_switches(switches, link_id, 0);
            ||| d == 0 && forall|s: int, p: int|
                0 <= s < switches.len() && 0 <= p < switches[s].ports.len() ==> (
                #[trigger] switches[s].ports[p]).link_id != link_id
            ||| exists|s: int, p: int|
                0 <= s < switches.len() && 0 <= p < switches[s].ports.len() && (
                #[trigger] switches[s].ports[p]).link_id == link_id
                    && switches[s].ports[p].queue_bytes == d
        }),
{
    lemma_depth_at_switches(switches, link_id, 0);
}

/// A sample is taken when the sampler is on and the time has come. It holds, for every link, the bytes since
/// the last sample and the depth of its queue, and the next one is due an interval later. Otherwise nothing
/// changes.
pub proof fn law_sample_is_taken(s: SamplerView, now: u64, bytes: Seq<u64>, topo: TopologyView)
    ensures
        ({
            let t = s.after(now, bytes, topo);
            let frame = t.frames.last();
            &&& !s.enabled || now < s.next_sample_ns ==> t == s
            &&& s.enabled && now >= s.next_sample_ns ==> {
                &&& t.frames.len() == s.frames.len() + 1
                &&& t.frames.drop_last() =~= s.frames
                &&& frame.time_ns == now
                &&& frame.links.len() == topo.links.len()
                &&& forall|i: int|
                    0 <= i < topo.links.len() ==> (#[trigger] frame.links[i]).delta_bytes
                        == if bytes[i] > s.prev_bytes[i] {
                        bytes[i] - s.prev_bytes[i]
                    } else {
                        0
                    }
                &&& forall|i: int|
                    0 <= i < topo.links.len() ==> (#[trigger] frame.links[i]).queue_depth_bytes
                        == depth_at_switches(topo.switches, i as u32, 0)
                &&& t.prev_bytes == bytes
                &&& now + s.interval_ns <= u64::MAX ==> t.next_sample_ns == now + s.interval_ns
                &&& t.interval_ns == s.interval_ns && t.enabled
            }
        }),
{
}

} // verus!
