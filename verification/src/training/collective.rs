//! Collective communication and the flows that it consists of.
//!
//! A collective runs in steps of fixed length. A message is cut into chunks; chunks that do not
//! fit on the channels of a step wait for a later wave.
use crate::traffic::FlowDesc;
use crate::EntityId;
use vstd::prelude::*;

verus! {

use vstd::arithmetic::div_mod::lemma_fundamental_div_mod_converse;

/// The length of a step without pipelining.
pub const STEP_SPACING_NS: u64 = 1_000;

/// What a collective computes.
#[derive(Debug, Clone, Copy, PartialEq, Eq, Structural)]
pub enum CollectiveKind {
    AllReduce,
    ReduceScatter,
    AllGather,
    AllToAll,
}

/// How a collective is carried out.
#[derive(Debug, Clone, Copy, PartialEq, Eq, Structural)]
pub enum CollectiveAlgorithm {
    /// On a ring, in twice as many steps as there are other nodes.
    Ring,
    /// A reduce-scatter followed by an all-gather, each on a ring.
    ReduceScatterThenAllGather,
    /// On a binary tree, towards the root and back.
    Tree,
}

/// How a message is cut up and sent.
#[derive(Debug, Clone, Copy)]
pub struct ChunkConfig {
    /// The size of a chunk; zero if the message is not cut up.
    pub chunk_size_bytes: u64,
    /// The number of chunks that can be sent side by side.
    pub num_channels: u32,
    /// The depth of the pipeline; steps overlap where it is more than one.
    pub pipeline_depth: u32,
}

impl Default for ChunkConfig {
    fn default() -> (c: Self)
        ensures
            c == (ChunkConfig { chunk_size_bytes: 0, num_channels: 1, pipeline_depth: 1 }),
    {
        ChunkConfig { chunk_size_bytes: 0, num_channels: 1, pipeline_depth: 1 }
    }
}

/// A collective.
#[derive(Debug, Clone)]
pub struct CollectiveOp {
    pub kind: CollectiveKind,
    pub algorithm: CollectiveAlgorithm,
    /// The nodes that take part.
    pub nodes: Vec<EntityId>,
    /// The size of the message of each node.
    pub message_bytes: u64,
    pub chunk_config: ChunkConfig,
}

/// What a collective is.
#[verifier::ext_equal]
pub struct OpView {
    pub kind: CollectiveKind,
    pub algorithm: CollectiveAlgorithm,
    pub nodes: Seq<EntityId>,
    pub message_bytes: u64,
    pub chunk_config: ChunkConfig,
}

impl View for CollectiveOp {
    type V = OpView;

    open spec fn view(&self) -> OpView {
        OpView {
            kind: self.kind,
            algorithm: self.algorithm,
            nodes: self.nodes@,
            message_bytes: self.message_bytes,
            chunk_config: self.chunk_config,
        }
    }
}

/// A flow of a collective, with the number of the step at which it starts.
pub struct StepFlow {
    pub src: EntityId,
    pub dst: EntityId,
    pub bytes: u64,
    pub step: int,
}

/// The quotient rounded up.
pub open spec fn ceil_div(a: int, b: int) -> int {
    (a + b - 1) / b
}

/// The larger of two numbers.
pub open spec fn at_least(a: int, b: int) -> int {
    if a > b {
        a
    } else {
        b
    }
}

/// The flows of a schedule, numbered from `base_fid` on, when step zero is at `base_time`.
pub open spec fn timed(
    steps: Seq<StepFlow>,
    base_time: u64,
    base_fid: int,
    spacing: int,
) -> Seq<FlowDesc> {
    Seq::new(
        steps.len(),
        |k: int|
            FlowDesc {
                flow_id: (base_fid + k) as u32,
                src: steps[k].src,
                dst: steps[k].dst,
                bytes: steps[k].bytes,
                start_time_ns: (base_time + steps[k].step * spacing) as u64,
            },
    )
}

/// The flows of a schedule can be numbered from `base_fid` on, and their times fit.
pub open spec fn schedule_fits(
    steps: Seq<StepFlow>,
    base_time: u64,
    base_fid: int,
    spacing: int,
) -> bool {
    &&& base_fid + steps.len() <= u32::MAX
    &&& forall|k: int|
        0 <= k < steps.len() ==> base_time + (#[trigger] steps[k]).step * spacing <= u64::MAX
}

/// The latest start of a flow, and `base` if that is later.
pub open spec fn latest_start(base: u64, flows: Seq<FlowDesc>) -> u64
    decreases flows.len(),
{
    if flows.len() == 0 {
        base
    } else {
        let before = latest_start(base, flows.drop_last());
        let last = flows.last().start_time_ns;
        if last > before {
            last
        } else {
            before
        }
    }
}

impl OpView {
    /// The bytes that a node sends to another in a step.
    pub open spec fn payload(self) -> int {
        at_least(ceil_div(self.message_bytes as int, self.nodes.len() as int), 1)
    }

    /// The size of a chunk.
    pub open spec fn chunk_size(self) -> int {
        let size = self.chunk_config.chunk_size_bytes as int;
        if size > 0 && size < self.payload() {
            size
        } else {
            self.payload()
        }
    }

    /// The number of chunks that the payload is cut into.
    pub open spec fn chunks(self) -> int {
        if self.chunk_config.chunk_size_bytes == 0 {
            1
        } else {
            ceil_div(self.payload(), self.chunk_size())
        }
    }

    /// The size of chunk `c`: what is left of the payload, but no more than a chunk, and no less
    /// than a byte.
    pub open spec fn chunk_len(self, c: int) -> u64 {
        let left = self.payload() - c * self.chunk_size();
        at_least(
            if left < self.chunk_size() {
                left
            } else {
                self.chunk_size()
            },
            1,
        ) as u64
    }

    /// The number of chunks that can be sent side by side.
    pub open spec fn channels(self) -> int {
        at_least(self.chunk_config.num_channels as int, 1)
    }

    /// The depth of the pipeline.
    pub open spec fn depth(self) -> int {
        at_least(self.chunk_config.pipeline_depth as int, 1)
    }

    /// The length of a step, which a deeper pipeline divides.
    pub open spec fn spacing(self) -> int {
        at_least(STEP_SPACING_NS as int / self.depth(), 1)
    }

    /// The number of waves in which the chunks are sent.
    pub open spec fn waves(self) -> int {
        ceil_div(self.chunks(), self.channels())
    }

    /// How far a phase of `steps` steps moves the next phase on. In a pipeline the waves follow
    /// each other from step to step; otherwise every step waits for all waves.
    pub open spec fn advance(self, steps: int) -> int {
        if self.depth() > 1 {
            steps + self.waves() - 1
        } else {
            steps * self.waves()
        }
    }

    /// The flows of one phase on the ring, which starts at step `offset`: in every step every node
    /// sends every chunk to the next node.
    pub open spec fn ring_phase(self, offset: int) -> Seq<StepFlow> {
        let n = self.nodes.len() as int;
        Seq::new(
            ((n - 1) * self.chunks() * n) as nat,
            |k: int|
                {
                    let c = (k / n) % self.chunks();
                    StepFlow {
                        src: self.nodes[k % n],
                        dst: self.nodes[(k % n + 1) % n],
                        bytes: self.chunk_len(c),
                        step: offset + (k / n) / self.chunks() + c / self.channels(),
                    }
                },
        )
    }

    /// The flows on the ring: two phases of as many steps as there are other nodes.
    pub open spec fn ring_steps(self) -> Seq<StepFlow> {
        self.ring_phase(0) + self.ring_phase(self.advance(self.nodes.len() - 1))
    }

    /// The number of nodes that receive, or send, at one level of the tree.
    pub open spec fn level_size(self, stride: int) -> int {
        ceil_div(self.nodes.len() as int, 2 * stride)
    }

    /// The flows at one level of the tree, which starts at step `step`. Towards the root every
    /// second of the nodes `stride` apart sends to the one before it; away from the root it
    /// receives.
    pub open spec fn tree_level(self, stride: int, step: int, up: bool) -> Seq<StepFlow> {
        let n = self.nodes.len() as int;
        let m = self.level_size(stride);
        Seq::new(
            (self.chunks() * m) as nat,
            |k: int|
                {
                    let c = k / m;
                    let i = (k % m) * (2 * stride);
                    let child = self.nodes[(i + stride) % n];
                    let parent = self.nodes[i];
                    StepFlow {
                        src: if up {
                            child
                        } else {
                            parent
                        },
                        dst: if up {
                            parent
                        } else {
                            child
                        },
                        bytes: self.chunk_len(c),
                        step: step + c / self.channels(),
                    }
                },
        )
    }

    /// The flows towards the root, from the level of `stride` on, and the step after them.
    pub open spec fn tree_up(self, stride: int, step: int) -> (Seq<StepFlow>, int)
        decreases at_least(self.nodes.len() - stride, 0),
    {
        if stride <= 0 || stride >= self.nodes.len() {
            (Seq::empty(), step)
        } else {
            let (rest, end) = self.tree_up(2 * stride, step + self.advance(1));
            (self.tree_level(stride, step, true) + rest, end)
        }
    }

    /// The flows away from the root, from the level of `stride` on.
    pub open spec fn tree_down(self, stride: int, step: int) -> Seq<StepFlow>
        decreases stride,
    {
        if stride <= 0 {
            Seq::empty()
        } else {
            self.tree_level(stride, step, false) + self.tree_down(
                stride / 2,
                step + self.advance(1),
            )
        }
    }

    /// The flows on the tree: towards the root, and back.
    pub open spec fn tree_steps(self) -> Seq<StepFlow> {
        let (up, step) = self.tree_up(1, 0);
        up + self.tree_down(self.nodes.len() as int / 2, step)
    }

    /// The flows of the collective; none for fewer than two nodes.
    pub open spec fn steps(self) -> Seq<StepFlow> {
        if self.nodes.len() < 2 {
            Seq::empty()
        } else {
            match self.algorithm {
                CollectiveAlgorithm::Ring => self.ring_steps(),
                CollectiveAlgorithm::ReduceScatterThenAllGather => self.ring_steps(),
                CollectiveAlgorithm::Tree => self.tree_steps(),
            }
        }
    }

    /// The flows can be numbered from `base_fid` on, and their times fit.
    pub open spec fn fits(self, base_time: u64, base_fid: int) -> bool {
        schedule_fits(self.steps(), base_time, base_fid, self.spacing())
    }

    /// The flows when step zero is at `base_time`, numbered from `base_fid` on.
    pub open spec fn flows(self, base_time: u64, base_fid: int) -> Seq<FlowDesc> {
        timed(self.steps(), base_time, base_fid, self.spacing())
    }

    /// When the collective is planned to end: a step after the latest start.
    pub open spec fn end(self, base_time: u64) -> u64 {
        if self.nodes.len() < 2 {
            base_time
        } else {
            latest_start(base_time, self.flows(base_time, 0)).saturating_add(self.spacing() as u64)
        }
    }
}

proof fn lemma_latest_ignores_numbers(base: u64, a: Seq<FlowDesc>, b: Seq<FlowDesc>)
    requires
        a.len() == b.len(),
        forall|k: int|
            0 <= k < a.len() ==> (#[trigger] a[k]).start_time_ns == (#[trigger] b[k]).start_time_ns,
    ensures
        latest_start(base, a) == latest_start(base, b),
    decreases a.len(),
{
    if a.len() > 0 {
        lemma_latest_ignores_numbers(base, a.drop_last(), b.drop_last());
        assert(a[a.len() - 1].start_time_ns == b[a.len() - 1].start_time_ns);
    }
}

/// The latest start is that of some flow, or the base, and no flow starts later.
pub proof fn lemma_latest_bounds(base: u64, flows: Seq<FlowDesc>)
    ensures
        base <= latest_start(base, flows),
        forall|k: int|
            0 <= k < flows.len() ==> (#[trigger] flows[k]).start_time_ns <= latest_start(
                base,
                flows,
            ),
        latest_start(base, flows) == base || exists|k: int|
            0 <= k < flows.len() && (#[trigger] flows[k]).start_time_ns == latest_start(
                base,
                flows,
            ),
    decreases flows.len(),
{
    if flows.len() > 0 {
        let before = flows.drop_last();
        lemma_latest_bounds(base, before);
        assert forall|k: int| 0 <= k < flows.len() implies (#[trigger] flows[k]).start_time_ns
            <= latest_start(base, flows) by {
            if k < before.len() {
                assert(before[k].start_time_ns <= latest_start(base, before));
            }
        }
        if latest_start(base, flows) != base {
            if flows.last().start_time_ns > latest_start(base, before) {
                assert(flows[flows.len() - 1].start_time_ns == latest_start(base, flows));
            } else {
                let k = choose|k: int|
                    0 <= k < before.len() && (#[trigger] before[k]).start_time_ns == latest_start(
                        base,
                        before,
                    );
                assert(flows[k].start_time_ns == latest_start(base, flows));
            }
        }
    }
}

/// The parts of a message, of its chunks and of the schedule that follow from the settings.
struct Layout {
    chunks: u64,
    payload: u64,
    chunk_size: u64,
    channels: u64,
    spacing: u64,
}

impl Layout {
    spec fn is_of(self, op: OpView) -> bool {
        &&& op.nodes.len() >= 2
        &&& self.chunks == op.chunks()
        &&& self.payload == op.payload()
        &&& self.chunk_size == op.chunk_size()
        &&& self.channels == op.channels()
        &&& self.spacing == op.spacing()
    }

    proof fn lemma_positive(self, op: OpView)
        requires
            self.is_of(op),
        ensures
            self.chunks >= 1,
            1 <= self.chunk_size <= self.payload,
            1 <= self.channels <= u32::MAX,
            1 <= self.spacing <= 1000,
            1 <= op.waves() <= self.chunks,
            (self.chunks - 1) as int / self.channels as int == op.waves() - 1,
    {
        op.lemma_sizes();
    }
}

impl OpView {
    /// The sizes are positive.
    pub proof fn lemma_sizes(self)
        requires
            self.nodes.len() >= 2,
        ensures
            1 <= self.payload() <= at_least(self.message_bytes as int, 1),
            1 <= self.chunk_size() <= self.payload(),
            1 <= self.chunks() <= self.payload(),
            1 <= self.channels() <= u32::MAX,
            1 <= self.spacing() <= 1000,
            1 <= self.waves() <= self.chunks(),
            (self.chunks() - 1) / self.channels() == self.waves() - 1,
    {
        let m = self.message_bytes as int;
        let n = self.nodes.len() as int;
        lemma_ceil(m, n);
        lemma_ceil(self.payload(), self.chunk_size());
        lemma_ceil(self.chunks(), self.channels());
        let d = self.depth();
        assert(0 <= 1000int / d <= 1000) by (nonlinear_arith)
            requires
                d >= 1,
        ;
    }
}

/// Facts about the quotient rounded up.
pub proof fn lemma_ceil(a: int, b: int)
    requires
        0 <= a,
        1 <= b,
    ensures
        0 <= ceil_div(a, b) <= a,
        a > 0 ==> ceil_div(a, b) >= 1 && (a - 1) / b == ceil_div(a, b) - 1,
        (ceil_div(a, b) - 1) * b < a || a == 0,
        a <= ceil_div(a, b) * b,
{
    let q = ceil_div(a, b);
    vstd::arithmetic::div_mod::lemma_fundamental_div_mod(a + b - 1, b);
    let r = (a + b - 1) % b;
    assert(0 <= r < b) by (nonlinear_arith)
        requires
            r == (a + b - 1) % b,
            b >= 1,
    ;
    assert(a + b - 1 == b * q + r);
    assert((q - 1) * b == b * q - b) by (nonlinear_arith);
    assert(q * b == b * q) by (nonlinear_arith);
    if a > 0 {
        assert(q >= 1) by (nonlinear_arith)
            requires
                b * q + r == a + b - 1,
                r < b,
                a > 0,
                b >= 1,
        ;
        assert(q <= a) by (nonlinear_arith)
            requires
                (q - 1) * b < a,
                b >= 1,
                q >= 1,
        ;
        lemma_fundamental_div_mod_converse(a - 1, b, q - 1, r);
    } else {
        assert(q == 0) by {
            vstd::arithmetic::div_mod::lemma_basic_div(b - 1, b);
        }
    }
}

fn ceil_u64(a: u64, b: u64) -> (q: u64)
    requires
        b >= 1,
    ensures
        q == ceil_div(a as int, b as int),
{
    proof {
        lemma_ceil(a as int, b as int);
        if a == 0 {
            vstd::arithmetic::div_mod::lemma_basic_div(b - 1, b as int);
        }
    }
    if a == 0 {
        0
    } else {
        (a - 1) / b + 1
    }
}

impl CollectiveOp {
    /// A copy of the collective.
    pub fn duplicate(&self) -> (op: Self)
        ensures
            op@ == self@,
    {
        let mut nodes: Vec<EntityId> = Vec::new();
        let mut i: usize = 0;
        while i < self.nodes.len()
            invariant
                i <= self.nodes@.len(),
                nodes@ =~= self.nodes@.take(i as int),
            decreases self.nodes@.len() - i,
        {
            nodes.push(self.nodes[i]);
            i = i + 1;
        }
        assert(nodes@ =~= self.nodes@);
        CollectiveOp {
            kind: self.kind,
            algorithm: self.algorithm,
            nodes,
            message_bytes: self.message_bytes,
            chunk_config: self.chunk_config,
        }
    }

    /// The flows of the collective when it starts at `base_time_ns`, numbered from `base_fid`
    /// on.
    pub fn generate(&self, base_time_ns: u64, base_fid: u32) -> (flows: Vec<FlowDesc>)
        requires
            self@.fits(base_time_ns, base_fid as int),
        ensures
            flows@ == self@.flows(base_time_ns, base_fid as int),
    {
        let (flows, _) = self.generate_with_end(base_time_ns, base_fid);
        flows
    }

    /// The flows of the collective, and when it is planned to end.
    pub fn generate_with_end(&self, base_time_ns: u64, base_fid: u32) -> (r: (Vec<FlowDesc>, u64))
        requires
            self@.fits(base_time_ns, base_fid as int),
        ensures
            r.0@ == self@.flows(base_time_ns, base_fid as int),
            r.1 == self@.end(base_time_ns),
    {
        let r = match self.algorithm {
            CollectiveAlgorithm::Ring => self.generate_ring(base_time_ns, base_fid),
            CollectiveAlgorithm::ReduceScatterThenAllGather => self.generate_ring(
                base_time_ns,
                base_fid,
            ),
            CollectiveAlgorithm::Tree => self.generate_tree(base_time_ns, base_fid),
        };
        proof {
            lemma_latest_ignores_numbers(
                base_time_ns,
                self@.flows(base_time_ns, base_fid as int),
                self@.flows(base_time_ns, 0),
            );
        }
        r
    }

    fn layout(&self) -> (l: Layout)
        requires
            self.nodes@.len() >= 2,
        ensures
            l.is_of(self@),
    {
        let n: usize = self.nodes.len();
        let payload: u64 = self.payload_bytes(n as u64);
        let chunk_size: u64 = self.chunk_bytes(payload);
        let chunks: u64 = self.chunks_per_edge(payload, chunk_size);
        Layout {
            chunks,
            payload,
            chunk_size,
            channels: self.channels() as u64,
            spacing: self.step_spacing_ns(),
        }
    }

    fn payload_bytes(&self, n: u64) -> (b: u64)
        requires
            n == self.nodes@.len(),
            n >= 2,
        ensures
            b == self@.payload(),
    {
        let b: u64 = ceil_u64(self.message_bytes, n);
        if b > 1 {
            b
        } else {
            1
        }
    }

    fn chunk_bytes(&self, payload_bytes: u64) -> (b: u64)
        requires
            self.nodes@.len() >= 2,
            payload_bytes == self@.payload(),
        ensures
            b == self@.chunk_size(),
            b >= 1,
    {
        proof {
            self@.lemma_sizes();
        }
        let size: u64 = self.chunk_config.chunk_size_bytes;
        if size > 0 && size < payload_bytes {
            size
        } else {
            payload_bytes
        }
    }

    fn chunks_per_edge(&self, payload_bytes: u64, chunk_size: u64) -> (c: u64)
        requires
            self.nodes@.len() >= 2,
            payload_bytes == self@.payload(),
            chunk_size == self@.chunk_size(),
            chunk_size >= 1,
        ensures
            c == self@.chunks(),
    {
        if self.chunk_config.chunk_size_bytes == 0 {
            1
        } else {
            ceil_u64(payload_bytes, chunk_size)
        }
    }

    fn chunk_bytes_for(&self, chunk_idx: u64, l: &Layout) -> (b: u64)
        requires
            l.is_of(self@),
        ensures
            b == self@.chunk_len(chunk_idx as int),
    {
        proof {
            l.lemma_positive(self@);
        }
        let left: u64 = match chunk_idx.checked_mul(l.chunk_size) {
            Some(done) => l.payload.saturating_sub(done),
            None => 0,
        };
        let b: u64 = if left < l.chunk_size {
            left
        } else {
            l.chunk_size
        };
        if b > 1 {
            b
        } else {
            1
        }
    }

    fn channels(&self) -> (c: u32)
        ensures
            c == self@.channels(),
    {
        if self.chunk_config.num_channels > 1 {
            self.chunk_config.num_channels
        } else {
            1
        }
    }

    fn pipeline_depth(&self) -> (d: u32)
        ensures
            d == self@.depth(),
    {
        if self.chunk_config.pipeline_depth > 1 {
            self.chunk_config.pipeline_depth
        } else {
            1
        }
    }

    fn step_spacing_ns(&self) -> (s: u64)
        ensures
            s == self@.spacing(),
    {
        let s: u64 = STEP_SPACING_NS / self.pipeline_depth() as u64;
        if s > 1 {
            s
        } else {
            1
        }
    }

    fn phase_advance_steps(&self, steps: u64, l: &Layout) -> (a: u64)
        requires
            l.is_of(self@),
            steps * l.chunks <= u32::MAX,
            1 <= steps,
        ensures
            a == self@.advance(steps as int),
            a <= steps * l.chunks,
    {
        proof {
            l.lemma_positive(self@);
        }
        let waves: u64 = ceil_u64(l.chunks, l.channels);
        proof {
            assert(steps * waves <= steps * l.chunks) by (nonlinear_arith)
                requires
                    waves <= l.chunks,
                    steps >= 1,
            ;
            assert(steps + waves - 1 <= steps * waves) by (nonlinear_arith)
                requires
                    steps >= 1,
                    waves >= 1,
            ;
        }
        if self.pipeline_depth() > 1 {
            steps + (waves - 1)
        } else {
            steps * waves
        }
    }

    /// Adds a flow from every node to the next.
    fn push_ring_row(
        &self,
        flows: &mut Vec<FlowDesc>,
        base_fid: u32,
        bytes: u64,
        start_time_ns: u64,
    )
        requires
            self.nodes@.len() >= 1,
            base_fid + old(flows)@.len() + self.nodes@.len() <= u32::MAX,
        ensures
            final(flows)@ == old(flows)@ + Seq::new(
                self.nodes@.len(),
                |i: int|
                    FlowDesc {
                        flow_id: (base_fid + old(flows)@.len() + i) as u32,
                        src: self.nodes@[i],
                        dst: self.nodes@[(i + 1) % (self.nodes@.len() as int)],
                        bytes,
                        start_time_ns,
                    },
            ),
    {
        let ghost row = Seq::new(
            self.nodes@.len(),
            |i: int|
                FlowDesc {
                    flow_id: (base_fid + old(flows)@.len() + i) as u32,
                    src: self.nodes@[i],
                    dst: self.nodes@[(i + 1) % (self.nodes@.len() as int)],
                    bytes,
                    start_time_ns,
                },
        );
        let n: usize = self.nodes.len();
        let mut i: usize = 0;
        while i < n
            invariant
                i <= n,
                n == self.nodes@.len(),
                n >= 1,
                base_fid + old(flows)@.len() + n <= u32::MAX,
                row == Seq::new(
                    self.nodes@.len(),
                    |i: int|
                        FlowDesc {
                            flow_id: (base_fid + old(flows)@.len() + i) as u32,
                            src: self.nodes@[i],
                            dst: self.nodes@[(i + 1) % (self.nodes@.len() as int)],
                            bytes,
                            start_time_ns,
                        },
                ),
                flows@ =~= old(flows)@ + row.take(i as int),
            decreases n - i,
        {
            let len: usize = flows.len();
            let next: usize = (i + 1) % n;
            flows.push(
                FlowDesc {
                    flow_id: base_fid + len as u32,
                    src: self.nodes[i],
                    dst: self.nodes[next],
                    bytes,
                    start_time_ns,
                },
            );
            i = i + 1;
        }
        assert(flows@ =~= old(flows)@ + row);
    }

    /// Adds the flows of one phase on the ring.
    fn push_ring_phase(
        &self,
        flows: &mut Vec<FlowDesc>,
        l: &Layout,
        base_time_ns: u64,
        base_fid: u32,
        offset: u64,
        Ghost(all): Ghost<Seq<StepFlow>>,
    )
        requires
            l.is_of(self@),
            schedule_fits(all, base_time_ns, base_fid as int, l.spacing as int),
            old(flows)@.len() + self@.ring_phase(offset as int).len() <= all.len(),
            all.subrange(
                old(flows)@.len() as int,
                (old(flows)@.len() + self@.ring_phase(offset as int).len()) as int,
            ) == self@.ring_phase(offset as int),
            old(flows)@ == timed(all, base_time_ns, base_fid as int, l.spacing as int).take(
                old(flows)@.len() as int,
            ),
        ensures
            final(flows)@.len() == old(flows)@.len() + self@.ring_phase(offset as int).len(),
            final(flows)@ == timed(all, base_time_ns, base_fid as int, l.spacing as int).take(
                final(flows)@.len() as int,
            ),
    {
        proof {
            l.lemma_positive(self@);
        }
        let ghost phase = self@.ring_phase(offset as int);
        let ghost first = flows@.len() as int;
        let ghost want = timed(all, base_time_ns, base_fid as int, l.spacing as int);
        let n: usize = self.nodes.len();
        let ghost (ni, ch) = (n as int, l.chunks as int);
        proof {
            assert((ni - 1) * ch * ni >= 0) by (nonlinear_arith)
                requires
                    ni >= 1,
                    ch >= 1,
            ;
            assert(0 * ch * ni == 0) by (nonlinear_arith);
        }
        let mut step: u64 = 0;
        while step < (n - 1) as u64
            invariant
                step <= n - 1,
                n == self.nodes@.len(),
                n >= 2,
                ni == n,
                ch == l.chunks,
                l.is_of(self@),
                l.chunks >= 1,
                l.channels >= 1,
                phase == self@.ring_phase(offset as int),
                phase.len() == (ni - 1) * ch * ni,
                schedule_fits(all, base_time_ns, base_fid as int, l.spacing as int),
                0 <= first <= first + phase.len() <= all.len(),
                all.subrange(first, first + phase.len()) == phase,
                want == timed(all, base_time_ns, base_fid as int, l.spacing as int),
                flows@.len() == first + step * ch * ni,
                flows@ =~= want.take(flows@.len() as int),
            decreases n - 1 - step,
        {
            let mut c: u64 = 0;
            assert((step * ch + 0) * ni == step * ch * ni);
            while c < l.chunks
                invariant
                    c <= l.chunks,
                    step < n - 1,
                    n == self.nodes@.len(),
                    n >= 2,
                    ni == n,
                    ch == l.chunks,
                    l.is_of(self@),
                    l.chunks >= 1,
                    l.channels >= 1,
                    phase == self@.ring_phase(offset as int),
                    phase.len() == (ni - 1) * ch * ni,
                    schedule_fits(all, base_time_ns, base_fid as int, l.spacing as int),
                    0 <= first <= first + phase.len() <= all.len(),
                    all.subrange(first, first + phase.len()) == phase,
                    want == timed(all, base_time_ns, base_fid as int, l.spacing as int),
                    flows@.len() == first + (step * ch + c) * ni,
                    flows@ =~= want.take(flows@.len() as int),
                decreases l.chunks - c,
            {
                let ghost before = flows@;
                let ghost row = step * ch + c;
                let ghost at = (step * ch + c) * ni;
                proof {
                    lemma_ring_row(step as int, c as int, ni, ch);
                    assert(phase[at].step == offset + step + c as int / l.channels as int) by {
                        lemma_ring_index(step as int, c as int, 0, ni, ch);
                    }
                    assert(all.subrange(first, first + phase.len())[at] == all[first + at]);
                    let s = all[first + at].step;
                    assert(base_time_ns + s * l.spacing <= u64::MAX);
                    l.lemma_positive(self@);
                    assert(s <= s * l.spacing) by (nonlinear_arith)
                        requires
                            s >= 0,
                            l.spacing >= 1,
                    ;
                }
                let wave: u64 = c / l.channels;
                let at_step: u64 = offset + step + wave;
                assert(at_step == all[first + at].step);
                let start: u64 = base_time_ns + at_step * l.spacing;
                let bytes: u64 = self.chunk_bytes_for(c, l);
                self.push_ring_row(flows, base_fid, bytes, start);
                proof {
                    assert forall|k: int| 0 <= k < flows@.len() implies flows@[k] == want[k] by {
                        if k >= before.len() {
                            let i = k - before.len();
                            lemma_ring_index(step as int, c as int, i, ni, ch);
                            assert(all.subrange(first, first + phase.len())[at + i] == all[first + at
                                + i]);
                            assert(phase[at + i].step == at_step);
                        } else {
                            assert(before[k] == want.take(before.len() as int)[k]);
                        }
                    }
                    assert((row + 1) * ni == row * ni + ni) by (nonlinear_arith);
                    assert(flows@ =~= want.take(flows@.len() as int));
                }
                c = c + 1;
            }
            assert((step * ch + ch) * ni == (step + 1) * ch * ni) by (nonlinear_arith);
            step = step + 1;
        }
    }

    fn generate_ring(&self, base_time_ns: u64, base_fid: u32) -> (r: (Vec<FlowDesc>, u64))
        requires
            !(self.algorithm is Tree),
            self@.fits(base_time_ns, base_fid as int),
        ensures
            r.0@ == self@.flows(base_time_ns, base_fid as int),
            r.1 == (if self.nodes@.len() < 2 {
                base_time_ns
            } else {
                latest_start(base_time_ns, r.0@).saturating_add(self@.spacing() as u64)
            }),
    {
        let mut flows: Vec<FlowDesc> = Vec::new();
        let n: usize = self.nodes.len();
        if n < 2 {
            assert(flows@ =~= self@.flows(base_time_ns, base_fid as int));
            return (flows, base_time_ns);
        }
        let l = self.layout();
        let ghost all = self@.ring_steps();
        let ghost ni = n as int;
        let ghost ch = l.chunks as int;
        proof {
            l.lemma_positive(self@);
            assert(self@.steps() == all);
            assert((ni - 1) * ch * ni >= (ni - 1) * ch >= 0) by (nonlinear_arith)
                requires
                    ni >= 2,
                    ch >= 1,
            ;
            assert(all.len() == 2 * ((ni - 1) * ch * ni));
            assert((ni - 1) * ch <= u32::MAX);
            assert(all.subrange(0, self@.ring_phase(0).len() as int) =~= self@.ring_phase(0));
            let adv = self@.advance(n - 1);
            assert(all.subrange(self@.ring_phase(0).len() as int, all.len() as int)
                =~= self@.ring_phase(adv));
            assert(flows@ =~= timed(all, base_time_ns, base_fid as int, l.spacing as int).take(0));
        }
        self.push_ring_phase(&mut flows, &l, base_time_ns, base_fid, 0, Ghost(all));
        let offset: u64 = self.phase_advance_steps((n - 1) as u64, &l);
        self.push_ring_phase(&mut flows, &l, base_time_ns, base_fid, offset, Ghost(all));
        proof {
            let want = timed(all, base_time_ns, base_fid as int, l.spacing as int);
            assert(want.take(want.len() as int) =~= want);
        }
        let last: u64 = last_start(base_time_ns, &flows);
        (flows, last.saturating_add(l.spacing))
    }

    /// Adds the flows of one level of the tree.
    fn push_tree_level(
        &self,
        flows: &mut Vec<FlowDesc>,
        l: &Layout,
        base_time_ns: u64,
        base_fid: u32,
        stride: u64,
        step: u64,
        up: bool,
        Ghost(all): Ghost<Seq<StepFlow>>,
    )
        requires
            l.is_of(self@),
            1 <= stride < self.nodes@.len(),
            self.nodes@.len() <= 0x2_0000_0000,
            schedule_fits(all, base_time_ns, base_fid as int, l.spacing as int),
            old(flows)@.len() + self@.tree_level(stride as int, step as int, up).len() <= all.len(),
            all.subrange(
                old(flows)@.len() as int,
                (old(flows)@.len() + self@.tree_level(stride as int, step as int, up).len()) as int,
            ) == self@.tree_level(stride as int, step as int, up),
            old(flows)@ == timed(all, base_time_ns, base_fid as int, l.spacing as int).take(
                old(flows)@.len() as int,
            ),
        ensures
            final(flows)@.len() == old(flows)@.len() + self@.tree_level(
                stride as int,
                step as int,
                up,
            ).len(),
            final(flows)@ == timed(all, base_time_ns, base_fid as int, l.spacing as int).take(
                final(flows)@.len() as int,
            ),
    {
        proof {
            l.lemma_positive(self@);
            lemma_ceil(self.nodes@.len() as int, 2 * stride as int);
        }
        let ghost level = self@.tree_level(stride as int, step as int, up);
        let ghost first = flows@.len() as int;
        let ghost want = timed(all, base_time_ns, base_fid as int, l.spacing as int);
        let n: u64 = self.nodes.len() as u64;
        let ghost m = self@.level_size(stride as int);
        let mut c: u64 = 0;
        while c < l.chunks
            invariant
                c <= l.chunks,
                n == self.nodes@.len(),
                n <= 0x2_0000_0000,
                n <= usize::MAX,
                1 <= stride < n,
                l.is_of(self@),
                l.channels >= 1,
                level == self@.tree_level(stride as int, step as int, up),
                level.len() == l.chunks * m,
                m == self@.level_size(stride as int),
                m >= 1,
                (m - 1) * (2 * stride) < n,
                n <= m * (2 * stride),
                schedule_fits(all, base_time_ns, base_fid as int, l.spacing as int),
                0 <= first <= first + level.len() <= all.len(),
                all.subrange(first, first + level.len()) == level,
                want == timed(all, base_time_ns, base_fid as int, l.spacing as int),
                flows@.len() == first + c * m,
                flows@ =~= want.take(flows@.len() as int),
            decreases l.chunks - c,
        {
            let ghost at = c * m;
            proof {
                assert(0 <= c * m && c * m + m <= l.chunks * m) by (nonlinear_arith)
                    requires
                        0 <= c,
                        c + 1 <= l.chunks,
                        m >= 1,
                ;
                lemma_fundamental_div_mod_converse(at, m, c as int, 0);
                assert(all.subrange(first, first + level.len())[at] == all[first + at]);
                let s = all[first + at].step;
                assert(s == step + c as int / l.channels as int);
                assert(base_time_ns + s * l.spacing <= u64::MAX);
                l.lemma_positive(self@);
                assert(s <= s * l.spacing) by (nonlinear_arith)
                    requires
                        s >= 0,
                        l.spacing >= 1,
                ;
            }
            let wave: u64 = c / l.channels;
            let at_step: u64 = step + wave;
            assert(at_step == all[first + at].step);
            let start: u64 = base_time_ns + at_step * l.spacing;
            let bytes: u64 = self.chunk_bytes_for(c, l);
            let mut i: u64 = 0;
            let ghost mut j: int = 0;
            while i < n
                invariant
                    0 <= j <= m,
                    i == j * (2 * stride),
                    c < l.chunks,
                    n == self.nodes@.len(),
                    n <= 0x2_0000_0000,
                    n <= usize::MAX,
                    1 <= stride < n,
                    l.is_of(self@),
                    l.channels >= 1,
                    level == self@.tree_level(stride as int, step as int, up),
                    level.len() == l.chunks * m,
                    m == self@.level_size(stride as int),
                    m >= 1,
                    (m - 1) * (2 * stride) < n,
                    n <= m * (2 * stride),
                    at == c * m,
                    0 <= at,
                    at + m <= level.len(),
                    at_step == step + c as int / l.channels as int,
                    start == base_time_ns + at_step * l.spacing,
                    bytes == self@.chunk_len(c as int),
                    schedule_fits(all, base_time_ns, base_fid as int, l.spacing as int),
                    0 <= first <= first + level.len() <= all.len(),
                    all.subrange(first, first + level.len()) == level,
                    want == timed(all, base_time_ns, base_fid as int, l.spacing as int),
                    flows@.len() == first + at + j,
                    flows@ =~= want.take(flows@.len() as int),
                decreases m - j,
            {
                proof {
                    if j >= m {
                        assert(j * (2 * stride) >= m * (2 * stride)) by (nonlinear_arith)
                            requires
                                j >= m,
                                stride >= 1,
                        ;
                    }
                    lemma_fundamental_div_mod_converse(at + j, m, c as int, j);
                    assert(all.subrange(first, first + level.len())[at + j] == all[first + at + j]);
                    assert((j + 1) * (2 * stride) == j * (2 * stride) + 2 * stride)
                        by (nonlinear_arith);
                }
                let child: EntityId = self.nodes[((i + stride) % n) as usize];
                let parent: EntityId = self.nodes[i as usize];
                let (src, dst): (EntityId, EntityId) = if up {
                    (child, parent)
                } else {
                    (parent, child)
                };
                let len: usize = flows.len();
                let flow = FlowDesc {
                    flow_id: base_fid + len as u32,
                    src,
                    dst,
                    bytes,
                    start_time_ns: start,
                };
                assert(flow == want[len as int]);
                flows.push(flow);
                i = i + 2 * stride;
                proof {
                    j = j + 1;
                }
            }
            proof {
                if j < m {
                    assert(j * (2 * stride) <= (m - 1) * (2 * stride)) by (nonlinear_arith)
                        requires
                            j <= m - 1,
                            stride >= 1,
                    ;
                }
                assert((c + 1) * m == c * m + m) by (nonlinear_arith);
            }
            c = c + 1;
        }
    }

    fn generate_tree(&self, base_time_ns: u64, base_fid: u32) -> (r: (Vec<FlowDesc>, u64))
        requires
            self.algorithm is Tree,
            self@.fits(base_time_ns, base_fid as int),
        ensures
            r.0@ == self@.flows(base_time_ns, base_fid as int),
            r.1 == (if self.nodes@.len() < 2 {
                base_time_ns
            } else {
                latest_start(base_time_ns, r.0@).saturating_add(self@.spacing() as u64)
            }),
    {
        let mut flows: Vec<FlowDesc> = Vec::new();
        let count: usize = self.nodes.len();
        if count < 2 {
            assert(flows@ =~= self@.flows(base_time_ns, base_fid as int));
            return (flows, base_time_ns);
        }
        let n: u64 = count as u64;
        let l = self.layout();
        let ghost op = self@;
        let ghost all = op.tree_steps();
        let ghost (up, turn) = op.tree_up(1, 0);
        let ghost want = timed(all, base_time_ns, base_fid as int, l.spacing as int);
        proof {
            l.lemma_positive(op);
            assert(op.steps() == all);
            op.lemma_tree_up_size(1, 0);
            assert(n as int / 2 <= u32::MAX);
            assert(flows@ =~= want.take(0));
            assert(all.subrange(0, up.len() as int) =~= up);
        }
        let mut step: u64 = 0;
        let mut stride: u64 = 1;
        while stride < n
            invariant
                1 <= stride,
                n == self.nodes@.len(),
                2 <= n <= 0x2_0000_0000,
                op == self@,
                l.is_of(op),
                l.chunks >= 1,
                op.steps() == all,
                (up, turn) == op.tree_up(1, 0),
                up.len() <= all.len() <= u32::MAX,
                schedule_fits(all, base_time_ns, base_fid as int, l.spacing as int),
                want == timed(all, base_time_ns, base_fid as int, l.spacing as int),
                step <= flows@.len() <= up.len(),
                flows@ == want.take(flows@.len() as int),
                all.subrange(flows@.len() as int, up.len() as int) == op.tree_up(
                    stride as int,
                    step as int,
                ).0,
                op.tree_up(stride as int, step as int).1 == turn,
            decreases at_least(n - stride, 0),
        {
            let ghost rest = op.tree_up(stride as int, step as int).0;
            let ghost level = op.tree_level(stride as int, step as int, true);
            let ghost first = flows@.len() as int;
            proof {
                op.lemma_level_size(stride as int, step as int, true);
                assert(rest == level + op.tree_up(2 * stride, step + op.advance(1)).0);
                assert(all.subrange(first, up.len() as int).len() == rest.len());
                assert(all.subrange(first, first + level.len()) =~= level) by {
                    assert forall|k: int| 0 <= k < level.len() implies all[first + k] == level[k] by {
                        assert(all.subrange(first, up.len() as int)[k] == rest[k]);
                    }
                }
            }
            self.push_tree_level(
                &mut flows,
                &l,
                base_time_ns,
                base_fid,
                stride,
                step,
                true,
                Ghost(all),
            );
            proof {
                let next = op.tree_up(2 * stride, step + op.advance(1)).0;
                assert(all.subrange(first + level.len(), up.len() as int) =~= next) by {
                    assert forall|k: int| 0 <= k < next.len() implies all[first + level.len() + k]
                        == next[k] by {
                        assert(all.subrange(first, up.len() as int)[level.len() + k]
                            == rest[level.len() + k]);
                    }
                }
            }
            let on: u64 = self.phase_advance_steps(1, &l);
            stride = stride * 2;
            step = step + on;
        }
        assert(flows@.len() == up.len());
        let ghost down = op.tree_down(n as int / 2, turn);
        assert(all.subrange(up.len() as int, all.len() as int) =~= down);
        stride = n / 2;
        while stride >= 1
            invariant
                stride < n,
                n == self.nodes@.len(),
                2 <= n <= 0x2_0000_0000,
                op == self@,
                l.is_of(op),
                l.chunks >= 1,
                op.steps() == all,
                all.len() <= u32::MAX,
                schedule_fits(all, base_time_ns, base_fid as int, l.spacing as int),
                want == timed(all, base_time_ns, base_fid as int, l.spacing as int),
                step <= flows@.len() <= all.len(),
                flows@ == want.take(flows@.len() as int),
                all.subrange(flows@.len() as int, all.len() as int) == op.tree_down(
                    stride as int,
                    step as int,
                ),
            decreases stride,
        {
            let ghost rest = op.tree_down(stride as int, step as int);
            let ghost level = op.tree_level(stride as int, step as int, false);
            let ghost first = flows@.len() as int;
            proof {
                op.lemma_level_size(stride as int, step as int, false);
                assert(rest == level + op.tree_down(stride as int / 2, step + op.advance(1)));
                assert(all.subrange(first, all.len() as int).len() == rest.len());
                assert(all.subrange(first, first + level.len()) =~= level) by {
                    assert forall|k: int| 0 <= k < level.len() implies all[first + k] == level[k] by {
                        assert(all.subrange(first, all.len() as int)[k] == rest[k]);
                    }
                }
            }
            self.push_tree_level(
                &mut flows,
                &l,
                base_time_ns,
                base_fid,
                stride,
                step,
                false,
                Ghost(all),
            );
            proof {
                let next = op.tree_down(stride as int / 2, step + op.advance(1));
                assert(all.subrange(first + level.len(), all.len() as int) =~= next) by {
                    assert forall|k: int| 0 <= k < next.len() implies all[first + level.len() + k]
                        == next[k] by {
                        assert(all.subrange(first, all.len() as int)[level.len() + k]
                            == rest[level.len() + k]);
                    }
                }
            }
            let on: u64 = self.phase_advance_steps(1, &l);
            stride = stride / 2;
            step = step + on;
        }
        assert(want.take(all.len() as int) =~= want);
        let last: u64 = last_start(base_time_ns, &flows);
        (flows, last.saturating_add(l.spacing))
    }
}

impl OpView {
    /// A level of the tree has a flow for every chunk, and no fewer flows than it moves the next
    /// level on.
    proof fn lemma_level_size(self, stride: int, step: int, up: bool)
        requires
            self.nodes.len() >= 2,
            1 <= stride,
        ensures
            self.tree_level(stride, step, up).len() >= self.chunks(),
            1 <= self.advance(1) <= self.chunks(),
            self.level_size(stride) >= 1,
    {
        self.lemma_sizes();
        lemma_ceil(self.nodes.len() as int, 2 * stride);
        let m = self.level_size(stride);
        assert(self.chunks() * m >= self.chunks()) by (nonlinear_arith)
            requires
                m >= 1,
                self.chunks() >= 1,
        ;
        assert(1 * self.waves() == self.waves());
    }

    /// The flows towards the root are at least half as many as the nodes.
    proof fn lemma_tree_up_size(self, stride: int, step: int)
        requires
            self.nodes.len() >= 2,
            stride == 1,
        ensures
            self.tree_up(stride, step).0.len() >= self.nodes.len() / 2,
    {
        self.lemma_sizes();
        lemma_ceil(self.nodes.len() as int, 2);
        let m = self.level_size(1);
        assert(self.chunks() * m >= m) by (nonlinear_arith)
            requires
                m >= 1,
                self.chunks() >= 1,
        ;
    }
}

proof fn lemma_ring_row(step: int, c: int, n: int, chunks: int)
    requires
        0 <= step < n - 1,
        0 <= c < chunks,
        n >= 2,
    ensures
        0 <= (step * chunks + c) * n,
        (step * chunks + c) * n + n <= (n - 1) * chunks * n,
{
    assert(0 <= step * chunks && step * chunks + chunks <= (n - 1) * chunks) by (nonlinear_arith)
        requires
            0 <= step,
            step + 1 <= n - 1,
            chunks >= 0,
    ;
    let row = step * chunks + c;
    assert(0 <= row * n && row * n + n <= (n - 1) * chunks * n) by (nonlinear_arith)
        requires
            0 <= row,
            row + 1 <= (n - 1) * chunks,
            n >= 0,
    ;
}

proof fn lemma_ring_index(step: int, c: int, i: int, n: int, chunks: int)
    requires
        0 <= step < n - 1,
        0 <= c < chunks,
        0 <= i < n,
        n >= 2,
    ensures
        ({
            let k = (step * chunks + c) * n + i;
            &&& 0 <= k < (n - 1) * chunks * n
            &&& k % n == i
            &&& (k / n) % chunks == c
            &&& (k / n) / chunks == step
        }),
{
    lemma_ring_row(step, c, n, chunks);
    let row = step * chunks + c;
    lemma_fundamental_div_mod_converse(row * n + i, n, row, i);
    lemma_fundamental_div_mod_converse(row, chunks, step, c);
}

fn last_start(base: u64, flows: &Vec<FlowDesc>) -> (t: u64)
    ensures
        t == latest_start(base, flows@),
{
    let mut t: u64 = base;
    let mut i: usize = 0;
    while i < flows.len()
        invariant
            i <= flows@.len(),
            t == latest_start(base, flows@.take(i as int)),
        decreases flows@.len() - i,
    {
        assert(flows@.take(i + 1).drop_last() =~= flows@.take(i as int));
        if flows[i].start_time_ns > t {
            t = flows[i].start_time_ns;
        }
        i = i + 1;
    }
    assert(flows@.take(i as int) =~= flows@);
    t
}

/// The sizes of the first `c` chunks together.
pub open spec fn chunks_total(op: OpView, c: int) -> int
    decreases c,
{
    if c <= 0 {
        0
    } else {
        chunks_total(op, c - 1) + op.chunk_len(c - 1)
    }
}

proof fn lemma_chunks_total(op: OpView, c: int)
    requires
        op.nodes.len() >= 2,
        0 <= c <= op.chunks(),
    ensures
        chunks_total(op, c) == (if c == op.chunks() {
            op.payload()
        } else {
            c * op.chunk_size()
        }),
    decreases c,
{
    op.lemma_sizes();
    let (p, z, n) = (op.payload(), op.chunk_size(), op.chunks());
    lemma_ceil(p, z);
    if op.chunk_config.chunk_size_bytes == 0 {
        assert(n == 1 && z == p);
    }
    if c > 0 {
        lemma_chunks_total(op, c - 1);
        assert((c - 1) * z + z == c * z) by (nonlinear_arith);
        if c < n {
            assert(c * z <= (n - 1) * z) by (nonlinear_arith)
                requires
                    c <= n - 1,
                    z >= 1,
            ;
        } else if n == 1 && op.chunk_config.chunk_size_bytes == 0 {
            assert(0 * z == 0);
        }
    } else {
        assert(0 * z == 0);
    }
}

/// The chunks together are the payload.
pub proof fn law_chunks_cover_payload(op: OpView)
    requires
        op.nodes.len() >= 2,
    ensures
        chunks_total(op, op.chunks()) == op.payload(),
        op.payload() * op.nodes.len() >= op.message_bytes,
{
    op.lemma_sizes();
    lemma_chunks_total(op, op.chunks());
    lemma_ceil(op.message_bytes as int, op.nodes.len() as int);
    let (a, b) = (op.payload(), op.nodes.len() as int);
    let q = ceil_div(op.message_bytes as int, b);
    assert(a * b >= q * b) by (nonlinear_arith)
        requires
            a >= q,
            b >= 0,
    ;
}

/// A collective on a ring has, for every chunk, a flow from every node in each of twice as many
/// steps as there are other nodes.
pub proof fn law_ring_size(op: OpView)
    requires
        op.nodes.len() >= 2,
        !(op.algorithm is Tree),
    ensures
        op.steps().len() == 2 * (op.nodes.len() - 1) * op.chunks() * op.nodes.len(),
{
    op.lemma_sizes();
    let (n, c) = (op.nodes.len() as int, op.chunks());
    assert((n - 1) * c * n >= 0 && 2 * (n - 1) * c * n == 2 * ((n - 1) * c * n))
        by (nonlinear_arith)
        requires
            n >= 2,
            c >= 1,
    ;
}

proof fn lemma_up_size(op: OpView, stride: int, step: int, k: nat)
    requires
        op.nodes.len() >= 2,
        1 <= stride,
        op.nodes.len() == stride * vstd::arithmetic::power2::pow2(k),
    ensures
        op.tree_up(stride, step).0.len() == op.chunks() * (vstd::arithmetic::power2::pow2(k) - 1),
    decreases k,
{
    op.lemma_sizes();
    let n = op.nodes.len() as int;
    let p = vstd::arithmetic::power2::pow2(k) as int;
    vstd::arithmetic::power2::lemma2_to64();
    if k > 0 {
        vstd::arithmetic::power2::lemma_pow2_unfold(k);
        vstd::arithmetic::power2::lemma_pow2_pos((k - 1) as nat);
        let h = vstd::arithmetic::power2::pow2((k - 1) as nat) as int;
        assert(stride < n && n == (2 * stride) * h) by (nonlinear_arith)
            requires
                n == stride * p,
                p == 2 * h,
                h >= 1,
                stride >= 1,
        ;
        lemma_up_size(op, 2 * stride, step + op.advance(1), (k - 1) as nat);
        lemma_exact_levels(op, stride, h);
        let c = op.chunks();
        assert(c * h >= 0 && c * h + c * (h - 1) == c * (p - 1)) by (nonlinear_arith)
            requires
                p == 2 * h,
                c >= 1,
                h >= 1,
        ;
    } else {
        assert(op.chunks() * (1 - 1) == 0) by (nonlinear_arith);
        assert(n == stride) by (nonlinear_arith)
            requires
                n == stride * p,
                p == 1,
        ;
    }
}

proof fn lemma_exact_levels(op: OpView, stride: int, h: int)
    requires
        op.nodes.len() == (2 * stride) * h,
        1 <= stride,
        1 <= h,
    ensures
        op.level_size(stride) == h,
{
    let d = 2 * stride;
    assert((2 * stride) * h + d - 1 == h * d + (d - 1)) by (nonlinear_arith)
        requires
            d == 2 * stride,
    ;
    lemma_fundamental_div_mod_converse(op.nodes.len() + d - 1, d, h, d - 1);
}

proof fn lemma_down_size(op: OpView, stride: int, step: int, h: int, k: nat)
    requires
        op.nodes.len() >= 2,
        stride == (if k == 0 {
            0
        } else {
            vstd::arithmetic::power2::pow2((k - 1) as nat) as int
        }),
        k > 0 ==> op.nodes.len() == (2 * stride) * h && h >= 1,
    ensures
        op.tree_down(stride, step).len() == (if k == 0 {
            0
        } else {
            op.chunks() * h * (vstd::arithmetic::power2::pow2(k) - 1)
        }),
    decreases k,
{
    op.lemma_sizes();
    vstd::arithmetic::power2::lemma2_to64();
    if k > 0 {
        vstd::arithmetic::power2::lemma_pow2_unfold(k);
        vstd::arithmetic::power2::lemma_pow2_pos((k - 1) as nat);
        lemma_exact_levels(op, stride, h);
        let c = op.chunks();
        let on = step + op.advance(1);
        assert(c * h >= 0) by (nonlinear_arith)
            requires
                c >= 1,
                h >= 1,
        ;
        if k > 1 {
            vstd::arithmetic::power2::lemma_pow2_unfold((k - 1) as nat);
            let half = vstd::arithmetic::power2::pow2((k - 2) as nat) as int;
            assert((2 * stride) * h == (2 * half) * (2 * h)) by (nonlinear_arith)
                requires
                    stride == 2 * half,
            ;
            lemma_down_size(op, stride / 2, on, 2 * h, (k - 1) as nat);
            let p = vstd::arithmetic::power2::pow2((k - 1) as nat) as int;
            assert(c * h + c * (2 * h) * (p - 1) == c * h * (2 * p - 1)) by (nonlinear_arith);
        } else {
            lemma_down_size(op, 0, on, 0, 0);
            assert(c * h * (2 - 1) == c * h) by (nonlinear_arith);
        }
    }
}

/// A collective on a tree whose size is a power of two has, for every chunk, one flow from every
/// node but the root towards the root, and one back.
pub proof fn law_tree_size(op: OpView, k: nat)
    requires
        op.nodes.len() >= 2,
        op.algorithm is Tree,
        op.nodes.len() == vstd::arithmetic::power2::pow2(k),
    ensures
        op.steps().len() == 2 * (op.nodes.len() - 1) * op.chunks(),
{
    op.lemma_sizes();
    vstd::arithmetic::power2::lemma2_to64();
    vstd::arithmetic::power2::lemma_pow2_unfold(k);
    let n = op.nodes.len() as int;
    let (up, turn) = op.tree_up(1, 0);
    lemma_up_size(op, 1, 0, k);
    lemma_down_size(op, n / 2, turn, 1, k);
    let c = op.chunks();
    assert(c * (n - 1) + c * 1 * (n - 1) == 2 * (n - 1) * c) by (nonlinear_arith);
}

/// The steps of a schedule are not negative.
pub proof fn lemma_steps_positive(op: OpView)
    requires
        op.nodes.len() >= 2,
    ensures
        forall|k: int| 0 <= k < op.steps().len() ==> (#[trigger] op.steps()[k]).step >= 0,
{
    op.lemma_sizes();
    let n = op.nodes.len() as int;
    let adv = op.advance(n - 1);
    assert((n - 1) * op.waves() >= 0) by (nonlinear_arith)
        requires
            n >= 2,
            op.waves() >= 1,
    ;
    if op.algorithm is Tree {
        lemma_up_positive(op, 1, 0);
        let (up, turn) = op.tree_up(1, 0);
        lemma_down_positive(op, n / 2, turn);
    } else {
        assert forall|k: int| 0 <= k < op.steps().len() implies (#[trigger] op.steps()[k]).step
            >= 0 by {
            let first = op.ring_phase(0);
            if k < first.len() {
                assert(op.steps()[k] == first[k]);
                lemma_phase_positive(op, 0, k);
            } else {
                assert(op.steps()[k] == op.ring_phase(adv)[k - first.len()]);
                lemma_phase_positive(op, adv, k - first.len());
            }
        }
    }
}

proof fn lemma_phase_positive(op: OpView, offset: int, k: int)
    requires
        op.nodes.len() >= 2,
        offset >= 0,
        0 <= k < op.ring_phase(offset).len(),
    ensures
        op.ring_phase(offset)[k].step >= 0,
{
    op.lemma_sizes();
    let n = op.nodes.len() as int;
    let c = (k / n) % op.chunks();
    assert(k / n >= 0 && 0 <= c && c / op.channels() >= 0 && (k / n) / op.chunks() >= 0) by {
        vstd::arithmetic::div_mod::lemma_div_pos_is_pos(k, n);
        vstd::arithmetic::div_mod::lemma_mod_bound(k / n, op.chunks());
        vstd::arithmetic::div_mod::lemma_div_pos_is_pos(c, op.channels());
        vstd::arithmetic::div_mod::lemma_div_pos_is_pos(k / n, op.chunks());
    }
}

proof fn lemma_level_positive(op: OpView, stride: int, step: int, up: bool)
    requires
        op.nodes.len() >= 2,
        stride >= 1,
        step >= 0,
    ensures
        forall|k: int|
            0 <= k < op.tree_level(stride, step, up).len() ==> (#[trigger] op.tree_level(
                stride,
                step,
                up,
            )[k]).step >= 0,
{
    op.lemma_sizes();
    op.lemma_level_size(stride, step, up);
    let m = op.level_size(stride);
    assert forall|k: int| 0 <= k < op.tree_level(stride, step, up).len() implies (
    #[trigger] op.tree_level(stride, step, up)[k]).step >= 0 by {
        vstd::arithmetic::div_mod::lemma_div_pos_is_pos(k, m);
        vstd::arithmetic::div_mod::lemma_div_pos_is_pos(k / m, op.channels());
    }
}

proof fn lemma_up_positive(op: OpView, stride: int, step: int)
    requires
        op.nodes.len() >= 2,
        stride >= 1,
        step >= 0,
    ensures
        op.tree_up(stride, step).1 >= 0,
        forall|k: int|
            0 <= k < op.tree_up(stride, step).0.len() ==> (#[trigger] op.tree_up(
                stride,
                step,
            ).0[k]).step >= 0,
    decreases at_least(op.nodes.len() - stride, 0),
{
    if stride < op.nodes.len() {
        op.lemma_level_size(stride, step, true);
        lemma_level_positive(op, stride, step, true);
        lemma_up_positive(op, 2 * stride, step + op.advance(1));
        let level = op.tree_level(stride, step, true);
        let rest = op.tree_up(2 * stride, step + op.advance(1)).0;
        assert forall|k: int| 0 <= k < op.tree_up(stride, step).0.len() implies (
        #[trigger] op.tree_up(stride, step).0[k]).step >= 0 by {
            if k < level.len() {
                assert(op.tree_up(stride, step).0[k] == level[k]);
            } else {
                assert(op.tree_up(stride, step).0[k] == rest[k - level.len()]);
            }
        }
    }
}

proof fn lemma_down_positive(op: OpView, stride: int, step: int)
    requires
        op.nodes.len() >= 2,
        stride >= 0,
        step >= 0,
    ensures
        forall|k: int|
            0 <= k < op.tree_down(stride, step).len() ==> (#[trigger] op.tree_down(
                stride,
                step,
            )[k]).step >= 0,
    decreases stride,
{
    if stride > 0 {
        op.lemma_level_size(stride, step, false);
        lemma_level_positive(op, stride, step, false);
        lemma_down_positive(op, stride / 2, step + op.advance(1));
        let level = op.tree_level(stride, step, false);
        let rest = op.tree_down(stride / 2, step + op.advance(1));
        assert forall|k: int| 0 <= k < op.tree_down(stride, step).len() implies (
        #[trigger] op.tree_down(stride, step)[k]).step >= 0 by {
            if k < level.len() {
                assert(op.tree_down(stride, step)[k] == level[k]);
            } else {
                assert(op.tree_down(stride, step)[k] == rest[k - level.len()]);
            }
        }
    }
}

/// A collective does not end before it starts.
pub proof fn lemma_end_not_before(op: OpView, base_time: u64)
    ensures
        base_time <= op.end(base_time),
{
    lemma_latest_bounds(base_time, op.flows(base_time, 0));
}

/// No flow of a collective starts before it, and each starts a step before its planned end, as
/// far as that can be counted.
pub proof fn law_flows_within_plan(op: OpView, base_time: u64, base_fid: int, k: int)
    requires
        op.fits(base_time, base_fid),
        0 <= k < op.steps().len(),
    ensures
        base_time <= op.flows(base_time, base_fid)[k].start_time_ns,
        op.flows(base_time, base_fid)[k].start_time_ns + op.spacing() <= op.end(base_time)
            || op.end(base_time) == u64::MAX,
        op.flows(base_time, base_fid)[k].flow_id == base_fid + k || base_fid < 0,
{
    op.lemma_sizes();
    lemma_steps_positive(op);
    let s = op.steps()[k].step;
    assert(s * op.spacing() >= 0) by (nonlinear_arith)
        requires
            s >= 0,
            op.spacing() >= 1,
    ;
    lemma_latest_bounds(base_time, op.flows(base_time, 0));
    assert(op.flows(base_time, 0)[k].start_time_ns == op.flows(
        base_time,
        base_fid,
    )[k].start_time_ns);
}

} // verus!
