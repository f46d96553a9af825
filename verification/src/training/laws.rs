//! What holds of collectives and of the plan of a job.
use super::collective::{CollectiveAlgorithm, CollectiveKind};
use super::dag::TrainingPhase;
use vstd::prelude::*;

verus! {

use super::collective::{latest_start, lemma_ceil, lemma_latest_bounds, OpView, StepFlow};
use super::dag::{dag_of, overlapped};
use super::{with_collective, with_collectives, with_iteration, IterationView, JobView, PlanView};

/// A node sends an `n`-th of the message in a step, rounded up, and at least a byte. That is cut into chunks
/// of the size that is set, all full but the last; without a size, or with one that is not exceeded, there
/// is one chunk.
pub proof fn law_message_is_cut(op: OpView, c: int)
    requires
        op.nodes.len() >= 2,
        0 <= c < op.chunks(),
    ensures
        ({
            let (n, p) = (op.nodes.len() as int, op.payload());
            let size = op.chunk_config.chunk_size_bytes as int;
            &&& p >= 1
            &&& op.message_bytes > 0 ==> (p - 1) * n < op.message_bytes <= p * n
            &&& op.message_bytes == 0 ==> p == 1
            &&& size == 0 || size >= p ==> op.chunks() == 1 && op.chunk_len(c) == p
            &&& 0 < size < p ==> {
                &&& (op.chunks() - 1) * size < p <= op.chunks() * size
                &&& c < op.chunks() - 1 ==> op.chunk_len(c) == size
                &&& c == op.chunks() - 1 ==> op.chunk_len(c) == p - c * size
            }
        }),
{
    op.lemma_sizes();
    let (n, p, m) = (op.nodes.len() as int, op.payload(), op.message_bytes as int);
    let size = op.chunk_config.chunk_size_bytes as int;
    lemma_ceil(m, n);
    lemma_ceil(p, op.chunk_size());
    if size == 0 || size >= p {
        if size >= p && size > 0 {
            assert((p + p - 1) / p == 1) by (nonlinear_arith)
                requires
                    p >= 1,
            ;
        }
        assert(c == 0);
        assert(c * op.chunk_size() == 0) by (nonlinear_arith)
            requires
                c == 0,
        ;
    } else {
        let k = op.chunks();
        if c < k - 1 {
            assert(c * size + size <= (k - 1) * size) by (nonlinear_arith)
                requires
                    c + 1 <= k - 1,
                    size >= 0,
            ;
        } else {
            assert(p - c * size <= size) by (nonlinear_arith)
                requires
                    c == k - 1,
                    p <= k * size,
            ;
        }
    }
}

/// At least one chunk is sent side by side, and the pipeline is at least one deep. A step takes a microsecond
/// divided by the depth, and at least a nanosecond. The chunks are sent in as many waves as the channels
/// need. A phase of `steps` steps takes these and one less than the waves in a pipeline, and otherwise
/// as many times the waves.
pub proof fn law_schedule_of_waves(op: OpView, steps: int)
    requires
        op.nodes.len() >= 2,
    ensures
        ({
            let channels = if op.chunk_config.num_channels > 1 {
                op.chunk_config.num_channels as int
            } else {
                1
            };
            let depth = op.chunk_config.pipeline_depth as int;
            &&& op.channels() == channels
            &&& depth <= 1 ==> op.spacing() == 1000
            &&& 1 < depth <= 1000 ==> op.spacing() == 1000int / depth
            &&& depth > 1000 ==> op.spacing() == 1
            &&& (op.waves() - 1) * channels < op.chunks() <= op.waves() * channels
            &&& depth > 1 ==> op.advance(steps) == steps + op.waves() - 1
            &&& depth <= 1 ==> op.advance(steps) == steps * op.waves()
            &&& op.advance(1) == op.waves()
        }),
{
    op.lemma_sizes();
    lemma_ceil(op.chunks(), op.channels());
    let depth = op.chunk_config.pipeline_depth as int;
    let w = op.waves();
    assert(1 * w == w) by (nonlinear_arith);
    if depth <= 1 {
        assert(1000int / 1 == 1000);
    }
    if 1 < depth <= 1000 {
        assert(1000int / depth >= 1) by (nonlinear_arith)
            requires
                1 < depth <= 1000,
        ;
    }
    if depth > 1000 {
        assert(1000int / depth == 0) by (nonlinear_arith)
            requires
                depth > 1000,
        ;
    }
}

proof fn lemma_ring_index(op: OpView, s: int, c: int, i: int)
    requires
        op.nodes.len() >= 2,
        0 <= s < op.nodes.len() - 1,
        0 <= c < op.chunks(),
        0 <= i < op.nodes.len(),
    ensures
        ({
            let (n, m) = (op.nodes.len() as int, op.chunks());
            let k = (s * m + c) * n + i;
            &&& 0 <= k < (n - 1) * m * n
            &&& k % n == i
            &&& (k / n) % m == c
            &&& (k / n) / m == s
        }),
{
    let (n, m) = (op.nodes.len() as int, op.chunks());
    let r = s * m + c;
    vstd::arithmetic::div_mod::lemma_fundamental_div_mod_converse(r, m, s, c);
    vstd::arithmetic::div_mod::lemma_fundamental_div_mod_converse(r * n + i, n, r, i);
    assert(0 <= r && r + 1 <= (n - 1) * m) by (nonlinear_arith)
        requires
            r == s * m + c,
            0 <= s,
            s + 1 <= n - 1,
            0 <= c < m,
    ;
    let t = (n - 1) * m;
    assert(0 <= r * n && r * n + n <= t * n) by (nonlinear_arith)
        requires
            0 <= r,
            r + 1 <= t,
            n >= 0,
    ;
}

/// A collective on a ring has two phases of as many steps as there are other nodes, the second after the
/// first has run. In each step every node sends every chunk to the next node; a chunk waits for as many
/// waves as there are full sets of channels before it.
pub proof fn law_ring_schedule(op: OpView, second: bool, s: int, c: int, i: int)
    requires
        op.nodes.len() >= 2,
        !(op.algorithm is Tree),
        0 <= s < op.nodes.len() - 1,
        0 <= c < op.chunks(),
        0 <= i < op.nodes.len(),
    ensures
        ({
            let (n, m) = (op.nodes.len() as int, op.chunks());
            let len = (n - 1) * m * n;
            let at = if second {
                len
            } else {
                0
            } + (s * m + c) * n + i;
            let begin = if !second {
                0
            } else if op.chunk_config.pipeline_depth > 1 {
                (n - 1) + op.waves() - 1
            } else {
                (n - 1) * op.waves()
            };
            &&& op.steps().len() == 2 * len
            &&& 0 <= at < op.steps().len()
            &&& op.steps()[at] == (StepFlow {
                src: op.nodes[i],
                dst: op.nodes[if i + 1 < n {
                    i + 1
                } else {
                    0
                }],
                bytes: op.chunk_len(c),
                step: begin + s + c / op.channels(),
            })
        }),
{
    let (n, m) = (op.nodes.len() as int, op.chunks());
    lemma_ring_index(op, s, c, i);
    law_schedule_of_waves(op, n - 1);
    let len = (n - 1) * m * n;
    if i + 1 < n {
        vstd::arithmetic::div_mod::lemma_small_mod((i + 1) as nat, n as nat);
    } else {
        vstd::arithmetic::div_mod::lemma_mod_self_0(n);
    }
    assert(op.ring_phase(0).len() == len);
}

/// At a level of the tree the nodes `stride` apart are paired, every second with the one before it. Towards
/// the root the second sends every chunk to the first, and away from it the first to the second; a chunk
/// waits for the waves before it.
pub proof fn law_tree_level(op: OpView, stride: int, step: int, up: bool, c: int, j: int)
    requires
        op.nodes.len() >= 2,
        1 <= stride,
        0 <= c < op.chunks(),
        0 <= j < op.level_size(stride),
    ensures
        ({
            let n = op.nodes.len() as int;
            let m = op.level_size(stride);
            let flow = op.tree_level(stride, step, up)[c * m + j];
            let parent = op.nodes[j * (2 * stride)];
            let child = op.nodes[(j * (2 * stride) + stride) % n];
            &&& (m - 1) * (2 * stride) < n <= m * (2 * stride)
            &&& op.tree_level(stride, step, up).len() == op.chunks() * m
            &&& 0 <= c * m + j < op.chunks() * m
            &&& flow.bytes == op.chunk_len(c)
            &&& flow.step == step + c / op.channels()
            &&& up ==> flow.src == child && flow.dst == parent
            &&& !up ==> flow.src == parent && flow.dst == child
        }),
{
    let n = op.nodes.len() as int;
    let m = op.level_size(stride);
    lemma_ceil(n, 2 * stride);
    vstd::arithmetic::div_mod::lemma_fundamental_div_mod_converse(c * m + j, m, c, j);
    assert(0 <= c * m && c * m + m <= op.chunks() * m) by (nonlinear_arith)
        requires
            0 <= c,
            c + 1 <= op.chunks(),
            m >= 0,
    ;
}

/// Towards the root the levels follow each other with doubled distance, each after the waves of the one
/// before, up to the number of nodes; away from the root with halved distance, from half of the nodes down.
pub proof fn law_tree_levels_follow(op: OpView, stride: int, step: int)
    requires
        op.nodes.len() >= 2,
        1 <= stride,
    ensures
        stride >= op.nodes.len() ==> op.tree_up(stride, step) == (Seq::<StepFlow>::empty(), step),
        stride < op.nodes.len() ==> op.tree_up(stride, step) == (
            op.tree_level(stride, step, true) + op.tree_up(2 * stride, step + op.waves()).0,
            op.tree_up(2 * stride, step + op.waves()).1,
        ),
        op.tree_down(stride, step) == op.tree_level(stride, step, false) + op.tree_down(
            stride / 2,
            step + op.waves(),
        ),
        op.tree_down(0, step).len() == 0,
        op.algorithm is Tree ==> op.steps() == op.tree_up(1, 0).0 + op.tree_down(
            op.nodes.len() as int / 2,
            op.tree_up(1, 0).1,
        ),
{
    law_schedule_of_waves(op, 1);
}

/// The flows of a collective do not depend on what it computes, only on how: a ring for both algorithms that
/// are not a tree. Fewer than two nodes have no flows, and the collective ends when it starts.
pub proof fn law_algorithm_decides(op: OpView, kind: CollectiveKind, base_time: u64)
    ensures
        (OpView { kind, ..op }).steps() == op.steps(),
        op.algorithm is Ring ==> (OpView {
            algorithm: CollectiveAlgorithm::ReduceScatterThenAllGather,
            ..op
        }).steps() == op.steps(),
        op.nodes.len() < 2 ==> op.steps().len() == 0 && op.end(base_time) == base_time,
{
    let a = OpView { kind, ..op };
    let b = OpView { algorithm: CollectiveAlgorithm::ReduceScatterThenAllGather, ..op };
    assert(a.ring_phase(0) =~= op.ring_phase(0));
    assert(b.ring_phase(0) =~= op.ring_phase(0));
    let at = op.advance(op.nodes.len() - 1);
    assert(a.ring_phase(at) =~= op.ring_phase(at));
    assert(b.ring_phase(at) =~= op.ring_phase(at));
    lemma_kind_up(op, kind, 1, 0);
    lemma_kind_down(op, kind, op.nodes.len() as int / 2, op.tree_up(1, 0).1);
}

proof fn lemma_kind_up(op: OpView, kind: CollectiveKind, stride: int, step: int)
    requires
        stride >= 1,
    ensures
        (OpView { kind, ..op }).tree_up(stride, step) == op.tree_up(stride, step),
    decreases
            (if op.nodes.len() > stride {
                op.nodes.len() - stride
            } else {
                0
            }),
{
    let a = OpView { kind, ..op };
    if stride < op.nodes.len() {
        assert(a.tree_level(stride, step, true) =~= op.tree_level(stride, step, true));
        lemma_kind_up(op, kind, 2 * stride, step + op.advance(1));
    }
}

proof fn lemma_kind_down(op: OpView, kind: CollectiveKind, stride: int, step: int)
    requires
        stride >= 0,
    ensures
        (OpView { kind, ..op }).tree_down(stride, step) == op.tree_down(stride, step),
    decreases stride,
{
    let a = OpView { kind, ..op };
    if stride > 0 {
        assert(a.tree_level(stride, step, false) =~= op.tree_level(stride, step, false));
        lemma_kind_down(op, kind, stride / 2, step + op.advance(1));
    }
}

/// The flows of a collective are those of its schedule, numbered from the first number on, each starting as
/// many steps after the start of the collective as the schedule says.
pub proof fn law_flows_follow_schedule(op: OpView, base_time: u64, base_fid: int, k: int)
    requires
        op.fits(base_time, base_fid),
        0 <= base_fid,
        0 <= k < op.steps().len(),
    ensures
        ({
            let f = op.flows(base_time, base_fid)[k];
            let s = op.steps()[k];
            &&& op.flows(base_time, base_fid).len() == op.steps().len()
            &&& f.flow_id == base_fid + k
            &&& f.src == s.src && f.dst == s.dst && f.bytes == s.bytes
            &&& f.start_time_ns == base_time + s.step * op.spacing()
        }),
{
    super::collective::law_flows_within_plan(op, base_time, base_fid, k);
    let s = op.steps()[k].step;
    super::collective::lemma_steps_positive(op);
    op.lemma_sizes();
    assert(s * op.spacing() >= 0) by (nonlinear_arith)
        requires
            s >= 0,
            op.spacing() >= 1,
    ;
}

/// A collective is planned to end a step after its last flow starts.
pub proof fn law_collective_ends_after_last_flow(op: OpView, base_time: u64)
    requires
        op.nodes.len() >= 2,
        op.end(base_time) < u64::MAX,
    ensures
        ({
            let flows = op.flows(base_time, 0);
            &&& forall|k: int|
                0 <= k < flows.len() ==> (#[trigger] flows[k]).start_time_ns + op.spacing()
                    <= op.end(base_time)
            &&& op.end(base_time) == base_time + op.spacing() || exists|k: int|
                0 <= k < flows.len() && (#[trigger] flows[k]).start_time_ns + op.spacing()
                    == op.end(base_time)
        }),
{
    op.lemma_sizes();
    let flows = op.flows(base_time, 0);
    lemma_latest_bounds(base_time, flows);
    let last = latest_start(base_time, flows);
    if last != base_time {
        let k = choose|k: int| 0 <= k < flows.len() && (#[trigger] flows[k]).start_time_ns == last;
        assert(flows[k].start_time_ns + op.spacing() == op.end(base_time));
    }
}

/// A collective adds its flows, which start from when it is planned to start on, to the plan, and one entry
/// that says what it is, to which iteration it belongs, which flows are its own and when it is planned
/// to start and to end.
pub proof fn law_collective_is_planned(plan: PlanView, time: u64, iter_id: u32, op: OpView)
    requires
        op.fits(time, plan.flows.len() as int),
    ensures
        ({
            let (after, end) = with_collective(plan, time, iter_id, op);
            let c = after.collectives.last();
            let n = plan.flows.len() as int;
            &&& after.collectives.len() == plan.collectives.len() + 1
            &&& after.collectives.drop_last() =~= plan.collectives
            &&& after.flows.len() == n + op.steps().len()
            &&& after.flows.take(n) =~= plan.flows
            &&& after.flows.skip(n) =~= op.flows(time, n)
            &&& c.iter_id == iter_id && c.kind == op.kind && c.algorithm == op.algorithm
            &&& c.flow_range.0 == n
            &&& c.flow_range.1 == after.flows.len()
            &&& c.planned_start_ns == time
            &&& c.planned_end_ns == op.end(time)
            &&& end == op.end(time)
            &&& after.collectives_per_iteration == plan.collectives_per_iteration
        }),
{
}

/// An iteration begins with its computation; its first collective is planned behind that, and every other
/// behind the one before it. The number of its collectives is noted.
pub proof fn law_iteration_is_planned(plan: PlanView, time: u64, iter: IterationView, n: nat)
    requires
        iter.collectives.len() <= usize::MAX,
        time + iter.compute_delay_ns <= u64::MAX,
        0 < n <= iter.collectives.len(),
    ensures
        ({
            let start = (time + iter.compute_delay_ns) as u64;
            let (before, at) = with_collectives(plan, start, iter, (n - 1) as nat);
            let (after, end) = with_iteration(plan, time, iter);
            &&& n == 1 ==> before == plan && at == start
            &&& with_collectives(plan, start, iter, n) == with_collective(
                before,
                at,
                iter.iter_id,
                iter.collectives[n - 1],
            )
            &&& (after.flows, after.collectives) == (
                with_collectives(plan, start, iter, iter.collectives.len()).0.flows,
                with_collectives(plan, start, iter, iter.collectives.len()).0.collectives,
            )
            &&& end == with_collectives(plan, start, iter, iter.collectives.len()).1
            &&& after.collectives_per_iteration == with_collectives(
                plan,
                start,
                iter,
                iter.collectives.len(),
            ).0.collectives_per_iteration.push(iter.collectives.len() as usize)
        }),
{
    reveal_with_fuel(with_collectives, 2);
}

/// A job is planned iteration by iteration, from time zero on.
pub proof fn law_job_is_planned(job: JobView, n: nat)
    requires
        n < job.iterations.len(),
    ensures
        job.planned(0).0.flows.len() == 0,
        job.planned(0).0.collectives.len() == 0,
        job.planned(0).1 == 0,
        job.planned((n + 1) as nat) == with_iteration(
            job.planned(n).0,
            job.planned(n).1,
            job.iterations[n as int],
        ),
        job.plan() == job.planned(job.iterations.len()).0,
{
}

/// The tasks of an iteration: the forward and the backward pass, which share the computation, and then its
/// collectives. Each depends on the task right before it. The passes overlap with what follows if that is
/// asked for.
pub proof fn law_tasks_of_iteration(
    iter: IterationView,
    compute_ns: u64,
    overlap: Option<u64>,
    c: int,
)
    requires
        iter.collectives.len() + 2 <= u32::MAX,
        0 <= c < iter.collectives.len(),
    ensures
        ({
            let dag = dag_of(iter, compute_ns, overlap);
            let (fwd, bwd, task) = (dag.nodes[0], dag.nodes[1], dag.nodes[c + 2]);
            let kind = iter.collectives[c].kind;
            &&& dag.iteration_id == iter.iter_id
            &&& dag.nodes.len() == iter.collectives.len() + 2
            &&& fwd.phase == TrainingPhase::Forward && bwd.phase == TrainingPhase::Backward
            &&& fwd.depends_on.len() == 0 && bwd.depends_on =~= seq![0u32]
            &&& fwd.duration_ns == compute_ns / 2 && bwd.duration_ns == compute_ns / 2
            &&& fwd.collective is None && bwd.collective is None
            &&& fwd.overlap_next == overlap is Some && bwd.overlap_next == overlap is Some
            &&& task.id == c + 2
            &&& task.phase == TrainingPhase::AllReduce <==> kind == CollectiveKind::AllReduce || kind
                == CollectiveKind::ReduceScatter
            &&& task.phase == TrainingPhase::AllGather <==> kind == CollectiveKind::AllGather || kind
                == CollectiveKind::AllToAll
            &&& task.depends_on =~= seq![(c + 1) as u32]
            &&& task.collective == Some(iter.collectives[c])
            &&& task.duration_ns == 0 && !task.overlap_next
            &&& overlap is Some ==> dag.comm_offset_ns == overlap->0
            &&& overlap is None ==> dag.comm_offset_ns == 0
        }),
{
}

/// Where computation and communication overlap, and there is computation, every flow starts earlier by the
/// overlap, but not before time zero, with its size unchanged; otherwise nothing moves.
pub proof fn law_overlap_moves_flows(
    flows: Seq<(u64, u64)>,
    compute_ns: u64,
    overlap: Option<u64>,
    i: int,
)
    requires
        0 <= i < flows.len(),
    ensures
        ({
            let moved = overlapped(flows, compute_ns, overlap);
            &&& moved.len() == flows.len()
            &&& moved[i].1 == flows[i].1
            &&& overlap is None || compute_ns == 0 ==> moved[i].0 == flows[i].0
            &&& overlap is Some && compute_ns > 0 ==> moved[i].0 == if flows[i].0 > overlap->0 {
                flows[i].0 - overlap->0
            } else {
                0
            }
        }),
{
}

} // verus!
