//! Training phases and what they depend on, with computation and communication overlapping.
use super::collective::{CollectiveKind, CollectiveOp};
use super::Iteration;
use vstd::prelude::*;

verus! {

use super::collective::OpView;
use super::IterationView;

/// A phase of an iteration.
#[derive(Debug, Clone, Copy, PartialEq, Eq, Structural)]
pub enum TrainingPhase {
    Forward,
    Backward,
    AllReduce,
    AllGather,
    Barrier,
}

/// A task: a computation or a collective.
#[derive(Debug, Clone)]
pub struct DagNode {
    pub id: u32,
    pub phase: TrainingPhase,
    /// The tasks that have to come first.
    pub depends_on: Vec<u32>,
    /// How long the task takes; zero where the collective decides.
    pub duration_ns: u64,
    pub collective: Option<CollectiveOp>,
    /// Whether the next phase overlaps this one.
    pub overlap_next: bool,
}

/// What a task is.
#[verifier::ext_equal]
pub struct DagNodeView {
    pub id: u32,
    pub phase: TrainingPhase,
    pub depends_on: Seq<u32>,
    pub duration_ns: u64,
    pub collective: Option<OpView>,
    pub overlap_next: bool,
}

impl View for DagNode {
    type V = DagNodeView;

    open spec fn view(&self) -> DagNodeView {
        DagNodeView {
            id: self.id,
            phase: self.phase,
            depends_on: self.depends_on@,
            duration_ns: self.duration_ns,
            collective: match self.collective {
                Some(op) => Some(op@),
                None => None,
            },
            overlap_next: self.overlap_next,
        }
    }
}

/// The tasks of an iteration.
#[derive(Debug, Clone)]
pub struct TrainingDag {
    pub iteration_id: u32,
    pub nodes: Vec<DagNode>,
    /// How much earlier communication may start.
    pub comm_offset_ns: u64,
}

/// What the tasks of an iteration are.
#[verifier::ext_equal]
pub struct DagView {
    pub iteration_id: u32,
    pub nodes: Seq<DagNodeView>,
    pub comm_offset_ns: u64,
}

impl View for TrainingDag {
    type V = DagView;

    open spec fn view(&self) -> DagView {
        DagView {
            iteration_id: self.iteration_id,
            nodes: self.nodes@.map_values(|n: DagNode| n@),
            comm_offset_ns: self.comm_offset_ns,
        }
    }
}

/// The phase to which a collective belongs.
pub open spec fn phase_of(kind: CollectiveKind) -> TrainingPhase {
    match kind {
        CollectiveKind::AllReduce => TrainingPhase::AllReduce,
        CollectiveKind::AllGather => TrainingPhase::AllGather,
        CollectiveKind::ReduceScatter => TrainingPhase::AllReduce,
        CollectiveKind::AllToAll => TrainingPhase::AllGather,
    }
}

/// Task `i` of an iteration: the forward pass, the backward pass, then the collectives, each
/// after the one before it.
pub open spec fn dag_node(
    iter: IterationView,
    compute_ns: u64,
    overlaps: bool,
    i: int,
) -> DagNodeView {
    if i < 2 {
        DagNodeView {
            id: i as u32,
            phase: if i == 0 {
                TrainingPhase::Forward
            } else {
                TrainingPhase::Backward
            },
            depends_on: if i == 0 {
                Seq::empty()
            } else {
                seq![0u32]
            },
            duration_ns: compute_ns / 2,
            collective: None,
            overlap_next: overlaps,
        }
    } else {
        DagNodeView {
            id: i as u32,
            phase: phase_of(iter.collectives[i - 2].kind),
            depends_on: seq![(i - 1) as u32],
            duration_ns: 0,
            collective: Some(iter.collectives[i - 2]),
            overlap_next: false,
        }
    }
}

/// The tasks of an iteration. Where computation and communication overlap, `overlap` is how much
/// earlier communication may start.
pub open spec fn dag_of(iter: IterationView, compute_ns: u64, overlap: Option<u64>) -> DagView {
    DagView {
        iteration_id: iter.iter_id,
        nodes: Seq::new(
            iter.collectives.len() + 2,
            |i: int| dag_node(iter, compute_ns, overlap is Some, i),
        ),
        comm_offset_ns: match overlap {
            Some(offset) => offset,
            None => 0,
        },
    }
}

/// The tasks of an iteration. Where computation and communication overlap, `overlap` is how much
/// earlier communication may start.
pub fn build_dag(iter: &Iteration, compute_ns: u64, overlap: Option<u64>) -> (dag: TrainingDag)
    requires
        iter@.collectives.len() + 2 <= u32::MAX,
    ensures
        dag@ == dag_of(iter@, compute_ns, overlap),
{
    let overlaps: bool = overlap.is_some();
    let comm_offset_ns: u64 = match overlap {
        Some(offset) => offset,
        None => 0,
    };
    let ghost want = dag_of(iter@, compute_ns, overlap).nodes;
    let mut nodes: Vec<DagNode> = Vec::new();
    let first = DagNode {
        id: 0,
        phase: TrainingPhase::Forward,
        depends_on: Vec::new(),
        duration_ns: compute_ns / 2,
        collective: None,
        overlap_next: overlaps,
    };
    assert(first@ =~= want[0]);
    nodes.push(first);
    let mut after_first: Vec<u32> = Vec::new();
    after_first.push(0);
    let second = DagNode {
        id: 1,
        phase: TrainingPhase::Backward,
        depends_on: after_first,
        duration_ns: compute_ns / 2,
        collective: None,
        overlap_next: overlaps,
    };
    assert(second@ =~= want[1]);
    nodes.push(second);
    let mut i: usize = 0;
    while i < iter.collectives.len()
        invariant
            i <= iter.collectives@.len(),
            iter@.collectives.len() + 2 <= u32::MAX,
            want == dag_of(iter@, compute_ns, overlap).nodes,
            nodes@.len() == i + 2,
            nodes@.map_values(|n: DagNode| n@) =~= want.take(i + 2),
        decreases iter.collectives@.len() - i,
    {
        let op = &iter.collectives[i];
        assert(op@ == iter@.collectives[i as int]);
        let id: u32 = i as u32 + 2;
        let phase: TrainingPhase = match op.kind {
            CollectiveKind::AllReduce => TrainingPhase::AllReduce,
            CollectiveKind::AllGather => TrainingPhase::AllGather,
            CollectiveKind::ReduceScatter => TrainingPhase::AllReduce,
            CollectiveKind::AllToAll => TrainingPhase::AllGather,
        };
        let mut depends_on: Vec<u32> = Vec::new();
        depends_on.push(id - 1);
        let node = DagNode {
            id,
            phase,
            depends_on,
            duration_ns: 0,
            collective: Some(op.duplicate()),
            overlap_next: false,
        };
        assert(node@ =~= want[i + 2]);
        nodes.push(node);
        i = i + 1;
    }
    let dag = TrainingDag { iteration_id: iter.iter_id, nodes, comm_offset_ns };
    assert(dag@.nodes =~= want);
    dag
}

/// The flows, as start time and size, when communication may start earlier by `overlap`.
pub open spec fn overlapped(
    flows: Seq<(u64, u64)>,
    compute_ns: u64,
    overlap: Option<u64>,
) -> Seq<(u64, u64)> {
    match overlap {
        Some(offset) if compute_ns > 0 => flows.map_values(
            |f: (u64, u64)| (f.0.saturating_sub(offset), f.1),
        ),
        _ => flows,
    }
}

/// Moves the start times of the flows forward by `overlap`. Nothing moves where computation and
/// communication do not overlap or there is no computation.
pub fn apply_overlap(flows: &mut [(u64, u64)], compute_ns: u64, overlap: Option<u64>)
    ensures
        final(flows)@ == overlapped(old(flows)@, compute_ns, overlap),
{
    if compute_ns == 0 {
        return;
    }
    match overlap {
        None => {},
        Some(offset) => {
            let n: usize = flows.len();
            let mut i: usize = 0;
            while i < n
                invariant
                    i <= n,
                    n == flows@.len(),
                    flows@.len() == old(flows)@.len(),
                    forall|k: int|
                        0 <= k < i ==> #[trigger] flows@[k] == (
                            old(flows)@[k].0.saturating_sub(offset),
                            old(flows)@[k].1,
                        ),
                    forall|k: int| i <= k < n ==> #[trigger] flows@[k] == old(flows)@[k],
                decreases n - i,
            {
                let (start, size) = flows[i];
                flows[i] = (start.saturating_sub(offset), size);
                i = i + 1;
            }
            assert(flows@ =~= overlapped(old(flows)@, compute_ns, overlap));
        },
    }
}

/// Every task depends on earlier ones only, and every task but the first on one.
pub proof fn law_dependencies_are_acyclic(
    iter: IterationView,
    compute_ns: u64,
    overlap: Option<u64>,
    i: int,
)
    requires
        iter.collectives.len() + 2 <= u32::MAX,
        0 <= i < iter.collectives.len() + 2,
    ensures
        ({
            let node = dag_of(iter, compute_ns, overlap).nodes[i];
            &&& node.id == i
            &&& i == 0 ==> node.depends_on.len() == 0
            &&& i > 0 ==> node.depends_on.len() == 1 && node.depends_on[0] < i
        }),
{
}

} // verus!
