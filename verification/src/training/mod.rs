//! Training: jobs of iterations, whose collectives become flows.
//!
//! A `TrainingJob` is a list of `Iteration`s, an iteration is some computation followed by
//! collectives, and a `CollectiveOp` is spread out into flows. The plan of a job is made ahead of
//! the simulation: each collective is planned to start when the one before it is planned to end.
use crate::traffic::FlowDesc;
use crate::EntityId;
use vstd::prelude::*;

pub mod collective;
pub mod dag;
pub mod laws;

pub use collective::{
    ChunkConfig, CollectiveAlgorithm, CollectiveKind, CollectiveOp, STEP_SPACING_NS,
};
pub use dag::{apply_overlap, build_dag, DagNode, TrainingDag, TrainingPhase};

verus! {

use collective::OpView;

/// An iteration.
#[derive(Debug, Clone)]
pub struct Iteration {
    pub iter_id: u32,
    /// The collectives, in the order in which they are carried out.
    pub collectives: Vec<CollectiveOp>,
    /// How long the computation before the collectives takes.
    pub compute_delay_ns: u64,
}

/// What an iteration is.
#[verifier::ext_equal]
pub struct IterationView {
    pub iter_id: u32,
    pub collectives: Seq<OpView>,
    pub compute_delay_ns: u64,
}

impl View for Iteration {
    type V = IterationView;

    open spec fn view(&self) -> IterationView {
        IterationView {
            iter_id: self.iter_id,
            collectives: self.collectives@.map_values(|c: CollectiveOp| c@),
            compute_delay_ns: self.compute_delay_ns,
        }
    }
}

/// A training job.
#[derive(Debug, Clone)]
pub struct TrainingJob {
    pub name: String,
    pub iterations: Vec<Iteration>,
    /// The hosts of the ranks.
    pub nodes: Vec<EntityId>,
}

/// What a training job is.
#[verifier::ext_equal]
pub struct JobView {
    pub name: Seq<char>,
    pub iterations: Seq<IterationView>,
    pub nodes: Seq<EntityId>,
}

impl View for TrainingJob {
    type V = JobView;

    open spec fn view(&self) -> JobView {
        JobView {
            name: self.name@,
            iterations: self.iterations@.map_values(|i: Iteration| i@),
            nodes: self.nodes@,
        }
    }
}

/// A collective in the plan of a job.
#[derive(Debug, Clone, Copy)]
pub struct CollectivePlan {
    pub iter_id: u32,
    pub kind: CollectiveKind,
    pub algorithm: CollectiveAlgorithm,
    /// The numbers of its flows: from the first up to, but without, the second.
    pub flow_range: (u32, u32),
    pub planned_start_ns: u64,
    pub planned_end_ns: u64,
}

/// The plan of a job.
#[derive(Debug, Clone)]
pub struct TrainingPlan {
    pub flows: Vec<FlowDesc>,
    pub collectives: Vec<CollectivePlan>,
    /// How many collectives each iteration has.
    pub collectives_per_iteration: Vec<usize>,
}

/// What the plan of a job is.
#[verifier::ext_equal]
pub struct PlanView {
    pub flows: Seq<FlowDesc>,
    pub collectives: Seq<CollectivePlan>,
    pub collectives_per_iteration: Seq<usize>,
}

impl View for TrainingPlan {
    type V = PlanView;

    open spec fn view(&self) -> PlanView {
        PlanView {
            flows: self.flows@,
            collectives: self.collectives@,
            collectives_per_iteration: self.collectives_per_iteration@,
        }
    }
}

/// The plan of nothing.
pub open spec fn empty_plan() -> PlanView {
    PlanView {
        flows: Seq::empty(),
        collectives: Seq::empty(),
        collectives_per_iteration: Seq::empty(),
    }
}

impl Default for TrainingPlan {
    fn default() -> (p: Self)
        ensures
            p@ == empty_plan(),
    {
        let p = TrainingPlan {
            flows: Vec::new(),
            collectives: Vec::new(),
            collectives_per_iteration: Vec::new(),
        };
        assert(p@ =~= empty_plan());
        p
    }
}

/// A plan so far, and the time at which the next collective can start.
pub open spec fn with_collective(
    plan: PlanView,
    time: u64,
    iter_id: u32,
    op: OpView,
) -> (PlanView, u64) {
    let flows = op.flows(time, plan.flows.len() as int);
    let end = op.end(time);
    (
        PlanView {
            flows: plan.flows + flows,
            collectives: plan.collectives.push(
                CollectivePlan {
                    iter_id,
                    kind: op.kind,
                    algorithm: op.algorithm,
                    flow_range: (
                        plan.flows.len() as u32,
                        (plan.flows.len() + flows.len()) as u32,
                    ),
                    planned_start_ns: time,
                    planned_end_ns: end,
                },
            ),
            ..plan
        },
        end,
    )
}

/// The plan after the first `n` collectives of an iteration.
pub open spec fn with_collectives(
    plan: PlanView,
    time: u64,
    iter: IterationView,
    n: nat,
) -> (PlanView, u64)
    decreases n,
{
    if n == 0 {
        (plan, time)
    } else {
        let (before, at) = with_collectives(plan, time, iter, (n - 1) as nat);
        with_collective(before, at, iter.iter_id, iter.collectives[n - 1])
    }
}

/// The first `n` collectives of an iteration can be planned.
pub open spec fn collectives_fit(plan: PlanView, time: u64, iter: IterationView, n: nat) -> bool
    decreases n,
{
    n > 0 ==> {
        let (before, at) = with_collectives(plan, time, iter, (n - 1) as nat);
        &&& collectives_fit(plan, time, iter, (n - 1) as nat)
        &&& iter.collectives[n - 1].fits(at, before.flows.len() as int)
    }
}

/// The plan after an iteration: its computation, then its collectives.
pub open spec fn with_iteration(plan: PlanView, time: u64, iter: IterationView) -> (PlanView, u64) {
    let (after, end) = with_collectives(
        plan,
        time.saturating_add(iter.compute_delay_ns),
        iter,
        iter.collectives.len(),
    );
    (
        PlanView {
            collectives_per_iteration: after.collectives_per_iteration.push(
                iter.collectives.len() as usize,
            ),
            ..after
        },
        end,
    )
}

impl JobView {
    /// The plan after the first `n` iterations, and the time at which they end.
    pub open spec fn planned(self, n: nat) -> (PlanView, u64)
        decreases n,
    {
        if n == 0 {
            (empty_plan(), 0)
        } else {
            let (before, time) = self.planned((n - 1) as nat);
            with_iteration(before, time, self.iterations[n - 1])
        }
    }

    /// The first `n` iterations can be planned.
    pub open spec fn planned_fits(self, n: nat) -> bool
        decreases n,
    {
        n > 0 ==> {
            let (before, time) = self.planned((n - 1) as nat);
            let iter = self.iterations[n - 1];
            &&& self.planned_fits((n - 1) as nat)
            &&& collectives_fit(
                before,
                time.saturating_add(iter.compute_delay_ns),
                iter,
                iter.collectives.len(),
            )
        }
    }

    /// The flows of the job can be numbered, and their times fit.
    pub open spec fn fits(self) -> bool {
        self.planned_fits(self.iterations.len())
    }

    /// The plan of the job.
    pub open spec fn plan(self) -> PlanView {
        self.planned(self.iterations.len()).0
    }
}

proof fn lemma_fits_earlier(job: JobView, m: nat, n: nat)
    requires
        m <= n,
        job.planned_fits(n),
    ensures
        job.planned_fits(m),
    decreases n,
{
    if m < n {
        lemma_fits_earlier(job, m, (n - 1) as nat);
    }
}

proof fn lemma_collectives_fit_earlier(
    plan: PlanView,
    time: u64,
    iter: IterationView,
    m: nat,
    n: nat,
)
    requires
        m <= n,
        collectives_fit(plan, time, iter, n),
    ensures
        collectives_fit(plan, time, iter, m),
    decreases n,
{
    if m < n {
        lemma_collectives_fit_earlier(plan, time, iter, m, (n - 1) as nat);
    }
}

impl TrainingJob {
    /// The flows of the job, the range of flow numbers of each collective, and the number of
    /// collectives of each iteration.
    pub fn generate(&self) -> (r: (Vec<FlowDesc>, Vec<(u32, u32)>, Vec<usize>))
        requires
            self@.fits(),
        ensures
            r.0@ == self@.plan().flows,
            r.1@ == self@.plan().collectives.map_values(|c: CollectivePlan| c.flow_range),
            r.2@ == self@.plan().collectives_per_iteration,
    {
        let plan = self.plan();
        let mut boundaries: Vec<(u32, u32)> = Vec::new();
        let ghost want = plan.collectives@.map_values(|c: CollectivePlan| c.flow_range);
        let mut i: usize = 0;
        while i < plan.collectives.len()
            invariant
                i <= plan.collectives@.len(),
                want == plan.collectives@.map_values(|c: CollectivePlan| c.flow_range),
                boundaries@ =~= want.take(i as int),
            decreases plan.collectives@.len() - i,
        {
            boundaries.push(plan.collectives[i].flow_range);
            i = i + 1;
        }
        assert(boundaries@ =~= want);
        (plan.flows, boundaries, plan.collectives_per_iteration)
    }

    /// The plan of the job: each iteration starts with its computation, and each collective
    /// starts when the one before it is planned to end.
    pub fn plan(&self) -> (p: TrainingPlan)
        requires
            self@.fits(),
        ensures
            p@ == self@.plan(),
    {
        let mut p = TrainingPlan::default();
        let mut time: u64 = 0;
        let mut i: usize = 0;
        while i < self.iterations.len()
            invariant
                i <= self.iterations@.len(),
                self@.fits(),
                (p@, time) == self@.planned(i as nat),
                p.flows@.len() <= u32::MAX,
            decreases self.iterations@.len() - i,
        {
            let iter = &self.iterations[i];
            proof {
                assert(iter@ == self@.iterations[i as int]);
                lemma_fits_earlier(self@, (i + 1) as nat, self@.iterations.len());
            }
            let ghost (before, start) = self@.planned(i as nat);
            time = time.saturating_add(iter.compute_delay_ns);
            let ghost base = time;
            let mut j: usize = 0;
            while j < iter.collectives.len()
                invariant
                    j <= iter.collectives@.len(),
                    collectives_fit(before, base, iter@, iter@.collectives.len()),
                    (p@, time) == with_collectives(before, base, iter@, j as nat),
                    p.flows@.len() <= u32::MAX,
                decreases iter.collectives@.len() - j,
            {
                let op = &iter.collectives[j];
                proof {
                    assert(op@ == iter@.collectives[j as int]);
                    lemma_collectives_fit_earlier(
                        before,
                        base,
                        iter@,
                        (j + 1) as nat,
                        iter@.collectives.len(),
                    );
                }
                let ghost so_far = p@;
                let first: u32 = p.flows.len() as u32;
                let (mut flows, end) = op.generate_with_end(time, first);
                let count: usize = flows.len();
                p.flows.append(&mut flows);
                p.collectives.push(
                    CollectivePlan {
                        iter_id: iter.iter_id,
                        kind: op.kind,
                        algorithm: op.algorithm,
                        flow_range: (first, first + count as u32),
                        planned_start_ns: time,
                        planned_end_ns: end,
                    },
                );
                assert(p@ =~= with_collective(so_far, time, iter.iter_id, op@).0);
                time = end;
                j = j + 1;
            }
            let ghost after = p@;
            p.collectives_per_iteration.push(j);
            assert(p@ =~= with_iteration(before, start, iter@).0);
            i = i + 1;
        }
        p
    }
}

/// Measurements of a job.
#[derive(Debug, Clone)]
pub struct TrainingMetrics {
    pub job_name: String,
    pub total_iterations: u32,
    pub completed_iterations: u32,
    /// How long each iteration took.
    pub iteration_times_ns: Vec<u64>,
    /// How long each collective took.
    pub collective_completion_ns: Vec<u64>,
    /// How long each collective was planned to take.
    pub collective_planned_ns: Vec<u64>,
    /// Whether all flows of a collective have finished.
    pub collective_completed: Vec<bool>,
    /// What each collective is.
    pub collective_labels: Vec<String>,
}

impl TrainingMetrics {
    /// Nothing has been measured.
    pub open spec fn is_empty(self) -> bool {
        &&& self.job_name@.len() == 0
        &&& self.total_iterations == 0
        &&& self.completed_iterations == 0
        &&& self.iteration_times_ns@.len() == 0
        &&& self.collective_completion_ns@.len() == 0
        &&& self.collective_planned_ns@.len() == 0
        &&& self.collective_completed@.len() == 0
        &&& self.collective_labels@.len() == 0
    }
}

impl Default for TrainingMetrics {
    fn default() -> (m: Self)
        ensures
            m.is_empty(),
    {
        TrainingMetrics {
            job_name: String::new(),
            total_iterations: 0,
            completed_iterations: 0,
            iteration_times_ns: Vec::new(),
            collective_completion_ns: Vec::new(),
            collective_planned_ns: Vec::new(),
            collective_completed: Vec::new(),
            collective_labels: Vec::new(),
        }
    }
}

/// Collective `c` does not start before the one before it is planned to end, and its flows are
/// numbered from where that one's end.
pub open spec fn in_turn(collectives: Seq<CollectivePlan>, c: int) -> bool {
    &&& collectives[c].planned_start_ns >= collectives[c - 1].planned_end_ns
    &&& collectives[c].flow_range.0 == collectives[c - 1].flow_range.1
}

/// What is known of the collectives of a plan: they follow each other without a gap in their flow
/// numbers, and none starts before the one before it has ended.
pub open spec fn plan_in_order(plan: PlanView, time: u64) -> bool {
    &&& plan.flows.len() <= u32::MAX
    &&& plan.collectives.len() == 0 ==> plan.flows.len() == 0
    &&& plan.collectives.len() > 0 ==> plan.collectives[0].flow_range.0 == 0
        && plan.collectives.last().flow_range.1 == plan.flows.len()
        && plan.collectives.last().planned_end_ns <= time
    &&& forall|c: int|
        0 <= c < plan.collectives.len() ==> (#[trigger] plan.collectives[c]).planned_start_ns
            <= plan.collectives[c].planned_end_ns && plan.collectives[c].flow_range.0
            <= plan.collectives[c].flow_range.1
    &&& forall|c: int| 0 < c < plan.collectives.len() ==> #[trigger] in_turn(plan.collectives, c)
    &&& forall|k: int| 0 <= k < plan.flows.len() ==> (#[trigger] plan.flows[k]).flow_id == k
}

proof fn lemma_collective_in_order(plan: PlanView, time: u64, iter_id: u32, op: OpView)
    requires
        plan_in_order(plan, time),
        op.fits(time, plan.flows.len() as int),
    ensures
        plan_in_order(
            with_collective(plan, time, iter_id, op).0,
            with_collective(plan, time, iter_id, op).1,
        ),
        time <= with_collective(plan, time, iter_id, op).1,
{
    let (after, end) = with_collective(plan, time, iter_id, op);
    collective::lemma_end_not_before(op, time);
    assert forall|k: int| 0 <= k < after.flows.len() implies (#[trigger] after.flows[k]).flow_id
        == k by {
        if k < plan.flows.len() {
            assert(after.flows[k] == plan.flows[k]);
        } else {
            assert(after.flows[k] == op.flows(time, plan.flows.len() as int)[k
                - plan.flows.len()]);
        }
    }
    let n = plan.collectives.len() as int;
    assert forall|c: int| 0 < c < after.collectives.len() implies #[trigger] in_turn(
        after.collectives,
        c,
    ) by {
        if c < n {
            assert(in_turn(plan.collectives, c));
        } else {
            assert(after.collectives[c - 1] == plan.collectives.last());
        }
    }
}

proof fn lemma_collectives_in_order(plan: PlanView, time: u64, iter: IterationView, n: nat)
    requires
        plan_in_order(plan, time),
        collectives_fit(plan, time, iter, n),
    ensures
        plan_in_order(
            with_collectives(plan, time, iter, n).0,
            with_collectives(plan, time, iter, n).1,
        ),
    decreases n,
{
    if n > 0 {
        lemma_collectives_in_order(plan, time, iter, (n - 1) as nat);
        let (before, at) = with_collectives(plan, time, iter, (n - 1) as nat);
        lemma_collective_in_order(before, at, iter.iter_id, iter.collectives[n - 1]);
    }
}

/// In the plan of a job the collectives follow each other: none starts before the one before it
/// is planned to end, and their flows are numbered one after the other from zero on.
pub proof fn law_plan_is_in_order(job: JobView, n: nat)
    requires
        job.planned_fits(n),
    ensures
        plan_in_order(job.planned(n).0, job.planned(n).1),
        job.planned(n).0.collectives_per_iteration.len() == n,
    decreases n,
{
    if n > 0 {
        law_plan_is_in_order(job, (n - 1) as nat);
        let (before, time) = job.planned((n - 1) as nat);
        let iter = job.iterations[n - 1];
        let start = time.saturating_add(iter.compute_delay_ns);
        assert(plan_in_order(before, start));
        lemma_collectives_in_order(before, start, iter, iter.collectives.len());
        lemma_collectives_keep_counts(before, start, iter, iter.collectives.len());
        let (after, end) = with_collectives(before, start, iter, iter.collectives.len());
        assert(plan_in_order(with_iteration(before, time, iter).0, end));
    }
}

proof fn lemma_collectives_keep_counts(plan: PlanView, time: u64, iter: IterationView, n: nat)
    ensures
        with_collectives(plan, time, iter, n).0.collectives_per_iteration
            == plan.collectives_per_iteration,
        with_collectives(plan, time, iter, n).0.collectives.len() == plan.collectives.len() + n,
    decreases n,
{
    if n > 0 {
        lemma_collectives_keep_counts(plan, time, iter, (n - 1) as nat);
    }
}

} // verus!
