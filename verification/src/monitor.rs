//! Measurements: flow completion times and the summary of a run.
use crate::network::packet::FlowId;
use crate::util::stable_order;
use vstd::prelude::*;

verus! {

use crate::util::{comes_before, is_stable_order, lists};

/// When a flow started and finished; a flow that has not finished has the finish time zero.
#[derive(Debug, Clone, Copy)]
pub struct FlowFct {
    pub flow_id: FlowId,
    pub start_ns: u64,
    pub finish_ns: u64,
    pub bytes: u64,
}

impl FlowFct {
    /// The completion time.
    pub open spec fn fct(self) -> u64 {
        self.finish_ns.saturating_sub(self.start_ns)
    }

    /// The completion time; zero for a flow that has not finished.
    pub fn fct_ns(&self) -> (t: u64)
        ensures
            t == self.fct(),
    {
        self.finish_ns.saturating_sub(self.start_ns)
    }
}

/// The record of a flow of which nothing is known.
pub open spec fn no_flow() -> FlowFct {
    FlowFct { flow_id: 0, start_ns: 0, finish_ns: 0, bytes: 0 }
}

impl Default for FlowFct {
    fn default() -> (f: Self)
        ensures
            f == no_flow(),
    {
        FlowFct { flow_id: 0, start_ns: 0, finish_ns: 0, bytes: 0 }
    }
}

/// The summary of a run, apart from the utilisation of the links.
#[derive(Debug, Clone)]
pub struct SimSummary {
    /// The name of the protocol.
    pub mode: String,
    pub total_flows: u64,
    pub completed_flows: u64,
    pub total_time_ns: u64,
    pub total_packets_sent: u64,
    pub total_packets_retransmitted: u64,
    pub total_ecn_marks: u64,
    pub total_drops: u64,
    pub fct_p50_ns: u64,
    pub fct_p95_ns: u64,
    pub fct_p99_ns: u64,
    pub fct_max_ns: u64,
    pub max_queue_depth_bytes: u32,
}

/// The contents of a summary.
#[verifier::ext_equal]
pub struct SummaryView {
    pub mode: Seq<char>,
    pub total_flows: u64,
    pub completed_flows: u64,
    pub total_time_ns: u64,
    pub total_packets_sent: u64,
    pub total_packets_retransmitted: u64,
    pub total_ecn_marks: u64,
    pub total_drops: u64,
    pub fct_p50_ns: u64,
    pub fct_p95_ns: u64,
    pub fct_p99_ns: u64,
    pub fct_max_ns: u64,
    pub max_queue_depth_bytes: u32,
}

impl View for SimSummary {
    type V = SummaryView;

    open spec fn view(&self) -> SummaryView {
        SummaryView {
            mode: self.mode@,
            total_flows: self.total_flows,
            completed_flows: self.completed_flows,
            total_time_ns: self.total_time_ns,
            total_packets_sent: self.total_packets_sent,
            total_packets_retransmitted: self.total_packets_retransmitted,
            total_ecn_marks: self.total_ecn_marks,
            total_drops: self.total_drops,
            fct_p50_ns: self.fct_p50_ns,
            fct_p95_ns: self.fct_p95_ns,
            fct_p99_ns: self.fct_p99_ns,
            fct_max_ns: self.fct_max_ns,
            max_queue_depth_bytes: self.max_queue_depth_bytes,
        }
    }
}

/// A summary of nothing.
pub open spec fn empty_summary(mode: Seq<char>) -> SummaryView {
    SummaryView {
        mode,
        total_flows: 0,
        completed_flows: 0,
        total_time_ns: 0,
        total_packets_sent: 0,
        total_packets_retransmitted: 0,
        total_ecn_marks: 0,
        total_drops: 0,
        fct_p50_ns: 0,
        fct_p95_ns: 0,
        fct_p99_ns: 0,
        fct_max_ns: 0,
        max_queue_depth_bytes: 0,
    }
}

/// The completion times of the flows.
pub open spec fn fct_keys(fcts: Seq<FlowFct>) -> Seq<u64> {
    fcts.map_values(|f: FlowFct| f.fct())
}

/// `sorted` is `fcts` sorted by completion time, flows of equal time in their given order.
pub open spec fn sorts_flows(fcts: Seq<FlowFct>, sorted: Seq<FlowFct>) -> bool {
    exists|order: Seq<usize>| #[trigger] sorts_flows_by(fcts, sorted, order)
}

/// `sorted` is `fcts` in the stable order by completion time, which is `order`.
pub open spec fn sorts_flows_by(
    fcts: Seq<FlowFct>,
    sorted: Seq<FlowFct>,
    order: Seq<usize>,
) -> bool {
    &&& is_stable_order(fct_keys(fcts), order)
    &&& sorted == Seq::new(fcts.len(), |i: int| fcts[order[i] as int])
}

/// How many of the flows have finished.
pub open spec fn finished_among(fcts: Seq<FlowFct>) -> nat {
    fcts.filter(|f: FlowFct| f.finish_ns > 0).len()
}

/// The position of a percentile among `n` sorted values.
pub open spec fn percentile_index(n: int, percent: int) -> int {
    if n * percent / 100 < n {
        n * percent / 100
    } else {
        n - 1
    }
}

/// What the summary says of flows that are sorted by completion time.
pub open spec fn flow_summary(mode: Seq<char>, sorted: Seq<FlowFct>) -> SummaryView {
    let n = sorted.len() as int;
    let s = SummaryView {
        total_flows: n as u64,
        completed_flows: finished_among(sorted) as u64,
        ..empty_summary(mode)
    };
    if n == 0 {
        s
    } else {
        SummaryView {
            fct_p50_ns: sorted[percentile_index(n, 50)].fct(),
            fct_p95_ns: sorted[percentile_index(n, 95)].fct(),
            fct_p99_ns: sorted[percentile_index(n, 99)].fct(),
            fct_max_ns: sorted[n - 1].fct(),
            ..s
        }
    }
}

fn percentile(sorted: &Vec<FlowFct>, percent: usize) -> (t: u64)
    requires
        sorted@.len() > 0,
        percent < 100,
    ensures
        t == sorted@[percentile_index(sorted@.len() as int, percent as int)].fct(),
{
    let n: usize = sorted.len();
    let (q, r) = (n / 100, n % 100);
    proof {
        let (qi, ri, p) = (q as int, r as int, percent as int);
        assert(n == 100 * qi + ri);
        assert(n * p == 100 * (qi * p) + ri * p) by (nonlinear_arith)
            requires
                n == 100 * qi + ri,
        ;
        assert(0 <= ri * p <= 99 * 99) by (nonlinear_arith)
            requires
                0 <= ri <= 99,
                0 <= p <= 99,
        ;
        assert(0 <= qi * p <= qi * 99) by (nonlinear_arith)
            requires
                0 <= qi,
                0 <= p <= 99,
        ;
        assert(n * p / 100 == qi * p + ri * p / 100);
        assert(ri * p / 100 <= ri) by (nonlinear_arith)
            requires
                0 <= ri,
                0 <= p <= 99,
        ;
    }
    let i: usize = q * percent + r * percent / 100;
    if i < n {
        sorted[i].fct_ns()
    } else {
        sorted[n - 1].fct_ns()
    }
}

fn count_finished(fcts: &Vec<FlowFct>) -> (n: u64)
    ensures
        n == finished_among(fcts@),
{
    let ghost done = |f: FlowFct| f.finish_ns > 0;
    let mut n: u64 = 0;
    let mut i: usize = 0;
    assert(fcts@.take(0).filter(done).len() == 0);
    while i < fcts.len()
        invariant
            i <= fcts@.len(),
            n <= i,
            done == (|f: FlowFct| f.finish_ns > 0),
            n == fcts@.take(i as int).filter(done).len(),
        decreases fcts@.len() - i,
    {
        proof {
            assert(fcts@.take(i + 1) =~= fcts@.take(i as int).push(fcts@[i as int]));
            fcts@.take(i as int).lemma_filter_push(fcts@[i as int], done);
        }
        if fcts[i].finish_ns > 0 {
            n = n + 1;
        }
        i = i + 1;
    }
    assert(fcts@.take(i as int) =~= fcts@);
    n
}

impl SimSummary {
    /// Sorts the flows by completion time and summarises them.
    pub fn from_fcts(mode: &str, fcts: &mut [FlowFct]) -> (s: Self)
        ensures
            sorts_flows(old(fcts)@, final(fcts)@),
            s@ == flow_summary(mode@, final(fcts)@),
    {
        let mut keys: Vec<u64> = Vec::new();
        let mut i: usize = 0;
        while i < fcts.len()
            invariant
                i <= fcts@.len(),
                fcts@ == old(fcts)@,
                keys@ =~= fct_keys(fcts@).take(i as int),
            decreases fcts@.len() - i,
        {
            keys.push(fcts[i].fct_ns());
            i = i + 1;
        }
        assert(keys@ =~= fct_keys(fcts@));
        let order = stable_order(&keys);
        let mut sorted: Vec<FlowFct> = Vec::new();
        let mut j: usize = 0;
        while j < order.len()
            invariant
                j <= order@.len(),
                fcts@ == old(fcts)@,
                keys@ == fct_keys(fcts@),
                is_stable_order(keys@, order@),
                sorted@ =~= Seq::new(j as nat, |k: int| fcts@[order@[k] as int]),
            decreases order@.len() - j,
        {
            assert(order@[j as int] < keys@.len());
            sorted.push(fcts[order[j]]);
            j = j + 1;
        }
        assert(sorts_flows_by(old(fcts)@, sorted@, order@));
        let n: usize = fcts.len();
        let mut k: usize = 0;
        while k < n
            invariant
                k <= n,
                n == fcts@.len(),
                n == sorted@.len(),
                forall|x: int| 0 <= x < k ==> #[trigger] fcts@[x] == sorted@[x],
            decreases n - k,
        {
            fcts[k] = sorted[k];
            k = k + 1;
        }
        assert(fcts@ =~= sorted@);
        let completed: u64 = count_finished(&sorted);
        let mut s = SimSummary {
            mode: mode.to_owned(),
            total_flows: n as u64,
            completed_flows: completed,
            total_time_ns: 0,
            total_packets_sent: 0,
            total_packets_retransmitted: 0,
            total_ecn_marks: 0,
            total_drops: 0,
            fct_p50_ns: 0,
            fct_p95_ns: 0,
            fct_p99_ns: 0,
            fct_max_ns: 0,
            max_queue_depth_bytes: 0,
        };
        if n > 0 {
            s.fct_p50_ns = percentile(&sorted, 50);
            s.fct_p95_ns = percentile(&sorted, 95);
            s.fct_p99_ns = percentile(&sorted, 99);
            s.fct_max_ns = sorted[n - 1].fct_ns();
        }
        s
    }

    /// The header of a table of summaries.
    pub fn csv_header() -> (h: &'static str)
        ensures
            h@
                == "mode,total_flows,completed_flows,total_time_ms,packets_sent,packets_retransmitted,ecn_marks,drops,fct_p50_us,fct_p95_us,fct_p99_us,fct_max_us,avg_link_util_pct,max_queue_depth_bytes"@,
    {
        "mode,total_flows,completed_flows,total_time_ms,packets_sent,packets_retransmitted,ecn_marks,drops,fct_p50_us,fct_p95_us,fct_p99_us,fct_max_us,avg_link_util_pct,max_queue_depth_bytes"
    }
}

impl Default for SimSummary {
    fn default() -> (s: Self)
        ensures
            s@ == empty_summary(Seq::empty()),
    {
        let s = SimSummary {
            mode: String::new(),
            total_flows: 0,
            completed_flows: 0,
            total_time_ns: 0,
            total_packets_sent: 0,
            total_packets_retransmitted: 0,
            total_ecn_marks: 0,
            total_drops: 0,
            fct_p50_ns: 0,
            fct_p95_ns: 0,
            fct_p99_ns: 0,
            fct_max_ns: 0,
            max_queue_depth_bytes: 0,
        };
        assert(s@.mode =~= Seq::empty());
        s
    }
}

/// The percentiles of a summary grow with the percentage, up to the largest completion time.
pub proof fn law_percentiles_grow(mode: Seq<char>, fcts: Seq<FlowFct>, sorted: Seq<FlowFct>)
    requires
        sorts_flows(fcts, sorted),
    ensures
        ({
            let s = flow_summary(mode, sorted);
            s.fct_p50_ns <= s.fct_p95_ns <= s.fct_p99_ns <= s.fct_max_ns
        }),
        forall|i: int|
            0 <= i < fcts.len() ==> (#[trigger] fcts[i]).fct() <= flow_summary(
                mode,
                sorted,
            ).fct_max_ns,
{
    let order = choose|order: Seq<usize>| #[trigger] sorts_flows_by(fcts, sorted, order);
    let keys = fct_keys(fcts);
    assert(sorts_flows_by(fcts, sorted, order));
    assert forall|a: int, b: int| 0 <= a <= b < sorted.len() implies sorted[a].fct()
        <= sorted[b].fct() by {
        if a < b {
            assert(comes_before(keys, order[a] as int, order[b] as int));
        }
    }
    assert forall|i: int| 0 <= i < fcts.len() implies (#[trigger] fcts[i]).fct() <= flow_summary(
        mode,
        sorted,
    ).fct_max_ns by {
        assert(lists(order, i));
        let a = choose|a: int| 0 <= a < order.len() && #[trigger] order[a] == i;
        assert(sorted[a] == fcts[i]);
    }
}

/// The completion time of a flow is the time from its start to its finish; zero if it has not finished.
pub proof fn law_completion_time(f: FlowFct)
    ensures
        f.finish_ns >= f.start_ns ==> f.fct() == f.finish_ns - f.start_ns,
        f.finish_ns <= f.start_ns ==> f.fct() == 0,
{
}

/// The flows are sorted by completion time, the ones with equal time in their given order, and each of them
/// occurs once.
pub proof fn law_flows_are_sorted(fcts: Seq<FlowFct>, sorted: Seq<FlowFct>)
    requires
        sorts_flows(fcts, sorted),
    ensures
        exists|order: Seq<usize>|
            {
                &&& #[trigger] order.len() == fcts.len()
                &&& sorted.len() == fcts.len()
                &&& order.no_duplicates()
                &&& forall|a: int|
                    0 <= a < sorted.len() ==> order[a] < fcts.len() && #[trigger] sorted[a]
                        == fcts[order[a] as int]
                &&& forall|a: int, b: int|
                    0 <= a < b < sorted.len() ==> (#[trigger] sorted[a]).fct() < (
                    #[trigger] sorted[b]).fct() || (sorted[a].fct() == sorted[b].fct() && order[a]
                        < order[b])
            },
{
    let order = choose|order: Seq<usize>| #[trigger] sorts_flows_by(fcts, sorted, order);
    let keys = fct_keys(fcts);
    assert(sorts_flows_by(fcts, sorted, order));
    assert forall|a: int, b: int| 0 <= a < b < sorted.len() implies (#[trigger] sorted[a]).fct() < (
    #[trigger] sorted[b]).fct() || (sorted[a].fct() == sorted[b].fct() && order[a] < order[b]) by {
        assert(comes_before(keys, order[a] as int, order[b] as int));
    }
    assert forall|a: int, b: int| 0 <= a < b < order.len() implies order[a] != order[b] by {
        assert(comes_before(keys, order[a] as int, order[b] as int));
    }
    assert(order.no_duplicates());
    assert(order.len() == fcts.len());
}

/// The summary counts the flows and those that have finished. Its percentiles are the completion times at
/// 50, 95 and 99 hundredths of the sorted flows, and the largest is that of the last.
pub proof fn law_summary_of_flows(mode: Seq<char>, sorted: Seq<FlowFct>)
    requires
        sorted.len() <= u64::MAX,
    ensures
        ({
            let s = flow_summary(mode, sorted);
            let n = sorted.len() as int;
            &&& s.mode == mode
            &&& s.total_flows == n
            &&& s.completed_flows == sorted.filter(|f: FlowFct| f.finish_ns > 0).len()
            &&& n > 0 ==> {
                &&& s.fct_p50_ns == sorted[n * 50 / 100].fct()
                &&& s.fct_p95_ns == sorted[n * 95 / 100].fct()
                &&& s.fct_p99_ns == sorted[n * 99 / 100].fct()
                &&& s.fct_max_ns == sorted[n - 1].fct()
            }
            &&& n == 0 ==> s.fct_p50_ns == 0 && s.fct_p95_ns == 0 && s.fct_p99_ns == 0 && s.fct_max_ns
                == 0
            &&& s.total_time_ns == 0 && s.total_packets_sent == 0 && s.total_packets_retransmitted == 0
                && s.total_ecn_marks == 0 && s.total_drops == 0 && s.max_queue_depth_bytes == 0
        }),
{
    sorted.lemma_filter_len(|f: FlowFct| f.finish_ns > 0);
}

} // verus!
