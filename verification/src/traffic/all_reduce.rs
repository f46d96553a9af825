//! All-reduce on a ring.
//!
//! Each of `n` nodes holds a message. In each of `2 * (n - 1)` steps every node sends an `n`-th
//! part of a message to its neighbour on the ring.
use super::FlowDesc;
use crate::EntityId;
use vstd::prelude::*;

verus! {

use super::ids_distinct;

/// An all-reduce on a ring of nodes.
pub struct RingAllReduce {
    pub nodes: Vec<EntityId>,
    pub message_bytes: u64,
    pub start_time_ns: u64,
}

impl RingAllReduce {
    /// The number of steps; none for fewer than two nodes.
    pub open spec fn steps(self) -> int {
        if self.nodes@.len() < 2 {
            0
        } else {
            2 * (self.nodes@.len() - 1)
        }
    }

    /// The flows can be numbered and their times fit.
    pub open spec fn fits(self) -> bool {
        &&& self.steps() * self.nodes@.len() <= u32::MAX
        &&& self.start_time_ns + self.steps() * 1000 <= u64::MAX
    }

    /// The flows, step by step; the steps start a microsecond apart.
    pub open spec fn flows(self) -> Seq<FlowDesc> {
        let n = self.nodes@.len() as int;
        Seq::new(
            (self.steps() * n) as nat,
            |k: int|
                FlowDesc {
                    flow_id: k as u32,
                    src: self.nodes@[k % n],
                    dst: self.nodes@[(k % n + 1) % n],
                    bytes: (self.message_bytes as int / n) as u64,
                    start_time_ns: (self.start_time_ns + (k / n) * 1000) as u64,
                },
        )
    }

    /// The flows, step by step.
    pub fn generate(&self) -> (v: Vec<FlowDesc>)
        requires
            self.fits(),
        ensures
            v@ == self.flows(),
    {
        let mut v: Vec<FlowDesc> = Vec::new();
        let n: usize = self.nodes.len();
        if n < 2 {
            assert(v@ =~= self.flows());
            return v;
        }
        let ghost steps = self.steps();
        proof {
            assert(steps >= 2);
            assert(n <= u32::MAX && steps <= u32::MAX) by (nonlinear_arith)
                requires
                    steps * n <= u32::MAX,
                    steps >= 2,
                    n >= 2,
            ;
        }
        let total_steps: usize = 2 * (n - 1);
        let chunk: u64 = self.message_bytes / (n as u64);
        assert(chunk <= self.message_bytes);
        let mut fid: u32 = 0;
        let mut step: usize = 0;
        while step < total_steps
            invariant
                step <= total_steps,
                total_steps == self.steps(),
                self.steps() == steps,
                n == self.nodes@.len(),
                2 <= n <= u32::MAX,
                total_steps <= u32::MAX,
                self.fits(),
                chunk == self.message_bytes as int / n as int,
                fid == step * n,
                v@ =~= self.flows().take(step * n),
            decreases total_steps - step,
        {
            proof {
                assert(step * n + n <= steps * n) by (nonlinear_arith)
                    requires
                        step + 1 <= steps,
                        n >= 0,
                ;
            }
            let mut i: usize = 0;
            while i < n
                invariant
                    i <= n,
                    step < total_steps,
                    total_steps == self.steps(),
                    self.steps() == steps,
                    n == self.nodes@.len(),
                    2 <= n <= u32::MAX,
                    total_steps <= u32::MAX,
                    self.fits(),
                    chunk == self.message_bytes as int / n as int,
                    step * n + n <= steps * n,
                    fid == step * n + i,
                    v@ =~= self.flows().take(step * n + i),
                decreases n - i,
            {
                proof {
                    vstd::arithmetic::div_mod::lemma_fundamental_div_mod_converse(
                        step * n + i,
                        n as int,
                        step as int,
                        i as int,
                    );
                }
                let next: usize = (i + 1) % n;
                let flow = FlowDesc {
                    flow_id: fid,
                    src: self.nodes[i],
                    dst: self.nodes[next],
                    bytes: chunk,
                    start_time_ns: self.start_time_ns + step as u64 * 1000,
                };
                assert(flow == self.flows()[step * n + i]);
                v.push(flow);
                fid = fid + 1;
                i = i + 1;
            }
            assert((step + 1) * n == step * n + n) by (nonlinear_arith);
            step = step + 1;
        }
        assert(v@ =~= self.flows());
        v
    }
}

/// The flows have numbers of their own, and every node sends as many as it receives: it sends
/// once in every step, and receives once from its other neighbour.
pub proof fn law_ring_is_balanced(r: RingAllReduce, step: int, i: int)
    requires
        r.fits(),
        0 <= step < r.steps(),
        0 <= i < r.nodes@.len(),
    ensures
        ids_distinct(r.flows()),
        ({
            let n = r.nodes@.len() as int;
            let left = if i == 0 {
                n - 1
            } else {
                i - 1
            };
            &&& 0 <= step * n + i < r.flows().len()
            &&& 0 <= step * n + left < r.flows().len()
            &&& r.flows()[step * n + i].src == r.nodes@[i]
            &&& r.flows()[step * n + left].dst == r.nodes@[i]
        }),
{
    let n = r.nodes@.len() as int;
    let left = if i == 0 {
        n - 1
    } else {
        i - 1
    };
    assert(0 <= step * n && step * n + n <= r.steps() * n) by (nonlinear_arith)
        requires
            0 <= step,
            step + 1 <= r.steps(),
            n >= 0,
    ;
    vstd::arithmetic::div_mod::lemma_fundamental_div_mod_converse(step * n + i, n, step, i);
    vstd::arithmetic::div_mod::lemma_fundamental_div_mod_converse(step * n + left, n, step, left);
    if i > 0 {
        assert((left + 1) % n == i) by {
            vstd::arithmetic::div_mod::lemma_small_mod(i as nat, n as nat);
        }
    } else {
        assert(n % n == 0) by (nonlinear_arith)
            requires
                n > 0,
        ;
    }
}

} // verus!
