//! Many senders, one receiver.
use super::FlowDesc;
use crate::util::low_u32;
use crate::EntityId;
use vstd::prelude::*;

verus! {

use super::ids_distinct;

/// Every sender sends the same number of bytes to one receiver.
pub struct Incast {
    pub senders: Vec<EntityId>,
    pub receiver: EntityId,
    pub bytes_per_sender: u64,
    pub start_time_ns: u64,
}

impl Incast {
    /// The flows: one for each sender, numbered from one on.
    pub open spec fn flows(self) -> Seq<FlowDesc> {
        Seq::new(
            self.senders@.len(),
            |i: int|
                FlowDesc {
                    flow_id: ((i + 1) % 0x1_0000_0000) as u32,
                    src: self.senders@[i],
                    dst: self.receiver,
                    bytes: self.bytes_per_sender,
                    start_time_ns: self.start_time_ns,
                },
        )
    }

    /// The flows, one for each sender. Their numbers start at one, so that none is zero.
    pub fn generate(&self) -> (v: Vec<FlowDesc>)
        ensures
            v@ == self.flows(),
    {
        let n: usize = self.senders.len();
        let mut v: Vec<FlowDesc> = Vec::new();
        let mut i: usize = 0;
        while i < n
            invariant
                i <= n,
                n == self.senders@.len(),
                v@ =~= self.flows().take(i as int),
            decreases n - i,
        {
            let flow_id: u32 = low_u32(i + 1);
            v.push(
                FlowDesc {
                    flow_id,
                    src: self.senders[i],
                    dst: self.receiver,
                    bytes: self.bytes_per_sender,
                    start_time_ns: self.start_time_ns,
                },
            );
            i = i + 1;
        }
        assert(v@ =~= self.flows());
        v
    }
}

/// The flows have numbers of their own, and none of them is zero.
pub proof fn law_incast_numbers(inc: Incast)
    requires
        inc.senders@.len() <= u32::MAX,
    ensures
        ids_distinct(inc.flows()),
        forall|i: int| 0 <= i < inc.flows().len() ==> (#[trigger] inc.flows()[i]).flow_id != 0,
{
}

} // verus!
