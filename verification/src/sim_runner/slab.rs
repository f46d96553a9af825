//! A store of packets that are under way, found by the number of their slot.
use crate::network::Packet;
use vstd::prelude::*;

verus! {

/// A store of packets. Slots that have become free are used again, the last one first.
pub struct PacketSlab {
    pub slots: Vec<Option<Packet>>,
    pub free: Vec<u64>,
}

/// What a store of packets holds.
#[verifier::ext_equal]
pub struct SlabView {
    pub slots: Seq<Option<Packet>>,
    pub free: Seq<u64>,
}

impl View for PacketSlab {
    type V = SlabView;

    open spec fn view(&self) -> SlabView {
        SlabView { slots: self.slots@, free: self.free@ }
    }
}

impl SlabView {
    /// The free slots are empty and listed once.
    pub open spec fn wf(self) -> bool {
        &&& forall|i: int|
            0 <= i < self.free.len() ==> (#[trigger] self.free[i]) < self.slots.len()
                && self.slots[self.free[i] as int] is None
        &&& self.free.no_duplicates()
    }

    /// The packet in a slot.
    pub open spec fn at(self, id: u64) -> Option<Packet> {
        if id < self.slots.len() {
            self.slots[id as int]
        } else {
            None
        }
    }

    /// The slot that the next packet gets.
    pub open spec fn next_slot(self) -> u64 {
        if self.free.len() > 0 {
            self.free.last()
        } else {
            self.slots.len() as u64
        }
    }

    /// The store with a packet added, which takes the number of its slot.
    pub open spec fn inserted(self, pkt: Packet) -> SlabView {
        let stored = Some(Packet { id: self.next_slot(), ..pkt });
        if self.free.len() > 0 {
            SlabView {
                slots: self.slots.update(self.next_slot() as int, stored),
                free: self.free.drop_last(),
            }
        } else {
            SlabView { slots: self.slots.push(stored), free: self.free }
        }
    }

    /// The store without the packet in a slot.
    pub open spec fn removed(self, id: u64) -> SlabView {
        if self.at(id) is Some {
            SlabView { slots: self.slots.update(id as int, None), free: self.free.push(id) }
        } else {
            self
        }
    }
}

impl PacketSlab {
    /// An empty store.
    pub fn new() -> (s: Self)
        ensures
            s@ == (SlabView { slots: Seq::empty(), free: Seq::empty() }),
            s@.wf(),
    {
        PacketSlab { slots: Vec::new(), free: Vec::new() }
    }

    /// Adds a packet and returns the number of its slot, which becomes the number of the packet.
    pub fn insert(&mut self, pkt: Packet) -> (id: u64)
        requires
            old(self)@.wf(),
        ensures
            id == old(self)@.next_slot(),
            final(self)@ == old(self)@.inserted(pkt),
            final(self)@.wf(),
    {
        let mut pkt = pkt;
        let count: usize = self.slots.len();
        match self.free.pop() {
            Some(id) => {
                assert(old(self)@.free[old(self)@.free.len() - 1] == id);
                pkt.id = id;
                self.slots[id as usize] = Some(pkt);
                assert(self@ =~= old(self)@.inserted(pkt));
                id
            },
            None => {
                let id: u64 = count as u64;
                pkt.id = id;
                self.slots.push(Some(pkt));
                assert(self@ =~= old(self)@.inserted(pkt));
                id
            },
        }
    }

    /// Takes the packet out of a slot.
    pub fn remove(&mut self, id: u64) -> (r: Option<Packet>)
        requires
            old(self)@.wf(),
        ensures
            r == old(self)@.at(id),
            final(self)@ == old(self)@.removed(id),
            final(self)@.wf(),
    {
        if id >= self.slots.len() as u64 {
            return None;
        }
        let mut taken: Option<Packet> = None;
        std::mem::swap(&mut taken, &mut self.slots[id as usize]);
        if taken.is_some() {
            self.free.push(id);
        }
        assert(self@ =~= old(self)@.removed(id));
        taken
    }
}

impl Default for PacketSlab {
    fn default() -> (s: Self)
        ensures
            s@ == (SlabView { slots: Seq::empty(), free: Seq::empty() }),
            s@.wf(),
    {
        PacketSlab::new()
    }
}

/// A packet that was added is given back under the number of its slot, whatever is done with
/// other slots does not touch it, and no slot is used twice at a time.
pub proof fn law_slab_gives_back(s: SlabView, pkt: Packet, other: u64)
    requires
        s.wf(),
        s.slots.len() < u64::MAX,
    ensures
        s.at(s.next_slot()) is None,
        s.inserted(pkt).wf(),
        s.inserted(pkt).at(s.next_slot()) == Some(Packet { id: s.next_slot(), ..pkt }),
        other != s.next_slot() ==> s.inserted(pkt).at(other) == s.at(other),
        other != s.next_slot() ==> s.inserted(pkt).removed(other).at(s.next_slot()) == Some(
            Packet { id: s.next_slot(), ..pkt },
        ),
        s.inserted(pkt).removed(s.next_slot()).at(s.next_slot()) is None,
        s.inserted(pkt).removed(s.next_slot()).at(other) == s.at(other),
{
    if s.free.len() > 0 {
        assert(s.free[s.free.len() - 1] == s.next_slot());
    }
}

/// A packet that was taken out is gone, its slot is the next to be used, and no other packet is touched.
pub proof fn law_slab_takes_out(s: SlabView, id: u64, other: u64)
    requires
        s.wf(),
    ensures
        s.removed(id).wf(),
        s.removed(id).at(id) is None,
        other != id ==> s.removed(id).at(other) == s.at(other),
        s.at(id) is Some ==> s.removed(id).next_slot() == id,
        s.at(id) is None ==> s.removed(id) == s,
        s.removed(id).slots.len() == s.slots.len(),
{
    let t = s.removed(id);
    if s.at(id) is Some {
        assert(!s.free.contains(id)) by {
            if s.free.contains(id) {
                let k = choose|k: int| 0 <= k < s.free.len() && s.free[k] == id;
                assert(s.slots[s.free[k] as int] is None);
            }
        }
        assert forall|i: int| 0 <= i < t.free.len() implies (#[trigger] t.free[i]) < t.slots.len()
            && t.slots[t.free[i] as int] is None by {
            if i < s.free.len() {
                assert(t.free[i] == s.free[i]);
            }
        }
    }
}

} // verus!
