//! One-way links. A physical link is a pair of them.
use crate::util::low_u32;
use crate::EntityId;
use vstd::prelude::*;
use vstd::std_specs::iter::IteratorSpec;

verus! {

pub type LinkId = u32;

/// A one-way link.
#[derive(Debug, Clone, Copy)]
pub struct Link {
    pub id: LinkId,
    /// The sending entity.
    pub from: EntityId,
    /// The receiving entity.
    pub to: EntityId,
    /// Bandwidth in bits per second.
    pub bandwidth_bps: u64,
    /// Propagation delay in nanoseconds.
    pub prop_delay_ns: u64,
}

/// The time in nanoseconds to put `size_bytes` on a wire of `bandwidth_bps`, rounded
/// down, and capped at the largest time that can be represented.
pub open spec fn wire_time(size_bytes: u32, bandwidth_bps: u64) -> u64 {
    let exact = size_bytes as int * 8_000_000_000 / bandwidth_bps as int;
    if exact > u64::MAX {
        u64::MAX
    } else {
        exact as u64
    }
}

impl Link {
    /// The time in nanoseconds to put a packet of `size_bytes` on the link.
    pub fn serialization_ns(&self, size_bytes: u32) -> (t: u64)
        requires
            self.bandwidth_bps > 0,
        ensures
            t == wire_time(size_bytes, self.bandwidth_bps),
    {
        let exact: u128 = (size_bytes as u128 * 8_000_000_000) / (self.bandwidth_bps as u128);
        if exact > u64::MAX as u128 {
            u64::MAX
        } else {
            exact as u64
        }
    }

    /// When a packet of `size_bytes` that starts to be sent at `now_ns` has fully arrived.
    pub fn arrive_time(&self, now_ns: u64, size_bytes: u32) -> (t: u64)
        requires
            self.bandwidth_bps > 0,
            now_ns + wire_time(size_bytes, self.bandwidth_bps) + self.prop_delay_ns <= u64::MAX,
        ensures
            t == now_ns + wire_time(size_bytes, self.bandwidth_bps) + self.prop_delay_ns,
    {
        now_ns + self.serialization_ns(size_bytes) + self.prop_delay_ns
    }
}

/// The links of a network, found by their number.
pub struct LinkRegistry {
    links: Vec<Link>,
}

impl View for LinkRegistry {
    type V = Seq<Link>;

    closed spec fn view(&self) -> Seq<Link> {
        self.links@
    }
}

impl LinkRegistry {
    /// A registry without links.
    pub fn new() -> (r: Self)
        ensures
            r@ == Seq::<Link>::empty(),
    {
        LinkRegistry { links: Vec::new() }
    }

    /// Adds a link and returns its number, which is its position.
    pub fn add(&mut self, link: Link) -> (id: LinkId)
        ensures
            id as int == old(self)@.len() as int % 0x1_0000_0000,
            final(self)@ == old(self)@.push(Link { id, ..link }),
    {
        let id: LinkId = low_u32(self.links.len());
        let mut link = link;
        link.id = id;
        self.links.push(link);
        id
    }

    /// The link with the number `id`.
    pub fn get(&self, id: LinkId) -> (link: &Link)
        requires
            id < self@.len(),
        ensures
            *link == self@[id as int],
    {
        &self.links[id as usize]
    }

    /// The number of links.
    pub fn len(&self) -> (n: usize)
        ensures
            n == self@.len(),
    {
        self.links.len()
    }

    /// Whether there is no link.
    pub fn is_empty(&self) -> (r: bool)
        ensures
            r == (self@.len() == 0),
    {
        self.links.is_empty()
    }

    /// The links in the order in which they were added.
    pub fn iter(&self) -> (it: std::slice::Iter<'_, Link>)
        ensures
            it.remaining().unref() == self@,
    {
        self.links.iter()
    }
}

impl Default for LinkRegistry {
    fn default() -> (r: Self)
        ensures
            r@ == Seq::<Link>::empty(),
    {
        Self::new()
    }
}

} // verus!
