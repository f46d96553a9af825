//! The event queue: a minimum priority queue on a four-ary heap.
//!
//! A four-ary heap is half as high as a binary one, so that `push` and `pop`
//! touch fewer cache lines on large queues.
use super::event::Event;
use crate::util::swap_elements;
use vstd::multiset::Multiset;
use vstd::prelude::*;

verus! {

use super::event::before;
use crate::util::{lemma_swapped_multiset, swapped};

/// The heap position above position `i`.
spec fn parent(i: int) -> int {
    (i - 1) / 4
}

/// No event at a position below `from`'s level is due before the event above it:
/// heap order for every pair whose upper position is at least `from`.
spec fn ordered_from(h: Seq<Event>, from: int) -> bool {
    forall|c: int|
        #![trigger h[c]]
        1 <= c < h.len() && parent(c) >= from ==> !before(h[c], h[parent(c)])
}

/// Heap order for every pair whose upper position is at least `from`, except at `hole`.
spec fn ordered_except_above(h: Seq<Event>, from: int, hole: int) -> bool {
    forall|c: int|
        #![trigger h[c]]
        1 <= c < h.len() && parent(c) >= from && parent(c) != hole ==> !before(h[c], h[parent(c)])
}

/// In a heap, no event is due before the one at the root.
proof fn lemma_root_is_first(h: Seq<Event>, i: int)
    requires
        ordered_from(h, 0),
        0 <= i < h.len(),
    ensures
        !before(h[i], h[0]),
    decreases i,
{
    if i > 0 {
        lemma_root_is_first(h, parent(i));
        assert(!before(h[i], h[parent(i)]));
    }
}

fn ev_less(a: &Event, b: &Event) -> (r: bool)
    ensures
        r == before(*a, *b),
{
    a.time < b.time || (a.time == b.time && a.seq < b.seq)
}

/// Moves the event at `start` up to its place.
fn sift_up(heap: &mut Vec<Event>, start: usize)
    requires
        start < old(heap)@.len(),
        forall|c: int|
            #![trigger old(heap)@[c]]
            1 <= c < old(heap)@.len() && c != start ==> !before(
                old(heap)@[c],
                old(heap)@[parent(c)],
            ),
        start > 0 ==> forall|c: int|
            #![trigger old(heap)@[c]]
            1 <= c < old(heap)@.len() && parent(c) == start ==> !before(
                old(heap)@[c],
                old(heap)@[parent(start as int)],
            ),
    ensures
        final(heap)@.len() == old(heap)@.len(),
        ordered_from(final(heap)@, 0),
        final(heap)@.to_multiset() == old(heap)@.to_multiset(),
{
    let mut idx: usize = start;
    let mut done: bool = false;
    while idx > 0 && !done
        invariant
            idx < heap@.len(),
            heap@.len() == old(heap)@.len(),
            heap@.to_multiset() == old(heap)@.to_multiset(),
            forall|c: int|
                #![trigger heap@[c]]
                1 <= c < heap@.len() && (c != idx || done) ==> !before(heap@[c], heap@[parent(c)]),
            idx > 0 ==> forall|c: int|
                #![trigger heap@[c]]
                1 <= c < heap@.len() && parent(c) == idx ==> !before(
                    heap@[c],
                    heap@[parent(idx as int)],
                ),
        decreases idx, (if done { 0int } else { 1int }),
    {
        let up: usize = (idx - 1) / 4;
        if !ev_less(&heap[idx], &heap[up]) {
            done = true;
        } else {
            let ghost h0 = heap@;
            proof {
                lemma_swapped_multiset(h0, idx as int, up as int);
            }
            swap_elements(heap, idx, up);
            proof {
                let h1 = heap@;
                assert(h1 == swapped(h0, idx as int, up as int));
                assert forall|c: int|
                    #![trigger h1[c]]
                    1 <= c < h1.len() && c != up implies !before(h1[c], h1[parent(c)]) by {
                    assert(!before(h0[c], h0[parent(c)]) || c == idx);
                    assert(!before(h0[up as int], h0[parent(up as int)]) || up == 0);
                }
                assert forall|c: int|
                    #![trigger h1[c]]
                    up > 0 && 1 <= c < h1.len() && parent(c) == up implies !before(
                    h1[c],
                    h1[parent(up as int)],
                ) by {
                    assert(!before(h0[up as int], h0[parent(up as int)]));
                    assert(!before(h0[c], h0[parent(c)]) || c == idx);
                }
            }
            idx = up;
        }
    }
}

/// The position of an event that is due first among `idx` and its children.
fn first_of_family(heap: &Vec<Event>, idx: usize) -> (m: usize)
    requires
        4 * idx + 1 < heap@.len(),
    ensures
        m == idx || (m < heap@.len() && m >= 1 && parent(m as int) == idx),
        forall|c: int|
            #![trigger heap@[c]]
            1 <= c < heap@.len() && parent(c) == idx ==> !before(heap@[c], heap@[m as int]),
        m != idx ==> before(heap@[m as int], heap@[idx as int]),
        !before(heap@[idx as int], heap@[m as int]),
{
    let len: usize = heap.len();
    let first_child: usize = idx * 4 + 1;
    let room: usize = len - first_child;
    let last_child: usize = if room > 4 {
        first_child + 3
    } else {
        len - 1
    };
    let mut min: usize = idx;
    let mut child: usize = first_child;
    while child <= last_child
        invariant
            first_child == 4 * idx + 1,
            first_child <= child <= last_child + 1,
            last_child < len == heap@.len(),
            last_child <= first_child + 3,
            min == idx || first_child <= min < child,
            forall|c: int|
                #![trigger heap@[c]]
                first_child <= c < child ==> !before(heap@[c], heap@[min as int]),
            min != idx ==> before(heap@[min as int], heap@[idx as int]),
            !before(heap@[idx as int], heap@[min as int]),
        decreases last_child + 1 - child,
    {
        if ev_less(&heap[child], &heap[min]) {
            min = child;
        }
        child = child + 1;
    }
    min
}

/// Moves the event at `start` down to its place.
fn sift_down(heap: &mut Vec<Event>, start: usize)
    requires
        start < old(heap)@.len(),
        ordered_from(old(heap)@, start + 1),
    ensures
        final(heap)@.len() == old(heap)@.len(),
        ordered_from(final(heap)@, start as int),
        final(heap)@.to_multiset() == old(heap)@.to_multiset(),
{
    let len: usize = heap.len();
    let mut idx: usize = start;
    let mut done: bool = false;
    while len >= 2 && idx <= (len - 2) / 4 && !done
        invariant
            len == heap@.len(),
            len == old(heap)@.len(),
            start <= idx < len,
            heap@.to_multiset() == old(heap)@.to_multiset(),
            done ==> ordered_from(heap@, start as int),
            ordered_except_above(heap@, start as int, idx as int),
            idx > start ==> idx >= 1 && parent(idx as int) >= start,
            idx > start ==> forall|c: int|
                #![trigger heap@[c]]
                1 <= c < len && parent(c) == idx ==> !before(
                    heap@[c],
                    heap@[parent(idx as int)],
                ),
        decreases len - idx, (if done { 0int } else { 1int }),
    {
        let min: usize = first_of_family(heap, idx);
        if min == idx {
            done = true;
            assert(ordered_from(heap@, start as int));
        } else {
            let ghost h0 = heap@;
            proof {
                lemma_swapped_multiset(h0, idx as int, min as int);
            }
            swap_elements(heap, idx, min);
            proof {
                let h1 = heap@;
                assert(h1 == swapped(h0, idx as int, min as int));
                assert forall|c: int|
                    #![trigger h1[c]]
                    1 <= c < h1.len() && parent(c) >= start && parent(c) != min implies !before(
                    h1[c],
                    h1[parent(c)],
                ) by {
                    assert(parent(c) == idx || c == idx || h1[c] == h0[c]);
                    assert(!before(h0[c], h0[parent(c)]) || parent(c) == idx);
                    if c == idx {
                        assert(!before(h0[min as int], h0[parent(idx as int)]));
                    }
                }
                assert forall|c: int|
                    #![trigger h1[c]]
                    1 <= c < len && parent(c) == min implies !before(h1[c], h1[parent(min as int)]) by {
                    assert(!before(h0[c], h0[parent(c)]));
                    assert(h1[parent(min as int)] == h0[min as int]);
                }
            }
            idx = min;
        }
    }
}

/// Establishes heap order on arbitrary contents.
fn heapify(heap: &mut Vec<Event>)
    ensures
        final(heap)@.len() == old(heap)@.len(),
        ordered_from(final(heap)@, 0),
        final(heap)@.to_multiset() == old(heap)@.to_multiset(),
{
    let len: usize = heap.len();
    if len <= 1 {
        return;
    }
    let mut next: usize = (len - 2) / 4 + 1;
    while next > 0
        invariant
            len == heap@.len(),
            len == old(heap)@.len(),
            next <= (len - 2) / 4 + 1,
            len >= 2,
            ordered_from(heap@, next as int),
            heap@.to_multiset() == old(heap)@.to_multiset(),
        decreases next,
    {
        next = next - 1;
        sift_down(heap, next);
    }
}

/// The event queue.
pub struct EventQueue {
    heap: Vec<Event>,
}

impl View for EventQueue {
    type V = Multiset<Event>;

    /// The pending events.
    closed spec fn view(&self) -> Multiset<Event> {
        self.heap@.to_multiset()
    }
}

/// `ev` is pending in `events` and no pending event is due before it.
pub open spec fn is_first(events: Multiset<Event>, ev: Event) -> bool {
    events.contains(ev) && forall|other: Event| #[trigger]
        events.contains(other) ==> !before(other, ev)
}

impl EventQueue {
    #[verifier::type_invariant]
    spec fn in_heap_order(self) -> bool {
        ordered_from(self.heap@, 0)
    }

    /// The event that is taken next, if there is one.
    pub closed spec fn head(&self) -> Event {
        self.heap@[0]
    }

    /// An empty queue.
    pub fn new() -> (q: Self)
        ensures
            q@ == Multiset::<Event>::empty(),
    {
        broadcast use vstd::seq_lib::group_to_multiset_ensures;

        let q = EventQueue { heap: Vec::new() };
        assert(q@ =~= Multiset::<Event>::empty());
        q
    }

    /// An empty queue with room for `cap` events.
    pub fn with_capacity(cap: usize) -> (q: Self)
        ensures
            q@ == Multiset::<Event>::empty(),
    {
        broadcast use vstd::seq_lib::group_to_multiset_ensures;

        let q = EventQueue { heap: Vec::with_capacity(cap) };
        assert(q@ =~= Multiset::<Event>::empty());
        q
    }

    /// Adds an event.
    pub fn push(&mut self, ev: Event)
        ensures
            final(self)@ == old(self)@.insert(ev),
    {
        broadcast use vstd::seq_lib::group_to_multiset_ensures;

        proof {
            use_type_invariant(&*self);
        }
        let mut heap: Vec<Event> = Vec::new();
        std::mem::swap(&mut heap, &mut self.heap);
        let ghost h0 = heap@;
        heap.push(ev);
        let last: usize = heap.len() - 1;
        proof {
            assert forall|c: int|
                #![trigger heap@[c]]
                1 <= c < heap@.len() && c != last implies !before(heap@[c], heap@[parent(c)]) by {
                assert(!before(h0[c], h0[parent(c)]));
            }
        }
        sift_up(&mut heap, last);
        self.heap = heap;
    }

    /// Removes and returns an event that is due first: the one that `peek` shows.
    pub fn pop(&mut self) -> (r: Option<Event>)
        ensures
            r is None <==> old(self)@.len() == 0,
            match r {
                None => final(self)@ == old(self)@,
                Some(ev) => {
                    &&& ev == old(self).head()
                    &&& is_first(old(self)@, ev)
                    &&& final(self)@ == old(self)@.remove(ev)
                },
            },
    {
        broadcast use vstd::seq_lib::group_to_multiset_ensures;

        proof {
            use_type_invariant(&*self);
        }
        if self.heap.len() == 0 {
            return None;
        }
        let mut heap: Vec<Event> = Vec::new();
        std::mem::swap(&mut heap, &mut self.heap);
        let ghost h0 = heap@;
        let ev = heap.swap_remove(0);
        proof {
            lemma_first_of_heap(h0);
            let n = h0.len() - 1;
            let swapped_out = swapped(h0, 0, n);
            lemma_swapped_multiset(h0, 0, n);
            assert(heap@ =~= swapped_out.remove(n));
            vstd::seq_lib::to_multiset_remove(swapped_out, n);
            assert(swapped_out[n] == h0[0]);
            assert forall|c: int|
                #![trigger heap@[c]]
                1 <= c < heap@.len() && parent(c) >= 1 implies !before(heap@[c], heap@[parent(c)]) by {
                assert(heap@[c] == h0[c]);
                assert(!before(h0[c], h0[parent(c)]));
            }
        }
        if heap.len() > 0 {
            sift_down(&mut heap, 0);
        }
        self.heap = heap;
        Some(ev)
    }

    /// An event that is due first, left in the queue: the one that `pop` takes next.
    pub fn peek(&self) -> (r: Option<&Event>)
        ensures
            r is None <==> self@.len() == 0,
            match r {
                None => true,
                Some(ev) => *ev == self.head() && is_first(self@, *ev),
            },
    {
        broadcast use vstd::seq_lib::group_to_multiset_ensures;

        proof {
            use_type_invariant(self);
        }
        if self.heap.len() == 0 {
            None
        } else {
            proof {
                lemma_first_of_heap(self.heap@);
            }
            Some(&self.heap[0])
        }
    }

    /// The number of pending events.
    pub fn len(&self) -> (n: usize)
        ensures
            n == self@.len(),
    {
        broadcast use vstd::seq_lib::group_to_multiset_ensures;

        self.heap.len()
    }

    /// Whether no event is pending.
    pub fn is_empty(&self) -> (r: bool)
        ensures
            r == (self@.len() == 0),
    {
        broadcast use vstd::seq_lib::group_to_multiset_ensures;

        self.heap.len() == 0
    }

    /// Removes every event that `predicate` accepts and returns how many there were.
    pub fn cancel_where<F: Fn(&Event) -> bool>(&mut self, predicate: F) -> (removed: usize)
        requires
            forall|ev: &Event| #[trigger] call_requires(predicate, (ev,)),
        ensures
            cancelled(old(self)@, final(self)@, predicate),
            removed == old(self)@.len() - final(self)@.len(),
    {
        broadcast use vstd::seq_lib::group_to_multiset_ensures;

        let mut heap: Vec<Event> = Vec::new();
        std::mem::swap(&mut heap, &mut self.heap);
        let before_len: usize = heap.len();
        let ghost h0 = heap@;
        let ghost mut dropped: Multiset<Event> = Multiset::empty();
        let mut kept: Vec<Event> = Vec::new();
        assert(kept@.to_multiset() =~= Multiset::empty());
        assert(h0.skip(h0.len() as int).to_multiset() =~= Multiset::empty());
        while heap.len() > 0
            invariant
                heap@.len() <= before_len,
                heap@ == h0.take(heap@.len() as int),
                h0.len() == before_len,
                kept@.len() <= before_len - heap@.len(),
                forall|ev: &Event| #[trigger] call_requires(predicate, (ev,)),
                h0.skip(heap@.len() as int).to_multiset() == kept@.to_multiset().add(dropped),
                forall|ev: Event| #[trigger]
                    kept@.to_multiset().contains(ev) ==> call_ensures(predicate, (&ev,), false),
                forall|ev: Event| #[trigger]
                    dropped.contains(ev) ==> call_ensures(predicate, (&ev,), true),
            decreases heap@.len(),
        {
            broadcast use vstd::multiset::group_multiset_properties;

            let ghost rest = h0.skip(heap@.len() as int);
            let ghost n = heap@.len();
            match heap.pop() {
                None => {},
                Some(ev) => {
                    let drop_it: bool = predicate(&ev);
                    proof {
                        assert(h0.skip(n - 1) =~= rest.insert(0, ev));
                        vstd::seq_lib::to_multiset_insert(rest, 0, ev);
                        vstd::seq_lib::to_multiset_build(kept@, ev);
                    }
                    if drop_it {
                        proof {
                            let d0 = dropped;
                            dropped = dropped.insert(ev);
                            assert(kept@.to_multiset().add(d0).insert(ev)
                                =~= kept@.to_multiset().add(dropped));
                            assert forall|e: Event| #[trigger] dropped.contains(
                                e,
                            ) implies call_ensures(predicate, (&e,), true) by {
                                if e != ev {
                                    assert(d0.contains(e));
                                }
                            }
                        }
                    } else {
                        let ghost k0 = kept@.to_multiset();
                        kept.push(ev);
                        assert(k0.add(dropped).insert(ev) =~= kept@.to_multiset().add(dropped));
                        assert forall|e: Event| #[trigger]
                            kept@.to_multiset().contains(e) implies call_ensures(
                            predicate,
                            (&e,),
                            false,
                        ) by {
                            if e != ev {
                                assert(k0.contains(e));
                            }
                        }
                    }
                },
            }
        }
        assert(h0.skip(0) =~= h0);
        let removed: usize = before_len - kept.len();
        proof {
            let left = kept@.to_multiset();
            assert(old(self)@ == left.add(dropped));
            assert(old(self)@.sub(dropped) =~= left);
            assert(dropped.subset_of(old(self)@));
            assert(dropped_events(old(self)@, left, predicate, dropped));
        }
        heapify(&mut kept);
        self.heap = kept;
        removed
    }
}

/// `dropped` is what was removed from `pre` to leave `post`: the events that `predicate` accepted,
/// while it accepted none of the events that were left.
pub open spec fn dropped_events<F: Fn(&Event) -> bool>(
    pre: Multiset<Event>,
    post: Multiset<Event>,
    predicate: F,
    dropped: Multiset<Event>,
) -> bool {
    &&& dropped.subset_of(pre)
    &&& post == pre.sub(dropped)
    &&& forall|ev: Event| #[trigger]
        dropped.contains(ev) ==> call_ensures(predicate, (&ev,), true)
    &&& forall|ev: Event| #[trigger]
        post.contains(ev) ==> call_ensures(predicate, (&ev,), false)
}

/// `post` is what is left of `pre` when the events that `predicate` accepts have been removed.
pub open spec fn cancelled<F: Fn(&Event) -> bool>(
    pre: Multiset<Event>,
    post: Multiset<Event>,
    predicate: F,
) -> bool {
    exists|dropped: Multiset<Event>| #[trigger] dropped_events(pre, post, predicate, dropped)
}

/// Cancelling with a predicate that decides by `accepts` leaves the events that `accepts` does
/// not accept.
pub proof fn law_cancel_filters<F: Fn(&Event) -> bool>(
    pre: Multiset<Event>,
    post: Multiset<Event>,
    predicate: F,
    accepts: spec_fn(Event) -> bool,
)
    requires
        cancelled(pre, post, predicate),
        forall|ev: Event, r: bool| #[trigger]
            call_ensures(predicate, (&ev,), r) ==> r == accepts(ev),
    ensures
        post == pre.filter(|ev: Event| !accepts(ev)),
{
    broadcast use vstd::multiset::group_multiset_axioms;
    broadcast use vstd::multiset::group_multiset_properties;

    let dropped = choose|dropped: Multiset<Event>| #[trigger]
        dropped_events(pre, post, predicate, dropped);
    let left = pre.filter(|ev: Event| !accepts(ev));
    assert forall|ev: Event| post.count(ev) == left.count(ev) by {
        if dropped.count(ev) > 0 {
            assert(dropped.contains(ev));
        }
        if post.count(ev) > 0 {
            assert(post.contains(ev));
        }
        assert(dropped.count(ev) <= pre.count(ev));
    }
    assert(post =~= left);
}

proof fn lemma_first_of_heap(h: Seq<Event>)
    requires
        ordered_from(h, 0),
        h.len() > 0,
    ensures
        is_first(h.to_multiset(), h[0]),
{
    broadcast use vstd::seq_lib::group_to_multiset_ensures;

    assert(h.contains(h[0]));
    assert forall|other: Event| #[trigger] h.to_multiset().contains(other) implies !before(
        other,
        h[0],
    ) by {
        let i = h.index_of(other);
        assert(h.contains(other));
        lemma_root_is_first(h, i);
    }
}

impl Default for EventQueue {
    fn default() -> (q: Self)
        ensures
            q@ == Multiset::<Event>::empty(),
    {
        Self::new()
    }
}

/// Events come out of a queue in order: what is popped second is not due before
/// what was popped first, as long as nothing is pushed in between.
pub proof fn law_pops_in_order(events: Multiset<Event>, first: Event, second: Event)
    requires
        is_first(events, first),
        is_first(events.remove(first), second),
    ensures
        !before(second, first),
        first.time <= second.time,
{
    broadcast use vstd::multiset::group_multiset_axioms;

    assert(events.contains(second));
}

} // verus!
