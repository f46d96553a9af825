//! Small helpers on vectors and maps that several modules share.
use std::collections::HashMap;
use vstd::prelude::*;
use vstd::std_specs::iter::IteratorSpec;

verus! {

/// The sequence `s` with the elements at `i` and `j` exchanged.
pub open spec fn swapped<T>(s: Seq<T>, i: int, j: int) -> Seq<T> {
    s.update(i, s[j]).update(j, s[i])
}

/// Exchanging two elements keeps the multiset of elements.
pub proof fn lemma_swapped_multiset<T>(s: Seq<T>, i: int, j: int)
    requires
        0 <= i < s.len(),
        0 <= j < s.len(),
    ensures
        swapped(s, i, j).to_multiset() == s.to_multiset(),
{
    broadcast use vstd::seq_lib::group_to_multiset_ensures;
    broadcast use vstd::multiset::group_multiset_properties;

    let once = s.update(i, s[j]);
    vstd::seq_lib::to_multiset_update(s, i, s[j]);
    vstd::seq_lib::to_multiset_update(once, j, s[i]);
    assert(swapped(s, i, j).to_multiset() =~= s.to_multiset());
}

/// Exchanges the elements at `i` and `j`.
pub fn swap_elements<T>(v: &mut Vec<T>, i: usize, j: usize)
    requires
        i < old(v)@.len(),
        j < old(v)@.len(),
    ensures
        final(v)@ == swapped(old(v)@, i as int, j as int),
{
    if i < j {
        let (left, right) = v.as_mut_slice().split_at_mut(j);
        std::mem::swap(&mut left[i], &mut right[0]);
    } else if j < i {
        let (left, right) = v.as_mut_slice().split_at_mut(i);
        std::mem::swap(&mut left[j], &mut right[0]);
    }
    assert(v@ =~= swapped(old(v)@, i as int, j as int));
}

/// The elements in reverse order.
pub fn reversed<T>(v: Vec<T>) -> (r: Vec<T>)
    ensures
        r@.len() == v@.len(),
        forall|i: int| 0 <= i < v@.len() ==> #[trigger] r@[i] == v@[v@.len() - 1 - i],
{
    let mut v = v;
    let ghost all = v@;
    let mut r: Vec<T> = Vec::new();
    while v.len() > 0
        invariant
            v@ =~= all.take(v@.len() as int),
            v@.len() + r@.len() == all.len(),
            forall|i: int| 0 <= i < r@.len() ==> #[trigger] r@[i] == all[all.len() - 1 - i],
        decreases v@.len(),
    {
        if let Some(x) = v.pop() {
            r.push(x);
        }
    }
    r
}

/// The low 32 bits of a length.
pub fn low_u32(n: usize) -> (r: u32)
    ensures
        r as int == n as int % 0x1_0000_0000,
{
    let wide: u64 = n as u64;
    #[verifier::truncate]
    let r: u32 = wide as u32;
    assert(wide as u32 == wide % 0x1_0000_0000) by (bit_vector);
    r
}

/// The low 8 bits of a length.
pub fn low_u8(n: usize) -> (r: u8)
    ensures
        r as int == n as int % 256,
{
    let wide: u64 = n as u64;
    #[verifier::truncate]
    let r: u8 = wide as u8;
    assert(wide as u8 == wide % 256) by (bit_vector);
    r
}

/// `order` lists the elements of `ids` in strictly ascending order.
pub open spec fn lists_ascending(order: Seq<u32>, ids: Set<u32>) -> bool {
    &&& forall|i: int, j: int| 0 <= i < j < order.len() ==> order[i] < order[j]
    &&& order.to_set() == ids
}

/// A set has at most one ascending listing.
pub proof fn lemma_listing_is_unique(a: Seq<u32>, b: Seq<u32>, ids: Set<u32>)
    requires
        lists_ascending(a, ids),
        lists_ascending(b, ids),
    ensures
        a == b,
{
    let leq = |x: u32, y: u32| x <= y;
    lemma_listing_multiset(a, b, ids);
    assert(vstd::relations::total_ordering(leq));
    vstd::seq_lib::lemma_sorted_unique(a, b, leq);
}

proof fn lemma_listing_multiset(a: Seq<u32>, b: Seq<u32>, ids: Set<u32>)
    requires
        lists_ascending(a, ids),
        lists_ascending(b, ids),
    ensures
        a.to_multiset() == b.to_multiset(),
{
    broadcast use vstd::seq_lib::group_to_multiset_ensures;
    broadcast use vstd::multiset::group_multiset_axioms;

    a.lemma_multiset_has_no_duplicates();
    b.lemma_multiset_has_no_duplicates();
    assert forall|v: u32| a.to_multiset().count(v) == b.to_multiset().count(v) by {
        assert(a.to_set().contains(v) == b.to_set().contains(v));
        assert(a.contains(v) == b.contains(v));
        assert(a.to_multiset().contains(v) == a.contains(v));
        assert(b.to_multiset().contains(v) == b.contains(v));
    }
    assert(a.to_multiset() =~= b.to_multiset());
}

/// Adds `id` to an ascending list that does not hold it.
fn insert_ascending(order: &mut Vec<u32>, id: u32)
    requires
        forall|i: int, j: int| 0 <= i < j < old(order)@.len() ==> old(order)@[i] < old(order)@[j],
        !old(order)@.contains(id),
    ensures
        forall|i: int, j: int|
            0 <= i < j < final(order)@.len() ==> final(order)@[i] < final(order)@[j],
        final(order)@.to_set() == old(order)@.to_set().insert(id),
{
    let mut lo: usize = 0;
    let mut hi: usize = order.len();
    while lo < hi
        invariant
            lo <= hi <= order@.len(),
            order@ == old(order)@,
            forall|i: int, j: int| 0 <= i < j < order@.len() ==> order@[i] < order@[j],
            forall|i: int| 0 <= i < lo ==> order@[i] < id,
            forall|i: int| hi <= i < order@.len() ==> id < order@[i],
            !order@.contains(id),
        decreases hi - lo,
    {
        let mid: usize = lo + (hi - lo) / 2;
        assert(order@[mid as int] != id);
        if order[mid] < id {
            lo = mid + 1;
        } else {
            hi = mid;
        }
    }
    let ghost o = order@;
    order.insert(lo, id);
    assert(order@ == o.insert(lo as int, id));
    assert(order@.to_set() =~= o.to_set().insert(id)) by {
        assert forall|x: u32| order@.contains(x) == (o.contains(x) || x == id) by {
            if order@.contains(x) && x != id {
                let k = order@.index_of(x);
                assert(o[if k < lo { k } else { k - 1 }] == x);
            }
            if o.contains(x) {
                let k = o.index_of(x);
                assert(order@[if k < lo { k } else { k + 1 }] == x);
            }
            assert(order@[lo as int] == id);
        }
    }
}

/// The keys of a map in ascending order.
pub fn ascending_keys<V>(m: &HashMap<u32, V>) -> (order: Vec<u32>)
    ensures
        lists_ascending(order@, m@.dom()),
{
    broadcast use vstd::std_specs::hash::group_hash_axioms;

    let mut order: Vec<u32> = Vec::new();
    let keys = m.keys();
    let ghost all = keys.remaining().unref();
    assert(all.to_set() == m@.dom());
    assert(all.no_duplicates());
    for key in it: keys
        invariant
            it.seq().unref() == all,
            all.no_duplicates(),
            forall|i: int, j: int| 0 <= i < j < order@.len() ==> order@[i] < order@[j],
            order@.to_set() == all.take(it.index() as int).to_set(),
    {
        proof {
            let n = it.index() as int;
            assert(*key == all[n]);
            assert(all.take(n + 1) =~= all.take(n).push(*key));
            assert(!all.take(n).contains(*key));
            assert(order@.contains(*key) == order@.to_set().contains(*key));
            assert(all.take(n).contains(*key) == all.take(n).to_set().contains(*key));
            all.take(n).lemma_push_to_set_commute(*key);
        }
        insert_ascending(&mut order, *key);
    }
    assert(all.take(all.len() as int) =~= all);
    order
}

/// The ascending listing of a finite set.
pub open spec fn ascending(ids: Set<u32>) -> Seq<u32> {
    choose|order: Seq<u32>| lists_ascending(order, ids)
}

/// What lists a set in ascending order is its ascending listing.
pub proof fn lemma_ascending(order: Seq<u32>, ids: Set<u32>)
    requires
        lists_ascending(order, ids),
    ensures
        ascending(ids) == order,
{
    lemma_listing_is_unique(order, ascending(ids), ids);
}

/// The numbers of a set that are below `end` can be listed in ascending order.
proof fn lemma_listing_below(ids: Set<u32>, end: nat) -> (order: Seq<u32>)
    ensures
        forall|i: int, j: int| 0 <= i < j < order.len() ==> order[i] < order[j],
        forall|x: u32| order.contains(x) <==> ids.contains(x) && x < end,
    decreases end,
{
    if end == 0 {
        Seq::empty()
    } else {
        let before = lemma_listing_below(ids, (end - 1) as nat);
        if end - 1 <= u32::MAX && ids.contains((end - 1) as u32) {
            let order = before.push((end - 1) as u32);
            assert forall|i: int, j: int| 0 <= i < j < order.len() implies order[i] < order[j] by {
                assert(before.contains(before[i]));
            }
            assert forall|x: u32| order.contains(x) <==> ids.contains(x) && x < end by {
                if order.contains(x) {
                    let k = choose|k: int| 0 <= k < order.len() && order[k] == x;
                    if k < before.len() {
                        assert(before[k] == x);
                        assert(before.contains(x));
                    }
                }
                if before.contains(x) {
                    let k = choose|k: int| 0 <= k < before.len() && before[k] == x;
                    assert(order[k] == x);
                }
                if ids.contains(x) && x == end - 1 {
                    assert(order[order.len() - 1] == x);
                }
            }
            order
        } else {
            before
        }
    }
}

/// The ascending listing of a set names each of its numbers, and nothing else, from the least to the
/// largest.
pub proof fn law_listing_ascends(ids: Set<u32>)
    ensures
        forall|x: u32| #[trigger] ascending(ids).contains(x) <==> ids.contains(x),
        forall|i: int, j: int|
            0 <= i < j < ascending(ids).len() ==> ascending(ids)[i] < ascending(ids)[j],
        lists_ascending(ascending(ids), ids),
{
    let order = lemma_listing_below(ids, 0x1_0000_0000);
    assert(order.to_set() =~= ids);
    assert(lists_ascending(order, ids));
    lemma_ascending(order, ids);
    assert forall|x: u32| #[trigger] ascending(ids).contains(x) <==> ids.contains(x) by {
        assert(order.to_set().contains(x) <==> order.contains(x));
    }
}

/// The larger of two numbers.
pub open spec fn larger(a: u32, b: u32) -> u32 {
    if a >= b {
        a
    } else {
        b
    }
}

/// The smaller of two numbers.
pub open spec fn smaller(a: u32, b: u32) -> u32 {
    if a <= b {
        a
    } else {
        b
    }
}

pub fn max_u32(a: u32, b: u32) -> (r: u32)
    ensures
        r == larger(a, b),
{
    if a >= b {
        a
    } else {
        b
    }
}

pub fn min_u32(a: u32, b: u32) -> (r: u32)
    ensures
        r == smaller(a, b),
{
    if a <= b {
        a
    } else {
        b
    }
}

/// Whether `v` holds `x`.
pub fn holds_u32(v: &Vec<u32>, x: u32) -> (r: bool)
    ensures
        r == v@.contains(x),
{
    let mut i: usize = 0;
    while i < v.len()
        invariant
            i <= v@.len(),
            forall|k: int| 0 <= k < i ==> v@[k] != x,
        decreases v@.len() - i,
    {
        if v[i] == x {
            assert(v@[i as int] == x);
            return true;
        }
        i = i + 1;
    }
    false
}

/// The four bytes of a number, lowest first.
pub open spec fn le_bytes_u32(x: u32) -> Seq<u8> {
    seq![
        (x % 0x100) as u8,
        (x / 0x100 % 0x100) as u8,
        (x / 0x1_0000 % 0x100) as u8,
        (x / 0x100_0000) as u8,
    ]
}

/// The eight bytes of a number, lowest first.
pub open spec fn le_bytes_u64(x: u64) -> Seq<u8> {
    le_bytes_u32((x % 0x1_0000_0000) as u32) + le_bytes_u32((x / 0x1_0000_0000) as u32)
}

/// The number whose bytes stand at `at`, lowest first.
pub open spec fn le_u32(bytes: Seq<u8>, at: int) -> u32 {
    (bytes[at] + bytes[at + 1] * 0x100 + bytes[at + 2] * 0x1_0000 + bytes[at + 3]
        * 0x100_0000) as u32
}

/// The number whose eight bytes stand at `at`, lowest first.
pub open spec fn le_u64(bytes: Seq<u8>, at: int) -> u64 {
    (le_u32(bytes, at) + le_u32(bytes, at + 4) * 0x1_0000_0000) as u64
}

/// Reading gives back what was written.
pub proof fn law_bytes_of_u32(prefix: Seq<u8>, x: u32, suffix: Seq<u8>)
    ensures
        le_u32(prefix + le_bytes_u32(x) + suffix, prefix.len() as int) == x,
{
    let b = prefix + le_bytes_u32(x) + suffix;
    let n = prefix.len() as int;
    let w = le_bytes_u32(x);
    assert(b[n] == w[0] && b[n + 1] == w[1] && b[n + 2] == w[2] && b[n + 3] == w[3]);
}

/// Reading gives back what was written.
pub proof fn law_bytes_of_u64(prefix: Seq<u8>, x: u64, suffix: Seq<u8>)
    ensures
        le_u64(prefix + le_bytes_u64(x) + suffix, prefix.len() as int) == x,
{
    let lo = (x % 0x1_0000_0000) as u32;
    let hi = (x / 0x1_0000_0000) as u32;
    let b = prefix + le_bytes_u64(x) + suffix;
    law_bytes_of_u32(prefix, lo, le_bytes_u32(hi) + suffix);
    law_bytes_of_u32(prefix + le_bytes_u32(lo), hi, suffix);
    assert(b =~= prefix + le_bytes_u32(lo) + (le_bytes_u32(hi) + suffix));
    assert(b =~= prefix + le_bytes_u32(lo) + le_bytes_u32(hi) + suffix);
}

/// The number in eight bytes is the sum of the bytes, each weighted by the power of 256 of its position.
pub proof fn law_u64_in_bytes(bytes: Seq<u8>, at: int)
    ensures
        le_u32(bytes, at) == bytes[at] + 0x100 * bytes[at + 1] + 0x1_0000 * bytes[at + 2] + 0x100_0000
            * bytes[at + 3],
        le_u64(bytes, at) == bytes[at] + 0x100 * bytes[at + 1] + 0x1_0000 * bytes[at + 2] + 0x100_0000
            * bytes[at + 3] + 0x1_0000_0000 * bytes[at + 4] + 0x100_0000_0000 * bytes[at + 5]
            + 0x1_0000_0000_0000 * bytes[at + 6] + 0x100_0000_0000_0000 * bytes[at + 7],
{
}

/// The bytes of a number make it up when each is weighted by the power of 256 of its position.
pub proof fn law_bytes_of_value(x: u64)
    ensures
        ({
            let b = le_bytes_u64(x);
            &&& b.len() == 8
            &&& x == b[0] + 0x100 * b[1] + 0x1_0000 * b[2] + 0x100_0000 * b[3] + 0x1_0000_0000 * b[4]
                + 0x100_0000_0000 * b[5] + 0x1_0000_0000_0000 * b[6] + 0x100_0000_0000_0000 * b[7]
        }),
{
    law_bytes_of_u64(Seq::empty(), x, Seq::empty());
    let b = le_bytes_u64(x);
    assert(Seq::<u8>::empty() + b + Seq::<u8>::empty() =~= b);
    law_u64_in_bytes(b, 0);
}

/// Appends the four bytes of a number, lowest first.
pub fn push_le_u32(out: &mut Vec<u8>, x: u32)
    ensures
        final(out)@ == old(out)@ + le_bytes_u32(x),
{
    out.push((x % 0x100) as u8);
    out.push((x / 0x100 % 0x100) as u8);
    out.push((x / 0x1_0000 % 0x100) as u8);
    out.push((x / 0x100_0000) as u8);
    assert(out@ =~= old(out)@ + le_bytes_u32(x));
}

/// Appends the eight bytes of a number, lowest first.
pub fn push_le_u64(out: &mut Vec<u8>, x: u64)
    ensures
        final(out)@ == old(out)@ + le_bytes_u64(x),
{
    push_le_u32(out, (x % 0x1_0000_0000) as u32);
    push_le_u32(out, (x / 0x1_0000_0000) as u32);
    assert(out@ =~= old(out)@ + le_bytes_u64(x));
}

/// Reads the number whose four bytes stand at `at`.
pub fn read_le_u32(bytes: &Vec<u8>, at: usize) -> (x: u32)
    requires
        at + 4 <= bytes@.len(),
    ensures
        x == le_u32(bytes@, at as int),
{
    let len: usize = bytes.len();
    assert(at + 4 <= len);
    bytes[at] as u32 + bytes[at + 1] as u32 * 0x100 + bytes[at + 2] as u32 * 0x1_0000
        + bytes[at + 3] as u32 * 0x100_0000
}

/// Reads the number whose eight bytes stand at `at`.
pub fn read_le_u64(bytes: &Vec<u8>, at: usize) -> (x: u64)
    requires
        at + 8 <= bytes@.len(),
    ensures
        x == le_u64(bytes@, at as int),
{
    let len: usize = bytes.len();
    assert(at + 8 <= len);
    read_le_u32(bytes, at) as u64 + read_le_u32(bytes, at + 4) as u64 * 0x1_0000_0000
}

/// Position `i` comes before position `j` when sorted by `keys`: by the smaller key or, for
/// equal keys, by the smaller position.
pub open spec fn comes_before(keys: Seq<u64>, i: int, j: int) -> bool {
    keys[i] < keys[j] || (keys[i] == keys[j] && i < j)
}

/// `order` lists the positions of `keys` sorted by their keys, equal keys in their given order.
pub open spec fn is_stable_order(keys: Seq<u64>, order: Seq<usize>) -> bool {
    &&& order.len() == keys.len()
    &&& forall|a: int| 0 <= a < order.len() ==> (#[trigger] order[a]) < keys.len()
    &&& forall|a: int, b: int|
        0 <= a < b < order.len() ==> comes_before(
            keys,
            #[trigger] order[a] as int,
            #[trigger] order[b] as int,
        )
    &&& forall|i: int| 0 <= i < keys.len() ==> #[trigger] lists(order, i)
}

/// Position `i` occurs in `order`.
pub open spec fn lists(order: Seq<usize>, i: int) -> bool {
    exists|a: int| 0 <= a < order.len() && #[trigger] order[a] == i
}

/// `order` lists the positions from `lo` up to `hi`, sorted by `keys`.
spec fn sorts_range(keys: Seq<u64>, order: Seq<usize>, lo: int, hi: int) -> bool {
    &&& order.len() == hi - lo
    &&& forall|a: int| 0 <= a < order.len() ==> lo <= (#[trigger] order[a]) < hi
    &&& forall|a: int, b: int|
        0 <= a < b < order.len() ==> comes_before(
            keys,
            #[trigger] order[a] as int,
            #[trigger] order[b] as int,
        )
    &&& forall|i: usize| lo <= i < hi ==> #[trigger] order.contains(i)
}

fn merge_orders(
    keys: &Vec<u64>,
    left: &Vec<usize>,
    right: &Vec<usize>,
    Ghost(lo): Ghost<int>,
    Ghost(mid): Ghost<int>,
    Ghost(hi): Ghost<int>,
) -> (out: Vec<usize>)
    requires
        0 <= lo <= mid <= hi <= keys@.len(),
        sorts_range(keys@, left@, lo, mid),
        sorts_range(keys@, right@, mid, hi),
    ensures
        sorts_range(keys@, out@, lo, hi),
{
    let mut out: Vec<usize> = Vec::new();
    let mut i: usize = 0;
    let mut j: usize = 0;
    while i < left.len() || j < right.len()
        invariant
            i <= left@.len(),
            j <= right@.len(),
            out@.len() == i + j,
            0 <= lo <= mid <= hi <= keys@.len(),
            sorts_range(keys@, left@, lo, mid),
            sorts_range(keys@, right@, mid, hi),
            forall|a: int| 0 <= a < out@.len() ==> lo <= (#[trigger] out@[a]) < hi,
            forall|a: int, b: int|
                0 <= a < b < out@.len() ==> comes_before(
                    keys@,
                    #[trigger] out@[a] as int,
                    #[trigger] out@[b] as int,
                ),
            forall|a: int, b: int|
                0 <= a < out@.len() && i <= b < left@.len() ==> comes_before(
                    keys@,
                    #[trigger] out@[a] as int,
                    #[trigger] left@[b] as int,
                ),
            forall|a: int, b: int|
                0 <= a < out@.len() && j <= b < right@.len() ==> comes_before(
                    keys@,
                    #[trigger] out@[a] as int,
                    #[trigger] right@[b] as int,
                ),
            forall|b: int| 0 <= b < i ==> out@.contains(#[trigger] left@[b]),
            forall|b: int| 0 <= b < j ==> out@.contains(#[trigger] right@[b]),
        decreases left@.len() + right@.len() - i - j,
    {
        let ghost out0 = out@;
        let take_left: bool = if i >= left.len() {
            false
        } else if j >= right.len() {
            true
        } else {
            keys[left[i]] <= keys[right[j]]
        };
        let next: usize = if take_left {
            left[i]
        } else {
            right[j]
        };
        out.push(next);
        if take_left {
            i = i + 1;
        } else {
            j = j + 1;
        }
        proof {
            assert(out@[out0.len() as int] == next);
            assert forall|b: int| 0 <= b < i implies out@.contains(#[trigger] left@[b]) by {
                if out0.contains(left@[b]) {
                    let k = out0.index_of(left@[b]);
                    assert(out@[k] == left@[b]);
                }
            }
            assert forall|b: int| 0 <= b < j implies out@.contains(#[trigger] right@[b]) by {
                if out0.contains(right@[b]) {
                    let k = out0.index_of(right@[b]);
                    assert(out@[k] == right@[b]);
                }
            }
        }
    }
    proof {
        assert forall|x: usize| lo <= x < hi implies #[trigger] out@.contains(x) by {
            if x < mid {
                assert(left@.contains(x));
                let b = left@.index_of(x);
                assert(left@[b] == x);
            } else {
                assert(right@.contains(x));
                let b = right@.index_of(x);
                assert(right@[b] == x);
            }
        }
    }
    out
}

fn sort_range(keys: &Vec<u64>, lo: usize, hi: usize) -> (out: Vec<usize>)
    requires
        lo <= hi <= keys@.len(),
    ensures
        sorts_range(keys@, out@, lo as int, hi as int),
    decreases hi - lo,
{
    let mut out: Vec<usize> = Vec::new();
    if hi - lo == 0 {
        return out;
    }
    if hi - lo == 1 {
        out.push(lo);
        assert(out@[0] == lo);
        return out;
    }
    let mid: usize = lo + (hi - lo) / 2;
    let left = sort_range(keys, lo, mid);
    let right = sort_range(keys, mid, hi);
    merge_orders(keys, &left, &right, Ghost(lo as int), Ghost(mid as int), Ghost(hi as int))
}

/// The positions of `keys` sorted by their keys, equal keys in their given order.
pub fn stable_order(keys: &Vec<u64>) -> (order: Vec<usize>)
    ensures
        is_stable_order(keys@, order@),
{
    let n: usize = keys.len();
    let order = sort_range(keys, 0, n);
    assert forall|i: int| 0 <= i < keys@.len() implies #[trigger] lists(order@, i) by {
        assert(order@.contains(i as usize));
    }
    order
}

/// The larger and the smaller of two numbers are these two numbers, in order.
pub proof fn law_larger_and_smaller(a: u32, b: u32)
    ensures
        larger(a, b) >= a && larger(a, b) >= b && (larger(a, b) == a || larger(a, b) == b),
        smaller(a, b) <= a && smaller(a, b) <= b && (smaller(a, b) == a || smaller(a, b) == b),
{
}

/// Swapping exchanges two elements and leaves the others alone.
pub proof fn law_swap_exchanges<T>(s: Seq<T>, i: int, j: int, k: int)
    requires
        0 <= i < s.len(),
        0 <= j < s.len(),
        0 <= k < s.len(),
    ensures
        swapped(s, i, j).len() == s.len(),
        swapped(s, i, j)[i] == s[j],
        swapped(s, i, j)[j] == s[i],
        k != i && k != j ==> swapped(s, i, j)[k] == s[k],
{
}

/// A stable order lists every position once, by rising key and, for equal keys, by rising position.
pub proof fn law_stable_order_sorts(keys: Seq<u64>, order: Seq<usize>)
    requires
        is_stable_order(keys, order),
    ensures
        order.len() == keys.len(),
        order.no_duplicates(),
        forall|i: usize| #[trigger] order.contains(i) <==> i < keys.len(),
        forall|a: int, b: int|
            0 <= a < b < order.len() ==> keys[(#[trigger] order[a]) as int] < keys[(
            #[trigger] order[b]) as int] || (keys[order[a] as int] == keys[order[b] as int]
                && order[a] < order[b]),
{
    assert forall|a: int, b: int| 0 <= a < b < order.len() implies keys[(
    #[trigger] order[a]) as int] < keys[(#[trigger] order[b]) as int] || (keys[order[a] as int]
        == keys[order[b] as int] && order[a] < order[b]) by {
        assert(comes_before(keys, order[a] as int, order[b] as int));
    }
    assert forall|i: usize| #[trigger] order.contains(i) <==> i < keys.len() by {
        if i < keys.len() {
            assert(lists(order, i as int));
        }
    }
}

} // verus!
