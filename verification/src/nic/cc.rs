//! Congestion control over many paths.
//!
//! With a single path a flow reacts to congestion by shrinking its window. With many
//! paths it first avoids the congested path and shrinks its window only when no path
//! is left.
use crate::network::packet::Packet;
use crate::util::low_u8;
use vstd::prelude::*;

verus! {

use crate::network::packet::{packet_views, PacketView};

/// How a sender uses its paths.
#[derive(Debug, Clone, Copy, PartialEq, Eq, Structural)]
pub enum CongestionMode {
    /// Every flow stays on one path.
    Ecmp,
    /// Packets are sprayed over all paths.
    Strack,
}

/// One path.
#[derive(Debug, Clone, Copy)]
pub struct PathState {
    pub path_id: u8,
    /// The path is avoided before this time.
    pub blacklisted_until: u64,
    /// How often congestion was seen on the path.
    pub ecn_recent: u32,
}

impl PathState {
    /// A path that nothing is known of.
    pub fn new(id: u8) -> (p: Self)
        ensures
            p == (PathState { path_id: id, blacklisted_until: 0, ecn_recent: 0 }),
    {
        PathState { path_id: id, blacklisted_until: 0, ecn_recent: 0 }
    }

    /// The path may be used at `now`.
    pub open spec fn available(self, now: u64) -> bool {
        now >= self.blacklisted_until
    }

    /// Whether the path may be used at `now`.
    pub fn is_available(&self, now: u64) -> (r: bool)
        ensures
            r == self.available(now),
    {
        now >= self.blacklisted_until
    }
}

/// The paths that nothing is known of, numbered from zero.
pub open spec fn fresh_paths(n: u8) -> Seq<PathState> {
    Seq::new(
        n as nat,
        |i: int| PathState { path_id: i as u8, blacklisted_until: 0, ecn_recent: 0 },
    )
}

/// Makes `n` paths that nothing is known of.
pub fn make_paths(n: u8) -> (v: Vec<PathState>)
    ensures
        v@ == fresh_paths(n),
{
    let mut v: Vec<PathState> = Vec::new();
    let mut i: u8 = 0;
    while i < n
        invariant
            i <= n,
            v@ == fresh_paths(i),
        decreases n - i,
    {
        v.push(PathState::new(i));
        i = i + 1;
        assert(v@ =~= fresh_paths(i));
    }
    v
}

/// The number of paths that a round of the cursor covers: the low byte of their number.
pub open spec fn round_len(paths: Seq<PathState>) -> int {
    paths.len() as int % 256
}

/// The cursor after it has moved on by one.
pub open spec fn cursor_after(paths: Seq<PathState>, cursor: u8) -> u8 {
    ((cursor + 1) % round_len(paths)) as u8
}

/// The first path that may be used at `now` among the next `tries` paths from the cursor on,
/// and where the search leaves the cursor.
pub open spec fn next_available(
    paths: Seq<PathState>,
    cursor: u8,
    now: u64,
    tries: int,
) -> (Option<u8>, u8)
    decreases tries,
{
    if tries <= 0 {
        (None, cursor)
    } else if cursor < paths.len() && paths[cursor as int].available(now) {
        (Some(cursor), cursor_after(paths, cursor))
    } else {
        next_available(paths, cursor_after(paths, cursor), now, tries - 1)
    }
}

/// The path for the next packet and the cursor after it. Without spraying it is the first
/// path; with spraying the next one that may be used or, if there is none, the first.
pub open spec fn picked_path(
    paths: Seq<PathState>,
    cursor: u8,
    spray: bool,
    now: u64,
) -> (Option<u8>, u8) {
    if paths.len() == 0 {
        (None, cursor)
    } else if !spray {
        (Some(0), cursor)
    } else {
        let (found, next) = next_available(paths, cursor, now, round_len(paths));
        (
            Some(
                match found {
                    Some(i) => i,
                    None => 0,
                },
            ),
            next,
        )
    }
}

/// Picks the path for the next packet.
pub fn pick_path(paths: &Vec<PathState>, cursor: &mut u8, spray: bool, now: u64) -> (r: Option<u8>)
    ensures
        (r, *final(cursor)) == picked_path(paths@, *old(cursor), spray, now),
{
    if paths.len() == 0 {
        return None;
    }
    if !spray {
        return Some(0);
    }
    let n: u8 = low_u8(paths.len());
    let mut tries: u8 = n;
    while tries > 0
        invariant
            tries <= n,
            n as int == round_len(paths@),
            next_available(paths@, *old(cursor), now, n as int) == next_available(
                paths@,
                *cursor,
                now,
                tries as int,
            ),
            spray,
            paths@.len() > 0,
        decreases tries,
    {
        let idx: u8 = *cursor;
        *cursor = ((idx as u16 + 1) % n as u16) as u8;
        if (idx as usize) < paths.len() && paths[idx as usize].is_available(now) {
            return Some(idx);
        }
        tries = tries - 1;
    }
    Some(0)
}

/// The tags that route the next `n` packets, one above the path of each, and the cursor
/// after them.
pub open spec fn path_tags(
    paths: Seq<PathState>,
    cursor: u8,
    spray: bool,
    now: u64,
    n: nat,
) -> (Seq<u8>, u8)
    decreases n,
{
    if n == 0 {
        (Seq::empty(), cursor)
    } else {
        let (tags, at) = path_tags(paths, cursor, spray, now, (n - 1) as nat);
        let (path, next) = picked_path(paths, at, spray, now);
        (tags.push(path->0.saturating_add(1)), next)
    }
}

/// The packets with their routing tags set.
pub open spec fn tagged(packets: Seq<PacketView>, tags: Seq<u8>) -> Seq<PacketView> {
    Seq::new(packets.len(), |i: int| PacketView { routing_tag: tags[i], ..packets[i] })
}

proof fn lemma_path_tags_len(paths: Seq<PathState>, cursor: u8, spray: bool, now: u64, n: nat)
    ensures
        path_tags(paths, cursor, spray, now, n).0.len() == n,
    decreases n,
{
    if n > 0 {
        lemma_path_tags_len(paths, cursor, spray, now, (n - 1) as nat);
    }
}

proof fn lemma_path_tags_prefix(
    paths: Seq<PathState>,
    cursor: u8,
    spray: bool,
    now: u64,
    n: nat,
    m: nat,
)
    requires
        n <= m,
    ensures
        path_tags(paths, cursor, spray, now, n).0 == path_tags(
            paths,
            cursor,
            spray,
            now,
            m,
        ).0.take(n as int),
        path_tags(paths, cursor, spray, now, m).0.len() == m,
    decreases m,
{
    lemma_path_tags_len(paths, cursor, spray, now, n);
    lemma_path_tags_len(paths, cursor, spray, now, m);
    let all = path_tags(paths, cursor, spray, now, m).0;
    if n < m {
        lemma_path_tags_prefix(paths, cursor, spray, now, n, (m - 1) as nat);
        lemma_path_tags_len(paths, cursor, spray, now, (m - 1) as nat);
        assert(all.take(n as int) =~= path_tags(
            paths,
            cursor,
            spray,
            now,
            (m - 1) as nat,
        ).0.take(n as int));
    } else {
        assert(all.take(n as int) =~= all);
    }
}

/// Routes the packets, one after the other, over the paths.
pub fn route_packets(
    packets: Vec<Packet>,
    paths: &Vec<PathState>,
    cursor: &mut u8,
    spray: bool,
    now: u64,
) -> (out: Vec<Packet>)
    requires
        paths@.len() > 0 || packets@.len() == 0,
    ensures
        packet_views(out@) == tagged(
            packet_views(packets@),
            path_tags(paths@, *old(cursor), spray, now, packets@.len()).0,
        ),
        *final(cursor) == path_tags(paths@, *old(cursor), spray, now, packets@.len()).1,
{
    let mut out = packets;
    let ghost cursor0 = *cursor;
    let ghost total = packets@.len();
    let ghost tags = path_tags(paths@, cursor0, spray, now, total).0;
    let mut i: usize = 0;
    while i < out.len()
        invariant
            i <= out@.len(),
            out@.len() == total,
            total == packets@.len(),
            paths@.len() > 0 || total == 0,
            tags == path_tags(paths@, cursor0, spray, now, total).0,
            *cursor == path_tags(paths@, cursor0, spray, now, i as nat).1,
            forall|k: int|
                0 <= k < i ==> (#[trigger] out@[k])@ == (PacketView {
                    routing_tag: tags[k],
                    ..packets@[k]@
                }),
            forall|k: int| i <= k < total ==> #[trigger] out@[k] == packets@[k],
        decreases out@.len() - i,
    {
        let path = pick_path(paths, cursor, spray, now);
        proof {
            lemma_path_tags_prefix(paths@, cursor0, spray, now, (i + 1) as nat, total);
            lemma_path_tags_len(paths@, cursor0, spray, now, i as nat);
            assert(path_tags(paths@, cursor0, spray, now, (i + 1) as nat).0[i as int] == tags[i as int]);
        }
        if let Some(p) = path {
            out[i].routing_tag = p.saturating_add(1);
        }
        i = i + 1;
    }
    assert(packet_views(out@) =~= tagged(packet_views(packets@), tags));
    out
}

/// The path that an acknowledgement with the number `ack_id` is taken to have used.
pub open spec fn blamed_path(paths: Seq<PathState>, ack_id: u64) -> int {
    ack_id as int % 256 % round_len(paths)
}

/// The paths after congestion was reported by the acknowledgement `ack_id`: the path that it
/// is taken to have used is avoided for a while.
pub open spec fn blamed(
    paths: Seq<PathState>,
    ack_id: u64,
    now: u64,
    duration_ns: u64,
) -> Seq<PathState> {
    if round_len(paths) == 0 {
        paths
    } else {
        let i = blamed_path(paths, ack_id);
        paths.update(
            i,
            PathState {
                blacklisted_until: now.saturating_add(duration_ns),
                ecn_recent: paths[i].ecn_recent.saturating_add(1),
                ..paths[i]
            },
        )
    }
}

/// Some path may be used at `now`.
pub open spec fn any_available(paths: Seq<PathState>, now: u64) -> bool {
    exists|i: int| 0 <= i < paths.len() && (#[trigger] paths[i]).available(now)
}

/// Avoids the path of the acknowledgement `ack_id` for a while.
pub fn blame_path(paths: &mut Vec<PathState>, ack_id: u64, now: u64, duration_ns: u64)
    ensures
        final(paths)@ == blamed(old(paths)@, ack_id, now, duration_ns),
{
    let n: u8 = low_u8(paths.len());
    if n > 0 {
        let i: usize = (ack_id % 256 % n as u64) as usize;
        let recent: u32 = paths[i].ecn_recent;
        paths[i].blacklisted_until = now.saturating_add(duration_ns);
        paths[i].ecn_recent = recent.saturating_add(1);
        assert(paths@ =~= blamed(old(paths)@, ack_id, now, duration_ns));
    }
}

/// Whether some path may be used at `now`.
pub fn check_available(paths: &Vec<PathState>, now: u64) -> (r: bool)
    ensures
        r == any_available(paths@, now),
{
    let mut i: usize = 0;
    while i < paths.len()
        invariant
            i <= paths@.len(),
            forall|k: int| 0 <= k < i ==> !(#[trigger] paths@[k]).available(now),
        decreases paths@.len() - i,
    {
        if paths[i].is_available(now) {
            return true;
        }
        i = i + 1;
    }
    false
}

/// A sprayed packet takes a path that may be used whenever there is one among those that
/// the cursor covers.
pub proof fn law_spray_avoids_congestion(paths: Seq<PathState>, cursor: u8, now: u64, i: int)
    requires
        0 < paths.len() < 256,
        cursor < paths.len(),
        0 <= i < paths.len(),
        paths[i].available(now),
    ensures
        ({
            let (path, next) = picked_path(paths, cursor, true, now);
            &&& path is Some
            &&& path->0 < paths.len()
            &&& paths[path->0 as int].available(now)
            &&& next < paths.len()
        }),
{
    let d = if i >= cursor {
        i - cursor
    } else {
        i + paths.len() - cursor
    };
    lemma_search_finds(paths, cursor, now, round_len(paths), i, d);
}

proof fn lemma_search_finds(
    paths: Seq<PathState>,
    cursor: u8,
    now: u64,
    tries: int,
    i: int,
    d: int,
)
    requires
        0 < paths.len() < 256,
        cursor < paths.len(),
        0 <= i < paths.len(),
        paths[i].available(now),
        0 <= d < tries,
        i == cursor + d || i == cursor + d - paths.len(),
    ensures
        ({
            let (path, next) = next_available(paths, cursor, now, tries);
            &&& path is Some
            &&& path->0 < paths.len()
            &&& paths[path->0 as int].available(now)
            &&& next < paths.len()
        }),
    decreases tries,
{
    let next = cursor_after(paths, cursor);
    assert(next == if cursor + 1 < paths.len() {
        cursor + 1
    } else {
        0
    }) by {
        if cursor + 1 == paths.len() {
            assert((cursor + 1) % round_len(paths) == 0) by (nonlinear_arith)
                requires
                    cursor + 1 == round_len(paths),
                    round_len(paths) > 0,
            ;
        } else {
            vstd::arithmetic::div_mod::lemma_small_mod(
                (cursor + 1) as nat,
                round_len(paths) as nat,
            );
        }
    }
    if !paths[cursor as int].available(now) {
        assert(d > 0);
        lemma_search_finds(paths, next, now, tries - 1, i, d - 1);
    }
}

} // verus!
