//! What holds of a sender that sprays its packets over many paths.
use super::protocol::Protocol;
use super::strack::STrackProtocol;
use crate::network::packet::PacketKind;
use vstd::prelude::*;

verus! {

use super::cc::{path_tags, picked_path, PathState};
use crate::network::packet::PacketView;

/// A congestion-marked acknowledgement at `now` closes the path that its number names for the whole
/// of the span that the sender is set to, and for no longer. It is counted at this path, and no
/// other path changes.
pub proof fn law_marked_ack_closes_path(
    pre: STrackProtocol,
    post: STrackProtocol,
    pkt: PacketView,
    now: u64,
    t: u64,
)
    requires
        pre.took_control(&post, pkt, now),
        pkt.kind == PacketKind::Control(0),
        pkt.ecn,
        pre@.tx.spray,
        pre@.tx.flows.contains_key(pkt.flow_id),
        0 < pre@.tx.paths.len() < 256,
    ensures
        ({
            let i = pkt.id as int % 256 % pre@.tx.paths.len() as int;
            let was = pre@.tx.paths[i];
            let path = post@.tx.paths[i];
            let end = now + pre@.tx.blacklist_duration_ns;
            &&& 0 <= i < pre@.tx.paths.len()
            &&& now <= t < end && t < u64::MAX ==> t < path.blacklisted_until && !path.available(t)
            &&& end <= t ==> path.blacklisted_until <= t && path.available(t)
            &&& path.path_id == was.path_id
            &&& was.ecn_recent < u32::MAX ==> path.ecn_recent == was.ecn_recent + 1
            &&& post@.tx.paths.len() == pre@.tx.paths.len()
            &&& forall|j: int|
                0 <= j < pre@.tx.paths.len() && j != i ==> #[trigger] post@.tx.paths[j]
                    == pre@.tx.paths[j]
        }),
{
}

/// A path is closed by nothing but a marked acknowledgement on a spraying sender: an unmarked one,
/// a negative one, or any on a sender that does not spray leaves every path as it is.
pub proof fn law_paths_close_only_on_marks(
    pre: STrackProtocol,
    post: STrackProtocol,
    pkt: PacketView,
    now: u64,
)
    requires
        pre.took_control(&post, pkt, now),
        !pkt.ecn || !pre@.tx.spray || pkt.kind != PacketKind::Control(0),
    ensures
        post@.tx.paths == pre@.tx.paths,
{
}

/// A marked acknowledgement that leaves a spraying sender with a path that is open does not cost
/// the flow any of its window. One that closes the last open path, or that comes to a sender that
/// does not spray, halves the window, but not below its least.
pub proof fn law_window_halves_without_paths(
    pre: STrackProtocol,
    post: STrackProtocol,
    pkt: PacketView,
    now: u64,
)
    requires
        pre.took_control(&post, pkt, now),
        pkt.kind == PacketKind::Control(0),
        pkt.ecn,
        pre@.tx.flows.contains_key(pkt.flow_id),
    ensures
        ({
            let (w, v) = (
                pre@.tx.flows[pkt.flow_id].cwnd,
                post@.tx.flows[pkt.flow_id].cwnd,
            );
            let half = if w / 2 > pre@.tx.min_cwnd {
                w / 2
            } else {
                pre@.tx.min_cwnd
            };
            &&& !pre@.tx.spray ==> v == half
            &&& (forall|j: int|
                0 <= j < post@.tx.paths.len() ==> now < (
                #[trigger] post@.tx.paths[j]).blacklisted_until) ==> v == half
            &&& pre@.tx.spray && (exists|j: int|
                0 <= j < post@.tx.paths.len() && (
                #[trigger] post@.tx.paths[j]).blacklisted_until <= now) ==> v == w
        }),
{
    let paths = post@.tx.paths;
    if forall|j: int| 0 <= j < paths.len() ==> now < (#[trigger] paths[j]).blacklisted_until {
        assert(forall|j: int| 0 <= j < paths.len() ==> !(#[trigger] paths[j]).available(now));
    }
    if exists|j: int| 0 <= j < paths.len() && (#[trigger] paths[j]).blacklisted_until <= now {
        let j = choose|j: int| 0 <= j < paths.len() && (#[trigger] paths[j]).blacklisted_until <= now;
        assert(paths[j].available(now));
    }
}

/// `times[k]` is when the acknowledgement `acks[k]` takes the sender from `states[k]` to the next
/// state; all of them are marked, and belong to flows that the sender knows.
pub open spec fn takes_marked_acks(
    states: Seq<STrackProtocol>,
    acks: Seq<PacketView>,
    times: Seq<u64>,
) -> bool {
    &&& states.len() == acks.len() + 1
    &&& times.len() == acks.len()
    &&& forall|k: int|
        0 <= k < acks.len() ==> {
            &&& (#[trigger] states[k]).took_control(&states[k + 1], acks[k], times[k])
            &&& acks[k].kind == PacketKind::Control(0)
            &&& acks[k].ecn
            &&& states[k]@.tx.flows.contains_key(acks[k].flow_id)
        }
    &&& forall|k: int, l: int| 0 <= k <= l < times.len() ==> times[k] <= times[l]
}

/// One of the acknowledgements names path `i` of `paths`, less than `span` before the last of them.
pub open spec fn named_lately(
    acks: Seq<PacketView>,
    times: Seq<u64>,
    paths: int,
    span: u64,
    i: int,
) -> bool {
    exists|k: int|
        0 <= k < acks.len() && (#[trigger] acks[k]).id as int % 256 % paths == i && times.last()
            < times[k] + span
}

proof fn lemma_settings_last(
    states: Seq<STrackProtocol>,
    acks: Seq<PacketView>,
    times: Seq<u64>,
    k: int,
)
    requires
        takes_marked_acks(states, acks, times),
        0 <= k <= acks.len(),
    ensures
        states[k]@.tx.spray == states[0]@.tx.spray,
        states[k]@.tx.paths.len() == states[0]@.tx.paths.len(),
        states[k]@.tx.blacklist_duration_ns == states[0]@.tx.blacklist_duration_ns,
        states[k]@.tx.min_cwnd == states[0]@.tx.min_cwnd,
    decreases k,
{
    if k > 0 {
        lemma_settings_last(states, acks, times, k - 1);
        assert(states[k - 1].took_control(&states[k - 1 + 1], acks[k - 1], times[k - 1]));
    }
}

/// What an acknowledgement has closed is not opened again by those that come after it.
proof fn lemma_stays_closed(
    states: Seq<STrackProtocol>,
    acks: Seq<PacketView>,
    times: Seq<u64>,
    k: int,
    l: int,
    t: u64,
)
    requires
        takes_marked_acks(states, acks, times),
        states[0]@.tx.spray,
        0 < states[0]@.tx.paths.len() < 256,
        0 <= k < l <= acks.len(),
        times[l - 1] <= t < times[k] + states[0]@.tx.blacklist_duration_ns,
        t < u64::MAX,
    ensures
        t < states[l]@.tx.paths[acks[k].id as int % 256
            % states[0]@.tx.paths.len() as int].blacklisted_until,
    decreases l,
{
    lemma_settings_last(states, acks, times, k);
    lemma_settings_last(states, acks, times, l - 1);
    let n = states[0]@.tx.paths.len() as int;
    let i = acks[k].id as int % 256 % n;
    assert(states[l - 1].took_control(&states[l - 1 + 1], acks[l - 1], times[l - 1]));
    law_marked_ack_closes_path(states[l - 1], states[l], acks[l - 1], times[l - 1], t);
    assert(0 <= i < n);
    if k < l - 1 {
        assert(times[l - 2] <= times[l - 1]);
        lemma_stays_closed(states, acks, times, k, l - 1, t);
        if acks[l - 1].id as int % 256 % n == i {
            assert(times[k] <= times[l - 1]);
        } else {
            assert(states[l]@.tx.paths[i] == states[l - 1]@.tx.paths[i]);
        }
    }
}

/// When every path of a spraying sender has been named by a marked acknowledgement within the span
/// for which it is avoided, no path is open, and the last of these acknowledgements halves the
/// window of its flow, but not below its least.
pub proof fn law_every_path_named(
    states: Seq<STrackProtocol>,
    acks: Seq<PacketView>,
    times: Seq<u64>,
)
    requires
        takes_marked_acks(states, acks, times),
        acks.len() > 0,
        states[0]@.tx.spray,
        0 < states[0]@.tx.paths.len() < 256,
        times.last() < u64::MAX,
        forall|i: int|
            0 <= i < states[0]@.tx.paths.len() ==> #[trigger] named_lately(
                acks,
                times,
                states[0]@.tx.paths.len() as int,
                states[0]@.tx.blacklist_duration_ns,
                i,
            ),
    ensures
        forall|i: int|
            0 <= i < states[0]@.tx.paths.len() ==> times.last() < (
            #[trigger] states.last()@.tx.paths[i]).blacklisted_until,
        ({
            let id = acks.last().flow_id;
            let w = states[acks.len() - 1]@.tx.flows[id].cwnd;
            states.last()@.tx.flows[id].cwnd == if w / 2 > states[0]@.tx.min_cwnd {
                w / 2
            } else {
                states[0]@.tx.min_cwnd
            }
        }),
{
    let n = acks.len() as int;
    lemma_settings_last(states, acks, times, n);
    lemma_settings_last(states, acks, times, n - 1);
    assert forall|i: int| 0 <= i < states[0]@.tx.paths.len() implies times.last() < (
    #[trigger] states.last()@.tx.paths[i]).blacklisted_until by {
        let (paths, span) = (
            states[0]@.tx.paths.len() as int,
            states[0]@.tx.blacklist_duration_ns,
        );
        assert(named_lately(acks, times, paths, span, i));
        let k = choose|k: int|
            0 <= k < acks.len() && (#[trigger] acks[k]).id as int % 256 % paths == i && times.last()
                < times[k] + span;
        lemma_stays_closed(states, acks, times, k, n, times.last());
    }
    assert(states[n - 1].took_control(&states[n - 1 + 1], acks[n - 1], times[n - 1]));
    law_window_halves_without_paths(states[n - 1], states[n], acks[n - 1], times[n - 1]);
}

proof fn lemma_open_path_is_taken(
    paths: Seq<PathState>,
    cursor: u8,
    now: u64,
    n: nat,
    i: int,
)
    requires
        0 < paths.len() < 256,
        cursor < paths.len(),
        0 <= i < paths.len(),
        paths[i].available(now),
    ensures
        ({
            let (tags, next) = path_tags(paths, cursor, true, now, n);
            &&& next < paths.len()
            &&& tags.len() == n
            &&& forall|k: int|
                0 <= k < n ==> 1 <= #[trigger] tags[k] <= paths.len() && paths[tags[k]
                    - 1].available(now)
        }),
    decreases n,
{
    if n > 0 {
        lemma_open_path_is_taken(paths, cursor, now, (n - 1) as nat, i);
        let (tags, at) = path_tags(paths, cursor, true, now, (n - 1) as nat);
        super::cc::law_spray_avoids_congestion(paths, at, now, i);
        let (path, next) = picked_path(paths, at, true, now);
        let all = path_tags(paths, cursor, true, now, n).0;
        assert forall|k: int| 0 <= k < n implies 1 <= #[trigger] all[k] <= paths.len()
            && paths[all[k] - 1].available(now) by {
            if k < n - 1 {
                assert(all[k] == tags[k]);
            }
        }
    }
}

/// While a path is open, a spraying sender puts no packet on a path that is closed: every packet
/// carries a tag one above a path that is open.
pub proof fn law_packets_take_open_paths(
    pre: STrackProtocol,
    post: STrackProtocol,
    now: u64,
    out: Seq<PacketView>,
    i: int,
    k: int,
)
    requires
        pre.ticked(&post, now, out),
        pre@.tx.spray,
        0 < pre@.tx.paths.len() < 256,
        pre@.tx.cursor < pre@.tx.paths.len(),
        0 <= i < pre@.tx.paths.len(),
        pre@.tx.paths[i].blacklisted_until <= now,
        0 <= k < out.len(),
    ensures
        1 <= out[k].routing_tag <= pre@.tx.paths.len(),
        pre@.tx.paths[out[k].routing_tag - 1].blacklisted_until <= now,
        post@.tx.paths == pre@.tx.paths,
        post@.tx.cursor < post@.tx.paths.len(),
{
    assert(pre@.tx.paths[i].available(now));
    lemma_open_path_is_taken(pre@.tx.paths, pre@.tx.cursor, now, out.len(), i);
    let tags = path_tags(pre@.tx.paths, pre@.tx.cursor, true, now, out.len()).0;
    assert(1 <= tags[k] <= pre@.tx.paths.len());
    assert(pre@.tx.paths[tags[k] - 1].available(now));
}

/// After a marked acknowledgement at `now`, no packet that is sent at a time `t` within the span for
/// which its path is avoided carries the tag of this path, as long as another path is open.
pub proof fn law_named_path_is_avoided(
    pre: STrackProtocol,
    mid: STrackProtocol,
    later: STrackProtocol,
    post: STrackProtocol,
    ack: PacketView,
    now: u64,
    t: u64,
    out: Seq<PacketView>,
    open: int,
    k: int,
)
    requires
        pre.took_control(&mid, ack, now),
        ack.kind == PacketKind::Control(0),
        ack.ecn,
        pre@.tx.spray,
        pre@.tx.flows.contains_key(ack.flow_id),
        0 < pre@.tx.paths.len() < 256,
        later@.tx.spray,
        later@.tx.paths == mid@.tx.paths,
        later@.tx.cursor < later@.tx.paths.len(),
        later.ticked(&post, t, out),
        now <= t < now + pre@.tx.blacklist_duration_ns,
        t < u64::MAX,
        0 <= open < later@.tx.paths.len(),
        later@.tx.paths[open].blacklisted_until <= t,
        0 <= k < out.len(),
    ensures
        out[k].routing_tag != ack.id as int % 256 % pre@.tx.paths.len() as int + 1,
{
    law_marked_ack_closes_path(pre, mid, ack, now, t);
    law_packets_take_open_paths(later, post, t, out, open, k);
}

} // verus!
