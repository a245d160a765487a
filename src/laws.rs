//! What holds of the update rules over all inputs.

use vstd::prelude::*;

use crate::server::{is_rs_member_type, unknown_view, AddressView, ServerType, ServerView};
use crate::topology::{
    add_unknowns, demote_others, entry_is, is_primary, lemma_add_unknowns, lemma_demote_others,
    lemma_put, lemma_retained, next, only_primary_at, primary_entry, put, retained, stale, stored,
    tracks, keeps, has_primary, TopologyType, TopologyView,
};

verus! {

/// One update keeps the topology well formed.
pub proof fn lemma_next_wf(t: TopologyView, d: ServerView)
    requires
        t.wf(),
        d.wf(),
    ensures
        next(t, d).topology.wf(),
{
    let a = d.address;
    lemma_put(t.servers, d);
    lemma_put(t.servers, stored(d));
    lemma_put(t.servers, unknown_view(a, d.last_update_time, None));
    lemma_retained(t.servers, Seq::empty(), a, true);
    if is_rs_member_type(d.server_type) && is_primary(d) {
        let m = d.members();
        lemma_demote_others(t.servers, a);
        let s0 = demote_others(t.servers, a);
        lemma_put(s0, primary_entry(d));
        let s1 = put(s0, primary_entry(d));
        lemma_add_unknowns(s1, m, d.last_update_time);
        let s2 = add_unknowns(s1, m, d.last_update_time);
        lemma_retained(s2, m, a, false);
    } else {
        let s1 = put(t.servers, d);
        lemma_add_unknowns(s1, d.members(), d.last_update_time);
    }
}

/// The topology after folding in each description of `ds`, in order.
pub open spec fn replay(t: TopologyView, ds: Seq<ServerView>) -> TopologyView
    decreases ds.len(),
{
    if ds.len() == 0 {
        t
    } else {
        next(replay(t, ds.drop_last()), ds.last()).topology
    }
}

/// However many heartbeat descriptions are folded in, at most one node is a primary.
pub proof fn lemma_replay_at_most_one_primary(t: TopologyView, ds: Seq<ServerView>)
    requires
        t.wf(),
        forall|i: int| 0 <= i < ds.len() ==> (#[trigger] ds[i]).wf(),
    ensures
        replay(t, ds).wf(),
        forall|i: int, j: int|
            0 <= i < replay(t, ds).servers.len() && 0 <= j < replay(t, ds).servers.len()
                && is_primary(#[trigger] replay(t, ds).servers[i]) && is_primary(
                #[trigger] replay(t, ds).servers[j],
            ) ==> i == j,
    decreases ds.len(),
{
    if ds.len() > 0 {
        assert forall|i: int| 0 <= i < ds.drop_last().len() implies (
        #[trigger] ds.drop_last()[i]).wf() by {
            assert(ds.drop_last()[i] == ds[i]);
        }
        lemma_replay_at_most_one_primary(t, ds.drop_last());
        assert(ds.last().wf());
        lemma_next_wf(replay(t, ds.drop_last()), ds.last());
    }
}

/// A primary of the recorded set whose (set version, election id) pair is below the
/// recorded one changes neither the topology type nor the recorded pair. (A primary of
/// another set is dropped instead, and its loss may change the type.)
pub proof fn lemma_stale_primary_changes_nothing(t: TopologyView, d: ServerView)
    requires
        t.wf(),
        d.wf(),
        d.server_type == ServerType::RSPrimary,
        stale(t, d),
        t.set_name.is_none() || d.set_name == t.set_name,
    ensures
        next(t, d).topology.topology_type == t.topology_type,
        next(t, d).topology.max_set_version == t.max_set_version,
        next(t, d).topology.max_election_id == t.max_election_id,
{
}

/// Once recorded, the set name never changes; a member that reports another name is
/// dropped instead, except from a single-node topology, which keeps its one node.
pub proof fn lemma_set_name_kept(t: TopologyView, d: ServerView)
    requires
        t.wf(),
        d.wf(),
        t.set_name.is_some(),
    ensures
        next(t, d).topology.set_name == t.set_name,
        is_rs_member_type(d.server_type) && d.set_name != t.set_name && tracks(t.servers, d.address)
            && t.topology_type != TopologyType::Single ==> !tracks(
            next(t, d).topology.servers,
            d.address,
        ),
{
    lemma_dropped_untracked(t.servers, d.address);
}

/// Folding in the same description twice in a row gives the same topology as once.
pub proof fn lemma_update_idempotent(t: TopologyView, d: ServerView)
    requires
        t.wf(),
        d.wf(),
    ensures
        next(next(t, d).topology, d).topology == next(t, d).topology,
{
    let a = d.address;
    lemma_dropped_untracked(t.servers, d.address);
    if !tracks(t.servers, a) {
    } else if is_rs_member_type(d.server_type) && (t.topology_type == TopologyType::Unknown
        || t.topology_type == TopologyType::ReplicaSetNoPrimary || t.topology_type
        == TopologyType::ReplicaSetWithPrimary) {
        if t.set_name.is_some() && d.set_name != t.set_name {
        } else if is_primary(d) && !stale(t, d) {
            lemma_primary_idempotent(t, d);
        } else if is_primary(d) {
            lemma_put(t.servers, unknown_view(a, d.last_update_time, None));
        } else {
            lemma_member_idempotent(t, d);
        }
    } else {
        lemma_put(t.servers, d);
        lemma_put(t.servers, stored(d));
    }
}

proof fn lemma_primary_idempotent(t: TopologyView, d: ServerView)
    requires
        t.wf(),
        d.wf(),
        tracks(t.servers, d.address),
        is_primary(d),
        !stale(t, d),
        !(t.set_name.is_some() && d.set_name != t.set_name),
    ensures
        ({
            let t1 = crate::topology::member_next(t, d).topology;
            crate::topology::member_next(t1, d).topology == t1
        }),
{
    let a = d.address;
    let m = d.members();
    let now = d.last_update_time;
    let pe = primary_entry(d);
    lemma_demote_others(t.servers, a);
    let s0 = demote_others(t.servers, a);
    lemma_put(s0, pe);
    let s1 = put(s0, pe);
    lemma_add_unknowns(s1, m, now);
    let s2 = add_unknowns(s1, m, now);
    lemma_retained(s2, m, a, false);
    let s3 = retained(s2, m, a, false);
    assert(tracks(s1, a));
    assert(tracks(s2, a));
    assert(tracks(s3, a));
    assert(only_primary_at(s3, a));
    lemma_demote_others(s3, a);
    assert(entry_is(s3, a, pe));
    lemma_put(s3, pe);
    assert forall|i: int| 0 <= i < m.len() implies tracks(s3, #[trigger] m[i]) by {
        assert(tracks(s2, m[i]));
        assert(m.contains(m[i]));
    }
    lemma_add_unknowns(s3, m, now);
    lemma_retained(s3, m, a, false);
}

proof fn lemma_member_idempotent(t: TopologyView, d: ServerView)
    requires
        t.wf(),
        d.wf(),
        tracks(t.servers, d.address),
        !is_primary(d),
        !(t.set_name.is_some() && d.set_name != t.set_name),
    ensures
        ({
            let t1 = crate::topology::member_next(t, d).topology;
            crate::topology::member_next(t1, d).topology == t1
        }),
{
    let a = d.address;
    let m = d.members();
    let now = d.last_update_time;
    lemma_put(t.servers, d);
    let s1 = put(t.servers, d);
    lemma_add_unknowns(s1, m, now);
    let s2 = add_unknowns(s1, m, now);
    assert(tracks(s1, a));
    assert(entry_is(s2, a, d));
    lemma_put(s2, d);
    lemma_add_unknowns(s2, m, now);
}

/// After the node at `a` is dropped, no entry describes it.
proof fn lemma_dropped_untracked(s: Seq<ServerView>, a: AddressView)
    ensures
        !tracks(retained(s, Seq::empty(), a, true), a),
{
    lemma_retained(s, Seq::empty(), a, true);
    let r = retained(s, Seq::empty(), a, true);
    if tracks(r, a) {
        let k = choose|k: int| 0 <= k < r.len() && r[k].address == a;
        assert(keeps(Seq::empty(), a, true, r[k].address));
    }
}

/// A description with its update time and round-trip time erased.
pub open spec fn untimed(x: ServerView) -> ServerView {
    ServerView { last_update_time: 0, round_trip_time: None, ..x }
}

pub open spec fn untimed_all(s: Seq<ServerView>) -> Seq<ServerView> {
    s.map_values(|x: ServerView| untimed(x))
}

/// A topology with the update and round-trip times of its entries erased.
pub open spec fn untimed_topology(t: TopologyView) -> TopologyView {
    t.with_servers(untimed_all(t.servers))
}

proof fn lemma_untimed_tracks(s: Seq<ServerView>)
    ensures
        forall|a: AddressView| #[trigger] tracks(untimed_all(s), a) == tracks(s, a),
        has_primary(untimed_all(s)) == has_primary(s),
{
    let u = untimed_all(s);
    assert forall|a: AddressView| #[trigger] tracks(u, a) == tracks(s, a) by {
        if tracks(s, a) {
            let i = choose|i: int| 0 <= i < s.len() && s[i].address == a;
            assert(u[i].address == a);
        }
        if tracks(u, a) {
            let i = choose|i: int| 0 <= i < u.len() && u[i].address == a;
            assert(s[i].address == a);
        }
    }
    if has_primary(s) {
        let i = choose|i: int| 0 <= i < s.len() && is_primary(s[i]);
        assert(is_primary(u[i]));
    }
    if has_primary(u) {
        let i = choose|i: int| 0 <= i < u.len() && is_primary(u[i]);
        assert(is_primary(s[i]));
    }
}

proof fn lemma_untimed_put(s: Seq<ServerView>, d: ServerView, a: AddressView)
    ensures
        untimed_all(put(s, d)) == put(untimed_all(s), untimed(d)),
        untimed_all(demote_others(s, a)) == demote_others(untimed_all(s), a),
{
    assert(untimed_all(put(s, d)) =~= put(untimed_all(s), untimed(d)));
    assert(untimed_all(demote_others(s, a)) =~= demote_others(untimed_all(s), a));
}

proof fn lemma_untimed_add(s: Seq<ServerView>, h: Seq<AddressView>, now: u64)
    ensures
        untimed_all(add_unknowns(s, h, now)) == add_unknowns(untimed_all(s), h, 0),
    decreases h.len(),
{
    if h.len() > 0 {
        lemma_untimed_add(s, h.drop_last(), now);
        let p = add_unknowns(s, h.drop_last(), now);
        lemma_untimed_tracks(p);
        if !tracks(p, h.last()) {
            assert(untimed_all(p.push(unknown_view(h.last(), now, None))) =~= untimed_all(p).push(
                unknown_view(h.last(), 0, None),
            ));
        }
    }
}

proof fn lemma_untimed_retained(s: Seq<ServerView>, m: Seq<AddressView>, me: AddressView, only_me: bool)
    ensures
        untimed_all(retained(s, m, me, only_me)) == retained(untimed_all(s), m, me, only_me),
    decreases s.len(),
{
    if s.len() > 0 {
        lemma_untimed_retained(s.drop_last(), m, me, only_me);
        assert(untimed_all(s).drop_last() =~= untimed_all(s.drop_last()));
        let p = retained(s.drop_last(), m, me, only_me);
        assert(untimed_all(p.push(s.last())) =~= untimed_all(p).push(untimed(s.last())));
    }
}

/// The update rules read no update or round-trip time: erasing them before or after
/// an update gives the same topology.
proof fn lemma_next_untimed(t: TopologyView, d: ServerView)
    ensures
        untimed_topology(next(t, d).topology) == untimed_topology(
            next(untimed_topology(t), untimed(d)).topology,
        ),
{
    let a = d.address;
    let ud = untimed(d);
    let now = d.last_update_time;
    let m = d.members();
    lemma_untimed_tracks(t.servers);
    lemma_untimed_put(t.servers, d, a);
    lemma_untimed_put(t.servers, stored(d), a);
    lemma_untimed_put(t.servers, unknown_view(a, now, None), a);
    assert(untimed(stored(d)) == stored(ud));
    assert(untimed(unknown_view(a, now, None)) == unknown_view(a, 0, None));
    lemma_untimed_retained(t.servers, Seq::empty(), a, true);
    lemma_untimed_tracks(retained(t.servers, Seq::empty(), a, true));
    lemma_untimed_tracks(put(t.servers, stored(d)));
    let s1 = put(t.servers, d);
    lemma_untimed_add(s1, m, now);
    lemma_untimed_tracks(add_unknowns(s1, m, now));
    let s0 = demote_others(t.servers, a);
    lemma_untimed_put(s0, primary_entry(d), a);
    assert(untimed(primary_entry(d)) == primary_entry(ud));
    let p1 = put(s0, primary_entry(d));
    lemma_untimed_add(p1, m, now);
    let p2 = add_unknowns(p1, m, now);
    lemma_untimed_retained(p2, m, a, false);
    let ut = untimed_topology(t);
    assert(stale(ut, ud) == stale(t, d));
    assert(ud.members() == m);
    assert(ud.hosts == d.hosts);
    assert(tracks(ut.servers, a) == tracks(t.servers, a));
    let x = next(t, d).topology.servers;
    assert(untimed_all(untimed_all(x)) =~= untimed_all(x));
    let r0 = retained(t.servers, Seq::<AddressView>::empty(), a, true);
    assert(has_primary(untimed_all(r0)) == has_primary(r0));
    let q0 = put(t.servers, stored(d));
    assert(untimed_all(q0) == put(ut.servers, stored(ud)));
    assert(has_primary(untimed_all(q0)) == has_primary(q0));
    assert(untimed_all(p1) == put(demote_others(ut.servers, a), primary_entry(ud)));
    assert(untimed_all(add_unknowns(s1, m, now)) == add_unknowns(put(ut.servers, ud), m, 0));
}

/// Folding in the same reply twice in a row, the second time with another update time and
/// round-trip time, gives the same topology but for those two fields.
pub proof fn lemma_update_idempotent_modulo_times(t: TopologyView, d1: ServerView, d2: ServerView)
    requires
        t.wf(),
        d1.wf(),
        d2.wf(),
        untimed(d1) == untimed(d2),
    ensures
        untimed_topology(next(next(t, d1).topology, d2).topology) == untimed_topology(
            next(t, d1).topology,
        ),
{
    let t1 = next(t, d1).topology;
    lemma_update_idempotent(t, d1);
    lemma_next_untimed(t1, d1);
    lemma_next_untimed(t1, d2);
}

} // verus!
