//! The topology description and the pure rules that fold a new server description
//! into it.

use vstd::prelude::*;

use crate::server::{
    addrs, is_rs_member_type, unknown_view, Address, AddressView, ServerDescription, ServerType,
    ServerView,
};

verus! {

/// The driver's belief about the shape of the whole deployment.
#[derive(PartialEq, Eq, Structural, Clone, Copy, Debug)]
pub enum TopologyType {
    Unknown,
    Single,
    ReplicaSetNoPrimary,
    ReplicaSetWithPrimary,
    Sharded,
}

/// The views of a list of server descriptions.
pub open spec fn views(v: Seq<ServerDescription>) -> Seq<ServerView> {
    v.map_values(|d: ServerDescription| d@)
}

/// Whether some entry describes the node at `a`.
pub open spec fn tracks(s: Seq<ServerView>, a: AddressView) -> bool {
    exists|i: int| 0 <= i < s.len() && #[trigger] s[i].address == a
}

/// No two entries describe the same node.
pub open spec fn distinct(s: Seq<ServerView>) -> bool {
    forall|i: int, j: int|
        0 <= i < s.len() && 0 <= j < s.len() && i != j ==> #[trigger] s[i].address
            != #[trigger] s[j].address
}

pub open spec fn is_primary(d: ServerView) -> bool {
    d.server_type == ServerType::RSPrimary
}

/// At most one entry is a primary.
pub open spec fn at_most_one_primary(s: Seq<ServerView>) -> bool {
    forall|i: int, j: int|
        0 <= i < s.len() && 0 <= j < s.len() && is_primary(#[trigger] s[i]) && is_primary(
            #[trigger] s[j],
        ) ==> i == j
}

pub open spec fn has_primary(s: Seq<ServerView>) -> bool {
    exists|i: int| 0 <= i < s.len() && is_primary(#[trigger] s[i])
}

/// Every entry is a well-formed description.
pub open spec fn all_wf(s: Seq<ServerView>) -> bool {
    forall|i: int| 0 <= i < s.len() ==> (#[trigger] s[i]).wf()
}

/// The entry for `d`'s node replaced by `d`.
pub open spec fn put(s: Seq<ServerView>, d: ServerView) -> Seq<ServerView> {
    Seq::new(s.len(), |j: int| if s[j].address == d.address { d } else { s[j] })
}

/// Every primary other than the node at `a` demoted to Unknown.
pub open spec fn demote_others(s: Seq<ServerView>, a: AddressView) -> Seq<ServerView> {
    Seq::new(
        s.len(),
        |j: int|
            if is_primary(s[j]) && s[j].address != a {
                unknown_view(s[j].address, s[j].last_update_time, None)
            } else {
                s[j]
            },
    )
}

/// An Unknown entry appended for each listed address not yet tracked.
pub open spec fn add_unknowns(s: Seq<ServerView>, hosts: Seq<AddressView>, now: u64) -> Seq<
    ServerView,
>
    decreases hosts.len(),
{
    if hosts.len() == 0 {
        s
    } else {
        let p = add_unknowns(s, hosts.drop_last(), now);
        if tracks(p, hosts.last()) {
            p
        } else {
            p.push(unknown_view(hosts.last(), now, None))
        }
    }
}

/// The listed addresses that `add_unknowns` appends, in order.
pub open spec fn newly_tracked(s: Seq<ServerView>, hosts: Seq<AddressView>, now: u64) -> Seq<
    AddressView,
>
    decreases hosts.len(),
{
    if hosts.len() == 0 {
        Seq::empty()
    } else {
        let p = newly_tracked(s, hosts.drop_last(), now);
        if tracks(add_unknowns(s, hosts.drop_last(), now), hosts.last()) {
            p
        } else {
            p.push(hosts.last())
        }
    }
}

/// Whether an entry at `x` stays: with `only_me`, every node but `me`; otherwise the
/// listed members and `me`.
pub open spec fn keeps(members: Seq<AddressView>, me: AddressView, only_me: bool, x: AddressView) -> bool {
    if only_me {
        x != me
    } else {
        members.contains(x) || x == me
    }
}

/// The entries that stay, in order.
pub open spec fn retained(
    s: Seq<ServerView>,
    members: Seq<AddressView>,
    me: AddressView,
    only_me: bool,
) -> Seq<ServerView>
    decreases s.len(),
{
    if s.len() == 0 {
        s
    } else {
        let p = retained(s.drop_last(), members, me, only_me);
        if keeps(members, me, only_me, s.last().address) {
            p.push(s.last())
        } else {
            p
        }
    }
}

/// The addresses of the entries that go, in order.
pub open spec fn dropped(
    s: Seq<ServerView>,
    members: Seq<AddressView>,
    me: AddressView,
    only_me: bool,
) -> Seq<AddressView>
    decreases s.len(),
{
    if s.len() == 0 {
        Seq::empty()
    } else {
        let p = dropped(s.drop_last(), members, me, only_me);
        if keeps(members, me, only_me, s.last().address) {
            p
        } else {
            p.push(s.last().address)
        }
    }
}


/// The position of the entry for the node at `a`, if any.
pub fn find_server(servers: &Vec<ServerDescription>, a: &Address) -> (r: Option<usize>)
    ensures
        match r {
            Some(i) => i < servers@.len() && views(servers@)[i as int].address == a@,
            None => !tracks(views(servers@), a@),
        },
{
    let mut i: usize = 0;
    while i < servers.len()
        invariant
            i <= servers@.len(),
            forall|j: int| 0 <= j < i ==> #[trigger] views(servers@)[j].address != a@,
        decreases servers.len() - i,
    {
        if servers[i].address.same(a) {
            return Some(i);
        }
        i = i + 1;
    }
    None
}

/// Whether `a` is in the list.
pub fn contains_address(v: &Vec<Address>, a: &Address) -> (r: bool)
    ensures
        r == addrs(v@).contains(a@),
{
    let mut i: usize = 0;
    while i < v.len()
        invariant
            i <= v@.len(),
            forall|j: int| 0 <= j < i ==> #[trigger] addrs(v@)[j] != a@,
        decreases v.len() - i,
    {
        if v[i].same(a) {
            assert(addrs(v@)[i as int] == a@);
            return true;
        }
        i = i + 1;
    }
    false
}

/// Demotes every primary but the node at `a` to Unknown.
fn demote_other_primaries(servers: &mut Vec<ServerDescription>, a: &Address)
    ensures
        views(final(servers)@) == demote_others(views(old(servers)@), a@),
{
    let ghost s0 = views(servers@);
    let mut i: usize = 0;
    while i < servers.len()
        invariant
            i <= servers@.len(),
            servers@.len() == s0.len(),
            forall|j: int|
                0 <= j < i ==> #[trigger] views(servers@)[j] == demote_others(s0, a@)[j],
            forall|j: int| i <= j < servers@.len() ==> #[trigger] views(servers@)[j] == s0[j],
        decreases servers.len() - i,
    {
        let ghost prev = servers@;
        assert(views(servers@)[i as int] == s0[i as int]);
        assert(servers@[i as int]@ == s0[i as int]);
        if servers[i].server_type == ServerType::RSPrimary && !servers[i].address.same(a) {
            let d = servers[i].demoted();
            servers.set(i, d);
        }
        assert forall|j: int| 0 <= j < servers@.len() && j != i implies servers@[j] == prev[j] by {}
        assert(views(servers@)[i as int] == demote_others(s0, a@)[i as int]);
        i = i + 1;
        assert forall|j: int| 0 <= j < i implies #[trigger] views(servers@)[j] == demote_others(
            s0,
            a@,
        )[j] by {
            if j < i - 1 {
                assert(servers@[j] == prev[j]);
                assert(views(prev)[j] == demote_others(s0, a@)[j]);
            }
        }
        assert forall|j: int| i <= j < servers@.len() implies #[trigger] views(servers@)[j]
            == s0[j] by {
            assert(servers@[j] == prev[j]);
            assert(views(prev)[j] == s0[j]);
        }
    }
    assert(views(servers@) =~= demote_others(s0, a@));
}

/// Replaces the entry at `i`, which describes `d`'s node, by `d`.
fn put_server(servers: &mut Vec<ServerDescription>, i: usize, d: ServerDescription)
    requires
        i < old(servers)@.len(),
        distinct(views(old(servers)@)),
        views(old(servers)@)[i as int].address == d@.address,
    ensures
        views(final(servers)@) == put(views(old(servers)@), d@),
{
    let ghost s0 = views(servers@);
    let ghost dv = d@;
    servers.set(i, d);
    assert forall|j: int| 0 <= j < s0.len() implies #[trigger] views(servers@)[j] == put(s0, dv)[j] by {
        if j != i {
            assert(s0[j].address != s0[i as int].address);
        }
    }
    assert(views(servers@) =~= put(s0, dv));
}

/// Appends an Unknown entry for each listed address not yet tracked, and returns those
/// addresses.
fn add_unknown_servers(servers: &mut Vec<ServerDescription>, hosts: &Vec<Address>, now: u64) -> (r:
    Vec<Address>)
    ensures
        views(final(servers)@) == add_unknowns(views(old(servers)@), addrs(hosts@), now),
        addrs(r@) == newly_tracked(views(old(servers)@), addrs(hosts@), now),
{
    let ghost s0 = views(servers@);
    let ghost h = addrs(hosts@);
    let mut added: Vec<Address> = Vec::new();
    let mut i: usize = 0;
    assert(h.take(0) =~= Seq::<AddressView>::empty());
    while i < hosts.len()
        invariant
            i <= hosts@.len(),
            h == addrs(hosts@),
            views(servers@) == add_unknowns(s0, h.take(i as int), now),
            addrs(added@) == newly_tracked(s0, h.take(i as int), now),
        decreases hosts.len() - i,
    {
        let ghost before = views(servers@);
        assert(h.take(i + 1).drop_last() =~= h.take(i as int));
        assert(h.take(i + 1).last() == hosts@[i as int]@);
        match find_server(servers, &hosts[i]) {
            Some(_) => {},
            None => {
                servers.push(ServerDescription::new(hosts[i].duplicate(), now));
                added.push(hosts[i].duplicate());
                assert(views(servers@) =~= before.push(unknown_view(hosts@[i as int]@, now, None)));
            },
        }
        i = i + 1;
        assert(addrs(added@) =~= newly_tracked(s0, h.take(i as int), now));
    }
    assert(h.take(hosts@.len() as int) =~= h);
    added
}

/// The entries that stay, and the addresses of those that go.
fn retain_servers(
    servers: &Vec<ServerDescription>,
    members: &Vec<Address>,
    me: &Address,
    only_me: bool,
) -> (r: (Vec<ServerDescription>, Vec<Address>))
    ensures
        views(r.0@) == retained(views(servers@), addrs(members@), me@, only_me),
        addrs(r.1@) == dropped(views(servers@), addrs(members@), me@, only_me),
{
    let ghost s = views(servers@);
    let mut kept: Vec<ServerDescription> = Vec::new();
    let mut gone: Vec<Address> = Vec::new();
    let mut i: usize = 0;
    assert(s.take(0) =~= Seq::<ServerView>::empty());
    while i < servers.len()
        invariant
            i <= servers@.len(),
            s == views(servers@),
            views(kept@) == retained(s.take(i as int), addrs(members@), me@, only_me),
            addrs(gone@) == dropped(s.take(i as int), addrs(members@), me@, only_me),
        decreases servers.len() - i,
    {
        assert(s.take(i + 1).drop_last() =~= s.take(i as int));
        let keep = if only_me {
            !servers[i].address.same(me)
        } else {
            contains_address(members, &servers[i].address) || servers[i].address.same(me)
        };
        if keep {
            kept.push(servers[i].duplicate());
        } else {
            gone.push(servers[i].address.duplicate());
        }
        i = i + 1;
        assert(views(kept@) =~= retained(s.take(i as int), addrs(members@), me@, only_me));
        assert(addrs(gone@) =~= dropped(s.take(i as int), addrs(members@), me@, only_me));
    }
    assert(s.take(servers@.len() as int) =~= s);
    (kept, gone)
}


/// The shared belief about the whole deployment.
#[derive(Clone, Debug, PartialEq, Eq)]
pub struct TopologyDescription {
    pub topology_type: TopologyType,
    /// The replica-set name, once learned.
    pub set_name: Option<String>,
    /// The highest set version recorded together with an election id.
    pub max_set_version: Option<i64>,
    pub max_election_id: Option<u64>,
    /// One description per tracked node, no two for the same address.
    pub servers: Vec<ServerDescription>,
    /// Whether the deployment was configured with exactly one seed.
    pub single_seed: bool,
}

/// The mathematical form of a topology description.
pub struct TopologyView {
    pub topology_type: TopologyType,
    pub set_name: Option<Seq<char>>,
    pub max_set_version: Option<i64>,
    pub max_election_id: Option<u64>,
    pub servers: Seq<ServerView>,
    pub single_seed: bool,
}

impl View for TopologyDescription {
    type V = TopologyView;

    open spec fn view(&self) -> TopologyView {
        TopologyView {
            topology_type: self.topology_type,
            set_name: crate::server::opt_str(self.set_name),
            max_set_version: self.max_set_version,
            max_election_id: self.max_election_id,
            servers: views(self.servers@),
            single_seed: self.single_seed,
        }
    }
}

impl TopologyView {
    /// Distinct nodes, well-formed entries, at most one primary, and a single-node
    /// deployment that stays single.
    pub open spec fn wf(self) -> bool {
        &&& distinct(self.servers)
        &&& all_wf(self.servers)
        &&& at_most_one_primary(self.servers)
        &&& (self.topology_type == TopologyType::Single || (self.topology_type
            == TopologyType::Unknown && self.single_seed)) ==> self.servers.len() <= 1
    }

    pub open spec fn with_servers(self, s: Seq<ServerView>) -> TopologyView {
        TopologyView { servers: s, ..self }
    }
}

/// What one update produces: the next topology and the membership delta.
pub struct UpdateView {
    pub topology: TopologyView,
    pub added: Seq<AddressView>,
    pub removed: Seq<AddressView>,
}

/// An update that changes nothing but, perhaps, the topology.
pub open spec fn no_delta(t: TopologyView) -> UpdateView {
    UpdateView { topology: t, added: Seq::empty(), removed: Seq::empty() }
}

/// Whether a primary's (set version, election id) pair is strictly below the recorded one.
pub open spec fn stale(t: TopologyView, d: ServerView) -> bool {
    match (d.set_version, d.election_id, t.max_set_version, t.max_election_id) {
        (Some(sv), Some(e), Some(msv), Some(me)) => sv < msv || (sv == msv && e < me),
        _ => false,
    }
}

/// Types that say nothing about the deployment's shape.
pub open spec fn is_quiet(t: ServerType) -> bool {
    t == ServerType::Unknown || t == ServerType::RSGhost || t == ServerType::PossiblePrimary
}

/// The form in which a description is kept: a ghost is kept as Unknown.
pub open spec fn stored(d: ServerView) -> ServerView {
    if d.server_type == ServerType::RSGhost {
        unknown_view(d.address, d.last_update_time, None)
    } else {
        d
    }
}

pub open spec fn type_by_primary(s: Seq<ServerView>) -> TopologyType {
    if has_primary(s) {
        TopologyType::ReplicaSetWithPrimary
    } else {
        TopologyType::ReplicaSetNoPrimary
    }
}

/// Whether the topology is a replica set, with or without a primary.
pub open spec fn is_replica_set_type(ty: TopologyType) -> bool {
    ty == TopologyType::ReplicaSetNoPrimary || ty == TopologyType::ReplicaSetWithPrimary
}

/// The node at `a` leaves the topology; a replica set without its primary has none.
pub open spec fn drop_node(t: TopologyView, a: AddressView) -> UpdateView {
    let s = retained(t.servers, Seq::empty(), a, true);
    UpdateView {
        topology: TopologyView {
            topology_type: if is_replica_set_type(t.topology_type) {
                type_by_primary(s)
            } else {
                t.topology_type
            },
            servers: s,
            ..t
        },
        added: Seq::empty(),
        removed: dropped(t.servers, Seq::empty(), a, true),
    }
}

/// The entry a primary leaves for itself: itself, or Unknown when its own host list
/// does not name it.
pub open spec fn primary_entry(d: ServerView) -> ServerView {
    if d.hosts.contains(d.address) {
        d
    } else {
        unknown_view(d.address, d.last_update_time, None)
    }
}

/// The update by a replica-set member: a primary, secondary, arbiter or other.
pub open spec fn member_next(t: TopologyView, d: ServerView) -> UpdateView {
    let a = d.address;
    if t.set_name.is_some() && d.set_name != t.set_name {
        drop_node(t, a)
    } else {
        let name = if t.set_name.is_some() {
            t.set_name
        } else {
            d.set_name
        };
        if is_primary(d) {
            if stale(t, d) {
                no_delta(
                    TopologyView {
                        set_name: name,
                        servers: put(t.servers, unknown_view(a, d.last_update_time, None)),
                        ..t
                    },
                )
            } else {
                let both = d.set_version.is_some() && d.election_id.is_some();
                let m = d.members();
                let s1 = put(demote_others(t.servers, a), primary_entry(d));
                let s2 = add_unknowns(s1, m, d.last_update_time);
                UpdateView {
                    topology: TopologyView {
                        topology_type: if d.hosts.contains(a) {
                            TopologyType::ReplicaSetWithPrimary
                        } else {
                            TopologyType::ReplicaSetNoPrimary
                        },
                        set_name: name,
                        max_set_version: if both {
                            d.set_version
                        } else {
                            t.max_set_version
                        },
                        max_election_id: if both {
                            d.election_id
                        } else {
                            t.max_election_id
                        },
                        servers: retained(s2, m, a, false),
                        single_seed: t.single_seed,
                    },
                    added: newly_tracked(s1, m, d.last_update_time),
                    removed: dropped(s2, m, a, false),
                }
            }
        } else {
            let s1 = put(t.servers, d);
            let s2 = add_unknowns(s1, d.members(), d.last_update_time);
            UpdateView {
                topology: TopologyView {
                    topology_type: type_by_primary(s2),
                    set_name: name,
                    servers: s2,
                    ..t
                },
                added: newly_tracked(s1, d.members(), d.last_update_time),
                removed: Seq::empty(),
            }
        }
    }
}

/// The update rules: what a new description of one node does to the topology.
pub open spec fn next(t: TopologyView, d: ServerView) -> UpdateView {
    let a = d.address;
    let ty = d.server_type;
    if !tracks(t.servers, a) {
        no_delta(t)
    } else {
        match t.topology_type {
            TopologyType::Single => no_delta(t.with_servers(put(t.servers, stored(d)))),
            TopologyType::Unknown => {
                if ty == ServerType::Standalone {
                    if t.single_seed {
                        no_delta(
                            TopologyView {
                                topology_type: TopologyType::Single,
                                servers: put(t.servers, d),
                                ..t
                            },
                        )
                    } else {
                        drop_node(t, a)
                    }
                } else if ty == ServerType::Mongos {
                    no_delta(
                        TopologyView {
                            topology_type: TopologyType::Sharded,
                            servers: put(t.servers, d),
                            ..t
                        },
                    )
                } else if is_rs_member_type(ty) {
                    member_next(t, d)
                } else {
                    no_delta(t.with_servers(put(t.servers, stored(d))))
                }
            },
            TopologyType::Sharded => {
                if ty == ServerType::Mongos || is_quiet(ty) {
                    no_delta(t.with_servers(put(t.servers, stored(d))))
                } else {
                    drop_node(t, a)
                }
            },
            _ => {
                if is_rs_member_type(ty) {
                    member_next(t, d)
                } else if is_quiet(ty) {
                    let s = put(t.servers, stored(d));
                    no_delta(TopologyView { topology_type: type_by_primary(s), servers: s, ..t })
                } else {
                    drop_node(t, a)
                }
            },
        }
    }
}


/// Every primary in `s` is the node at `a`.
pub open spec fn only_primary_at(s: Seq<ServerView>, a: AddressView) -> bool {
    forall|j: int| 0 <= j < s.len() && is_primary(#[trigger] s[j]) ==> s[j].address == a
}

/// Every entry for the node at `a` is `e`.
pub open spec fn entry_is(s: Seq<ServerView>, a: AddressView, e: ServerView) -> bool {
    forall|j: int| 0 <= j < s.len() && (#[trigger] s[j]).address == a ==> s[j] == e
}

pub(crate) proof fn lemma_put(s: Seq<ServerView>, d: ServerView)
    ensures
        put(s, d).len() == s.len(),
        forall|j: int| 0 <= j < s.len() ==> (#[trigger] put(s, d)[j]).address == s[j].address,
        distinct(s) ==> distinct(put(s, d)),
        all_wf(s) && d.wf() ==> all_wf(put(s, d)),
        at_most_one_primary(s) && !is_primary(d) ==> at_most_one_primary(put(s, d)),
        only_primary_at(s, d.address) ==> only_primary_at(put(s, d), d.address),
        distinct(s) ==> entry_is(put(s, d), d.address, d),
        tracks(s, d.address) ==> tracks(put(s, d), d.address),
        forall|x: AddressView| #[trigger] tracks(put(s, d), x) == tracks(s, x),
        entry_is(s, d.address, d) ==> put(s, d) == s,
        put(put(s, d), d) == put(s, d),
{
    let r = put(s, d);
    if entry_is(s, d.address, d) {
        assert(r =~= s);
    }
    assert(put(r, d) =~= r);
    assert forall|x: AddressView| #[trigger] tracks(r, x) == tracks(s, x) by {
        if tracks(s, x) {
            let i = choose|i: int| 0 <= i < s.len() && s[i].address == x;
            assert(r[i].address == x);
        }
        if tracks(r, x) {
            let i = choose|i: int| 0 <= i < r.len() && r[i].address == x;
            assert(s[i].address == x);
        }
    }
    if at_most_one_primary(s) && !is_primary(d) {
        assert forall|i: int, j: int|
            0 <= i < r.len() && 0 <= j < r.len() && is_primary(#[trigger] r[i]) && is_primary(
                #[trigger] r[j],
            ) implies i == j by {
            assert(r[i] == s[i]);
            assert(r[j] == s[j]);
        }
    }
}

pub(crate) proof fn lemma_demote_others(s: Seq<ServerView>, a: AddressView)
    ensures
        demote_others(s, a).len() == s.len(),
        forall|j: int|
            0 <= j < s.len() ==> (#[trigger] demote_others(s, a)[j]).address == s[j].address,
        distinct(s) ==> distinct(demote_others(s, a)),
        all_wf(s) ==> all_wf(demote_others(s, a)),
        only_primary_at(demote_others(s, a), a),
        forall|x: AddressView| #[trigger] tracks(demote_others(s, a), x) == tracks(s, x),
        only_primary_at(s, a) ==> demote_others(s, a) == s,
{
    let r = demote_others(s, a);
    assert forall|x: AddressView| #[trigger] tracks(r, x) == tracks(s, x) by {
        if tracks(s, x) {
            let i = choose|i: int| 0 <= i < s.len() && s[i].address == x;
            assert(r[i].address == x);
        }
        if tracks(r, x) {
            let i = choose|i: int| 0 <= i < r.len() && r[i].address == x;
            assert(s[i].address == x);
        }
    }
    if only_primary_at(s, a) {
        assert(r =~= s);
    }
}

pub(crate) proof fn lemma_add_unknowns(s: Seq<ServerView>, h: Seq<AddressView>, now: u64)
    ensures
        ({
            let r = add_unknowns(s, h, now);
            &&& r.len() >= s.len()
            &&& forall|j: int| 0 <= j < s.len() ==> #[trigger] r[j] == s[j]
            &&& forall|j: int|
                s.len() <= j < r.len() ==> #[trigger] r[j] == unknown_view(r[j].address, now, None)
                    && !tracks(s, r[j].address)
            &&& distinct(s) ==> distinct(r)
            &&& forall|i: int| 0 <= i < h.len() ==> tracks(r, #[trigger] h[i])
            &&& forall|x: AddressView| tracks(s, x) ==> #[trigger] tracks(r, x)
            &&& all_wf(s) ==> all_wf(r)
            &&& at_most_one_primary(s) ==> at_most_one_primary(r)
            &&& forall|a: AddressView| only_primary_at(s, a) ==> #[trigger] only_primary_at(r, a)
            &&& forall|a: AddressView, e: ServerView|
                tracks(s, a) && entry_is(s, a, e) ==> #[trigger] entry_is(r, a, e)
            &&& (forall|i: int| 0 <= i < h.len() ==> tracks(s, #[trigger] h[i])) ==> r == s
        }),
    decreases h.len(),
{
    if h.len() > 0 {
        let p = add_unknowns(s, h.drop_last(), now);
        lemma_add_unknowns(s, h.drop_last(), now);
        let r = add_unknowns(s, h, now);
        assert forall|i: int| 0 <= i < h.len() implies tracks(r, #[trigger] h[i]) by {
            if i < h.len() - 1 {
                assert(h[i] == h.drop_last()[i]);
                assert(tracks(p, h[i]));
                let k = choose|k: int| 0 <= k < p.len() && p[k].address == h[i];
                assert(r[k] == p[k]);
            } else if !tracks(p, h.last()) {
                assert(r[p.len() as int].address == h[i]);
            }
        }
        assert forall|x: AddressView| tracks(s, x) implies #[trigger] tracks(r, x) by {
            assert(tracks(p, x));
            let k = choose|k: int| 0 <= k < p.len() && p[k].address == x;
            assert(r[k] == p[k]);
        }
        if !tracks(p, h.last()) {
            let n = unknown_view(h.last(), now, None);
            assert(r == p.push(n));
            if distinct(s) {
                assert forall|i: int, j: int|
                    0 <= i < r.len() && 0 <= j < r.len() && i != j implies #[trigger] r[i].address
                    != #[trigger] r[j].address by {
                    if i == p.len() {
                        assert(r[j] == p[j]);
                    } else if j == p.len() {
                        assert(r[i] == p[i]);
                    } else {
                        assert(r[i] == p[i]);
                        assert(r[j] == p[j]);
                    }
                }
            }
            assert forall|j: int|
                s.len() <= j < r.len() implies #[trigger] r[j] == unknown_view(r[j].address, now, None)
                && !tracks(s, r[j].address) by {
                if j == p.len() {
                    if tracks(s, r[j].address) {
                        assert(tracks(p, r[j].address));
                    }
                } else {
                    assert(r[j] == p[j]);
                }
            }
            if at_most_one_primary(s) {
                assert forall|i: int, j: int|
                    0 <= i < r.len() && 0 <= j < r.len() && is_primary(#[trigger] r[i])
                        && is_primary(#[trigger] r[j]) implies i == j by {
                    assert(r[i] == p[i]);
                    assert(r[j] == p[j]);
                }
            }
            assert forall|a: AddressView| only_primary_at(s, a) implies #[trigger] only_primary_at(
                r,
                a,
            ) by {
                assert(only_primary_at(p, a));
                assert forall|j: int| 0 <= j < r.len() && is_primary(#[trigger] r[j]) implies r[j].address
                    == a by {
                    assert(r[j] == p[j]);
                }
            }
            assert forall|a: AddressView, e: ServerView|
                tracks(s, a) && entry_is(s, a, e) implies #[trigger] entry_is(r, a, e) by {
                assert(entry_is(p, a, e));
                assert(tracks(p, a));
                assert forall|j: int| 0 <= j < r.len() && (#[trigger] r[j]).address == a implies r[j]
                    == e by {
                    if j < p.len() {
                        assert(r[j] == p[j]);
                    }
                }
            }
            if (forall|i: int| 0 <= i < h.len() ==> tracks(s, #[trigger] h[i])) {
                assert(tracks(s, h[h.len() - 1]));
                assert(tracks(p, h.last()));
            }
            if all_wf(s) {
                assert forall|j: int| 0 <= j < r.len() implies (#[trigger] r[j]).wf() by {
                    if j < p.len() {
                        assert(r[j] == p[j]);
                    }
                }
            }
        } else {
            if (forall|i: int| 0 <= i < h.len() ==> tracks(s, #[trigger] h[i])) {
                assert forall|i: int| 0 <= i < h.drop_last().len() implies tracks(
                    s,
                    #[trigger] h.drop_last()[i],
                ) by {
                    assert(h.drop_last()[i] == h[i]);
                }
            }
        }
    }
}

/// What the retained entries inherit from the whole list.
pub(crate) proof fn lemma_retained(s: Seq<ServerView>, m: Seq<AddressView>, me: AddressView, only_me: bool)
    ensures
        ({
            let r = retained(s, m, me, only_me);
            &&& r.len() <= s.len()
            &&& forall|i: int|
                0 <= i < r.len() ==> exists|j: int| 0 <= j < s.len() && #[trigger] r[i] == s[j]
            &&& forall|i: int| 0 <= i < r.len() ==> keeps(m, me, only_me, (#[trigger] r[i]).address)
            &&& distinct(s) ==> distinct(r)
            &&& all_wf(s) ==> all_wf(r)
            &&& distinct(s) && at_most_one_primary(s) ==> at_most_one_primary(r)
            &&& forall|a: AddressView| only_primary_at(s, a) ==> #[trigger] only_primary_at(r, a)
            &&& forall|a: AddressView, e: ServerView|
                entry_is(s, a, e) ==> #[trigger] entry_is(r, a, e)
            &&& forall|x: AddressView|
                keeps(m, me, only_me, x) && tracks(s, x) ==> #[trigger] tracks(r, x)
            &&& forall|x: AddressView| #[trigger] tracks(r, x) ==> tracks(s, x)
            &&& (forall|j: int| 0 <= j < s.len() ==> keeps(m, me, only_me, (#[trigger] s[j]).address))
                ==> r == s
        }),
    decreases s.len(),
{
    if s.len() > 0 {
        let q = s.drop_last();
        let p = retained(q, m, me, only_me);
        lemma_retained(q, m, me, only_me);
        let r = retained(s, m, me, only_me);
        let l = s.last();
        assert forall|i: int| 0 <= i < p.len() implies exists|j: int|
            0 <= j < s.len() && #[trigger] p[i] == s[j] by {
            let j = choose|j: int| 0 <= j < q.len() && p[i] == q[j];
            assert(s[j] == q[j]);
        }
        if distinct(s) {
            assert forall|i: int, j: int|
                0 <= i < q.len() && 0 <= j < q.len() && i != j implies #[trigger] q[i].address
                != #[trigger] q[j].address by {
                assert(q[i] == s[i]);
                assert(q[j] == s[j]);
            }
        }
        assert forall|x: AddressView| keeps(m, me, only_me, x) && tracks(s, x) implies #[trigger] tracks(
            r,
            x,
        ) by {
            let k = choose|k: int| 0 <= k < s.len() && s[k].address == x;
            if k < q.len() {
                assert(q[k] == s[k]);
                assert(tracks(q, x));
                assert(tracks(p, x));
                let t = choose|t: int| 0 <= t < p.len() && p[t].address == x;
                if keeps(m, me, only_me, l.address) {
                    assert(r[t] == p[t]);
                }
            } else {
                assert(r[r.len() - 1] == l);
            }
        }
        assert forall|x: AddressView| #[trigger] tracks(r, x) implies tracks(s, x) by {
            let t = choose|t: int| 0 <= t < r.len() && r[t].address == x;
            if t < p.len() {
                assert(r[t] == p[t]);
                assert(tracks(p, x));
                assert(tracks(q, x));
                let k = choose|k: int| 0 <= k < q.len() && q[k].address == x;
                assert(s[k] == q[k]);
            } else {
                assert(s[s.len() - 1].address == x);
            }
        }
        if keeps(m, me, only_me, l.address) {
            assert(r == p.push(l));
            assert forall|i: int| 0 <= i < r.len() implies exists|j: int|
                0 <= j < s.len() && #[trigger] r[i] == s[j] by {
                if i < p.len() {
                    assert(r[i] == p[i]);
                } else {
                    assert(r[i] == s[s.len() - 1]);
                }
            }
            if distinct(s) {
                assert forall|i: int, j: int|
                    0 <= i < r.len() && 0 <= j < r.len() && i != j implies #[trigger] r[i].address
                    != #[trigger] r[j].address by {
                    if i == p.len() {
                        assert(r[j] == p[j]);
                        let k = choose|k: int| 0 <= k < s.len() && p[j] == s[k];
                        let k2 = choose|k2: int| 0 <= k2 < q.len() && p[j] == q[k2];
                        assert(s[k2] == q[k2]);
                    } else if j == p.len() {
                        assert(r[i] == p[i]);
                        let k2 = choose|k2: int| 0 <= k2 < q.len() && p[i] == q[k2];
                        assert(s[k2] == q[k2]);
                    } else {
                        assert(r[i] == p[i]);
                        assert(r[j] == p[j]);
                    }
                }
            }
        }
        if distinct(s) && at_most_one_primary(s) {
            assert forall|i: int, j: int|
                0 <= i < q.len() && 0 <= j < q.len() && is_primary(#[trigger] q[i]) && is_primary(
                    #[trigger] q[j],
                ) implies i == j by {
                assert(q[i] == s[i]);
                assert(q[j] == s[j]);
            }
            assert forall|i: int, j: int|
                0 <= i < r.len() && 0 <= j < r.len() && is_primary(#[trigger] r[i]) && is_primary(
                    #[trigger] r[j],
                ) implies i == j by {
                let k = choose|k: int| 0 <= k < s.len() && r[i] == s[k];
                let k2 = choose|k2: int| 0 <= k2 < s.len() && r[j] == s[k2];
                assert(k == k2);
            }
        }
        if all_wf(s) {
            assert forall|i: int| 0 <= i < r.len() implies (#[trigger] r[i]).wf() by {
                let k = choose|k: int| 0 <= k < s.len() && r[i] == s[k];
            }
        }
        assert forall|a: AddressView| only_primary_at(s, a) implies #[trigger] only_primary_at(
            r,
            a,
        ) by {
            assert forall|i: int| 0 <= i < r.len() && is_primary(#[trigger] r[i]) implies r[i].address
                == a by {
                let k = choose|k: int| 0 <= k < s.len() && r[i] == s[k];
            }
        }
        assert forall|a: AddressView, e: ServerView| entry_is(s, a, e) implies #[trigger] entry_is(
            r,
            a,
            e,
        ) by {
            assert forall|i: int| 0 <= i < r.len() && (#[trigger] r[i]).address == a implies r[i]
                == e by {
                let k = choose|k: int| 0 <= k < s.len() && r[i] == s[k];
            }
        }
        assert forall|i: int| 0 <= i < r.len() implies keeps(m, me, only_me, (#[trigger] r[i]).address) by {
            if i < p.len() {
                assert(r[i] == p[i]);
            }
        }
        if forall|j: int| 0 <= j < s.len() ==> keeps(m, me, only_me, (#[trigger] s[j]).address) {
            assert forall|j: int| 0 <= j < q.len() implies keeps(m, me, only_me, (#[trigger] q[j]).address) by {
                assert(q[j] == s[j]);
            }
            assert(keeps(m, me, only_me, s[s.len() - 1].address));
            assert(s =~= q.push(l));
        }
    }
}


/// Whether some entry is a primary.
pub fn any_primary(servers: &Vec<ServerDescription>) -> (r: bool)
    ensures
        r == has_primary(views(servers@)),
{
    let mut i: usize = 0;
    while i < servers.len()
        invariant
            i <= servers@.len(),
            forall|j: int| 0 <= j < i ==> !is_primary(#[trigger] views(servers@)[j]),
        decreases servers.len() - i,
    {
        if servers[i].server_type == ServerType::RSPrimary {
            assert(is_primary(views(servers@)[i as int]));
            return true;
        }
        i = i + 1;
    }
    false
}

/// The form in which a description is kept.
fn stored_form(d: ServerDescription) -> (r: ServerDescription)
    ensures
        r@ == stored(d@),
{
    if d.server_type == ServerType::RSGhost {
        d.demoted()
    } else {
        d
    }
}

/// The result of one update: the next topology and the membership delta.
#[derive(Clone, Debug, PartialEq, Eq)]
pub struct UpdateOutcome {
    pub topology: TopologyDescription,
    /// Nodes to start monitoring.
    pub added: Vec<Address>,
    /// Nodes to stop monitoring.
    pub removed: Vec<Address>,
}

impl UpdateOutcome {
    pub open spec fn matches(self, u: UpdateView) -> bool {
        &&& self.topology@ == u.topology
        &&& addrs(self.added@) == u.added
        &&& addrs(self.removed@) == u.removed
    }

    fn unchanged_membership(topology: TopologyDescription) -> (r: UpdateOutcome)
        ensures
            r.matches(no_delta(topology@)),
            r.topology == topology,
    {
        let r = UpdateOutcome { topology, added: Vec::new(), removed: Vec::new() };
        assert(addrs(r.added@) =~= Seq::<AddressView>::empty());
        assert(addrs(r.removed@) =~= Seq::<AddressView>::empty());
        r
    }
}

impl TopologyDescription {
    /// The node at `a` leaves the topology.
    fn without(self, a: &Address) -> (r: UpdateOutcome)
        requires
            self@.wf(),
        ensures
            r.matches(drop_node(self@, a@)),
            r.topology@.wf(),
    {
        let empty: Vec<Address> = Vec::new();
        let (kept, removed) = retain_servers(&self.servers, &empty, a, true);
        proof {
            assert(addrs(empty@) =~= Seq::<AddressView>::empty());
            lemma_retained(self@.servers, Seq::empty(), a@, true);
        }
        let replica_set = match self.topology_type {
            TopologyType::ReplicaSetNoPrimary | TopologyType::ReplicaSetWithPrimary => true,
            _ => false,
        };
        let topology_type = if replica_set {
            if any_primary(&kept) {
                TopologyType::ReplicaSetWithPrimary
            } else {
                TopologyType::ReplicaSetNoPrimary
            }
        } else {
            self.topology_type
        };
        let topology = TopologyDescription { topology_type, servers: kept, ..self };
        UpdateOutcome { topology, added: Vec::new(), removed }
    }

    /// The entry at `i` replaced by `d`, which describes the same node.
    fn with_entry(self, i: usize, d: ServerDescription) -> (r: TopologyDescription)
        requires
            self@.wf(),
            i < self@.servers.len(),
            self@.servers[i as int].address == d@.address,
        ensures
            r@ == self@.with_servers(put(self@.servers, d@)),
    {
        let mut t = self;
        put_server(&mut t.servers, i, d);
        t
    }
}


/// Whether a primary's (set version, election id) pair is strictly below the recorded one.
fn is_stale(t: &TopologyDescription, d: &ServerDescription) -> (r: bool)
    ensures
        r == stale(t@, d@),
{
    match (d.set_version, d.election_id, t.max_set_version, t.max_election_id) {
        (Some(sv), Some(e), Some(msv), Some(me)) => sv < msv || (sv == msv && e < me),
        _ => false,
    }
}

/// The same optional string.
fn copy_name(o: &Option<String>) -> (r: Option<String>)
    ensures
        crate::server::opt_str(r) == crate::server::opt_str(*o),
{
    match o {
        Some(n) => Some(n.clone()),
        None => None,
    }
}

impl TopologyDescription {
    /// The update by a replica-set member at entry `i`.
    fn member_update(self, i: usize, d: ServerDescription) -> (r: UpdateOutcome)
        requires
            self@.wf(),
            d@.wf(),
            is_rs_member_type(d@.server_type),
            i < self@.servers.len(),
            self@.servers[i as int].address == d@.address,
        ensures
            r.matches(member_next(self@, d@)),
            r.topology@.wf(),
    {
        let ghost t = self@;
        let ghost dv = d@;
        let mismatch = match (&self.set_name, &d.set_name) {
            (Some(n), Some(m)) => !(*n == *m),
            (Some(_), None) => true,
            (None, _) => false,
        };
        if mismatch {
            let a = d.address.duplicate();
            return self.without(&a);
        }
        let name = if self.set_name.is_some() {
            copy_name(&self.set_name)
        } else {
            copy_name(&d.set_name)
        };
        let lut = d.last_update_time;
        let a = d.address.duplicate();
        let m = d.members();
        if d.server_type == ServerType::RSPrimary {
            if is_stale(&self, &d) {
                let mut top = self.with_entry(i, ServerDescription::new(a, lut));
                top.set_name = name;
                proof {
                    lemma_put(t.servers, unknown_view(dv.address, lut, None));
                }
                return UpdateOutcome::unchanged_membership(top);
            }
            let both = d.set_version.is_some() && d.election_id.is_some();
            let (msv, meid) = if both {
                (d.set_version, d.election_id)
            } else {
                (self.max_set_version, self.max_election_id)
            };
            let listed = contains_address(&d.hosts, &a);
            let entry = if listed {
                d
            } else {
                ServerDescription::new(a.duplicate(), lut)
            };
            assert(entry@ == primary_entry(dv));
            let mut servers = self.servers;
            proof {
                lemma_demote_others(t.servers, dv.address);
            }
            demote_other_primaries(&mut servers, &a);
            let ghost s0 = views(servers@);
            put_server(&mut servers, i, entry);
            let ghost s1 = views(servers@);
            proof {
                lemma_put(s0, primary_entry(dv));
            }
            let added = add_unknown_servers(&mut servers, &m, lut);
            let ghost s2 = views(servers@);
            proof {
                lemma_add_unknowns(s1, dv.members(), lut);
            }
            let (kept, removed) = retain_servers(&servers, &m, &a, false);
            proof {
                lemma_retained(s2, dv.members(), dv.address, false);
                assert forall|p: int, q: int|
                    0 <= p < s2.len() && 0 <= q < s2.len() && is_primary(#[trigger] s2[p])
                        && is_primary(#[trigger] s2[q]) implies p == q by {}
            }
            let topology = TopologyDescription {
                topology_type: if listed {
                    TopologyType::ReplicaSetWithPrimary
                } else {
                    TopologyType::ReplicaSetNoPrimary
                },
                set_name: name,
                max_set_version: msv,
                max_election_id: meid,
                servers: kept,
                single_seed: self.single_seed,
            };
            UpdateOutcome { topology, added, removed }
        } else {
            let mut servers = self.servers;
            put_server(&mut servers, i, d);
            let ghost s1 = views(servers@);
            proof {
                lemma_put(t.servers, dv);
            }
            let added = add_unknown_servers(&mut servers, &m, lut);
            proof {
                lemma_add_unknowns(s1, dv.members(), lut);
            }
            let topology_type = if any_primary(&servers) {
                TopologyType::ReplicaSetWithPrimary
            } else {
                TopologyType::ReplicaSetNoPrimary
            };
            let topology = TopologyDescription {
                topology_type,
                set_name: name,
                max_set_version: self.max_set_version,
                max_election_id: self.max_election_id,
                servers,
                single_seed: self.single_seed,
            };
            let r = UpdateOutcome { topology, added, removed: Vec::new() };
            assert(addrs(r.removed@) =~= Seq::<AddressView>::empty());
            r
        }
    }
}


impl TopologyDescription {
    /// Folds a new description of one node into the topology, and reports which nodes
    /// to start and stop monitoring.
    pub fn update(self, d: ServerDescription) -> (r: UpdateOutcome)
        requires
            self@.wf(),
            d@.wf(),
        ensures
            r.matches(next(self@, d@)),
            r.topology@.wf(),
    {
        let ghost t = self@;
        let ghost dv = d@;
        let i = match find_server(&self.servers, &d.address) {
            Some(i) => i,
            None => return UpdateOutcome::unchanged_membership(self),
        };
        let ty = d.server_type;
        let quiet = ty == ServerType::Unknown || ty == ServerType::RSGhost || ty
            == ServerType::PossiblePrimary;
        let member = ty == ServerType::RSPrimary || ty == ServerType::RSSecondary || ty
            == ServerType::RSArbiter || ty == ServerType::RSOther;
        match self.topology_type {
            TopologyType::Single => {
                let e = stored_form(d);
                proof {
                    lemma_put(t.servers, stored(dv));
                }
                UpdateOutcome::unchanged_membership(self.with_entry(i, e))
            },
            TopologyType::Unknown => {
                if ty == ServerType::Standalone {
                    if self.single_seed {
                        let mut top = self.with_entry(i, d);
                        top.topology_type = TopologyType::Single;
                        proof {
                            lemma_put(t.servers, dv);
                        }
                        UpdateOutcome::unchanged_membership(top)
                    } else {
                        let a = d.address.duplicate();
                        self.without(&a)
                    }
                } else if ty == ServerType::Mongos {
                    let mut top = self.with_entry(i, d);
                    top.topology_type = TopologyType::Sharded;
                    proof {
                        lemma_put(t.servers, dv);
                    }
                    UpdateOutcome::unchanged_membership(top)
                } else if member {
                    self.member_update(i, d)
                } else {
                    let e = stored_form(d);
                    proof {
                        lemma_put(t.servers, stored(dv));
                    }
                    UpdateOutcome::unchanged_membership(self.with_entry(i, e))
                }
            },
            TopologyType::Sharded => {
                if ty == ServerType::Mongos || quiet {
                    let e = stored_form(d);
                    proof {
                        lemma_put(t.servers, stored(dv));
                    }
                    UpdateOutcome::unchanged_membership(self.with_entry(i, e))
                } else {
                    let a = d.address.duplicate();
                    self.without(&a)
                }
            },
            _ => {
                if member {
                    self.member_update(i, d)
                } else if quiet {
                    let e = stored_form(d);
                    proof {
                        lemma_put(t.servers, stored(dv));
                    }
                    let mut top = self.with_entry(i, e);
                    top.topology_type =
                    if any_primary(&top.servers) {
                        TopologyType::ReplicaSetWithPrimary
                    } else {
                        TopologyType::ReplicaSetNoPrimary
                    };
                    UpdateOutcome::unchanged_membership(top)
                } else {
                    let a = d.address.duplicate();
                    self.without(&a)
                }
            },
        }
    }
}


/// The topology at construction: one Unknown entry per distinct seed.
pub open spec fn initial(seeds: Seq<AddressView>, set_name: Option<Seq<char>>, now: u64) -> TopologyView {
    let servers = add_unknowns(Seq::empty(), seeds, now);
    TopologyView {
        topology_type: if set_name.is_some() {
            TopologyType::ReplicaSetNoPrimary
        } else {
            TopologyType::Unknown
        },
        set_name,
        max_set_version: None,
        max_election_id: None,
        servers,
        single_seed: servers.len() == 1,
    }
}

impl TopologyDescription {
    /// The topology of a deployment handle configured with `seeds` and, perhaps, the
    /// name of its replica set.
    pub fn new(seeds: &Vec<Address>, set_name: Option<String>, now: u64) -> (r: TopologyDescription)
        ensures
            r@ == initial(addrs(seeds@), crate::server::opt_str(set_name), now),
            r@.wf(),
    {
        let mut servers: Vec<ServerDescription> = Vec::new();
        proof {
            assert(views(servers@) =~= Seq::<ServerView>::empty());
            lemma_add_unknowns(Seq::empty(), addrs(seeds@), now);
        }
        let _ = add_unknown_servers(&mut servers, seeds, now);
        let topology_type = if set_name.is_some() {
            TopologyType::ReplicaSetNoPrimary
        } else {
            TopologyType::Unknown
        };
        let single_seed = servers.len() == 1;
        TopologyDescription {
            topology_type,
            set_name,
            max_set_version: None,
            max_election_id: None,
            servers,
            single_seed,
        }
    }
}

} // verus!
