//! Server selection: which tracked servers may serve a read, and which one to use.

use vstd::prelude::*;

use crate::error::Error;
use crate::server::{AddressView, Address, ServerDescription, ServerType, ServerView, Tag};
use crate::topology::{views, TopologyDescription, TopologyType, TopologyView};

verus! {

/// Which server roles a read may go to.
#[derive(PartialEq, Eq, Structural, Clone, Copy, Debug)]
pub enum ReadMode {
    Primary,
    PrimaryPreferred,
    Secondary,
    SecondaryPreferred,
    Nearest,
}

/// A caller's policy for choosing a server.
#[derive(Clone, Debug, PartialEq, Eq)]
pub struct ReadPreference {
    pub mode: ReadMode,
    /// Each set lists tags that a chosen server must all carry; no sets accept every
    /// server.
    pub tag_sets: Vec<Vec<Tag>>,
    /// The largest age, on the descriptions' logical clock, of a usable secondary.
    pub max_staleness: Option<u64>,
}

/// Milliseconds above the fastest candidate's round trip within which a server may still
/// be chosen.
pub const LATENCY_WINDOW_MS: u64 = 15;

/// Whether the server carries a tag of that name and value.
pub open spec fn has_tag(tags: Seq<Tag>, t: Tag) -> bool {
    exists|i: int| 0 <= i < tags.len() && tags[i].name@ == t.name@ && tags[i].value@ == t.value@
}

/// Whether the server carries every tag of the set.
pub open spec fn carries_all(tags: Seq<Tag>, set: Seq<Tag>) -> bool {
    forall|j: int| 0 <= j < set.len() ==> has_tag(tags, #[trigger] set[j])
}

/// Whether the server matches the tag sets: no sets, or one that it carries whole.
pub open spec fn matches_tags(tags: Seq<Tag>, tag_sets: Seq<Seq<Tag>>) -> bool {
    tag_sets.len() == 0 || exists|k: int| 0 <= k < tag_sets.len() && carries_all(tags, #[trigger] tag_sets[k])
}

pub open spec fn tag_set_views(v: Seq<Vec<Tag>>) -> Seq<Seq<Tag>> {
    v.map_values(|s: Vec<Tag>| s@)
}

/// Whether the description is recent enough at time `now`.
pub open spec fn fresh(x: ServerView, max_staleness: Option<u64>, now: u64) -> bool {
    match max_staleness {
        Some(m) => now as int - x.last_update_time as int <= m as int,
        None => true,
    }
}

/// A node that stands alone or routes: it serves reads of every mode.
pub open spec fn serves_any_mode(x: ServerView) -> bool {
    x.server_type == ServerType::Standalone || x.server_type == ServerType::Mongos
}

/// A server that a read for the primary may use: a primary, standalone or router that the
/// tag sets accept.
pub open spec fn usable_primary(x: ServerView, pref: ReadPreference) -> bool {
    &&& (x.server_type == ServerType::RSPrimary || serves_any_mode(x))
    &&& matches_tags(x.tags, tag_set_views(pref.tag_sets@))
}

/// A server that a read for a secondary may use: a recent enough secondary, a standalone
/// or a router, that the tag sets accept.
pub open spec fn usable_secondary(x: ServerView, pref: ReadPreference, now: u64) -> bool {
    &&& ((x.server_type == ServerType::RSSecondary && fresh(x, pref.max_staleness, now))
        || serves_any_mode(x))
    &&& matches_tags(x.tags, tag_set_views(pref.tag_sets@))
}

pub open spec fn has_usable_primary(s: Seq<ServerView>, pref: ReadPreference) -> bool {
    exists|i: int| 0 <= i < s.len() && usable_primary(#[trigger] s[i], pref)
}

pub open spec fn has_usable_secondary(s: Seq<ServerView>, pref: ReadPreference, now: u64) -> bool {
    exists|i: int| 0 <= i < s.len() && usable_secondary(#[trigger] s[i], pref, now)
}

/// Whether the server may serve a read of this preference in this topology: its type fits
/// the mode, it matches the tag sets, and a sharded topology routes through routers only.
pub open spec fn eligible(t: TopologyView, pref: ReadPreference, now: u64, x: ServerView) -> bool {
    let primary = usable_primary(x, pref);
    let secondary = usable_secondary(x, pref, now);
    let by_mode = match pref.mode {
        ReadMode::Primary => primary,
        ReadMode::Secondary => secondary,
        ReadMode::Nearest => primary || secondary,
        ReadMode::PrimaryPreferred => if has_usable_primary(t.servers, pref) {
            primary
        } else {
            secondary
        },
        ReadMode::SecondaryPreferred => if has_usable_secondary(t.servers, pref, now) {
            secondary
        } else {
            primary
        },
    };
    match t.topology_type {
        TopologyType::Unknown => false,
        TopologyType::Sharded => by_mode && x.server_type == ServerType::Mongos,
        _ => by_mode,
    }
}

/// The entries of `s` that satisfy `p`, in order.
pub open spec fn keep_if(s: Seq<ServerView>, p: spec_fn(ServerView) -> bool) -> Seq<ServerView>
    decreases s.len(),
{
    if s.len() == 0 {
        s
    } else {
        let r = keep_if(s.drop_last(), p);
        if p(s.last()) {
            r.push(s.last())
        } else {
            r
        }
    }
}

/// The servers that may serve the read.
pub open spec fn candidates(t: TopologyView, pref: ReadPreference, now: u64) -> Seq<ServerView> {
    keep_if(t.servers, |x: ServerView| eligible(t, pref, now, x))
}

/// The address of the first server in `c` whose wire versions do not fit the driver's.
pub open spec fn first_incompatible(c: Seq<ServerView>) -> Option<AddressView>
    decreases c.len(),
{
    if c.len() == 0 {
        None
    } else {
        match first_incompatible(c.drop_last()) {
            Some(a) => Some(a),
            None => if c.last().compatible() {
                None
            } else {
                Some(c.last().address)
            },
        }
    }
}

/// A server's round-trip time, zero when none was measured.
pub open spec fn rtt(x: ServerView) -> int {
    match x.round_trip_time {
        Some(r) => r as int,
        None => 0,
    }
}

/// The smallest round-trip time in `c`; zero for an empty list.
pub open spec fn min_rtt(c: Seq<ServerView>) -> int
    decreases c.len(),
{
    if c.len() == 0 {
        0
    } else if c.len() == 1 {
        rtt(c[0])
    } else {
        let m = min_rtt(c.drop_last());
        if rtt(c.last()) < m {
            rtt(c.last())
        } else {
            m
        }
    }
}

/// The candidates within the latency window of the fastest one.
pub open spec fn in_window(c: Seq<ServerView>) -> Seq<ServerView> {
    keep_if(c, |x: ServerView| rtt(x) <= min_rtt(c) + LATENCY_WINDOW_MS)
}

/// The outcome of selection: an incompatible candidate is an error; otherwise the
/// server at position `random` modulo the window's size, or none when nothing fits.
pub open spec fn selection(t: TopologyView, pref: ReadPreference, now: u64, random: u64) -> Result<
    Option<AddressView>,
    AddressView,
> {
    let c = candidates(t, pref, now);
    match first_incompatible(c) {
        Some(a) => Err(a),
        None => {
            let w = in_window(c);
            if w.len() == 0 {
                Ok(None)
            } else {
                Ok(Some(w[(random as int) % (w.len() as int)].address))
            }
        },
    }
}


fn carries_tag(tags: &Vec<Tag>, t: &Tag) -> (r: bool)
    ensures
        r == has_tag(tags@, *t),
{
    let mut i: usize = 0;
    while i < tags.len()
        invariant
            i <= tags@.len(),
            forall|j: int|
                0 <= j < i ==> !(tags@[j].name@ == t.name@ && tags@[j].value@ == t.value@),
        decreases tags.len() - i,
    {
        if tags[i].name == t.name && tags[i].value == t.value {
            return true;
        }
        i = i + 1;
    }
    false
}

fn carries_all_tags(tags: &Vec<Tag>, set: &Vec<Tag>) -> (r: bool)
    ensures
        r == carries_all(tags@, set@),
{
    let mut i: usize = 0;
    while i < set.len()
        invariant
            i <= set@.len(),
            forall|j: int| 0 <= j < i ==> has_tag(tags@, #[trigger] set@[j]),
        decreases set.len() - i,
    {
        if !carries_tag(tags, &set[i]) {
            return false;
        }
        i = i + 1;
    }
    true
}

/// Whether a server with these tags matches the tag sets.
pub fn tags_match(tags: &Vec<Tag>, tag_sets: &Vec<Vec<Tag>>) -> (r: bool)
    ensures
        r == matches_tags(tags@, tag_set_views(tag_sets@)),
{
    if tag_sets.len() == 0 {
        return true;
    }
    let ghost v = tag_set_views(tag_sets@);
    let mut k: usize = 0;
    while k < tag_sets.len()
        invariant
            k <= tag_sets@.len(),
            v == tag_set_views(tag_sets@),
            forall|j: int| 0 <= j < k ==> !carries_all(tags@, #[trigger] v[j]),
        decreases tag_sets.len() - k,
    {
        if carries_all_tags(tags, &tag_sets[k]) {
            assert(carries_all(tags@, v[k as int]));
            return true;
        }
        k = k + 1;
    }
    false
}

fn is_usable_primary(x: &ServerDescription, pref: &ReadPreference) -> (r: bool)
    ensures
        r == usable_primary(x@, *pref),
{
    let role = match x.server_type {
        ServerType::RSPrimary | ServerType::Standalone | ServerType::Mongos => true,
        _ => false,
    };
    role && tags_match(&x.tags, &pref.tag_sets)
}

fn is_usable_secondary(x: &ServerDescription, pref: &ReadPreference, now: u64) -> (r: bool)
    ensures
        r == usable_secondary(x@, *pref, now),
{
    let fresh = match pref.max_staleness {
        Some(m) => now < x.last_update_time || now - x.last_update_time <= m,
        None => true,
    };
    let role = match x.server_type {
        ServerType::RSSecondary => fresh,
        ServerType::Standalone | ServerType::Mongos => true,
        _ => false,
    };
    role && tags_match(&x.tags, &pref.tag_sets)
}

/// Whether some server may serve a read for the primary (`want_primary`) or for a secondary.
fn any_usable(servers: &Vec<ServerDescription>, pref: &ReadPreference, now: u64, want_primary: bool) -> (r: bool)
    ensures
        r == if want_primary {
            has_usable_primary(views(servers@), *pref)
        } else {
            has_usable_secondary(views(servers@), *pref, now)
        },
{
    let mut i: usize = 0;
    while i < servers.len()
        invariant
            i <= servers@.len(),
            forall|j: int|
                0 <= j < i ==> !(if want_primary {
                    usable_primary(#[trigger] views(servers@)[j], *pref)
                } else {
                    usable_secondary(views(servers@)[j], *pref, now)
                }),
        decreases servers.len() - i,
    {
        let ok = if want_primary {
            is_usable_primary(&servers[i], pref)
        } else {
            is_usable_secondary(&servers[i], pref, now)
        };
        if ok {
            assert(views(servers@)[i as int] == servers@[i as int]@);
            return true;
        }
        i = i + 1;
    }
    false
}

/// The servers that may serve the read, in the topology's order.
fn collect_candidates(t: &TopologyDescription, pref: &ReadPreference, now: u64) -> (r: Vec<
    ServerDescription,
>)
    ensures
        views(r@) == candidates(t@, *pref, now),
{
    let ghost p = |x: ServerView| eligible(t@, *pref, now, x);
    let ghost s = t@.servers;
    let has_p = any_usable(&t.servers, pref, now, true);
    let has_s = any_usable(&t.servers, pref, now, false);
    let mut r: Vec<ServerDescription> = Vec::new();
    let mut i: usize = 0;
    assert(s.take(0) =~= Seq::<ServerView>::empty());
    while i < t.servers.len()
        invariant
            i <= t@.servers.len(),
            s == t@.servers,
            s == views(t.servers@),
            has_p == has_usable_primary(s, *pref),
            has_s == has_usable_secondary(s, *pref, now),
            p == (|x: ServerView| eligible(t@, *pref, now, x)),
            views(r@) == keep_if(s.take(i as int), p),
        decreases t.servers.len() - i,
    {
        let x = &t.servers[i];
        assert(s.take(i + 1).drop_last() =~= s.take(i as int));
        assert(s.take(i + 1).last() == x@);
        let primary = is_usable_primary(x, pref);
        let secondary = is_usable_secondary(x, pref, now);
        let by_mode = match pref.mode {
            ReadMode::Primary => primary,
            ReadMode::Secondary => secondary,
            ReadMode::Nearest => primary || secondary,
            ReadMode::PrimaryPreferred => if has_p {
                primary
            } else {
                secondary
            },
            ReadMode::SecondaryPreferred => if has_s {
                secondary
            } else {
                primary
            },
        };
        let ok = match t.topology_type {
            TopologyType::Unknown => false,
            TopologyType::Sharded => by_mode && x.server_type == ServerType::Mongos,
            _ => by_mode,
        };
        assert(ok == p(x@));
        if ok {
            r.push(x.duplicate());
        }
        i = i + 1;
        assert(views(r@) =~= keep_if(s.take(i as int), p));
    }
    assert(s.take(t@.servers.len() as int) =~= s);
    r
}


fn rtt_of(x: &ServerDescription) -> (r: u64)
    ensures
        r as int == rtt(x@),
{
    match x.round_trip_time {
        Some(r) => r,
        None => 0,
    }
}

/// The position of the first candidate that the driver cannot speak to.
fn find_incompatible(c: &Vec<ServerDescription>) -> (r: Option<usize>)
    ensures
        match r {
            Some(i) => i < c@.len() && first_incompatible(views(c@)) == Some(
                views(c@)[i as int].address,
            ),
            None => first_incompatible(views(c@)) == None::<AddressView>,
        },
{
    let ghost s = views(c@);
    let mut i: usize = 0;
    assert(s.take(0) =~= Seq::<ServerView>::empty());
    while i < c.len()
        invariant
            i <= c@.len(),
            s == views(c@),
            first_incompatible(s.take(i as int)) == None::<AddressView>,
        decreases c.len() - i,
    {
        assert(s.take(i + 1).drop_last() =~= s.take(i as int));
        if !c[i].is_compatible() {
            proof {
                lemma_first_incompatible_prefix(s, (i + 1) as int);
            }
            return Some(i);
        }
        i = i + 1;
    }
    assert(s.take(c@.len() as int) =~= s);
    None
}

/// Where a prefix already holds an incompatible server, the whole list names the same one.
proof fn lemma_first_incompatible_prefix(s: Seq<ServerView>, n: int)
    requires
        0 <= n <= s.len(),
    ensures
        first_incompatible(s.take(n)) is Some ==> first_incompatible(s) == first_incompatible(
            s.take(n),
        ),
    decreases s.len() - n,
{
    if n < s.len() {
        lemma_first_incompatible_prefix(s, n + 1);
        assert(s.take(n + 1).drop_last() =~= s.take(n));
    } else {
        assert(s.take(n) =~= s);
    }
}

/// The smallest round-trip time among the candidates.
fn fastest(c: &Vec<ServerDescription>) -> (r: u64)
    ensures
        r as int == min_rtt(views(c@)),
        forall|j: int| 0 <= j < c@.len() ==> r <= rtt(#[trigger] views(c@)[j]),
{
    let ghost s = views(c@);
    if c.len() == 0 {
        return 0;
    }
    let mut m = rtt_of(&c[0]);
    let mut i: usize = 1;
    assert(s.take(1).len() == 1);
    while i < c.len()
        invariant
            1 <= i <= c@.len(),
            s == views(c@),
            m as int == min_rtt(s.take(i as int)),
            forall|j: int| 0 <= j < i ==> m <= rtt(#[trigger] s[j]),
        decreases c.len() - i,
    {
        assert(s.take(i + 1).drop_last() =~= s.take(i as int));
        let x = rtt_of(&c[i]);
        if x < m {
            m = x;
        }
        i = i + 1;
    }
    assert(s.take(c@.len() as int) =~= s);
    m
}

/// The candidates within the latency window of the fastest one.
fn window(c: &Vec<ServerDescription>) -> (r: Vec<ServerDescription>)
    ensures
        views(r@) == in_window(views(c@)),
{
    let ghost s = views(c@);
    let ghost p = |x: ServerView| rtt(x) <= min_rtt(s) + LATENCY_WINDOW_MS;
    let m = fastest(c);
    let mut r: Vec<ServerDescription> = Vec::new();
    let mut i: usize = 0;
    assert(s.take(0) =~= Seq::<ServerView>::empty());
    while i < c.len()
        invariant
            i <= c@.len(),
            s == views(c@),
            m as int == min_rtt(s),
            forall|j: int| 0 <= j < c@.len() ==> m <= rtt(#[trigger] s[j]),
            p == (|x: ServerView| rtt(x) <= min_rtt(s) + LATENCY_WINDOW_MS),
            views(r@) == keep_if(s.take(i as int), p),
        decreases c.len() - i,
    {
        assert(s.take(i + 1).drop_last() =~= s.take(i as int));
        assert(s.take(i + 1).last() == c@[i as int]@);
        let x = rtt_of(&c[i]);
        assert(m <= rtt(s[i as int]));
        if x - m <= LATENCY_WINDOW_MS {
            r.push(c[i].duplicate());
        }
        i = i + 1;
        assert(views(r@) =~= keep_if(s.take(i as int), p));
    }
    assert(s.take(c@.len() as int) =~= s);
    r
}

/// Chooses a server for a read: the error names an incompatible candidate; `Ok(None)`
/// says that no server fits yet. `now` is the descriptions' logical clock; `random` picks
/// among the servers in the latency window.
pub fn select_server(t: &TopologyDescription, pref: &ReadPreference, now: u64, random: u64) -> (r: Result<
    Option<Address>,
    Error,
>)
    ensures
        match (r, selection(t@, *pref, now, random)) {
            (Ok(Some(a)), Ok(Some(v))) => a@ == v,
            (Ok(None), Ok(None)) => true,
            (Err(Error::IncompatibleServer(a)), Err(v)) => a@ == v,
            _ => false,
        },
{
    let c = collect_candidates(t, pref, now);
    match find_incompatible(&c) {
        Some(i) => {
            return Err(Error::IncompatibleServer(c[i].address.duplicate()));
        },
        None => {},
    }
    let w = window(&c);
    if w.len() == 0 {
        Ok(None)
    } else {
        let k = (random % (w.len() as u64)) as usize;
        Ok(Some(w[k].address.duplicate()))
    }
}


/// What a waiting selection does after one attempt.
#[derive(Clone, Debug, PartialEq, Eq)]
pub enum SelectionStep {
    /// Use this server.
    Selected(Address),
    /// Wait for the next topology change and try again.
    Wait,
    /// Give up with this error.
    Fail(Error),
}

/// Decides, after an attempt that found `found` at `elapsed_ms` into a wait bounded by
/// `timeout_ms`, whether to use a server, wait on, or fail.
pub fn selection_step(found: Result<Option<Address>, Error>, elapsed_ms: u64, timeout_ms: u64) -> (r:
    SelectionStep)
    ensures
        match found {
            Ok(Some(a)) => r == SelectionStep::Selected(a),
            Err(e) => r == SelectionStep::Fail(e),
            Ok(None) => if elapsed_ms >= timeout_ms {
                r == SelectionStep::Fail(Error::SelectionTimeout)
            } else {
                r == SelectionStep::Wait
            },
        },
{
    match found {
        Ok(Some(a)) => SelectionStep::Selected(a),
        Err(e) => SelectionStep::Fail(e),
        Ok(None) => if elapsed_ms >= timeout_ms {
            SelectionStep::Fail(Error::SelectionTimeout)
        } else {
            SelectionStep::Wait
        },
    }
}

} // verus!
