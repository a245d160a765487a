use mongodb::error::Error;
use mongodb::monitor::{describe, ProbeOutcome};
use mongodb::server::{Address, HeartbeatReply, ServerDescription, ServerType, Tag};
use mongodb::topology::{TopologyDescription, TopologyType};

fn addr(host: &str, port: u16) -> Address {
    Address::new(host.to_string(), port)
}

fn reply() -> HeartbeatReply {
    HeartbeatReply {
        ismaster: false,
        secondary: false,
        arbiter_only: false,
        is_replica_set: false,
        msg: None,
        set_name: None,
        set_version: None,
        election_id: None,
        hosts: Vec::new(),
        passives: Vec::new(),
        arbiters: Vec::new(),
        tags: Vec::new(),
        min_wire_version: 0,
        max_wire_version: 6,
    }
}

fn primary(set: &str, hosts: Vec<Address>) -> HeartbeatReply {
    let mut r = reply();
    r.ismaster = true;
    r.set_name = Some(set.to_string());
    r.hosts = hosts;
    r
}

fn secondary(set: &str, hosts: Vec<Address>) -> HeartbeatReply {
    let mut r = reply();
    r.secondary = true;
    r.set_name = Some(set.to_string());
    r.hosts = hosts;
    r
}

fn seen(a: &Address, r: HeartbeatReply, now: u64) -> ServerDescription {
    ServerDescription::from_reply(a.clone(), r, 5, now)
}

fn entry<'a>(t: &'a TopologyDescription, a: &Address) -> Option<&'a ServerDescription> {
    t.servers.iter().find(|s| s.address == *a)
}

fn count(t: &TopologyDescription, ty: ServerType) -> usize {
    t.servers.iter().filter(|s| s.server_type == ty).count()
}

fn abc() -> (Address, Address, Address) {
    (addr("a", 27017), addr("b", 27017), addr("c", 27017))
}

#[test]
fn single_seed_standalone_becomes_single() {
    let a = addr("localhost", 27017);
    let t = TopologyDescription::new(&vec![a.clone()], None, 0);
    assert_eq!(t.topology_type, TopologyType::Unknown);
    let mut r = reply();
    r.ismaster = true;
    let out = t.update(seen(&a, r, 1));
    let t = out.topology;
    assert_eq!(t.topology_type, TopologyType::Single);
    assert_eq!(t.servers.len(), 1);
    assert_eq!(t.servers[0].server_type, ServerType::Standalone);
    assert!(out.added.is_empty());
    assert!(out.removed.is_empty());
}

#[test]
fn three_seeds_converge_on_one_primary() {
    let (a, b, c) = abc();
    let hosts = vec![a.clone(), b.clone(), c.clone()];
    let mut t = TopologyDescription::new(&hosts, None, 0);
    t = t.update(seen(&a, primary("rs0", hosts.clone()), 1)).topology;
    t = t.update(seen(&b, secondary("rs0", hosts.clone()), 2)).topology;
    t = t.update(seen(&c, secondary("rs0", hosts.clone()), 3)).topology;
    assert_eq!(t.topology_type, TopologyType::ReplicaSetWithPrimary);
    assert_eq!(count(&t, ServerType::RSPrimary), 1);
    assert_eq!(count(&t, ServerType::RSSecondary), 2);
    assert_eq!(t.set_name, Some("rs0".to_string()));
}

#[test]
fn stale_primary_is_demoted() {
    let (a, b, _) = abc();
    let hosts = vec![a.clone(), b.clone()];
    let t = TopologyDescription::new(&hosts, None, 0);
    let mut fresh = primary("rs0", hosts.clone());
    fresh.set_version = Some(1);
    fresh.election_id = Some(2);
    let t = t.update(seen(&a, fresh, 1)).topology;
    assert_eq!(t.max_election_id, Some(2));
    let mut old = primary("rs0", hosts.clone());
    old.set_version = Some(1);
    old.election_id = Some(1);
    let out = t.update(seen(&a, old, 2));
    let t2 = out.topology;
    assert_eq!(entry(&t2, &a).unwrap().server_type, ServerType::Unknown);
    assert_eq!(t2.max_election_id, Some(2));
    assert_eq!(t2.max_set_version, Some(1));
    assert_eq!(t2.topology_type, TopologyType::ReplicaSetWithPrimary);
    assert!(out.added.is_empty() && out.removed.is_empty());
}

#[test]
fn failed_probe_leaves_unknown_with_error() {
    let a = addr("a", 27017);
    let d = describe(a.clone(), ProbeOutcome::Failed(Error::NetworkFailure("timed out".to_string())), 7);
    assert_eq!(d.server_type, ServerType::Unknown);
    assert_eq!(d.last_error, Some(Error::NetworkFailure("timed out".to_string())));
    assert!(d.hosts.is_empty() && d.passives.is_empty() && d.arbiters.is_empty());
    assert_eq!(d.set_version, None);
    assert_eq!(d.election_id, None);
    assert_eq!(d.last_update_time, 7);
}

#[test]
fn newer_primary_demotes_older() {
    let (a, b, _) = abc();
    let hosts = vec![a.clone(), b.clone()];
    let t = TopologyDescription::new(&hosts, None, 0);
    let mut pa = primary("rs0", hosts.clone());
    pa.set_version = Some(1);
    pa.election_id = Some(1);
    let t = t.update(seen(&a, pa, 1)).topology;
    let mut pb = primary("rs0", hosts.clone());
    pb.set_version = Some(1);
    pb.election_id = Some(2);
    let t = t.update(seen(&b, pb, 2)).topology;
    assert_eq!(count(&t, ServerType::RSPrimary), 1);
    assert_eq!(entry(&t, &b).unwrap().server_type, ServerType::RSPrimary);
    assert_eq!(entry(&t, &a).unwrap().server_type, ServerType::Unknown);
    assert_eq!(t.max_election_id, Some(2));
}

#[test]
fn set_name_mismatch_drops_node() {
    let (a, b, _) = abc();
    let hosts = vec![a.clone(), b.clone()];
    let t = TopologyDescription::new(&hosts, Some("rs0".to_string()), 0);
    assert_eq!(t.topology_type, TopologyType::ReplicaSetNoPrimary);
    let out = t.update(seen(&b, secondary("other", vec![b.clone()]), 1));
    assert_eq!(out.topology.set_name, Some("rs0".to_string()));
    assert!(entry(&out.topology, &b).is_none());
    assert_eq!(out.removed, vec![b.clone()]);
    assert_eq!(out.topology.servers.len(), 1);
}

#[test]
fn same_reply_twice_gives_same_topology() {
    let (a, b, c) = abc();
    let t = TopologyDescription::new(&vec![a.clone()], None, 0);
    let mut p = primary("rs0", vec![a.clone(), b.clone(), c.clone()]);
    p.set_version = Some(3);
    p.election_id = Some(9);
    let d = seen(&a, p, 1);
    let once = t.update(d.clone()).topology;
    let twice = once.clone().update(d).topology;
    assert_eq!(once, twice);
    assert_eq!(once.servers.len(), 3);
}

#[test]
fn primary_adds_and_removes_members() {
    let (a, b, c) = abc();
    let d = addr("d", 27017);
    let t = TopologyDescription::new(&vec![a.clone(), d.clone()], None, 0);
    let out = t.update(seen(&a, primary("rs0", vec![a.clone(), b.clone(), c.clone()]), 1));
    assert_eq!(out.added, vec![b.clone(), c.clone()]);
    assert_eq!(out.removed, vec![d.clone()]);
    assert_eq!(out.topology.servers.len(), 3);
    assert_eq!(out.topology.topology_type, TopologyType::ReplicaSetWithPrimary);
}

#[test]
fn primary_missing_from_own_hosts_is_demoted() {
    let (a, b, _) = abc();
    let t = TopologyDescription::new(&vec![a.clone()], None, 0);
    let out = t.update(seen(&a, primary("rs0", vec![b.clone()]), 1));
    let t = out.topology;
    assert_eq!(t.topology_type, TopologyType::ReplicaSetNoPrimary);
    assert_eq!(entry(&t, &a).unwrap().server_type, ServerType::Unknown);
    assert!(entry(&t, &b).is_some());
    assert_eq!(out.added, vec![b.clone()]);
}

#[test]
fn secondaries_never_remove() {
    let (a, b, c) = abc();
    let t = TopologyDescription::new(&vec![a.clone(), c.clone()], None, 0);
    let out = t.update(seen(&a, secondary("rs0", vec![a.clone(), b.clone()]), 1));
    assert!(out.removed.is_empty());
    assert_eq!(out.added, vec![b.clone()]);
    assert_eq!(out.topology.servers.len(), 3);
    assert_eq!(out.topology.topology_type, TopologyType::ReplicaSetNoPrimary);
}

#[test]
fn untracked_address_is_ignored() {
    let (a, b, _) = abc();
    let t = TopologyDescription::new(&vec![a.clone()], None, 0);
    let mut r = reply();
    r.ismaster = true;
    let out = t.clone().update(seen(&b, r, 1));
    assert_eq!(out.topology, t);
}

#[test]
fn standalone_among_several_seeds_is_dropped() {
    let (a, b, _) = abc();
    let t = TopologyDescription::new(&vec![a.clone(), b.clone()], None, 0);
    let mut r = reply();
    r.ismaster = true;
    let out = t.update(seen(&a, r, 1));
    assert_eq!(out.topology.topology_type, TopologyType::Unknown);
    assert_eq!(out.removed, vec![a.clone()]);
    assert_eq!(out.topology.servers.len(), 1);
}

#[test]
fn router_makes_topology_sharded() {
    let (a, b, _) = abc();
    let t = TopologyDescription::new(&vec![a.clone(), b.clone()], None, 0);
    let mut r = reply();
    r.ismaster = true;
    r.msg = Some("isdbgrid".to_string());
    let t = t.update(seen(&a, r, 1)).topology;
    assert_eq!(t.topology_type, TopologyType::Sharded);
    assert_eq!(entry(&t, &a).unwrap().server_type, ServerType::Mongos);
    let out = t.update(seen(&b, secondary("rs0", vec![]), 2));
    assert_eq!(out.removed, vec![b.clone()]);
}

#[test]
fn ghost_is_kept_as_unknown() {
    let (a, b, _) = abc();
    let t = TopologyDescription::new(&vec![a.clone(), b.clone()], None, 0);
    let mut r = reply();
    r.is_replica_set = true;
    r.hosts = vec![b.clone()];
    let t = t.update(seen(&a, r, 1)).topology;
    assert_eq!(t.topology_type, TopologyType::Unknown);
    let e = entry(&t, &a).unwrap();
    assert_eq!(e.server_type, ServerType::Unknown);
    assert!(e.hosts.is_empty());
}

#[test]
fn primary_loss_leaves_no_primary() {
    let (a, b, _) = abc();
    let hosts = vec![a.clone(), b.clone()];
    let t = TopologyDescription::new(&hosts, None, 0);
    let t = t.update(seen(&a, primary("rs0", hosts.clone()), 1)).topology;
    assert_eq!(t.topology_type, TopologyType::ReplicaSetWithPrimary);
    let failed = ServerDescription::from_failure(a.clone(), Error::NetworkFailure("reset".to_string()), 2);
    let t = t.update(failed).topology;
    assert_eq!(t.topology_type, TopologyType::ReplicaSetNoPrimary);
    assert_eq!(t.servers.len(), 2);
}

#[test]
fn duplicate_and_empty_seeds() {
    let a = addr("a", 1);
    let t = TopologyDescription::new(&vec![a.clone(), a.clone()], None, 0);
    assert_eq!(t.servers.len(), 1);
    assert!(t.single_seed);
    let t = TopologyDescription::new(&Vec::new(), None, 0);
    assert!(t.servers.is_empty());
    assert!(!t.single_seed);
}

#[test]
fn classification_of_replies() {
    let mut r = reply();
    assert_eq!(r.classify(), ServerType::Standalone);
    r.is_replica_set = true;
    assert_eq!(r.classify(), ServerType::RSGhost);
    r.arbiter_only = true;
    assert_eq!(r.classify(), ServerType::RSArbiter);
    r.ismaster = true;
    assert_eq!(r.classify(), ServerType::Standalone);
    r.ismaster = false;
    r.arbiter_only = false;
    r.set_name = Some("rs".to_string());
    assert_eq!(r.classify(), ServerType::RSOther);
    r.arbiter_only = true;
    assert_eq!(r.classify(), ServerType::RSArbiter);
    r.secondary = true;
    assert_eq!(r.classify(), ServerType::RSSecondary);
    r.ismaster = true;
    assert_eq!(r.classify(), ServerType::RSPrimary);
    r.msg = Some("isdbgrid".to_string());
    assert_eq!(r.classify(), ServerType::Mongos);
    r.msg = Some("isdbgrie".to_string());
    assert_eq!(r.classify(), ServerType::RSPrimary);
}

#[test]
fn marked_member_of_another_set_is_dropped() {
    let (a, b, _) = abc();
    let hosts = vec![a.clone(), b.clone()];
    let t = TopologyDescription::new(&hosts, Some("rs0".to_string()), 0);
    let mut r = primary("other", hosts.clone());
    r.is_replica_set = true;
    let out = t.update(seen(&b, r, 1));
    assert!(entry(&out.topology, &b).is_none());
    assert_eq!(out.topology.set_name, Some("rs0".to_string()));
}

#[test]
fn dropping_the_primary_leaves_no_primary() {
    let (a, b, _) = abc();
    let hosts = vec![a.clone(), b.clone()];
    let t = TopologyDescription::new(&hosts, None, 0);
    let t = t.update(seen(&a, primary("rs0", hosts.clone()), 1)).topology;
    assert_eq!(t.topology_type, TopologyType::ReplicaSetWithPrimary);
    let mut r = reply();
    r.ismaster = true;
    let out = t.update(seen(&a, r, 2));
    assert_eq!(out.removed, vec![a.clone()]);
    assert_eq!(out.topology.topology_type, TopologyType::ReplicaSetNoPrimary);
    assert_eq!(out.topology.servers.len(), 1);
}

#[test]
fn same_reply_later_differs_only_in_times() {
    let (a, b, _) = abc();
    let hosts = vec![a.clone(), b.clone()];
    let t = TopologyDescription::new(&hosts, None, 0);
    let r = primary("rs0", hosts.clone());
    let once = t.update(ServerDescription::from_reply(a.clone(), r.clone(), 5, 1)).topology;
    let twice = once.clone().update(ServerDescription::from_reply(a.clone(), r, 9, 2)).topology;
    assert_eq!(twice.topology_type, once.topology_type);
    assert_eq!(twice.set_name, once.set_name);
    assert_eq!(twice.servers.len(), once.servers.len());
    for (x, y) in once.servers.iter().zip(twice.servers.iter()) {
        let mut y = y.clone();
        y.last_update_time = x.last_update_time;
        y.round_trip_time = x.round_trip_time;
        assert_eq!(*x, y);
    }
    assert_eq!(entry(&twice, &a).unwrap().round_trip_time, Some(9));
}

#[test]
fn reply_description_keeps_fields() {
    let (a, b, c) = abc();
    let mut r = primary("rs0", vec![a.clone()]);
    r.passives = vec![b.clone()];
    r.arbiters = vec![c.clone()];
    r.tags = vec![Tag::new("dc".to_string(), "east".to_string())];
    let d = ServerDescription::from_reply(a.clone(), r, 12, 4);
    assert_eq!(d.members(), vec![a.clone(), b.clone(), c.clone()]);
    assert_eq!(d.round_trip_time, Some(12));
    assert_eq!(d.last_update_time, 4);
    assert_eq!(d.last_error, None);
    let u = d.demoted();
    assert_eq!(u.server_type, ServerType::Unknown);
    assert!(u.hosts.is_empty() && u.tags.is_empty());
    assert_eq!(u.address, a);
}

#[test]
fn wire_version_compatibility() {
    let a = addr("a", 1);
    let mut r = reply();
    r.min_wire_version = 7;
    r.max_wire_version = 9;
    assert!(!ServerDescription::from_reply(a.clone(), r.clone(), 1, 1).is_compatible());
    r.min_wire_version = 6;
    assert!(ServerDescription::from_reply(a.clone(), r.clone(), 1, 1).is_compatible());
    r.min_wire_version = -3;
    r.max_wire_version = -1;
    assert!(!ServerDescription::from_reply(a.clone(), r, 1, 1).is_compatible());
    assert!(ServerDescription::new(a, 0).is_compatible());
}
