use mongodb::error::Error;
use mongodb::monitor::{step, MonitorAction, MonitorEvent, MonitorState};
use mongodb::selection::{select_server, selection_step, tags_match, ReadMode, ReadPreference, SelectionStep};
use mongodb::server::{Address, HeartbeatReply, ServerDescription, Tag};
use mongodb::topology::TopologyDescription;

fn addr(host: &str) -> Address {
    Address::new(host.to_string(), 27017)
}

fn member(ismaster: bool, hosts: &[Address], rtt: u64, a: &Address, tags: Vec<Tag>) -> ServerDescription {
    let r = HeartbeatReply {
        ismaster,
        secondary: !ismaster,
        arbiter_only: false,
        is_replica_set: false,
        msg: None,
        set_name: Some("rs0".to_string()),
        set_version: None,
        election_id: None,
        hosts: hosts.to_vec(),
        passives: Vec::new(),
        arbiters: Vec::new(),
        tags,
        min_wire_version: 0,
        max_wire_version: 6,
    };
    ServerDescription::from_reply(a.clone(), r, rtt, 1)
}

fn pref(mode: ReadMode) -> ReadPreference {
    ReadPreference { mode, tag_sets: Vec::new(), max_staleness: None }
}

fn tag(n: &str, v: &str) -> Tag {
    Tag::new(n.to_string(), v.to_string())
}

/// a primary (rtt 10), b secondary (rtt 12, dc=east), c secondary (rtt 40, dc=west).
fn replica_set() -> TopologyDescription {
    let (a, b, c) = (addr("a"), addr("b"), addr("c"));
    let hosts = vec![a.clone(), b.clone(), c.clone()];
    let mut t = TopologyDescription::new(&hosts, None, 0);
    t = t.update(member(true, &hosts, 10, &a, vec![])).topology;
    t = t.update(member(false, &hosts, 12, &b, vec![tag("dc", "east")])).topology;
    t = t.update(member(false, &hosts, 40, &c, vec![tag("dc", "west")])).topology;
    t
}

#[test]
fn primary_mode_picks_primary() {
    let t = replica_set();
    assert_eq!(select_server(&t, &pref(ReadMode::Primary), 10, 5), Ok(Some(addr("a"))));
}

#[test]
fn nearest_uses_latency_window_and_random() {
    let t = replica_set();
    assert_eq!(select_server(&t, &pref(ReadMode::Nearest), 10, 0), Ok(Some(addr("a"))));
    assert_eq!(select_server(&t, &pref(ReadMode::Nearest), 10, 1), Ok(Some(addr("b"))));
    assert_eq!(select_server(&t, &pref(ReadMode::Nearest), 10, 2), Ok(Some(addr("a"))));
}

#[test]
fn secondary_mode_respects_tags() {
    let t = replica_set();
    let mut p = pref(ReadMode::Secondary);
    p.tag_sets = vec![vec![tag("dc", "west")]];
    assert_eq!(select_server(&t, &p, 10, 0), Ok(Some(addr("c"))));
    p.tag_sets = vec![vec![tag("dc", "north")]];
    assert_eq!(select_server(&t, &p, 10, 0), Ok(None));
    p.mode = ReadMode::SecondaryPreferred;
    assert_eq!(select_server(&t, &p, 10, 0), Ok(None));
    p.tag_sets = vec![vec![tag("dc", "north")], vec![]];
    assert_eq!(select_server(&t, &p, 10, 0), Ok(Some(addr("b"))));
}

#[test]
fn tags_filter_primaries_too() {
    let t = replica_set();
    let mut p = pref(ReadMode::Nearest);
    p.tag_sets = vec![vec![tag("dc", "east")]];
    assert_eq!(select_server(&t, &p, 10, 0), Ok(Some(addr("b"))));
    assert_eq!(select_server(&t, &p, 10, 1), Ok(Some(addr("b"))));
    p.mode = ReadMode::Primary;
    assert_eq!(select_server(&t, &p, 10, 0), Ok(None));
    p.mode = ReadMode::PrimaryPreferred;
    assert_eq!(select_server(&t, &p, 10, 0), Ok(Some(addr("b"))));
}

#[test]
fn single_secondary_does_not_serve_primary_reads() {
    let a = addr("a");
    let t = TopologyDescription::new(&vec![a.clone()], None, 0);
    let mut standalone = member(true, &[], 3, &a, vec![]);
    standalone.server_type = mongodb::server::ServerType::Standalone;
    standalone.set_name = None;
    let t = t.update(standalone).topology;
    assert_eq!(select_server(&t, &pref(ReadMode::Primary), 10, 0), Ok(Some(a.clone())));
    assert_eq!(select_server(&t, &pref(ReadMode::Secondary), 10, 0), Ok(Some(a.clone())));
    let t = t.update(member(false, &[], 3, &a, vec![])).topology;
    assert_eq!(select_server(&t, &pref(ReadMode::Primary), 10, 0), Ok(None));
    assert_eq!(select_server(&t, &pref(ReadMode::Secondary), 10, 0), Ok(Some(a)));
}

#[test]
fn tag_set_matching() {
    let tags = vec![tag("dc", "east"), tag("rack", "1")];
    assert!(tags_match(&tags, &Vec::new()));
    assert!(tags_match(&tags, &vec![vec![tag("rack", "1"), tag("dc", "east")]]));
    assert!(!tags_match(&tags, &vec![vec![tag("rack", "2")]]));
    assert!(tags_match(&tags, &vec![vec![tag("rack", "2")], vec![]]));
}

#[test]
fn timed_out_primary_gives_selection_timeout() {
    let t = replica_set();
    let failed = ServerDescription::from_failure(addr("a"), Error::NetworkFailure("timed out".to_string()), 2);
    let t = t.update(failed).topology;
    let found = select_server(&t, &pref(ReadMode::Primary), 10, 0);
    assert_eq!(found, Ok(None));
    assert_eq!(selection_step(found.clone(), 10, 30000), SelectionStep::Wait);
    assert_eq!(selection_step(found, 30000, 30000), SelectionStep::Fail(Error::SelectionTimeout));
    assert_eq!(select_server(&t, &pref(ReadMode::PrimaryPreferred), 10, 0), Ok(Some(addr("b"))));
}

#[test]
fn incompatible_candidate_is_an_error() {
    let a = addr("a");
    let t = TopologyDescription::new(&vec![a.clone()], None, 0);
    let r = HeartbeatReply {
        ismaster: true,
        secondary: false,
        arbiter_only: false,
        is_replica_set: false,
        msg: None,
        set_name: None,
        set_version: None,
        election_id: None,
        hosts: Vec::new(),
        passives: Vec::new(),
        arbiters: Vec::new(),
        tags: Vec::new(),
        min_wire_version: 20,
        max_wire_version: 21,
    };
    let t = t.update(ServerDescription::from_reply(a.clone(), r, 1, 1)).topology;
    assert_eq!(select_server(&t, &pref(ReadMode::Primary), 10, 0), Err(Error::IncompatibleServer(a)));
}

#[test]
fn unknown_topology_selects_nothing() {
    let t = TopologyDescription::new(&vec![addr("a"), addr("b")], None, 0);
    assert_eq!(select_server(&t, &pref(ReadMode::Nearest), 10, 3), Ok(None));
}

#[test]
fn selection_step_passes_results_through() {
    assert_eq!(selection_step(Ok(Some(addr("x"))), 99, 1), SelectionStep::Selected(addr("x")));
    let e = Error::ProtocolFailure("bad reply".to_string());
    assert_eq!(selection_step(Err(e.clone()), 0, 1), SelectionStep::Fail(e));
}

#[test]
fn monitor_transitions() {
    assert_eq!(step(MonitorState::Idle, MonitorEvent::Started), (MonitorState::Probing, MonitorAction::Probe));
    assert_eq!(step(MonitorState::Probing, MonitorEvent::ProbeFinished), (MonitorState::Sleeping, MonitorAction::SubmitAndSleep));
    assert_eq!(step(MonitorState::Sleeping, MonitorEvent::IntervalElapsed), (MonitorState::Probing, MonitorAction::Probe));
    assert_eq!(step(MonitorState::Sleeping, MonitorEvent::CheckRequested), (MonitorState::Probing, MonitorAction::Probe));
    assert_eq!(step(MonitorState::Probing, MonitorEvent::CheckRequested), (MonitorState::Probing, MonitorAction::Wait));
    assert_eq!(step(MonitorState::Sleeping, MonitorEvent::ShutdownRequested), (MonitorState::Stopped, MonitorAction::Release));
    assert_eq!(step(MonitorState::Probing, MonitorEvent::ShutdownRequested), (MonitorState::Stopped, MonitorAction::Release));
    assert_eq!(step(MonitorState::Stopped, MonitorEvent::Started), (MonitorState::Stopped, MonitorAction::Wait));
}

#[test]
fn stale_secondaries_are_skipped() {
    let t = replica_set();
    let mut p = pref(ReadMode::Secondary);
    p.max_staleness = Some(5);
    assert_eq!(select_server(&t, &p, 6, 0), Ok(Some(addr("b"))));
    assert_eq!(select_server(&t, &p, 7, 0), Ok(None));
    p.mode = ReadMode::SecondaryPreferred;
    assert_eq!(select_server(&t, &p, 7, 0), Ok(Some(addr("a"))));
}
