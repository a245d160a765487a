//! Addresses, heartbeat replies and the server descriptions built from them.

use vstd::prelude::*;

use crate::error::Error;

verus! {

/// The identity of a node: host name and port.
#[derive(Clone, Debug, PartialEq, Eq, Hash)]
pub struct Address {
    pub host: String,
    pub port: u16,
}

/// The mathematical form of an address.
pub type AddressView = (Seq<char>, u16);

impl View for Address {
    type V = AddressView;

    open spec fn view(&self) -> AddressView {
        (self.host@, self.port)
    }
}

impl Address {
    pub fn new(host: String, port: u16) -> (r: Address)
        ensures
            r.host == host,
            r.port == port,
    {
        Address { host, port }
    }

    /// An identical copy of the address.
    pub fn duplicate(&self) -> (r: Address)
        ensures
            r == *self,
            r@ == self@,
    {
        Address { host: self.host.clone(), port: self.port }
    }

    /// Whether two addresses name the same node.
    pub fn same(&self, other: &Address) -> (r: bool)
        ensures
            r == (self@ == other@),
    {
        self.port == other.port && self.host == other.host
    }
}


/// The address views of a list of addresses.
pub open spec fn addrs(v: Seq<Address>) -> Seq<AddressView> {
    v.map_values(|a: Address| a@)
}

/// Copies a list of addresses, keeping each one.
fn copy_addresses(v: &Vec<Address>) -> (r: Vec<Address>)
    ensures
        r@ == v@,
{
    let mut r: Vec<Address> = Vec::new();
    let mut i: usize = 0;
    while i < v.len()
        invariant
            i <= v.len(),
            r@ == v@.take(i as int),
        decreases v.len() - i,
    {
        r.push(v[i].duplicate());
        i = i + 1;
        assert(r@ =~= v@.take(i as int));
    }
    assert(v@.take(v.len() as int) =~= v@);
    r
}

/// A label attached to a node, matched by read preferences.
#[derive(Clone, Debug, PartialEq, Eq, Hash)]
pub struct Tag {
    pub name: String,
    pub value: String,
}

impl Tag {
    pub fn new(name: String, value: String) -> (r: Tag)
        ensures
            r.name == name,
            r.value == value,
    {
        Tag { name, value }
    }

    pub fn duplicate(&self) -> (r: Tag)
        ensures
            r == *self,
    {
        Tag { name: self.name.clone(), value: self.value.clone() }
    }
}

/// Copies a list of tags, keeping each one.
fn copy_tags(v: &Vec<Tag>) -> (r: Vec<Tag>)
    ensures
        r@ == v@,
{
    let mut r: Vec<Tag> = Vec::new();
    let mut i: usize = 0;
    while i < v.len()
        invariant
            i <= v.len(),
            r@ == v@.take(i as int),
        decreases v.len() - i,
    {
        r.push(v[i].duplicate());
        i = i + 1;
        assert(r@ =~= v@.take(i as int));
    }
    assert(v@.take(v.len() as int) =~= v@);
    r
}

/// The role of one node, as its latest heartbeat shows it.
#[derive(PartialEq, Eq, Structural, Clone, Copy, Debug)]
pub enum ServerType {
    Unknown,
    Standalone,
    Mongos,
    RSPrimary,
    RSSecondary,
    RSArbiter,
    RSOther,
    RSGhost,
    PossiblePrimary,
}

/// Whether the type belongs to a member of a replica set that reports its set name.
pub open spec fn is_rs_member_type(t: ServerType) -> bool {
    t == ServerType::RSPrimary || t == ServerType::RSSecondary || t == ServerType::RSArbiter
        || t == ServerType::RSOther
}

/// The fields of a heartbeat reply that classification reads.
#[derive(Clone, Debug, PartialEq, Eq)]
pub struct HeartbeatReply {
    pub ismaster: bool,
    pub secondary: bool,
    pub arbiter_only: bool,
    pub is_replica_set: bool,
    pub msg: Option<String>,
    pub set_name: Option<String>,
    pub set_version: Option<i64>,
    pub election_id: Option<u64>,
    pub hosts: Vec<Address>,
    pub passives: Vec<Address>,
    pub arbiters: Vec<Address>,
    pub tags: Vec<Tag>,
    pub min_wire_version: i32,
    pub max_wire_version: i32,
}

/// The view of an optional string.
pub open spec fn opt_str(o: Option<String>) -> Option<Seq<char>> {
    match o {
        Some(s) => Some(s@),
        None => None,
    }
}

/// The text that a router puts in the `msg` field of its reply.
pub open spec fn router_marker() -> Seq<char> {
    seq!['i', 's', 'd', 'b', 'g', 'r', 'i', 'd']
}

/// The server type that a successful reply describes.
pub open spec fn classify(
    ismaster: bool,
    secondary: bool,
    arbiter_only: bool,
    is_replica_set: bool,
    msg: Option<Seq<char>>,
    set_name: Option<Seq<char>>,
) -> ServerType {
    if msg == Some(router_marker()) {
        ServerType::Mongos
    } else if set_name.is_some() {
        if ismaster {
            ServerType::RSPrimary
        } else if secondary {
            ServerType::RSSecondary
        } else if arbiter_only {
            ServerType::RSArbiter
        } else {
            ServerType::RSOther
        }
    } else if ismaster {
        ServerType::Standalone
    } else if arbiter_only {
        ServerType::RSArbiter
    } else if is_replica_set {
        ServerType::RSGhost
    } else {
        ServerType::Standalone
    }
}

impl HeartbeatReply {
    pub open spec fn server_type(&self) -> ServerType {
        classify(
            self.ismaster,
            self.secondary,
            self.arbiter_only,
            self.is_replica_set,
            opt_str(self.msg),
            opt_str(self.set_name),
        )
    }

    /// The server type that this reply describes.
    pub fn classify(&self) -> (r: ServerType)
        ensures
            r == self.server_type(),
    {
        let is_router = match &self.msg {
            Some(m) => is_router_marker(m),
            None => false,
        };
        if is_router {
            ServerType::Mongos
        } else if self.set_name.is_some() {
            if self.ismaster {
                ServerType::RSPrimary
            } else if self.secondary {
                ServerType::RSSecondary
            } else if self.arbiter_only {
                ServerType::RSArbiter
            } else {
                ServerType::RSOther
            }
        } else if self.ismaster {
            ServerType::Standalone
        } else if self.arbiter_only {
            ServerType::RSArbiter
        } else if self.is_replica_set {
            ServerType::RSGhost
        } else {
            ServerType::Standalone
        }
    }
}

/// Whether a string is the router marker.
fn is_router_marker(m: &String) -> (r: bool)
    ensures
        r == (m@ == router_marker()),
{
    let s = m.as_str();
    if s.unicode_len() != 8 {
        return false;
    }
    let expected = ['i', 's', 'd', 'b', 'g', 'r', 'i', 'd'];
    let mut i: usize = 0;
    while i < 8
        invariant
            i <= 8,
            s@.len() == 8,
            s@ == m@,
            expected@ == router_marker(),
            forall|j: int| 0 <= j < i ==> s@[j] == router_marker()[j],
        decreases 8 - i,
    {
        if s.get_char(i) != expected[i] {
            return false;
        }
        i = i + 1;
    }
    assert(s@ =~= router_marker());
    true
}


/// The lowest wire version this driver speaks.
pub const DRIVER_MIN_WIRE_VERSION: i32 = 0;

/// The highest wire version this driver speaks.
pub const DRIVER_MAX_WIRE_VERSION: i32 = 6;

/// A snapshot of one node's observed state, replaced whole on every heartbeat.
#[derive(Clone, Debug, PartialEq, Eq)]
pub struct ServerDescription {
    pub address: Address,
    pub server_type: ServerType,
    pub set_name: Option<String>,
    pub set_version: Option<i64>,
    pub election_id: Option<u64>,
    pub hosts: Vec<Address>,
    pub passives: Vec<Address>,
    pub arbiters: Vec<Address>,
    pub tags: Vec<Tag>,
    pub min_wire_version: i32,
    pub max_wire_version: i32,
    /// Latency of the heartbeat, in milliseconds.
    pub round_trip_time: Option<u64>,
    pub last_error: Option<Error>,
    /// Logical clock of the heartbeat that produced the description.
    pub last_update_time: u64,
}

/// The mathematical form of a server description.
pub struct ServerView {
    pub address: AddressView,
    pub server_type: ServerType,
    pub set_name: Option<Seq<char>>,
    pub set_version: Option<i64>,
    pub election_id: Option<u64>,
    pub hosts: Seq<AddressView>,
    pub passives: Seq<AddressView>,
    pub arbiters: Seq<AddressView>,
    pub tags: Seq<Tag>,
    pub min_wire_version: i32,
    pub max_wire_version: i32,
    pub round_trip_time: Option<u64>,
    pub last_error: Option<Error>,
    pub last_update_time: u64,
}

impl View for ServerDescription {
    type V = ServerView;

    open spec fn view(&self) -> ServerView {
        ServerView {
            address: self.address@,
            server_type: self.server_type,
            set_name: opt_str(self.set_name),
            set_version: self.set_version,
            election_id: self.election_id,
            hosts: addrs(self.hosts@),
            passives: addrs(self.passives@),
            arbiters: addrs(self.arbiters@),
            tags: self.tags@,
            min_wire_version: self.min_wire_version,
            max_wire_version: self.max_wire_version,
            round_trip_time: self.round_trip_time,
            last_error: self.last_error,
            last_update_time: self.last_update_time,
        }
    }
}

impl ServerView {
    /// Every address the node reports as a member of its set.
    pub open spec fn members(self) -> Seq<AddressView> {
        self.hosts + self.passives + self.arbiters
    }

    /// A description of type Unknown carries no membership or version data.
    pub open spec fn wf(self) -> bool {
        self.server_type == ServerType::Unknown ==> {
            &&& self.hosts.len() == 0
            &&& self.passives.len() == 0
            &&& self.arbiters.len() == 0
            &&& self.set_version.is_none()
            &&& self.election_id.is_none()
            &&& self.set_name.is_none()
        }
    }

    /// Whether the node's wire-version range overlaps the driver's.
    pub open spec fn compatible(self) -> bool {
        self.server_type == ServerType::Unknown || (self.min_wire_version
            <= DRIVER_MAX_WIRE_VERSION && self.max_wire_version >= DRIVER_MIN_WIRE_VERSION)
    }
}

/// The description of a node of which nothing is known.
pub open spec fn unknown_view(a: AddressView, now: u64, err: Option<Error>) -> ServerView {
    ServerView {
        address: a,
        server_type: ServerType::Unknown,
        set_name: None,
        set_version: None,
        election_id: None,
        hosts: Seq::empty(),
        passives: Seq::empty(),
        arbiters: Seq::empty(),
        tags: Seq::empty(),
        min_wire_version: 0,
        max_wire_version: 0,
        round_trip_time: None,
        last_error: err,
        last_update_time: now,
    }
}

/// The description that a successful reply gives.
pub open spec fn reply_view(a: AddressView, reply: HeartbeatReply, rtt: u64, now: u64) -> ServerView {
    ServerView {
        address: a,
        server_type: reply.server_type(),
        set_name: opt_str(reply.set_name),
        set_version: reply.set_version,
        election_id: reply.election_id,
        hosts: addrs(reply.hosts@),
        passives: addrs(reply.passives@),
        arbiters: addrs(reply.arbiters@),
        tags: reply.tags@,
        min_wire_version: reply.min_wire_version,
        max_wire_version: reply.max_wire_version,
        round_trip_time: Some(rtt),
        last_error: None,
        last_update_time: now,
    }
}

impl ServerDescription {
    /// The description of a node that has not answered yet.
    pub fn new(address: Address, now: u64) -> (r: ServerDescription)
        ensures
            r@ == unknown_view(address@, now, None),
            r@.wf(),
    {
        let r = ServerDescription {
            address,
            server_type: ServerType::Unknown,
            set_name: None,
            set_version: None,
            election_id: None,
            hosts: Vec::new(),
            passives: Vec::new(),
            arbiters: Vec::new(),
            tags: Vec::new(),
            min_wire_version: 0,
            max_wire_version: 0,
            round_trip_time: None,
            last_error: None,
            last_update_time: now,
        };
        assert(addrs(r.hosts@) =~= Seq::<AddressView>::empty());
        assert(r.tags@ =~= Seq::<Tag>::empty());
        r
    }

    /// The description that a failed heartbeat leaves: Unknown, with the error kept.
    pub fn from_failure(address: Address, err: Error, now: u64) -> (r: ServerDescription)
        ensures
            r@ == unknown_view(address@, now, Some(err)),
            r@.wf(),
    {
        let mut r = ServerDescription::new(address, now);
        r.last_error = Some(err);
        r
    }

    /// The description that a successful heartbeat reply gives.
    pub fn from_reply(address: Address, reply: HeartbeatReply, rtt: u64, now: u64) -> (r:
        ServerDescription)
        ensures
            r@ == reply_view(address@, reply, rtt, now),
            r@.wf(),
    {
        let server_type = reply.classify();
        ServerDescription {
            address,
            server_type,
            set_name: reply.set_name,
            set_version: reply.set_version,
            election_id: reply.election_id,
            hosts: reply.hosts,
            passives: reply.passives,
            arbiters: reply.arbiters,
            tags: reply.tags,
            min_wire_version: reply.min_wire_version,
            max_wire_version: reply.max_wire_version,
            round_trip_time: Some(rtt),
            last_error: None,
            last_update_time: now,
        }
    }

    /// The same node, demoted to Unknown with its data cleared.
    pub fn demoted(&self) -> (r: ServerDescription)
        ensures
            r@ == unknown_view(self@.address, self@.last_update_time, None),
            r@.wf(),
    {
        ServerDescription::new(self.address.duplicate(), self.last_update_time)
    }

    /// Every address the node reports: hosts, then passives, then arbiters.
    pub fn members(&self) -> (r: Vec<Address>)
        ensures
            addrs(r@) == self@.members(),
    {
        let mut r = copy_addresses(&self.hosts);
        let lists = [&self.passives, &self.arbiters];
        let mut k: usize = 0;
        while k < 2
            invariant
                k <= 2,
                lists@ == seq![&self.passives, &self.arbiters],
                addrs(r@) == if k == 0 {
                    self@.hosts
                } else if k == 1 {
                    self@.hosts + self@.passives
                } else {
                    self@.hosts + self@.passives + self@.arbiters
                },
            decreases 2 - k,
        {
            let v = lists[k];
            let ghost start = r@;
            let mut i: usize = 0;
            while i < v.len()
                invariant
                    i <= v@.len(),
                    r@ == start + v@.take(i as int),
                decreases v.len() - i,
            {
                r.push(v[i].duplicate());
                i = i + 1;
                assert(r@ =~= start + v@.take(i as int));
            }
            assert(v@.take(v@.len() as int) =~= v@);
            assert(addrs(start + v@) =~= addrs(start) + addrs(v@));
            k = k + 1;
        }
        r
    }

    /// Whether the node's wire-version range overlaps the driver's.
    pub fn is_compatible(&self) -> (r: bool)
        ensures
            r == self@.compatible(),
    {
        match self.server_type {
            ServerType::Unknown => true,
            _ => self.min_wire_version <= DRIVER_MAX_WIRE_VERSION && self.max_wire_version
                >= DRIVER_MIN_WIRE_VERSION,
        }
    }

    /// An identical copy of the description.
    pub fn duplicate(&self) -> (r: ServerDescription)
        ensures
            r@ == self@,
    {
        let set_name = match &self.set_name {
            Some(n) => Some(n.clone()),
            None => None,
        };
        let last_error = match &self.last_error {
            Some(e) => Some(e.duplicate()),
            None => None,
        };
        let hosts = copy_addresses(&self.hosts);
        let passives = copy_addresses(&self.passives);
        let arbiters = copy_addresses(&self.arbiters);
        let tags = copy_tags(&self.tags);
        ServerDescription {
            address: self.address.duplicate(),
            server_type: self.server_type,
            set_name,
            set_version: self.set_version,
            election_id: self.election_id,
            hosts,
            passives,
            arbiters,
            tags,
            min_wire_version: self.min_wire_version,
            max_wire_version: self.max_wire_version,
            round_trip_time: self.round_trip_time,
            last_error,
            last_update_time: self.last_update_time,
        }
    }
}

} // verus!
