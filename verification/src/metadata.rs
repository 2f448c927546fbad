//! The replicated cluster-metadata state machine: topics with their segment
//! bookkeeping, the node directory, and the user directory, mutated only by
//! applying commands in the order the consensus engine committed them.

use vstd::prelude::*;

verus! {

use crate::auth::User;
use crate::codec::cluster_ok;
use crate::codec::cluster_r_wf;
use crate::codec::dec_cluster;
use crate::codec::dec_cmd;
use crate::codec::decode_cluster_state;
use crate::codec::decode_cmd;
use crate::codec::enc_cluster;
use crate::codec::encode_cluster;
use crate::codec::lemma_dec_enc_cluster;
use crate::codec::topic_r_wf;
use crate::auth::UserTable;
use crate::auth::UserV;
use crate::retention::spec_default_policy;
use crate::retention::RetentionPolicy;
use crate::tables::assoc_map;
use crate::tables::assoc_unique;
use crate::tables::lemma_assoc_absent;
use crate::tables::lemma_assoc_contains;
use crate::tables::lemma_assoc_get;
use crate::tables::lemma_assoc_push;
use crate::tables::lemma_assoc_update;
use crate::tables::NodeTable;
use crate::tables::SegMap;

pub type NodeId = u64;

/// One topic's ownership and segment bookkeeping.
#[derive(Debug)]
pub struct TopicState {
    /// The open segment's id; starts at 1 and only ever grows, by 1 per
    /// rollover.
    pub current_segment: u64,
    /// The node leading the open segment.
    pub leader_node: NodeId,
    /// Cumulative number of entries over all sealed segments.
    pub last_sealed_entry_offset: u64,
    /// Sealed segment id -> its frozen entry count.
    pub sealed_segments: SegMap,
    /// Segment id -> the leader recorded for it (frozen at seal time).
    pub segment_leaders: SegMap,
    /// The topic's purge rule.
    pub retention: RetentionPolicy,
    /// Segment id -> creation time, seconds since the Unix epoch.
    pub segment_created_at: SegMap,
}

/// A topic's bookkeeping with its tables as entry sequences, the form the
/// snapshot codec works on.
#[verifier::ext_equal]
pub ghost struct TopicR {
    pub current_segment: u64,
    pub leader_node: u64,
    pub last_sealed_entry_offset: u64,
    pub sealed_segments: Seq<(u64, u64)>,
    pub segment_leaders: Seq<(u64, u64)>,
    pub retention: RetentionPolicy,
    pub segment_created_at: Seq<(u64, u64)>,
}

/// A topic's bookkeeping as the contracts see it: tables as maps.
#[verifier::ext_equal]
pub ghost struct TopicStateV {
    pub current_segment: u64,
    pub leader_node: u64,
    pub last_sealed_entry_offset: u64,
    pub sealed_segments: Map<u64, u64>,
    pub segment_leaders: Map<u64, u64>,
    pub retention: RetentionPolicy,
    pub segment_created_at: Map<u64, u64>,
}

/// The map-level reading of a topic's entry-sequence form.
pub open spec fn topic_v(r: TopicR) -> TopicStateV {
    TopicStateV {
        current_segment: r.current_segment,
        leader_node: r.leader_node,
        last_sealed_entry_offset: r.last_sealed_entry_offset,
        sealed_segments: assoc_map(r.sealed_segments),
        segment_leaders: assoc_map(r.segment_leaders),
        retention: r.retention,
        segment_created_at: assoc_map(r.segment_created_at),
    }
}

impl View for TopicState {
    type V = TopicStateV;

    open spec fn view(&self) -> TopicStateV {
        topic_v(self.repr())
    }
}

impl TopicState {
    /// The entry-sequence form of this topic's bookkeeping.
    pub open spec fn repr(&self) -> TopicR {
        TopicR {
            current_segment: self.current_segment,
            leader_node: self.leader_node,
            last_sealed_entry_offset: self.last_sealed_entry_offset,
            sealed_segments: self.sealed_segments.entries@,
            segment_leaders: self.segment_leaders.entries@,
            retention: self.retention,
            segment_created_at: self.segment_created_at.entries@,
        }
    }

    /// The three per-segment tables have unique keys.
    pub open spec fn wf(&self) -> bool {
        self.sealed_segments.wf() && self.segment_leaders.wf() && self.segment_created_at.wf()
    }

    /// A structural copy.
    pub fn duplicate(&self) -> (r: Self)
        ensures
            r.repr() == self.repr(),
            r@ == self@,
            r.wf() == self.wf(),
    {
        TopicState {
            current_segment: self.current_segment,
            leader_node: self.leader_node,
            last_sealed_entry_offset: self.last_sealed_entry_offset,
            sealed_segments: self.sealed_segments.duplicate(),
            segment_leaders: self.segment_leaders.duplicate(),
            retention: self.retention,
            segment_created_at: self.segment_created_at.duplicate(),
        }
    }
}

/// The table of topics, keyed by name.
#[derive(Debug)]
pub struct TopicTable {
    pub entries: Vec<(String, TopicState)>,
}

impl View for TopicTable {
    type V = Map<Seq<char>, TopicStateV>;

    open spec fn view(&self) -> Map<Seq<char>, TopicStateV> {
        assoc_map(self.repr_v())
    }
}

impl TopicTable {
    /// The entries with names as character sequences and states at map level.
    pub open spec fn repr_v(&self) -> Seq<(Seq<char>, TopicStateV)> {
        self.entries@.map(|i: int, e: (String, TopicState)| (e.0@, e.1@))
    }

    /// Unique names, and every stored topic well formed.
    pub open spec fn wf(&self) -> bool {
        assoc_unique(self.repr_v()) && forall|i: int|
            0 <= i < self.entries@.len() ==> (#[trigger] self.entries@[i]).1.wf()
    }

    pub fn new() -> (r: Self)
        ensures
            r@ == Map::<Seq<char>, TopicStateV>::empty(),
            r.wf(),
            r.repr_v() == Seq::<(Seq<char>, TopicStateV)>::empty(),
    {
        let r = TopicTable { entries: Vec::new() };
        proof {
            assert(r.repr_v() =~= Seq::<(Seq<char>, TopicStateV)>::empty());
        }
        r
    }

    /// The index of the topic named `name`, if any.
    fn find(&self, name: &String) -> (r: Option<usize>)
        ensures
            match r {
                Some(i) => i < self.repr_v().len() && self.repr_v()[i as int].0 == name@,
                None => forall|i: int|
                    0 <= i < self.repr_v().len() ==> (#[trigger] self.repr_v()[i]).0 != name@,
            },
    {
        let mut i: usize = 0;
        while i < self.entries.len()
            invariant
                i <= self.entries@.len(),
                self.repr_v().len() == self.entries@.len(),
                forall|j: int| 0 <= j < i ==> (#[trigger] self.repr_v()[j]).0 != name@,
            decreases self.entries@.len() - i,
        {
            if self.entries[i].0 == *name {
                return Some(i);
            }
            i = i + 1;
        }
        None
    }

    /// Whether a topic named `name` exists.
    pub fn contains(&self, name: &str) -> (r: bool)
        ensures
            r == self@.contains_key(name@),
    {
        proof {
            lemma_assoc_contains(self.repr_v(), name@);
        }
        let owned: String = name.to_owned();
        self.find(&owned).is_some()
    }

    /// A copy of the topic named `name`, if any.
    pub fn get_copy(&self, name: &str) -> (r: Option<TopicState>)
        requires
            self.wf(),
        ensures
            match r {
                Some(t) => self@.contains_key(name@) && t@ == self@[name@] && t.wf(),
                None => !self@.contains_key(name@),
            },
    {
        proof {
            lemma_assoc_contains(self.repr_v(), name@);
        }
        let owned: String = name.to_owned();
        match self.find(&owned) {
            Some(i) => {
                proof {
                    lemma_assoc_get(self.repr_v(), i as int);
                    assert(self.repr_v()[i as int].1 == self.entries@[i as int].1@);
                }
                Some(self.entries[i].1.duplicate())
            },
            None => {
                proof {
                    lemma_assoc_absent(self.repr_v(), name@);
                }
                None
            },
        }
    }

    /// Inserts or overwrites the state of the topic named `name`.
    pub fn put(&mut self, name: String, state: TopicState)
        requires
            old(self).wf(),
            state.wf(),
        ensures
            final(self).wf(),
            final(self)@ == old(self)@.insert(name@, state@),
    {
        match self.find(&name) {
            Some(i) => {
                proof {
                    lemma_assoc_update(self.repr_v(), i as int, state@);
                    assert(self.repr_v().update(i as int, (self.repr_v()[i as int].0, state@))
                        =~= self.entries@.update(i as int, (self.entries@[i as int].0, state))
                        .map(|n: int, e: (String, TopicState)| (e.0@, e.1@)));
                }
                let key: String = self.entries[i].0.clone();
                self.entries.set(i, (key, state));
            },
            None => {
                proof {
                    lemma_assoc_push(self.repr_v(), name@, state@);
                    let pushed = self.entries@.push((name, state)).map(
                        |n: int, e: (String, TopicState)| (e.0@, e.1@),
                    );
                    assert(pushed =~= self.repr_v().push((name@, state@)));
                    assert(forall|a: int, b: int|
                        0 <= a < b < pushed.len() ==> (#[trigger] pushed[a]).0
                            != (#[trigger] pushed[b]).0);
                }
                self.entries.push((name, state));
            },
        }
    }
}

/// The whole-cluster replicated document.
#[derive(Debug)]
pub struct ClusterState {
    pub topics: TopicTable,
    /// Node id -> advertised internal RPC address.
    pub nodes: NodeTable,
    /// User authentication directory.
    pub auth: UserTable,
}

/// The document with every table as an entry sequence, the form the snapshot
/// codec works on.
#[verifier::ext_equal]
pub ghost struct ClusterR {
    pub topics: Seq<(Seq<char>, TopicR)>,
    pub nodes: Seq<(u64, Seq<char>)>,
    pub users: Seq<UserV>,
}

/// The document as the contracts see it: tables as maps.
#[verifier::ext_equal]
pub ghost struct ClusterV {
    pub topics: Map<Seq<char>, TopicStateV>,
    pub nodes: Map<u64, Seq<char>>,
    pub users: Map<Seq<char>, UserV>,
}

/// The map-level reading of the document's entry-sequence form.
pub open spec fn cluster_v(r: ClusterR) -> ClusterV {
    ClusterV {
        topics: assoc_map(r.topics.map(|i: int, e: (Seq<char>, TopicR)| (e.0, topic_v(e.1)))),
        nodes: assoc_map(r.nodes),
        users: assoc_map(r.users.map(|i: int, u: UserV| (u.username, u))),
    }
}

impl View for ClusterState {
    type V = ClusterV;

    open spec fn view(&self) -> ClusterV {
        cluster_v(self.repr())
    }
}

impl ClusterState {
    /// The entry-sequence form of the document.
    pub open spec fn repr(&self) -> ClusterR {
        ClusterR {
            topics: self.topics.entries@.map(
                |i: int, e: (String, TopicState)| (e.0@, e.1.repr()),
            ),
            nodes: self.nodes.repr(),
            users: self.auth.users@.map(|i: int, u: User| u@),
        }
    }

    /// Every table denotes its map faithfully.
    pub open spec fn inv(&self) -> bool {
        self.topics.wf() && self.nodes.wf() && self.auth.wf()
    }

    /// The empty document a node starts from.
    pub fn new_empty() -> (r: Self)
        ensures
            r.inv(),
            r@.topics == Map::<Seq<char>, TopicStateV>::empty(),
            r@.nodes == Map::<u64, Seq<char>>::empty(),
            r@.users == Map::<Seq<char>, UserV>::empty(),
    {
        let r = ClusterState {
            topics: TopicTable::new(),
            nodes: NodeTable::new(),
            auth: UserTable::new(),
        };
        proof {
            lemma_cluster_views(&r);
        }
        r
    }
}

/// The only legal mutation instruction: constructed, committed in cluster
/// order, applied once on every replica, discarded.
#[derive(Debug)]
pub enum MetadataCmd {
    CreateTopic { name: String, initial_leader: NodeId },
    RolloverTopic { name: String, new_leader: NodeId, sealed_segment_entry_count: u64 },
    UpsertNode { node_id: NodeId, addr: String },
    AddUser { user: User },
    RemoveUser { username: String },
    SetRetention { topic: String, policy: RetentionPolicy },
    DeleteSegments { topic: String, segment_ids: Vec<u64> },
}

/// A command as the specifications see it.
pub ghost enum CmdV {
    CreateTopic { name: Seq<char>, initial_leader: u64 },
    RolloverTopic { name: Seq<char>, new_leader: u64, sealed_segment_entry_count: u64 },
    UpsertNode { node_id: u64, addr: Seq<char> },
    AddUser { user: UserV },
    RemoveUser { username: Seq<char> },
    SetRetention { topic: Seq<char>, policy: RetentionPolicy },
    DeleteSegments { topic: Seq<char>, segment_ids: Seq<u64> },
}

impl View for MetadataCmd {
    type V = CmdV;

    open spec fn view(&self) -> CmdV {
        match self {
            MetadataCmd::CreateTopic { name, initial_leader } => CmdV::CreateTopic {
                name: name@,
                initial_leader: *initial_leader,
            },
            MetadataCmd::RolloverTopic { name, new_leader, sealed_segment_entry_count } => CmdV::RolloverTopic {
                name: name@,
                new_leader: *new_leader,
                sealed_segment_entry_count: *sealed_segment_entry_count,
            },
            MetadataCmd::UpsertNode { node_id, addr } => CmdV::UpsertNode {
                node_id: *node_id,
                addr: addr@,
            },
            MetadataCmd::AddUser { user } => CmdV::AddUser { user: user@ },
            MetadataCmd::RemoveUser { username } => CmdV::RemoveUser { username: username@ },
            MetadataCmd::SetRetention { topic, policy } => CmdV::SetRetention {
                topic: topic@,
                policy: *policy,
            },
            MetadataCmd::DeleteSegments { topic, segment_ids } => CmdV::DeleteSegments {
                topic: topic@,
                segment_ids: segment_ids@,
            },
        }
    }
}

/// The state a fresh topic starts in: segment 1 open under `leader`, with its
/// creation time and its leader recorded.
pub open spec fn spec_new_topic(leader: u64, now: u64) -> TopicStateV {
    TopicStateV {
        current_segment: 1,
        leader_node: leader,
        last_sealed_entry_offset: 0,
        sealed_segments: Map::empty(),
        segment_leaders: Map::<u64, u64>::empty().insert(1, leader),
        retention: spec_default_policy(),
        segment_created_at: Map::<u64, u64>::empty().insert(1, now),
    }
}

/// Whether sealing the open segment would overflow a counter.
pub open spec fn spec_rollover_overflows(t: TopicStateV, cnt: u64) -> bool {
    t.current_segment == u64::MAX || t.last_sealed_entry_offset + cnt > u64::MAX
}

/// The topic after a rollover: the open segment is sealed with `cnt` entries
/// under its recorded leader, and segment `current + 1` opens under
/// `new_leader` at time `now`.
pub open spec fn spec_rollover(t: TopicStateV, new_leader: u64, cnt: u64, now: u64) -> TopicStateV
    recommends
        !spec_rollover_overflows(t, cnt),
{
    TopicStateV {
        current_segment: (t.current_segment + 1) as u64,
        leader_node: new_leader,
        last_sealed_entry_offset: (t.last_sealed_entry_offset + cnt) as u64,
        sealed_segments: t.sealed_segments.insert(t.current_segment, cnt),
        segment_leaders: t.segment_leaders.insert(t.current_segment, t.leader_node).insert(
            (t.current_segment + 1) as u64,
            new_leader,
        ),
        retention: t.retention,
        segment_created_at: t.segment_created_at.insert((t.current_segment + 1) as u64, now),
    }
}

/// The topic after deleting the given segment ids from all three per-segment
/// tables; the open segment and its leader are untouched.
pub open spec fn spec_delete_segments(t: TopicStateV, ids: Seq<u64>) -> TopicStateV {
    TopicStateV {
        sealed_segments: t.sealed_segments.remove_keys(ids.to_set()),
        segment_leaders: t.segment_leaders.remove_keys(ids.to_set()),
        segment_created_at: t.segment_created_at.remove_keys(ids.to_set()),
        ..t
    }
}

/// The one deterministic transition: what applying `cmd` at time `now` does
/// to the document, and the response it yields.
pub open spec fn spec_apply(s: ClusterV, cmd: CmdV, now: u64) -> (ClusterV, Result<
    Seq<char>,
    Seq<char>,
>) {
    match cmd {
        CmdV::CreateTopic { name, initial_leader } => {
            if s.topics.contains_key(name) {
                (s, Ok("EXISTS"@))
            } else {
                (
                    ClusterV {
                        topics: s.topics.insert(name, spec_new_topic(initial_leader, now)),
                        ..s
                    },
                    Ok("CREATED"@),
                )
            }
        },
        CmdV::RolloverTopic { name, new_leader, sealed_segment_entry_count } => {
            if !s.topics.contains_key(name) {
                (s, Err("Topic not found"@))
            } else if spec_rollover_overflows(s.topics[name], sealed_segment_entry_count) {
                (s, Err("counter overflow"@))
            } else {
                (
                    ClusterV {
                        topics: s.topics.insert(
                            name,
                            spec_rollover(
                                s.topics[name],
                                new_leader,
                                sealed_segment_entry_count,
                                now,
                            ),
                        ),
                        ..s
                    },
                    Ok("ROLLED"@),
                )
            }
        },
        CmdV::UpsertNode { node_id, addr } => {
            (ClusterV { nodes: s.nodes.insert(node_id, addr), ..s }, Ok("NODE"@))
        },
        CmdV::AddUser { user } => {
            if s.users.contains_key(user.username) {
                (s, Err("User already exists"@))
            } else {
                (ClusterV { users: s.users.insert(user.username, user), ..s }, Ok("USER_ADDED"@))
            }
        },
        CmdV::RemoveUser { username } => {
            if s.users.contains_key(username) {
                (ClusterV { users: s.users.remove(username), ..s }, Ok("USER_REMOVED"@))
            } else {
                (s, Err("User not found"@))
            }
        },
        CmdV::SetRetention { topic, policy } => {
            if s.topics.contains_key(topic) {
                (
                    ClusterV {
                        topics: s.topics.insert(
                            topic,
                            TopicStateV { retention: policy, ..s.topics[topic] },
                        ),
                        ..s
                    },
                    Ok("RETENTION_SET"@),
                )
            } else {
                (s, Err("Topic not found"@))
            }
        },
        CmdV::DeleteSegments { topic, segment_ids } => {
            if s.topics.contains_key(topic) {
                (
                    ClusterV {
                        topics: s.topics.insert(
                            topic,
                            spec_delete_segments(s.topics[topic], segment_ids),
                        ),
                        ..s
                    },
                    Ok("SEGMENTS_DELETED"@),
                )
            } else {
                (s, Err("Topic not found"@))
            }
        },
    }
}

/// A response at the level the transition function speaks.
pub open spec fn result_v(r: Result<String, String>) -> Result<Seq<char>, Seq<char>> {
    match r {
        Ok(s) => Ok(s@),
        Err(e) => Err(e@),
    }
}

/// The document's map view agrees with its tables' own views.
pub proof fn lemma_cluster_views(c: &ClusterState)
    ensures
        c@.topics == c.topics@,
        c@.nodes == c.nodes@,
        c@.users == c.auth@,
{
    assert(c.repr().topics.map(|i: int, e: (Seq<char>, TopicR)| (e.0, topic_v(e.1)))
        =~= c.topics.repr_v());
    assert(c.repr().users.map(|i: int, u: UserV| (u.username, u)) =~= c.auth.repr());
}

/// Removing one more key from a map is removing the grown key set.
proof fn lemma_remove_keys_step(m: Map<u64, u64>, s: Set<u64>, k: u64)
    ensures
        m.remove_keys(s).remove(k) == m.remove_keys(s.insert(k)),
{
    assert(m.remove_keys(s).remove(k) =~= m.remove_keys(s.insert(k)));
}

/// Taking one more element grows the taken set by that element.
proof fn lemma_take_to_set_step(ids: Seq<u64>, i: int)
    requires
        0 <= i < ids.len(),
    ensures
        ids.take(i + 1).to_set() == ids.take(i).to_set().insert(ids[i]),
{
    assert forall|x: u64|
        ids.take(i + 1).to_set().contains(x) == ids.take(i).to_set().insert(ids[i]).contains(
            x,
        ) by {
        if ids.take(i + 1).contains(x) {
            let j = choose|j: int|
                0 <= j < ids.take(i + 1).len() && #[trigger] ids.take(i + 1)[j] == x;
            if j < i {
                assert(ids.take(i)[j] == x);
            } else {
                assert(x == ids[i]);
            }
        }
        if ids.take(i).contains(x) {
            let j = choose|j: int| 0 <= j < ids.take(i).len() && #[trigger] ids.take(i)[j] == x;
            assert(ids.take(i + 1)[j] == x);
        }
        if x == ids[i] {
            assert(ids.take(i + 1)[i] == x);
        }
    }
    assert(ids.take(i + 1).to_set() =~= ids.take(i).to_set().insert(ids[i]));
}

/// The replicated state machine: an owned document mutated only through
/// `apply_cmd`, which builds each successor state and swaps it in whole.
#[derive(Debug)]
pub struct Metadata {
    pub state: ClusterState,
}

impl View for Metadata {
    type V = ClusterV;

    open spec fn view(&self) -> ClusterV {
        self.state@
    }
}

impl Metadata {
    /// The document's tables denote their maps faithfully.
    pub open spec fn inv(&self) -> bool {
        self.state.inv()
    }

    /// The topic entries in table order, for contracts that speak of order.
    pub open spec fn topics_seq(&self) -> Seq<(Seq<char>, TopicStateV)> {
        self.state.topics.repr_v()
    }

    /// The user entries in table order, for contracts that speak of order.
    pub open spec fn users_seq(&self) -> Seq<(Seq<char>, UserV)> {
        self.state.auth.repr()
    }

    /// A node starts with the empty document.
    pub fn new() -> (r: Self)
        ensures
            r.inv(),
            r@.topics == Map::<Seq<char>, TopicStateV>::empty(),
            r@.nodes == Map::<u64, Seq<char>>::empty(),
            r@.users == Map::<Seq<char>, UserV>::empty(),
    {
        Metadata { state: ClusterState::new_empty() }
    }

    /// A copy of the named topic's bookkeeping, if the topic exists.
    pub fn get_topic_state(&self, topic: &str) -> (r: Option<TopicState>)
        requires
            self.inv(),
        ensures
            match r {
                Some(t) => self@.topics.contains_key(topic@) && t@ == self@.topics[topic@]
                    && t.wf(),
                None => !self@.topics.contains_key(topic@),
            },
    {
        proof {
            lemma_cluster_views(&self.state);
        }
        self.state.topics.get_copy(topic)
    }

    /// The address recorded for a node, if any.
    pub fn get_node_addr(&self, node_id: NodeId) -> (r: Option<String>)
        requires
            self.inv(),
        ensures
            match r {
                Some(a) => self@.nodes.contains_key(node_id) && a@ == self@.nodes[node_id],
                None => !self@.nodes.contains_key(node_id),
            },
    {
        proof {
            lemma_cluster_views(&self.state);
        }
        self.state.nodes.get(node_id)
    }

    /// Every node directory entry, in table order.
    pub fn all_node_addrs(&self) -> (r: Vec<(NodeId, String)>)
        ensures
            r@.map(|i: int, e: (u64, String)| (e.0, e.1@)) == self.state.nodes.repr(),
    {
        self.state.nodes.all()
    }

    /// The topics this node currently leads, in table order, each with its
    /// open segment.
    pub fn owned_topics(&self, node_id: NodeId) -> (r: Vec<(String, u64)>)
        ensures
            r@.map(|i: int, e: (String, u64)| (e.0@, e.1)) == spec_owned_topics(
                self.topics_seq(),
                node_id,
            ),
    {
        let mut out: Vec<(String, u64)> = Vec::new();
        let mut i: usize = 0;
        while i < self.state.topics.entries.len()
            invariant
                i <= self.state.topics.entries@.len(),
                self.topics_seq().len() == self.state.topics.entries@.len(),
                out@.map(|n: int, e: (String, u64)| (e.0@, e.1)) =~= spec_owned_topics(
                    self.topics_seq().take(i as int),
                    node_id,
                ),
            decreases self.state.topics.entries@.len() - i,
        {
            proof {
                assert(self.topics_seq().take(i as int + 1).drop_last() =~= self.topics_seq().take(
                    i as int,
                ));
                assert(self.topics_seq().take(i as int + 1).last() == self.topics_seq()[i as int]);
            }
            if self.state.topics.entries[i].1.leader_node == node_id {
                let name: String = self.state.topics.entries[i].0.clone();
                let seg: u64 = self.state.topics.entries[i].1.current_segment;
                out.push((name, seg));
                proof {
                    assert(out@.map(|n: int, e: (String, u64)| (e.0@, e.1)) =~= spec_owned_topics(
                        self.topics_seq().take(i as int + 1),
                        node_id,
                    ));
                }
            } else {
                proof {
                    assert(out@.map(|n: int, e: (String, u64)| (e.0@, e.1)) =~= spec_owned_topics(
                        self.topics_seq().take(i as int + 1),
                        node_id,
                    ));
                }
            }
            i = i + 1;
        }
        proof {
            assert(self.topics_seq().take(self.topics_seq().len() as int) =~= self.topics_seq());
        }
        out
    }

    /// The frozen entry count of a sealed segment, if recorded.
    pub fn sealed_count(&self, topic: &str, segment: u64) -> (r: Option<u64>)
        requires
            self.inv(),
        ensures
            r == if self@.topics.contains_key(topic@) && self@.topics[topic@].sealed_segments.contains_key(
                segment,
            ) {
                Some(self@.topics[topic@].sealed_segments[segment])
            } else {
                None::<u64>
            },
    {
        proof {
            lemma_cluster_views(&self.state);
        }
        match self.state.topics.get_copy(topic) {
            Some(t) => t.sealed_segments.get(segment),
            None => None,
        }
    }

    /// The node answering for a segment: the recorded per-segment leader if
    /// one was frozen, else the topic's live leader.
    pub fn segment_leader(&self, topic: &str, segment: u64) -> (r: Option<NodeId>)
        requires
            self.inv(),
        ensures
            r == spec_segment_leader(self@, topic@, segment),
    {
        proof {
            lemma_cluster_views(&self.state);
        }
        match self.state.topics.get_copy(topic) {
            Some(t) => {
                match t.segment_leaders.get(segment) {
                    Some(n) => Some(n),
                    None => Some(t.leader_node),
                }
            },
            None => None,
        }
    }

    /// Checks a username/password pair against the user directory.
    pub fn authenticate(&self, username: &str, password: &str) -> (r: Option<User>)
        requires
            self.inv(),
        ensures
            match r {
                Some(u) => self@.users.contains_key(username@)
                    && self@.users[username@].password == password@ && u@
                    == self@.users[username@],
                None => !self@.users.contains_key(username@) || self@.users[username@].password
                    != password@,
            },
    {
        proof {
            lemma_cluster_views(&self.state);
        }
        self.state.auth.authenticate(username, password)
    }

    /// Looks a user up by API key. The directory is scanned in place; unlike
    /// the password path no index is kept, so this takes only a shared view.
    pub fn authenticate_with_api_key(&self, api_key: &str) -> (r: Option<User>)
        ensures
            match r {
                Some(u) => exists|i: int|
                    0 <= i < self.users_seq().len() && (#[trigger] self.users_seq()[i]).1.api_key
                        == Some(api_key@) && u@ == self.users_seq()[i].1,
                None => forall|i: int|
                    0 <= i < self.users_seq().len() ==> (#[trigger] self.users_seq()[i]).1.api_key
                        != Some(api_key@),
            },
    {
        self.state.auth.authenticate_with_api_key(api_key)
    }

    /// Whether a user of that name exists.
    pub fn user_exists(&self, username: &str) -> (r: bool)
        ensures
            r == self@.users.contains_key(username@),
    {
        proof {
            lemma_cluster_views(&self.state);
        }
        self.state.auth.user_exists(username)
    }

    /// Whether any user is registered at all.
    pub fn has_users(&self) -> (r: bool)
        ensures
            r == (self@.users != Map::<Seq<char>, UserV>::empty()),
    {
        proof {
            lemma_cluster_views(&self.state);
        }
        !self.state.auth.is_empty()
    }

    /// Applies one decoded command at time `now_secs`: exactly the transition
    /// `spec_apply` describes, with the response it prescribes.
    pub fn apply_cmd(&mut self, cmd: &MetadataCmd, now_secs: u64) -> (r: Result<String, String>)
        requires
            old(self).inv(),
        ensures
            final(self).inv(),
            final(self)@ == spec_apply(old(self)@, cmd@, now_secs).0,
            result_v(r) == spec_apply(old(self)@, cmd@, now_secs).1,
    {
        let ghost s0 = self@;
        proof {
            lemma_cluster_views(&self.state);
        }
        match cmd {
            MetadataCmd::CreateTopic { name, initial_leader } => {
                if self.state.topics.contains(name.as_str()) {
                    Ok("EXISTS".to_owned())
                } else {
                    let mut t = TopicState {
                        current_segment: 1,
                        leader_node: *initial_leader,
                        last_sealed_entry_offset: 0,
                        sealed_segments: SegMap::new(),
                        segment_leaders: SegMap::new(),
                        retention: RetentionPolicy::default(),
                        segment_created_at: SegMap::new(),
                    };
                    t.segment_leaders.insert(1, *initial_leader);
                    t.segment_created_at.insert(1, now_secs);
                    proof {
                        assert(t@ =~= spec_new_topic(*initial_leader, now_secs));
                    }
                    self.state.topics.put(name.clone(), t);
                    proof {
                        lemma_cluster_views(&self.state);
                        assert(self@ =~= spec_apply(s0, cmd@, now_secs).0);
                    }
                    Ok("CREATED".to_owned())
                }
            },
            MetadataCmd::RolloverTopic { name, new_leader, sealed_segment_entry_count } => {
                match self.state.topics.get_copy(name.as_str()) {
                    None => Err("Topic not found".to_owned()),
                    Some(existing) => {
                        let mut t = existing;
                        if t.current_segment == u64::MAX || *sealed_segment_entry_count > u64::MAX
                            - t.last_sealed_entry_offset {
                            Err("counter overflow".to_owned())
                        } else {
                            let ghost tv = t@;
                            let sealed_seg: u64 = t.current_segment;
                            t.sealed_segments.insert(sealed_seg, *sealed_segment_entry_count);
                            t.segment_leaders.insert(sealed_seg, t.leader_node);
                            t.last_sealed_entry_offset = t.last_sealed_entry_offset
                                + *sealed_segment_entry_count;
                            t.current_segment = t.current_segment + 1;
                            t.leader_node = *new_leader;
                            t.segment_leaders.insert(t.current_segment, *new_leader);
                            t.segment_created_at.insert(t.current_segment, now_secs);
                            proof {
                                assert(t@ =~= spec_rollover(
                                    tv,
                                    *new_leader,
                                    *sealed_segment_entry_count,
                                    now_secs,
                                ));
                            }
                            self.state.topics.put(name.clone(), t);
                            proof {
                                lemma_cluster_views(&self.state);
                                assert(self@ =~= spec_apply(s0, cmd@, now_secs).0);
                            }
                            Ok("ROLLED".to_owned())
                        }
                    },
                }
            },
            MetadataCmd::UpsertNode { node_id, addr } => {
                self.state.nodes.insert(*node_id, addr.clone());
                proof {
                    lemma_cluster_views(&self.state);
                    assert(self@ =~= spec_apply(s0, cmd@, now_secs).0);
                }
                Ok("NODE".to_owned())
            },
            MetadataCmd::AddUser { user } => {
                let copy = user.duplicate();
                if self.state.auth.add_user(copy) {
                    proof {
                        lemma_cluster_views(&self.state);
                        assert(self@ =~= spec_apply(s0, cmd@, now_secs).0);
                    }
                    Ok("USER_ADDED".to_owned())
                } else {
                    Err("User already exists".to_owned())
                }
            },
            MetadataCmd::RemoveUser { username } => {
                if self.state.auth.remove_user(username.as_str()) {
                    proof {
                        lemma_cluster_views(&self.state);
                        assert(self@ =~= spec_apply(s0, cmd@, now_secs).0);
                    }
                    Ok("USER_REMOVED".to_owned())
                } else {
                    Err("User not found".to_owned())
                }
            },
            MetadataCmd::SetRetention { topic, policy } => {
                match self.state.topics.get_copy(topic.as_str()) {
                    None => Err("Topic not found".to_owned()),
                    Some(existing) => {
                        let mut t = existing;
                        t.retention = *policy;
                        self.state.topics.put(topic.clone(), t);
                        proof {
                            lemma_cluster_views(&self.state);
                            assert(self@ =~= spec_apply(s0, cmd@, now_secs).0);
                        }
                        Ok("RETENTION_SET".to_owned())
                    },
                }
            },
            MetadataCmd::DeleteSegments { topic, segment_ids } => {
                match self.state.topics.get_copy(topic.as_str()) {
                    None => Err("Topic not found".to_owned()),
                    Some(existing) => {
                        let mut t = existing;
                        let ghost tv = t@;
                        proof {
                            assert(tv.sealed_segments.remove_keys(
                                segment_ids@.take(0).to_set(),
                            ) =~= tv.sealed_segments);
                            assert(tv.segment_leaders.remove_keys(
                                segment_ids@.take(0).to_set(),
                            ) =~= tv.segment_leaders);
                            assert(tv.segment_created_at.remove_keys(
                                segment_ids@.take(0).to_set(),
                            ) =~= tv.segment_created_at);
                        }
                        let mut i: usize = 0;
                        while i < segment_ids.len()
                            invariant
                                i <= segment_ids@.len(),
                                t.wf(),
                                t@.current_segment == tv.current_segment,
                                t@.leader_node == tv.leader_node,
                                t@.last_sealed_entry_offset == tv.last_sealed_entry_offset,
                                t@.retention == tv.retention,
                                t@.sealed_segments == tv.sealed_segments.remove_keys(
                                    segment_ids@.take(i as int).to_set(),
                                ),
                                t@.segment_leaders == tv.segment_leaders.remove_keys(
                                    segment_ids@.take(i as int).to_set(),
                                ),
                                t@.segment_created_at == tv.segment_created_at.remove_keys(
                                    segment_ids@.take(i as int).to_set(),
                                ),
                            decreases segment_ids@.len() - i,
                        {
                            let id: u64 = segment_ids[i];
                            t.sealed_segments.remove(id);
                            t.segment_leaders.remove(id);
                            t.segment_created_at.remove(id);
                            proof {
                                let ghost taken = segment_ids@.take(i as int).to_set();
                                lemma_take_to_set_step(segment_ids@, i as int);
                                lemma_remove_keys_step(tv.sealed_segments, taken, id);
                                lemma_remove_keys_step(tv.segment_leaders, taken, id);
                                lemma_remove_keys_step(tv.segment_created_at, taken, id);
                            }
                            i = i + 1;
                        }
                        proof {
                            assert(segment_ids@.take(segment_ids@.len() as int) =~= segment_ids@);
                            assert(t@ =~= spec_delete_segments(tv, segment_ids@));
                        }
                        self.state.topics.put(topic.clone(), t);
                        proof {
                            lemma_cluster_views(&self.state);
                            assert(self@ =~= spec_apply(s0, cmd@, now_secs).0);
                        }
                        Ok("SEGMENTS_DELETED".to_owned())
                    },
                }
            },
        }
    }
}

impl Metadata {
    /// Applies one committed command from its wire form. The creation time
    /// it stamps is one clock reading; everything else is exactly the
    /// transition `spec_apply` describes for the decoded command. Malformed
    /// bytes change nothing and surface as an error.
    pub fn apply(&mut self, command: &[u8]) -> (r: Result<String, String>)
        requires
            old(self).inv(),
        ensures
            final(self).inv(),
            match dec_cmd(command@) {
                Some(p) => if p.1.len() == 0 {
                    exists|ts: u64|
                        #![trigger spec_apply(old(self)@, p.0, ts)]
                        final(self)@ == spec_apply(old(self)@, p.0, ts).0 && result_v(r)
                            == spec_apply(old(self)@, p.0, ts).1
                } else {
                    r is Err && *final(self) == *old(self)
                },
                None => r is Err && *final(self) == *old(self),
            },
    {
        let ghost s0 = self@;
        match decode_cmd(command) {
            None => Err("decode cmd".to_owned()),
            Some((cmd, rest)) => {
                if rest.len() > 0 {
                    Err("decode cmd: trailing bytes".to_owned())
                } else {
                    let now: u64 = crate::retention::now_unix_secs();
                    let r = self.apply_cmd(&cmd, now);
                    proof {
                        assert(self@ == spec_apply(s0, cmd@, now).0);
                    }
                    r
                }
            },
        }
    }

    /// Serializes the whole document; `restore` reads it back exactly.
    pub fn snapshot(&self) -> (r: Vec<u8>)
        requires
            self.inv(),
        ensures
            r@ == enc_cluster(self.state.repr()),
            cluster_ok(self.state.repr()),
            cluster_r_wf(self.state.repr()),
    {
        proof {
            lemma_inv_cluster_r_wf(&self.state);
        }
        encode_cluster(&self.state)
    }

    /// Replaces the document in full with a decoded snapshot, or changes
    /// nothing and reports an error on bytes that are not one.
    pub fn restore(&mut self, data: &[u8]) -> (r: Result<(), String>)
        ensures
            match dec_cluster(data@) {
                Some(p) => if p.1.len() == 0 {
                    r is Ok && final(self).inv() && final(self).state.repr() == p.0
                } else {
                    r is Err && *final(self) == *old(self)
                },
                None => r is Err && *final(self) == *old(self),
            },
    {
        match decode_cluster_state(data) {
            None => Err("snapshot decode".to_owned()),
            Some((c, rest)) => {
                if rest.len() > 0 {
                    Err("snapshot decode: trailing bytes".to_owned())
                } else {
                    self.state = c;
                    Ok(())
                }
            },
        }
    }
}

/// A document satisfying the invariant is well formed in the codec's
/// entry-sequence terms as well.
pub proof fn lemma_inv_cluster_r_wf(c: &ClusterState)
    requires
        c.inv(),
    ensures
        cluster_r_wf(c.repr()),
{
    let rv = c.topics.repr_v();
    let rr = c.repr().topics;
    assert(forall|i: int| 0 <= i < rr.len() ==> (#[trigger] rr[i]).0 == rv[i].0);
    assert(forall|i: int, j: int|
        0 <= i < j < rr.len() ==> (#[trigger] rr[i]).0 != (#[trigger] rr[j]).0);
    assert forall|i: int| 0 <= i < rr.len() implies topic_r_wf((#[trigger] rr[i]).1) by {
        assert(rr[i].1 == c.topics.entries@[i].1.repr());
        assert(c.topics.entries@[i].1.wf());
    }
    let ur = c.auth.repr();
    let uk = c.repr().users.map(|i: int, u: UserV| (u.username, u));
    assert(forall|i: int| 0 <= i < uk.len() ==> (#[trigger] uk[i]).0 == ur[i].0);
    assert(forall|i: int, j: int|
        0 <= i < j < uk.len() ==> (#[trigger] uk[i]).0 != (#[trigger] uk[j]).0);
}

/// Law: snapshots round-trip. Reading back an encoded document yields the
/// document itself, whole, with nothing left over — so `restore` applied to
/// what `snapshot` produced rebuilds the same cluster state on any replica.
pub proof fn lemma_snapshot_restore_round_trip(c: ClusterR)
    requires
        cluster_r_wf(c),
        cluster_ok(c),
    ensures
        dec_cluster(enc_cluster(c)) == Some((c, Seq::<u8>::empty())),
{
    lemma_dec_enc_cluster(c, Seq::<u8>::empty());
    assert(enc_cluster(c) + Seq::<u8>::empty() =~= enc_cluster(c));
}

/// Law: creating a topic is idempotent. A second CreateTopic for the same
/// name answers EXISTS and leaves the document exactly as the first left it,
/// whatever either command's clock read; the first answers CREATED when the
/// name was free.
pub proof fn lemma_create_topic_idempotent(
    s: ClusterV,
    name: Seq<char>,
    leader: u64,
    t1: u64,
    t2: u64,
)
    ensures
        ({
            let first = spec_apply(s, CmdV::CreateTopic { name, initial_leader: leader }, t1);
            let second = spec_apply(
                first.0,
                CmdV::CreateTopic { name, initial_leader: leader },
                t2,
            );
            &&& second.0 == first.0
            &&& second.1 == Ok::<Seq<char>, Seq<char>>("EXISTS"@)
            &&& (!s.topics.contains_key(name) ==> first.1 == Ok::<Seq<char>, Seq<char>>(
                "CREATED"@,
            ))
            &&& (s.topics.contains_key(name) ==> first.0 == s && first.1 == Ok::<
                Seq<char>,
                Seq<char>,
            >("EXISTS"@))
        }),
{
}

/// Law: deleting segments removes the targeted ids from all three
/// per-segment tables, leaves every other segment's records alone, and never
/// touches the topic's open segment, leader, or cumulative offset.
pub proof fn lemma_delete_segments_effect(s: ClusterV, topic: Seq<char>, ids: Seq<u64>, now: u64)
    requires
        s.topics.contains_key(topic),
    ensures
        ({
            let out = spec_apply(s, CmdV::DeleteSegments { topic, segment_ids: ids }, now);
            let t0 = s.topics[topic];
            let t1 = out.0.topics[topic];
            &&& out.1 == Ok::<Seq<char>, Seq<char>>("SEGMENTS_DELETED"@)
            &&& out.0.topics.contains_key(topic)
            &&& t1.current_segment == t0.current_segment
            &&& t1.leader_node == t0.leader_node
            &&& t1.last_sealed_entry_offset == t0.last_sealed_entry_offset
            &&& t1.retention == t0.retention
            &&& forall|id: u64|
                ids.contains(id) ==> !(#[trigger] t1.sealed_segments.contains_key(id))
                    && !t1.segment_leaders.contains_key(id) && !t1.segment_created_at.contains_key(
                    id,
                )
            &&& forall|id: u64|
                !ids.contains(id) ==> (#[trigger] t1.sealed_segments.contains_key(id)
                    == t0.sealed_segments.contains_key(id)) && (t1.segment_leaders.contains_key(id)
                    == t0.segment_leaders.contains_key(id)) && (
                t1.segment_created_at.contains_key(id) == t0.segment_created_at.contains_key(id))
                    && (t0.sealed_segments.contains_key(id) ==> t1.sealed_segments[id]
                    == t0.sealed_segments[id]) && (t0.segment_leaders.contains_key(id)
                    ==> t1.segment_leaders[id] == t0.segment_leaders[id]) && (
                t0.segment_created_at.contains_key(id) ==> t1.segment_created_at[id]
                    == t0.segment_created_at[id])
        }),
{
    let out = spec_apply(s, CmdV::DeleteSegments { topic, segment_ids: ids }, now);
    assert(out.0.topics[topic] == spec_delete_segments(s.topics[topic], ids));
}

/// Law: no command moves a topic's counters backwards. The open segment's
/// id and the cumulative sealed-entry offset never decrease, whatever is
/// applied.
pub proof fn lemma_apply_counters_monotonic(s: ClusterV, cmd: CmdV, now: u64, name: Seq<char>)
    requires
        s.topics.contains_key(name),
    ensures
        ({
            let s1 = spec_apply(s, cmd, now).0;
            &&& s1.topics.contains_key(name)
            &&& s.topics[name].current_segment <= s1.topics[name].current_segment
            &&& s.topics[name].last_sealed_entry_offset
                <= s1.topics[name].last_sealed_entry_offset
        }),
{
}

/// Law: right after a topic is created or rolled over, its open segment has
/// a leader on record, so segment-leader lookups need no fallback for it.
pub proof fn lemma_open_segment_has_leader(
    s: ClusterV,
    name: Seq<char>,
    leader: u64,
    cnt: u64,
    now: u64,
)
    ensures
        ({
            let s1 = spec_apply(s, CmdV::CreateTopic { name, initial_leader: leader }, now).0;
            !s.topics.contains_key(name) ==> s1.topics[name].segment_leaders.contains_key(
                s1.topics[name].current_segment,
            )
        }),
        ({
            let s1 = spec_apply(
                s,
                CmdV::RolloverTopic { name, new_leader: leader, sealed_segment_entry_count: cnt },
                now,
            ).0;
            s.topics.contains_key(name) && !spec_rollover_overflows(s.topics[name], cnt)
                ==> s1.topics[name].segment_leaders.contains_key(s1.topics[name].current_segment)
        }),
{
}

/// The topics led by `node`, oldest entry first, each with its open segment.
pub open spec fn spec_owned_topics(s: Seq<(Seq<char>, TopicStateV)>, node: u64) -> Seq<
    (Seq<char>, u64),
>
    decreases s.len(),
{
    if s.len() == 0 {
        Seq::empty()
    } else {
        let rest = spec_owned_topics(s.drop_last(), node);
        if s.last().1.leader_node == node {
            rest.push((s.last().0, s.last().1.current_segment))
        } else {
            rest
        }
    }
}

/// Which node answers for a segment: the frozen per-segment record wins over
/// the topic's live leader; an unknown topic has no answer.
pub open spec fn spec_segment_leader(s: ClusterV, topic: Seq<char>, segment: u64) -> Option<u64> {
    if !s.topics.contains_key(topic) {
        None
    } else if s.topics[topic].segment_leaders.contains_key(segment) {
        Some(s.topics[topic].segment_leaders[segment])
    } else {
        Some(s.topics[topic].leader_node)
    }
}

} // verus!
