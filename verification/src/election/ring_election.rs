//! Ring leader election (Chang-Roberts): the node with the highest id
//! becomes leader. A node is a state machine: each handler takes a message
//! and gives the node's next state and the actions to perform, which the
//! caller carries out (network sends, timers, threads, channels).

use crate::election::heartbeat::{
    duration_nanos, duration_secs, instant_now, longer_than, saturating_gap, HeartbeatMonitor,
    HeartbeatSender,
};
use std::time::Instant;
use crate::election::messages::{
    ElectionMessage, MsgView, NodeInfoMsg, NodeView, StateUpdateData, UpdateView,
};
use crate::fmt::{decimal, push_decimal, string_append};
use crate::text::{
    after_char, before_char, contains_text, is_prefix_of, occurs_in, parse_unsigned,
    parse_unsigned_text, split_first, starts_with_text,
};
use vstd::prelude::*;
use vstd::string::StrSliceExecFns;

verus! {

// ----------------------------------------------------------------------------
// Nodes
// ----------------------------------------------------------------------------

/// A node of the cluster: id, ring address (`ip:ring_port`) and client
/// address (`ip:client_port`).
#[derive(Debug, Clone)]
pub struct NodeInfo {
    pub id: u8,
    pub addr: String,
    pub client_addr: String,
}

impl DeepView for NodeInfo {
    type V = NodeView;

    open spec fn deep_view(&self) -> NodeView {
        (self.id, self.addr@, self.client_addr@)
    }
}

impl NodeInfo {
    /// A copy with the same id and addresses.
    pub fn duplicate(&self) -> (r: Self)
        ensures
            r.deep_view() == self.deep_view(),
    {
        NodeInfo { id: self.id, addr: self.addr.clone(), client_addr: self.client_addr.clone() }
    }
}

impl From<NodeInfoMsg> for NodeInfo {
    fn from(msg: NodeInfoMsg) -> (info: NodeInfo) {
        NodeInfo { id: msg.id, addr: msg.addr, client_addr: msg.client_addr }
    }
}

impl vstd::std_specs::convert::FromSpecImpl<NodeInfoMsg> for NodeInfo {
    open spec fn obeys_from_spec() -> bool {
        true
    }

    open spec fn from_spec(msg: NodeInfoMsg) -> NodeInfo {
        NodeInfo { id: msg.id, addr: msg.addr, client_addr: msg.client_addr }
    }
}

impl<'a> From<&'a NodeInfo> for NodeInfoMsg {
    fn from(info: &'a NodeInfo) -> (msg: NodeInfoMsg) {
        NodeInfoMsg { id: info.id, addr: info.addr.clone(), client_addr: info.client_addr.clone() }
    }
}

impl<'a> vstd::std_specs::convert::FromSpecImpl<&'a NodeInfo> for NodeInfoMsg {
    open spec fn obeys_from_spec() -> bool {
        true
    }

    open spec fn from_spec(info: &'a NodeInfo) -> NodeInfoMsg {
        NodeInfoMsg { id: info.id, addr: info.addr, client_addr: info.client_addr }
    }
}

/// Node descriptions as carried in messages.
pub fn infos_from_msgs(v: &Vec<NodeInfoMsg>) -> (r: Vec<NodeInfo>)
    ensures
        r.deep_view() == v.deep_view(),
{
    let mut r: Vec<NodeInfo> = Vec::new();
    let mut i: usize = 0;
    while i < v.len()
        invariant
            i <= v.len(),
            r.deep_view() == v.deep_view().take(i as int),
        decreases v.len() - i,
    {
        let x = NodeInfo::from(v[i].duplicate());
        let ghost prev = r.deep_view();
        assert(x.deep_view() == v.deep_view()[i as int]);
        r.push(x);
        assert(r.deep_view() =~= prev.push(x.deep_view()));
        i = i + 1;
        assert(r.deep_view() =~= v.deep_view().take(i as int));
    }
    assert(v.deep_view().take(i as int) =~= v.deep_view());
    r
}

/// Node descriptions for a message.
pub fn msgs_from_infos(v: &Vec<NodeInfo>) -> (r: Vec<NodeInfoMsg>)
    ensures
        r.deep_view() == v.deep_view(),
{
    let mut r: Vec<NodeInfoMsg> = Vec::new();
    let mut i: usize = 0;
    while i < v.len()
        invariant
            i <= v.len(),
            r.deep_view() == v.deep_view().take(i as int),
        decreases v.len() - i,
    {
        let x = NodeInfoMsg::from(&v[i]);
        let ghost prev = r.deep_view();
        assert(x.deep_view() == v.deep_view()[i as int]);
        r.push(x);
        assert(r.deep_view() =~= prev.push(x.deep_view()));
        i = i + 1;
        assert(r.deep_view() =~= v.deep_view().take(i as int));
    }
    assert(v.deep_view().take(i as int) =~= v.deep_view());
    r
}

/// Some node of `s` has id `id`.
pub open spec fn has_id(s: Seq<NodeView>, id: u8) -> bool {
    exists|i: int| 0 <= i < s.len() && #[trigger] s[i].0 == id
}

/// Whether some node of the list has id `id`.
pub fn contains_node_id(nodes: &Vec<NodeInfoMsg>, id: u8) -> (r: bool)
    ensures
        r == has_id(nodes.deep_view(), id),
{
    let mut i: usize = 0;
    while i < nodes.len()
        invariant
            i <= nodes.len(),
            forall|j: int| 0 <= j < i ==> nodes.deep_view()[j].0 != id,
        decreases nodes.len() - i,
    {
        if nodes[i].id == id {
            assert(nodes.deep_view()[i as int].0 == id);
            return true;
        }
        i = i + 1;
    }
    false
}

// ----------------------------------------------------------------------------
// Sorting by id (stable insertion)
// ----------------------------------------------------------------------------

/// Inserts `x` after the last node whose id is at most `x`'s.
pub open spec fn insert_by_id(s: Seq<NodeView>, x: NodeView) -> Seq<NodeView>
    decreases s.len(),
{
    if s.len() == 0 {
        seq![x]
    } else if x.0 < s.last().0 {
        insert_by_id(s.drop_last(), x).push(s.last())
    } else {
        s.push(x)
    }
}

/// The nodes ordered by id; nodes with equal ids keep their order.
pub open spec fn sort_nodes(s: Seq<NodeView>) -> Seq<NodeView>
    decreases s.len(),
{
    if s.len() == 0 {
        Seq::empty()
    } else {
        insert_by_id(sort_nodes(s.drop_last()), s.last())
    }
}

/// Ids ascend along the sequence.
pub open spec fn sorted_by_id(s: Seq<NodeView>) -> bool {
    forall|i: int, j: int| 0 <= i <= j < s.len() ==> s[i].0 <= s[j].0
}

proof fn lemma_insert_by_id(s: Seq<NodeView>, x: NodeView)
    requires
        sorted_by_id(s),
    ensures
        sorted_by_id(insert_by_id(s, x)),
        insert_by_id(s, x).to_multiset() == s.to_multiset().insert(x),
        insert_by_id(s, x).len() == s.len() + 1,
    decreases s.len(),
{
    broadcast use vstd::seq_lib::group_to_multiset_ensures;

    if s.len() == 0 {
        assert(seq![x] =~= Seq::<NodeView>::empty().push(x));
        assert(s =~= Seq::<NodeView>::empty());
    } else if x.0 < s.last().0 {
        let init = s.drop_last();
        assert(sorted_by_id(init));
        lemma_insert_by_id(init, x);
        let t = insert_by_id(init, x);
        assert(forall|k: int| 0 <= k < t.len() ==> #[trigger] t[k].0 <= s.last().0) by {
            assert forall|k: int| 0 <= k < t.len() implies #[trigger] t[k].0 <= s.last().0 by {
                assert(t.to_multiset().count(t[k]) > 0);
                if t[k] != x {
                    assert(init.to_multiset().count(t[k]) > 0);
                    assert(init.contains(t[k]));
                    let m = choose|m: int| 0 <= m < init.len() && init[m] == t[k];
                    assert(s[m] == init[m]);
                    assert(s[m].0 <= s[s.len() - 1].0);
                }
            }
        }
        assert(init.push(s.last()) =~= s);
    } else {
    }
}

proof fn lemma_sort_nodes(s: Seq<NodeView>)
    ensures
        sorted_by_id(sort_nodes(s)),
        sort_nodes(s).to_multiset() == s.to_multiset(),
        sort_nodes(s).len() == s.len(),
    decreases s.len(),
{
    broadcast use vstd::seq_lib::group_to_multiset_ensures;

    if s.len() > 0 {
        lemma_sort_nodes(s.drop_last());
        lemma_insert_by_id(sort_nodes(s.drop_last()), s.last());
        assert(s.drop_last().push(s.last()) =~= s);
    }
}

/// Sorting gives nodes ordered by id, with the same nodes as before.
pub proof fn lemma_sort_nodes_sorted_permutation(s: Seq<NodeView>)
    ensures
        sorted_by_id(sort_nodes(s)),
        sort_nodes(s).to_multiset() == s.to_multiset(),
{
    lemma_sort_nodes(s);
}

proof fn lemma_insert_at(s: Seq<NodeView>, x: NodeView, j: int)
    requires
        0 <= j <= s.len(),
        forall|k: int| j <= k < s.len() ==> x.0 < #[trigger] s[k].0,
        j > 0 ==> s[j - 1].0 <= x.0,
    ensures
        insert_by_id(s, x) == s.insert(j, x),
    decreases s.len(),
{
    if s.len() == 0 {
        assert(s.insert(j, x) =~= seq![x]);
    } else if j == s.len() {
        assert(s.insert(j, x) =~= s.push(x));
    } else {
        lemma_insert_at(s.drop_last(), x, j);
        assert(s.drop_last().insert(j, x).push(s.last()) =~= s.insert(j, x));
    }
}

/// Sorts the nodes by id; nodes with equal ids keep their order.
pub fn sort_by_id(v: Vec<NodeInfo>) -> (r: Vec<NodeInfo>)
    ensures
        r.deep_view() == sort_nodes(v.deep_view()),
{
    let mut v = v;
    let ghost orig = v.deep_view();
    let mut r: Vec<NodeInfo> = Vec::new();
    let mut rest: Vec<NodeInfo> = Vec::new();
    // Move the nodes out in reverse, so that popping gives them in order.
    while v.len() > 0
        invariant
            orig == v.deep_view() + rest.deep_view().reverse(),
        decreases v.len(),
    {
        let ghost before_v = v.deep_view();
        let ghost before_r = rest.deep_view();
        let x = v.pop().unwrap();
        rest.push(x);
        assert(v.deep_view() =~= before_v.drop_last());
        assert(rest.deep_view() =~= before_r.push(x.deep_view()));
        assert(before_v =~= before_v.drop_last().push(x.deep_view()));
        assert(rest.deep_view().reverse() =~= seq![x.deep_view()] + before_r.reverse());
        assert(orig =~= v.deep_view() + rest.deep_view().reverse());
    }
    assert(orig =~= rest.deep_view().reverse());
    let ghost n = orig.len();
    while rest.len() > 0
        invariant
            rest.deep_view().len() <= n,
            orig.len() == n,
            orig.take(n - rest.deep_view().len()) + rest.deep_view().reverse() == orig,
            r.deep_view() == sort_nodes(orig.take(n - rest.deep_view().len())),
        decreases rest.len(),
    {
        let ghost done = orig.take(n - rest.deep_view().len());
        let ghost before_rest = rest.deep_view();
        let x = rest.pop().unwrap();
        assert(rest.deep_view() =~= before_rest.drop_last());
        let ghost done2 = orig.take(n - rest.deep_view().len());
        assert(before_rest.reverse() =~= seq![x.deep_view()] + rest.deep_view().reverse());
        assert(done2 =~= done.push(x.deep_view())) by {
            assert(orig =~= done + (seq![x.deep_view()] + rest.deep_view().reverse()));
        }
        let mut j = r.len();
        while j > 0 && r[j - 1].id > x.id
            invariant
                j <= r.len(),
                forall|k: int| j <= k < r.len() ==> x.id < #[trigger] r.deep_view()[k].0,
            decreases j,
        {
            j = j - 1;
        }
        proof {
            assert(done2.drop_last() =~= done);
            lemma_insert_at(r.deep_view(), x.deep_view(), j as int);
        }
        let ghost rv = r.deep_view();
        r.insert(j, x);
        assert(r.deep_view() =~= rv.insert(j as int, x.deep_view()));
    }
    assert(orig.take(n as int) =~= orig);
    r
}


// ----------------------------------------------------------------------------
// The node and its abstract state
// ----------------------------------------------------------------------------

/// Abstract state of a ring node.
#[verifier::ext_equal]
pub struct RingState {
    pub node_id: u8,
    pub is_leader: bool,
    pub current_leader_id: u8,
    pub successor_addr: Seq<char>,
    pub cluster: Seq<NodeView>,
    pub ring_port: u16,
    pub single_node: bool,
    pub client_addr: Seq<char>,
    pub running: bool,
    pub monitor_running: bool,
    pub monitor_timeout_secs: u64,
    pub heartbeat_interval_secs: u64,
    pub election_in_progress: bool,
    pub forwards_updates: bool,
    pub error_count: u64,
    pub last_heartbeat_seq: u64,
    pub next_sequence: u64,
    pub primary_failed: bool,
    pub alternative_logged: bool,
}

/// What the caller of a handler must do after it returns.
#[derive(Debug, Clone)]
pub enum RingAction {
    /// Send the message to the successor on the ring (with failover).
    Send(ElectionMessage),
    /// Start the leader's heartbeat loop.
    StartHeartbeats,
    /// Start watching the leader's heartbeats.
    StartLeaderMonitor,
    /// Start waiting for the heartbeats of an unknown leader.
    StartDiscovery,
    /// Clear the election flag after a while (`expire_election`).
    ExpireElectionLater,
    /// Hand the update to the replication worker.
    Deliver(StateUpdateData),
}

/// Abstract value of an action.
#[verifier::ext_equal]
pub enum ActionView {
    Send(MsgView),
    StartHeartbeats,
    StartLeaderMonitor,
    StartDiscovery,
    ExpireElectionLater,
    Deliver(UpdateView),
}

impl DeepView for RingAction {
    type V = ActionView;

    open spec fn deep_view(&self) -> ActionView {
        match self {
            RingAction::Send(m) => ActionView::Send(m.deep_view()),
            RingAction::StartHeartbeats => ActionView::StartHeartbeats,
            RingAction::StartLeaderMonitor => ActionView::StartLeaderMonitor,
            RingAction::StartDiscovery => ActionView::StartDiscovery,
            RingAction::ExpireElectionLater => ActionView::ExpireElectionLater,
            RingAction::Deliver(u) => ActionView::Deliver(u.deep_view()),
        }
    }
}

/// A node of the election ring.
pub struct RingElectionNode {
    pub node_id: u8,
    pub is_leader: bool,
    pub current_leader_id: u8,
    successor_addr: String,
    cluster_nodes: Vec<NodeInfo>,
    ring_port: u16,
    is_single_node_ring: bool,
    client_addr: String,
    heartbeat_monitor: HeartbeatMonitor,
    heartbeat_sender: HeartbeatSender,
    running: bool,
    election_in_progress: bool,
    forwards_updates: bool,
    heartbeat_error_count: u64,
    last_heartbeat_seq: u64,
    primary_successor_failed: bool,
    logged_alternative_use: bool,
}

impl View for RingElectionNode {
    type V = RingState;

    closed spec fn view(&self) -> RingState {
        RingState {
            node_id: self.node_id,
            is_leader: self.is_leader,
            current_leader_id: self.current_leader_id,
            successor_addr: self.successor_addr@,
            cluster: self.cluster_nodes.deep_view(),
            ring_port: self.ring_port,
            single_node: self.is_single_node_ring,
            client_addr: self.client_addr@,
            running: self.running,
            monitor_running: self.heartbeat_monitor@.0,
            monitor_timeout_secs: self.heartbeat_monitor@.1,
            heartbeat_interval_secs: self.heartbeat_sender@.1,
            election_in_progress: self.election_in_progress,
            forwards_updates: self.forwards_updates,
            error_count: self.heartbeat_error_count,
            last_heartbeat_seq: self.last_heartbeat_seq,
            next_sequence: self.heartbeat_sender@.0,
            primary_failed: self.primary_successor_failed,
            alternative_logged: self.logged_alternative_use,
        }
    }
}

impl RingElectionNode {
    /// How many times the leader monitor recorded a heartbeat (took a new
    /// reading of the clock) since the node was made.
    pub closed spec fn monitor_refreshes(&self) -> nat {
        self.heartbeat_monitor.refreshes()
    }
}

/// How many times an `Elected` message from `leader_id` refreshes the
/// leader monitor: once, unless the node itself is the one elected.
pub open spec fn elected_refreshes(s: RingState, leader_id: u8) -> nat {
    if leader_id == s.node_id {
        0
    } else {
        1
    }
}

/// How many times a heartbeat of `leader_id` refreshes the leader monitor:
/// a follower refreshes it once; a leader that hears a larger id yields and
/// refreshes it twice (as it yields, and as a follower); a leader that
/// hears itself or a smaller id does not.
pub open spec fn heartbeat_refreshes(s: RingState, leader_id: u8) -> nat {
    if s.is_leader && leader_id != s.node_id {
        if leader_id > s.node_id {
            2
        } else {
            0
        }
    } else if !s.is_leader {
        1
    } else {
        0
    }
}

/// How many times a `ClusterSync` from `origin_id` refreshes the leader
/// monitor: once, unless the node itself sent it.
pub open spec fn cluster_sync_refreshes(s: RingState, origin_id: u8) -> nat {
    if origin_id == s.node_id {
        0
    } else {
        1
    }
}

/// How many times a ring message refreshes the leader monitor.
pub open spec fn message_refreshes(s: RingState, m: MsgView) -> nat {
    match m {
        MsgView::Elected { leader_id, .. } => elected_refreshes(s, leader_id),
        MsgView::Heartbeat { leader_id, .. } => heartbeat_refreshes(s, leader_id),
        MsgView::ClusterSync { origin_id, .. } => cluster_sync_refreshes(s, origin_id),
        _ => 0,
    }
}

// ----------------------------------------------------------------------------
// The protocol, as steps of the abstract state
// ----------------------------------------------------------------------------

/// The ring address under which a node lists itself.
pub open spec fn own_ring_addr(port: u16) -> Seq<char> {
    "127.0.0.1:"@ + decimal(port as nat)
}

/// The entry of the node itself in a cluster list.
pub open spec fn self_entry(s: RingState) -> NodeView {
    (s.node_id, own_ring_addr(s.ring_port), s.client_addr)
}

/// A successor address that names this very node: it mentions the node's
/// ring port and starts with a loopback or wildcard host.
pub open spec fn names_self(successor: Seq<char>, ring_port: u16) -> bool {
    &&& occurs_in(":"@ + decimal(ring_port as nat), successor)
    &&& (is_prefix_of("127.0.0.1:"@, successor) || is_prefix_of("localhost:"@, successor)
        || is_prefix_of("0.0.0.0:"@, successor))
}

/// Taking the lead: announce it with `cluster` and start sending heartbeats;
/// nothing happens if the node leads already.
pub open spec fn lead_step(s: RingState, cluster: Seq<NodeView>) -> (RingState, Seq<ActionView>) {
    if s.is_leader {
        (s, seq![])
    } else {
        (
            RingState {
                is_leader: true,
                current_leader_id: s.node_id,
                election_in_progress: false,
                ..s
            },
            seq![
                ActionView::Send(MsgView::Elected { leader_id: s.node_id, cluster_nodes: cluster }),
                ActionView::StartHeartbeats,
            ],
        )
    }
}

/// Taking the lead with the node's own cluster list.
pub open spec fn become_leader_step(s: RingState) -> (RingState, Seq<ActionView>) {
    lead_step(s, s.cluster)
}

/// An `Election` message arrives (Chang-Roberts with topology discovery).
pub open spec fn election_step(s: RingState, candidate: u8, visited: Seq<NodeView>) -> (
    RingState,
    Seq<ActionView>,
) {
    let s1 = RingState { election_in_progress: true, ..s };
    if has_id(visited, s.node_id) {
        if candidate == s.node_id {
            lead_step(RingState { cluster: visited, ..s1 }, visited)
        } else {
            (
                RingState { cluster: visited, election_in_progress: false, ..s1 },
                seq![
                    ActionView::Send(
                        MsgView::Election { candidate_id: candidate, visited_nodes: visited },
                    ),
                ],
            )
        }
    } else {
        (
            s1,
            seq![
                ActionView::Send(
                    MsgView::Election {
                        candidate_id: if candidate > s.node_id {
                            candidate
                        } else {
                            s.node_id
                        },
                        visited_nodes: visited.push(self_entry(s)),
                    },
                ),
            ],
        )
    }
}

/// An `Elected` message arrives.
pub open spec fn elected_step(s: RingState, leader: u8, cluster: Seq<NodeView>) -> (
    RingState,
    Seq<ActionView>,
) {
    if leader == s.node_id {
        (RingState { election_in_progress: false, ..s }, seq![])
    } else {
        let s1 = RingState {
            cluster,
            current_leader_id: leader,
            is_leader: false,
            election_in_progress: false,
            ..s
        };
        let fwd = ActionView::Send(MsgView::Elected { leader_id: leader, cluster_nodes: cluster });
        if s.monitor_running {
            (s1, seq![fwd])
        } else {
            (s1, seq![ActionView::StartLeaderMonitor, fwd])
        }
    }
}

/// A `Heartbeat` message arrives. A leader ignores the heartbeats of a
/// lower id and yields to a higher one; a follower adopts the sender as
/// leader; the heartbeat travels on only the first time its sequence
/// number is seen.
pub open spec fn heartbeat_step(s: RingState, leader: u8, sequence: u64) -> (
    RingState,
    Seq<ActionView>,
) {
    if s.is_leader && leader < s.node_id {
        (s, seq![])
    } else {
        let s1 = if s.is_leader && leader > s.node_id {
            RingState {
                is_leader: false,
                current_leader_id: leader,
                election_in_progress: false,
                ..s
            }
        } else {
            s
        };
        let s2 = if !s1.is_leader && s1.current_leader_id != leader {
            RingState { current_leader_id: leader, election_in_progress: false, ..s1 }
        } else {
            s1
        };
        if sequence > s2.last_heartbeat_seq {
            (
                RingState { last_heartbeat_seq: sequence, ..s2 },
                seq![ActionView::Send(MsgView::Heartbeat { leader_id: leader, sequence })],
            )
        } else {
            (s2, seq![])
        }
    }
}

/// The cluster list a node adopts from a topology sync: the received list,
/// with the node itself added if missing, ordered by id.
pub open spec fn synced_cluster(s: RingState, nodes: Seq<NodeView>) -> Seq<NodeView> {
    sort_nodes(
        if has_id(nodes, s.node_id) {
            nodes
        } else {
            nodes.push(self_entry(s))
        },
    )
}

/// A `ClusterSync` message arrives; it stops when back at its origin.
pub open spec fn cluster_sync_step(s: RingState, nodes: Seq<NodeView>, leader: u8, origin: u8) -> (
    RingState,
    Seq<ActionView>,
) {
    if origin == s.node_id {
        (s, seq![])
    } else {
        let c = synced_cluster(s, nodes);
        (
            RingState { cluster: c, current_leader_id: leader, ..s },
            seq![
                ActionView::Send(
                    MsgView::ClusterSync {
                        cluster_nodes: c,
                        leader_id: leader,
                        origin_id: origin,
                        client_addr: s.client_addr,
                    },
                ),
            ],
        )
    }
}

/// A follower that forwards updates hands `u` to the replication worker.
pub open spec fn deliver_if_follower(s: RingState, u: UpdateView) -> Seq<ActionView> {
    if !s.is_leader && s.forwards_updates {
        seq![ActionView::Deliver(u)]
    } else {
        seq![]
    }
}

/// Operation code of a whole-state snapshot handed to the replication worker.
pub const FULL_SYNC_OPERATION: u8 = 255;

/// Any ring message arrives.
pub open spec fn ring_message_step(s: RingState, m: MsgView) -> (RingState, Seq<ActionView>) {
    match m {
        MsgView::Election { candidate_id, visited_nodes } => election_step(
            s,
            candidate_id,
            visited_nodes,
        ),
        MsgView::Elected { leader_id, cluster_nodes } => elected_step(s, leader_id, cluster_nodes),
        MsgView::Heartbeat { leader_id, sequence } => heartbeat_step(s, leader_id, sequence),
        MsgView::ClusterSync { cluster_nodes, leader_id, origin_id, client_addr } =>
            cluster_sync_step(s, cluster_nodes, leader_id, origin_id),
        MsgView::StateUpdate { operation_type, account_id, data, timestamp } => (
            s,
            deliver_if_follower(s, (operation_type, account_id, data, timestamp)),
        ),
        MsgView::StateSyncRequest { requesting_node_id } => (s, seq![]),
        MsgView::StateSyncResponse { accounts } => (
            s,
            deliver_if_follower(s, (FULL_SYNC_OPERATION, 0u64, accounts, 0u64)),
        ),
    }
}

/// Starting an election, unless one is under way: the node sends its own
/// id with itself as the first visited node, and the election flag expires
/// after a while.
pub open spec fn start_election_step(s: RingState) -> (RingState, Seq<ActionView>) {
    if s.election_in_progress {
        (s, seq![])
    } else {
        (
            RingState { election_in_progress: true, ..s },
            seq![
                ActionView::Send(
                    MsgView::Election { candidate_id: s.node_id, visited_nodes: seq![self_entry(s)] },
                ),
                ActionView::ExpireElectionLater,
            ],
        )
    }
}

/// The topology broadcast of a node that knows more than itself.
pub open spec fn cluster_broadcast(s: RingState) -> Seq<ActionView> {
    if s.cluster.len() <= 1 {
        seq![]
    } else {
        seq![
            ActionView::Send(
                MsgView::ClusterSync {
                    cluster_nodes: s.cluster,
                    leader_id: s.current_leader_id,
                    origin_id: s.node_id,
                    client_addr: s.client_addr,
                },
            ),
        ]
    }
}


/// What the leader's heartbeat loop does at one tick: nothing once the node
/// stops or no longer leads; otherwise it numbers a heartbeat, remembers the
/// number as seen, and sends it.
pub open spec fn heartbeat_tick_step(s: RingState) -> (RingState, Option<MsgView>) {
    if !s.running || !s.is_leader {
        (s, None)
    } else {
        (
            RingState {
                next_sequence: s.next_sequence.wrapping_add(1),
                last_heartbeat_seq: s.next_sequence,
                ..s
            },
            Some(MsgView::Heartbeat { leader_id: s.node_id, sequence: s.next_sequence }),
        )
    }
}

/// After a heartbeat was sent or not: the failure count is cleared or grows,
/// and every third heartbeat the topology is broadcast.
pub open spec fn heartbeat_sent_step(s: RingState, sequence: u64, delivered: bool) -> (
    RingState,
    Seq<ActionView>,
) {
    let s1 = RingState {
        error_count: if delivered {
            0
        } else {
            s.error_count.wrapping_add(1)
        },
        ..s
    };
    (
        s1,
        if sequence % 3 == 0 {
            cluster_broadcast(s1)
        } else {
            seq![]
        },
    )
}

/// The decision of the leader monitor.
#[derive(Debug)]
pub enum MonitorStep {
    /// The node stopped or leads: stop monitoring.
    Stop,
    /// Keep waiting.
    Wait,
    /// The leader is silent: wait `backoff_ms` milliseconds, start an
    /// election, and re-arm the monitor later.
    Elect { backoff_ms: u64 },
}

/// The monitor's decision, given whether the leader's heartbeats timed out.
/// Lower ids back off longer, which gives the higher ids the first word.
pub open spec fn monitor_decision(s: RingState, timed_out: bool) -> MonitorStep {
    if !s.running || s.is_leader {
        MonitorStep::Stop
    } else if timed_out && !s.election_in_progress {
        MonitorStep::Elect { backoff_ms: ((255 - s.node_id) * 50) as u64 }
    } else {
        MonitorStep::Wait
    }
}

/// The actions that start a node: discover the leader when none is known,
/// otherwise lead or follow.
pub open spec fn startup_plan(s: RingState) -> Seq<ActionView> {
    if s.current_leader_id == 0 {
        seq![ActionView::StartDiscovery]
    } else if s.is_leader {
        seq![ActionView::StartHeartbeats]
    } else {
        seq![ActionView::StartLeaderMonitor]
    }
}

/// An update produced here reaches the replication worker only on the leader.
pub open spec fn replicate_plan(s: RingState, u: UpdateView) -> Seq<ActionView> {
    if s.is_leader && s.forwards_updates {
        seq![ActionView::Deliver(u)]
    } else {
        seq![]
    }
}

/// The first node of `s` with id `id`.
pub open spec fn find_node(s: Seq<NodeView>, id: u8) -> Option<NodeView>
    decreases s.len(),
{
    if s.len() == 0 {
        None
    } else if s[0].0 == id {
        Some(s[0])
    } else {
        find_node(s.drop_first(), id)
    }
}

/// The client address of a node, from its ring address when it has none:
/// the host of the ring address with the ring port lowered by 1292, or a
/// fixed local address when the ring port cannot be read.
pub open spec fn node_client_addr(n: NodeView) -> Seq<char> {
    if n.2.len() > 0 {
        n.2
    } else {
        match after_char(n.1, ':') {
            Some(rest) => match parse_unsigned(before_char(rest, ':'), 65535) {
                Some(port) => before_char(n.1, ':') + ":"@ + decimal(
                    if port >= 1292 {
                        (port - 1292) as nat
                    } else {
                        0
                    },
                ),
                None => "127.0.0.1:6789"@,
            },
            None => "127.0.0.1:6789"@,
        }
    }
}

/// A node other than `id`.
pub open spec fn not_node(id: u8) -> spec_fn(NodeView) -> bool {
    |n: NodeView| n.0 != id
}

/// The other nodes of the cluster.
pub open spec fn other_nodes(cluster: Seq<NodeView>, id: u8) -> Seq<NodeView> {
    cluster.filter(not_node(id))
}

/// In `s`, the first `k` nodes have ids at most `id` and the rest more.
pub open spec fn is_split(s: Seq<NodeView>, id: u8, k: int) -> bool {
    &&& 0 <= k <= s.len()
    &&& forall|j: int| 0 <= j < k ==> #[trigger] s[j].0 <= id
    &&& k < s.len() ==> s[k].0 > id
}

/// Where the nodes of a sorted list pass `id`.
pub open spec fn split_index(s: Seq<NodeView>, id: u8) -> int {
    choose|k: int| is_split(s, id, k)
}

/// The other nodes in ring order after this one: ascending ids from the
/// first id above this node's, wrapping around to the lowest.
pub open spec fn ring_order(cluster: Seq<NodeView>, id: u8) -> Seq<NodeView> {
    let s = sort_nodes(other_nodes(cluster, id));
    let k = split_index(s, id);
    s.subrange(k, s.len() as int) + s.subrange(0, k)
}

/// A node as a delivery candidate: `(ring address, id)`.
pub open spec fn as_candidate(n: NodeView) -> (Seq<char>, u8) {
    (n.1, n.0)
}

/// A node kept as candidate: any node, or, when `skip_primary`, one whose
/// ring address is not the configured successor's.
pub open spec fn kept_candidate(successor: Seq<char>, skip_primary: bool) -> spec_fn(NodeView) -> bool {
    |n: NodeView| !skip_primary || n.1 != successor
}

/// The delivery candidates in ring order, without the configured successor
/// when `skip_primary`.
pub open spec fn candidates(cluster: Seq<NodeView>, id: u8, successor: Seq<char>, skip_primary: bool) -> Seq<(Seq<char>, u8)> {
    ring_order(cluster, id).filter(kept_candidate(successor, skip_primary)).map_values(
        |n: NodeView| as_candidate(n),
    )
}

proof fn lemma_split_exists(s: Seq<NodeView>, id: u8)
    requires
        sorted_by_id(s),
    ensures
        is_split(s, id, split_index(s, id)),
    decreases s.len(),
{
    if s.len() == 0 {
        assert(is_split(s, id, 0));
    } else {
        let init = s.drop_last();
        assert(sorted_by_id(init));
        lemma_split_exists(init, id);
        let k = split_index(init, id);
        assert forall|j: int| 0 <= j < k implies #[trigger] s[j].0 <= id by {
            assert(init[j] == s[j]);
            assert(init[j].0 <= id);
        }
        if k < init.len() {
            assert(init[k] == s[k]);
            assert(is_split(s, id, k));
        } else if s.last().0 <= id {
            assert(is_split(s, id, s.len() as int));
        } else {
            assert(is_split(s, id, init.len() as int));
        }
    }
}

proof fn lemma_split_unique(s: Seq<NodeView>, id: u8, k: int)
    requires
        is_split(s, id, k),
    ensures
        split_index(s, id) == k,
{
    let c = split_index(s, id);
    assert(is_split(s, id, c));
    if c < k {
        assert(s[c].0 <= id);
    } else if k < c {
        assert(s[k].0 <= id);
    }
}

/// The nodes of `v` that `keep` selects, in order.
proof fn lemma_filter_step(s: Seq<NodeView>, i: int, p: spec_fn(NodeView) -> bool)
    requires
        0 <= i < s.len(),
    ensures
        s.take(i + 1).filter(p) == if p(s[i]) {
            s.take(i).filter(p).push(s[i])
        } else {
            s.take(i).filter(p)
        },
{
    assert(s.take(i + 1) =~= s.take(i).push(s[i]));
    s.take(i).lemma_filter_push(s[i], p);
}


// ----------------------------------------------------------------------------
// The node's handlers
// ----------------------------------------------------------------------------

fn no_actions() -> (r: Vec<RingAction>)
    ensures
        r.deep_view() == Seq::<ActionView>::empty(),
{
    let r: Vec<RingAction> = Vec::new();
    assert(r.deep_view() =~= Seq::<ActionView>::empty());
    r
}

fn one_action(a: RingAction) -> (r: Vec<RingAction>)
    ensures
        r.deep_view() == seq![a.deep_view()],
{
    let mut r: Vec<RingAction> = Vec::new();
    r.push(a);
    assert(r.deep_view() =~= seq![a.deep_view()]);
    r
}

fn two_actions(a: RingAction, b: RingAction) -> (r: Vec<RingAction>)
    ensures
        r.deep_view() == seq![a.deep_view(), b.deep_view()],
{
    let mut r: Vec<RingAction> = Vec::new();
    r.push(a);
    r.push(b);
    assert(r.deep_view() =~= seq![a.deep_view(), b.deep_view()]);
    r
}

/// The ring address `127.0.0.1:<port>` under which a node lists itself.
fn own_ring_addr_text(port: u16) -> (r: String)
    ensures
        r@ == own_ring_addr(port),
{
    let mut t = "127.0.0.1:".to_owned();
    push_decimal(&mut t, port as u64);
    t
}

/// Whether the successor address names the node itself.
fn successor_is_self(successor: &String, ring_port: u16) -> (r: bool)
    ensures
        r == names_self(successor@, ring_port),
{
    let mut pattern = ":".to_owned();
    push_decimal(&mut pattern, ring_port as u64);
    let s = successor.as_str();
    contains_text(s, pattern.as_str()) && (starts_with_text(s, "127.0.0.1:") || starts_with_text(
        s,
        "localhost:",
    ) || starts_with_text(s, "0.0.0.0:"))
}

impl RingElectionNode {
    /// A node of the ring. With `initial_leader_id == 0` no leader is known
    /// and the node starts by discovering it; otherwise the node leads when
    /// the id is its own. `forwards_updates` says whether a replication
    /// worker takes the updates that arrive. The heartbeat timeout is 8 s and
    /// the heartbeat interval 2 s.
    pub fn new(
        node_id: u8,
        ring_port: u16,
        successor_addr: String,
        initial_leader_id: u8,
        forwards_updates: bool,
        cluster_nodes: Vec<NodeInfo>,
        client_addr: String,
    ) -> (n: Self)
        ensures
            n.monitor_refreshes() == 0,
            n@ == (RingState {
                node_id,
                is_leader: initial_leader_id != 0 && node_id == initial_leader_id,
                current_leader_id: initial_leader_id,
                successor_addr: successor_addr@,
                cluster: cluster_nodes.deep_view(),
                ring_port,
                single_node: names_self(successor_addr@, ring_port),
                client_addr: client_addr@,
                running: true,
                monitor_running: true,
                monitor_timeout_secs: 8,
                heartbeat_interval_secs: 2,
                election_in_progress: false,
                forwards_updates,
                error_count: 0,
                last_heartbeat_seq: 0,
                next_sequence: 0,
                primary_failed: false,
                alternative_logged: false,
            }),
    {
        let is_single_node_ring = successor_is_self(&successor_addr, ring_port);
        RingElectionNode {
            node_id,
            is_leader: initial_leader_id != 0 && node_id == initial_leader_id,
            current_leader_id: initial_leader_id,
            successor_addr,
            cluster_nodes,
            ring_port,
            is_single_node_ring,
            client_addr,
            heartbeat_monitor: HeartbeatMonitor::new(8),
            heartbeat_sender: HeartbeatSender::new(2),
            running: true,
            election_in_progress: false,
            forwards_updates,
            heartbeat_error_count: 0,
            last_heartbeat_seq: 0,
            primary_successor_failed: false,
            logged_alternative_use: false,
        }
    }

    /// The entry of this node in a cluster list.
    fn self_entry_msg(&self) -> (m: NodeInfoMsg)
        ensures
            m.deep_view() == self_entry(self@),
    {
        NodeInfoMsg {
            id: self.node_id,
            addr: own_ring_addr_text(self.ring_port),
            client_addr: self.client_addr.clone(),
        }
    }

    /// What starts the node besides its listener.
    pub fn startup_actions(&self) -> (r: Vec<RingAction>)
        ensures
            r.deep_view() == startup_plan(self@),
    {
        if self.current_leader_id == 0 {
            one_action(RingAction::StartDiscovery)
        } else if self.is_leader {
            one_action(RingAction::StartHeartbeats)
        } else {
            one_action(RingAction::StartLeaderMonitor)
        }
    }

    /// Takes the lead with the node's cluster list, unless it leads already.
    pub fn become_leader(&mut self) -> (r: Vec<RingAction>)
        ensures
            final(self).monitor_refreshes() == old(self).monitor_refreshes(),
            final(self)@ == become_leader_step(old(self)@).0,
            r.deep_view() == become_leader_step(old(self)@).1,
    {
        let cluster = msgs_from_infos(&self.cluster_nodes);
        self.lead_with(cluster)
    }

    /// Takes the lead announcing `cluster_nodes`, unless it leads already.
    pub fn become_leader_with_cluster(&mut self, cluster_nodes: Vec<NodeInfoMsg>) -> (r: Vec<
        RingAction,
    >)
        ensures
            final(self).monitor_refreshes() == old(self).monitor_refreshes(),
            final(self)@ == lead_step(old(self)@, cluster_nodes.deep_view()).0,
            r.deep_view() == lead_step(old(self)@, cluster_nodes.deep_view()).1,
    {
        self.lead_with(cluster_nodes)
    }

    fn lead_with(&mut self, cluster_nodes: Vec<NodeInfoMsg>) -> (r: Vec<RingAction>)
        ensures
            final(self).monitor_refreshes() == old(self).monitor_refreshes(),
            final(self)@ == lead_step(old(self)@, cluster_nodes.deep_view()).0,
            r.deep_view() == lead_step(old(self)@, cluster_nodes.deep_view()).1,
    {
        if self.is_leader {
            return no_actions();
        }
        self.is_leader = true;
        self.current_leader_id = self.node_id;
        self.election_in_progress = false;
        two_actions(
            RingAction::Send(
                ElectionMessage::Elected { leader_id: self.node_id, cluster_nodes },
            ),
            RingAction::StartHeartbeats,
        )
    }

    /// An `Election` message arrives.
    pub fn handle_election(&mut self, candidate_id: u8, visited_nodes: Vec<NodeInfoMsg>) -> (r: Vec<
        RingAction,
    >)
        ensures
            final(self).monitor_refreshes() == old(self).monitor_refreshes(),
            final(self)@ == election_step(old(self)@, candidate_id, visited_nodes.deep_view()).0,
            r.deep_view() == election_step(old(self)@, candidate_id, visited_nodes.deep_view()).1,
    {
        self.election_in_progress = true;
        let seen = contains_node_id(&visited_nodes, self.node_id);
        if seen {
            self.cluster_nodes = infos_from_msgs(&visited_nodes);
            if candidate_id == self.node_id {
                return self.lead_with(visited_nodes);
            }
            self.election_in_progress = false;
            return one_action(
                RingAction::Send(ElectionMessage::Election { candidate_id, visited_nodes }),
            );
        }
        let entry = self.self_entry_msg();
        let mut updated = visited_nodes;
        let ghost before = updated.deep_view();
        updated.push(entry);
        assert(updated.deep_view() =~= before.push(entry.deep_view()));
        let new_candidate = if candidate_id > self.node_id {
            candidate_id
        } else {
            self.node_id
        };
        one_action(
            RingAction::Send(
                ElectionMessage::Election { candidate_id: new_candidate, visited_nodes: updated },
            ),
        )
    }

    /// An `Elected` message arrives.
    pub fn handle_elected(&mut self, leader_id: u8, cluster_nodes: Vec<NodeInfoMsg>) -> (r: Vec<
        RingAction,
    >)
        ensures
            final(self).monitor_refreshes() == old(self).monitor_refreshes() + elected_refreshes(old(self)@, leader_id),
            final(self)@ == elected_step(old(self)@, leader_id, cluster_nodes.deep_view()).0,
            r.deep_view() == elected_step(old(self)@, leader_id, cluster_nodes.deep_view()).1,
    {
        if leader_id == self.node_id {
            self.election_in_progress = false;
            return no_actions();
        }
        self.cluster_nodes = infos_from_msgs(&cluster_nodes);
        self.current_leader_id = leader_id;
        self.is_leader = false;
        self.election_in_progress = false;
        self.heartbeat_monitor.update();
        let forward = RingAction::Send(ElectionMessage::Elected { leader_id, cluster_nodes });
        if self.heartbeat_monitor.is_running() {
            one_action(forward)
        } else {
            two_actions(RingAction::StartLeaderMonitor, forward)
        }
    }

    /// A `Heartbeat` message arrives.
    pub fn handle_heartbeat(&mut self, leader_id: u8, sequence: u64) -> (r: Vec<RingAction>)
        ensures
            final(self).monitor_refreshes() == old(self).monitor_refreshes() + heartbeat_refreshes(old(self)@, leader_id),
            final(self)@ == heartbeat_step(old(self)@, leader_id, sequence).0,
            r.deep_view() == heartbeat_step(old(self)@, leader_id, sequence).1,
    {
        if self.is_leader && leader_id != self.node_id {
            if leader_id > self.node_id {
                self.is_leader = false;
                self.current_leader_id = leader_id;
                self.heartbeat_monitor.update();
                self.election_in_progress = false;
            } else {
                return no_actions();
            }
        }
        if !self.is_leader {
            self.heartbeat_monitor.update();
            if self.current_leader_id != leader_id {
                self.current_leader_id = leader_id;
                self.election_in_progress = false;
            }
        }
        if sequence > self.last_heartbeat_seq {
            self.last_heartbeat_seq = sequence;
            one_action(RingAction::Send(ElectionMessage::Heartbeat { leader_id, sequence }))
        } else {
            no_actions()
        }
    }

    /// A `ClusterSync` message arrives.
    pub fn handle_cluster_sync(
        &mut self,
        cluster_nodes: Vec<NodeInfoMsg>,
        leader_id: u8,
        origin_id: u8,
    ) -> (r: Vec<RingAction>)
        ensures
            final(self).monitor_refreshes() == old(self).monitor_refreshes() + cluster_sync_refreshes(old(self)@, origin_id),
            final(self)@ == cluster_sync_step(
                old(self)@,
                cluster_nodes.deep_view(),
                leader_id,
                origin_id,
            ).0,
            r.deep_view() == cluster_sync_step(
                old(self)@,
                cluster_nodes.deep_view(),
                leader_id,
                origin_id,
            ).1,
    {
        if origin_id == self.node_id {
            return no_actions();
        }
        let mut nodes = infos_from_msgs(&cluster_nodes);
        if !contains_node_id(&cluster_nodes, self.node_id) {
            let entry = NodeInfo::from(self.self_entry_msg());
            let ghost before = nodes.deep_view();
            nodes.push(entry);
            assert(nodes.deep_view() =~= before.push(entry.deep_view()));
        }
        let nodes = sort_by_id(nodes);
        let message_nodes = msgs_from_infos(&nodes);
        self.cluster_nodes = nodes;
        self.current_leader_id = leader_id;
        self.heartbeat_monitor.update();
        one_action(
            RingAction::Send(
                ElectionMessage::ClusterSync {
                    cluster_nodes: message_nodes,
                    leader_id,
                    origin_id,
                    client_addr: self.client_addr.clone(),
                },
            ),
        )
    }

    /// An update for the replication worker, when this node is a follower
    /// that forwards updates.
    fn deliver_if_follower(&self, update: StateUpdateData) -> (r: Vec<RingAction>)
        ensures
            r.deep_view() == deliver_if_follower(self@, update.deep_view()),
    {
        if !self.is_leader && self.forwards_updates {
            one_action(RingAction::Deliver(update))
        } else {
            no_actions()
        }
    }

    /// A `StateUpdate` message arrives: a follower that forwards updates
    /// hands it to the replication worker; nothing travels on.
    pub fn handle_state_update(
        &self,
        operation_type: u8,
        account_id: u64,
        data: Vec<u8>,
        timestamp: u64,
    ) -> (r: Vec<RingAction>)
        ensures
            r.deep_view() == deliver_if_follower(
                self@,
                (operation_type, account_id, data@, timestamp),
            ),
    {
        self.deliver_if_follower(StateUpdateData { operation_type, account_id, data, timestamp })
    }

    /// Handles a message that arrived on the ring.
    pub fn handle_ring_message(&mut self, msg: ElectionMessage) -> (r: Vec<RingAction>)
        ensures
            final(self).monitor_refreshes() == old(self).monitor_refreshes() + message_refreshes(old(self)@, msg.deep_view()),
            final(self)@ == ring_message_step(old(self)@, msg.deep_view()).0,
            r.deep_view() == ring_message_step(old(self)@, msg.deep_view()).1,
    {
        match msg {
            ElectionMessage::Election { candidate_id, visited_nodes } => self.handle_election(
                candidate_id,
                visited_nodes,
            ),
            ElectionMessage::Elected { leader_id, cluster_nodes } => self.handle_elected(
                leader_id,
                cluster_nodes,
            ),
            ElectionMessage::Heartbeat { leader_id, sequence } => self.handle_heartbeat(
                leader_id,
                sequence,
            ),
            ElectionMessage::ClusterSync { cluster_nodes, leader_id, origin_id, client_addr } =>
                self.handle_cluster_sync(cluster_nodes, leader_id, origin_id),
            ElectionMessage::StateUpdate { operation_type, account_id, data, timestamp } => self.handle_state_update(
                operation_type,
                account_id,
                data,
                timestamp,
            ),
            ElectionMessage::StateSyncRequest { requesting_node_id } => no_actions(),
            ElectionMessage::StateSyncResponse { accounts } => self.deliver_if_follower(
                StateUpdateData {
                    operation_type: FULL_SYNC_OPERATION,
                    account_id: 0,
                    data: accounts,
                    timestamp: 0,
                },
            ),
        }
    }

    /// Starts an election, unless one is under way.
    pub fn start_election(&mut self) -> (r: Vec<RingAction>)
        ensures
            final(self).monitor_refreshes() == old(self).monitor_refreshes(),
            final(self)@ == start_election_step(old(self)@).0,
            r.deep_view() == start_election_step(old(self)@).1,
    {
        if self.election_in_progress {
            return no_actions();
        }
        self.election_in_progress = true;
        let entry = self.self_entry_msg();
        let mut visited_nodes: Vec<NodeInfoMsg> = Vec::new();
        visited_nodes.push(entry);
        assert(visited_nodes.deep_view() =~= seq![entry.deep_view()]);
        two_actions(
            RingAction::Send(
                ElectionMessage::Election { candidate_id: self.node_id, visited_nodes },
            ),
            RingAction::ExpireElectionLater,
        )
    }

    /// The delayed end of an election: the flag is cleared.
    pub fn expire_election(&mut self)
        ensures
            final(self).monitor_refreshes() == old(self).monitor_refreshes(),
            final(self)@ == (RingState { election_in_progress: false, ..old(self)@ }),
    {
        self.election_in_progress = false;
    }

    /// The topology broadcast, when the node knows more than itself.
    pub fn broadcast_cluster_sync(&self) -> (r: Vec<RingAction>)
        ensures
            r.deep_view() == cluster_broadcast(self@),
    {
        if self.cluster_nodes.len() <= 1 {
            return no_actions();
        }
        let cluster_nodes = msgs_from_infos(&self.cluster_nodes);
        one_action(
            RingAction::Send(
                ElectionMessage::ClusterSync {
                    cluster_nodes,
                    leader_id: self.current_leader_id,
                    origin_id: self.node_id,
                    client_addr: self.client_addr.clone(),
                },
            ),
        )
    }

    /// Hands a change made here to the replication worker: only the leader
    /// replicates, and only when a worker takes updates.
    pub fn replicate_state_async(&self, update: StateUpdateData) -> (r: Vec<RingAction>)
        ensures
            r.deep_view() == replicate_plan(self@, update.deep_view()),
    {
        if !self.is_leader {
            return no_actions();
        }
        if self.forwards_updates {
            one_action(RingAction::Deliver(update))
        } else {
            no_actions()
        }
    }
}


impl RingElectionNode {
    /// One tick of the leader's heartbeat loop: the heartbeat to send, or
    /// `None` when the loop must stop.
    pub fn heartbeat_tick(&mut self) -> (r: Option<ElectionMessage>)
        ensures
            final(self).monitor_refreshes() == old(self).monitor_refreshes(),
            final(self)@ == heartbeat_tick_step(old(self)@).0,
            r.deep_view() == heartbeat_tick_step(old(self)@).1,
    {
        if !self.running || !self.is_leader {
            return None;
        }
        let sequence = self.heartbeat_sender.next_sequence();
        self.last_heartbeat_seq = sequence;
        Some(ElectionMessage::Heartbeat { leader_id: self.node_id, sequence })
    }

    /// Records whether the heartbeat numbered `sequence` could be sent, and
    /// gives the topology broadcast due every third heartbeat.
    pub fn heartbeat_sent(&mut self, sequence: u64, delivered: bool) -> (r: Vec<RingAction>)
        ensures
            final(self).monitor_refreshes() == old(self).monitor_refreshes(),
            final(self)@ == heartbeat_sent_step(old(self)@, sequence, delivered).0,
            r.deep_view() == heartbeat_sent_step(old(self)@, sequence, delivered).1,
    {
        if delivered {
            self.heartbeat_error_count = 0;
        } else {
            self.heartbeat_error_count = self.heartbeat_error_count.wrapping_add(1);
        }
        if sequence % 3 == 0 {
            self.broadcast_cluster_sync()
        } else {
            no_actions()
        }
    }

    /// The leader monitor's decision, given whether the leader's heartbeats
    /// timed out.
    pub fn monitor_step(&self, timed_out: bool) -> (r: MonitorStep)
        ensures
            r == monitor_decision(self@, timed_out),
    {
        if !self.running || self.is_leader {
            MonitorStep::Stop
        } else if timed_out && !self.election_in_progress {
            MonitorStep::Elect { backoff_ms: (255 - self.node_id as u64) * 50 }
        } else {
            MonitorStep::Wait
        }
    }

    /// The leader monitor's decision now: whether the heartbeat timeout has
    /// passed is read from the clock.
    pub fn check_leader(&self) -> (r: MonitorStep)
        ensures
            exists|now: Instant| r == monitor_decision(self@, #[trigger] self.leader_timed_out_at(now)),
    {
        let now = instant_now();
        self.check_leader_at(&now)
    }

    /// The leader's heartbeat timeout has passed at the clock reading `now`.
    pub closed spec fn leader_timed_out_at(&self, now: Instant) -> bool {
        self.heartbeat_monitor.timed_out_at(now)
    }

    /// The leader monitor's decision at the clock reading `now`.
    pub fn check_leader_at(&self, now: &Instant) -> (r: MonitorStep)
        ensures
            r == monitor_decision(self@, self.leader_timed_out_at(*now)),
    {
        let timed_out = self.heartbeat_monitor.is_timeout_at(now);
        self.monitor_step(timed_out)
    }

    /// The interval between the leader's heartbeats, in seconds.
    pub fn heartbeat_interval_secs(&self) -> (r: u64)
        ensures
            r == self@.heartbeat_interval_secs,
    {
        self.heartbeat_sender.interval_secs()
    }

    /// Restarts the heartbeat timeout from now.
    pub fn touch_heartbeat(&mut self)
        ensures
            final(self).monitor_refreshes() == old(self).monitor_refreshes() + 1,
            final(self)@ == old(self)@,
    {
        self.heartbeat_monitor.update();
    }

    /// Restarts the heartbeat timeout from the clock reading `now`: the
    /// timeout is then measured from `now`.
    pub fn touch_heartbeat_at(&mut self, now: Instant)
        ensures
            final(self).monitor_refreshes() == old(self).monitor_refreshes() + 1,
            final(self)@ == old(self)@,
            forall|later: Instant| #[trigger] final(self).leader_timed_out_at(later) == {
                let d = saturating_gap(later, now);
                longer_than(duration_secs(d), duration_nanos(d), old(self)@.monitor_timeout_secs)
            },
    {
        self.heartbeat_monitor.update_at(now);
    }

    /// How long a node without a known leader waits for heartbeats before
    /// it starts an election: 3 s, plus one second per unit of its id.
    pub fn discovery_timeout_secs(&self) -> (r: u64)
        ensures
            r == 3 + self@.node_id,
    {
        3 + self.node_id as u64
    }

    /// The client address of the current leader, if the cluster list knows it.
    pub fn get_leader_addr(&self) -> (r: Option<String>)
        ensures
            r is Some <==> find_node(self@.cluster, self@.current_leader_id) is Some,
            r matches Some(a) ==> a@ == find_node(self@.cluster, self@.current_leader_id).unwrap().2,
    {
        match self.find_node_index(self.current_leader_id) {
            Some(i) => Some(self.cluster_nodes[i].client_addr.clone()),
            None => None,
        }
    }

    /// The position of the first node with id `id`.
    fn find_node_index(&self, id: u8) -> (r: Option<usize>)
        ensures
            r is Some <==> find_node(self@.cluster, id) is Some,
            r matches Some(i) ==> i < self@.cluster.len() && find_node(self@.cluster, id) == Some(
                self@.cluster[i as int],
            ),
    {
        let ghost s = self.cluster_nodes.deep_view();
        let mut i: usize = 0;
        assert(s.skip(0) =~= s);
        while i < self.cluster_nodes.len()
            invariant
                i <= self.cluster_nodes.len(),
                s == self.cluster_nodes.deep_view(),
                find_node(s, id) == find_node(s.skip(i as int), id),
            decreases self.cluster_nodes.len() - i,
        {
            assert(s.skip(i as int)[0] == s[i as int]);
            if self.cluster_nodes[i].id == id {
                return Some(i);
            }
            assert(s.skip(i as int).drop_first() =~= s.skip(i + 1));
            i = i + 1;
        }
        assert(s.skip(i as int) =~= Seq::<NodeView>::empty());
        None
    }

    /// The client addresses of all nodes of the cluster, in list order.
    pub fn get_cluster_client_addrs(&self) -> (r: Vec<String>)
        ensures
            r.deep_view() == self@.cluster.map_values(|n: NodeView| n.2),
    {
        let ghost s = self.cluster_nodes.deep_view();
        let mut addrs: Vec<String> = Vec::new();
        let mut i: usize = 0;
        while i < self.cluster_nodes.len()
            invariant
                i <= self.cluster_nodes.len(),
                s == self.cluster_nodes.deep_view(),
                addrs.deep_view() == s.take(i as int).map_values(|n: NodeView| n.2),
            decreases self.cluster_nodes.len() - i,
        {
            let a = self.cluster_nodes[i].client_addr.clone();
            let ghost before = addrs.deep_view();
            addrs.push(a);
            assert(addrs.deep_view() =~= before.push(a@));
            i = i + 1;
            assert(addrs.deep_view() =~= s.take(i as int).map_values(|n: NodeView| n.2));
        }
        assert(s.take(i as int) =~= s);
        addrs
    }

    /// The client address of node `node_id`, if the cluster list has it; a
    /// node listed without one gets it from its ring address.
    pub fn get_node_client_address(&self, node_id: u8) -> (r: Option<String>)
        ensures
            r is Some <==> find_node(self@.cluster, node_id) is Some,
            r matches Some(a) ==> a@ == node_client_addr(find_node(self@.cluster, node_id).unwrap()),
    {
        match self.find_node_index(node_id) {
            Some(i) => Some(client_address_of(&self.cluster_nodes[i])),
            None => None,
        }
    }
}

/// The client address of a node, from its ring address when it has none.
fn client_address_of(n: &NodeInfo) -> (r: String)
    ensures
        r@ == node_client_addr(n.deep_view()),
{
    if n.client_addr.as_str().unicode_len() > 0 {
        return n.client_addr.clone();
    }
    let (host, rest) = split_first(n.addr.as_str(), ':');
    match rest {
        Some(rest) => {
            let (port_text, _) = split_first(rest.as_str(), ':');
            match parse_unsigned_text(port_text.as_str(), 65535) {
                Some(port) => {
                    let client_port: u64 = if port >= 1292 {
                        port - 1292
                    } else {
                        0
                    };
                    let mut addr = host;
                    string_append(&mut addr, ":");
                    push_decimal(&mut addr, client_port);
                    addr
                },
                None => "127.0.0.1:6789".to_owned(),
            }
        },
        None => "127.0.0.1:6789".to_owned(),
    }
}


impl RingElectionNode {
    /// The nodes to try, in ring order after this node, when the message
    /// must go around a failed successor: `(ring address, id)`, without the
    /// configured successor when `skip_primary_successor`.
    pub fn get_candidate_nodes(&self, skip_primary_successor: bool) -> (r: Vec<(String, u8)>)
        ensures
            r.deep_view() == candidates(
                self@.cluster,
                self@.node_id,
                self@.successor_addr,
                skip_primary_successor,
            ),
    {
        let ghost s = self.cluster_nodes.deep_view();
        let ghost not_me = not_node(self.node_id);
        let mut others: Vec<NodeInfo> = Vec::new();
        let mut i: usize = 0;
        while i < self.cluster_nodes.len()
            invariant
                i <= self.cluster_nodes.len(),
                s == self.cluster_nodes.deep_view(),
                not_me == not_node(self.node_id),
                others.deep_view() == s.take(i as int).filter(not_me),
            decreases self.cluster_nodes.len() - i,
        {
            proof {
                lemma_filter_step(s, i as int, not_me);
            }
            if self.cluster_nodes[i].id != self.node_id {
                let n = self.cluster_nodes[i].duplicate();
                let ghost before = others.deep_view();
                others.push(n);
                assert(others.deep_view() =~= before.push(n.deep_view()));
            }
            i = i + 1;
        }
        assert(s.take(i as int) =~= s);
        let mut sorted = sort_by_id(others);
        let ghost sv = sorted.deep_view();
        assert(sv == sort_nodes(other_nodes(s, self.node_id)));
        let mut k: usize = 0;
        while k < sorted.len() && sorted[k].id <= self.node_id
            invariant
                k <= sorted.len(),
                sv == sorted.deep_view(),
                forall|j: int| 0 <= j < k ==> #[trigger] sv[j].0 <= self.node_id,
            decreases sorted.len() - k,
        {
            k = k + 1;
        }
        proof {
            lemma_split_unique(sv, self.node_id, k as int);
        }
        let ghost len = sorted.len();
        let mut ordered = sorted.split_off(k);
        ordered.append(&mut sorted);
        let ghost ov = ordered.deep_view();
        assert(ov =~= sv.subrange(k as int, len as int) + sv.subrange(0, k as int)) by {
            assert forall|j: int| 0 <= j < ov.len() implies ov[j] == (sv.subrange(
                k as int,
                len as int,
            ) + sv.subrange(0, k as int))[j] by {
                if j < len - k {
                    assert(ov[j] == sv[k + j]);
                } else {
                    assert(ov[j] == sv[j - (len - k)]);
                }
            }
        }
        assert(ov == ring_order(s, self.node_id));
        let ghost keep = kept_candidate(self.successor_addr@, skip_primary_successor);
        let mut result: Vec<(String, u8)> = Vec::new();
        let mut j: usize = 0;
        while j < ordered.len()
            invariant
                j <= ordered.len(),
                ov == ordered.deep_view(),
                keep == kept_candidate(self.successor_addr@, skip_primary_successor),
                result.deep_view() == ov.take(j as int).filter(keep).map_values(
                    |n: NodeView| as_candidate(n),
                ),
            decreases ordered.len() - j,
        {
            proof {
                lemma_filter_step(ov, j as int, keep);
            }
            let ghost before = result.deep_view();
            let ghost kept_before = ov.take(j as int).filter(keep);
            if !skip_primary_successor || !(ordered[j].addr == self.successor_addr) {
                assert(keep(ov[j as int]));
                let entry = (ordered[j].addr.clone(), ordered[j].id);
                assert(entry.deep_view() == as_candidate(ov[j as int]));
                result.push(entry);
                assert(result.deep_view() =~= before.push(entry.deep_view()));
                assert(result.deep_view() =~= kept_before.push(ov[j as int]).map_values(
                    |n: NodeView| as_candidate(n),
                ));
            } else {
                assert(!keep(ov[j as int]));
            }
            j = j + 1;
        }
        assert(ov.take(j as int) =~= ov);
        result
    }
}


// ----------------------------------------------------------------------------
// Sending to the successor, with failover
// ----------------------------------------------------------------------------

/// How a message leaves the node.
#[derive(Debug)]
pub enum SendPlan {
    /// Nothing goes over the network; carry out these actions instead.
    Handled(Vec<RingAction>),
    /// The message does not travel on the ring; the text says why.
    Refused(String),
    /// Try these ring addresses in turn until one takes the message: the
    /// successor first, then the other nodes in ring order; then report the
    /// position of the one that took it with `finish_send`.
    Attempt(Vec<String>),
}

/// Abstract value of a send plan.
#[verifier::ext_equal]
pub enum PlanView {
    Handled(Seq<ActionView>),
    Refused(Seq<char>),
    Attempt(Seq<Seq<char>>),
}

impl DeepView for SendPlan {
    type V = PlanView;

    open spec fn deep_view(&self) -> PlanView {
        match self {
            SendPlan::Handled(a) => PlanView::Handled(a.deep_view()),
            SendPlan::Refused(e) => PlanView::Refused(e@),
            SendPlan::Attempt(t) => PlanView::Attempt(t.deep_view()),
        }
    }
}

/// The message is an election that carries this node's own id.
pub open spec fn own_election(s: RingState, m: MsgView) -> bool {
    m matches MsgView::Election { candidate_id, .. } && candidate_id == s.node_id
}

/// Why a replication update never travels on the ring.
pub open spec fn state_update_refusal() -> Seq<char> {
    "StateUpdate debe manejarse por el Thread 3 de replicación"@
}

/// Planning the sending of `m`. A node alone on its ring sends nothing,
/// and elects itself when the message is its own election.
pub open spec fn send_plan_step(s: RingState, m: MsgView) -> (RingState, PlanView) {
    if s.single_node {
        if own_election(s, m) {
            (become_leader_step(s).0, PlanView::Handled(become_leader_step(s).1))
        } else {
            (s, PlanView::Handled(seq![]))
        }
    } else if m is StateUpdate {
        (s, PlanView::Refused(state_update_refusal()))
    } else {
        (
            s,
            PlanView::Attempt(
                seq![s.successor_addr] + candidates(
                    s.cluster,
                    s.node_id,
                    s.successor_addr,
                    true,
                ).map_values(|c: (Seq<char>, u8)| c.0),
            ),
        )
    }
}

/// How a message is named in the failure report.
pub open spec fn msg_label(m: MsgView) -> Seq<char> {
    match m {
        MsgView::Election { candidate_id, .. } => "Election("@ + decimal(candidate_id as nat)
            + ")"@,
        MsgView::Elected { leader_id, .. } => "Elected("@ + decimal(leader_id as nat) + ")"@,
        MsgView::Heartbeat { leader_id, sequence } => "Heartbeat("@ + decimal(leader_id as nat)
            + ", seq:"@ + decimal(sequence as nat) + ")"@,
        MsgView::ClusterSync { origin_id, .. } => "ClusterSync(origin:"@ + decimal(
            origin_id as nat,
        ) + ")"@,
        MsgView::StateUpdate { .. } => "StateUpdate"@,
        MsgView::StateSyncRequest { requesting_node_id } => "StateSyncRequest(from:"@ + decimal(
            requesting_node_id as nat,
        ) + ")"@,
        MsgView::StateSyncResponse { .. } => "StateSyncResponse"@,
    }
}

/// The failure report when no node took the message.
pub open spec fn no_route_error(m: MsgView) -> Seq<char> {
    "No hay nodos vivos en el cluster para enviar "@ + msg_label(m)
}

/// The outcome of an attempt: `accepted_by` is the position, among the
/// addresses tried, of the one that took the message (0 for the successor).
/// Success through the successor clears the failure count, and after three
/// or more failures in a row also the failure flags, and broadcasts the
/// topology. Each failure of the successor counts once. When no node takes
/// the node's own election, the node elects itself.
pub open spec fn send_result_step(s: RingState, m: MsgView, accepted_by: Option<usize>) -> (
    RingState,
    Result<(), Seq<char>>,
    Seq<ActionView>,
) {
    let failures = s.error_count.wrapping_add(1);
    match accepted_by {
        Some(i) => if i == 0 {
            if s.error_count >= 3 {
                let s1 = RingState {
                    error_count: 0,
                    primary_failed: false,
                    alternative_logged: false,
                    ..s
                };
                (s1, Ok(()), cluster_broadcast(s1))
            } else {
                (RingState { error_count: 0, ..s }, Ok(()), seq![])
            }
        } else {
            (
                RingState {
                    error_count: 0,
                    primary_failed: s.primary_failed || failures == 1,
                    alternative_logged: s.alternative_logged || (!own_election(s, m) && i == 1),
                    ..s
                },
                Ok(()),
                seq![],
            )
        },
        None => {
            let s1 = RingState {
                error_count: failures,
                primary_failed: s.primary_failed || failures == 1,
                ..s
            };
            if own_election(s, m) {
                (become_leader_step(s1).0, Ok(()), become_leader_step(s1).1)
            } else {
                (s1, Err(no_route_error(m)), seq![])
            }
        },
    }
}

/// Appends `"<prefix><n><suffix>"`.
fn labelled_number(prefix: &str, n: u64, suffix: &str) -> (r: String)
    ensures
        r@ == prefix@ + decimal(n as nat) + suffix@,
{
    let mut t = prefix.to_owned();
    push_decimal(&mut t, n);
    string_append(&mut t, suffix);
    t
}

/// How a message is named in the failure report.
fn describe(msg: &ElectionMessage) -> (r: String)
    ensures
        r@ == msg_label(msg.deep_view()),
{
    match msg {
        ElectionMessage::Election { candidate_id, .. } => labelled_number(
            "Election(",
            *candidate_id as u64,
            ")",
        ),
        ElectionMessage::Elected { leader_id, .. } => labelled_number(
            "Elected(",
            *leader_id as u64,
            ")",
        ),
        ElectionMessage::Heartbeat { leader_id, sequence } => {
            let mut t = labelled_number("Heartbeat(", *leader_id as u64, ", seq:");
            push_decimal(&mut t, *sequence);
            string_append(&mut t, ")");
            t
        },
        ElectionMessage::ClusterSync { origin_id, .. } => labelled_number(
            "ClusterSync(origin:",
            *origin_id as u64,
            ")",
        ),
        ElectionMessage::StateUpdate { .. } => "StateUpdate".to_owned(),
        ElectionMessage::StateSyncRequest { requesting_node_id } => labelled_number(
            "StateSyncRequest(from:",
            *requesting_node_id as u64,
            ")",
        ),
        ElectionMessage::StateSyncResponse { .. } => "StateSyncResponse".to_owned(),
    }
}

impl RingElectionNode {
    fn is_own_election(&self, msg: &ElectionMessage) -> (r: bool)
        ensures
            r == own_election(self@, msg.deep_view()),
    {
        match msg {
            ElectionMessage::Election { candidate_id, .. } => *candidate_id == self.node_id,
            _ => false,
        }
    }

    /// Plans the sending of `msg` to the successor.
    pub fn plan_send(&mut self, msg: &ElectionMessage) -> (r: SendPlan)
        ensures
            final(self).monitor_refreshes() == old(self).monitor_refreshes(),
            final(self)@ == send_plan_step(old(self)@, msg.deep_view()).0,
            r.deep_view() == send_plan_step(old(self)@, msg.deep_view()).1,
    {
        if self.is_single_node_ring {
            if self.is_own_election(msg) {
                return SendPlan::Handled(self.become_leader());
            }
            return SendPlan::Handled(no_actions());
        }
        if let ElectionMessage::StateUpdate { .. } = msg {
            return SendPlan::Refused(
                "StateUpdate debe manejarse por el Thread 3 de replicación".to_owned(),
            );
        }
        let candidates = self.get_candidate_nodes(true);
        let ghost cv = candidates.deep_view();
        let mut targets: Vec<String> = Vec::new();
        targets.push(self.successor_addr.clone());
        let ghost first = seq![self.successor_addr@];
        assert(targets.deep_view() =~= first);
        let mut i: usize = 0;
        while i < candidates.len()
            invariant
                i <= candidates.len(),
                cv == candidates.deep_view(),
                targets.deep_view() == first + cv.take(i as int).map_values(
                    |c: (Seq<char>, u8)| c.0,
                ),
            decreases candidates.len() - i,
        {
            let a = candidates[i].0.clone();
            let ghost before = targets.deep_view();
            targets.push(a);
            assert(targets.deep_view() =~= before.push(a@));
            i = i + 1;
            assert(targets.deep_view() =~= first + cv.take(i as int).map_values(
                |c: (Seq<char>, u8)| c.0,
            ));
        }
        assert(cv.take(i as int) =~= cv);
        SendPlan::Attempt(targets)
    }

    /// Records the outcome of an attempt planned by `plan_send`:
    /// `accepted_by` is the position of the address that took the message,
    /// or `None` when none did.
    pub fn finish_send(&mut self, msg: &ElectionMessage, accepted_by: Option<usize>) -> (r: (
        Result<(), String>,
        Vec<RingAction>,
    ))
        requires
            !old(self)@.single_node,
            !(msg.deep_view() is StateUpdate),
        ensures
            final(self).monitor_refreshes() == old(self).monitor_refreshes(),
            final(self)@ == send_result_step(old(self)@, msg.deep_view(), accepted_by).0,
            r.0 is Ok <==> send_result_step(old(self)@, msg.deep_view(), accepted_by).1 is Ok,
            r.0 matches Err(e) ==> send_result_step(old(self)@, msg.deep_view(), accepted_by).1
                == Err::<(), Seq<char>>(e@),
            r.1.deep_view() == send_result_step(old(self)@, msg.deep_view(), accepted_by).2,
    {
        let own = self.is_own_election(msg);
        match accepted_by {
            Some(i) => {
                if i == 0 {
                    let previous = self.heartbeat_error_count;
                    self.heartbeat_error_count = 0;
                    if previous >= 3 {
                        self.primary_successor_failed = false;
                        self.logged_alternative_use = false;
                        return (Ok(()), self.broadcast_cluster_sync());
                    }
                    (Ok(()), no_actions())
                } else {
                    let failures = self.heartbeat_error_count.wrapping_add(1);
                    if failures == 1 {
                        self.primary_successor_failed = true;
                    }
                    if !own && i == 1 {
                        self.logged_alternative_use = true;
                    }
                    self.heartbeat_error_count = 0;
                    (Ok(()), no_actions())
                }
            },
            None => {
                let failures = self.heartbeat_error_count.wrapping_add(1);
                self.heartbeat_error_count = failures;
                if failures == 1 {
                    self.primary_successor_failed = true;
                }
                if own {
                    return (Ok(()), self.become_leader());
                }
                let mut report = "No hay nodos vivos en el cluster para enviar ".to_owned();
                let label = describe(msg);
                string_append(&mut report, label.as_str());
                (Err(report), no_actions())
            },
        }
    }
}


// ----------------------------------------------------------------------------
// Properties of the protocol
// ----------------------------------------------------------------------------

/// A node that sees an election for the first time forwards the larger of
/// the candidate's id and its own, with itself added to the visited nodes;
/// the highest id therefore survives a full turn of the ring.
pub proof fn lemma_election_forwards_larger_id(s: RingState, candidate: u8, visited: Seq<NodeView>)
    requires
        !has_id(visited, s.node_id),
    ensures
        ({
            let forwarded = if candidate > s.node_id {
                candidate
            } else {
                s.node_id
            };
            &&& forwarded >= candidate && forwarded >= s.node_id
            &&& election_step(s, candidate, visited).1 == seq![
                ActionView::Send(
                    MsgView::Election {
                        candidate_id: forwarded,
                        visited_nodes: visited.push(self_entry(s)),
                    },
                ),
            ]
        }),
{
}

/// When a node's own election comes back to it, the node leads, with the
/// nodes the election visited as its cluster.
pub proof fn lemma_own_election_returns_leader(s: RingState, visited: Seq<NodeView>)
    requires
        has_id(visited, s.node_id),
        !s.is_leader,
    ensures
        election_step(s, s.node_id, visited).0.is_leader,
        election_step(s, s.node_id, visited).0.current_leader_id == s.node_id,
        election_step(s, s.node_id, visited).0.cluster == visited,
        !election_step(s, s.node_id, visited).0.election_in_progress,
{
}

/// A leader is not displaced by the heartbeats of a lower id: its state
/// stays as it is and nothing is forwarded.
pub proof fn lemma_leader_ignores_lower_heartbeat(s: RingState, leader: u8, sequence: u64)
    requires
        s.is_leader,
        leader < s.node_id,
    ensures
        heartbeat_step(s, leader, sequence).0 == s,
        heartbeat_step(s, leader, sequence).1 == Seq::<ActionView>::empty(),
{
}

/// A heartbeat that a node accepts is forwarded exactly when its sequence
/// number is higher than any seen before, and the highest number seen is
/// remembered.
pub proof fn lemma_heartbeat_forwarded_when_new(s: RingState, leader: u8, sequence: u64)
    requires
        !(s.is_leader && leader < s.node_id),
    ensures
        heartbeat_step(s, leader, sequence).1.len() > 0 <==> sequence > s.last_heartbeat_seq,
        heartbeat_step(s, leader, sequence).0.last_heartbeat_seq == if sequence
            > s.last_heartbeat_seq {
            sequence
        } else {
            s.last_heartbeat_seq
        },
{
}

/// The same heartbeat arriving twice is forwarded at most once: a heartbeat
/// stops when it has gone round the ring.
pub proof fn lemma_heartbeat_not_forwarded_twice(s: RingState, leader: u8, sequence: u64)
    ensures
        heartbeat_step(heartbeat_step(s, leader, sequence).0, leader, sequence).1
            == Seq::<ActionView>::empty(),
{
}

/// A follower that receives a heartbeat takes its sender as leader.
pub proof fn lemma_follower_adopts_heartbeat_leader(s: RingState, leader: u8, sequence: u64)
    requires
        !s.is_leader || leader > s.node_id,
    ensures
        !heartbeat_step(s, leader, sequence).0.is_leader,
        heartbeat_step(s, leader, sequence).0.current_leader_id == leader,
{
}

/// No message changes who the node is, where it listens, what it sends to,
/// or whether it runs; and the highest heartbeat number seen never goes down.
pub proof fn lemma_message_keeps_identity(s: RingState, m: MsgView)
    ensures
        ring_message_step(s, m).0.node_id == s.node_id,
        ring_message_step(s, m).0.ring_port == s.ring_port,
        ring_message_step(s, m).0.successor_addr == s.successor_addr,
        ring_message_step(s, m).0.client_addr == s.client_addr,
        ring_message_step(s, m).0.single_node == s.single_node,
        ring_message_step(s, m).0.running == s.running,
        ring_message_step(s, m).0.forwards_updates == s.forwards_updates,
        ring_message_step(s, m).0.last_heartbeat_seq >= s.last_heartbeat_seq,
{
}

/// The cluster list adopted from a topology sync is ordered by id, lists
/// the node itself, and holds exactly the nodes received, plus the node
/// itself when they did not include it.
pub proof fn lemma_synced_cluster_sorted_with_self(s: RingState, nodes: Seq<NodeView>)
    ensures
        sorted_by_id(synced_cluster(s, nodes)),
        has_id(synced_cluster(s, nodes), s.node_id),
        synced_cluster(s, nodes).to_multiset() == (if has_id(nodes, s.node_id) {
            nodes
        } else {
            nodes.push(self_entry(s))
        }).to_multiset(),
{
    broadcast use vstd::seq_lib::group_to_multiset_ensures;

    let base = if has_id(nodes, s.node_id) {
        nodes
    } else {
        nodes.push(self_entry(s))
    };
    lemma_sort_nodes(base);
    let c = synced_cluster(s, nodes);
    let i = if has_id(nodes, s.node_id) {
        choose|i: int| 0 <= i < nodes.len() && #[trigger] nodes[i].0 == s.node_id
    } else {
        nodes.len() as int
    };
    assert(base[i].0 == s.node_id);
    assert(base.to_multiset().count(base[i]) > 0);
    assert(c.to_multiset().count(base[i]) > 0);
    assert(c.contains(base[i]));
    let j = choose|j: int| 0 <= j < c.len() && c[j] == base[i];
    assert(c[j].0 == s.node_id);
}

/// The delivery candidates never include the node itself.
pub proof fn lemma_candidates_exclude_self(
    cluster: Seq<NodeView>,
    id: u8,
    successor: Seq<char>,
    skip_primary: bool,
)
    ensures
        forall|i: int|
            0 <= i < candidates(cluster, id, successor, skip_primary).len() ==> (#[trigger] candidates(
                cluster,
                id,
                successor,
                skip_primary,
            )[i]).1 != id,
{
    broadcast use vstd::seq_lib::group_to_multiset_ensures;
    broadcast use vstd::seq_lib::group_filter_ensures;

    let others = other_nodes(cluster, id);
    let sorted = sort_nodes(others);
    lemma_sort_nodes(others);
    let order = ring_order(cluster, id);
    let keep = kept_candidate(successor, skip_primary);
    let kept = order.filter(keep);
    assert forall|i: int| 0 <= i < order.len() implies #[trigger] order[i].0 != id by {
        let k = split_index(sorted, id);
        let j = if i < sorted.len() - k {
            k + i
        } else {
            i - (sorted.len() - k)
        };
        lemma_split_exists(sorted, id);
        assert(order[i] == sorted[j]);
        assert(sorted.to_multiset().count(sorted[j]) > 0);
        assert(others.to_multiset().count(sorted[j]) > 0);
        assert(others.contains(sorted[j]));
    }
    assert forall|i: int| 0 <= i < kept.len() implies #[trigger] kept[i].0 != id by {
        assert(kept.contains(kept[i]));
        order.lemma_filter_contains_rev(keep, kept[i]);
    }
}

/// The topology a node broadcasts names the leader that node follows (its
/// `current_leader_id`, which for a follower is not itself), carries its
/// whole cluster list, its id as origin and its client address; a node
/// that knows of no other node broadcasts nothing.
pub proof fn lemma_cluster_sync_names_followed_leader(s: RingState)
    ensures
        s.cluster.len() <= 1 ==> cluster_broadcast(s).len() == 0,
        s.cluster.len() > 1 ==> cluster_broadcast(s).len() == 1,
        forall|i: int|
            0 <= i < cluster_broadcast(s).len() ==> #[trigger] cluster_broadcast(s)[i]
                == ActionView::Send(
                MsgView::ClusterSync {
                    cluster_nodes: s.cluster,
                    leader_id: s.current_leader_id,
                    origin_id: s.node_id,
                    client_addr: s.client_addr,
                },
            ),
{
}

/// A follower that learns of a new leader adopts the cluster list it
/// received and forwards the `Elected` message with exactly that list and
/// leader: every `Send` it makes is that message, and it is the last action.
pub proof fn lemma_elected_forwards_received_cluster(s: RingState, leader: u8, cluster: Seq<NodeView>)
    requires
        leader != s.node_id,
    ensures
        ({
            let (s2, acts) = elected_step(s, leader, cluster);
            let fwd = ActionView::Send(MsgView::Elected { leader_id: leader, cluster_nodes: cluster });
            &&& s2.cluster == cluster
            &&& s2.current_leader_id == leader
            &&& !s2.is_leader
            &&& acts.len() > 0 && acts.last() == fwd
            &&& forall|i: int| 0 <= i < acts.len() && (#[trigger] acts[i]) is Send ==> acts[i] == fwd
        }),
{
}

/// When the successor takes a message again after three or more failures
/// in a row, the node clears its failure count and, if it knows of other
/// nodes, broadcasts its topology naming the leader it follows.
pub proof fn lemma_recovery_broadcasts_followed_leader(s: RingState, m: MsgView)
    requires
        s.error_count >= 3,
    ensures
        ({
            let (s2, res, acts) = send_result_step(s, m, Some(0usize));
            let sync = ActionView::Send(
                MsgView::ClusterSync {
                    cluster_nodes: s.cluster,
                    leader_id: s.current_leader_id,
                    origin_id: s.node_id,
                    client_addr: s.client_addr,
                },
            );
            &&& res is Ok
            &&& s2.error_count == 0
            &&& s2.current_leader_id == s.current_leader_id
            &&& acts == (if s.cluster.len() > 1 { seq![sync] } else { seq![] })
        }),
{
    lemma_cluster_sync_names_followed_leader(
        RingState { error_count: 0, primary_failed: false, alternative_logged: false, ..s },
    );
    let s1 = RingState { error_count: 0, primary_failed: false, alternative_logged: false, ..s };
    if s.cluster.len() > 1 {
        assert(cluster_broadcast(s1) =~= seq![
            ActionView::Send(
                MsgView::ClusterSync {
                    cluster_nodes: s.cluster,
                    leader_id: s.current_leader_id,
                    origin_id: s.node_id,
                    client_addr: s.client_addr,
                },
            ),
        ]);
    }
}

/// A node that receives another node's topology follows the leader it
/// names, adopts the cluster list (with itself added if missing, sorted by
/// id) and passes the message on with that list, the same leader and
/// origin; the topology stops at the node that sent it.
pub proof fn lemma_cluster_sync_adopts_leader(s: RingState, nodes: Seq<NodeView>, leader: u8, origin: u8)
    ensures
        origin == s.node_id ==> cluster_sync_step(s, nodes, leader, origin) == (s, Seq::<ActionView>::empty()),
        origin != s.node_id ==> ({
            let (s2, acts) = cluster_sync_step(s, nodes, leader, origin);
            &&& s2.current_leader_id == leader
            &&& s2.cluster == synced_cluster(s, nodes)
            &&& sorted_by_id(s2.cluster) && has_id(s2.cluster, s.node_id)
            &&& acts == seq![
                ActionView::Send(
                    MsgView::ClusterSync {
                        cluster_nodes: s2.cluster,
                        leader_id: leader,
                        origin_id: origin,
                        client_addr: s.client_addr,
                    },
                ),
            ]
        }),
{
    lemma_synced_cluster_sorted_with_self(s, nodes);
    if origin == s.node_id {
        assert(cluster_sync_step(s, nodes, leader, origin).1 =~= Seq::<ActionView>::empty());
    }
}

/// The `Elected` message stops at the elected node, which only closes its
/// election. Any other node closes its election, and starts watching the
/// leader's heartbeats first if it was not watching yet; nothing else of
/// its state changes.
pub proof fn lemma_elected_stops_at_leader(s: RingState, leader: u8, cluster: Seq<NodeView>)
    ensures
        leader == s.node_id ==> elected_step(s, leader, cluster) == (
            RingState { election_in_progress: false, ..s },
            Seq::<ActionView>::empty(),
        ),
        leader != s.node_id ==> ({
            let (s2, acts) = elected_step(s, leader, cluster);
            &&& s2 == RingState {
                cluster,
                current_leader_id: leader,
                is_leader: false,
                election_in_progress: false,
                ..s
            }
            &&& acts.len() == if s.monitor_running { 1int } else { 2int }
            &&& !s.monitor_running ==> acts[0] == ActionView::StartLeaderMonitor
        }),
{
    if leader == s.node_id {
        assert(elected_step(s, leader, cluster).1 =~= Seq::<ActionView>::empty());
    }
}

} // verus!
