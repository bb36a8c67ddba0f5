//! Messages of the ring leader election (Chang-Roberts) and of state
//! replication between the central servers.

use vstd::prelude::*;

verus! {

/// Abstract value of a node description: `(id, ring address, client address)`.
pub type NodeView = (u8, Seq<char>, Seq<char>);

/// A node of the cluster as carried in messages. `addr` is the ring address
/// (node-to-node traffic), `client_addr` the address exposed to clients.
#[derive(Debug, Clone)]
pub struct NodeInfoMsg {
    pub id: u8,
    pub addr: String,
    pub client_addr: String,
}

impl DeepView for NodeInfoMsg {
    type V = NodeView;

    open spec fn deep_view(&self) -> NodeView {
        (self.id, self.addr@, self.client_addr@)
    }
}

impl NodeInfoMsg {
    /// A copy with the same id and addresses.
    pub fn duplicate(&self) -> (r: Self)
        ensures
            r.deep_view() == self.deep_view(),
    {
        NodeInfoMsg { id: self.id, addr: self.addr.clone(), client_addr: self.client_addr.clone() }
    }
}

/// Copies a list of node descriptions.
pub fn duplicate_msgs(v: &Vec<NodeInfoMsg>) -> (r: Vec<NodeInfoMsg>)
    ensures
        r.deep_view() == v.deep_view(),
{
    let mut r: Vec<NodeInfoMsg> = Vec::new();
    let mut i: usize = 0;
    while i < v.len()
        invariant
            i <= v.len(),
            r.deep_view() == v.deep_view().take(i as int),
        decreases v.len() - i,
    {
        let x = v[i].duplicate();
        let ghost prev = r.deep_view();
        assert(x.deep_view() == v.deep_view()[i as int]);
        r.push(x);
        assert(r.deep_view() =~= prev.push(x.deep_view()));
        i = i + 1;
        assert(r.deep_view() =~= v.deep_view().take(i as int));
    }
    assert(v.deep_view().take(i as int) =~= v.deep_view());
    r
}

/// Abstract value of a replication record: `(operation_type, account_id, data, timestamp)`.
pub type UpdateView = (u8, u64, Seq<u8>, u64);

/// A change of the accounts' state, passed from the ring to the replication worker.
#[derive(Debug, Clone)]
pub struct StateUpdateData {
    pub operation_type: u8,
    pub account_id: u64,
    pub data: Vec<u8>,
    pub timestamp: u64,
}

impl DeepView for StateUpdateData {
    type V = UpdateView;

    open spec fn deep_view(&self) -> UpdateView {
        (self.operation_type, self.account_id, self.data@, self.timestamp)
    }
}

/// Messages circulating on the ring.
#[derive(Debug, Clone)]
pub enum ElectionMessage {
    /// Carries the candidate id around the ring (the highest id wins), and the
    /// nodes visited so far, from which the topology is learned.
    Election { candidate_id: u8, visited_nodes: Vec<NodeInfoMsg> },
    /// Announces the elected leader with the whole cluster.
    Elected { leader_id: u8, cluster_nodes: Vec<NodeInfoMsg> },
    /// Sent periodically by the leader.
    Heartbeat { leader_id: u8, sequence: u64 },
    /// Topology of the cluster, sent around the ring once from `origin_id`.
    ClusterSync { cluster_nodes: Vec<NodeInfoMsg>, leader_id: u8, origin_id: u8, client_addr: String },
    /// Replication of a change of accounts.
    StateUpdate { operation_type: u8, account_id: u64, data: Vec<u8>, timestamp: u64 },
    /// Request of a whole-state snapshot.
    StateSyncRequest { requesting_node_id: u8 },
    /// Whole-state snapshot of the accounts.
    StateSyncResponse { accounts: Vec<u8> },
}

/// Abstract value of a ring message.
#[verifier::ext_equal]
pub enum MsgView {
    Election { candidate_id: u8, visited_nodes: Seq<NodeView> },
    Elected { leader_id: u8, cluster_nodes: Seq<NodeView> },
    Heartbeat { leader_id: u8, sequence: u64 },
    ClusterSync {
        cluster_nodes: Seq<NodeView>,
        leader_id: u8,
        origin_id: u8,
        client_addr: Seq<char>,
    },
    StateUpdate { operation_type: u8, account_id: u64, data: Seq<u8>, timestamp: u64 },
    StateSyncRequest { requesting_node_id: u8 },
    StateSyncResponse { accounts: Seq<u8> },
}

impl DeepView for ElectionMessage {
    type V = MsgView;

    open spec fn deep_view(&self) -> MsgView {
        match self {
            ElectionMessage::Election { candidate_id, visited_nodes } => MsgView::Election {
                candidate_id: *candidate_id,
                visited_nodes: visited_nodes.deep_view(),
            },
            ElectionMessage::Elected { leader_id, cluster_nodes } => MsgView::Elected {
                leader_id: *leader_id,
                cluster_nodes: cluster_nodes.deep_view(),
            },
            ElectionMessage::Heartbeat { leader_id, sequence } => MsgView::Heartbeat {
                leader_id: *leader_id,
                sequence: *sequence,
            },
            ElectionMessage::ClusterSync { cluster_nodes, leader_id, origin_id, client_addr } =>
                MsgView::ClusterSync {
                cluster_nodes: cluster_nodes.deep_view(),
                leader_id: *leader_id,
                origin_id: *origin_id,
                client_addr: client_addr@,
            },
            ElectionMessage::StateUpdate { operation_type, account_id, data, timestamp } =>
                MsgView::StateUpdate {
                operation_type: *operation_type,
                account_id: *account_id,
                data: data@,
                timestamp: *timestamp,
            },
            ElectionMessage::StateSyncRequest { requesting_node_id } => MsgView::StateSyncRequest {
                requesting_node_id: *requesting_node_id,
            },
            ElectionMessage::StateSyncResponse { accounts } => MsgView::StateSyncResponse {
                accounts: accounts@,
            },
        }
    }
}

} // verus!
