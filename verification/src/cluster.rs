//! The cluster mesh: the nodes this node knows of, their health, and the
//! log of recent cross-node events.

use vstd::prelude::*;
use crate::keymap::KeyMap;
use crate::pubsub::bounded_push;
use crate::text::{nat_decimal, push_decimal, push_str, string_of};

verus! {

/// How many cross-node events the mesh keeps.
pub const SYNC_CAP: usize = 100;

/// Seconds without a heartbeat after which a peer counts as degraded.
pub const HEARTBEAT_TIMEOUT: u64 = 30;

/// A node of the cluster.
pub struct ClusterNode {
    pub id: String,
    pub address: String,
    /// `primary` or `replica`.
    pub role: String,
    /// `healthy`, `degraded` or `joining`.
    pub status: String,
    pub latency_ms: u64,
    /// Seconds since the Unix epoch of the node's last heartbeat.
    pub last_heartbeat: u64,
    pub active_connections: usize,
}

/// A node's fields as values.
pub struct NodeView {
    pub id: Seq<char>,
    pub address: Seq<char>,
    pub role: Seq<char>,
    pub status: Seq<char>,
    pub latency_ms: u64,
    pub last_heartbeat: u64,
    pub active_connections: usize,
}

impl View for ClusterNode {
    type V = NodeView;

    open spec fn view(&self) -> NodeView {
        NodeView {
            id: self.id@,
            address: self.address@,
            role: self.role@,
            status: self.status@,
            latency_ms: self.latency_ms,
            last_heartbeat: self.last_heartbeat,
            active_connections: self.active_connections,
        }
    }
}

/// A cross-node event.
pub struct ClusterMessage<P> {
    pub id: String,
    pub from_node: String,
    /// `heartbeat`, `wal_sync`, `broadcast` or `session_sync`.
    pub event_type: String,
    pub payload: P,
    pub timestamp: u64,
}

/// The mesh as seen from one node.
pub struct ClusterMesh<P> {
    node_id: String,
    bind_addr: String,
    primary: bool,
    nodes: KeyMap<ClusterNode>,
    recent_syncs: Vec<ClusterMessage<P>>,
}

/// A copy of a node with another status.
pub open spec fn with_status(n: NodeView, status: Seq<char>) -> NodeView {
    NodeView { status, ..n }
}

/// How a node is listed at second `now` by the node `self_id`: a peer whose
/// last heartbeat is more than the timeout old shows as `degraded`.
pub open spec fn listed_node(n: NodeView, now: u64, self_id: Seq<char>) -> NodeView {
    let age: int = if now >= n.last_heartbeat {
        now - n.last_heartbeat
    } else {
        0
    };
    if age > HEARTBEAT_TIMEOUT && n.id != self_id {
        with_status(n, "degraded"@)
    } else {
        n
    }
}

/// The number of nodes whose status is `healthy`.
pub open spec fn healthy_count(nodes: Seq<NodeView>) -> nat
    decreases nodes.len(),
{
    if nodes.len() == 0 {
        0
    } else {
        healthy_count(nodes.drop_last()) + if nodes.last().status == "healthy"@ {
            1nat
        } else {
            0nat
        }
    }
}

/// The views of a list of nodes.
pub open spec fn node_views(v: Seq<ClusterNode>) -> Seq<NodeView> {
    Seq::new(v.len(), |i: int| v[i]@)
}

/// A summary of the mesh.
pub struct ClusterStats {
    pub node_id: String,
    pub is_primary: bool,
    pub total_nodes: usize,
    pub healthy_nodes: usize,
    pub version: String,
    pub nodes: Vec<ClusterNode>,
}

fn copy_text(s: &String) -> (r: String)
    ensures
        r@ == s@,
{
    s.clone()
}

/// A copy of `n`, with `status` in place of its status where given.
fn copy_node(n: &ClusterNode, status: Option<&str>) -> (r: ClusterNode)
    ensures
        r@ == match status {
            Some(s) => with_status(n@, s@),
            None => n@,
        },
{
    ClusterNode {
        id: copy_text(&n.id),
        address: copy_text(&n.address),
        role: copy_text(&n.role),
        status: match status {
            Some(s) => s.to_owned(),
            None => copy_text(&n.status),
        },
        latency_ms: n.latency_ms,
        last_heartbeat: n.last_heartbeat,
        active_connections: n.active_connections,
    }
}

impl<P> ClusterMesh<P> {
    /// The mesh's consistency: each node is stored under its own id, and the
    /// event log holds at most its cap.
    pub closed spec fn wf(&self) -> bool {
        &&& self.nodes.wf()
        &&& forall|k: Seq<char>| #[trigger] self.nodes@.contains_key(k) ==> self.nodes@[k]@.id == k
        &&& self.recent_syncs@.len() <= SYNC_CAP
    }

    /// This node's id.
    pub closed spec fn self_id(&self) -> Seq<char> {
        self.node_id@
    }

    /// The address this node binds to.
    pub closed spec fn address(&self) -> Seq<char> {
        self.bind_addr@
    }

    /// Whether this node is the primary.
    pub closed spec fn primary(&self) -> bool {
        self.primary
    }

    /// The known nodes by id.
    pub closed spec fn node_map(&self) -> Map<Seq<char>, NodeView> {
        Map::new(|k: Seq<char>| self.nodes@.contains_key(k), |k: Seq<char>| self.nodes@[k]@)
    }

    /// The ids of the known nodes, in the order they were first registered.
    pub closed spec fn node_order(&self) -> Seq<Seq<char>> {
        self.nodes.key_order()
    }

    /// The recent cross-node events, oldest first.
    pub closed spec fn syncs(&self) -> Seq<ClusterMessage<P>> {
        self.recent_syncs@
    }

    /// The event log keeps at most [`SYNC_CAP`] events, and each known node
    /// is stored under its own id.
    pub proof fn law_mesh_consistent(&self)
        requires
            self.wf(),
        ensures
            self.syncs().len() <= SYNC_CAP,
            forall|k: Seq<char>| #[trigger] self.node_map().contains_key(k) ==> self.node_map()[k].id == k,
    {
    }

    /// A mesh that knows only this node, healthy, with its last heartbeat at
    /// second `now`.
    pub fn new(node_id: &str, bind_addr: &str, is_primary: bool, now: u64) -> (m: Self)
        ensures
            m.wf(),
            m.self_id() == node_id@,
            m.address() == bind_addr@,
            m.primary() == is_primary,
            m.node_order() == seq![node_id@],
            m.node_map() == Map::<Seq<char>, NodeView>::empty().insert(
                node_id@,
                NodeView {
                    id: node_id@,
                    address: bind_addr@,
                    role: if is_primary {
                        "primary"@
                    } else {
                        "replica"@
                    },
                    status: "healthy"@,
                    latency_ms: 1,
                    last_heartbeat: now,
                    active_connections: 1,
                },
            ),
            m.syncs() == Seq::<ClusterMessage<P>>::empty(),
    {
        let me = ClusterNode {
            id: node_id.to_owned(),
            address: bind_addr.to_owned(),
            role: if is_primary {
                "primary".to_owned()
            } else {
                "replica".to_owned()
            },
            status: "healthy".to_owned(),
            latency_ms: 1,
            last_heartbeat: now,
            active_connections: 1,
        };
        let ghost mv = me@;
        let mut nodes: KeyMap<ClusterNode> = KeyMap::new();
        nodes.insert(node_id, me);
        let m = ClusterMesh {
            node_id: node_id.to_owned(),
            bind_addr: bind_addr.to_owned(),
            primary: is_primary,
            nodes,
            recent_syncs: Vec::new(),
        };
        proof {
            m.nodes.lemma_key_order();
            let ks = m.nodes.key_order();
            assert(ks.len() == 1);
            assert(ks.contains(ks[0]));
            assert(ks[0] == node_id@);
            assert(ks =~= seq![node_id@]);
        }
        assert(m.node_map() =~= Map::<Seq<char>, NodeView>::empty().insert(node_id@, mv));
        m
    }

    /// This node's id.
    pub fn node_id(&self) -> (s: String)
        ensures
            s@ == self.self_id(),
    {
        self.node_id.clone()
    }

    /// Whether this node is the primary.
    pub fn is_primary(&self) -> (b: bool)
        ensures
            b == self.primary(),
    {
        self.primary
    }

    /// Makes this node the primary, or not.
    pub fn set_primary(&mut self, val: bool)
        requires
            old(self).wf(),
        ensures
            final(self).wf(),
            final(self).primary() == val,
            final(self).self_id() == old(self).self_id(),
            final(self).address() == old(self).address(),
            final(self).node_map() == old(self).node_map(),
            final(self).node_order() == old(self).node_order(),
            final(self).syncs() == old(self).syncs(),
    {
        self.primary = val;
    }

    /// Registers a node, or refreshes it with its latest heartbeat.
    pub fn register_heartbeat(&mut self, node: ClusterNode)
        requires
            old(self).wf(),
        ensures
            final(self).wf(),
            final(self).node_map() == old(self).node_map().insert(node.id@, node@),
            final(self).self_id() == old(self).self_id(),
            final(self).address() == old(self).address(),
            final(self).primary() == old(self).primary(),
            final(self).syncs() == old(self).syncs(),
    {
        let ghost before = self.node_map();
        let ghost nv = node@;
        let id = node.id.clone();
        self.nodes.insert(id.as_str(), node);
        assert(self.node_map() =~= before.insert(nv.id, nv));
    }

    /// Records a cross-node event at second `now`, with the id `sync_` and
    /// the second; a full log drops its oldest event. Returns the event.
    pub fn record_sync(&mut self, event_type: &str, payload: P, now: u64) -> (r: &ClusterMessage<P>)
        requires
            old(self).wf(),
        ensures
            final(self).wf(),
            r.id@ == "sync_"@ + nat_decimal(now as nat),
            r.from_node@ == old(self).self_id(),
            r.event_type@ == event_type@,
            r.payload == payload,
            r.timestamp == now,
            final(self).syncs() == bounded_push(old(self).syncs(), *r, SYNC_CAP as nat),
            final(self).self_id() == old(self).self_id(),
            final(self).address() == old(self).address(),
            final(self).primary() == old(self).primary(),
            final(self).node_map() == old(self).node_map(),
            final(self).node_order() == old(self).node_order(),
    {
        let mut id: Vec<char> = Vec::new();
        push_str(&mut id, "sync_");
        push_decimal(&mut id, now);
        let msg = ClusterMessage {
            id: string_of(&id),
            from_node: self.node_id.clone(),
            event_type: event_type.to_owned(),
            payload,
            timestamp: now,
        };
        let ghost before = self.recent_syncs@;
        let ghost mg = msg;
        if self.recent_syncs.len() >= SYNC_CAP {
            self.recent_syncs.remove(0);
        }
        self.recent_syncs.push(msg);
        assert(self.recent_syncs@ =~= bounded_push(before, mg, SYNC_CAP as nat));
        let last = self.recent_syncs.len() - 1;
        &self.recent_syncs[last]
    }

    /// The known nodes at second `now`, in registration order, each as
    /// [`listed_node`] shows it.
    pub fn nodes_list(&self, now: u64) -> (r: Vec<ClusterNode>)
        requires
            self.wf(),
        ensures
            r@.len() == self.node_order().len(),
            forall|i: int|
                0 <= i < r@.len() ==> (#[trigger] r@[i])@ == listed_node(
                    self.node_map()[self.node_order()[i]],
                    now,
                    self.self_id(),
                ),
    {
        let mut out: Vec<ClusterNode> = Vec::new();
        let n = self.nodes.entry_count();
        let mut i: usize = 0;
        while i < n
            invariant
                self.wf(),
                n == self.node_order().len(),
                i <= n,
                out@.len() == i,
                forall|j: int|
                    0 <= j < i ==> (#[trigger] out@[j])@ == listed_node(
                        self.node_map()[self.node_order()[j]],
                        now,
                        self.self_id(),
                    ),
            decreases n - i,
        {
            let (k, node) = self.nodes.entry_at(i);
            assert(self.node_map()[self.node_order()[i as int]] == node@);
            assert(node@.id == k@);
            let age: u64 = now.saturating_sub(node.last_heartbeat);
            let stale = age > HEARTBEAT_TIMEOUT && node.id != self.node_id;
            let copy = if stale {
                copy_node(node, Some("degraded"))
            } else {
                copy_node(node, None)
            };
            out.push(copy);
            i = i + 1;
        }
        out
    }

    /// A summary of the mesh at second `now`.
    pub fn stats_map(&self, now: u64) -> (s: ClusterStats)
        requires
            self.wf(),
        ensures
            s.node_id@ == self.self_id(),
            s.is_primary == self.primary(),
            s.total_nodes == s.nodes@.len(),
            s.healthy_nodes == healthy_count(node_views(s.nodes@)),
            s.version@ == "10.0.0"@,
            s.nodes@.len() == self.node_order().len(),
            forall|i: int|
                0 <= i < s.nodes@.len() ==> (#[trigger] s.nodes@[i])@ == listed_node(
                    self.node_map()[self.node_order()[i]],
                    now,
                    self.self_id(),
                ),
    {
        let nodes = self.nodes_list(now);
        let healthy = count_healthy(&nodes);
        ClusterStats {
            node_id: self.node_id.clone(),
            is_primary: self.primary,
            total_nodes: nodes.len(),
            healthy_nodes: healthy,
            version: "10.0.0".to_owned(),
            nodes,
        }
    }
}

/// The number of `healthy` nodes in a list.
pub fn count_healthy(nodes: &Vec<ClusterNode>) -> (n: usize)
    ensures
        n == healthy_count(node_views(nodes@)),
{
    let mut n: usize = 0;
    let mut i: usize = 0;
    let healthy = "healthy".to_owned();
    while i < nodes.len()
        invariant
            i <= nodes.len(),
            n <= i,
            healthy@ == "healthy"@,
            n == healthy_count(node_views(nodes@).take(i as int)),
        decreases nodes.len() - i,
    {
        assert(node_views(nodes@).take(i + 1).drop_last() =~= node_views(nodes@).take(i as int));
        if nodes[i].status == healthy {
            n = n + 1;
        }
        i = i + 1;
    }
    assert(node_views(nodes@).take(i as int) =~= node_views(nodes@));
    n
}

} // verus!

verus! {

/// A node never reports itself degraded, and a peer heard from within the
/// timeout keeps its status; a peer silent for longer shows as `degraded`.
pub proof fn law_heartbeat_health(n: NodeView, now: u64, self_id: Seq<char>)
    ensures
        n.id == self_id ==> listed_node(n, now, self_id) == n,
        now <= n.last_heartbeat + HEARTBEAT_TIMEOUT ==> listed_node(n, now, self_id) == n,
        now > n.last_heartbeat + HEARTBEAT_TIMEOUT && n.id != self_id ==> listed_node(n, now, self_id).status
            == "degraded"@,
        listed_node(n, now, self_id).id == n.id,
{
}

} // verus!

verus! {

/// The predicate "this node's status is exactly `healthy`".
pub open spec fn status_is_healthy() -> spec_fn(NodeView) -> bool {
    |n: NodeView| n.status == "healthy"@
}

/// The health count counts exactly the nodes whose status is `healthy`: it
/// is the number of such nodes in the list, never more than the list's
/// length, and adding a node whose status is anything else (`joining`,
/// `degraded`, ...) leaves it unchanged while adding a `healthy` one adds one.
pub proof fn law_healthy_count_counts_healthy(nodes: Seq<NodeView>, n: NodeView)
    ensures
        healthy_count(nodes) == nodes.filter(status_is_healthy()).len(),
        healthy_count(nodes) <= nodes.len(),
        n.status != "healthy"@ ==> healthy_count(nodes.push(n)) == healthy_count(nodes),
        n.status == "healthy"@ ==> healthy_count(nodes.push(n)) == healthy_count(nodes) + 1,
    decreases nodes.len(),
{
    if nodes.len() == 0 {
        reveal(Seq::filter);
    } else {
        law_healthy_count_counts_healthy(nodes.drop_last(), nodes.last());
        assert(nodes.drop_last().push(nodes.last()) =~= nodes);
        nodes.drop_last().lemma_filter_push(nodes.last(), status_is_healthy());
    }
    assert(nodes.push(n).drop_last() =~= nodes);
}

} // verus!
