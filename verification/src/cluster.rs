//! Cluster membership: the nodes known to this node, their liveness, and
//! the choice of a leader.

use crate::clock::{Clock, NANOS_PER_SECOND};
use crate::ident::{is_random_identifier, random_identifier};
use std::collections::HashMap;
use vstd::prelude::*;
use vstd::std_specs::iter::IteratorSpec;

verus! {

/// The mathematical value of a [`Node`].
pub struct NodeView {
    pub id: u128,
    pub is_leader: bool,
    pub address: Seq<char>,
    pub last_heartbeat: u64,
}

/// A node of the cluster.
#[derive(Debug, Clone)]
pub struct Node {
    /// The node's identifier.
    pub id: u128,
    /// Whether the node presents itself as the leader.
    pub is_leader: bool,
    /// Where the node listens, as `host:port`.
    pub address: String,
    /// Clock reading at which the node was last heard of.
    pub last_heartbeat: u64,
}

impl View for Node {
    type V = NodeView;

    open spec fn view(&self) -> NodeView {
        NodeView {
            id: self.id,
            is_leader: self.is_leader,
            address: self.address@,
            last_heartbeat: self.last_heartbeat,
        }
    }
}

/// How long a node may stay silent, in nanoseconds, before a health check
/// removes it.
pub const HEARTBEAT_TIMEOUT: u64 = 30 * NANOS_PER_SECOND;

impl NodeView {
    /// A node is alive at `now` when it was last heard of less than
    /// [`HEARTBEAT_TIMEOUT`] ago, or at a reading that `now` has not reached.
    pub open spec fn is_alive(self, now: u64) -> bool {
        now < self.last_heartbeat || now - self.last_heartbeat < HEARTBEAT_TIMEOUT
    }
}

impl Node {
    /// A copy of the node.
    pub fn clone_node(&self) -> (copy: Node)
        ensures
            copy@ == self@,
    {
        Node {
            id: self.id,
            is_leader: self.is_leader,
            address: self.address.clone(),
            last_heartbeat: self.last_heartbeat,
        }
    }

    /// Whether the node counts as alive at clock reading `now`.
    pub fn is_alive(&self, now: u64) -> (alive: bool)
        ensures
            alive == self@.is_alive(now),
    {
        now < self.last_heartbeat || now - self.last_heartbeat < HEARTBEAT_TIMEOUT
    }
}

/// The mathematical value of a [`Cluster`].
pub struct ClusterView {
    /// The known nodes, by identifier.
    pub nodes: Map<u128, NodeView>,
    /// The node that runs this instance, as it was when the cluster was
    /// founded.
    pub self_node: NodeView,
    /// The elected leader, if one was elected.
    pub leader: Option<u128>,
    /// The latest reading of the cluster's clock that an operation has
    /// acted on.
    pub clock: u64,
}

impl ClusterView {
    /// The cluster once its clock has been read as `now`.
    pub open spec fn at(self, now: u64) -> ClusterView {
        ClusterView { clock: now, ..self }
    }

    /// The cluster that a node with this identifier and address founds at
    /// `now`: it is the only member, and there is no leader.
    pub open spec fn founded(id: u128, address: Seq<char>, now: u64) -> ClusterView {
        let founder = NodeView { id, is_leader: false, address, last_heartbeat: now };
        ClusterView {
            nodes: Map::<u128, NodeView>::empty().insert(id, founder),
            self_node: founder,
            leader: None,
            clock: 0,
        }
    }

    /// The identifiers of the known nodes other than this one.
    pub open spec fn peers(self) -> Set<u128> {
        self.nodes.dom().remove(self.self_node.id)
    }

    /// `targets` holds the address of every peer, once for each peer, in
    /// some order.
    pub open spec fn is_heartbeat_round(self, targets: Seq<Seq<char>>) -> bool {
        exists|ids: Seq<u128>|
            {
                &&& ids.no_duplicates()
                &&& ids.to_set() == self.peers()
                &&& #[trigger] ids.len() == targets.len()
                &&& forall|i: int|
                    0 <= i < ids.len() ==> targets[i] == self.nodes[#[trigger] ids[i]].address
            }
    }

    /// `after` is this cluster once a leader has been elected: some known
    /// node leads, and with no node known nothing changes.
    pub open spec fn is_election(self, after: ClusterView) -> bool {
        if self.nodes.dom().is_empty() {
            after == self
        } else {
            &&& after.leader is Some
            &&& self.nodes.contains_key(after.leader->Some_0)
            &&& after == ClusterView { leader: after.leader, ..self }
        }
    }

    /// The identifiers of the known nodes that are not alive at `now`.
    pub open spec fn silent(self, now: u64) -> Set<u128> {
        Set::new(|id: u128| self.nodes.contains_key(id) && !self.nodes[id].is_alive(now))
    }

    /// `removed` holds every known node that is not alive at `now`, once,
    /// in some order.
    pub open spec fn is_health_report(self, now: u64, removed: Seq<NodeView>) -> bool {
        exists|ids: Seq<u128>|
            {
                &&& ids.no_duplicates()
                &&& ids.to_set() == self.silent(now)
                &&& #[trigger] ids.len() == removed.len()
                &&& forall|i: int| 0 <= i < ids.len() ==> removed[i] == self.nodes[#[trigger] ids[i]]
            }
    }

    /// The cluster once the nodes that are not alive at `now` are removed.
    pub open spec fn after_health_check(self, now: u64) -> ClusterView {
        ClusterView {
            nodes: Map::new(
                |id: u128| self.nodes.contains_key(id) && self.nodes[id].is_alive(now),
                |id: u128| self.nodes[id],
            ),
            ..self
        }
    }
}

/// The identifiers under which `nodes` holds a node, each once, in no
/// particular order.
fn member_ids(nodes: &HashMap<u128, Node>) -> (ids: Vec<u128>)
    ensures
        ids@.no_duplicates(),
        ids@.to_set() == nodes@.dom(),
{
    broadcast use vstd::std_specs::hash::group_hash_axioms;

    let mut ids: Vec<u128> = Vec::new();
    let ghost keys = vstd::std_specs::hash::spec_keys_iter(nodes).remaining();
    for id in it: nodes.keys()
        invariant
            it.seq() == keys,
            ids@.len() == it.index(),
            forall|j: int| 0 <= j < ids@.len() ==> ids@[j] == *it.seq()[j],
    {
        ids.push(*id);
    }
    proof {
        assert(ids@ =~= keys.unref());
    }
    ids
}

/// Some position of `ids` before `upto` holds `id`.
spec fn seen(ids: Seq<u128>, upto: int, id: u128) -> bool {
    exists|j: int| 0 <= j < upto && ids[j] == id
}

/// The nodes known to one node of a cluster, and the leader it has elected.
#[derive(Debug)]
pub struct Cluster {
    nodes: HashMap<u128, Node>,
    self_node: Node,
    leader: Option<u128>,
    clock: Clock,
}

impl View for Cluster {
    type V = ClusterView;

    closed spec fn view(&self) -> ClusterView {
        ClusterView {
            nodes: self.nodes@.map_values(|n: Node| n@),
            self_node: self.self_node@,
            leader: self.leader,
            clock: self.clock@,
        }
    }
}

impl Cluster {
    /// The cluster founded at clock reading `now` by the node with
    /// identifier `id` that listens at `address`.
    pub fn new_at(address: String, id: u128, now: u64) -> (cluster: Cluster)
        ensures
            cluster@ == ClusterView::founded(id, address@, now),
    {
        broadcast use vstd::std_specs::hash::group_hash_axioms;

        let self_node = Node { id, is_leader: false, address, last_heartbeat: now };
        let mut nodes: HashMap<u128, Node> = HashMap::new();
        nodes.insert(id, self_node.clone_node());
        let cluster = Cluster { nodes, self_node, leader: None, clock: Clock::start() };
        proof {
            assert(cluster@.nodes =~= ClusterView::founded(id, address@, now).nodes);
        }
        cluster
    }

    /// The cluster founded now by a node with a fresh random identifier
    /// that listens at `address`. The cluster's clock starts with it, so the
    /// founder was last heard of at reading zero.
    pub fn new(address: String) -> (cluster: Cluster)
        ensures
            exists|id: u128|
                is_random_identifier(id) && cluster@ == #[trigger] ClusterView::founded(
                    id,
                    address@,
                    0,
                ),
    {
        let id: u128 = random_identifier();
        let cluster = Cluster::new_at(address, id, 0);
        proof {
            assert(cluster@ == ClusterView::founded(id, address@, 0));
        }
        cluster
    }

    /// Reads the cluster's clock: nanoseconds since the cluster was founded,
    /// and never less than an earlier reading.
    pub fn now(&mut self) -> (reading: u64)
        ensures
            reading >= old(self)@.clock,
            final(self)@ == old(self)@.at(reading),
    {
        self.clock.now()
    }

    /// The elected leader, if one was elected.
    pub fn leader(&self) -> (leader: Option<u128>)
        ensures
            leader == self@.leader,
    {
        self.leader
    }

    /// The number of known nodes.
    pub fn node_count(&self) -> (count: usize)
        ensures
            count == self@.nodes.dom().len(),
    {
        broadcast use vstd::std_specs::hash::group_hash_axioms;

        proof {
            assert(self@.nodes.dom() =~= self.nodes@.dom());
        }
        self.nodes.len()
    }

    /// Whether a node with identifier `node_id` is known.
    pub fn contains_node(&self, node_id: u128) -> (known: bool)
        ensures
            known == self@.nodes.contains_key(node_id),
    {
        broadcast use vstd::std_specs::hash::group_hash_axioms;

        self.nodes.contains_key(&node_id)
    }

    /// Makes `node` known under its identifier, in place of any node known
    /// under that identifier before.
    pub fn add_node(&mut self, node: Node)
        ensures
            final(self)@ == (ClusterView {
                nodes: old(self)@.nodes.insert(node.id, node@),
                ..old(self)@
            }),
    {
        broadcast use vstd::std_specs::hash::group_hash_axioms;

        self.nodes.insert(node.id, node);
        proof {
            assert(self@.nodes =~= old(self)@.nodes.insert(node.id, node@));
        }
    }

    /// Forgets the node known under `node_id`, if there is one.
    pub fn remove_node(&mut self, node_id: u128)
        ensures
            final(self)@ == (ClusterView {
                nodes: old(self)@.nodes.remove(node_id),
                ..old(self)@
            }),
    {
        broadcast use vstd::std_specs::hash::group_hash_axioms;

        self.nodes.remove(&node_id);
        proof {
            assert(self@.nodes =~= old(self)@.nodes.remove(node_id));
        }
    }

    /// Elects a known node as leader. Which one is not fixed; with no node
    /// known the leader stays as it was.
    pub fn elect_leader(&mut self)
        ensures
            old(self)@.is_election(final(self)@),
    {
        let ids = member_ids(&self.nodes);
        proof {
            assert(self@.nodes.dom() =~= self.nodes@.dom());
        }
        if ids.len() > 0 {
            proof {
                assert(ids@.to_set().contains(ids@[0]));
            }
            self.leader = Some(ids[0]);
        } else {
            proof {
                assert forall|id: u128| !self.nodes@.dom().contains(id) by {
                    if self.nodes@.dom().contains(id) {
                        assert(ids@.to_set().contains(id));
                        assert(ids@.contains(id));
                    }
                }
                assert(self.nodes@.dom() =~= Set::<u128>::empty());
            }
        }
    }

    /// The addresses to which this node sends its heartbeat: that of every
    /// known node but itself.
    pub fn send_heartbeat(&self) -> (targets: Vec<String>)
        ensures
            self@.is_heartbeat_round(targets@.map_values(|a: String| a@)),
    {
        broadcast use vstd::std_specs::hash::group_hash_axioms;

        let ids = member_ids(&self.nodes);
        let mut targets: Vec<String> = Vec::new();
        let ghost mut sent: Seq<u128> = Seq::empty();
        let mut i: usize = 0;
        while i < ids.len()
            invariant
                i <= ids@.len(),
                ids@.no_duplicates(),
                ids@.to_set() == self.nodes@.dom(),
                sent.no_duplicates(),
                sent.len() == targets@.len(),
                forall|k: int| 0 <= k < sent.len() ==> seen(ids@, i as int, #[trigger] sent[k]),
                forall|k: int| 0 <= k < sent.len() ==> (#[trigger] sent[k]) != self.self_node.id,
                forall|j: int|
                    0 <= j < i && ids@[j] != self.self_node.id ==> sent.contains(#[trigger] ids@[j]),
                forall|k: int|
                    0 <= k < sent.len() ==> targets@[k]@ == self.nodes@[#[trigger] sent[k]].address@,
            decreases ids@.len() - i,
        {
            let id: u128 = ids[i];
            proof {
                assert(ids@.to_set().contains(id));
            }
            if id != self.self_node.id {
                match self.nodes.get(&id) {
                    Some(node) => {
                        targets.push(node.address.clone());
                        proof {
                            let before = sent;
                            assert forall|k: int| 0 <= k < before.len() implies before[k] != id by {
                                let j = choose|j: int| 0 <= j < i && ids@[j] == before[k];
                                assert(ids@[j] != ids@[i as int]);
                            }
                            sent = sent.push(id);
                            assert forall|j: int|
                                0 <= j < i + 1 && ids@[j] != self.self_node.id implies sent.contains(
                                #[trigger] ids@[j],
                            ) by {
                                if j < i {
                                    let k = choose|k: int| 0 <= k < before.len() && before[k] == ids@[j];
                                    assert(sent[k] == ids@[j]);
                                } else {
                                    assert(sent[sent.len() - 1] == ids@[j]);
                                }
                            }
                        }
                    },
                    None => {},
                }
            }
            proof {
                assert forall|k: int| 0 <= k < sent.len() implies seen(
                    ids@,
                    i + 1,
                    #[trigger] sent[k],
                ) by {
                    if sent[k] == id {
                        assert(ids@[i as int] == sent[k]);
                    } else {
                        let j = choose|j: int| 0 <= j < i && ids@[j] == sent[k];
                        assert(0 <= j < i + 1 && ids@[j] == sent[k]);
                    }
                }
            }
            i += 1;
        }
        proof {
            let addresses = targets@.map_values(|a: String| a@);
            assert forall|id: u128| sent.to_set().contains(id) <==> self@.peers().contains(id) by {
                if sent.to_set().contains(id) {
                    let k = choose|k: int| 0 <= k < sent.len() && sent[k] == id;
                    let j = choose|j: int| 0 <= j < i && ids@[j] == sent[k];
                    assert(ids@.to_set().contains(ids@[j]));
                }
                if self@.peers().contains(id) {
                    assert(ids@.to_set().contains(id));
                    let j = choose|j: int| 0 <= j < ids@.len() && ids@[j] == id;
                    assert(sent.contains(ids@[j]));
                }
            }
            assert(sent.to_set() =~= self@.peers());
            assert forall|k: int| 0 <= k < sent.len() implies addresses[k] == self@.nodes[
            #[trigger] sent[k]].address by {
                assert(seen(ids@, i as int, sent[k]));
                let j = choose|j: int| 0 <= j < i && ids@[j] == sent[k];
                assert(ids@.to_set().contains(ids@[j]));
            }
            assert(sent.len() == addresses.len());
        }
        targets
    }

    /// Removes every known node that is not alive at clock reading `now`,
    /// and returns the removed nodes.
    pub fn perform_health_check_at(&mut self, now: u64) -> (removed: Vec<Node>)
        ensures
            final(self)@ == old(self)@.after_health_check(now),
            old(self)@.is_health_report(now, removed@.map_values(|n: Node| n@)),
    {
        broadcast use vstd::std_specs::hash::group_hash_axioms;

        let ids = member_ids(&self.nodes);
        let ghost before = self.nodes@;
        let mut removed: Vec<Node> = Vec::new();
        let ghost mut gone: Seq<u128> = Seq::empty();
        let mut i: usize = 0;
        while i < ids.len()
            invariant
                i <= ids@.len(),
                ids@.no_duplicates(),
                ids@.to_set() == before.dom(),
                self.self_node == old(self).self_node,
                self.leader == old(self).leader,
                self.clock == old(self).clock,
                forall|id: u128|
                    #![trigger self.nodes@.contains_key(id)]
                    #![trigger before.contains_key(id)]
                    self.nodes@.contains_key(id) <==> before.contains_key(id) && (seen(
                        ids@,
                        i as int,
                        id,
                    ) ==> before[id]@.is_alive(now)),
                forall|id: u128| self.nodes@.contains_key(id) ==> self.nodes@[id] == before[id],
                gone.no_duplicates(),
                gone.len() == removed@.len(),
                forall|k: int| 0 <= k < gone.len() ==> seen(ids@, i as int, #[trigger] gone[k]),
                forall|k: int|
                    0 <= k < gone.len() ==> before.contains_key(#[trigger] gone[k])
                        && !before[gone[k]]@.is_alive(now) && removed@[k] == before[gone[k]],
                forall|j: int|
                    0 <= j < i && !before[ids@[j]]@.is_alive(now) ==> gone.contains(
                        #[trigger] ids@[j],
                    ),
            decreases ids@.len() - i,
        {
            let id: u128 = ids[i];
            let ghost nodes_before = self.nodes@;
            let ghost gone_before = gone;
            proof {
                assert(ids@.to_set().contains(id));
                if seen(ids@, i as int, id) {
                    let j = choose|j: int| 0 <= j < i && ids@[j] == id;
                    assert(ids@[j] != ids@[i as int]);
                }
                assert(before.contains_key(id));
                assert(self.nodes@.contains_key(id));
                assert forall|k: int| 0 <= k < gone_before.len() implies gone_before[k] != id by {
                    let j = choose|j: int| 0 <= j < i && ids@[j] == gone_before[k];
                    assert(ids@[j] != ids@[i as int]);
                }
            }
            let alive = match self.nodes.get(&id) {
                Some(node) => node.is_alive(now),
                None => true,
            };
            if !alive {
                match self.nodes.remove(&id) {
                    Some(node) => {
                        removed.push(node);
                        proof {
                            gone = gone.push(id);
                        }
                    },
                    None => {},
                }
            }
            i += 1;
            proof {
                assert forall|other: u128|
                    #![trigger self.nodes@.contains_key(other)]
                    #![trigger before.contains_key(other)]
                    self.nodes@.contains_key(other) <==> before.contains_key(other) && (seen(
                        ids@,
                        i as int,
                        other,
                    ) ==> before[other]@.is_alive(now)) by {
                    if other == id {
                        assert(ids@[i - 1] == other);
                        assert(seen(ids@, i as int, other));
                    } else {
                        if seen(ids@, i as int, other) {
                            let j = choose|j: int| 0 <= j < i && ids@[j] == other;
                            assert(0 <= j < i - 1 && ids@[j] == other);
                            assert(seen(ids@, i - 1, other));
                        }
                        if seen(ids@, i - 1, other) {
                            let j = choose|j: int| 0 <= j < i - 1 && ids@[j] == other;
                            assert(0 <= j < i && ids@[j] == other);
                        }
                        assert(self.nodes@.contains_key(other) == nodes_before.contains_key(other));
                    }
                }
                assert forall|k: int| 0 <= k < gone.len() implies seen(
                    ids@,
                    i as int,
                    #[trigger] gone[k],
                ) by {
                    if k < gone_before.len() {
                        let j = choose|j: int| 0 <= j < i - 1 && ids@[j] == gone_before[k];
                        assert(0 <= j < i && ids@[j] == gone[k]);
                    } else {
                        assert(ids@[i - 1] == gone[k]);
                    }
                }
                assert forall|j: int|
                    0 <= j < i && !before[ids@[j]]@.is_alive(now) implies gone.contains(
                    #[trigger] ids@[j],
                ) by {
                    if j < i - 1 {
                        let k = choose|k: int|
                            0 <= k < gone_before.len() && gone_before[k] == ids@[j];
                        assert(gone[k] == ids@[j]);
                    } else {
                        assert(gone[gone.len() - 1] == ids@[j]);
                    }
                }
            }
        }
        proof {
            assert forall|id: u128| before.contains_key(id) implies seen(ids@, i as int, id) by {
                assert(ids@.to_set().contains(id));
                let j = choose|j: int| 0 <= j < ids@.len() && ids@[j] == id;
                assert(0 <= j < i && ids@[j] == id);
            }
            assert(self@.nodes =~= old(self)@.after_health_check(now).nodes);
            let report = removed@.map_values(|n: Node| n@);
            assert forall|id: u128| gone.to_set().contains(id) <==> old(self)@.silent(now).contains(
                id,
            ) by {
                if gone.to_set().contains(id) {
                    let k = choose|k: int| 0 <= k < gone.len() && gone[k] == id;
                    assert(before.contains_key(gone[k]));
                }
                if old(self)@.silent(now).contains(id) {
                    assert(before.contains_key(id));
                    assert(ids@.to_set().contains(id));
                    let j = choose|j: int| 0 <= j < ids@.len() && ids@[j] == id;
                    assert(gone.contains(ids@[j]));
                }
            }
            assert(gone.to_set() =~= old(self)@.silent(now));
            assert forall|k: int| 0 <= k < gone.len() implies report[k] == old(self)@.nodes[
            #[trigger] gone[k]] by {
                assert(before.contains_key(gone[k]));
            }
            assert(gone.len() == report.len());
        }
        removed
    }

    /// Removes every known node that is not alive at the present reading of
    /// the cluster's clock, and returns the removed nodes.
    pub fn perform_health_check(&mut self) -> (removed: Vec<Node>)
        ensures
            exists|now: u64|
                {
                    &&& now >= old(self)@.clock
                    &&& final(self)@ == #[trigger] old(self)@.at(now).after_health_check(now)
                    &&& old(self)@.is_health_report(now, removed@.map_values(|n: Node| n@))
                },
    {
        let now: u64 = self.clock.now();
        let removed = self.perform_health_check_at(now);
        proof {
            assert(self@ == old(self)@.at(now).after_health_check(now));
            assert(old(self)@.at(now).silent(now) =~= old(self)@.silent(now));
        }
        removed
    }
}

} // verus!
