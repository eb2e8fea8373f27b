//! The controller's picture of what is out there.
//!
//! Held in memory only, for the lifetime of the process: nothing is written
//! to disk, and nothing from a previous run is read on startup. A cache that
//! can be stale is worse than no cache when the thing it describes is on air.

pub mod graph;
pub mod resolve;
pub mod view;

use vstd::prelude::*;

use crate::base::name::Name;
use crate::base::order::text_key;
use crate::base::table::{Keyed, Table};
use crate::discovery::advert::{opt_text, preferred_among, preferred_endpoint_of, Advertisement};
use crate::discovery::counters::VersionCounters;
use crate::discovery::endpoint::Endpoint;
use crate::identity::{identified, provisional_key, settled_key, Identified, Identities, NodeKey};
use crate::inventory::graph::{graph_resolved, resolve};
use crate::inventory::resolve::{
    apply_transports, contents, contents_are, transports_applied, ReceiverTransports,
    SenderTransports,
};
use crate::inventory::view::{KnownNode, NodeContents, NodeState};
use crate::nmos::connection_api::{ReceiverTransport, SenderTransport};
use crate::nmos::node_api::{with_collection, CollectionData, ResourceTree};
use crate::nmos::resource::ResourceId;
use crate::base::text::{chars_of, string_from_chars};
use crate::inventory::resolve::{device_index, find_device};
use crate::nmos::connection_api::{connection_control_prefix, connection_control_urn};
use crate::nmos::device::{first_control, is_prefix};
use crate::nmos::http::{trim_trailing_slashes, without_trailing_slashes};
use crate::nmos::receiver::Receiver;
use crate::nmos::sender::Sender;
use crate::nmos::version::{api_version_reading, ApiVersion};

verus! {

broadcast use vstd::std_specs::vec::group_vec_axioms;

/// What a Node is, leaving aside what has been read from it: its key, the
/// instance names and endpoints that reach it, its hostname and whether it
/// requires authorization.
pub type NodeSummary = (Seq<int>, Set<Seq<int>>, Set<Seq<int>>, Option<Seq<char>>, bool);

/// What a Node is, leaving aside what has been read from it.
pub open spec fn summary(n: KnownNode) -> NodeSummary {
    (n.key.key(), n.instances@.dom(), n.endpoints@.dom(), opt_text(n.hostname), n.requires_authorization)
}

/// What a Node is before anything is known of it but its key.
pub open spec fn fresh_summary(key: Seq<int>) -> NodeSummary {
    (key, Set::empty(), Set::empty(), None, false)
}

/// A Node's summary once an advertisement has been folded in: its instance
/// and endpoints join, the hostname is kept if there was one, and
/// authorization is required if either says so.
pub open spec fn with_advertisement(s: NodeSummary, a: Advertisement) -> NodeSummary {
    (
        s.0,
        s.1.insert(text_key(a.instance@)),
        s.2.union(a.endpoints@.dom()),
        if s.3 is Some { s.3 } else { opt_text(a.hostname) },
        s.4 || a.requires_authorization,
    )
}

/// A Node's summary once another route to it has been folded in, under a
/// new key.
pub open spec fn with_route(s: NodeSummary, other: NodeSummary, key: Seq<int>) -> NodeSummary {
    (key, s.1.union(other.1), s.2.union(other.2), if s.3 is Some { s.3 } else { other.3 }, s.4 || other.4)
}

/// Everything the controller knows about the network.
///
/// Nodes are keyed by the identifier they report, with their endpoints as a
/// set. Before that identifier has been read the DNS-SD instance name serves.
#[derive(Debug)]
pub struct Inventory {
    identities: Identities,
    nodes: Table<NodeKey, KnownNode>,
    trees: Table<NodeKey, ResourceTree>,
    counters: Table<NodeKey, VersionCounters>,
    sender_transports: SenderTransports,
    receiver_transports: ReceiverTransports,
}

/// What recording an advertisement does to the inventory.
pub open spec fn observed_in(before: Inventory, advertisement: Advertisement, after: Inventory, r: NodeKey) -> bool {
    &&& before.ids()@.contains_key(advertisement.instance@) ==> after.ids()@ == before.ids()@
        && r.key() == before.ids()@[advertisement.instance@]
    &&& !before.ids()@.contains_key(advertisement.instance@) ==> after.ids()@ == before.ids()@.insert(
        advertisement.instance@,
        provisional_key(advertisement.instance@),
    ) && r.key() == provisional_key(advertisement.instance@)
    &&& after.nodes_view().dom() == before.nodes_view().dom().insert(r.key())
    &&& forall|k: Seq<int>| k != r.key() ==> #[trigger] after.nodes_view().get(k) == before.nodes_view().get(k)
    &&& summary(after.nodes_view()[r.key()]) == with_advertisement(
                if before.nodes_view().contains_key(r.key()) {
                    summary(before.nodes_view()[r.key()])
                } else {
                    fresh_summary(r.key())
                },
                advertisement,
            )
    &&& after.nodes_view()[r.key()].state == if before.nodes_view().contains_key(r.key()) {
                before.nodes_view()[r.key()].state
            } else {
                NodeState::Loading
            }
    &&& after.counters_view() == before.counters_view().insert(r.key(), advertisement.counters)
    &&& after.trees_view() == before.trees_view()
    &&& after.sender_table() == before.sender_table()
    &&& after.receiver_table() == before.receiver_table()
}

/// What recording a failure to read a Node does to the inventory.
pub open spec fn failure_set(before: Inventory, key: NodeKey, reason: String, after: Inventory) -> bool {
    &&& after.nodes_view().dom() == before.nodes_view().dom()
    &&& forall|k: Seq<int>| k != key.key() ==> #[trigger] after.nodes_view().get(k) == before.nodes_view().get(k)
    &&& before.nodes_view().contains_key(key.key()) ==> {
                let n = after.nodes_view()[key.key()];
                let o = before.nodes_view()[key.key()];
                &&& summary(n) == summary(o)
                &&& n.state matches NodeState::Failed { reason: x } && x@ == reason@
            }
    &&& after.ids() == before.ids()
    &&& after.trees_view() == before.trees_view()
    &&& after.counters_view() == before.counters_view()
    &&& after.sender_table() == before.sender_table()
    &&& after.receiver_table() == before.receiver_table()
}

/// What recording a Node's identifier does to the inventory.
pub open spec fn identified_in(before: Inventory, instance: Seq<char>, id: Seq<char>, after: Inventory, r: NodeKey) -> bool {
    &&& r.key() == settled_key(id)
    &&& exists|o: Identified| identified(before.ids(), instance, id, after.ids(), o)
    &&& ({
                let w = before.prior_key(instance);
                let s = settled_key(id);
                if w == s || !before.nodes_view().contains_key(w) {
                    &&& after.nodes_view() == before.nodes_view()
                    &&& after.trees_view() == before.trees_view()
                    &&& after.counters_view() == before.counters_view()
                } else {
                    &&& after.nodes_view().dom() == before.nodes_view().dom().remove(w).insert(s)
                    &&& forall|k: Seq<int>| k != w && k != s ==> #[trigger] after.nodes_view().get(k) == before.nodes_view().get(k)
                    &&& summary(after.nodes_view()[s]) == with_route(
                        if before.nodes_view().contains_key(s) { summary(before.nodes_view()[s]) } else { fresh_summary(s) },
                        summary(before.nodes_view()[w]),
                        s,
                    )
                    &&& after.nodes_view()[s].state == if before.nodes_view().contains_key(s) && before.nodes_view()[s].state is Ready {
                        before.nodes_view()[s].state
                    } else {
                        before.nodes_view()[w].state
                    }
                    &&& after.trees_view() == if before.trees_view().contains_key(w) && !before.trees_view().contains_key(s) {
                        before.trees_view().remove(w).insert(s, before.trees_view()[w])
                    } else {
                        before.trees_view().remove(w)
                    }
                    &&& after.counters_view() == if before.counters_view().contains_key(w) && !before.counters_view().contains_key(s) {
                        before.counters_view().remove(w).insert(s, before.counters_view()[w])
                    } else {
                        before.counters_view().remove(w)
                    }
                }
            })
    &&& after.sender_table() == before.sender_table()
    &&& after.receiver_table() == before.receiver_table()
}

/// What recording a departure does to the inventory.
pub open spec fn departed(before: Inventory, instance: Seq<char>, after: Inventory) -> bool {
    &&& after.ids()@ == before.ids()@.remove(instance)
    &&& after.sender_table() == before.sender_table()
    &&& after.receiver_table() == before.receiver_table()
    &&& !before.ids()@.contains_key(instance) ==> {
                &&& after.nodes_view() == before.nodes_view()
                &&& after.trees_view() == before.trees_view()
                &&& after.counters_view() == before.counters_view()
            }
    &&& before.ids()@.contains_key(instance) ==> {
                let k = before.ids()@[instance];
                if after.ids().nodes().contains(k) {
                    &&& after.nodes_view().dom() == before.nodes_view().dom()
                    &&& forall|x: Seq<int>| x != k ==> #[trigger] after.nodes_view().get(x) == before.nodes_view().get(x)
                    &&& before.nodes_view().contains_key(k) ==> {
                        let n = after.nodes_view()[k];
                        let o = before.nodes_view()[k];
                        &&& n.instances@.dom() == o.instances@.dom().remove(text_key(instance))
                        &&& n.key == o.key && n.endpoints == o.endpoints && n.hostname == o.hostname
                        &&& n.requires_authorization == o.requires_authorization && n.state == o.state
                    }
                    &&& after.trees_view() == before.trees_view()
                    &&& after.counters_view() == before.counters_view()
                } else {
                    &&& after.nodes_view() == before.nodes_view().remove(k)
                    &&& after.trees_view() == before.trees_view().remove(k)
                    &&& after.counters_view() == before.counters_view().remove(k)
                }
            }
}

/// What recording a Node's tree does to the inventory.
pub open spec fn tree_set(before: Inventory, key: NodeKey, tree: ResourceTree, after: Inventory) -> bool {
    &&& !before.nodes_view().contains_key(key.key()) ==> after.nodes_view() == before.nodes_view() && after.trees_view() == before.trees_view()
    &&& before.nodes_view().contains_key(key.key()) ==> {
                &&& after.trees_view() == before.trees_view().insert(key.key(), tree)
                &&& after.nodes_view().dom() == before.nodes_view().dom()
                &&& forall|k: Seq<int>| k != key.key() ==> #[trigger] after.nodes_view().get(k) == before.nodes_view().get(k)
                &&& summary(after.nodes_view()[key.key()]) == summary(before.nodes_view()[key.key()])
                &&& after.nodes_view()[key.key()].state matches NodeState::Ready(c) && contents_are(*c, tree, before.sender_table(), before.receiver_table())
            }
    &&& after.ids() == before.ids()
    &&& after.counters_view() == before.counters_view()
    &&& after.sender_table() == before.sender_table()
    &&& after.receiver_table() == before.receiver_table()
}

/// What replacing one collection of a Node's tree does to the inventory.
pub open spec fn collection_updated(before: Inventory, key: NodeKey, data: CollectionData, after: Inventory) -> bool {
    &&& !before.trees_view().contains_key(key.key()) ==> after.nodes_view() == before.nodes_view() && after.trees_view() == before.trees_view()
    &&& before.trees_view().contains_key(key.key()) ==> {
                let tree = with_collection(before.trees_view()[key.key()], data);
                &&& after.trees_view() == before.trees_view().insert(key.key(), tree)
                &&& after.nodes_view().dom() == before.nodes_view().dom()
                &&& forall|k: Seq<int>| k != key.key() ==> #[trigger] after.nodes_view().get(k) == before.nodes_view().get(k)
                &&& before.nodes_view().contains_key(key.key()) ==> (summary(after.nodes_view()[key.key()]) == summary(before.nodes_view()[key.key()])
                    && (after.nodes_view()[key.key()].state matches NodeState::Ready(c) && contents_are(*c, tree, before.sender_table(), before.receiver_table())))
            }
    &&& after.ids() == before.ids()
    &&& after.counters_view() == before.counters_view()
    &&& after.sender_table() == before.sender_table()
    &&& after.receiver_table() == before.receiver_table()
}

/// What recording a Sender's transport does to the inventory.
pub open spec fn sender_transport_set(before: Inventory, id: ResourceId, transport: Result<SenderTransport, String>, after: Inventory) -> bool {
    &&& after.sender_table()@ == before.sender_table()@.insert(id.key(), transport)
    &&& after.receiver_table() == before.receiver_table()
    &&& all_refreshed(after.node_table(), before.node_table(), after.sender_table(), after.receiver_table())
    &&& after.ids() == before.ids()
    &&& after.trees_view() == before.trees_view()
    &&& after.counters_view() == before.counters_view()
}

/// What recording a Receiver's transport does to the inventory.
pub open spec fn receiver_transport_set(before: Inventory, id: ResourceId, transport: Result<ReceiverTransport, String>, after: Inventory) -> bool {
    &&& after.receiver_table()@ == before.receiver_table()@.insert(id.key(), transport)
    &&& after.sender_table() == before.sender_table()
    &&& all_refreshed(after.node_table(), before.node_table(), after.sender_table(), after.receiver_table())
    &&& after.ids() == before.ids()
    &&& after.trees_view() == before.trees_view()
    &&& after.counters_view() == before.counters_view()
}

/// What resolving the connection graph does to the inventory.
pub open spec fn connections_resolved(before: Inventory, after: Inventory) -> bool {
    &&& graph_resolved(after.node_table(), before.node_table())
    &&& after.ids() == before.ids()
    &&& after.trees_view() == before.trees_view()
    &&& after.counters_view() == before.counters_view()
    &&& after.sender_table() == before.sender_table()
    &&& after.receiver_table() == before.receiver_table()
}

impl Inventory {
    /// Which Node each instance name resolves to.
    pub closed spec fn ids(&self) -> Identities {
        self.identities
    }

    /// The Nodes, by key.
    pub closed spec fn node_table(&self) -> Table<NodeKey, KnownNode> {
        self.nodes
    }

    /// The Nodes, by key.
    pub open spec fn nodes_view(&self) -> Map<Seq<int>, KnownNode> {
        self.node_table()@
    }

    /// The last tree read from each Node.
    pub closed spec fn trees_view(&self) -> Map<Seq<int>, ResourceTree> {
        self.trees@
    }

    /// The counters last advertised for each Node.
    pub closed spec fn counters_view(&self) -> Map<Seq<int>, VersionCounters> {
        self.counters@
    }

    /// What the transport pass said of each Sender.
    pub closed spec fn sender_table(&self) -> SenderTransports {
        self.sender_transports
    }

    /// What the transport pass said of each Receiver.
    pub closed spec fn receiver_table(&self) -> ReceiverTransports {
        self.receiver_transports
    }

    /// An empty inventory. Every run starts here.
    pub fn new() -> (r: Inventory)
        ensures
            r.ids()@ == Map::<Seq<char>, Seq<int>>::empty(),
            r.nodes_view() == Map::<Seq<int>, KnownNode>::empty(),
            r.trees_view() == Map::<Seq<int>, ResourceTree>::empty(),
            r.counters_view() == Map::<Seq<int>, VersionCounters>::empty(),
            r.sender_table()@ == Map::<Seq<int>, Result<SenderTransport, String>>::empty(),
            r.receiver_table()@ == Map::<Seq<int>, Result<ReceiverTransport, String>>::empty(),
            nodes_are_routed(r),
    {
        Inventory {
            identities: Identities::new(),
            nodes: Table::new(),
            trees: Table::new(),
            counters: Table::new(),
            sender_transports: Table::new(),
            receiver_transports: Table::new(),
        }
    }

    /// How many Nodes are known.
    pub fn len(&self) -> (r: usize)
        ensures
            r == self.nodes_view().dom().len(),
    {
        proof {
            use_type_invariant(&self.nodes);
            self.nodes.lemma_len();
        }
        self.nodes.len()
    }

    /// Whether nothing has been discovered yet.
    pub fn is_empty(&self) -> (r: bool)
        ensures
            r == (self.nodes_view().dom().len() == 0),
    {
        self.len() == 0
    }

    /// Every Node known, in key order.
    pub fn nodes(&self) -> (r: Vec<&KnownNode>)
        ensures
            r@.len() == self.node_table().entries().len(),
            forall|i: int| 0 <= i < r@.len() ==> *#[trigger] r@[i] == self.node_table().entries()[i].1,
            forall|i: int|
                0 <= i < r@.len() ==> self.nodes_view().contains_key(#[trigger] self.node_table().entries()[i].0.key())
                    && self.nodes_view()[self.node_table().entries()[i].0.key()] == *r@[i],
            forall|k: Seq<int>|
                #[trigger] self.nodes_view().contains_key(k) ==> exists|i: int|
                    0 <= i < r@.len() && self.node_table().entries()[i].0.key() == k,
    {
        proof {
            use_type_invariant(&self.nodes);
            assert forall|i: int| 0 <= i < self.nodes.entries().len() implies self.nodes@.contains_key(#[trigger] self.nodes.entries()[i].0.key())
                && self.nodes@[self.nodes.entries()[i].0.key()] == self.nodes.entries()[i].1 by {
                self.nodes.lemma_entry(i);
            }
            assert forall|k: Seq<int>| #[trigger] self.nodes@.contains_key(k) implies exists|i: int|
                0 <= i < self.nodes.entries().len() && self.nodes.entries()[i].0.key() == k by {
                self.nodes.lemma_key_held(k);
            }
        }
        let mut r: Vec<&KnownNode> = Vec::new();
        let mut i: usize = 0;
        while i < self.nodes.len()
            invariant
                i <= self.nodes.entries().len(),
                r@.len() == i,
                forall|j: int| 0 <= j < i ==> *#[trigger] r@[j] == self.nodes.entries()[j].1,
            decreases self.nodes.entries().len() - i,
        {
            r.push(&self.nodes.entry(i).1);
            i = i + 1;
        }
        r
    }

    /// One Node, by key.
    pub fn node(&self, key: &NodeKey) -> (r: Option<&KnownNode>)
        ensures
            r is None <==> !self.nodes_view().contains_key(key.key()),
            r matches Some(n) ==> *n == self.nodes_view()[key.key()],
    {
        self.nodes.get(key)
    }

    /// The key an instance name currently resolves to.
    pub fn key_for(&self, instance: &str) -> (r: Option<&NodeKey>)
        ensures
            r is Some <==> self.ids()@.contains_key(instance@),
            r matches Some(k) ==> k.key() == self.ids()@[instance@],
    {
        self.identities.key_for(instance)
    }

    /// The counters last advertised for a Node.
    pub fn counters(&self, key: &NodeKey) -> (r: Option<&VersionCounters>)
        ensures
            r is None <==> !self.counters_view().contains_key(key.key()),
            r matches Some(c) ==> *c == self.counters_view()[key.key()],
    {
        self.counters.get(key)
    }

    /// Whether a Node's tree has been read at all.
    pub fn has_tree(&self, key: &NodeKey) -> (r: bool)
        ensures
            r == self.trees_view().contains_key(key.key()),
    {
        self.trees.contains(key)
    }

    /// The address to reach a Node at.
    pub fn endpoint_for(&self, key: &NodeKey) -> (r: Option<&Endpoint>)
        ensures
            !self.nodes_view().contains_key(key.key()) ==> r is None,
            self.nodes_view().contains_key(key.key()) ==> preferred_among(
                self.nodes_view()[key.key()].endpoints.entries(),
                r,
            ),
    {
        match self.nodes.get(key) {
            Some(node) => preferred_endpoint_of(&node.endpoints),
            None => None,
        }
    }

    /// Record what a Node advertised, returning the key it is held under.
    ///
    /// The Node's instance and endpoints join what was known of it, its
    /// hostname is kept if it had one, and its counters are the ones just
    /// advertised. A Node not known before starts out Loading.
    pub fn observe(&mut self, advertisement: &Advertisement) -> (r: NodeKey)
        ensures
            observed_in(*old(self), *advertisement, *final(self), r),
            routes_kept(*old(self), *final(self)),
            nodes_are_routed(*old(self)) && !old(self).ids()@.contains_key(advertisement.instance@) ==> {
                &&& final(self).nodes_view()[r.key()].state == NodeState::Loading
                &&& final(self).nodes_view()[r.key()].instances@.dom() == set![text_key(advertisement.instance@)]
                &&& final(self).nodes_view()[r.key()].endpoints@.dom() == advertisement.endpoints@.dom()
                &&& final(self).nodes_view().dom().len() == old(self).nodes_view().dom().len() + 1
            },
    {
        let key = self.identities.observe(advertisement);
        self.counters.insert(key.copy(), advertisement.counters);
        let node = match self.nodes.remove(&key) {
            Some(node) => node,
            None => KnownNode {
                key: key.copy(),
                instances: Table::new(),
                endpoints: Table::new(),
                hostname: None,
                requires_authorization: false,
                state: NodeState::Loading,
            },
        };
        let node = absorb_advertisement(node, advertisement);
        self.nodes.insert(key.copy(), node);
        assert(self.nodes_view().dom() =~= old(self).nodes_view().dom().insert(key.key()));
        proof {
            assert(observed_in(*old(self), *advertisement, *self, key));
            if nodes_are_routed(*old(self)) {
                law_observing_keeps_every_node_routed(*old(self), *advertisement, *self, key);
                if !old(self).ids()@.contains_key(advertisement.instance@) {
                    law_a_new_node_is_listed_as_loading(*old(self), *advertisement, *self, key);
                }
            }
        }
        key
    }

    /// Record that a Node could not be read.
    ///
    /// The failure is a value stored against that Node — not a log line, not
    /// a lost row.
    pub fn set_failure(&mut self, key: &NodeKey, reason: String)
        ensures
            failure_set(*old(self), *key, reason, *final(self)),
            routes_kept(*old(self), *final(self)),
    {
        let ghost before = self.nodes@;
        match self.nodes.remove(key) {
            Some(node) => {
                let KnownNode { key: k, instances, endpoints, hostname, requires_authorization, state: _ } = node;
                let updated = KnownNode {
                    key: k,
                    instances,
                    endpoints,
                    hostname,
                    requires_authorization,
                    state: NodeState::Failed { reason },
                };
                self.nodes.insert(key.copy(), updated);
                assert(self.nodes@.dom() =~= before.dom());
            },
            None => {
                assert(self.nodes@ =~= before);
            },
        }
        proof {
            if nodes_are_routed(*old(self)) {
                lemma_routed_by_same_routes(*old(self), *self);
            }
        }
    }

    /// The key an instance held before it was identified.
    pub open spec fn prior_key(&self, instance: Seq<char>) -> Seq<int> {
        if self.ids()@.contains_key(instance) {
            self.ids()@[instance]
        } else {
            provisional_key(instance)
        }
    }

    /// Record that a Node reported its identifier, re-keying it.
    ///
    /// A Node already known under another instance name collapses into this
    /// one: its routes join, and it occupies one row rather than two. The
    /// tree and counters already held under the identifier are kept; failing
    /// those, the re-keyed Node's own follow it.
    pub fn identify(&mut self, instance: &str, id: &ResourceId) -> (r: NodeKey)
        ensures
            identified_in(*old(self), instance@, id@, *final(self), r),
            routes_kept(*old(self), *final(self)),
    {
        let ghost ids0 = self.identities;
        let outcome = self.identities.identify(instance, id);
        let ghost o = outcome;
        assert(identified(ids0, instance@, id@, self.identities, o));
        assert(identified(old(self).ids(), instance@, id@, self.ids(), o));
        let settled = NodeKey::Settled(id.copy());
        let was = match outcome {
            Identified::Unchanged(k) => {
                proof {
                    assert(identified_in(*old(self), instance@, id@, *self, k));
                    if nodes_are_routed(*old(self)) {
                        law_identifying_keeps_every_node_routed(*old(self), instance@, id@, *self, k);
                    }
                }
                return k;
            },
            Identified::Settled { was, now: _ } => was,
            Identified::Merged { was, now: _ } => was,
        };
        let ghost w = was.key();
        let ghost s = settled.key();
        assert(w != s);
        let ghost nodes0 = self.nodes@;
        let ghost trees0 = self.trees@;
        let ghost counters0 = self.counters@;
        match self.nodes.remove(&was) {
            Some(node) => {
                let counters = self.counters.remove(&was);
                let base = match self.nodes.remove(&settled) {
                    Some(m) => m,
                    None => KnownNode {
                        key: settled.copy(),
                        instances: Table::new(),
                        endpoints: Table::new(),
                        hostname: None,
                        requires_authorization: false,
                        state: NodeState::Loading,
                    },
                };
                let merged = absorb_route(base, node, settled.copy());
                self.nodes.insert(settled.copy(), merged);
                proof {
                    assert(self.nodes@.dom() =~= nodes0.dom().remove(w).insert(s));
                }
                match self.trees.remove(&was) {
                    Some(tree) => {
                        if !self.trees.contains(&settled) {
                            self.trees.insert(settled.copy(), tree);
                        }
                    },
                    None => {},
                }
                proof {
                    if trees0.contains_key(w) && !trees0.contains_key(s) {
                        assert(self.trees@ =~= trees0.remove(w).insert(s, trees0[w]));
                    } else {
                        assert(self.trees@ =~= trees0.remove(w));
                    }
                }
                match counters {
                    Some(c) => {
                        if !self.counters.contains(&settled) {
                            self.counters.insert(settled.copy(), c);
                        }
                    },
                    None => {},
                }
                proof {
                    if counters0.contains_key(w) && !counters0.contains_key(s) {
                        assert(self.counters@ =~= counters0.remove(w).insert(s, counters0[w]));
                    } else {
                        assert(self.counters@ =~= counters0.remove(w));
                    }
                }
            },
            None => {
                assert(self.nodes@ =~= nodes0);
            },
        }
        assert(identified(old(self).ids(), instance@, id@, self.ids(), o));
        proof {
            assert(identified_in(*old(self), instance@, id@, *self, settled));
            if nodes_are_routed(*old(self)) {
                law_identifying_keeps_every_node_routed(*old(self), instance@, id@, *self, settled);
            }
        }
        settled
    }

    /// Record that a Node withdrew one of its advertisements.
    ///
    /// A Node reachable under another instance name stays, without that
    /// instance: losing one route to a box is not losing the box. A Node
    /// whose last route departs is forgotten, with its tree and counters.
    pub fn depart(&mut self, instance: &str)
        ensures
            departed(*old(self), instance@, *final(self)),
            routes_kept(*old(self), *final(self)),
            old(self).ids()@.contains_key(instance@) && old(self).nodes_view().contains_key(
                old(self).ids()@[instance@],
            ) && (forall|other: Seq<char>|
                other != instance@ && #[trigger] old(self).ids()@.contains_key(other) ==> old(self).ids()@[other]
                    != old(self).ids()@[instance@]) ==> final(self).nodes_view().dom().len()
                == old(self).nodes_view().dom().len() - 1,
    {
        let key = match self.identities.forget(instance) {
            Some(key) => key,
            None => {
                proof {
                    assert(self.ids()@ =~= old(self).ids()@.remove(instance@));
                    assert(departed(*old(self), instance@, *self));
                    if nodes_are_routed(*old(self)) {
                        law_departing_keeps_every_node_routed(*old(self), instance@, *self);
                    }
                }
                return;
            },
        };
        let others = self.identities.instances_for(&key);
        if others.len() > 0 {
            proof {
                let w = crate::identity::str_texts(others@)[0];
                assert(crate::identity::str_texts(others@).contains(w));
                assert(self.ids()@.contains_key(w) && self.ids()@[w] == key.key());
            }
            let ghost nodes0 = self.nodes@;
            match self.nodes.remove(&key) {
                Some(node) => {
                    let KnownNode { key: k, mut instances, endpoints, hostname, requires_authorization, state } = node;
                    instances.remove(&Name::of(instance));
                    self.nodes.insert(key.copy(), KnownNode { key: k, instances, endpoints, hostname, requires_authorization, state });
                    assert(self.nodes@.dom() =~= nodes0.dom());
                },
                None => {
                    assert(self.nodes@ =~= nodes0);
                },
            }
            proof {
                assert(departed(*old(self), instance@, *self));
                if nodes_are_routed(*old(self)) {
                    law_departing_keeps_every_node_routed(*old(self), instance@, *self);
                }
                if forall|other: Seq<char>|
                    other != instance@ && #[trigger] old(self).ids()@.contains_key(other) ==> old(self).ids()@[other]
                        != old(self).ids()@[instance@] {
                    law_departing_the_last_route_removes_the_node(*old(self), instance@, *self);
                }
            }
            return;
        }
        proof {
            if self.ids().nodes().contains(key.key()) {
                let w = choose|w: Seq<char>| self.ids()@.contains_key(w) && self.ids()@[w] == key.key();
                assert(crate::identity::str_texts(others@).contains(w));
            }
        }
        self.nodes.remove(&key);
        self.counters.remove(&key);
        self.trees.remove(&key);
        proof {
            assert(departed(*old(self), instance@, *self));
            if nodes_are_routed(*old(self)) {
                law_departing_keeps_every_node_routed(*old(self), instance@, *self);
            }
            if forall|other: Seq<char>|
                other != instance@ && #[trigger] old(self).ids()@.contains_key(other) ==> old(self).ids()@[other]
                    != old(self).ids()@[instance@] {
                law_departing_the_last_route_removes_the_node(*old(self), instance@, *self);
            }
        }
    }

    /// Every Sender and Receiver a Node exposes, for the transport pass.
    pub fn resources_of(&self, key: &NodeKey) -> (r: (Vec<ResourceId>, Vec<ResourceId>))
        ensures
            !self.trees_view().contains_key(key.key()) ==> r.0@.len() == 0 && r.1@.len() == 0,
            self.trees_view().contains_key(key.key()) ==> {
                let t = self.trees_view()[key.key()];
                &&& id_texts(r.0@) == t.senders@.map_values(|s: Sender| s.core.id@)
                &&& id_texts(r.1@) == t.receivers@.map_values(|x: Receiver| x.core.id@)
            },
    {
        let tree = match self.trees.get(key) {
            Some(tree) => tree,
            None => return (Vec::new(), Vec::new()),
        };
        let mut senders: Vec<ResourceId> = Vec::new();
        let mut i: usize = 0;
        while i < tree.senders.len()
            invariant
                i <= tree.senders@.len(),
                id_texts(senders@) == tree.senders@.take(i as int).map_values(|s: Sender| s.core.id@),
            decreases tree.senders@.len() - i,
        {
            let c = tree.senders[i].core.id.copy();
            let ghost before = senders@;
            senders.push(c);
            assert(id_texts(senders@) =~= id_texts(before).push(c@));
            assert(tree.senders@.take(i + 1) =~= tree.senders@.take(i as int).push(tree.senders@[i as int]));
            assert(id_texts(senders@) =~= tree.senders@.take(i + 1).map_values(|s: Sender| s.core.id@));
            i = i + 1;
        }
        assert(tree.senders@.take(tree.senders@.len() as int) =~= tree.senders@);
        let mut receivers: Vec<ResourceId> = Vec::new();
        let mut i: usize = 0;
        while i < tree.receivers.len()
            invariant
                i <= tree.receivers@.len(),
                id_texts(receivers@) == tree.receivers@.take(i as int).map_values(|x: Receiver| x.core.id@),
            decreases tree.receivers@.len() - i,
        {
            let c = tree.receivers[i].core.id.copy();
            let ghost before = receivers@;
            receivers.push(c);
            assert(id_texts(receivers@) =~= id_texts(before).push(c@));
            assert(tree.receivers@.take(i + 1) =~= tree.receivers@.take(i as int).push(tree.receivers@[i as int]));
            assert(id_texts(receivers@) =~= tree.receivers@.take(i + 1).map_values(|x: Receiver| x.core.id@));
            i = i + 1;
        }
        assert(tree.receivers@.take(tree.receivers@.len() as int) =~= tree.receivers@);
        (senders, receivers)
    }

    /// The API versions a Node's own record says it speaks, skipping those
    /// that cannot be read.
    pub fn versions_of(&self, key: &NodeKey) -> (r: Vec<ApiVersion>)
        ensures
            !self.trees_view().contains_key(key.key()) ==> r@.len() == 0,
            self.trees_view().contains_key(key.key()) ==> version_pairs(r@) == version_readings(
                self.trees_view()[key.key()].node.api.versions@,
            ),
    {
        let tree = match self.trees.get(key) {
            Some(tree) => tree,
            None => return Vec::new(),
        };
        let vs = &tree.node.api.versions;
        let mut r: Vec<ApiVersion> = Vec::new();
        let mut i: usize = 0;
        while i < vs.len()
            invariant
                i <= vs@.len(),
                version_pairs(r@) == version_readings(vs@.take(i as int)),
            decreases vs@.len() - i,
        {
            assert(vs@.take(i + 1).drop_last() =~= vs@.take(i as int));
            assert(vs@.take(i + 1).last() == vs@[i as int]);
            let ghost before = r@;
            match ApiVersion::parse(vs[i].as_str()) {
                Ok(v) => {
                    r.push(v);
                    assert(version_pairs(r@) =~= version_pairs(before).push((v.spec_major() as nat, v.spec_minor() as nat)));
                },
                Err(_) => {},
            }
            i = i + 1;
        }
        assert(vs@.take(vs@.len() as int) =~= vs@);
        r
    }

    /// Where the Device owning a Sender or Receiver advertises its
    /// Connection API, if it advertises one: the origin of its href.
    ///
    /// Resolved per Device, not per Node: a Device may expose no Connection
    /// API at all, and answering with a neighbour's would read — or write —
    /// the wrong box.
    pub fn connection_base(&self, key: &NodeKey, resource: &ResourceId) -> (r: Option<String>)
        ensures
            !self.trees_view().contains_key(key.key()) ==> r is None,
            self.trees_view().contains_key(key.key()) ==> match r {
                Some(b) => connection_base_of(self.trees_view()[key.key()], resource@) == Some(b@),
                None => connection_base_of(self.trees_view()[key.key()], resource@) is None,
            },
    {
        let tree = match self.trees.get(key) {
            Some(tree) => tree,
            None => return None,
        };
        let device_id = match find_sender(&tree.senders, resource) {
            Some(i) => &tree.senders[i].device_id,
            None => match find_receiver(&tree.receivers, resource) {
                Some(i) => &tree.receivers[i].device_id,
                None => return None,
            },
        };
        let d = match find_device(&tree.devices, device_id) {
            Some(d) => d,
            None => return None,
        };
        match tree.devices[d].control_href(connection_control_prefix()) {
            Some(href) => Some(origin(href)),
            None => None,
        }
    }

    /// Re-derive one Node's contents from the tree held for it.
    fn rebuild(&mut self, key: &NodeKey)
        ensures
            final(self).nodes_view().dom() == old(self).nodes_view().dom(),
            forall|k: Seq<int>| k != key.key() ==> #[trigger] final(self).nodes_view().get(k) == old(self).nodes_view().get(k),
            old(self).nodes_view().contains_key(key.key()) && old(self).trees_view().contains_key(key.key()) ==> {
                let n = final(self).nodes_view()[key.key()];
                &&& summary(n) == summary(old(self).nodes_view()[key.key()])
                &&& n.key == old(self).nodes_view()[key.key()].key
                &&& n.state matches NodeState::Ready(c) && contents_are(*c, old(self).trees_view()[key.key()], old(self).sender_table(), old(self).receiver_table())
            },
            !(old(self).nodes_view().contains_key(key.key()) && old(self).trees_view().contains_key(key.key())) ==> final(self).nodes_view() == old(self).nodes_view(),
            final(self).ids() == old(self).ids(),
            final(self).trees_view() == old(self).trees_view(),
            final(self).counters_view() == old(self).counters_view(),
            final(self).sender_table() == old(self).sender_table(),
            final(self).receiver_table() == old(self).receiver_table(),
    {
        let ghost before = self.nodes@;
        let built = match self.trees.get(key) {
            Some(tree) => contents(tree, &self.sender_transports, &self.receiver_transports),
            None => return,
        };
        match self.nodes.remove(key) {
            Some(node) => {
                let KnownNode { key: k, instances, endpoints, hostname, requires_authorization, state: _ } = node;
                let updated = KnownNode {
                    key: k,
                    instances,
                    endpoints,
                    hostname,
                    requires_authorization,
                    state: NodeState::Ready(Box::new(built)),
                };
                self.nodes.insert(key.copy(), updated);
                assert(self.nodes@.dom() =~= before.dom());
            },
            None => {
                assert(self.nodes@ =~= before);
            },
        }
    }

    /// Record a Node's resource tree, resolving its references.
    ///
    /// Replaces whatever was held: a Sender removed at the Node disappears
    /// here. A tree for a Node not known is ignored.
    pub fn set_tree(&mut self, key: &NodeKey, tree: ResourceTree)
        ensures
            tree_set(*old(self), *key, tree, *final(self)),
            routes_kept(*old(self), *final(self)),
    {
        if !self.nodes.contains(key) {
            return;
        }
        self.trees.insert(key.copy(), tree);
        self.rebuild(key);
        proof {
            if nodes_are_routed(*old(self)) {
                lemma_routed_by_same_routes(*old(self), *self);
            }
        }
    }

    /// Replace one collection of a Node's tree, leaving the rest alone.
    ///
    /// A Node whose tree has never been read is left alone, because a
    /// collection on its own is not a Node.
    pub fn update_collection(&mut self, key: &NodeKey, data: CollectionData)
        ensures
            collection_updated(*old(self), *key, data, *final(self)),
            routes_kept(*old(self), *final(self)),
    {
        let tree = match self.trees.remove(key) {
            Some(tree) => tree,
            None => {
                assert(self.trees_view() =~= old(self).trees_view());
                return;
            },
        };
        let tree = tree.replace_collection(data);
        self.trees.insert(key.copy(), tree);
        assert(self.trees_view() =~= old(self).trees_view().insert(key.key(), tree));
        self.rebuild(key);
        proof {
            if nodes_are_routed(*old(self)) {
                lemma_routed_by_same_routes(*old(self), *self);
            }
        }
    }

    /// Record what a Sender's Connection API said, and show it wherever that
    /// Sender is shown.
    pub fn set_sender_transport(&mut self, id: &ResourceId, transport: Result<SenderTransport, String>)
        ensures
            sender_transport_set(*old(self), *id, transport, *final(self)),
            routes_kept(*old(self), *final(self)),
    {
        self.sender_transports.insert(id.copy(), transport);
        let ghost middle = *self;
        self.reapply_transports();
        proof {
            if nodes_are_routed(*old(self)) {
                lemma_routed_by_same_routes(*old(self), middle);
                law_a_transport_keeps_every_node_routed(middle, *self);
            }
        }
    }

    /// Record what a Receiver's Connection API said, and show it wherever
    /// that Receiver is shown.
    pub fn set_receiver_transport(&mut self, id: &ResourceId, transport: Result<ReceiverTransport, String>)
        ensures
            receiver_transport_set(*old(self), *id, transport, *final(self)),
            routes_kept(*old(self), *final(self)),
    {
        self.receiver_transports.insert(id.copy(), transport);
        let ghost middle = *self;
        self.reapply_transports();
        proof {
            if nodes_are_routed(*old(self)) {
                lemma_routed_by_same_routes(*old(self), middle);
                law_a_transport_keeps_every_node_routed(middle, *self);
            }
        }
    }

    fn reapply_transports(&mut self)
        ensures
            all_refreshed(final(self).node_table(), old(self).node_table(), old(self).sender_table(), old(self).receiver_table()),
            final(self).sender_table() == old(self).sender_table(),
            final(self).receiver_table() == old(self).receiver_table(),
            final(self).ids() == old(self).ids(),
            final(self).trees_view() == old(self).trees_view(),
            final(self).counters_view() == old(self).counters_view(),
    {
        let mut nodes = Table::new();
        std::mem::swap(&mut nodes, &mut self.nodes);
        self.nodes = refresh_all(nodes, &self.sender_transports, &self.receiver_transports);
    }

    /// Work out which Senders feed which Receivers, across every Node known.
    ///
    /// Whether a Sender is transmitting and whether anything is listening are
    /// different questions, and only here — where every Node is visible — can
    /// the second be answered.
    pub fn resolve_connections(&mut self)
        ensures
            connections_resolved(*old(self), *final(self)),
            routes_kept(*old(self), *final(self)),
    {
        resolve(&mut self.nodes);
        proof {
            if nodes_are_routed(*old(self)) {
                law_resolving_keeps_every_node_routed(*old(self), *self);
            }
        }
    }
}

/// Whether a Node's state was brought up to date with the transport pass,
/// and nothing else changed.
pub open spec fn node_refreshed(new: KnownNode, old: KnownNode, st: SenderTransports, rt: ReceiverTransports) -> bool {
    &&& new.key == old.key
    &&& new.instances == old.instances
    &&& new.endpoints == old.endpoints
    &&& new.hostname == old.hostname
    &&& new.requires_authorization == old.requires_authorization
    &&& match (new.state, old.state) {
        (NodeState::Ready(n), NodeState::Ready(o)) => transports_applied(*n, *o, st, rt),
        (NodeState::Ready(_), _) => false,
        (_, NodeState::Ready(_)) => false,
        (n, o) => n == o,
    }
}

/// Whether every Node's state was brought up to date with the transport pass.
pub open spec fn all_refreshed(new: Table<NodeKey, KnownNode>, old: Table<NodeKey, KnownNode>, st: SenderTransports, rt: ReceiverTransports) -> bool {
    &&& new.entries().len() == old.entries().len()
    &&& forall|i: int| 0 <= i < new.entries().len() ==> (#[trigger] new.entries()[i]).0 == old.entries()[i].0 && node_refreshed(new.entries()[i].1, old.entries()[i].1, st, rt)
}

/// Bring one Node up to date with the transport pass.
fn refresh_node(n: KnownNode, st: &SenderTransports, rt: &ReceiverTransports) -> (r: KnownNode)
    ensures
        node_refreshed(r, n, *st, *rt),
{
    let KnownNode { key, instances, endpoints, hostname, requires_authorization, state } = n;
    let state = match state {
        NodeState::Ready(c) => NodeState::Ready(Box::new(apply_transports(*c, st, rt))),
        other => other,
    };
    KnownNode { key, instances, endpoints, hostname, requires_authorization, state }
}

/// Bring every Node up to date with the transport pass.
fn refresh_all(nodes: Table<NodeKey, KnownNode>, st: &SenderTransports, rt: &ReceiverTransports) -> (r: Table<NodeKey, KnownNode>)
    ensures
        all_refreshed(r, nodes, *st, *rt),
{
    let ghost old_entries = nodes.entries();
    let mut rest = nodes.into_entries();
    let mut done: Vec<(NodeKey, KnownNode)> = Vec::new();
    while rest.len() > 0
        invariant
            crate::base::table::sorted(old_entries),
            done@.len() + rest@.len() == old_entries.len(),
            rest@ == old_entries.skip(done@.len() as int),
            forall|k: int| 0 <= k < done@.len() ==> (#[trigger] done@[k]).0 == old_entries[k].0 && node_refreshed(done@[k].1, old_entries[k].1, *st, *rt),
        decreases rest@.len(),
    {
        let ghost at = done@.len() as int;
        let (k, n) = rest.remove(0);
        assert((k, n) == old_entries[at]);
        done.push((k, refresh_node(n, st, rt)));
        assert(rest@ =~= old_entries.skip(done@.len() as int));
    }
    proof {
        assert forall|a: int, b: int| 0 <= a < b < done@.len() implies crate::base::order::seq_lt(
            #[trigger] done@[a].0.key(),
            #[trigger] done@[b].0.key(),
        ) by {
            assert(old_entries[a].0 == done@[a].0);
            assert(old_entries[b].0 == done@[b].0);
        }
    }
    Table::from_sorted(done)
}

/// Identifiers as plain values.
pub open spec fn id_texts(v: Seq<ResourceId>) -> Seq<Seq<char>> {
    v.map_values(|i: ResourceId| i@)
}

/// What each version a Node's record lists reads as, skipping those that
/// cannot be read.
pub open spec fn version_readings(v: Seq<String>) -> Seq<(nat, nat)>
    decreases v.len(),
{
    if v.len() == 0 {
        Seq::empty()
    } else {
        let rest = version_readings(v.drop_last());
        match api_version_reading(vstd::utf8::encode_utf8(v.last()@)) {
            Some(p) => rest.push(p),
            None => rest,
        }
    }
}

/// Versions as their components.
pub open spec fn version_pairs(v: Seq<ApiVersion>) -> Seq<(nat, nat)> {
    v.map_values(|a: ApiVersion| (a.spec_major() as nat, a.spec_minor() as nat))
}

/// The index of the first Sender with an identifier, or `-1`.
pub open spec fn sender_index_of(s: Seq<Sender>, id: Seq<char>) -> int {
    if exists|i: int| 0 <= i < s.len() && #[trigger] s[i].core.id@ == id {
        choose|i: int| 0 <= i < s.len() && s[i].core.id@ == id && forall|j: int| 0 <= j < i ==> #[trigger] s[j].core.id@ != id
    } else {
        -1
    }
}

/// The index of the first Receiver with an identifier, or `-1`.
pub open spec fn receiver_index_of(s: Seq<Receiver>, id: Seq<char>) -> int {
    if exists|i: int| 0 <= i < s.len() && #[trigger] s[i].core.id@ == id {
        choose|i: int| 0 <= i < s.len() && s[i].core.id@ == id && forall|j: int| 0 <= j < i ==> #[trigger] s[j].core.id@ != id
    } else {
        -1
    }
}

/// The Device a resource of a tree claims: the first Sender with its
/// identifier, failing that the first Receiver.
pub open spec fn claimed_device(tree: ResourceTree, resource: Seq<char>) -> Option<Seq<char>> {
    let s = sender_index_of(tree.senders@, resource);
    if s != -1 {
        Some(tree.senders@[s].device_id@)
    } else {
        let r = receiver_index_of(tree.receivers@, resource);
        if r != -1 {
            Some(tree.receivers@[r].device_id@)
        } else {
            None
        }
    }
}

/// Whether a pattern occurs in a text at a position.
pub open spec fn occurs_at(t: Seq<char>, p: Seq<char>, at: int) -> bool {
    0 <= at && at + p.len() <= t.len() && t.subrange(at, at + p.len()) == p
}

/// The origin of an advertised Connection API href: without its closing
/// slashes, and cut before the first `/x-nmos/connection`, where there is one.
pub open spec fn origin_of(href: Seq<char>) -> Seq<char> {
    let t = without_trailing_slashes(href);
    let p = "/x-nmos/connection"@;
    if exists|at: int| #[trigger] occurs_at(t, p, at) {
        t.take(choose|at: int| occurs_at(t, p, at) && forall|b: int| 0 <= b < at ==> !#[trigger] occurs_at(t, p, b))
    } else {
        t
    }
}

/// Where the Device owning a resource advertises its Connection API, as
/// its tree says.
pub open spec fn connection_base_of(tree: ResourceTree, resource: Seq<char>) -> Option<Seq<char>> {
    match claimed_device(tree, resource) {
        None => None,
        Some(did) => {
            let d = device_index(tree.devices@, did);
            if d == -1 {
                None
            } else {
                let controls = tree.devices@[d].controls@;
                if forall|i: int| 0 <= i < controls.len() ==> !is_prefix(connection_control_urn(), #[trigger] controls[i].kind@) {
                    None
                } else {
                    Some(origin_of(controls[first_control(controls, connection_control_urn())].href@))
                }
            }
        },
    }
}

/// The first Sender with an identifier.
fn find_sender(s: &Vec<Sender>, id: &ResourceId) -> (r: Option<usize>)
    ensures
        match r {
            Some(i) => i < s@.len() && i == sender_index_of(s@, id@),
            None => sender_index_of(s@, id@) == -1,
        },
{
    let mut i: usize = 0;
    while i < s.len()
        invariant
            i <= s@.len(),
            forall|j: int| 0 <= j < i ==> #[trigger] s@[j].core.id@ != id@,
        decreases s@.len() - i,
    {
        if s[i].core.id.same(id) {
            let ghost f = sender_index_of(s@, id@);
            assert(f == i) by {
                assert(s@[i as int].core.id@ == id@);
                if f < i {
                } else if f > i {
                }
            }
            return Some(i);
        }
        i = i + 1;
    }
    None
}

/// The first Receiver with an identifier.
fn find_receiver(s: &Vec<Receiver>, id: &ResourceId) -> (r: Option<usize>)
    ensures
        match r {
            Some(i) => i < s@.len() && i == receiver_index_of(s@, id@),
            None => receiver_index_of(s@, id@) == -1,
        },
{
    let mut i: usize = 0;
    while i < s.len()
        invariant
            i <= s@.len(),
            forall|j: int| 0 <= j < i ==> #[trigger] s@[j].core.id@ != id@,
        decreases s@.len() - i,
    {
        if s[i].core.id.same(id) {
            let ghost f = receiver_index_of(s@, id@);
            assert(f == i) by {
                assert(s@[i as int].core.id@ == id@);
                if f < i {
                } else if f > i {
                }
            }
            return Some(i);
        }
        i = i + 1;
    }
    None
}

/// The origin of an advertised Connection API href.
fn origin(href: &str) -> (r: String)
    ensures
        r@ == origin_of(href@),
{
    let t = trim_trailing_slashes(href);
    let p = chars_of("/x-nmos/connection");
    let ghost tv = t@;
    let ghost pv = "/x-nmos/connection"@;
    let mut at: usize = 0;
    let mut found = false;
    while !found && p.len() <= t.len() && at <= t.len() - p.len()
        invariant
            tv == t@,
            pv == p@,
            forall|b: int| 0 <= b < at ==> !#[trigger] occurs_at(tv, pv, b),
            found ==> occurs_at(tv, pv, at as int),
        decreases t.len() - at + (if found { 0int } else { 1int }),
    {
        let mut k: usize = 0;
        let mut same = true;
        while same && k < p.len()
            invariant
                at + p.len() <= t.len(),
                k <= p.len(),
                same ==> forall|j: int| 0 <= j < k ==> t@[at + j] == p@[j],
                !same ==> exists|j: int| 0 <= j < p.len() && t@[at + j] != p@[j],
            decreases p.len() - k + (if same { 1int } else { 0int }),
        {
            if t[at + k] != p[k] {
                same = false;
            } else {
                k = k + 1;
            }
        }
        if same {
            assert(tv.subrange(at as int, at + pv.len()) =~= pv);
            found = true;
        } else {
            assert(!occurs_at(tv, pv, at as int)) by {
                let j = choose|j: int| 0 <= j < p.len() && t@[at + j] != p@[j];
                if occurs_at(tv, pv, at as int) {
                    assert(tv.subrange(at as int, at + pv.len())[j] == pv[j]);
                }
            }
            at = at + 1;
        }
    }
    if found {
        let ghost c = choose|b: int| occurs_at(tv, pv, b) && forall|e: int| 0 <= e < b ==> !#[trigger] occurs_at(tv, pv, e);
        assert(c == at) by {
            if c < at {
            } else if c > at {
            }
        }
        let mut v: Vec<char> = Vec::new();
        let mut i: usize = 0;
        while i < at
            invariant
                tv == t@,
                at <= t.len(),
                i <= at,
                v@ == tv.take(i as int),
            decreases at - i,
        {
            v.push(t[i]);
            assert(tv.take(i + 1) =~= tv.take(i as int).push(tv[i as int]));
            i = i + 1;
        }
        string_from_chars(&v)
    } else {
        assert forall|b: int| !#[trigger] occurs_at(tv, pv, b) by {
            if b >= at {
            }
        }
        string_from_chars(&t)
    }
}

/// Fold another route to a Node into what is known of it, under a key: the
/// routes' instances and endpoints join, the hostname and the state are kept
/// where they are known, and authorization is required if either says so.
fn absorb_route(base: KnownNode, other: KnownNode, key: NodeKey) -> (r: KnownNode)
    ensures
        summary(r) == with_route(summary(base), summary(other), key.key()),
        r.state == if base.state is Ready {
            base.state
        } else {
            other.state
        },
{
    let KnownNode { key: _, mut instances, mut endpoints, hostname, requires_authorization, state } = base;
    let ghost inst0 = instances@.dom();
    let ghost end0 = endpoints@.dom();
    let i_entries = other.instances.into_entries();
    let mut i: usize = 0;
    while i < i_entries.len()
        invariant
            i <= i_entries@.len(),
            instances@.dom() == inst0.union(Set::new(|k: Seq<int>| exists|j: int| 0 <= j < i && #[trigger] i_entries@[j].0.key() == k)),
        decreases i_entries@.len() - i,
    {
        let name = i_entries[i].0.copy();
        instances.insert(name, ());
        proof {
            assert(instances@.dom() =~= inst0.union(Set::new(|k: Seq<int>| exists|j: int| 0 <= j < i + 1 && #[trigger] i_entries@[j].0.key() == k))) by {
                assert(i_entries@[i as int].0.key() == name.key());
            }
        }
        i = i + 1;
    }
    proof {
        assert(instances@.dom() =~= inst0.union(other.instances@.dom())) by {
            assert forall|k: Seq<int>| other.instances@.dom().contains(k) implies exists|j: int| 0 <= j < i_entries@.len() && #[trigger] i_entries@[j].0.key() == k by {
                crate::base::table::lemma_seq_pos(i_entries@, crate::base::table::seq_pos(i_entries@, k));
            }
            assert forall|j: int| 0 <= j < i_entries@.len() implies other.instances@.dom().contains(#[trigger] i_entries@[j].0.key()) by {
                crate::base::table::lemma_seq_pos(i_entries@, j);
            }
        }
    }
    let e_entries = other.endpoints.into_entries();
    let mut i: usize = 0;
    while i < e_entries.len()
        invariant
            i <= e_entries@.len(),
            endpoints@.dom() == end0.union(Set::new(|k: Seq<int>| exists|j: int| 0 <= j < i && #[trigger] e_entries@[j].0.key() == k)),
        decreases e_entries@.len() - i,
    {
        let e = e_entries[i].0;
        endpoints.insert(e, ());
        proof {
            assert(endpoints@.dom() =~= end0.union(Set::new(|k: Seq<int>| exists|j: int| 0 <= j < i + 1 && #[trigger] e_entries@[j].0.key() == k))) by {
                assert(e_entries@[i as int].0.key() == e.key());
            }
        }
        i = i + 1;
    }
    proof {
        assert(endpoints@.dom() =~= end0.union(other.endpoints@.dom())) by {
            assert forall|k: Seq<int>| other.endpoints@.dom().contains(k) implies exists|j: int| 0 <= j < e_entries@.len() && #[trigger] e_entries@[j].0.key() == k by {
                crate::base::table::lemma_seq_pos(e_entries@, crate::base::table::seq_pos(e_entries@, k));
            }
            assert forall|j: int| 0 <= j < e_entries@.len() implies other.endpoints@.dom().contains(#[trigger] e_entries@[j].0.key()) by {
                crate::base::table::lemma_seq_pos(e_entries@, j);
            }
        }
    }
    let hostname = match hostname {
        Some(h) => Some(h),
        None => other.hostname,
    };
    let state = if state.is_ready() {
        state
    } else {
        other.state
    };
    KnownNode {
        key,
        instances,
        endpoints,
        hostname,
        requires_authorization: requires_authorization || other.requires_authorization,
        state,
    }
}

/// Fold an advertisement into what is known of a Node.
fn absorb_advertisement(node: KnownNode, advertisement: &Advertisement) -> (r: KnownNode)
    ensures
        summary(r) == with_advertisement(summary(node), *advertisement),
        r.state == node.state,
        r.key == node.key,
{
    let KnownNode { key, mut instances, mut endpoints, hostname, requires_authorization, state } = node;
    let ghost start = endpoints@.dom();
    instances.insert(Name::of(advertisement.instance.as_str()), ());
    let mut i: usize = 0;
    while i < advertisement.endpoints.len()
        invariant
            i <= advertisement.endpoints.entries().len(),
            endpoints@.dom() == start.union(Set::new(|k: Seq<int>| exists|j: int| 0 <= j < i && #[trigger] advertisement.endpoints.entries()[j].0.key() == k)),
        decreases advertisement.endpoints.entries().len() - i,
    {
        let e = advertisement.endpoints.entry(i);
        endpoints.insert(e.0, ());
        proof {
            assert(endpoints@.dom() =~= start.union(Set::new(|k: Seq<int>| exists|j: int| 0 <= j < i + 1 && #[trigger] advertisement.endpoints.entries()[j].0.key() == k))) by {
                assert(advertisement.endpoints.entries()[i as int].0.key() == e.0.key());
            }
        }
        i = i + 1;
    }
    proof {
        use_type_invariant(&advertisement.endpoints);
        assert(endpoints@.dom() =~= start.union(advertisement.endpoints@.dom())) by {
            assert forall|k: Seq<int>| advertisement.endpoints@.dom().contains(k) implies exists|j: int| 0 <= j < advertisement.endpoints.entries().len() && #[trigger] advertisement.endpoints.entries()[j].0.key() == k by {
                advertisement.endpoints.lemma_key_held(k);
            }
            assert forall|j: int| 0 <= j < advertisement.endpoints.entries().len() implies advertisement.endpoints@.dom().contains(#[trigger] advertisement.endpoints.entries()[j].0.key()) by {
                advertisement.endpoints.lemma_entry(j);
            }
        }
    }
    let hostname = match hostname {
        Some(h) => Some(h),
        None => match &advertisement.hostname {
            Some(h) => Some(h.clone()),
            None => None,
        },
    };
    KnownNode {
        key,
        instances,
        endpoints,
        hostname,
        requires_authorization: requires_authorization || advertisement.requires_authorization,
        state,
    }
}


/// Losing one route to a Node does not lose the Node: while another
/// instance name still reaches it, the Node stays, in the state it was in.
pub proof fn law_losing_one_route_keeps_the_node(
    before: Inventory,
    instance: Seq<char>,
    other: Seq<char>,
    after: Inventory,
)
    requires
        departed(before, instance, after),
        other != instance,
        before.ids()@.contains_key(instance),
        before.ids()@.contains_key(other),
        before.ids()@[other] == before.ids()@[instance],
        before.nodes_view().contains_key(before.ids()@[instance]),
    ensures
        after.nodes_view().contains_key(before.ids()@[instance]),
        after.nodes_view()[before.ids()@[instance]].state == before.nodes_view()[before.ids()@[instance]].state,
        after.ids()@.contains_key(other),
        after.ids()@[other] == before.ids()@[instance],
{
    let k = before.ids()@[instance];
    assert(after.ids()@.contains_key(other) && after.ids()@[other] == k);
    assert(after.ids().nodes().contains(k));
}

/// Departing the last route to a Node removes the Node.
pub proof fn law_departing_the_last_route_removes_the_node(before: Inventory, instance: Seq<char>, after: Inventory)
    requires
        departed(before, instance, after),
        before.ids()@.contains_key(instance),
        forall|other: Seq<char>|
            other != instance && #[trigger] before.ids()@.contains_key(other) ==> before.ids()@[other]
                != before.ids()@[instance],
    ensures
        !after.nodes_view().contains_key(before.ids()@[instance]),
        before.nodes_view().contains_key(before.ids()@[instance]) ==> after.nodes_view().dom().len()
            == before.nodes_view().dom().len() - 1,
{
    let k = before.ids()@[instance];
    before.node_table().lemma_finite();
    if after.ids().nodes().contains(k) {
        let other = choose|o: Seq<char>| after.ids()@.contains_key(o) && after.ids()@[o] == k;
        assert(before.ids()@.contains_key(other) && other != instance);
    }
}

/// Every Node held is reached by some instance name, and every instance name
/// resolves either to its own provisional key or to an identifier.
pub open spec fn nodes_are_routed(inv: Inventory) -> bool {
    &&& forall|k: Seq<int>| #[trigger] inv.nodes_view().contains_key(k) ==> inv.ids().nodes().contains(k)
    &&& forall|i: Seq<char>|
        #[trigger] inv.ids()@.contains_key(i) ==> inv.ids()@[i] == provisional_key(i) || (inv.ids()@[i].len()
            > 0 && inv.ids()@[i][0] == 1)
}

/// Whether every Node held is still routed when every Node held was.
pub open spec fn routes_kept(before: Inventory, after: Inventory) -> bool {
    nodes_are_routed(before) ==> nodes_are_routed(after)
}

/// Two inventories with the same routes and the same Nodes held agree on
/// whether every Node is routed.
proof fn lemma_routed_by_same_routes(before: Inventory, after: Inventory)
    requires
        nodes_are_routed(before),
        after.ids()@ == before.ids()@,
        after.nodes_view().dom() == before.nodes_view().dom(),
    ensures
        nodes_are_routed(after),
{
    assert forall|k: Seq<int>| #[trigger] after.nodes_view().contains_key(k) implies after.ids().nodes().contains(k) by {
        assert(before.nodes_view().dom().contains(k));
        let j = choose|j: Seq<char>| before.ids()@.contains_key(j) && before.ids()@[j] == k;
        assert(after.ids()@.contains_key(j) && after.ids()@[j] == k);
    }
}

/// Tables whose entries carry the same keys, in the same places, hold the
/// same keys.
proof fn lemma_same_keys_same_dom(new: Table<NodeKey, KnownNode>, old: Table<NodeKey, KnownNode>)
    requires
        new.entries().len() == old.entries().len(),
        forall|i: int| 0 <= i < new.entries().len() ==> (#[trigger] new.entries()[i]).0 == old.entries()[i].0,
    ensures
        new@.dom() == old@.dom(),
{
    assert forall|k: Seq<int>| new@.dom().contains(k) <==> old@.dom().contains(k) by {
        if new@.dom().contains(k) {
            let i = choose|i: int| 0 <= i < new.entries().len() && #[trigger] new.entries()[i].0.key() == k;
            assert(old.entries()[i].0.key() == k);
        }
        if old@.dom().contains(k) {
            let i = choose|i: int| 0 <= i < old.entries().len() && #[trigger] old.entries()[i].0.key() == k;
            assert(new.entries()[i].0.key() == k);
        }
    }
    assert(new@.dom() =~= old@.dom());
}

/// An empty inventory holds no Node that is not routed.
pub proof fn law_a_new_inventory_has_every_node_routed(inv: Inventory)
    requires
        inv.ids()@ == Map::<Seq<char>, Seq<int>>::empty(),
        inv.nodes_view() == Map::<Seq<int>, KnownNode>::empty(),
    ensures
        nodes_are_routed(inv),
{
}

/// Observing an advertisement keeps every Node routed; and an instance not
/// seen before brings exactly one Node more.
pub proof fn law_observing_keeps_every_node_routed(
    before: Inventory,
    advertisement: Advertisement,
    after: Inventory,
    r: NodeKey,
)
    requires
        nodes_are_routed(before),
        observed_in(before, advertisement, after, r),
    ensures
        nodes_are_routed(after),
        after.nodes_view().contains_key(r.key()),
        !before.ids()@.contains_key(advertisement.instance@) ==> !before.nodes_view().contains_key(r.key())
            && after.nodes_view().dom().len() == before.nodes_view().dom().len() + 1,
{
    let instance = advertisement.instance@;
    assert(after.ids()@.contains_key(instance) && after.ids()@[instance] == r.key());
    assert forall|k: Seq<int>| #[trigger] after.nodes_view().contains_key(k) implies after.ids().nodes().contains(k) by {
        if k != r.key() {
            assert(before.nodes_view().dom().contains(k));
            let j = choose|j: Seq<char>| before.ids()@.contains_key(j) && before.ids()@[j] == k;
            assert(after.ids()@.contains_key(j) && after.ids()@[j] == k);
        } else {
            assert(after.ids()@.contains_key(instance) && after.ids()@[instance] == k);
        }
    }
    if !before.ids()@.contains_key(instance) {
        let p = provisional_key(instance);
        assert(r.key() == p);
        if before.nodes_view().contains_key(p) {
            let j = choose|j: Seq<char>| before.ids()@.contains_key(j) && before.ids()@[j] == p;
            assert(p[0] == 0);
            assert(before.ids()@[j] == provisional_key(j));
            assert(text_key(j) =~= provisional_key(j).subrange(1, p.len() as int));
            assert(text_key(instance) =~= p.subrange(1, p.len() as int));
            crate::base::order::lemma_text_key_injective(j, instance);
            assert(j == instance);
            assert(false);
        }
        assert(!before.nodes_view().dom().contains(p));
        before.node_table().lemma_finite();
        assert(after.nodes_view().dom() == before.nodes_view().dom().insert(p));
    }
}

/// Observing the same advertisement twice holds one Node for it: the second
/// time returns the same key and the Nodes held are the same.
pub proof fn law_observing_twice_holds_one_node(
    i0: Inventory,
    advertisement: Advertisement,
    i1: Inventory,
    k1: NodeKey,
    i2: Inventory,
    k2: NodeKey,
)
    requires
        observed_in(i0, advertisement, i1, k1),
        observed_in(i1, advertisement, i2, k2),
    ensures
        k2.key() == k1.key(),
        i2.ids()@ == i1.ids()@,
        i2.nodes_view().dom() == i1.nodes_view().dom(),
{
    assert(i1.ids()@.contains_key(advertisement.instance@));
    assert(i2.nodes_view().dom() =~= i1.nodes_view().dom());
}

/// Identifying a Node keeps every Node routed.
pub proof fn law_identifying_keeps_every_node_routed(
    before: Inventory,
    instance: Seq<char>,
    id: Seq<char>,
    after: Inventory,
    r: NodeKey,
)
    requires
        nodes_are_routed(before),
        identified_in(before, instance, id, after, r),
    ensures
        nodes_are_routed(after),
{
    let o = choose|o: Identified| identified(before.ids(), instance, id, after.ids(), o);
    let w = before.prior_key(instance);
    let s = settled_key(id);
    assert(s[0] == 1);
    if w != s {
        assert(after.ids()@ == before.ids()@.insert(instance, s));
    } else {
        assert(after.ids()@ == before.ids()@);
    }
    assert forall|k: Seq<int>| #[trigger] after.nodes_view().contains_key(k) implies after.ids().nodes().contains(k) by {
        if k == s && w != s {
            assert(after.ids()@.contains_key(instance) && after.ids()@[instance] == k);
        } else {
            assert(before.nodes_view().contains_key(k));
            let j = choose|j: Seq<char>| before.ids()@.contains_key(j) && before.ids()@[j] == k;
            assert(after.ids()@.contains_key(j) && after.ids()@[j] == k);
        }
    }
}

/// Departing keeps every Node routed; and when the last route to a Node
/// departs, one Node fewer is held.
pub proof fn law_departing_keeps_every_node_routed(before: Inventory, instance: Seq<char>, after: Inventory)
    requires
        nodes_are_routed(before),
        departed(before, instance, after),
    ensures
        nodes_are_routed(after),
        before.ids()@.contains_key(instance) && before.nodes_view().contains_key(before.ids()@[instance])
            && (forall|other: Seq<char>|
            other != instance && #[trigger] before.ids()@.contains_key(other) ==> before.ids()@[other]
                != before.ids()@[instance]) ==> after.nodes_view().dom().len() == before.nodes_view().dom().len()
            - 1,
{
    assert forall|k: Seq<int>| #[trigger] after.nodes_view().contains_key(k) implies after.ids().nodes().contains(k) by {
        assert(before.nodes_view().contains_key(k));
        let j = choose|j: Seq<char>| before.ids()@.contains_key(j) && before.ids()@[j] == k;
        if j != instance {
            assert(after.ids()@.contains_key(j) && after.ids()@[j] == k);
        } else {
            assert(after.ids().nodes().contains(k));
        }
    }
    if before.ids()@.contains_key(instance) {
        let k = before.ids()@[instance];
        if before.nodes_view().contains_key(k) && forall|other: Seq<char>|
            other != instance && #[trigger] before.ids()@.contains_key(other) ==> before.ids()@[other] != k {
            law_departing_the_last_route_removes_the_node(before, instance, after);
            before.node_table().lemma_finite();
        }
    }
}

/// Recording a failure keeps every Node routed.
pub proof fn law_a_failure_keeps_every_node_routed(before: Inventory, key: NodeKey, reason: String, after: Inventory)
    requires
        nodes_are_routed(before),
        failure_set(before, key, reason, after),
    ensures
        nodes_are_routed(after),
{
    lemma_routed_by_same_routes(before, after);
}

/// Recording a tree keeps every Node routed.
pub proof fn law_a_tree_keeps_every_node_routed(before: Inventory, key: NodeKey, tree: ResourceTree, after: Inventory)
    requires
        nodes_are_routed(before),
        tree_set(before, key, tree, after),
    ensures
        nodes_are_routed(after),
{
    lemma_routed_by_same_routes(before, after);
}

/// Replacing a collection keeps every Node routed.
pub proof fn law_a_collection_keeps_every_node_routed(
    before: Inventory,
    key: NodeKey,
    data: CollectionData,
    after: Inventory,
)
    requires
        nodes_are_routed(before),
        collection_updated(before, key, data, after),
    ensures
        nodes_are_routed(after),
{
    lemma_routed_by_same_routes(before, after);
}

/// Recording a Sender's or a Receiver's transport keeps every Node routed.
pub proof fn law_a_transport_keeps_every_node_routed(before: Inventory, after: Inventory)
    requires
        nodes_are_routed(before),
        after.ids() == before.ids(),
        all_refreshed(after.node_table(), before.node_table(), after.sender_table(), after.receiver_table()),
    ensures
        nodes_are_routed(after),
{
    lemma_same_keys_same_dom(after.node_table(), before.node_table());
    lemma_routed_by_same_routes(before, after);
}

/// Resolving the connection graph keeps every Node routed.
pub proof fn law_resolving_keeps_every_node_routed(before: Inventory, after: Inventory)
    requires
        nodes_are_routed(before),
        connections_resolved(before, after),
    ensures
        nodes_are_routed(after),
{
    assert forall|i: int| 0 <= i < after.node_table().entries().len() implies (#[trigger] after.node_table().entries()[i]).0
        == before.node_table().entries()[i].0 by {
    }
    lemma_same_keys_same_dom(after.node_table(), before.node_table());
    lemma_routed_by_same_routes(before, after);
}

/// A Node seen for the first time is listed, not hidden: it is Loading,
/// reached by that instance alone at the advertised endpoints, with the
/// advertised counters, and one Node more is held.
pub proof fn law_a_new_node_is_listed_as_loading(
    before: Inventory,
    advertisement: Advertisement,
    after: Inventory,
    r: NodeKey,
)
    requires
        nodes_are_routed(before),
        !before.ids()@.contains_key(advertisement.instance@),
        observed_in(before, advertisement, after, r),
    ensures
        after.nodes_view().contains_key(r.key()),
        after.nodes_view()[r.key()].state == NodeState::Loading,
        after.nodes_view()[r.key()].instances@.dom() == set![text_key(advertisement.instance@)],
        after.nodes_view()[r.key()].endpoints@.dom() == advertisement.endpoints@.dom(),
        after.counters_view().contains_key(r.key()),
        after.counters_view()[r.key()] == advertisement.counters,
        after.nodes_view().dom().len() == before.nodes_view().dom().len() + 1,
{
    law_observing_keeps_every_node_routed(before, advertisement, after, r);
    assert(Set::<Seq<int>>::empty().insert(text_key(advertisement.instance@)) =~= set![text_key(advertisement.instance@)]);
    assert(Set::<Seq<int>>::empty().union(advertisement.endpoints@.dom()) =~= advertisement.endpoints@.dom());
}

/// What the transport pass read survives a tree being read again: a Node
/// re-read after a Sender's transport was recorded is Ready, built from the
/// new tree with that transport.
pub proof fn law_transports_survive_a_re_read(
    i0: Inventory,
    id: ResourceId,
    transport: Result<SenderTransport, String>,
    i1: Inventory,
    key: NodeKey,
    tree: ResourceTree,
    i2: Inventory,
)
    requires
        sender_transport_set(i0, id, transport, i1),
        tree_set(i1, key, tree, i2),
        i1.nodes_view().contains_key(key.key()),
    ensures
        i2.sender_table()@.contains_key(id.key()),
        i2.sender_table()@[id.key()] == transport,
        i2.nodes_view()[key.key()].state matches NodeState::Ready(c) && contents_are(
            *c,
            tree,
            i2.sender_table(),
            i2.receiver_table(),
        ),
{
}

} // verus!
