//! What the loop that keeps the inventory following the network decides.
//!
//! The loop itself — waiting on discovery, on commands, on fetches and on a
//! timer — runs outside the library. Each thing it waits for arrives here as
//! an event, and what to do about it is decided here: what the inventory
//! records, and what work is still owed.

use std::time::Duration;

use vstd::prelude::*;

use crate::base::table::{Keyed, Table};
use crate::discovery::advert::{Advertisement, DiscoveryEvent};
use crate::discovery::counters::Collection;
use crate::discovery::advert::preferred_among;
use crate::discovery::endpoint::{endpoint_text, Endpoint};
use crate::identity::NodeKey;
use crate::inventory::view::{KnownNode, NodeState};
use crate::inventory::{
    collection_updated, connection_base_of, departed, failure_set, id_texts, identified_in,
    observed_in, receiver_transport_set, sender_transport_set, tree_set, version_pairs,
    version_readings, Inventory,
};
use crate::nmos::connection_api::{ReceiverTransport, SenderTransport};
use crate::nmos::http::{nanos_in, seconds, span_nanos, whole_seconds};
use crate::nmos::node_api::{CollectionData, ResourceTree};
use crate::nmos::resource::ResourceId;
use crate::nmos::version::{supported_versions, ApiVersion};
use crate::nmos::receiver::Receiver;
use crate::nmos::sender::Sender;

verus! {

broadcast use vstd::std_specs::vec::group_vec_axioms;

/// How many Nodes are read at once. Discovering a large plant must not flood
/// it.
pub const FETCH_CONCURRENCY: usize = 8;

/// How often, in seconds, the transport pass runs for a Node regardless of
/// its counters.
pub const TRANSPORT_FLOOR_SECS: u64 = 60;

/// How often the transport pass runs for a Node regardless of its counters:
/// the counter mechanism is only as good as the vendor's implementation of
/// it, and the floor converges anyway.
pub fn transport_floor() -> (r: Duration)
    ensures
        r == whole_seconds(60),
        span_nanos(r) == 60_000_000_000,
{
    seconds(TRANSPORT_FLOOR_SECS)
}

/// How the engine behaves.
#[derive(Debug, Clone, Copy)]
pub struct EngineConfig {
    /// How many Nodes are read at once.
    pub concurrency: usize,
    /// How often the transport pass runs regardless of counters.
    pub transport_floor: Duration,
}

impl Default for EngineConfig {
    /// Eight Nodes at once, and the transport pass at least every minute.
    fn default() -> (r: Self)
        ensures
            r.concurrency == 8,
            r.transport_floor == whole_seconds(60),
    {
        EngineConfig { concurrency: FETCH_CONCURRENCY, transport_floor: transport_floor() }
    }
}

/// Runs the inventory: a discovery source, a fetcher, and how to behave.
#[derive(Debug)]
pub struct Engine<D, F> {
    /// Where advertisements come from.
    pub discovery: D,
    /// How Nodes are read.
    pub fetcher: F,
    /// How the engine behaves.
    pub config: EngineConfig,
}

impl<D, F> Engine<D, F> {
    /// An engine over a discovery source and a fetcher.
    pub fn new(discovery: D, fetcher: F, config: EngineConfig) -> (r: Self)
        ensures
            r.discovery == discovery,
            r.fetcher == fetcher,
            r.config == config,
    {
        Engine { discovery, fetcher, config }
    }
}

/// What the operator asks the engine to do.
#[derive(Debug, Clone, PartialEq, Eq)]
pub enum Command {
    /// Re-read one Node in full, whatever its counters say.
    Refresh(NodeKey),
    /// Re-read every Node in full.
    RefreshAll,
    /// Stop.
    Stop,
}

/// One collection of one Node, as owed work.
#[derive(Debug)]
pub struct CollectionKey {
    /// The Node.
    pub node: NodeKey,
    /// The collection.
    pub collection: Collection,
}

/// A collection's place in the order of a tree.
pub open spec fn collection_slot(c: Collection) -> int {
    match c {
        Collection::Node => 0,
        Collection::Devices => 1,
        Collection::Senders => 2,
        Collection::Receivers => 3,
        Collection::Flows => 4,
        Collection::Sources => 5,
    }
}

fn slot_of(c: Collection) -> (r: u8)
    ensures
        r as int == collection_slot(c),
{
    match c {
        Collection::Node => 0,
        Collection::Devices => 1,
        Collection::Senders => 2,
        Collection::Receivers => 3,
        Collection::Flows => 4,
        Collection::Sources => 5,
    }
}

impl Keyed for CollectionKey {
    /// Ordered by Node, then by collection.
    open spec fn key(&self) -> Seq<int> {
        self.node.key().push(-1).push(collection_slot(self.collection))
    }

    fn same_key(&self, other: &Self) -> (r: bool) {
        let r = self.node.same_key(&other.node) && slot_of(self.collection) == slot_of(other.collection);
        proof {
            if self.key() == other.key() {
                let a = self.node.key();
                let b = other.node.key();
                assert(self.key().len() == other.key().len());
                assert(a =~= self.key().subrange(0, a.len() as int));
                assert(b =~= other.key().subrange(0, b.len() as int));
                assert(self.key()[(a.len() + 1) as int] == collection_slot(self.collection));
            }
        }
        r
    }

    fn key_before(&self, other: &Self) -> (r: bool) {
        proof {
            crate::inventory::view::lemma_node_key_nonnegative(self.node);
            crate::inventory::view::lemma_node_key_nonnegative(other.node);
            crate::base::order::lemma_lt_closed_then(
                self.node.key(),
                collection_slot(self.collection),
                other.node.key(),
                collection_slot(other.collection),
            );
            if self.node.key() != other.node.key() {
                crate::base::order::lemma_lt_total(self.node.key(), other.node.key());
            } else {
                crate::base::order::lemma_lt_irreflexive(self.node.key());
            }
            if crate::base::order::seq_lt(other.node.key(), self.node.key()) {
                crate::base::order::lemma_lt_asymmetric(other.node.key(), self.node.key());
            }
        }
        if self.node.key_before(&other.node) {
            true
        } else if other.node.key_before(&self.node) {
            false
        } else {
            slot_of(self.collection) < slot_of(other.collection)
        }
    }
}

/// What the engine still has to do: Nodes to read in full, collections to
/// re-read, and Nodes whose transport pass is due.
#[derive(Debug)]
pub struct Pending {
    trees: Table<NodeKey, ()>,
    collections: Table<CollectionKey, ()>,
    transports: Table<NodeKey, ()>,
}

impl Pending {
    /// The Nodes owed a full read.
    pub closed spec fn tree_keys(&self) -> Seq<Seq<int>> {
        self.trees.keys()
    }

    /// The collections owed a re-read.
    pub closed spec fn collection_keys(&self) -> Seq<Seq<int>> {
        self.collections.keys()
    }

    /// The Nodes owed a transport pass.
    pub closed spec fn transport_keys(&self) -> Seq<Seq<int>> {
        self.transports.keys()
    }

    /// The Nodes owed a full read.
    pub open spec fn trees_owed(&self) -> Set<Seq<int>> {
        self.tree_keys().to_set()
    }

    /// The collections owed a re-read.
    pub open spec fn collections_owed(&self) -> Set<Seq<int>> {
        self.collection_keys().to_set()
    }

    /// The Nodes owed a transport pass.
    pub open spec fn transports_owed(&self) -> Set<Seq<int>> {
        self.transport_keys().to_set()
    }

    /// Nothing owed.
    pub fn new() -> (r: Pending)
        ensures
            r.tree_keys().len() == 0,
            r.collection_keys().len() == 0,
            r.transport_keys().len() == 0,
    {
        Pending { trees: Table::new(), collections: Table::new(), transports: Table::new() }
    }

    /// Whether nothing is owed.
    pub fn is_empty(&self) -> (r: bool)
        ensures
            r == (self.tree_keys().len() == 0 && self.collection_keys().len() == 0
                && self.transport_keys().len() == 0),
    {
        self.trees.len() == 0 && self.collections.len() == 0 && self.transports.len() == 0
    }

    proof fn lemma_keys(t: Table<NodeKey, ()>)
        requires
            t.wf(),
        ensures
            t.keys().to_set() == t@.dom(),
    {
        assert forall|k: Seq<int>| t.keys().to_set().contains(k) <==> t@.dom().contains(k) by {
            if t.keys().to_set().contains(k) {
                let i = choose|i: int| 0 <= i < t.keys().len() && t.keys()[i] == k;
                t.lemma_entry(i);
            }
            if t@.dom().contains(k) {
                t.lemma_key_held(k);
                let i = crate::base::table::seq_pos(t.entries(), k);
                assert(t.keys()[i] == k);
            }
        }
        assert(t.keys().to_set() =~= t@.dom());
    }

    /// Owe a Node a full read.
    pub fn owe_tree(&mut self, key: NodeKey)
        ensures
            final(self).trees_owed() == old(self).trees_owed().insert(key.key()),
            final(self).collections_owed() == old(self).collections_owed(),
            final(self).transports_owed() == old(self).transports_owed(),
    {
        proof {
            use_type_invariant(&self.trees);
            Pending::lemma_keys(self.trees);
        }
        self.trees.insert(key, ());
        proof {
            use_type_invariant(&self.trees);
            Pending::lemma_keys(self.trees);
        }
    }

    /// Owe a Node a transport pass.
    pub fn owe_transport(&mut self, key: NodeKey)
        ensures
            final(self).transports_owed() == old(self).transports_owed().insert(key.key()),
            final(self).trees_owed() == old(self).trees_owed(),
            final(self).collections_owed() == old(self).collections_owed(),
    {
        proof {
            use_type_invariant(&self.transports);
            Pending::lemma_keys(self.transports);
        }
        self.transports.insert(key, ());
        proof {
            use_type_invariant(&self.transports);
            Pending::lemma_keys(self.transports);
        }
    }

    /// Owe a Node a re-read of one collection.
    pub fn owe_collection(&mut self, key: NodeKey, collection: Collection)
        ensures
            final(self).collections_owed() == old(self).collections_owed().insert(
                key.key().push(-1).push(collection_slot(collection)),
            ),
            final(self).trees_owed() == old(self).trees_owed(),
            final(self).transports_owed() == old(self).transports_owed(),
    {
        proof {
            use_type_invariant(&self.collections);
            lemma_collection_keys(self.collections);
        }
        self.collections.insert(CollectionKey { node: key, collection }, ());
        proof {
            use_type_invariant(&self.collections);
            lemma_collection_keys(self.collections);
        }
    }
}

proof fn lemma_collection_keys(t: Table<CollectionKey, ()>)
    requires
        t.wf(),
    ensures
        t.keys().to_set() == t@.dom(),
{
    assert forall|k: Seq<int>| t.keys().to_set().contains(k) <==> t@.dom().contains(k) by {
        if t.keys().to_set().contains(k) {
            let i = choose|i: int| 0 <= i < t.keys().len() && t.keys()[i] == k;
            t.lemma_entry(i);
        }
        if t@.dom().contains(k) {
            t.lemma_key_held(k);
            let i = crate::base::table::seq_pos(t.entries(), k);
            assert(t.keys()[i] == k);
        }
    }
    assert(t.keys().to_set() =~= t@.dom());
}

/// What a Node's own record says it speaks, as version components; nothing
/// before its tree has been read.
pub open spec fn known_pairs(inventory: Inventory, key: Seq<int>) -> Seq<(nat, nat)> {
    if inventory.trees_view().contains_key(key) {
        version_readings(inventory.trees_view()[key].node.api.versions@)
    } else {
        Seq::empty()
    }
}

/// The versions to ask a Node at, as components: what it says it speaks, or
/// everything this controller speaks when nothing is known.
pub open spec fn advertised_pairs(inventory: Inventory, key: Seq<int>) -> Seq<(nat, nat)> {
    if known_pairs(inventory, key).len() == 0 {
        seq![(1nat, 2nat), (1nat, 3nat)]
    } else {
        known_pairs(inventory, key)
    }
}

/// The versions to ask a Node at: what its own record says it speaks, and
/// everything this controller speaks when nothing is known — which is the
/// case before its record has been read.
pub fn advertised_versions(inventory: &Inventory, key: &NodeKey) -> (r: Vec<ApiVersion>)
    ensures
        version_pairs(r@) == advertised_pairs(*inventory, key.key()),
{
    let known = inventory.versions_of(key);
    if known.len() == 0 {
        let r = supported_versions();
        assert(version_pairs(r@) =~= seq![(1nat, 2nat), (1nat, 3nat)]);
        r
    } else {
        known
    }
}

/// Whether an owed collection belongs to a Node.
pub open spec fn of_node(c: Seq<int>, key: Seq<int>) -> bool {
    c.len() == key.len() + 2 && c.subrange(0, key.len() as int) == key
}

/// The key of the Node an owed collection belongs to.
pub open spec fn node_of(c: Seq<int>) -> Seq<int> {
    c.take(c.len() - 2)
}

proof fn lemma_of_node(node: Seq<int>, slot: int, key: Seq<int>)
    ensures
        of_node(node.push(-1).push(slot), key) <==> node == key,
        node_of(node.push(-1).push(slot)) == node,
{
    let c = node.push(-1).push(slot);
    assert(c.subrange(0, node.len() as int) =~= node);
    assert(node_of(c) =~= node);
}

/// Take the first key of a table of Nodes.
fn take_first(t: &mut Table<NodeKey, ()>) -> (r: Option<NodeKey>)
    ensures
        r is None <==> old(t).keys().len() == 0,
        r is None ==> *final(t) == *old(t),
        r matches Some(k) ==> k.key() == old(t).keys()[0]
            && final(t).keys().to_set() == old(t).keys().to_set().remove(k.key()),
{
    proof {
        use_type_invariant(&*t);
        Pending::lemma_keys(*t);
    }
    if t.len() == 0 {
        return None;
    }
    let key = t.entry(0).0.copy();
    t.remove(&key);
    proof {
        use_type_invariant(&*t);
        Pending::lemma_keys(*t);
    }
    Some(key)
}

impl Pending {
    /// Take the first collection owed, in key order.
    fn take_collection(&mut self) -> (r: Option<CollectionKey>)
        ensures
            r is None <==> old(self).collection_keys().len() == 0,
            r is None ==> *final(self) == *old(self),
            r matches Some(c) ==> c.key() == old(self).collection_keys()[0]
                && final(self).collections_owed() == old(self).collections_owed().remove(c.key()),
            final(self).trees == old(self).trees,
            final(self).transports == old(self).transports,
    {
        proof {
            use_type_invariant(&self.collections);
            lemma_collection_keys(self.collections);
        }
        if self.collections.len() == 0 {
            return None;
        }
        let first = self.collections.entry(0);
        let c = CollectionKey { node: first.0.node.copy(), collection: first.0.collection };
        self.collections.remove(&c);
        proof {
            use_type_invariant(&self.collections);
            lemma_collection_keys(self.collections);
        }
        Some(c)
    }

    /// Forget every collection owed by a Node: a full read covers them.
    fn drop_collections_of(&mut self, key: &NodeKey)
        ensures
            final(self).collections_owed() == old(self).collections_owed().filter(|c: Seq<int>| !of_node(c, key.key())),
            final(self).trees_owed() == old(self).trees_owed(),
            final(self).transports_owed() == old(self).transports_owed(),
    {
        proof {
            use_type_invariant(&self.collections);
            lemma_collection_keys(self.collections);
        }
        let mut doomed: Vec<CollectionKey> = Vec::new();
        let mut i: usize = 0;
        while i < self.collections.len()
            invariant
                *self == *old(self),
                self.collections.wf(),
                i <= self.collections.entries().len(),
                forall|j: int| 0 <= j < doomed@.len() ==> of_node(#[trigger] doomed@[j].key(), key.key())
                    && self.collections@.contains_key(doomed@[j].key()),
                forall|j: int| 0 <= j < i && of_node(#[trigger] self.collections.entries()[j].0.key(), key.key())
                    ==> collection_key_seq(doomed@).contains(self.collections.entries()[j].0.key()),
            decreases self.collections.entries().len() - i,
        {
            let e = self.collections.entry(i);
            proof {
                lemma_of_node(e.0.node.key(), collection_slot(e.0.collection), key.key());
                self.collections.lemma_entry(i as int);
            }
            let ghost before = doomed@;
            if e.0.node.same_key(key) {
                let c = CollectionKey { node: e.0.node.copy(), collection: e.0.collection };
                doomed.push(c);
                assert(collection_key_seq(doomed@) =~= collection_key_seq(before).push(c.key()));
            }
            proof {
                let ks = collection_key_seq(doomed@);
                let kb = collection_key_seq(before);
                assert forall|j: int| 0 <= j < i + 1 && of_node(#[trigger] self.collections.entries()[j].0.key(), key.key())
                    implies ks.contains(self.collections.entries()[j].0.key()) by {
                    let x = self.collections.entries()[j].0.key();
                    if j < i {
                        let m = choose|m: int| 0 <= m < kb.len() && kb[m] == x;
                        assert(ks[m] == x);
                    } else {
                        assert(ks[ks.len() - 1] == x);
                    }
                }
            }
            i = i + 1;
        }
        let ghost start = self.collections@;
        let mut j: usize = 0;
        while j < doomed.len()
            invariant
                j <= doomed@.len(),
                self.trees == old(self).trees,
                self.transports == old(self).transports,
                forall|m: int| 0 <= m < doomed@.len() ==> of_node(#[trigger] doomed@[m].key(), key.key())
                    && start.contains_key(doomed@[m].key()),
                forall|x: Seq<int>| #[trigger] self.collections@.contains_key(x) <==> (start.contains_key(x)
                    && !exists|m: int| 0 <= m < j && #[trigger] doomed@[m].key() == x),
            decreases doomed@.len() - j,
        {
            self.collections.remove(&doomed[j]);
            j = j + 1;
        }
        proof {
            use_type_invariant(&self.collections);
            lemma_collection_keys(self.collections);
            let before = old(self).collections;
            assert forall|x: Seq<int>| #[trigger] self.collections@.dom().contains(x) <==> before@.dom().filter(|c: Seq<int>| !of_node(c, key.key())).contains(x) by {
                if before@.contains_key(x) && of_node(x, key.key()) {
                    before.lemma_key_held(x);
                    let p = crate::base::table::seq_pos(before.entries(), x);
                    assert(of_node(before.entries()[p].0.key(), key.key()));
                    assert(collection_key_seq(doomed@).contains(x));
                    let m = choose|m: int| 0 <= m < doomed@.len() && #[trigger] collection_key_seq(doomed@)[m] == x;
                    assert(doomed@[m].key() == x);
                }
            }
            assert(self.collections@.dom() =~= before@.dom().filter(|c: Seq<int>| !of_node(c, key.key())));
        }
    }
}

/// The keys of owed collections.
pub open spec fn collection_key_seq(v: Seq<CollectionKey>) -> Seq<Seq<int>> {
    v.map_values(|c: CollectionKey| c.key())
}

/// Whether a Node can be reached: it is known and advertises an endpoint.
pub open spec fn reachable(inventory: Inventory, key: Seq<int>) -> bool {
    inventory.nodes_view().contains_key(key) && inventory.nodes_view()[key].endpoints.entries().len() > 0
}

/// Whether a base is where a Node is read: the text of its preferred
/// endpoint.
pub open spec fn reached_at(inventory: Inventory, key: Seq<int>, base: Seq<char>) -> bool {
    inventory.nodes_view().contains_key(key) && exists|e: Endpoint|
        preferred_among(inventory.nodes_view()[key].endpoints.entries(), Some(&e)) && base == #[trigger] endpoint_text(e)
}

/// Each resource of a tree that can be reached, with the base of the
/// Connection API of its Device, in order.
pub open spec fn reachable_resources(tree: ResourceTree, ids: Seq<Seq<char>>) -> Seq<(Seq<char>, Seq<char>)>
    decreases ids.len(),
{
    if ids.len() == 0 {
        Seq::empty()
    } else {
        let rest = reachable_resources(tree, ids.drop_last());
        match connection_base_of(tree, ids.last()) {
            Some(b) => rest.push((ids.last(), b)),
            None => rest,
        }
    }
}

/// Pairs of identifier and base as plain values.
pub open spec fn pair_texts(v: Seq<(ResourceId, String)>) -> Seq<(Seq<char>, Seq<char>)> {
    v.map_values(|p: (ResourceId, String)| (p.0@, p.1@))
}

/// The resources among `ids` whose Device has a Connection API, each with
/// its base.
fn with_bases(inventory: &Inventory, key: &NodeKey, ids: &Vec<ResourceId>) -> (r: Vec<(ResourceId, String)>)
    requires
        inventory.trees_view().contains_key(key.key()),
    ensures
        pair_texts(r@) == reachable_resources(inventory.trees_view()[key.key()], id_texts(ids@)),
{
    let ghost tree = inventory.trees_view()[key.key()];
    let mut r: Vec<(ResourceId, String)> = Vec::new();
    let mut i: usize = 0;
    while i < ids.len()
        invariant
            i <= ids@.len(),
            inventory.trees_view().contains_key(key.key()),
            tree == inventory.trees_view()[key.key()],
            pair_texts(r@) == reachable_resources(tree, id_texts(ids@).take(i as int)),
        decreases ids@.len() - i,
    {
        assert(id_texts(ids@).take(i + 1).drop_last() =~= id_texts(ids@).take(i as int));
        assert(id_texts(ids@).take(i + 1).last() == ids@[i as int]@);
        let ghost before = r@;
        match inventory.connection_base(key, &ids[i]) {
            Some(b) => {
                let id = ids[i].copy();
                r.push((id, b));
                assert(pair_texts(r@) =~= pair_texts(before).push((ids@[i as int]@, b@)));
            },
            None => {},
        }
        i = i + 1;
    }
    assert(id_texts(ids@).take(ids@.len() as int) =~= id_texts(ids@));
    r
}

/// A unit of work to start.
#[derive(Debug)]
pub enum Work {
    /// Read a Node's whole tree at a base, asking at these versions.
    Tree { key: NodeKey, base: String, versions: Vec<ApiVersion> },
    /// Read one collection of a Node at a base, asking at these versions.
    Collection { key: NodeKey, collection: Collection, base: String, versions: Vec<ApiVersion> },
    /// Read where each Sender's stream goes and which stream each Receiver
    /// takes, each at the Connection API of its Device.
    Transports { senders: Vec<(ResourceId, String)>, receivers: Vec<(ResourceId, String)> },
    /// Work was taken off, but there is nothing to reach it at.
    Unreachable,
    /// Nothing is owed.
    Idle,
}

/// Take the next unit of work off what is owed.
///
/// Full reads come first — and a Node read in full is owed none of its
/// collections — then collections, then transport passes, each in key
/// order. A Node with nowhere to reach it at is passed over.
pub fn take_work(inventory: &Inventory, pending: &mut Pending) -> (r: Work)
    ensures
        old(pending).tree_keys().len() > 0 ==> {
            let k = old(pending).tree_keys()[0];
            &&& final(pending).trees_owed() == old(pending).trees_owed().remove(k)
            &&& final(pending).collections_owed() == old(pending).collections_owed().filter(|c: Seq<int>| !of_node(c, k))
            &&& final(pending).transports_owed() == old(pending).transports_owed()
            &&& match r {
                Work::Tree { key, base, versions } => key.key() == k && reached_at(*inventory, k, base@)
                    && version_pairs(versions@) == advertised_pairs(*inventory, k),
                Work::Unreachable => !reachable(*inventory, k),
                _ => false,
            }
        },
        old(pending).tree_keys().len() == 0 && old(pending).collection_keys().len() > 0 ==> {
            let c = old(pending).collection_keys()[0];
            let k = node_of(c);
            &&& final(pending).trees_owed() == old(pending).trees_owed()
            &&& final(pending).collections_owed() == old(pending).collections_owed().remove(c)
            &&& final(pending).transports_owed() == old(pending).transports_owed()
            &&& match r {
                Work::Collection { key, collection, base, versions } => key.key() == k
                    && c == k.push(-1).push(collection_slot(collection)) && reached_at(*inventory, k, base@)
                    && version_pairs(versions@) == advertised_pairs(*inventory, k),
                Work::Unreachable => !reachable(*inventory, k),
                _ => false,
            }
        },
        old(pending).tree_keys().len() == 0 && old(pending).collection_keys().len() == 0
            && old(pending).transport_keys().len() > 0 ==> {
            let k = old(pending).transport_keys()[0];
            &&& final(pending).trees_owed() == old(pending).trees_owed()
            &&& final(pending).collections_owed() == old(pending).collections_owed()
            &&& final(pending).transports_owed() == old(pending).transports_owed().remove(k)
            &&& match r {
                Work::Transports { senders, receivers } => inventory.trees_view().contains_key(k) && {
                    let t = inventory.trees_view()[k];
                    &&& pair_texts(senders@) == reachable_resources(t, t.senders@.map_values(|s: Sender| s.core.id@))
                    &&& pair_texts(receivers@) == reachable_resources(t, t.receivers@.map_values(|x: Receiver| x.core.id@))
                },
                Work::Unreachable => !inventory.trees_view().contains_key(k),
                _ => false,
            }
        },
        old(pending).tree_keys().len() == 0 && old(pending).collection_keys().len() == 0
            && old(pending).transport_keys().len() == 0 ==> r is Idle && *final(pending) == *old(pending),
{
    if let Some(key) = take_first(&mut pending.trees) {
        pending.drop_collections_of(&key);
        return match inventory.endpoint_for(&key) {
            Some(e) => {
                let base = e.to_string();
                let versions = advertised_versions(inventory, &key);
                assert(endpoint_text(*e) == base@);
                Work::Tree { key, base, versions }
            },
            None => Work::Unreachable,
        };
    }
    if let Some(c) = pending.take_collection() {
        proof {
            lemma_of_node(c.node.key(), collection_slot(c.collection), c.node.key());
        }
        return match inventory.endpoint_for(&c.node) {
            Some(e) => {
                let base = e.to_string();
                let versions = advertised_versions(inventory, &c.node);
                assert(endpoint_text(*e) == base@);
                Work::Collection { key: c.node, collection: c.collection, base, versions }
            },
            None => Work::Unreachable,
        };
    }
    if let Some(key) = take_first(&mut pending.transports) {
        if !inventory.has_tree(&key) {
            return Work::Unreachable;
        }
        let (senders, receivers) = inventory.resources_of(&key);
        let senders = with_bases(inventory, &key, &senders);
        let receivers = with_bases(inventory, &key, &receivers);
        return Work::Transports { senders, receivers };
    }
    Work::Idle
}

/// Record an advertisement; a Node whose tree has not been read is owed one.
pub fn observe(inventory: &mut Inventory, pending: &mut Pending, advertisement: &Advertisement) -> (r: NodeKey)
    ensures
        observed_in(*old(inventory), *advertisement, *final(inventory), r),
        final(pending).trees_owed() == if old(inventory).trees_view().contains_key(r.key()) {
            old(pending).trees_owed()
        } else {
            old(pending).trees_owed().insert(r.key())
        },
        final(pending).collections_owed() == old(pending).collections_owed(),
        final(pending).transports_owed() == old(pending).transports_owed(),
{
    let key = inventory.observe(advertisement);
    if !inventory.has_tree(&key) {
        pending.owe_tree(key.copy());
    }
    key
}

/// Whether a collection's change calls for a transport pass: Senders and
/// Receivers carry the transports.
pub open spec fn moves_transport(c: Collection) -> bool {
    c == Collection::Senders || c == Collection::Receivers
}

/// The keys of a Node's collections.
pub open spec fn collection_keys_of(key: Seq<int>, changed: Seq<Collection>) -> Set<Seq<int>> {
    Set::new(|k: Seq<int>| exists|i: int| 0 <= i < changed.len() && k == key.push(-1).push(collection_slot(#[trigger] changed[i])))
}

/// What recording an event does to the inventory and to what is owed.
pub open spec fn event_applied(
    before: Inventory,
    owed_before: Pending,
    event: DiscoveryEvent,
    after: Inventory,
    owed_after: Pending,
) -> bool {
    match event {
        DiscoveryEvent::Appeared(a) => exists|k: NodeKey| #[trigger] observed_in(before, a, after, k)
            && owed_after.trees_owed() == (if before.trees_view().contains_key(k.key()) {
                owed_before.trees_owed()
            } else {
                owed_before.trees_owed().insert(k.key())
            }) && owed_after.collections_owed() == owed_before.collections_owed()
            && owed_after.transports_owed() == owed_before.transports_owed(),
        DiscoveryEvent::Changed { advertisement: a, changed } => exists|k: NodeKey| #[trigger] observed_in(before, a, after, k)
            && if !before.trees_view().contains_key(k.key()) {
                &&& owed_after.trees_owed() == owed_before.trees_owed().insert(k.key())
                &&& owed_after.collections_owed() == owed_before.collections_owed()
                &&& owed_after.transports_owed() == owed_before.transports_owed()
            } else {
                &&& owed_after.trees_owed() == owed_before.trees_owed()
                &&& owed_after.collections_owed() == owed_before.collections_owed().union(collection_keys_of(k.key(), changed@))
                &&& owed_after.transports_owed() == if exists|i: int| 0 <= i < changed@.len() && moves_transport(#[trigger] changed@[i]) {
                    owed_before.transports_owed().insert(k.key())
                } else {
                    owed_before.transports_owed()
                }
            },
        DiscoveryEvent::Departed { instance } => departed(before, instance@, after)
            && owed_after.trees_owed() == owed_before.trees_owed()
            && owed_after.collections_owed() == owed_before.collections_owed()
            && owed_after.transports_owed() == owed_before.transports_owed(),
    }
}

/// Record what happened on the network.
///
/// A new Node is owed a read. A changed Node is owed a re-read of only the
/// collections whose counters moved, and a transport pass when those include
/// its Senders or Receivers — or a full read, if its tree has never been
/// read. A departure is recorded.
pub fn apply_event(inventory: &mut Inventory, pending: &mut Pending, event: DiscoveryEvent)
    ensures
        event_applied(*old(inventory), *old(pending), event, *final(inventory), *final(pending)),
{
    match event {
        DiscoveryEvent::Appeared(advertisement) => {
            let k = observe(inventory, pending, &advertisement);
        },
        DiscoveryEvent::Changed { advertisement, changed } => {
            let key = inventory.observe(&advertisement);
            if !inventory.has_tree(&key) {
                pending.owe_tree(key);
                return;
            }
            let ghost start_c = pending.collections_owed();
            let ghost start_t = pending.transports_owed();
            let mut i: usize = 0;
            while i < changed.len()
                invariant
                    i <= changed@.len(),
                    pending.trees_owed() == old(pending).trees_owed(),
                    pending.collections_owed() == start_c.union(collection_keys_of(key.key(), changed@.take(i as int))),
                    pending.transports_owed() == if exists|j: int| 0 <= j < i && moves_transport(#[trigger] changed@[j]) {
                        start_t.insert(key.key())
                    } else {
                        start_t
                    },
                decreases changed@.len() - i,
            {
                let c = changed[i];
                pending.owe_collection(key.copy(), c);
                if c == Collection::Senders || c == Collection::Receivers {
                    pending.owe_transport(key.copy());
                }
                proof {
                    assert(collection_keys_of(key.key(), changed@.take(i + 1)) =~= collection_keys_of(key.key(), changed@.take(i as int)).insert(key.key().push(-1).push(collection_slot(c)))) by {
                        assert forall|k: Seq<int>| #[trigger] collection_keys_of(key.key(), changed@.take(i + 1)).contains(k) implies collection_keys_of(key.key(), changed@.take(i as int)).insert(key.key().push(-1).push(collection_slot(c))).contains(k) by {
                            let j = choose|j: int| 0 <= j < i + 1 && k == key.key().push(-1).push(collection_slot(#[trigger] changed@.take(i + 1)[j]));
                            if j < i {
                                assert(changed@.take(i as int)[j] == changed@.take(i + 1)[j]);
                            }
                        }
                        assert forall|k: Seq<int>| #[trigger] collection_keys_of(key.key(), changed@.take(i as int)).insert(key.key().push(-1).push(collection_slot(c))).contains(k) implies collection_keys_of(key.key(), changed@.take(i + 1)).contains(k) by {
                            if k == key.key().push(-1).push(collection_slot(c)) {
                                assert(changed@.take(i + 1)[i as int] == c);
                            } else {
                                let j = choose|j: int| 0 <= j < i && k == key.key().push(-1).push(collection_slot(#[trigger] changed@.take(i as int)[j]));
                                assert(changed@.take(i + 1)[j] == changed@.take(i as int)[j]);
                            }
                        }
                    }
                    if moves_transport(c) {
                        assert(moves_transport(changed@[i as int]));
                    }
                }
                i = i + 1;
            }
            assert(changed@.take(changed@.len() as int) =~= changed@);
        },
        DiscoveryEvent::Departed { instance } => {
            inventory.depart(instance.as_str());
        },
    }
}

/// A unit of finished work.
#[derive(Debug)]
pub enum Done {
    /// A Node's tree was read, or could not be.
    Tree(NodeKey, Result<ResourceTree, String>),
    /// One collection of a Node was read, or could not be.
    Collection(NodeKey, Result<CollectionData, String>),
    /// A Sender's transport was read, or could not be.
    SenderTransport(ResourceId, Result<SenderTransport, String>),
    /// A Receiver's transport was read, or could not be.
    ReceiverTransport(ResourceId, Result<ReceiverTransport, String>),
}

/// The instance name a Node was first reached by, in order of name.
pub open spec fn first_instance(inventory: Inventory, key: Seq<int>) -> Option<Seq<char>> {
    if inventory.nodes_view().contains_key(key) && inventory.nodes_view()[key].instances.entries().len() > 0 {
        Some(inventory.nodes_view()[key].instances.entries()[0].0@)
    } else {
        None
    }
}

/// A tree read recorded: the tree set against `key`, and then the Node
/// re-keyed to the identifier the tree reports, through the first instance
/// name it was reached by; `now` is the key it ends under.
pub open spec fn tree_recorded(before: Inventory, key: NodeKey, tree: ResourceTree, after: Inventory, now: NodeKey) -> bool {
    exists|mid: Inventory| #[trigger] tree_set(before, key, tree, mid) && match first_instance(before, key.key()) {
        Some(inst) => identified_in(mid, inst, tree.node.core.id@, after, now),
        None => after == mid && now.key() == key.key(),
    }
}

/// Record finished work.
///
/// A tree read is recorded and the Node re-keyed to the identifier it
/// reports, and then it is owed a transport pass; a failed read is recorded
/// against the Node. A collection replaces that collection alone. A
/// transport is recorded.
pub fn apply_done(inventory: &mut Inventory, pending: &mut Pending, done: Done)
    ensures
        final(pending).trees_owed() == old(pending).trees_owed(),
        final(pending).collections_owed() == old(pending).collections_owed(),
        match done {
            Done::Tree(key, Ok(tree)) => exists|now: NodeKey|
                #[trigger] tree_recorded(*old(inventory), key, tree, *final(inventory), now)
                && final(pending).transports_owed() == old(pending).transports_owed().insert(now.key()),
        Done::Tree(key, Err(reason)) => failure_set(*old(inventory), key, reason, *final(inventory))
                && final(pending).transports_owed() == old(pending).transports_owed(),
            Done::Collection(key, Ok(data)) => collection_updated(*old(inventory), key, data, *final(inventory))
                && final(pending).transports_owed() == old(pending).transports_owed(),
            Done::Collection(key, Err(reason)) => failure_set(*old(inventory), key, reason, *final(inventory))
                && final(pending).transports_owed() == old(pending).transports_owed(),
            Done::SenderTransport(id, result) => sender_transport_set(*old(inventory), id, result, *final(inventory))
                && final(pending).transports_owed() == old(pending).transports_owed(),
            Done::ReceiverTransport(id, result) => receiver_transport_set(*old(inventory), id, result, *final(inventory))
                && final(pending).transports_owed() == old(pending).transports_owed(),
        },
{
    match done {
        Done::Tree(key, Ok(tree)) => {
            let id = tree.node.core.id.copy();
            let instance = match inventory.node(&key) {
                Some(node) => {
                    if node.instances.len() > 0 {
                        Some(node.instances.entry(0).0.0.clone())
                    } else {
                        None
                    }
                },
                None => None,
            };
            let ghost t = tree;
            inventory.set_tree(&key, tree);
            let ghost mid = *inventory;
            let now = match instance {
                Some(instance) => inventory.identify(instance.as_str(), &id),
                None => key,
            };
            pending.owe_transport(now.copy());
            proof {
                assert(tree_set(*old(inventory), key, t, mid));
                assert(tree_recorded(*old(inventory), key, t, *inventory, now));
            }
        },
        Done::Tree(key, Err(reason)) => inventory.set_failure(&key, reason),
        Done::Collection(key, Ok(data)) => inventory.update_collection(&key, data),
        Done::Collection(key, Err(reason)) => inventory.set_failure(&key, reason),
        Done::SenderTransport(id, result) => inventory.set_sender_transport(&id, result),
        Done::ReceiverTransport(id, result) => inventory.set_receiver_transport(&id, result),
    }
}

/// The keys the Nodes known carry.
pub open spec fn known_keys(inventory: Inventory) -> Set<Seq<int>> {
    inventory.nodes_view().values().map(|n: KnownNode| n.key.key())
}

/// Owe every Node known a full read.
pub fn refresh_all(inventory: &Inventory, pending: &mut Pending)
    ensures
        final(pending).trees_owed() == old(pending).trees_owed().union(known_keys(*inventory)),
        final(pending).collections_owed() == old(pending).collections_owed(),
        final(pending).transports_owed() == old(pending).transports_owed(),
{
    let nodes = inventory.nodes();
    let ghost start = pending.trees_owed();
    let mut i: usize = 0;
    while i < nodes.len()
        invariant
            i <= nodes@.len(),
            pending.trees_owed() == start.union(Set::new(|k: Seq<int>| exists|j: int| 0 <= j < i && #[trigger] nodes@[j].key.key() == k)),
            pending.collections_owed() == old(pending).collections_owed(),
            pending.transports_owed() == old(pending).transports_owed(),
        decreases nodes@.len() - i,
    {
        pending.owe_tree(nodes[i].key.copy());
        assert(pending.trees_owed() =~= start.union(Set::new(|k: Seq<int>| exists|j: int| 0 <= j < i + 1 && #[trigger] nodes@[j].key.key() == k)));
        i = i + 1;
    }
    proof {
        let t = inventory.node_table();
        let seen = Set::new(|k: Seq<int>| exists|j: int| 0 <= j < nodes@.len() && #[trigger] nodes@[j].key.key() == k);
        assert forall|k: Seq<int>| seen.contains(k) implies #[trigger] known_keys(*inventory).contains(k) by {
            let j = choose|j: int| 0 <= j < nodes@.len() && #[trigger] nodes@[j].key.key() == k;
            let n = *nodes@[j];
            assert(inventory.nodes_view().contains_key(t.entries()[j].0.key()));
            assert(inventory.nodes_view().values().contains(n));
        }
        assert forall|k: Seq<int>| #[trigger] known_keys(*inventory).contains(k) implies seen.contains(k) by {
            let n = choose|n: KnownNode| inventory.nodes_view().values().contains(n) && n.key.key() == k;
            let x = choose|x: Seq<int>| inventory.nodes_view().contains_key(x) && inventory.nodes_view()[x] == n;
            let j = choose|j: int| 0 <= j < nodes@.len() && t.entries()[j].0.key() == x;
            assert(*nodes@[j] == n);
        }
        assert(seen =~= known_keys(*inventory));
    }
}

/// Whether a command asks the engine to go on, and what it owes: a refresh
/// of one Node owes it a full read; a refresh of all owes every Node one;
/// a stop ends the engine.
pub fn apply_command(inventory: &Inventory, pending: &mut Pending, command: Command) -> (r: bool)
    ensures
        r == !(command is Stop),
        match command {
            Command::Refresh(key) => final(pending).trees_owed() == old(pending).trees_owed().insert(key.key()),
            Command::RefreshAll => final(pending).trees_owed() == old(pending).trees_owed().union(known_keys(*inventory)),
            Command::Stop => final(pending).trees_owed() == old(pending).trees_owed(),
        },
        final(pending).collections_owed() == old(pending).collections_owed(),
        final(pending).transports_owed() == old(pending).transports_owed(),
{
    match command {
        Command::Refresh(key) => {
            pending.owe_tree(key);
            true
        },
        Command::RefreshAll => {
            refresh_all(inventory, pending);
            true
        },
        Command::Stop => false,
    }
}

/// Whether a Node's transport pass is due: never run, or run at least a
/// floor ago.
pub fn transport_due(elapsed: Option<Duration>, floor: Duration) -> (r: bool)
    ensures
        r == match elapsed {
            None => true,
            Some(e) => span_nanos(e) >= span_nanos(floor),
        },
{
    match elapsed {
        None => true,
        Some(e) => nanos_in(e) >= nanos_in(floor),
    }
}

/// Owe a transport pass to every Node given as due that has been read.
pub fn queue_due_transports(inventory: &Inventory, pending: &mut Pending, due: &Vec<NodeKey>)
    ensures
        final(pending).transports_owed() == old(pending).transports_owed().union(Set::new(|k: Seq<int>| exists|j: int| 0 <= j < due@.len() && #[trigger] due@[j].key() == k && inventory.nodes_view().contains_key(k) && inventory.nodes_view()[k].state is Ready)),
        final(pending).trees_owed() == old(pending).trees_owed(),
        final(pending).collections_owed() == old(pending).collections_owed(),
{
    let ghost start = pending.transports_owed();
    let mut i: usize = 0;
    while i < due.len()
        invariant
            i <= due@.len(),
            pending.transports_owed() == start.union(Set::new(|k: Seq<int>| exists|j: int| 0 <= j < i && #[trigger] due@[j].key() == k && inventory.nodes_view().contains_key(k) && inventory.nodes_view()[k].state is Ready)),
            pending.trees_owed() == old(pending).trees_owed(),
            pending.collections_owed() == old(pending).collections_owed(),
        decreases due@.len() - i,
    {
        let ready = match inventory.node(&due[i]) {
            Some(n) => n.state.is_ready(),
            None => false,
        };
        if ready {
            pending.owe_transport(due[i].copy());
        }
        assert(pending.transports_owed() =~= start.union(Set::new(|k: Seq<int>| exists|j: int| 0 <= j < i + 1 && #[trigger] due@[j].key() == k && inventory.nodes_view().contains_key(k) && inventory.nodes_view()[k].state is Ready)));
        i = i + 1;
    }
}

/// Resolve the connection graph and move to the next generation of
/// snapshot.
pub fn publish(inventory: &mut Inventory, generation: u64) -> (r: u64)
    ensures
        crate::inventory::connections_resolved(*old(inventory), *final(inventory)),
        r == if generation == u64::MAX { 0 } else { generation + 1 },
{
    inventory.resolve_connections();
    generation.wrapping_add(1)
}

/// A Node whose tree has been read, re-advertised with its Senders' or its
/// Receivers' counter moved, is owed a transport pass: that is where the
/// streams they send and take are read. One whose changes touch neither is
/// owed no new pass.
pub proof fn law_moved_senders_or_receivers_owe_a_transport_pass(
    i0: Inventory,
    p0: Pending,
    a: Advertisement,
    changed: Vec<Collection>,
    i1: Inventory,
    p1: Pending,
)
    requires
        event_applied(i0, p0, DiscoveryEvent::Changed { advertisement: a, changed }, i1, p1),
        i0.trees_view().contains_key(i1.ids()@[a.instance@]),
    ensures
        changed@.contains(Collection::Receivers) ==> p1.transports_owed().contains(i1.ids()@[a.instance@]),
        changed@.contains(Collection::Senders) ==> p1.transports_owed().contains(i1.ids()@[a.instance@]),
        !changed@.contains(Collection::Receivers) && !changed@.contains(Collection::Senders)
            ==> p1.transports_owed() == p0.transports_owed(),
{
    let k = choose|k: NodeKey| #[trigger] observed_in(i0, a, i1, k) && if !i0.trees_view().contains_key(k.key()) {
        &&& p1.trees_owed() == p0.trees_owed().insert(k.key())
        &&& p1.collections_owed() == p0.collections_owed()
        &&& p1.transports_owed() == p0.transports_owed()
    } else {
        &&& p1.trees_owed() == p0.trees_owed()
        &&& p1.collections_owed() == p0.collections_owed().union(collection_keys_of(k.key(), changed@))
        &&& p1.transports_owed() == if exists|i: int| 0 <= i < changed@.len() && moves_transport(#[trigger] changed@[i]) {
            p0.transports_owed().insert(k.key())
        } else {
            p0.transports_owed()
        }
    };
    assert(i1.ids()@[a.instance@] == k.key());
    if changed@.contains(Collection::Receivers) {
        let i = choose|i: int| 0 <= i < changed@.len() && changed@[i] == Collection::Receivers;
        assert(moves_transport(changed@[i]));
    }
    if changed@.contains(Collection::Senders) {
        let i = choose|i: int| 0 <= i < changed@.len() && changed@[i] == Collection::Senders;
        assert(moves_transport(changed@[i]));
    }
    if !changed@.contains(Collection::Receivers) && !changed@.contains(Collection::Senders) {
        assert forall|i: int| 0 <= i < changed@.len() implies !moves_transport(#[trigger] changed@[i]) by {
            assert(changed@.contains(changed@[i]));
        }
    }
}

} // verus!
