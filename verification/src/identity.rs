//! Which Node is which.
//!
//! A Node is identified by the identifier it reports for itself, not by where
//! it answers: ST 2110 equipment is multi-homed by design, and a controller
//! that listed such a box twice would be worse than useless.
//!
//! The identifier only arrives with the Node's own record, so identity is
//! two-stage: the advertisement keys a Node provisionally, and the first
//! successful read settles it.

use vstd::prelude::*;

use crate::base::name::Name;
use crate::base::order::{lemma_lt_common_prefix, lemma_lt_first_differs, lemma_text_key_injective, seq_lt, text_key};
use crate::base::table::{Keyed, Table};
use crate::base::text::{append_str, string_from_chars, text_before, text_eq};
use crate::discovery::advert::Advertisement;
use crate::nmos::resource::ResourceId;

verus! {

broadcast use vstd::std_specs::vec::group_vec_axioms;

/// How a Node is keyed.
#[derive(Debug, Clone, PartialEq, Eq, PartialOrd, Ord, Hash)]
pub enum NodeKey {
    /// Before the Node's own record has been read, its DNS-SD instance name is
    /// the best available key. It is not an identity: two instance names may
    /// turn out to be one Node.
    Provisional(String),
    /// Once the Node has reported its identifier, that is what it is.
    Settled(ResourceId),
}

/// The key of a Node known only by an instance name.
pub open spec fn provisional_key(instance: Seq<char>) -> Seq<int> {
    seq![0int] + text_key(instance)
}

/// The key of a Node that has reported its identifier.
pub open spec fn settled_key(id: Seq<char>) -> Seq<int> {
    seq![1int] + text_key(id)
}

/// How a key is written.
pub open spec fn node_key_text(k: NodeKey) -> Seq<char> {
    match k {
        NodeKey::Provisional(instance) => instance@ + " (not yet identified)"@,
        NodeKey::Settled(id) => id@,
    }
}

impl NodeKey {
    /// Whether this key is the Node's own identifier.
    pub fn is_settled(&self) -> (r: bool)
        ensures
            r == (self is Settled),
    {
        match self {
            NodeKey::Settled(_) => true,
            NodeKey::Provisional(_) => false,
        }
    }

    /// A copy of the key.
    pub fn copy(&self) -> (r: NodeKey)
        ensures
            r.key() == self.key(),
            r is Settled == self is Settled,
    {
        match self {
            NodeKey::Provisional(instance) => NodeKey::Provisional(instance.clone()),
            NodeKey::Settled(id) => NodeKey::Settled(id.copy()),
        }
    }

    /// The key as an operator reads it.
    pub fn to_string(&self) -> (r: String)
        ensures
            r@ == node_key_text(*self),
    {
        match self {
            NodeKey::Provisional(instance) => {
                let mut v: Vec<char> = Vec::new();
                append_str(&mut v, instance.as_str());
                append_str(&mut v, " (not yet identified)");
                string_from_chars(&v)
            },
            NodeKey::Settled(id) => id.as_str().to_owned(),
        }
    }

    /// Keys are the same exactly when they are of one kind and say the same.
    pub proof fn lemma_key(a: NodeKey, b: NodeKey)
        ensures
            (a.key() == b.key()) <==> match (a, b) {
                (NodeKey::Provisional(x), NodeKey::Provisional(y)) => x@ == y@,
                (NodeKey::Settled(x), NodeKey::Settled(y)) => x@ == y@,
                _ => false,
            },
    {
        let (ta, tb) = match (a, b) {
            (NodeKey::Provisional(x), NodeKey::Provisional(y)) => (x@, y@),
            (NodeKey::Settled(x), NodeKey::Settled(y)) => (x@, y@),
            (NodeKey::Provisional(x), NodeKey::Settled(y)) => (x@, y@),
            (NodeKey::Settled(x), NodeKey::Provisional(y)) => (x@, y@),
        };
        lemma_text_key_injective(ta, tb);
        if a.key() == b.key() {
            assert(a.key()[0] == b.key()[0]);
            assert(a.key().drop_first() =~= text_key(ta));
            assert(b.key().drop_first() =~= text_key(tb));
        }
    }
}

impl Keyed for NodeKey {
    open spec fn key(&self) -> Seq<int> {
        match self {
            NodeKey::Provisional(instance) => provisional_key(instance@),
            NodeKey::Settled(id) => settled_key(id@),
        }
    }

    fn same_key(&self, other: &Self) -> (r: bool) {
        proof {
            NodeKey::lemma_key(*self, *other);
        }
        match (self, other) {
            (NodeKey::Provisional(x), NodeKey::Provisional(y)) => text_eq(x.as_str(), y.as_str()),
            (NodeKey::Settled(x), NodeKey::Settled(y)) => x.same(y),
            _ => false,
        }
    }

    fn key_before(&self, other: &Self) -> (r: bool) {
        match (self, other) {
            (NodeKey::Provisional(x), NodeKey::Provisional(y)) => {
                proof {
                    lemma_lt_common_prefix(seq![0int], text_key(x@), text_key(y@));
                }
                text_before(x.as_str(), y.as_str())
            },
            (NodeKey::Settled(x), NodeKey::Settled(y)) => {
                proof {
                    lemma_lt_common_prefix(seq![1int], text_key(x@), text_key(y@));
                }
                text_before(x.as_str(), y.as_str())
            },
            (NodeKey::Provisional(_), NodeKey::Settled(_)) => {
                proof {
                    lemma_lt_first_differs(self.key(), other.key());
                }
                true
            },
            (NodeKey::Settled(_), NodeKey::Provisional(_)) => {
                proof {
                    lemma_lt_first_differs(self.key(), other.key());
                }
                false
            },
        }
    }
}

/// Maps advertisements to the Node they belong to.
///
/// Every advertisement starts provisional. When one is identified it is
/// re-keyed, and any other advertisement already known to carry that
/// identifier collapses into the same Node.
#[derive(Debug)]
pub struct Identities {
    by_instance: Table<Name, NodeKey>,
}

/// What happened when an advertisement was identified.
#[derive(Debug, Clone, PartialEq, Eq)]
pub enum Identified {
    /// The advertisement was keyed provisionally and now has its identifier.
    Settled {
        /// The key it had before.
        was: NodeKey,
        /// The key it has now.
        now: NodeKey,
    },
    /// The advertisement turned out to belong to a Node already known under a
    /// different instance name.
    Merged {
        /// The key it had before.
        was: NodeKey,
        /// The Node it joins.
        now: NodeKey,
    },
    /// Nothing changed: this advertisement was already settled under that
    /// identifier.
    Unchanged(NodeKey),
}

impl Identities {
    /// Instance name to the key it resolves to.
    pub closed spec fn view(&self) -> Map<Seq<char>, Seq<int>> {
        Map::new(
            |i: Seq<char>| self.by_instance@.contains_key(text_key(i)),
            |i: Seq<char>| self.by_instance@[text_key(i)].key(),
        )
    }

    /// The keys the instances resolve to.
    pub open spec fn nodes(&self) -> Set<Seq<int>> {
        self@.values()
    }

    proof fn lemma_view_insert(old_t: Table<Name, NodeKey>, new_t: Table<Name, NodeKey>, inst: Seq<char>, k: NodeKey)
        requires
            new_t@ == old_t@.insert(text_key(inst), k),
        ensures
            (Identities { by_instance: new_t })@ == (Identities { by_instance: old_t })@.insert(inst, k.key()),
    {
        assert forall|i: Seq<char>| i != inst implies #[trigger] text_key(i) != text_key(inst) by {
            lemma_text_key_injective(i, inst);
        }
        assert((Identities { by_instance: new_t })@ =~= (Identities { by_instance: old_t })@.insert(inst, k.key()));
    }

    /// Nothing known.
    pub fn new() -> (r: Identities)
        ensures
            r@ == Map::<Seq<char>, Seq<int>>::empty(),
    {
        let r = Identities { by_instance: Table::new() };
        assert(r@ =~= Map::<Seq<char>, Seq<int>>::empty());
        r
    }

    /// Record an advertisement, keying it provisionally if it is new, and
    /// return the key its instance resolves to.
    pub fn observe(&mut self, advertisement: &Advertisement) -> (r: NodeKey)
        ensures
            instance_observed(*old(self), advertisement.instance@, *final(self), r.key()),
            !old(self)@.contains_key(advertisement.instance@) ==> r is Provisional,
    {
        let name = Name::of(advertisement.instance.as_str());
        match self.by_instance.get(&name) {
            Some(key) => key.copy(),
            None => {
                let key = NodeKey::Provisional(advertisement.instance.clone());
                let held = key.copy();
                let ghost old_t = self.by_instance;
                let mut t = Table::new();
                std::mem::swap(&mut t, &mut self.by_instance);
                t.insert(name, held);
                proof {
                    Identities::lemma_view_insert(old_t, t, advertisement.instance@, held);
                }
                self.by_instance = t;
                key
            },
        }
    }

    /// Whether some instance other than `instance` resolves to the key.
    fn held_elsewhere(&self, instance: &str, key: &NodeKey) -> (r: bool)
        ensures
            r == exists|i: Seq<char>| i != instance@ && #[trigger] self@.contains_key(i) && self@[i] == key.key(),
    {
        let mut i: usize = 0;
        while i < self.by_instance.len()
            invariant
                i <= self.by_instance.entries().len(),
                forall|j: int|
                    0 <= j < i ==> !(#[trigger] self.by_instance.entries()[j].0@ != instance@
                        && self.by_instance.entries()[j].1.key() == key.key()),
            decreases self.by_instance.entries().len() - i,
        {
            let e = self.by_instance.entry(i);
            if !text_eq(e.0.0.as_str(), instance) && e.1.same_key(key) {
                proof {
                    use_type_invariant(&self.by_instance);
                    self.by_instance.lemma_entry(i as int);
                    let w = e.0@;
                    assert(self@.contains_key(w));
                }
                return true;
            }
            i = i + 1;
        }
        proof {
            use_type_invariant(&self.by_instance);
            assert forall|w: Seq<char>| w != instance@ && #[trigger] self@.contains_key(w) implies self@[w] != key.key() by {
                self.by_instance.lemma_key_held(text_key(w));
                let j = crate::base::table::seq_pos(self.by_instance.entries(), text_key(w));
                lemma_text_key_injective(self.by_instance.entries()[j].0@, w);
            }
        }
        false
    }

    /// Record that an instance reported an identifier.
    ///
    /// Unchanged when the instance already resolves to that identifier; a
    /// merge when another instance already does, and otherwise the key
    /// settles. Either way the instance resolves to the identifier afterwards.
    pub fn identify(&mut self, instance: &str, id: &ResourceId) -> (r: Identified)
        ensures
            identified(*old(self), instance@, id@, *final(self), r),
    {
        let settled = NodeKey::Settled(id.copy());
        let name = Name::of(instance);
        let was = match self.by_instance.get(&name) {
            Some(key) => key.copy(),
            None => NodeKey::Provisional(instance.to_owned()),
        };
        if was.same_key(&settled) {
            return Identified::Unchanged(settled);
        }
        let already_known = self.held_elsewhere(instance, &settled);
        let held = settled.copy();
        let ghost old_t = self.by_instance;
        let mut t = Table::new();
        std::mem::swap(&mut t, &mut self.by_instance);
        t.insert(name, held);
        proof {
            Identities::lemma_view_insert(old_t, t, instance@, held);
        }
        self.by_instance = t;
        if already_known {
            Identified::Merged { was, now: settled }
        } else {
            Identified::Settled { was, now: settled }
        }
    }

    /// Forget an instance, returning the key it held.
    ///
    /// A Node reachable under another instance name keeps its key: losing one
    /// route to a box is not losing the box.
    pub fn forget(&mut self, instance: &str) -> (r: Option<NodeKey>)
        ensures
            final(self)@ == old(self)@.remove(instance@),
            r is Some <==> old(self)@.contains_key(instance@),
            r matches Some(k) ==> k.key() == old(self)@[instance@],
    {
        let ghost before = self@;
        let mut t = Table::new();
        std::mem::swap(&mut t, &mut self.by_instance);
        let gone = t.remove(&Name::of(instance));
        self.by_instance = t;
        proof {
            assert forall|i: Seq<char>| i != instance@ implies #[trigger] text_key(i) != text_key(instance@) by {
                lemma_text_key_injective(i, instance@);
            }
            assert(self@ =~= before.remove(instance@));
        }
        gone
    }

    /// The key an instance currently resolves to.
    pub fn key_for(&self, instance: &str) -> (r: Option<&NodeKey>)
        ensures
            r is Some <==> self@.contains_key(instance@),
            r matches Some(k) ==> k.key() == self@[instance@],
    {
        self.by_instance.get(&Name::of(instance))
    }

    /// Every instance name that resolves to a key, in order of name.
    pub fn instances_for(&self, key: &NodeKey) -> (r: Vec<&str>)
        ensures
            forall|i: Seq<char>|
                #[trigger] str_texts(r@).contains(i) <==> (self@.contains_key(i)
                    && self@[i] == key.key()),
            str_texts(r@).no_duplicates(),
    {
        proof {
            use_type_invariant(&self.by_instance);
        }
        let ghost entries = self.by_instance.entries();
        let mut r: Vec<&str> = Vec::new();
        let mut i: usize = 0;
        while i < self.by_instance.len()
            invariant
                entries == self.by_instance.entries(),
                self.by_instance.wf(),
                i <= entries.len(),
                forall|w: Seq<char>|
                    #[trigger] str_texts(r@).contains(w) <==> exists|j: int|
                        0 <= j < i && #[trigger] entries[j].0@ == w && entries[j].1.key() == key.key(),
                str_texts(r@).no_duplicates(),
                forall|w: Seq<char>|
                    #[trigger] str_texts(r@).contains(w) ==> forall|j: int|
                        i <= j < entries.len() ==> #[trigger] entries[j].0@ != w,
            decreases entries.len() - i,
        {
            let e = self.by_instance.entry(i);
            let ghost before = str_texts(r@);
            assert(entries[i as int] == *e);
            let matched = e.1.same_key(key);
            if matched {
                r.push(e.0.0.as_str());
                proof {
                    assert(str_texts(r@) =~= before.push(e.0@));
                    assert(!before.contains(e.0@));
                    assert forall|w: Seq<char>|
                        #[trigger] str_texts(r@).contains(w) <==> exists|j: int|
                            0 <= j < i + 1 && #[trigger] entries[j].0@ == w && entries[j].1.key() == key.key() by {
                        let now = str_texts(r@);
                        if w == e.0@ {
                            assert(entries[i as int].0@ == w);
                            assert(now[now.len() - 1] == w);
                        }
                        if now.contains(w) && w != e.0@ {
                            let k = choose|k: int| 0 <= k < now.len() && now[k] == w;
                            assert(before[k] == w);
                        }
                        if before.contains(w) {
                            let k = choose|k: int| 0 <= k < before.len() && before[k] == w;
                            assert(now[k] == w);
                        }
                        if exists|j: int| 0 <= j < i + 1 && #[trigger] entries[j].0@ == w && entries[j].1.key() == key.key() {
                            let j = choose|j: int| 0 <= j < i + 1 && #[trigger] entries[j].0@ == w && entries[j].1.key() == key.key();
                            if j < i {
                                assert(before.contains(w));
                            } else {
                                assert(now[now.len() - 1] == w);
                            }
                        }
                    }
                    assert forall|a: int, b: int| 0 <= a < i && a < b < entries.len() implies #[trigger] entries[a].0@ != #[trigger] entries[b].0@ by {
                        assert(seq_lt(entries[a].0.key(), entries[b].0.key()));
                        crate::base::order::lemma_lt_irreflexive(entries[a].0.key());
                    }
                }
            }
            proof {
                assert forall|j: int, k: int| i < j < entries.len() && 0 <= k <= i implies #[trigger] entries[j].0@ != #[trigger] entries[k].0@ by {
                    assert(seq_lt(entries[k].0.key(), entries[j].0.key()));
                    crate::base::order::lemma_lt_irreflexive(entries[k].0.key());
                }
                if !matched {
                    assert forall|w: Seq<char>|
                        #[trigger] str_texts(r@).contains(w) <==> exists|j: int|
                            0 <= j < i + 1 && #[trigger] entries[j].0@ == w && entries[j].1.key() == key.key() by {
                        if exists|j: int| 0 <= j < i + 1 && #[trigger] entries[j].0@ == w && entries[j].1.key() == key.key() {
                            let j = choose|j: int| 0 <= j < i + 1 && #[trigger] entries[j].0@ == w && entries[j].1.key() == key.key();
                            assert(j != i);
                        }
                    }
                }
                assert forall|w: Seq<char>|
                    #[trigger] str_texts(r@).contains(w) implies forall|j: int|
                        i + 1 <= j < entries.len() ==> #[trigger] entries[j].0@ != w by {
                    if w == entries[i as int].0@ {
                        assert forall|j: int| i + 1 <= j < entries.len() implies #[trigger] entries[j].0@ != w by {
                            assert(entries[j].0@ != entries[i as int].0@);
                        }
                    }
                }
            }
            i = i + 1;
        }
        proof {
            assert forall|w: Seq<char>|
                #[trigger] str_texts(r@).contains(w) <==> (self@.contains_key(w) && self@[w] == key.key()) by {
                if self@.contains_key(w) {
                    self.by_instance.lemma_key_held(text_key(w));
                    let j = crate::base::table::seq_pos(entries, text_key(w));
                    lemma_text_key_injective(entries[j].0@, w);
                }
                if exists|j: int| 0 <= j < entries.len() && #[trigger] entries[j].0@ == w && entries[j].1.key() == key.key() {
                    let j = choose|j: int| 0 <= j < entries.len() && #[trigger] entries[j].0@ == w && entries[j].1.key() == key.key();
                    self.by_instance.lemma_entry(j);
                }
            }
        }
        r
    }

    /// How many distinct Nodes are known.
    pub fn len(&self) -> (r: usize)
        ensures
            r == self.nodes().len(),
            self.nodes().finite(),
    {
        let mut distinct: Table<NodeKey, ()> = Table::new();
        let ghost entries = self.by_instance.entries();
        let mut i: usize = 0;
        while i < self.by_instance.len()
            invariant
                entries == self.by_instance.entries(),
                i <= entries.len(),
                forall|k: Seq<int>|
                    distinct@.contains_key(k) <==> exists|j: int| 0 <= j < i && #[trigger] entries[j].1.key() == k,
            decreases entries.len() - i,
        {
            let e = self.by_instance.entry(i);
            distinct.insert(e.1.copy(), ());
            i = i + 1;
        }
        proof {
            use_type_invariant(&self.by_instance);
            use_type_invariant(&distinct);
            distinct.lemma_len();
            assert forall|k: Seq<int>| distinct@.dom().contains(k) <==> self.nodes().contains(k) by {
                if distinct@.dom().contains(k) {
                    let j = choose|j: int| 0 <= j < entries.len() && #[trigger] entries[j].1.key() == k;
                    self.by_instance.lemma_entry(j);
                    assert(self@.contains_key(entries[j].0@));
                    assert(self@[entries[j].0@] == k);
                }
                if self.nodes().contains(k) {
                    let w = choose|w: Seq<char>| self@.contains_key(w) && self@[w] == k;
                    self.by_instance.lemma_key_held(text_key(w));
                }
            }
            assert(distinct@.dom() =~= self.nodes());
        }
        distinct.len()
    }

    /// Whether nothing is known.
    pub fn is_empty(&self) -> (r: bool)
        ensures
            r == (self@ == Map::<Seq<char>, Seq<int>>::empty()),
    {
        proof {
            use_type_invariant(&self.by_instance);
            lemma_view_empty(self);
        }
        self.by_instance.len() == 0
    }
}

proof fn lemma_view_empty(ids: &Identities)
    requires
        ids.by_instance.wf(),
    ensures
        (ids@ == Map::<Seq<char>, Seq<int>>::empty()) == (ids.by_instance.entries().len() == 0),
{
    if ids.by_instance.entries().len() == 0 {
        assert forall|w: Seq<char>| !ids@.dom().contains(w) by {
            assert(!ids.by_instance@.dom().contains(text_key(w)));
        }
        assert(ids@ =~= Map::<Seq<char>, Seq<int>>::empty());
    } else {
        let e = ids.by_instance.entries()[0];
        ids.by_instance.lemma_entry(0);
        assert(ids@.dom().contains(e.0@));
    }
}

/// The texts of some string slices.
pub open spec fn str_texts(v: Seq<&str>) -> Seq<Seq<char>> {
    v.map_values(|s: &str| s@)
}

/// What identifying an instance does.
pub open spec fn identified(
    before: Identities,
    instance: Seq<char>,
    id: Seq<char>,
    after: Identities,
    r: Identified,
) -> bool {
    let was = if before@.contains_key(instance) {
        before@[instance]
    } else {
        provisional_key(instance)
    };
    let now = settled_key(id);
    if was == now {
        &&& after@ == before@
        &&& r matches Identified::Unchanged(k) && k.key() == now
    } else {
        &&& after@ == before@.insert(instance, now)
        &&& if exists|i: Seq<char>| i != instance && #[trigger] before@.contains_key(i) && before@[i] == now {
            r matches Identified::Merged { was: w, now: n } && w.key() == was && n.key() == now
        } else {
            r matches Identified::Settled { was: w, now: n } && w.key() == was && n.key() == now
        }
    }
}

/// What recording an advertisement does: an instance not seen before is
/// keyed provisionally by its name; a known one keeps the key it has.
pub open spec fn instance_observed(before: Identities, instance: Seq<char>, after: Identities, key: Seq<int>) -> bool {
    if before@.contains_key(instance) {
        after@ == before@ && key == before@[instance]
    } else {
        after@ == before@.insert(instance, provisional_key(instance)) && key == provisional_key(instance)
    }
}

/// Observing an advertisement again changes nothing: the instance keeps the
/// key it was given, and no Node appears twice.
pub proof fn law_observing_again_changes_nothing(
    i0: Identities,
    instance: Seq<char>,
    i1: Identities,
    k1: Seq<int>,
    i2: Identities,
    k2: Seq<int>,
)
    requires
        instance_observed(i0, instance, i1, k1),
        instance_observed(i1, instance, i2, k2),
    ensures
        i2@ == i1@,
        k2 == k1,
        i2.nodes() == i1.nodes(),
{
}

/// Identifying an instance with the identifier it already resolves to
/// changes nothing.
pub proof fn law_identifying_again_changes_nothing(
    i0: Identities,
    instance: Seq<char>,
    id: Seq<char>,
    i1: Identities,
    r1: Identified,
    i2: Identities,
    r2: Identified,
)
    requires
        identified(i0, instance, id, i1, r1),
        identified(i1, instance, id, i2, r2),
    ensures
        i2@ == i1@,
        r2 is Unchanged,
{
}

/// Two routes identified as one Node are one Node: the second
/// identification is a merge, and both instances resolve to the same key.
pub proof fn law_two_routes_are_one_node(
    i0: Identities,
    a: Seq<char>,
    b: Seq<char>,
    id: Seq<char>,
    i1: Identities,
    r1: Identified,
    i2: Identities,
    r2: Identified,
)
    requires
        a != b,
        i0@.contains_key(b),
        i0@[b] != settled_key(id),
        identified(i0, a, id, i1, r1),
        identified(i1, b, id, i2, r2),
    ensures
        r2 is Merged,
        i2@[a] == i2@[b],
{
    assert(provisional_key(a)[0] != settled_key(id)[0]);
    assert(i1@[a] == settled_key(id));
    assert(i1@.contains_key(b));
}

/// Identifying an instance settles that instance, and only it: afterwards it
/// resolves to the identifier, whether or not it was observed before, and
/// every other instance resolves as it did.
pub proof fn law_identifying_settles_only_that_instance(
    before: Identities,
    instance: Seq<char>,
    id: Seq<char>,
    after: Identities,
    r: Identified,
)
    requires
        identified(before, instance, id, after, r),
    ensures
        after@.contains_key(instance),
        after@[instance] == settled_key(id),
        forall|other: Seq<char>|
            other != instance ==> (#[trigger] after@.contains_key(other) == before@.contains_key(other)
                && (before@.contains_key(other) ==> after@[other] == before@[other])),
{
    if !before@.contains_key(instance) {
        assert(provisional_key(instance)[0] != settled_key(id)[0]);
    }
}

} // verus!
