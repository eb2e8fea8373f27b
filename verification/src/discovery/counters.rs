//! The per-collection version counters a Node publishes in its advertisement.
//!
//! A Node increments a collection's counter when that collection changes, and
//! a controller re-reads only what moved. Real equipment is uneven about
//! maintaining them, which is why the transport pass has a periodic floor.

use vstd::prelude::*;
use vstd::string::StringSliceAdditionalSpecFns;

use crate::base::decimal::{all_digits, decimal_u64, digits_between, digits_value};
use crate::discovery::txt::TxtRecords;

verus! {

broadcast use vstd::std_specs::vec::group_vec_axioms;

/// One of the six collections a Node API serves.
#[derive(Debug, Clone, Copy, PartialEq, Eq, Structural, PartialOrd, Ord, Hash)]
pub enum Collection {
    /// The Node's own record.
    Node,
    /// The Devices the Node hosts.
    Devices,
    /// The Senders those Devices expose.
    Senders,
    /// The Receivers those Devices expose.
    Receivers,
    /// The Flows the Senders carry.
    Flows,
    /// The Sources those Flows originate from.
    Sources,
}

/// Every collection, in the order a Node's tree is read.
pub open spec fn all_collections() -> Seq<Collection> {
    seq![
        Collection::Node,
        Collection::Devices,
        Collection::Senders,
        Collection::Receivers,
        Collection::Flows,
        Collection::Sources,
    ]
}

impl Collection {
    /// Every collection, in the order a Node's tree is read.
    pub fn all() -> (r: Vec<Collection>)
        ensures
            r@ == all_collections(),
    {
        let r = vec![
            Collection::Node,
            Collection::Devices,
            Collection::Senders,
            Collection::Receivers,
            Collection::Flows,
            Collection::Sources,
        ];
        assert(r@ =~= all_collections());
        r
    }

    /// The TXT record key this collection's counter is published under.
    pub open spec fn spec_counter_key(self) -> Seq<char> {
        match self {
            Collection::Node => "ver_slf"@,
            Collection::Devices => "ver_dvc"@,
            Collection::Senders => "ver_snd"@,
            Collection::Receivers => "ver_rcv"@,
            Collection::Flows => "ver_flw"@,
            Collection::Sources => "ver_src"@,
        }
    }

    /// The TXT record key this collection's counter is published under.
    pub fn counter_key(self) -> (r: &'static str)
        ensures
            r@ == self.spec_counter_key(),
    {
        match self {
            Collection::Node => "ver_slf",
            Collection::Devices => "ver_dvc",
            Collection::Senders => "ver_snd",
            Collection::Receivers => "ver_rcv",
            Collection::Flows => "ver_flw",
            Collection::Sources => "ver_src",
        }
    }

    /// The path segment this collection is read from.
    pub open spec fn spec_path(self) -> Seq<char> {
        match self {
            Collection::Node => "self"@,
            Collection::Devices => "devices"@,
            Collection::Senders => "senders"@,
            Collection::Receivers => "receivers"@,
            Collection::Flows => "flows"@,
            Collection::Sources => "sources"@,
        }
    }

    /// The path segment this collection is read from.
    pub fn path(self) -> (r: &'static str)
        ensures
            r@ == self.spec_path(),
    {
        match self {
            Collection::Node => "self",
            Collection::Devices => "devices",
            Collection::Senders => "senders",
            Collection::Receivers => "receivers",
            Collection::Flows => "flows",
            Collection::Sources => "sources",
        }
    }

    /// The collection as it is written: its path segment.
    pub fn to_string(&self) -> (r: String)
        ensures
            r@ == self.spec_path(),
    {
        self.path().to_owned()
    }
}

/// What reading an unsigned decimal gives, as `u64`'s `from_str` reads it: an
/// optional `+`, then one or more ASCII digits, with a value that fits.
pub open spec fn u64_reading(b: Seq<u8>) -> Option<u64> {
    let start: int = if b.len() > 0 && b[0] == 43 { 1 } else { 0 };
    let digits = b.subrange(start, b.len() as int);
    if digits.len() > 0 && all_digits(digits) && digits_value(digits) <= u64::MAX {
        Some(digits_value(digits) as u64)
    } else {
        None
    }
}

/// Read an unsigned decimal, as `u64`'s `from_str` does.
pub fn parse_u64(text: &str) -> (r: Option<u64>)
    ensures
        r == u64_reading(text.spec_bytes()),
{
    let b = text.as_bytes();
    let n = b.len();
    let start: usize = if n > 0 && b[0] == 43 { 1 } else { 0 };
    if start >= n || !digits_between(b, start, n) {
        return None;
    }
    decimal_u64(b, start, n)
}

/// What a TXT value says of a counter: its value, or nothing when it is
/// absent or unreadable.
pub open spec fn counter_reading(value: Option<Seq<char>>) -> Option<u64> {
    match value {
        Some(t) => u64_reading(vstd::utf8::encode_utf8(t)),
        None => None,
    }
}

/// What a Node's advertisement says about how current each collection is.
#[derive(Debug, Clone, Copy, PartialEq, Eq, Structural)]
pub struct VersionCounters {
    node: Option<u64>,
    devices: Option<u64>,
    senders: Option<u64>,
    receivers: Option<u64>,
    flows: Option<u64>,
    sources: Option<u64>,
}

/// Whether two counters differ.
pub open spec fn moved(a: VersionCounters, b: VersionCounters, c: Collection) -> bool {
    a.spec_get(c) != b.spec_get(c)
}

/// The collections, in order, whose counters differ.
pub open spec fn moved_between(a: VersionCounters, b: VersionCounters) -> Seq<Collection> {
    all_collections().filter(|c: Collection| moved(a, b, c))
}

impl VersionCounters {
    /// The counter for one collection, if the Node published it.
    pub closed spec fn spec_get(self, c: Collection) -> Option<u64> {
        match c {
            Collection::Node => self.node,
            Collection::Devices => self.devices,
            Collection::Senders => self.senders,
            Collection::Receivers => self.receivers,
            Collection::Flows => self.flows,
            Collection::Sources => self.sources,
        }
    }

    /// Whether the Node published no counters at all.
    pub open spec fn spec_is_empty(self) -> bool {
        forall|c: Collection| #[trigger] self.spec_get(c) is None
    }

    /// Read the counters out of a set of TXT records.
    ///
    /// A counter that is absent, or that cannot be read as a number, is
    /// reported as absent — never as zero. Zero is a legitimate value.
    pub fn from_txt(txt: &TxtRecords) -> (r: VersionCounters)
        ensures
            forall|c: Collection| #[trigger] r.spec_get(c) == counter_reading(txt.lookup(c.spec_counter_key())),
    {
        VersionCounters {
            node: Self::read(txt, Collection::Node),
            devices: Self::read(txt, Collection::Devices),
            senders: Self::read(txt, Collection::Senders),
            receivers: Self::read(txt, Collection::Receivers),
            flows: Self::read(txt, Collection::Flows),
            sources: Self::read(txt, Collection::Sources),
        }
    }

    fn read(txt: &TxtRecords, c: Collection) -> (r: Option<u64>)
        ensures
            r == counter_reading(txt.lookup(c.spec_counter_key())),
    {
        match txt.get(c.counter_key()) {
            Some(value) => parse_u64(value),
            None => None,
        }
    }

    /// The counter for one collection, if the Node published it.
    pub fn get(&self, collection: Collection) -> (r: Option<u64>)
        ensures
            r == self.spec_get(collection),
    {
        match collection {
            Collection::Node => self.node,
            Collection::Devices => self.devices,
            Collection::Senders => self.senders,
            Collection::Receivers => self.receivers,
            Collection::Flows => self.flows,
            Collection::Sources => self.sources,
        }
    }

    /// Whether the Node published no counters at all.
    pub fn is_empty(&self) -> (r: bool)
        ensures
            r == self.spec_is_empty(),
    {
        let r = self.node.is_none() && self.devices.is_none() && self.senders.is_none()
            && self.receivers.is_none() && self.flows.is_none() && self.sources.is_none();
        proof {
            if !r {
                if self.node.is_some() {
                    assert(self.spec_get(Collection::Node) is Some);
                } else if self.devices.is_some() {
                    assert(self.spec_get(Collection::Devices) is Some);
                } else if self.senders.is_some() {
                    assert(self.spec_get(Collection::Senders) is Some);
                } else if self.receivers.is_some() {
                    assert(self.spec_get(Collection::Receivers) is Some);
                } else if self.flows.is_some() {
                    assert(self.spec_get(Collection::Flows) is Some);
                } else {
                    assert(self.spec_get(Collection::Sources) is Some);
                }
            }
        }
        r
    }

    /// Which collections have moved since `previous`, in the order the tree is
    /// read.
    ///
    /// A counter that has appeared, or gone away, counts as a change. A Node
    /// that publishes no counters at all is therefore always wholly changed —
    /// except against counters that were empty too, where nothing moved.
    pub fn changed_since(&self, previous: &Self) -> (r: Vec<Collection>)
        ensures
            r@ == moved_between(*self, *previous),
    {
        if self.is_empty() && previous.is_empty() {
            proof {
                lemma_counters_same(*self, *previous);
                law_changes_are_symmetric_and_empty_only_when_equal(*self, *previous);
            }
            return Vec::new();
        }
        let all = Collection::all();
        let mut r: Vec<Collection> = Vec::new();
        let mut i: usize = 0;
        while i < all.len()
            invariant
                all@ == all_collections(),
                i <= all@.len(),
                r@ == all@.take(i as int).filter(|c: Collection| moved(*self, *previous, c)),
            decreases all@.len() - i,
        {
            let c = all[i];
            proof {
                all@.take(i as int).lemma_filter_push(c, |c: Collection| moved(*self, *previous, c));
                assert(all@.take(i + 1) =~= all@.take(i as int).push(c));
            }
            if self.get(c) != previous.get(c) {
                r.push(c);
            }
            i = i + 1;
        }
        assert(all@.take(all@.len() as int) =~= all@);
        r
    }
}

impl Default for VersionCounters {
    /// No counters at all.
    fn default() -> (r: Self)
        ensures
            r.spec_is_empty(),
    {
        VersionCounters {
            node: None,
            devices: None,
            senders: None,
            receivers: None,
            flows: None,
            sources: None,
        }
    }
}

/// Counters have not moved against themselves.
pub proof fn law_nothing_moves_against_itself(a: VersionCounters)
    ensures
        moved_between(a, a).len() == 0,
{
    assert(moved_between(a, a) =~= Seq::<Collection>::empty()) by {
        lemma_filter_none(a);
    }
}

proof fn lemma_filter_none(a: VersionCounters)
    ensures
        all_collections().filter(|c: Collection| moved(a, a, c)) =~= Seq::<Collection>::empty(),
{
    let f = |c: Collection| moved(a, a, c);
    if all_collections().filter(f).len() > 0 {
        all_collections().lemma_filter_pred(f, 0);
    }
}

/// A collection is reported as moved exactly when its counter differs.
pub proof fn law_moved_is_a_difference(a: VersionCounters, b: VersionCounters, c: Collection)
    ensures
        moved_between(a, b).contains(c) <==> a.spec_get(c) != b.spec_get(c),
{
    let f = |x: Collection| moved(a, b, x);
    assert(all_collections().contains(c)) by {
        match c {
            Collection::Node => assert(all_collections()[0] == c),
            Collection::Devices => assert(all_collections()[1] == c),
            Collection::Senders => assert(all_collections()[2] == c),
            Collection::Receivers => assert(all_collections()[3] == c),
            Collection::Flows => assert(all_collections()[4] == c),
            Collection::Sources => assert(all_collections()[5] == c),
        }
    }
    if moved_between(a, b).contains(c) {
        let i = choose|i: int| 0 <= i < moved_between(a, b).len() && moved_between(a, b)[i] == c;
        all_collections().lemma_filter_pred(f, i);
    }
    if a.spec_get(c) != b.spec_get(c) {
        let j = choose|j: int| 0 <= j < all_collections().len() && all_collections()[j] == c;
        all_collections().lemma_filter_contains(f, j);
    }
}

/// Counters are the same exactly when every collection's counter is.
pub proof fn lemma_counters_same(a: VersionCounters, b: VersionCounters)
    ensures
        (a == b) == (forall|c: Collection| #[trigger] a.spec_get(c) == b.spec_get(c)),
{
    if forall|c: Collection| #[trigger] a.spec_get(c) == b.spec_get(c) {
        assert(a.spec_get(Collection::Node) == b.spec_get(Collection::Node));
        assert(a.spec_get(Collection::Devices) == b.spec_get(Collection::Devices));
        assert(a.spec_get(Collection::Senders) == b.spec_get(Collection::Senders));
        assert(a.spec_get(Collection::Receivers) == b.spec_get(Collection::Receivers));
        assert(a.spec_get(Collection::Flows) == b.spec_get(Collection::Flows));
        assert(a.spec_get(Collection::Sources) == b.spec_get(Collection::Sources));
    }
}

/// What changed between two readings does not depend on which came first,
/// and nothing changed exactly when the two readings are the same.
pub proof fn law_changes_are_symmetric_and_empty_only_when_equal(a: VersionCounters, b: VersionCounters)
    ensures
        moved_between(a, b) == moved_between(b, a),
        (moved_between(a, b).len() == 0) == (a == b),
{
    let f = |c: Collection| moved(a, b, c);
    let g = |c: Collection| moved(b, a, c);
    assert(f =~= g);
    lemma_counters_same(a, b);
    if a == b {
        law_nothing_moves_against_itself(a);
    } else {
        let c = choose|c: Collection| #[trigger] a.spec_get(c) != b.spec_get(c);
        law_moved_is_a_difference(a, b, c);
    }
}

/// A counter the TXT records do not publish is read as absent, never as a
/// number.
pub proof fn law_an_unpublished_counter_is_absent(txt: TxtRecords, r: VersionCounters, c: Collection)
    requires
        forall|x: Collection| #[trigger] r.spec_get(x) == counter_reading(txt.lookup(x.spec_counter_key())),
        txt.lookup(c.spec_counter_key()) is None,
    ensures
        r.spec_get(c) is None,
{
}

} // verus!
