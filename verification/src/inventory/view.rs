//! What the inventory holds about one Node, in the shape an interface reads.
//!
//! References are resolved here rather than by the reader, because resolving
//! them is what tells two rows apart: a converter may present three Senders
//! all labelled alike, distinguishable only by the media type of the Flow
//! each carries.

use vstd::prelude::*;

use crate::base::name::Name;
use crate::base::order::{
    lemma_lt_closed_concat, lemma_lt_irreflexive, lemma_lt_total, lemma_text_key_injective,
    lemma_text_key_nonnegative, seq_lt, text_key,
};
use crate::base::table::{sorted, Keyed, Table};
use crate::base::text::{append_str, string_from_chars, text_before, text_eq};
use crate::discovery::advert::{opt_text, preferred_among, preferred_endpoint_of};
use crate::base::text::chars_of;
use crate::discovery::endpoint::{endpoint_text, Endpoint};
use crate::discovery::txt::{trim, trimmed};
use crate::identity::{node_key_text, NodeKey};
use crate::nmos::connection::{Reception, Transmission};
use crate::nmos::connection_api::StreamAddress;
use crate::nmos::device::Device;
use crate::nmos::media::{Format, MediaType};
use crate::nmos::node::Node;
use crate::nmos::receiver::Receiver;
use crate::nmos::resource::ResourceId;
use crate::nmos::sender::Sender;

verus! {

broadcast use vstd::std_specs::vec::group_vec_axioms;

/// What is known about one Node.
#[derive(Debug)]
pub struct KnownNode {
    /// How this Node is keyed.
    pub key: NodeKey,
    /// The DNS-SD instance names that reach it. More than one means the box is
    /// multi-homed, not that there are two boxes.
    pub instances: Table<Name, ()>,
    /// Every address its API answers on.
    pub endpoints: Table<Endpoint, ()>,
    /// The hostname it resolved to, used as a label when it reports none.
    pub hostname: Option<String>,
    /// Whether it requires authorization, and so cannot be read.
    pub requires_authorization: bool,
    /// What has been read from it.
    pub state: NodeState,
}

/// A text without the dots that close it.
pub open spec fn without_trailing_dots(s: Seq<char>) -> Seq<char>
    decreases s.len(),
{
    if s.len() > 0 && s.last() == '.' {
        without_trailing_dots(s.drop_last())
    } else {
        s
    }
}

/// What a Node is called on screen: its own label, failing that its
/// hostname (without the closing dot), failing that its first address, and
/// failing even that its key — never a blank row.
pub open spec fn display_text(n: KnownNode) -> Seq<char> {
    let label = match n.state {
        NodeState::Ready(c) => trimmed(c.node.core.label@),
        _ => Seq::empty(),
    };
    if label.len() > 0 {
        label
    } else if n.hostname is Some && without_trailing_dots(trimmed(n.hostname->0@)).len() > 0 {
        without_trailing_dots(trimmed(n.hostname->0@))
    } else if n.endpoints.entries().len() > 0 {
        endpoint_text(n.endpoints.entries()[0].0)
    } else {
        node_key_text(n.key)
    }
}

/// No row is blank: whatever a Node reports, it is called something, as long
/// as its key has text (an identifier that was read is never empty).
pub proof fn law_display_name_is_never_blank(n: KnownNode)
    requires
        n.key matches NodeKey::Settled(id) ==> id@.len() > 0,
    ensures
        display_text(n).len() > 0,
{
    reveal_strlit("://");
    reveal_strlit(" (not yet identified)");
    if n.endpoints.entries().len() > 0 {
        let e = n.endpoints.entries()[0].0;
        assert(endpoint_text(e).len() >= "://"@.len());
    }
}

fn strip_trailing_dots(s: Vec<char>) -> (r: Vec<char>)
    ensures
        r@ == without_trailing_dots(s@),
{
    let ghost start = s@;
    let mut s = s;
    while s.len() > 0 && s[s.len() - 1] == '.'
        invariant
            without_trailing_dots(s@) == without_trailing_dots(start),
        decreases s@.len(),
    {
        let ghost before = s@;
        s.pop();
        assert(s@ =~= before.drop_last());
    }
    s
}

/// A copy of a table of names, each name copied.
fn copy_names(t: &Table<Name, ()>) -> (r: Table<Name, ()>)
    ensures
        r.keys() == t.keys(),
{
    proof {
        use_type_invariant(t);
    }
    let mut entries: Vec<(Name, ())> = Vec::new();
    let mut i: usize = 0;
    while i < t.len()
        invariant
            sorted(t.entries()),
            i <= t.entries().len(),
            entries@.len() == i,
            forall|j: int| 0 <= j < i ==> (#[trigger] entries@[j]).0.key() == t.entries()[j].0.key(),
        decreases t.entries().len() - i,
    {
        let e = t.entry(i);
        entries.push((e.0.copy(), ()));
        i = i + 1;
    }
    proof {
        assert forall|a: int, b: int| 0 <= a < b < entries@.len() implies seq_lt(
            #[trigger] entries@[a].0.key(),
            #[trigger] entries@[b].0.key(),
        ) by {
            assert(seq_lt(t.entries()[a].0.key(), t.entries()[b].0.key()));
        }
    }
    let r = Table::from_sorted(entries);
    assert(r.keys() =~= t.keys());
    r
}

impl KnownNode {
    /// A copy of what is known of this Node: the same key, instance names,
    /// endpoints, hostname and authorization, and a clone of its state.
    pub fn duplicate(&self) -> (r: KnownNode)
        ensures
            r.key.key() == self.key.key(),
            r.instances.keys() == self.instances.keys(),
            r.endpoints.entries() == self.endpoints.entries(),
            opt_text(r.hostname) == opt_text(self.hostname),
            r.requires_authorization == self.requires_authorization,
    {
        let hostname = match &self.hostname {
            Some(h) => Some(h.clone()),
            None => None,
        };
        KnownNode {
            key: self.key.copy(),
            instances: copy_names(&self.instances),
            endpoints: self.endpoints.copy(),
            hostname,
            requires_authorization: self.requires_authorization,
            state: self.state.clone(),
        }
    }
}

impl KnownNode {
    /// What to call this Node on screen.
    ///
    /// Its own label, failing that its hostname, failing that its address —
    /// never a blank row, because a blank row cannot be pointed at or
    /// reported.
    pub fn display_name(&self) -> (r: String)
        ensures
            r@ == display_text(*self),
    {
        match &self.state {
            NodeState::Ready(contents) => {
                let label = trim(&chars_of(contents.node.core.label.as_str()));
                if label.len() > 0 {
                    return string_from_chars(&label);
                }
            },
            _ => {},
        }
        match &self.hostname {
            Some(h) => {
                let t = strip_trailing_dots(trim(&chars_of(h.as_str())));
                if t.len() > 0 {
                    return string_from_chars(&t);
                }
            },
            None => {},
        }
        if self.endpoints.len() > 0 {
            self.endpoints.entry(0).0.to_string()
        } else {
            self.key.to_string()
        }
    }

    /// The address to make requests to: the first IPv4 endpoint, or failing
    /// that the first of all.
    pub fn preferred_endpoint(&self) -> (r: Option<&Endpoint>)
        ensures
            preferred_among(self.endpoints.entries(), r),
    {
        preferred_endpoint_of(&self.endpoints)
    }

    /// The Devices this Node hosts, empty until its tree has been read.
    pub fn devices(&self) -> (r: &[DeviceView])
        ensures
            r@ == match self.state {
                NodeState::Ready(c) => c.devices@,
                _ => Seq::<DeviceView>::empty(),
            },
    {
        match &self.state {
            NodeState::Ready(contents) => contents.devices.as_slice(),
            _ => {
                let none: &[DeviceView] = &[];
                none
            },
        }
    }
}

/// How far reading a Node has got.
#[derive(Debug, Clone)]
pub enum NodeState {
    /// Discovered, but nothing read yet. Listed rather than hidden.
    Loading,
    /// Read, and browsable.
    Ready(Box<NodeContents>),
    /// Could not be read, and why, in terms that point at what to fix.
    Failed {
        /// What went wrong.
        reason: String,
    },
}

impl NodeState {
    /// Whether this Node can be browsed.
    pub fn is_ready(&self) -> (r: bool)
        ensures
            r == (self is Ready),
    {
        match self {
            NodeState::Ready(_) => true,
            _ => false,
        }
    }

    /// Why this Node cannot be read, if it cannot.
    pub fn failure(&self) -> (r: Option<&str>)
        ensures
            match self {
                NodeState::Failed { reason } => r matches Some(x) && x@ == reason@,
                _ => r is None,
            },
    {
        match self {
            NodeState::Failed { reason } => Some(reason.as_str()),
            _ => None,
        }
    }
}

/// A Node's resources, with their references resolved.
#[derive(Debug, Clone)]
pub struct NodeContents {
    /// The Node's own record.
    pub node: Node,
    /// The Devices it hosts, each with the Senders and Receivers it owns.
    pub devices: Vec<DeviceView>,
    /// Resources whose Device could not be found. Reported rather than dropped.
    pub orphans: Vec<Orphan>,
}

/// A Device, with what it owns.
#[derive(Debug, Clone)]
pub struct DeviceView {
    /// The Device itself.
    pub device: Device,
    /// Its Senders.
    pub senders: Vec<SenderView>,
    /// Its Receivers.
    pub receivers: Vec<ReceiverView>,
}

impl DeviceView {
    /// Whether this Device exposes nothing. Such a Device is still shown.
    pub fn is_empty(&self) -> (r: bool)
        ensures
            r == (self.senders@.len() == 0 && self.receivers@.len() == 0),
    {
        self.senders.len() == 0 && self.receivers.len() == 0
    }
}

/// A resource whose owning Device the Node did not return.
#[derive(Debug, Clone)]
pub struct Orphan {
    /// The resource's identifier.
    pub id: ResourceId,
    /// Its label.
    pub label: String,
    /// The Device it claims to belong to.
    pub device_id: ResourceId,
    /// Whether it is a Sender or a Receiver.
    pub kind: OrphanKind,
}

/// What sort of resource was orphaned.
#[derive(Debug, Clone, Copy, PartialEq, Eq, Structural)]
pub enum OrphanKind {
    /// A Sender.
    Sender,
    /// A Receiver.
    Receiver,
}

/// What a Sender carries, once its Flow reference has been followed.
#[derive(Debug, Clone)]
pub enum Media {
    /// The Flow was found.
    Known {
        /// What it carries.
        media_type: MediaType,
        /// Its high-level format.
        format: Format,
    },
    /// The Sender names a Flow the Node did not return.
    Unresolved {
        /// The Flow identifier the Sender reported.
        flow_id: ResourceId,
    },
    /// The Sender has no Flow routed to it at all.
    NoFlow,
}

/// How a Sender's media reads.
pub open spec fn media_text(m: Media) -> Seq<char> {
    match m {
        Media::Known { media_type, .. } => media_type@,
        Media::Unresolved { .. } => "unknown media"@,
        Media::NoFlow => "no flow"@,
    }
}

impl Media {
    /// The media as an operator reads it: the media type, or what is missing.
    pub fn to_string(&self) -> (r: String)
        ensures
            r@ == media_text(*self),
    {
        match self {
            Media::Known { media_type, .. } => media_type.as_str().to_owned(),
            Media::Unresolved { .. } => "unknown media".to_owned(),
            Media::NoFlow => "no flow".to_owned(),
        }
    }
}

/// How far reading a resource's transport parameters has got.
///
/// The three states are distinct on purpose: a Transmitting Sender whose
/// destination is merely unread must not look like one going nowhere.
#[derive(Debug, Clone)]
pub enum Transport {
    /// The transport pass has not run for this resource yet.
    Pending,
    /// The transport pass ran and the Connection API could not be read.
    Unavailable {
        /// Why.
        reason: String,
    },
    /// The stream addresses, as the device reports them. Empty where the
    /// device says `auto`, or says nothing usable.
    Known {
        /// One address per leg. More than one means ST 2022-7.
        streams: Vec<StreamAddress>,
    },
}

/// A stream address as plain values.
pub open spec fn address_view(s: StreamAddress) -> (Seq<char>, u16) {
    (s.address@, s.port)
}

/// Stream addresses as plain values.
pub open spec fn addresses_view(s: Seq<StreamAddress>) -> Seq<(Seq<char>, u16)> {
    s.map_values(|a: StreamAddress| address_view(a))
}

/// The streams a transport holds: those read, or none.
pub open spec fn transport_streams(t: Transport) -> Seq<StreamAddress> {
    match t {
        Transport::Known { streams } => streams@,
        _ => Seq::empty(),
    }
}

impl Transport {
    /// The stream addresses, if they have been read.
    pub fn streams(&self) -> (r: &[StreamAddress])
        ensures
            r@ == transport_streams(*self),
    {
        match self {
            Transport::Known { streams } => streams.as_slice(),
            _ => {
                let none: &[StreamAddress] = &[];
                none
            },
        }
    }

    /// Whether the transport pass has yet to run for this resource.
    pub fn is_pending(&self) -> (r: bool)
        ensures
            r == (self is Pending),
    {
        match self {
            Transport::Pending => true,
            _ => false,
        }
    }
}

/// Where a resource lives, for naming the other end of a pairing.
#[derive(Debug, Clone, PartialEq, Eq, PartialOrd, Ord)]
pub struct ResourceRef {
    /// The Node hosting it.
    pub node: NodeKey,
    /// What that Node is called on screen.
    pub node_label: String,
    /// The Device owning it.
    pub device_label: String,
    /// The resource's own identifier.
    pub id: ResourceId,
    /// The resource's label.
    pub label: String,
}

/// How a reference reads: `node / device / resource`.
pub open spec fn ref_text(r: ResourceRef) -> Seq<char> {
    r.node_label@ + " / "@ + r.device_label@ + " / "@ + r.label@
}

/// A reference's fields after the Node, as a key.
pub open spec fn ref_tail(r: ResourceRef) -> Seq<int> {
    text_key(r.node_label@).push(-1) + (text_key(r.device_label@).push(-1) + (text_key(
        r.id@,
    ).push(-1) + text_key(r.label@)))
}

/// Whether two references are the same in every field.
pub open spec fn same_ref(a: ResourceRef, b: ResourceRef) -> bool {
    a.node.key() == b.node.key() && a.node_label@ == b.node_label@ && a.device_label@
        == b.device_label@ && a.id@ == b.id@ && a.label@ == b.label@
}

pub proof fn lemma_node_key_nonnegative(k: NodeKey)
    ensures
        forall|i: int| 0 <= i < k.key().len() ==> k.key()[i] >= 0,
{
    match k {
        NodeKey::Provisional(x) => lemma_text_key_nonnegative(x@),
        NodeKey::Settled(x) => lemma_text_key_nonnegative(x@),
    }
}

/// Texts compared as keys: before, after, or the same.
fn compare_text(a: &str, b: &str) -> (r: i8)
    ensures
        r < 0 <==> seq_lt(text_key(a@), text_key(b@)),
        r > 0 <==> seq_lt(text_key(b@), text_key(a@)),
        r == 0 <==> a@ == b@,
{
    proof {
        lemma_text_key_injective(a@, b@);
        if text_key(a@) != text_key(b@) {
            lemma_lt_total(text_key(a@), text_key(b@));
        } else {
            lemma_lt_irreflexive(text_key(a@));
        }
        if seq_lt(text_key(a@), text_key(b@)) {
            crate::base::order::lemma_lt_asymmetric(text_key(a@), text_key(b@));
        }
    }
    if text_before(a, b) {
        -1
    } else if text_before(b, a) {
        1
    } else {
        0
    }
}

impl ResourceRef {
    /// The reference as an operator reads it.
    pub fn to_string(&self) -> (r: String)
        ensures
            r@ == ref_text(*self),
    {
        let mut v: Vec<char> = Vec::new();
        append_str(&mut v, self.node_label.as_str());
        append_str(&mut v, " / ");
        append_str(&mut v, self.device_label.as_str());
        append_str(&mut v, " / ");
        append_str(&mut v, self.label.as_str());
        string_from_chars(&v)
    }

    /// A copy of the reference.
    pub fn copy(&self) -> (r: ResourceRef)
        ensures
            same_ref(*self, r),
    {
        ResourceRef {
            node: self.node.copy(),
            node_label: self.node_label.clone(),
            device_label: self.device_label.clone(),
            id: self.id.copy(),
            label: self.label.clone(),
        }
    }

    /// How two references' keys compare, part by part.
    pub proof fn lemma_order(a: ResourceRef, b: ResourceRef)
        ensures
            seq_lt(a.key(), b.key()) == (seq_lt(a.node.key(), b.node.key()) || (a.node.key()
                == b.node.key() && seq_lt(ref_tail(a), ref_tail(b)))),
            seq_lt(ref_tail(a), ref_tail(b)) == (seq_lt(text_key(a.node_label@), text_key(b.node_label@)) || (a.node_label@ == b.node_label@ && (seq_lt(text_key(a.device_label@), text_key(b.device_label@)) || (a.device_label@ == b.device_label@ && (seq_lt(text_key(a.id@), text_key(b.id@)) || (a.id@ == b.id@ && seq_lt(text_key(a.label@), text_key(b.label@)))))))),
            (a.key() == b.key()) == same_ref(a, b),
    {
        lemma_node_key_nonnegative(a.node);
        lemma_node_key_nonnegative(b.node);
        lemma_text_key_nonnegative(a.node_label@);
        lemma_text_key_nonnegative(b.node_label@);
        lemma_text_key_nonnegative(a.device_label@);
        lemma_text_key_nonnegative(b.device_label@);
        lemma_text_key_nonnegative(a.id@);
        lemma_text_key_nonnegative(b.id@);
        lemma_text_key_injective(a.node_label@, b.node_label@);
        lemma_text_key_injective(a.device_label@, b.device_label@);
        lemma_text_key_injective(a.id@, b.id@);
        lemma_text_key_injective(a.label@, b.label@);
        lemma_lt_closed_concat(a.node.key(), ref_tail(a), b.node.key(), ref_tail(b));
        lemma_lt_closed_concat(
            text_key(a.node_label@),
            text_key(a.device_label@).push(-1) + (text_key(a.id@).push(-1) + text_key(a.label@)),
            text_key(b.node_label@),
            text_key(b.device_label@).push(-1) + (text_key(b.id@).push(-1) + text_key(b.label@)),
        );
        lemma_lt_closed_concat(
            text_key(a.device_label@),
            text_key(a.id@).push(-1) + text_key(a.label@),
            text_key(b.device_label@),
            text_key(b.id@).push(-1) + text_key(b.label@),
        );
        lemma_lt_closed_concat(
            text_key(a.id@),
            text_key(a.label@),
            text_key(b.id@),
            text_key(b.label@),
        );
    }
}

impl Keyed for ResourceRef {
    /// Ordered by Node, then Node label, Device label, identifier and label.
    open spec fn key(&self) -> Seq<int> {
        self.node.key().push(-1) + ref_tail(*self)
    }

    fn same_key(&self, other: &Self) -> (r: bool) {
        proof {
            ResourceRef::lemma_order(*self, *other);
        }
        self.node.same_key(&other.node) && text_eq(
            self.node_label.as_str(),
            other.node_label.as_str(),
        ) && text_eq(self.device_label.as_str(), other.device_label.as_str()) && self.id.same(
            &other.id,
        ) && text_eq(self.label.as_str(), other.label.as_str())
    }

    fn key_before(&self, other: &Self) -> (r: bool) {
        proof {
            ResourceRef::lemma_order(*self, *other);
            lemma_node_key_nonnegative(self.node);
            if self.node.key() != other.node.key() {
                lemma_lt_total(self.node.key(), other.node.key());
            }
            if seq_lt(other.node.key(), self.node.key()) {
                crate::base::order::lemma_lt_asymmetric(other.node.key(), self.node.key());
            }
        }
        if self.node.key_before(&other.node) {
            return true;
        }
        if other.node.key_before(&self.node) {
            return false;
        }
        let c = compare_text(self.node_label.as_str(), other.node_label.as_str());
        if c != 0 {
            return c < 0;
        }
        let c = compare_text(self.device_label.as_str(), other.device_label.as_str());
        if c != 0 {
            return c < 0;
        }
        let c = compare_text(self.id.as_str(), other.id.as_str());
        if c != 0 {
            return c < 0;
        }
        compare_text(self.label.as_str(), other.label.as_str()) < 0
    }
}

/// What a Receiver is taking, once the graph has been resolved.
#[derive(Debug, Clone)]
pub enum Pairing {
    /// The Receiver takes nothing.
    Nothing,
    /// The transport pass has not run, so nothing can be said yet.
    Pending,
    /// The Sender is known.
    Resolved(Box<ResourceRef>),
    /// The Receiver names a Sender belonging to no discovered Node. It is still
    /// Subscribed.
    UnknownSender {
        /// The identifier it reported.
        sender_id: ResourceId,
    },
    /// The stream matches more than one Sender: a fault in the plant, with
    /// every Sender it matches named.
    Ambiguous {
        /// Every Sender the stream matches.
        candidates: Vec<ResourceRef>,
    },
    /// The Receiver is Subscribed but names no Sender, and its stream matches
    /// nothing known.
    Unmatched,
}

/// A Sender, with everything needed to draw its row.
#[derive(Debug, Clone)]
pub struct SenderView {
    /// The Sender itself.
    pub sender: Sender,
    /// Whether it is putting its Flow on the network.
    pub transmission: Transmission,
    /// What it carries.
    pub media: Media,
    /// Where it sends, once that has been read.
    pub transport: Transport,
    /// Every Receiver known to take its stream.
    pub taken_by: Vec<ResourceRef>,
}

impl SenderView {
    /// Whether this Sender is Transmitting with nobody listening — as opposed
    /// to one whose takers are merely not yet known.
    pub fn is_transmitting_into_the_void(&self) -> (r: bool)
        ensures
            r == (self.transmission == Transmission::Transmitting && self.taken_by@.len() == 0
                && self.transport is Known),
    {
        self.transmission.is_transmitting() && self.taken_by.len() == 0 && match &self.transport {
            Transport::Known { .. } => true,
            _ => false,
        }
    }
}

/// A Receiver, with everything needed to draw its row.
#[derive(Debug, Clone)]
pub struct ReceiverView {
    /// The Receiver itself.
    pub receiver: Receiver,
    /// Whether it is taking a stream.
    pub reception: Reception,
    /// What it accepts.
    pub accepts: Vec<MediaType>,
    /// Which stream it takes, once that has been read.
    pub transport: Transport,
    /// Which Sender feeds it, so far as the controller can tell.
    pub pairing: Pairing,
}

} // verus!
