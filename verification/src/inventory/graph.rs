//! Which Senders feed which Receivers, across every Node the controller knows.
//!
//! This cannot be answered one Node at a time: the Receiver taking a Sender's
//! stream usually lives on a different box. Pairings come from the Sender
//! identifier a Receiver reports, and — because much equipment reports none —
//! from matching the stream's address and port.
//!
//! Where a pairing cannot be made it is named rather than dropped: a Receiver
//! pointing at an undiscovered Sender says so and stays Subscribed; a stream
//! matching two Senders is reported as ambiguous with both named.

use vstd::prelude::*;

use crate::base::order::seq_lt;
use crate::base::sort::{ordered_by_key, sort_by_key};
use crate::base::table::{Keyed, Table};
use crate::base::text::text_eq;
use crate::identity::NodeKey;
use crate::inventory::view::{
    address_view, addresses_view, transport_streams, DeviceView, KnownNode, NodeContents,
    NodeState, Pairing, ReceiverView, ResourceRef, SenderView, Transport,
};
use crate::nmos::connection::Reception;
use crate::nmos::connection_api::StreamAddress;
use crate::nmos::resource::ResourceId;

verus! {

broadcast use vstd::std_specs::vec::group_vec_axioms;

/// A reference as plain values: the Node's key, the Node's label, the
/// Device's label, the identifier and the label.
pub type RefView = (Seq<int>, Seq<char>, Seq<char>, Seq<char>, Seq<char>);

/// A reference as plain values.
pub open spec fn ref_view(r: ResourceRef) -> RefView {
    (r.node.key(), r.node_label@, r.device_label@, r.id@, r.label@)
}

/// A stream address as plain values.
pub type StreamView = (Seq<char>, u16);

/// A Sender known to the graph: where it lives, and the streams it sends.
pub type EntryView = (RefView, Seq<StreamView>);

/// Sequences laid end to end.
pub open spec fn concat_all<A>(s: Seq<Seq<A>>) -> Seq<A>
    decreases s.len(),
{
    if s.len() == 0 {
        Seq::empty()
    } else {
        concat_all(s.drop_last()) + s.last()
    }
}

proof fn lemma_concat_push<A>(s: Seq<Seq<A>>, x: Seq<A>)
    ensures
        concat_all(s.push(x)) == concat_all(s) + x,
{
    assert(s.push(x).drop_last() =~= s);
}

/// The Senders of one Device, in order.
pub open spec fn device_entries(key: Seq<int>, node_label: Seq<char>, dv: DeviceView) -> Seq<EntryView> {
    dv.senders@.map_values(
        |sv: SenderView|
            (
                (key, node_label, dv.device.core.label@, sv.sender.core.id@, sv.sender.core.label@),
                addresses_view(transport_streams(sv.transport)),
            ),
    )
}

/// The Senders of one Node, Device by Device; none until it is Ready.
pub open spec fn node_entries(n: KnownNode) -> Seq<EntryView> {
    match n.state {
        NodeState::Ready(c) => concat_all(
            c.devices@.map_values(|dv: DeviceView| device_entries(n.key.key(), c.node.core.label@, dv)),
        ),
        _ => Seq::empty(),
    }
}

/// Every Sender known, Node by Node in key order.
pub open spec fn sender_index(nodes: Seq<(NodeKey, KnownNode)>) -> Seq<EntryView> {
    concat_all(nodes.map_values(|e: (NodeKey, KnownNode)| node_entries(e.1)))
}

/// A Sender known to the graph.
pub type Entry = (ResourceRef, Vec<StreamAddress>);

/// A Sender known to the graph, as plain values.
pub open spec fn entry_view(e: Entry) -> EntryView {
    (ref_view(e.0), addresses_view(e.1@))
}

/// Entries as plain values.
pub open spec fn entries_view(s: Seq<Entry>) -> Seq<EntryView> {
    s.map_values(|e: Entry| entry_view(e))
}

fn copy_streams(s: &[StreamAddress]) -> (r: Vec<StreamAddress>)
    ensures
        addresses_view(r@) == addresses_view(s@),
{
    let mut r: Vec<StreamAddress> = Vec::new();
    let mut i: usize = 0;
    while i < s.len()
        invariant
            i <= s@.len(),
            addresses_view(r@) == addresses_view(s@.take(i as int)),
        decreases s@.len() - i,
    {
        let c = s[i].copy();
        let ghost before = r@;
        r.push(c);
        assert(addresses_view(r@) =~= addresses_view(before).push(address_view(c)));
        assert(s@.take(i + 1) =~= s@.take(i as int).push(s@[i as int]));
        assert(addresses_view(s@.take(i + 1)) =~= addresses_view(s@.take(i as int)).push(address_view(s@[i as int])));
        i = i + 1;
    }
    assert(s@.take(s@.len() as int) =~= s@);
    r
}

fn push_device_entries(out: &mut Vec<Entry>, key: &NodeKey, node_label: &String, dv: &DeviceView)
    ensures
        entries_view(final(out)@) == entries_view(old(out)@) + device_entries(key.key(), node_label@, *dv),
{
    let ghost start = entries_view(out@);
    let ghost all = device_entries(key.key(), node_label@, *dv);
    let mut k: usize = 0;
    while k < dv.senders.len()
        invariant
            k <= dv.senders@.len(),
            all == device_entries(key.key(), node_label@, *dv),
            entries_view(out@) == start + all.take(k as int),
        decreases dv.senders@.len() - k,
    {
        let sv = &dv.senders[k];
        let reference = ResourceRef {
            node: key.copy(),
            node_label: node_label.clone(),
            device_label: dv.device.core.label.clone(),
            id: sv.sender.core.id.copy(),
            label: sv.sender.core.label.clone(),
        };
        let streams = copy_streams(sv.transport.streams());
        let ghost before = out@;
        out.push((reference, streams));
        assert(entries_view(out@) =~= entries_view(before).push(all[k as int]));
        assert(all.take(k + 1) =~= all.take(k as int).push(all[k as int]));
        k = k + 1;
    }
    assert(all.take(all.len() as int) =~= all);
}

fn push_node_entries(out: &mut Vec<Entry>, n: &KnownNode)
    ensures
        entries_view(final(out)@) == entries_view(old(out)@) + node_entries(*n),
{
    match &n.state {
        NodeState::Ready(c) => {
            let ghost start = entries_view(out@);
            let ghost f = |dv: DeviceView| device_entries(n.key.key(), c.node.core.label@, dv);
            let mut d: usize = 0;
            while d < c.devices.len()
                invariant
                    d <= c.devices@.len(),
                    f == (|dv: DeviceView| device_entries(n.key.key(), c.node.core.label@, dv)),
                    entries_view(out@) == start + concat_all(c.devices@.take(d as int).map_values(f)),
                decreases c.devices@.len() - d,
            {
                push_device_entries(out, &n.key, &c.node.core.label, &c.devices[d]);
                proof {
                    assert(c.devices@.take(d + 1).map_values(f) =~= c.devices@.take(d as int).map_values(f).push(f(c.devices@[d as int])));
                    lemma_concat_push(c.devices@.take(d as int).map_values(f), f(c.devices@[d as int]));
                }
                d = d + 1;
            }
            assert(c.devices@.take(c.devices@.len() as int) =~= c.devices@);
        },
        _ => {
            assert(entries_view(out@) =~= entries_view(out@) + Seq::<EntryView>::empty());
        },
    }
}

/// Every Sender known, with the streams it puts on the network.
pub fn index_senders(nodes: &Table<NodeKey, KnownNode>) -> (r: Vec<Entry>)
    ensures
        entries_view(r@) == sender_index(nodes.entries()),
{
    let ghost f = |e: (NodeKey, KnownNode)| node_entries(e.1);
    let mut out: Vec<Entry> = Vec::new();
    let mut i: usize = 0;
    assert(entries_view(out@) =~= concat_all(nodes.entries().take(0).map_values(f)));
    while i < nodes.len()
        invariant
            i <= nodes.entries().len(),
            f == (|e: (NodeKey, KnownNode)| node_entries(e.1)),
            entries_view(out@) == concat_all(nodes.entries().take(i as int).map_values(f)),
        decreases nodes.entries().len() - i,
    {
        let e = nodes.entry(i);
        push_node_entries(&mut out, &e.1);
        proof {
            assert(nodes.entries().take(i + 1).map_values(f) =~= nodes.entries().take(i as int).map_values(f).push(f(nodes.entries()[i as int])));
            lemma_concat_push(nodes.entries().take(i as int).map_values(f), f(nodes.entries()[i as int]));
        }
        i = i + 1;
    }
    assert(nodes.entries().take(nodes.entries().len() as int) =~= nodes.entries());
    out
}

/// The index of the last Sender with an identifier, or `-1` when none has it.
pub open spec fn last_with_id(index: Seq<EntryView>, id: Seq<char>) -> int {
    if exists|i: int| 0 <= i < index.len() && #[trigger] index[i].0.3 == id {
        choose|i: int|
            0 <= i < index.len() && index[i].0.3 == id && forall|j: int|
                i < j < index.len() ==> #[trigger] index[j].0.3 != id
    } else {
        -1
    }
}

/// The Senders, in index order, that send a stream.
pub open spec fn senders_sending(index: Seq<EntryView>, s: StreamView) -> Seq<RefView> {
    index.filter(|e: EntryView| e.1.contains(s)).map_values(|e: EntryView| e.0)
}

/// The Senders sending any of some streams, stream by stream.
pub open spec fn stream_matches(index: Seq<EntryView>, streams: Seq<StreamView>) -> Seq<RefView> {
    concat_all(streams.map_values(|s: StreamView| senders_sending(index, s)))
}

/// Whether some reference has an identifier.
pub open spec fn has_id(s: Seq<RefView>, id: Seq<char>) -> bool {
    exists|k: int| 0 <= k < s.len() && #[trigger] s[k].3 == id
}

/// References, each identifier once: the first met.
pub open spec fn first_per_id(s: Seq<RefView>) -> Seq<RefView>
    decreases s.len(),
{
    if s.len() == 0 {
        Seq::empty()
    } else {
        let d = first_per_id(s.drop_last());
        if has_id(d, s.last().3) {
            d
        } else {
            d.push(s.last())
        }
    }
}

/// What a Receiver is found to take, as plain values.
pub enum Outcome {
    Nothing,
    Pending,
    Resolved(RefView),
    UnknownSender(Seq<char>),
    Ambiguous(Seq<RefView>),
    Unmatched,
}

/// What a Receiver takes. An Unsubscribed one takes nothing. One that names
/// its Sender takes that Sender, when one is known by that identifier (the
/// last in the index), and otherwise an unknown Sender. One that names
/// nobody waits for the transport pass, and is then matched by stream: to no
/// Sender, to exactly one, or ambiguously to several — one per identifier.
pub open spec fn pairing_outcome(
    reception: Reception,
    sender_id: Option<ResourceId>,
    transport: Transport,
    index: Seq<EntryView>,
) -> Outcome {
    if reception == Reception::Unsubscribed {
        Outcome::Nothing
    } else {
        match sender_id {
            Some(id) => {
                let i = last_with_id(index, id@);
                if i == -1 {
                    Outcome::UnknownSender(id@)
                } else {
                    Outcome::Resolved(index[i].0)
                }
            },
            None => if transport is Pending {
                Outcome::Pending
            } else {
                let c = first_per_id(
                    stream_matches(index, addresses_view(transport_streams(transport))),
                );
                if c.len() == 0 {
                    Outcome::Unmatched
                } else if c.len() == 1 {
                    Outcome::Resolved(c[0])
                } else {
                    Outcome::Ambiguous(c)
                }
            },
        }
    }
}

/// References as plain values.
pub open spec fn refs_view(s: Seq<ResourceRef>) -> Seq<RefView> {
    s.map_values(|r: ResourceRef| ref_view(r))
}

/// Whether a pairing shows an outcome; several candidates are shown in key
/// order.
pub open spec fn pairing_shows(p: Pairing, o: Outcome) -> bool {
    match (p, o) {
        (Pairing::Nothing, Outcome::Nothing) => true,
        (Pairing::Pending, Outcome::Pending) => true,
        (Pairing::Resolved(r), Outcome::Resolved(v)) => ref_view(*r) == v,
        (Pairing::UnknownSender { sender_id }, Outcome::UnknownSender(id)) => sender_id@ == id,
        (Pairing::Ambiguous { candidates }, Outcome::Ambiguous(c)) => {
            &&& candidates@.len() == c.len()
            &&& refs_view(candidates@).to_multiset() == c.to_multiset()
            &&& ordered_by_key(candidates@)
            &&& forall|v: RefView| #[trigger] refs_view(candidates@).contains(v) <==> c.contains(v)
        },
        (Pairing::Unmatched, Outcome::Unmatched) => true,
        _ => false,
    }
}

/// The last Sender in the index with an identifier.
fn find_by_id(index: &Vec<Entry>, id: &ResourceId) -> (r: Option<usize>)
    ensures
        match r {
            Some(i) => i < index@.len() && i == last_with_id(entries_view(index@), id@),
            None => last_with_id(entries_view(index@), id@) == -1,
        },
{
    let ghost v = entries_view(index@);
    let mut i: usize = index.len();
    while i > 0
        invariant
            v == entries_view(index@),
            i <= index@.len(),
            forall|j: int| i <= j < index@.len() ==> #[trigger] v[j].0.3 != id@,
        decreases i,
    {
        let k = i - 1;
        if index[k].0.id.same(id) {
            let ghost f = last_with_id(v, id@);
            assert(f == k) by {
                assert(v[k as int].0.3 == id@);
                if f < k {
                } else if f > k {
                }
            }
            return Some(k);
        }
        assert(v[k as int].0.3 != id@);
        i = k;
    }
    None
}

/// Whether some streams include one.
fn sends(streams: &Vec<StreamAddress>, s: &StreamAddress) -> (r: bool)
    ensures
        r == addresses_view(streams@).contains(address_view(*s)),
{
    let mut i: usize = 0;
    while i < streams.len()
        invariant
            i <= streams@.len(),
            forall|j: int| 0 <= j < i ==> #[trigger] address_view(streams@[j]) != address_view(*s),
        decreases streams@.len() - i,
    {
        if streams[i].port == s.port && text_eq(streams[i].address.as_str(), s.address.as_str()) {
            assert(addresses_view(streams@)[i as int] == address_view(*s));
            return true;
        }
        i = i + 1;
    }
    assert forall|j: int| 0 <= j < addresses_view(streams@).len() implies addresses_view(streams@)[j] != address_view(*s) by {
        assert(addresses_view(streams@)[j] == address_view(streams@[j]));
    }
    false
}

/// Whether some references already include an identifier.
fn holds_id(refs: &Vec<ResourceRef>, id: &ResourceId) -> (r: bool)
    ensures
        r == has_id(refs_view(refs@), id@),
{
    let mut i: usize = 0;
    while i < refs.len()
        invariant
            i <= refs@.len(),
            forall|j: int| 0 <= j < i ==> #[trigger] refs@[j].id@ != id@,
        decreases refs@.len() - i,
    {
        if refs[i].id.same(id) {
            assert(refs_view(refs@)[i as int].3 == id@);
            return true;
        }
        i = i + 1;
    }
    assert forall|k: int| 0 <= k < refs_view(refs@).len() implies #[trigger] refs_view(refs@)[k].3 != id@ by {
        assert(refs_view(refs@)[k] == ref_view(refs@[k]));
    }
    false
}

proof fn lemma_first_per_id_push(s: Seq<RefView>, v: RefView)
    ensures
        first_per_id(s.push(v)) == if has_id(first_per_id(s), v.3) {
            first_per_id(s)
        } else {
            first_per_id(s).push(v)
        },
{
    assert(s.push(v).drop_last() =~= s);
}

/// The Senders sending any of a Receiver's streams, one per identifier.
fn stream_candidates(index: &Vec<Entry>, streams: &[StreamAddress]) -> (r: Vec<ResourceRef>)
    ensures
        refs_view(r@) == first_per_id(stream_matches(entries_view(index@), addresses_view(streams@))),
{
    let ghost iv = entries_view(index@);
    let ghost sv = addresses_view(streams@);
    let ghost f = |s: StreamView| senders_sending(iv, s);
    let ghost sends_pred = |e: EntryView| e.1.contains(sv[0]);
    let mut r: Vec<ResourceRef> = Vec::new();
    let mut i: usize = 0;
    assert(stream_matches(iv, sv.take(0)) =~= Seq::<RefView>::empty());
    while i < streams.len()
        invariant
            iv == entries_view(index@),
            sv == addresses_view(streams@),
            f == (|s: StreamView| senders_sending(iv, s)),
            i <= streams@.len(),
            refs_view(r@) == first_per_id(concat_all(sv.take(i as int).map_values(f))),
        decreases streams@.len() - i,
    {
        let s = &streams[i];
        let ghost here = address_view(*s);
        assert(sv[i as int] == here);
        let ghost p = |e: EntryView| e.1.contains(here);
        let ghost done = concat_all(sv.take(i as int).map_values(f));
        let mut j: usize = 0;
        assert(iv.take(0).filter(p).map_values(|e: EntryView| e.0) =~= Seq::<RefView>::empty());
        assert(done + Seq::<RefView>::empty() =~= done);
        while j < index.len()
            invariant
                iv == entries_view(index@),
                sv == addresses_view(streams@),
                here == address_view(*s),
                p == (|e: EntryView| e.1.contains(here)),
                j <= index@.len(),
                refs_view(r@) == first_per_id(done + iv.take(j as int).filter(p).map_values(|e: EntryView| e.0)),
            decreases index@.len() - j,
        {
            let e = &index[j];
            let ghost ev = iv[j as int];
            assert(ev == entry_view(*e));
            proof {
                iv.take(j as int).lemma_filter_push(ev, p);
                assert(iv.take(j + 1) =~= iv.take(j as int).push(ev));
            }
            let ghost before = done + iv.take(j as int).filter(p).map_values(|e: EntryView| e.0);
            if sends(&e.1, s) {
                proof {
                    assert(iv.take(j + 1).filter(p).map_values(|e: EntryView| e.0) =~= iv.take(j as int).filter(p).map_values(|e: EntryView| e.0).push(ev.0));
                    assert(done + iv.take(j + 1).filter(p).map_values(|e: EntryView| e.0) =~= before.push(ev.0));
                    lemma_first_per_id_push(before, ev.0);
                }
                if !holds_id(&r, &e.0.id) {
                    let c = e.0.copy();
                    let ghost old_r = r@;
                    r.push(c);
                    assert(refs_view(r@) =~= refs_view(old_r).push(ev.0));
                }
            } else {
                assert(iv.take(j + 1).filter(p).map_values(|e: EntryView| e.0) =~= iv.take(j as int).filter(p).map_values(|e: EntryView| e.0));
            }
            j = j + 1;
        }
        proof {
            assert(iv.take(iv.len() as int) =~= iv);
            assert(sv.take(i + 1).map_values(f) =~= sv.take(i as int).map_values(f).push(f(here)));
            lemma_concat_push(sv.take(i as int).map_values(f), f(here));
        }
        i = i + 1;
    }
    assert(sv.take(sv.len() as int) =~= sv);
    r
}

/// The same references, as a multiset, have the same views, as a multiset.
proof fn lemma_refs_keep_multiset(a: Seq<ResourceRef>, b: Seq<ResourceRef>)
    requires
        a.to_multiset() == b.to_multiset(),
    ensures
        refs_view(a).to_multiset() == refs_view(b).to_multiset(),
    decreases a.len(),
{
    broadcast use vstd::seq_lib::group_to_multiset_ensures;

    vstd::seq_lib::to_multiset_len(a);
    vstd::seq_lib::to_multiset_len(b);
    if a.len() == 0 {
        assert(refs_view(a) =~= Seq::<RefView>::empty());
        assert(refs_view(b) =~= Seq::<RefView>::empty());
    } else {
        let x = a.last();
        let a1 = a.drop_last();
        assert(a =~= a1.push(x));
        vstd::seq_lib::to_multiset_build(a1, x);
        assert(b.to_multiset().count(x) > 0);
        assert(b.contains(x));
        let j = choose|j: int| 0 <= j < b.len() && b[j] == x;
        let b1 = b.remove(j);
        vstd::seq_lib::to_multiset_remove(b, j);
        assert(a1.to_multiset() =~= b1.to_multiset());
        lemma_refs_keep_multiset(a1, b1);
        assert(refs_view(a) =~= refs_view(a1).push(ref_view(x)));
        vstd::seq_lib::to_multiset_build(refs_view(a1), ref_view(x));
        assert(refs_view(b) =~= refs_view(b1).insert(j, ref_view(x)));
        vstd::seq_lib::to_multiset_insert(refs_view(b1), j, ref_view(x));
    }
}

proof fn lemma_same_members(a: Seq<ResourceRef>, b: Seq<ResourceRef>)
    requires
        a.to_multiset() == b.to_multiset(),
    ensures
        a.len() == b.len(),
        forall|v: RefView| #[trigger] refs_view(a).contains(v) <==> refs_view(b).contains(v),
{
    broadcast use vstd::seq_lib::group_to_multiset_ensures;

    vstd::seq_lib::to_multiset_len(a);
    vstd::seq_lib::to_multiset_len(b);
    assert forall|v: RefView| #[trigger] refs_view(a).contains(v) implies refs_view(b).contains(v) by {
        let k = choose|k: int| 0 <= k < refs_view(a).len() && refs_view(a)[k] == v;
        assert(a.contains(a[k]));
        assert(b.to_multiset().count(a[k]) > 0);
        assert(b.contains(a[k]));
        let m = choose|m: int| 0 <= m < b.len() && b[m] == a[k];
        assert(refs_view(b)[m] == v);
    }
    assert forall|v: RefView| #[trigger] refs_view(b).contains(v) implies refs_view(a).contains(v) by {
        let k = choose|k: int| 0 <= k < refs_view(b).len() && refs_view(b)[k] == v;
        assert(b.contains(b[k]));
        assert(a.to_multiset().count(b[k]) > 0);
        assert(a.contains(b[k]));
        let m = choose|m: int| 0 <= m < a.len() && a[m] == b[k];
        assert(refs_view(a)[m] == v);
    }
}

/// Work out what one Receiver is taking.
pub fn pair(
    reception: Reception,
    sender_id: Option<&ResourceId>,
    transport: &Transport,
    index: &Vec<Entry>,
) -> (p: Pairing)
    ensures
        pairing_shows(
            p,
            pairing_outcome(
                reception,
                match sender_id {
                    Some(x) => Some(*x),
                    None => None,
                },
                *transport,
                entries_view(index@),
            ),
        ),
{
    if reception == Reception::Unsubscribed {
        return Pairing::Nothing;
    }
    if let Some(id) = sender_id {
        return match find_by_id(index, id) {
            Some(i) => Pairing::Resolved(Box::new(index[i].0.copy())),
            None => Pairing::UnknownSender { sender_id: id.copy() },
        };
    }
    if transport.is_pending() {
        return Pairing::Pending;
    }
    let candidates = stream_candidates(index, transport.streams());
    if candidates.len() == 0 {
        Pairing::Unmatched
    } else if candidates.len() == 1 {
        Pairing::Resolved(Box::new(candidates[0].copy()))
    } else {
        let ghost c = candidates@;
        let sorted = sort_by_key(candidates);
        proof {
            lemma_same_members(sorted@, c);
            lemma_refs_keep_multiset(sorted@, c);
        }
        Pairing::Ambiguous { candidates: sorted }
    }
}

/// A Receiver paired to a Sender: the Sender's identifier, and where the
/// Receiver lives.
pub type Taker = (ResourceId, ResourceRef);

/// A taker as plain values.
pub type TakerView = (Seq<char>, RefView);

/// Takers as plain values.
pub open spec fn takers_view(s: Seq<Taker>) -> Seq<TakerView> {
    s.map_values(|t: Taker| (t.0@, ref_view(t.1)))
}

/// What a Receiver row is found to take.
pub open spec fn row_outcome(rv: ReceiverView, index: Seq<EntryView>) -> Outcome {
    pairing_outcome(rv.reception, rv.receiver.subscription.sender_id, rv.transport, index)
}

/// The Receivers among rows that are paired to a Sender, in order.
pub open spec fn takers_in(
    key: Seq<int>,
    node_label: Seq<char>,
    device_label: Seq<char>,
    rows: Seq<ReceiverView>,
    index: Seq<EntryView>,
) -> Seq<TakerView>
    decreases rows.len(),
{
    if rows.len() == 0 {
        Seq::empty()
    } else {
        let rest = takers_in(key, node_label, device_label, rows.drop_last(), index);
        let rv = rows.last();
        match row_outcome(rv, index) {
            Outcome::Resolved(v) => rest.push(
                (v.3, (key, node_label, device_label, rv.receiver.core.id@, rv.receiver.core.label@)),
            ),
            _ => rest,
        }
    }
}

/// The Receivers of a Node that are paired to a Sender, Device by Device.
pub open spec fn node_takers(n: KnownNode, index: Seq<EntryView>) -> Seq<TakerView> {
    match n.state {
        NodeState::Ready(c) => concat_all(
            c.devices@.map_values(
                |dv: DeviceView|
                    takers_in(n.key.key(), c.node.core.label@, dv.device.core.label@, dv.receivers@, index),
            ),
        ),
        _ => Seq::empty(),
    }
}

/// Every Receiver paired to a Sender, Node by Node in key order.
pub open spec fn all_takers(nodes: Seq<(NodeKey, KnownNode)>, index: Seq<EntryView>) -> Seq<TakerView> {
    concat_all(nodes.map_values(|e: (NodeKey, KnownNode)| node_takers(e.1, index)))
}

/// Whether a taker is paired to a Sender with an identifier.
pub open spec fn taker_for(id: Seq<char>) -> spec_fn(TakerView) -> bool {
    |t: TakerView| t.0 == id
}

/// Where a taker lives.
pub open spec fn taker_ref() -> spec_fn(TakerView) -> RefView {
    |t: TakerView| t.1
}

/// The Receivers paired to Senders with an identifier.
pub open spec fn takers_of(takers: Seq<TakerView>, id: Seq<char>) -> Seq<RefView> {
    takers.filter(taker_for(id)).map_values(taker_ref())
}

/// Whether a Receiver row has been paired, and nothing else changed.
pub open spec fn receiver_paired(new: ReceiverView, old: ReceiverView, index: Seq<EntryView>) -> bool {
    &&& new.receiver == old.receiver
    &&& new.reception == old.reception
    &&& new.accepts == old.accepts
    &&& new.transport == old.transport
    &&& pairing_shows(new.pairing, row_outcome(old, index))
}

/// Whether a Device's Receivers have been paired, and nothing else changed.
pub open spec fn device_paired(new: DeviceView, old: DeviceView, index: Seq<EntryView>) -> bool {
    &&& new.device == old.device
    &&& new.senders == old.senders
    &&& new.receivers@.len() == old.receivers@.len()
    &&& forall|k: int| 0 <= k < new.receivers@.len() ==> receiver_paired(#[trigger] new.receivers@[k], old.receivers@[k], index)
}

/// Whether a Node's Receivers have been paired, and nothing else changed.
pub open spec fn node_paired(new: KnownNode, old: KnownNode, index: Seq<EntryView>) -> bool {
    &&& new.key == old.key
    &&& new.instances == old.instances
    &&& new.endpoints == old.endpoints
    &&& new.hostname == old.hostname
    &&& new.requires_authorization == old.requires_authorization
    &&& match (new.state, old.state) {
        (NodeState::Ready(n), NodeState::Ready(o)) => {
            &&& n.node == o.node
            &&& n.orphans == o.orphans
            &&& n.devices@.len() == o.devices@.len()
            &&& forall|d: int| 0 <= d < n.devices@.len() ==> device_paired(#[trigger] n.devices@[d], o.devices@[d], index)
        },
        (NodeState::Ready(_), _) => false,
        (_, NodeState::Ready(_)) => false,
        (n, o) => n == o,
    }
}

fn pair_device(
    dv: DeviceView,
    key: &NodeKey,
    node_label: &String,
    index: &Vec<Entry>,
    takers: &mut Vec<Taker>,
) -> (r: DeviceView)
    ensures
        device_paired(r, dv, entries_view(index@)),
        takers_view(final(takers)@) == takers_view(old(takers)@) + takers_in(
            key.key(),
            node_label@,
            dv.device.core.label@,
            dv.receivers@,
            entries_view(index@),
        ),
{
    let ghost old_dv = dv;
    let ghost iv = entries_view(index@);
    let ghost start = takers_view(takers@);
    let DeviceView { device, senders, receivers } = dv;
    let mut rest = receivers;
    let mut fresh: Vec<ReceiverView> = Vec::new();
    while rest.len() > 0
        invariant
            iv == entries_view(index@),
            device == old_dv.device,
            fresh@.len() + rest@.len() == old_dv.receivers@.len(),
            rest@ == old_dv.receivers@.skip(fresh@.len() as int),
            forall|k: int| 0 <= k < fresh@.len() ==> receiver_paired(#[trigger] fresh@[k], old_dv.receivers@[k], iv),
            takers_view(takers@) == start + takers_in(key.key(), node_label@, old_dv.device.core.label@, old_dv.receivers@.take(fresh@.len() as int), iv),
        decreases rest@.len(),
    {
        let ghost at = fresh@.len() as int;
        let rv = rest.remove(0);
        assert(rv == old_dv.receivers@[at]);
        proof {
            assert(old_dv.receivers@.take(at + 1).drop_last() =~= old_dv.receivers@.take(at));
            assert(old_dv.receivers@.take(at + 1).last() == rv);
        }
        let pairing = pair(rv.reception, rv.receiver.subscription.sender_id.as_ref(), &rv.transport, index);
        let ghost before = takers@;
        match &pairing {
            Pairing::Resolved(sender) => {
                let reference = ResourceRef {
                    node: key.copy(),
                    node_label: node_label.clone(),
                    device_label: device.core.label.clone(),
                    id: rv.receiver.core.id.copy(),
                    label: rv.receiver.core.label.clone(),
                };
                takers.push((sender.id.copy(), reference));
                assert(takers_view(takers@) =~= takers_view(before).push((sender.id@, ref_view(reference))));
            },
            _ => {},
        }
        let ReceiverView { receiver, reception, accepts, transport, pairing: _ } = rv;
        fresh.push(ReceiverView { receiver, reception, accepts, transport, pairing });
        assert(rest@ =~= old_dv.receivers@.skip(fresh@.len() as int));
    }
    assert(old_dv.receivers@.take(old_dv.receivers@.len() as int) =~= old_dv.receivers@);
    DeviceView { device, senders, receivers: fresh }
}

fn pair_node(n: KnownNode, index: &Vec<Entry>, takers: &mut Vec<Taker>) -> (r: KnownNode)
    ensures
        node_paired(r, n, entries_view(index@)),
        takers_view(final(takers)@) == takers_view(old(takers)@) + node_takers(n, entries_view(index@)),
{
    let ghost old_n = n;
    let ghost iv = entries_view(index@);
    let KnownNode { key, instances, endpoints, hostname, requires_authorization, state } = n;
    let state = match state {
        NodeState::Ready(c) => {
            let ghost oc = *c;
            let ghost f = |dv: DeviceView| takers_in(key.key(), oc.node.core.label@, dv.device.core.label@, dv.receivers@, iv);
            let ghost start = takers_view(takers@);
            let NodeContents { node, devices, orphans } = *c;
            let mut rest = devices;
            let mut fresh: Vec<DeviceView> = Vec::new();
            while rest.len() > 0
                invariant
                    iv == entries_view(index@),
                    node == oc.node,
                    key == old_n.key,
                    f == (|dv: DeviceView| takers_in(key.key(), oc.node.core.label@, dv.device.core.label@, dv.receivers@, iv)),
                    fresh@.len() + rest@.len() == oc.devices@.len(),
                    rest@ == oc.devices@.skip(fresh@.len() as int),
                    forall|k: int| 0 <= k < fresh@.len() ==> device_paired(#[trigger] fresh@[k], oc.devices@[k], iv),
                    takers_view(takers@) == start + concat_all(oc.devices@.take(fresh@.len() as int).map_values(f)),
                decreases rest@.len(),
            {
                let ghost at = fresh@.len() as int;
                let dv = rest.remove(0);
                assert(dv == oc.devices@[at]);
                let ghost before = takers_view(takers@);
                let paired = pair_device(dv, &key, &node.core.label, index, takers);
                fresh.push(paired);
                proof {
                    assert(oc.devices@.take(at + 1).map_values(f) =~= oc.devices@.take(at).map_values(f).push(f(oc.devices@[at])));
                    lemma_concat_push(oc.devices@.take(at).map_values(f), f(oc.devices@[at]));
                }
                assert(rest@ =~= oc.devices@.skip(fresh@.len() as int));
            }
            assert(oc.devices@.take(oc.devices@.len() as int) =~= oc.devices@);
            NodeState::Ready(Box::new(NodeContents { node, devices: fresh, orphans }))
        },
        other => {
            assert(takers_view(takers@) =~= takers_view(takers@) + Seq::<TakerView>::empty());
            other
        },
    };
    KnownNode { key, instances, endpoints, hostname, requires_authorization, state }
}

/// Whether a Sender row has been told who takes it, and nothing else
/// changed: every Receiver paired to a Sender with its identifier, in key
/// order.
pub open spec fn sender_taken(new: SenderView, old: SenderView, takers: Seq<TakerView>) -> bool {
    &&& new.sender == old.sender
    &&& new.transmission == old.transmission
    &&& new.media == old.media
    &&& new.transport == old.transport
    &&& ordered_by_key(new.taken_by@)
    &&& new.taken_by@.len() == takers_of(takers, old.sender.core.id@).len()
    &&& refs_view(new.taken_by@).to_multiset() == takers_of(takers, old.sender.core.id@).to_multiset()
    &&& forall|v: RefView| #[trigger] refs_view(new.taken_by@).contains(v) <==> takers_of(takers, old.sender.core.id@).contains(v)
}

/// Whether a Device's Senders have been told who takes them.
pub open spec fn device_taken(new: DeviceView, old: DeviceView, takers: Seq<TakerView>) -> bool {
    &&& new.device == old.device
    &&& new.receivers == old.receivers
    &&& new.senders@.len() == old.senders@.len()
    &&& forall|k: int| 0 <= k < new.senders@.len() ==> sender_taken(#[trigger] new.senders@[k], old.senders@[k], takers)
}

/// Whether a Node's Senders have been told who takes them.
pub open spec fn node_taken(new: KnownNode, old: KnownNode, takers: Seq<TakerView>) -> bool {
    &&& new.key == old.key
    &&& new.instances == old.instances
    &&& new.endpoints == old.endpoints
    &&& new.hostname == old.hostname
    &&& new.requires_authorization == old.requires_authorization
    &&& match (new.state, old.state) {
        (NodeState::Ready(n), NodeState::Ready(o)) => {
            &&& n.node == o.node
            &&& n.orphans == o.orphans
            &&& n.devices@.len() == o.devices@.len()
            &&& forall|d: int| 0 <= d < n.devices@.len() ==> device_taken(#[trigger] n.devices@[d], o.devices@[d], takers)
        },
        (NodeState::Ready(_), _) => false,
        (_, NodeState::Ready(_)) => false,
        (n, o) => n == o,
    }
}

/// The Receivers paired to Senders with an identifier, in key order.
fn taken_by(takers: &Vec<Taker>, id: &ResourceId) -> (r: Vec<ResourceRef>)
    ensures
        ordered_by_key(r@),
        r@.len() == takers_of(takers_view(takers@), id@).len(),
        refs_view(r@).to_multiset() == takers_of(takers_view(takers@), id@).to_multiset(),
        forall|v: RefView| #[trigger] refs_view(r@).contains(v) <==> takers_of(takers_view(takers@), id@).contains(v),
{
    let ghost tv = takers_view(takers@);
    let ghost p = taker_for(id@);
    let mut found: Vec<ResourceRef> = Vec::new();
    let mut i: usize = 0;
    while i < takers.len()
        invariant
            tv == takers_view(takers@),
            p == taker_for(id@),
            i <= takers@.len(),
            refs_view(found@) == tv.take(i as int).filter(p).map_values(taker_ref()),
        decreases takers@.len() - i,
    {
        let t = &takers[i];
        proof {
            tv.take(i as int).lemma_filter_push(tv[i as int], p);
            assert(tv.take(i + 1) =~= tv.take(i as int).push(tv[i as int]));
        }
        if t.0.same(id) {
            let c = t.1.copy();
            let ghost before = found@;
            found.push(c);
            assert(refs_view(found@) =~= refs_view(before).push(ref_view(c)));
            assert(tv.take(i + 1).filter(p).map_values(taker_ref()) =~= tv.take(i as int).filter(p).map_values(taker_ref()).push(tv[i as int].1));
        } else {
            assert(tv.take(i + 1).filter(p).map_values(taker_ref()) =~= tv.take(i as int).filter(p).map_values(taker_ref()));
        }
        i = i + 1;
    }
    assert(tv.take(tv.len() as int) =~= tv);
    let ghost unsorted = found@;
    let sorted = sort_by_key(found);
    proof {
        lemma_same_members(sorted@, unsorted);
        lemma_refs_keep_multiset(sorted@, unsorted);
        assert(refs_view(unsorted) == takers_of(tv, id@));
        assert forall|v: RefView| #[trigger] refs_view(sorted@).contains(v) <==> takers_of(tv, id@).contains(v) by {
            assert(refs_view(sorted@).contains(v) <==> refs_view(unsorted).contains(v));
        }
        assert(refs_view(unsorted).len() == takers_of(tv, id@).len());
    }
    sorted
}

fn take_device(dv: DeviceView, takers: &Vec<Taker>) -> (r: DeviceView)
    ensures
        device_taken(r, dv, takers_view(takers@)),
{
    let ghost old_dv = dv;
    let DeviceView { device, senders, receivers } = dv;
    let mut rest = senders;
    let mut fresh: Vec<SenderView> = Vec::new();
    while rest.len() > 0
        invariant
            fresh@.len() + rest@.len() == old_dv.senders@.len(),
            rest@ == old_dv.senders@.skip(fresh@.len() as int),
            forall|k: int| 0 <= k < fresh@.len() ==> sender_taken(#[trigger] fresh@[k], old_dv.senders@[k], takers_view(takers@)),
        decreases rest@.len(),
    {
        let ghost at = fresh@.len() as int;
        let sv = rest.remove(0);
        assert(sv == old_dv.senders@[at]);
        let SenderView { sender, transmission, media, transport, taken_by: _ } = sv;
        let by = taken_by(takers, &sender.core.id);
        fresh.push(SenderView { sender, transmission, media, transport, taken_by: by });
        assert(rest@ =~= old_dv.senders@.skip(fresh@.len() as int));
    }
    DeviceView { device, senders: fresh, receivers }
}

fn take_node(n: KnownNode, takers: &Vec<Taker>) -> (r: KnownNode)
    ensures
        node_taken(r, n, takers_view(takers@)),
{
    let ghost old_n = n;
    let KnownNode { key, instances, endpoints, hostname, requires_authorization, state } = n;
    let state = match state {
        NodeState::Ready(c) => {
            let ghost oc = *c;
            let NodeContents { node, devices, orphans } = *c;
            let mut rest = devices;
            let mut fresh: Vec<DeviceView> = Vec::new();
            while rest.len() > 0
                invariant
                    fresh@.len() + rest@.len() == oc.devices@.len(),
                    rest@ == oc.devices@.skip(fresh@.len() as int),
                    forall|k: int| 0 <= k < fresh@.len() ==> device_taken(#[trigger] fresh@[k], oc.devices@[k], takers_view(takers@)),
                decreases rest@.len(),
            {
                let ghost at = fresh@.len() as int;
                let dv = rest.remove(0);
                assert(dv == oc.devices@[at]);
                fresh.push(take_device(dv, takers));
                assert(rest@ =~= oc.devices@.skip(fresh@.len() as int));
            }
            NodeState::Ready(Box::new(NodeContents { node, devices: fresh, orphans }))
        },
        other => other,
    };
    KnownNode { key, instances, endpoints, hostname, requires_authorization, state }
}

/// Whether every pairing has been filled in, on both ends: each Receiver
/// shows what it takes, and each Sender every Receiver that takes it.
pub open spec fn graph_resolved(new: Table<NodeKey, KnownNode>, old: Table<NodeKey, KnownNode>) -> bool {
    let index = sender_index(old.entries());
    let takers = all_takers(old.entries(), index);
    &&& new.entries().len() == old.entries().len()
    &&& forall|i: int|
        0 <= i < new.entries().len() ==> {
            let n = #[trigger] new.entries()[i];
            let o = old.entries()[i];
            &&& n.0 == o.0
            &&& exists|m: KnownNode| node_paired(m, o.1, index) && node_taken(n.1, m, takers)
        }
}

/// Fill in every pairing, on both ends.
#[verifier::spinoff_prover]
pub fn resolve(nodes: &mut Table<NodeKey, KnownNode>)
    ensures
        graph_resolved(*final(nodes), *old(nodes)),
{
    let ghost old_entries = nodes.entries();
    let index = index_senders(nodes);
    let ghost iv = entries_view(index@);
    let ghost f = |e: (NodeKey, KnownNode)| node_takers(e.1, iv);
    let mut taken: Table<NodeKey, KnownNode> = Table::new();
    std::mem::swap(&mut taken, nodes);
    let mut rest = taken.into_entries();
    let mut paired: Vec<(NodeKey, KnownNode)> = Vec::new();
    let mut takers: Vec<Taker> = Vec::new();
    while rest.len() > 0
        invariant
            iv == entries_view(index@),
            iv == sender_index(old_entries),
            f == (|e: (NodeKey, KnownNode)| node_takers(e.1, iv)),
            paired@.len() + rest@.len() == old_entries.len(),
            rest@ == old_entries.skip(paired@.len() as int),
            forall|k: int| 0 <= k < paired@.len() ==> (#[trigger] paired@[k]).0 == old_entries[k].0 && node_paired(paired@[k].1, old_entries[k].1, iv),
            takers_view(takers@) == concat_all(old_entries.take(paired@.len() as int).map_values(f)),
        decreases rest@.len(),
    {
        let ghost at = paired@.len() as int;
        let (k, n) = rest.remove(0);
        assert((k, n) == old_entries[at]);
        let m = pair_node(n, &index, &mut takers);
        paired.push((k, m));
        proof {
            assert(old_entries.take(at + 1).map_values(f) =~= old_entries.take(at).map_values(f).push(f(old_entries[at])));
            lemma_concat_push(old_entries.take(at).map_values(f), f(old_entries[at]));
        }
        assert(rest@ =~= old_entries.skip(paired@.len() as int));
    }
    assert(old_entries.take(old_entries.len() as int) =~= old_entries);
    let ghost tv = takers_view(takers@);
    proof {
        assert(tv == concat_all(old_entries.map_values(f)));
        assert(old_entries.map_values(f) =~= old_entries.map_values(
            |e: (NodeKey, KnownNode)| node_takers(e.1, iv),
        ));
        assert(tv == all_takers(old_entries, iv));
    }
    let ghost mids = paired@;
    let mut rest = paired;
    let mut done: Vec<(NodeKey, KnownNode)> = Vec::new();
    while rest.len() > 0
        invariant
            tv == takers_view(takers@),
            mids.len() == old_entries.len(),
            done@.len() + rest@.len() == mids.len(),
            rest@ == mids.skip(done@.len() as int),
            forall|k: int| 0 <= k < done@.len() ==> (#[trigger] done@[k]).0 == mids[k].0 && node_taken(done@[k].1, mids[k].1, tv),
        decreases rest@.len(),
    {
        let ghost at = done@.len() as int;
        let (k, n) = rest.remove(0);
        assert((k, n) == mids[at]);
        done.push((k, take_node(n, &takers)));
        assert(rest@ =~= mids.skip(done@.len() as int));
    }
    proof {
        assert forall|a: int, b: int| 0 <= a < b < done@.len() implies crate::base::order::seq_lt(
            #[trigger] done@[a].0.key(),
            #[trigger] done@[b].0.key(),
        ) by {
            assert(old_entries[a].0 == done@[a].0);
            assert(old_entries[b].0 == done@[b].0);
        }
        assert(crate::base::table::sorted(old_entries));
    }
    let ghost finished = done@;
    *nodes = Table::from_sorted(done);
    proof {
        assert forall|i: int| 0 <= i < nodes.entries().len() implies {
            let n = #[trigger] nodes.entries()[i];
            let o = old_entries[i];
            &&& n.0 == o.0
            &&& exists|m: KnownNode| node_paired(m, o.1, iv) && node_taken(n.1, m, tv)
        } by {
            assert(nodes.entries()[i] == finished[i]);
            assert(finished[i].0 == mids[i].0 && node_taken(finished[i].1, mids[i].1, tv));
            assert(mids[i].0 == old_entries[i].0 && node_paired(mids[i].1, old_entries[i].1, iv));
        }
    }
}

proof fn lemma_takers_in_contains(
    key: Seq<int>,
    node_label: Seq<char>,
    device_label: Seq<char>,
    rows: Seq<ReceiverView>,
    index: Seq<EntryView>,
    k: int,
    v: RefView,
)
    requires
        0 <= k < rows.len(),
        row_outcome(rows[k], index) == Outcome::Resolved(v),
    ensures
        takers_in(key, node_label, device_label, rows, index).contains(
            (v.3, (key, node_label, device_label, rows[k].receiver.core.id@, rows[k].receiver.core.label@)),
        ),
    decreases rows.len(),
{
    let x = (v.3, (key, node_label, device_label, rows[k].receiver.core.id@, rows[k].receiver.core.label@));
    let t = takers_in(key, node_label, device_label, rows, index);
    let rest = takers_in(key, node_label, device_label, rows.drop_last(), index);
    if k == rows.len() - 1 {
        assert(t == rest.push(x));
        assert(t[t.len() - 1] == x);
    } else {
        assert(rows.drop_last()[k] == rows[k]);
        lemma_takers_in_contains(key, node_label, device_label, rows.drop_last(), index, k, v);
        let m = choose|m: int| 0 <= m < rest.len() && rest[m] == x;
        assert(t[m] == x);
    }
}

proof fn lemma_concat_contains<A>(s: Seq<Seq<A>>, d: int, x: A)
    requires
        0 <= d < s.len(),
        s[d].contains(x),
    ensures
        concat_all(s).contains(x),
    decreases s.len(),
{
    let pre = concat_all(s.drop_last());
    assert(concat_all(s) == pre + s.last());
    if d == s.len() - 1 {
        let m = choose|m: int| 0 <= m < s[d].len() && s[d][m] == x;
        assert(concat_all(s)[pre.len() + m] == x);
    } else {
        assert(s.drop_last()[d] == s[d]);
        lemma_concat_contains(s.drop_last(), d, x);
        let m = choose|m: int| 0 <= m < pre.len() && pre[m] == x;
        assert(concat_all(s)[m] == x);
    }
}

/// A pairing shows on both ends: once the graph is resolved, a Receiver
/// resolved to a Sender is listed by every Sender with that identifier,
/// under the Node, Device and labels it lives at.
pub proof fn law_pairing_shows_on_both_ends(
    new: Table<NodeKey, KnownNode>,
    old: Table<NodeKey, KnownNode>,
    i: int,
    ci: NodeContents,
    d: int,
    k: int,
    j: int,
    cj: NodeContents,
    e: int,
    s: int,
)
    requires
        graph_resolved(new, old),
        0 <= i < new.entries().len(),
        new.entries()[i].1.state matches NodeState::Ready(c) && *c == ci,
        0 <= d < ci.devices@.len(),
        0 <= k < ci.devices@[d].receivers@.len(),
        ci.devices@[d].receivers@[k].pairing is Resolved,
        0 <= j < new.entries().len(),
        new.entries()[j].1.state matches NodeState::Ready(c) && *c == cj,
        0 <= e < cj.devices@.len(),
        0 <= s < cj.devices@[e].senders@.len(),
        cj.devices@[e].senders@[s].sender.core.id@ == ci.devices@[d].receivers@[k].pairing->Resolved_0.id@,
    ensures
        refs_view(cj.devices@[e].senders@[s].taken_by@).contains(
            (
                new.entries()[i].1.key.key(),
                ci.node.core.label@,
                ci.devices@[d].device.core.label@,
                ci.devices@[d].receivers@[k].receiver.core.id@,
                ci.devices@[d].receivers@[k].receiver.core.label@,
            ),
        ),
{
    let index = sender_index(old.entries());
    let takers = all_takers(old.entries(), index);
    let ni = new.entries()[i];
    let oi = old.entries()[i];
    let mi = choose|m: KnownNode| node_paired(m, oi.1, index) && node_taken(ni.1, m, takers);
    let mc = *(mi.state->Ready_0);
    let oc = *(oi.1.state->Ready_0);
    assert(device_taken(ci.devices@[d], mc.devices@[d], takers));
    assert(device_paired(mc.devices@[d], oc.devices@[d], index));
    let rv = ci.devices@[d].receivers@[k];
    let orv = oc.devices@[d].receivers@[k];
    assert(receiver_paired(mc.devices@[d].receivers@[k], orv, index));
    let v = ref_view(*(rv.pairing->Resolved_0));
    assert(row_outcome(orv, index) == Outcome::Resolved(v));
    lemma_takers_in_contains(
        oi.1.key.key(),
        oc.node.core.label@,
        oc.devices@[d].device.core.label@,
        oc.devices@[d].receivers@,
        index,
        k,
        v,
    );
    let x = (v.3, (oi.1.key.key(), oc.node.core.label@, oc.devices@[d].device.core.label@, orv.receiver.core.id@, orv.receiver.core.label@));
    let f = |dv: DeviceView| takers_in(oi.1.key.key(), oc.node.core.label@, dv.device.core.label@, dv.receivers@, index);
    assert(oc.devices@.map_values(f)[d] == f(oc.devices@[d]));
    lemma_concat_contains(oc.devices@.map_values(f), d, x);
    assert(node_takers(oi.1, index) == concat_all(oc.devices@.map_values(f)));
    let g = |t: (NodeKey, KnownNode)| node_takers(t.1, index);
    assert(old.entries().map_values(g)[i] == g(oi));
    lemma_concat_contains(old.entries().map_values(g), i, x);
    assert(takers == concat_all(old.entries().map_values(g)));
    let pos = choose|m: int| 0 <= m < takers.len() && takers[m] == x;
    takers.lemma_filter_contains(taker_for(v.3), pos);
    let fl = takers.filter(taker_for(v.3));
    let q = choose|m: int| 0 <= m < fl.len() && fl[m] == x;
    assert(takers_of(takers, v.3)[q] == x.1);
    let nj = new.entries()[j];
    let oj = old.entries()[j];
    let mj = choose|m: KnownNode| node_paired(m, oj.1, index) && node_taken(nj.1, m, takers);
    let mcj = *(mj.state->Ready_0);
    assert(device_taken(cj.devices@[e], mcj.devices@[e], takers));
    assert(sender_taken(cj.devices@[e].senders@[s], mcj.devices@[e].senders@[s], takers));
    assert(takers_of(takers, v.3).contains(x.1));
}


proof fn lemma_takers_in_member(
    key: Seq<int>,
    node_label: Seq<char>,
    device_label: Seq<char>,
    rows: Seq<ReceiverView>,
    index: Seq<EntryView>,
    x: TakerView,
) -> (r: (int, RefView))
    requires
        takers_in(key, node_label, device_label, rows, index).contains(x),
    ensures
        0 <= r.0 < rows.len(),
        row_outcome(rows[r.0], index) == Outcome::Resolved(r.1),
        x == (r.1.3, (key, node_label, device_label, rows[r.0].receiver.core.id@, rows[r.0].receiver.core.label@)),
    decreases rows.len(),
{
    let t = takers_in(key, node_label, device_label, rows, index);
    let rest = takers_in(key, node_label, device_label, rows.drop_last(), index);
    let m = choose|m: int| 0 <= m < t.len() && t[m] == x;
    let last = rows.len() - 1;
    match row_outcome(rows[last], index) {
        Outcome::Resolved(w) => {
            if m == t.len() - 1 {
                return (last, w);
            }
            assert(rest[m] == x);
        },
        _ => {
            assert(rest[m] == x);
        },
    }
    let (k, w) = lemma_takers_in_member(key, node_label, device_label, rows.drop_last(), index, x);
    assert(rows.drop_last()[k] == rows[k]);
    (k, w)
}

proof fn lemma_concat_member<A>(s: Seq<Seq<A>>, x: A) -> (d: int)
    requires
        concat_all(s).contains(x),
    ensures
        0 <= d < s.len(),
        s[d].contains(x),
    decreases s.len(),
{
    let pre = concat_all(s.drop_last());
    assert(concat_all(s) == pre + s.last());
    let m = choose|m: int| 0 <= m < concat_all(s).len() && concat_all(s)[m] == x;
    if m < pre.len() {
        assert(pre[m] == x);
        let d = lemma_concat_member(s.drop_last(), x);
        assert(s.drop_last()[d] == s[d]);
        d
    } else {
        assert(s.last()[m - pre.len()] == x);
        s.len() - 1
    }
}

/// Whether the Receiver at row `k` of Device `d` of the Node at index `i`
/// is resolved to a Sender with identifier `id`, and `v` names it: its
/// Node's key, its Node's label, its Device's label, its identifier and its
/// label.
pub open spec fn taker_at(t: Table<NodeKey, KnownNode>, i: int, d: int, k: int, id: Seq<char>, v: RefView) -> bool {
    &&& 0 <= i < t.entries().len()
    &&& t.entries()[i].1.state matches NodeState::Ready(c) && {
        &&& 0 <= d < c.devices@.len()
        &&& 0 <= k < c.devices@[d].receivers@.len()
        &&& c.devices@[d].receivers@[k].pairing matches Pairing::Resolved(r) && r.id@ == id
        &&& v == (
            t.entries()[i].1.key.key(),
            c.node.core.label@,
            c.devices@[d].device.core.label@,
            c.devices@[d].receivers@[k].receiver.core.id@,
            c.devices@[d].receivers@[k].receiver.core.label@,
        )
    }
}

/// A Sender lists exactly its takers: once the graph is resolved, a
/// Sender's `taken_by` holds every Receiver resolved to a Sender with its
/// identifier, and nothing else.
pub proof fn law_taken_by_is_exactly_the_takers(
    new: Table<NodeKey, KnownNode>,
    old: Table<NodeKey, KnownNode>,
    j: int,
    cj: NodeContents,
    e: int,
    s: int,
    v: RefView,
)
    requires
        graph_resolved(new, old),
        0 <= j < new.entries().len(),
        new.entries()[j].1.state matches NodeState::Ready(c) && *c == cj,
        0 <= e < cj.devices@.len(),
        0 <= s < cj.devices@[e].senders@.len(),
    ensures
        refs_view(cj.devices@[e].senders@[s].taken_by@).contains(v) <==> exists|i: int, d: int, k: int|
            #[trigger] taker_at(new, i, d, k, cj.devices@[e].senders@[s].sender.core.id@, v),
{
    let id = cj.devices@[e].senders@[s].sender.core.id@;
    let index = sender_index(old.entries());
    let takers = all_takers(old.entries(), index);
    let nj = new.entries()[j];
    let oj = old.entries()[j];
    let mj = choose|m: KnownNode| node_paired(m, oj.1, index) && node_taken(nj.1, m, takers);
    let mcj = *(mj.state->Ready_0);
    assert(device_taken(cj.devices@[e], mcj.devices@[e], takers));
    assert(sender_taken(cj.devices@[e].senders@[s], mcj.devices@[e].senders@[s], takers));
    if exists|i: int, d: int, k: int| #[trigger] taker_at(new, i, d, k, id, v) {
        let (i, d, k) = choose|i: int, d: int, k: int| #[trigger] taker_at(new, i, d, k, id, v);
        let ci = *(new.entries()[i].1.state->Ready_0);
        law_pairing_shows_on_both_ends(new, old, i, ci, d, k, j, cj, e, s);
    }
    if refs_view(cj.devices@[e].senders@[s].taken_by@).contains(v) {
        assert(takers_of(takers, id).contains(v));
        let fl = takers.filter(taker_for(id));
        let q = choose|m: int| 0 <= m < takers_of(takers, id).len() && takers_of(takers, id)[m] == v;
        assert(fl[q].1 == v);
        takers.lemma_filter_pred(taker_for(id), q);
        assert(fl.contains(fl[q]));
        takers.lemma_filter_contains_rev(taker_for(id), fl[q]);
        let x = fl[q];
        let g = |t: (NodeKey, KnownNode)| node_takers(t.1, index);
        assert(takers == concat_all(old.entries().map_values(g)));
        let i = lemma_concat_member(old.entries().map_values(g), x);
        let oi = old.entries()[i];
        assert(old.entries().map_values(g)[i] == g(oi));
        let ni = new.entries()[i];
        let mi = choose|m: KnownNode| node_paired(m, oi.1, index) && node_taken(ni.1, m, takers);
        let oc = *(oi.1.state->Ready_0);
        let mc = *(mi.state->Ready_0);
        let ci = *(ni.1.state->Ready_0);
        let f = |dv: DeviceView| takers_in(oi.1.key.key(), oc.node.core.label@, dv.device.core.label@, dv.receivers@, index);
        assert(node_takers(oi.1, index) == concat_all(oc.devices@.map_values(f)));
        let d = lemma_concat_member(oc.devices@.map_values(f), x);
        assert(oc.devices@.map_values(f)[d] == f(oc.devices@[d]));
        let (k, w) = lemma_takers_in_member(
            oi.1.key.key(),
            oc.node.core.label@,
            oc.devices@[d].device.core.label@,
            oc.devices@[d].receivers@,
            index,
            x,
        );
        assert(device_taken(ci.devices@[d], mc.devices@[d], takers));
        assert(device_paired(mc.devices@[d], oc.devices@[d], index));
        assert(receiver_paired(mc.devices@[d].receivers@[k], oc.devices@[d].receivers@[k], index));
        assert(taker_at(new, i, d, k, id, v));
    }
}

/// Whether two Nodes' Receiver rows read alike to the pairing: the same
/// Devices, and each row finding the same outcome in the index.
pub open spec fn rows_read_alike(new: KnownNode, old: KnownNode, index: Seq<EntryView>) -> bool {
    match (new.state, old.state) {
        (NodeState::Ready(a), NodeState::Ready(b)) => {
            &&& a.devices@.len() == b.devices@.len()
            &&& forall|d: int|
                0 <= d < a.devices@.len() ==> (#[trigger] a.devices@[d]).receivers@.len()
                    == b.devices@[d].receivers@.len()
            &&& forall|d: int, k: int|
                0 <= d < a.devices@.len() && 0 <= k < a.devices@[d].receivers@.len() ==> row_outcome(
                    #[trigger] a.devices@[d].receivers@[k],
                    index,
                ) == row_outcome(b.devices@[d].receivers@[k], index)
        },
        (NodeState::Ready(_), _) => false,
        (_, NodeState::Ready(_)) => false,
        _ => true,
    }
}

proof fn lemma_takers_in_alike(
    key: Seq<int>,
    node_label: Seq<char>,
    device_label: Seq<char>,
    a: Seq<ReceiverView>,
    b: Seq<ReceiverView>,
    index: Seq<EntryView>,
)
    requires
        a.len() == b.len(),
        forall|k: int|
            0 <= k < a.len() ==> (#[trigger] a[k]).receiver == b[k].receiver && a[k].reception
                == b[k].reception && a[k].transport == b[k].transport,
    ensures
        takers_in(key, node_label, device_label, a, index) == takers_in(key, node_label, device_label, b, index),
    decreases a.len(),
{
    if a.len() > 0 {
        let (x, y) = (a.drop_last(), b.drop_last());
        assert forall|k: int| 0 <= k < x.len() implies (#[trigger] x[k]).receiver == y[k].receiver
            && x[k].reception == y[k].reception && x[k].transport == y[k].transport by {
            assert(x[k] == a[k] && y[k] == b[k]);
        }
        lemma_takers_in_alike(key, node_label, device_label, x, y, index);
        assert(a.last() == a[a.len() - 1]);
    }
}

/// A Node once paired and told its takers reads to the graph as it did
/// before: the same Senders in the index, the same takers, the same rows.
proof fn lemma_node_reads_alike(
    n: KnownNode,
    m: KnownNode,
    o: KnownNode,
    index: Seq<EntryView>,
    takers: Seq<TakerView>,
)
    requires
        node_paired(m, o, index),
        node_taken(n, m, takers),
    ensures
        node_entries(n) == node_entries(o),
        node_takers(n, index) == node_takers(o, index),
        rows_read_alike(n, o, index),
{
    match (n.state, m.state, o.state) {
        (NodeState::Ready(nc), NodeState::Ready(mc), NodeState::Ready(oc)) => {
            let key = o.key.key();
            let label = oc.node.core.label@;
            assert forall|d: int| 0 <= d < nc.devices@.len() implies device_entries(key, label, #[trigger] nc.devices@[d])
                == device_entries(key, label, oc.devices@[d]) by {
                assert(device_taken(nc.devices@[d], mc.devices@[d], takers));
                assert(device_paired(mc.devices@[d], oc.devices@[d], index));
                assert forall|s: int| 0 <= s < nc.devices@[d].senders@.len() implies (#[trigger] nc.devices@[d].senders@[s]).sender
                    == oc.devices@[d].senders@[s].sender && nc.devices@[d].senders@[s].transport
                    == oc.devices@[d].senders@[s].transport by {
                    assert(sender_taken(nc.devices@[d].senders@[s], mc.devices@[d].senders@[s], takers));
                }
                assert(device_entries(key, label, nc.devices@[d]) =~= device_entries(key, label, oc.devices@[d]));
            }
            let f = |dv: DeviceView| device_entries(key, label, dv);
            assert(nc.devices@.map_values(f) =~= oc.devices@.map_values(f));
            assert forall|d: int| 0 <= d < nc.devices@.len() implies takers_in(
                key,
                label,
                (#[trigger] nc.devices@[d]).device.core.label@,
                nc.devices@[d].receivers@,
                index,
            ) == takers_in(key, label, oc.devices@[d].device.core.label@, oc.devices@[d].receivers@, index) by {
                assert(device_taken(nc.devices@[d], mc.devices@[d], takers));
                assert(device_paired(mc.devices@[d], oc.devices@[d], index));
                assert forall|k: int| 0 <= k < nc.devices@[d].receivers@.len() implies (#[trigger] nc.devices@[d].receivers@[k]).receiver
                    == oc.devices@[d].receivers@[k].receiver && nc.devices@[d].receivers@[k].reception
                    == oc.devices@[d].receivers@[k].reception && nc.devices@[d].receivers@[k].transport
                    == oc.devices@[d].receivers@[k].transport by {
                    assert(receiver_paired(mc.devices@[d].receivers@[k], oc.devices@[d].receivers@[k], index));
                }
                lemma_takers_in_alike(
                    key,
                    label,
                    oc.devices@[d].device.core.label@,
                    nc.devices@[d].receivers@,
                    oc.devices@[d].receivers@,
                    index,
                );
            }
            let g = |dv: DeviceView| takers_in(key, label, dv.device.core.label@, dv.receivers@, index);
            assert(nc.devices@.map_values(g) =~= oc.devices@.map_values(g));
            assert forall|d: int, k: int|
                0 <= d < nc.devices@.len() && 0 <= k < nc.devices@[d].receivers@.len() implies row_outcome(
                #[trigger] nc.devices@[d].receivers@[k],
                index,
            ) == row_outcome(oc.devices@[d].receivers@[k], index) by {
                assert(device_taken(nc.devices@[d], mc.devices@[d], takers));
                assert(device_paired(mc.devices@[d], oc.devices@[d], index));
                assert(receiver_paired(mc.devices@[d].receivers@[k], oc.devices@[d].receivers@[k], index));
            }
            assert forall|d: int| 0 <= d < nc.devices@.len() implies (#[trigger] nc.devices@[d]).receivers@.len()
                == oc.devices@[d].receivers@.len() by {
                assert(device_taken(nc.devices@[d], mc.devices@[d], takers));
                assert(device_paired(mc.devices@[d], oc.devices@[d], index));
            }
        },
        _ => {},
    }
}

/// Resolving again finds the same: a graph once resolved offers a second
/// resolve the same index of Senders and the same takers as the first, and
/// every Receiver row finds the same outcome in it as it did the first time.
pub proof fn law_resolving_again_finds_the_same(
    resolved: Table<NodeKey, KnownNode>,
    old: Table<NodeKey, KnownNode>,
)
    requires
        graph_resolved(resolved, old),
    ensures
        sender_index(resolved.entries()) == sender_index(old.entries()),
        all_takers(resolved.entries(), sender_index(resolved.entries())) == all_takers(
            old.entries(),
            sender_index(old.entries()),
        ),
        forall|i: int|
            0 <= i < resolved.entries().len() ==> rows_read_alike(
                #[trigger] resolved.entries()[i].1,
                old.entries()[i].1,
                sender_index(old.entries()),
            ),
{
    let index = sender_index(old.entries());
    let takers = all_takers(old.entries(), index);
    assert forall|i: int| 0 <= i < resolved.entries().len() implies node_entries(#[trigger] resolved.entries()[i].1)
        == node_entries(old.entries()[i].1) && node_takers(resolved.entries()[i].1, index) == node_takers(
        old.entries()[i].1,
        index,
    ) && rows_read_alike(resolved.entries()[i].1, old.entries()[i].1, index) by {
        let n = resolved.entries()[i];
        let o = old.entries()[i];
        let m = choose|m: KnownNode| node_paired(m, o.1, index) && node_taken(n.1, m, takers);
        lemma_node_reads_alike(n.1, m, o.1, index, takers);
    }
    let f = |e: (NodeKey, KnownNode)| node_entries(e.1);
    assert(resolved.entries().map_values(f) =~= old.entries().map_values(f));
    let g = |e: (NodeKey, KnownNode)| node_takers(e.1, index);
    assert(resolved.entries().map_values(g) =~= old.entries().map_values(g));
}

/// What a pairing shows, as plain values.
pub open spec fn pairing_shown(p: Pairing) -> Outcome {
    match p {
        Pairing::Nothing => Outcome::Nothing,
        Pairing::Pending => Outcome::Pending,
        Pairing::Resolved(r) => Outcome::Resolved(ref_view(*r)),
        Pairing::UnknownSender { sender_id } => Outcome::UnknownSender(sender_id@),
        Pairing::Ambiguous { candidates } => Outcome::Ambiguous(refs_view(candidates@)),
        Pairing::Unmatched => Outcome::Unmatched,
    }
}

/// Whether two Sender rows show the same: the same Sender, state, media,
/// transport, and the same takers in the same order.
pub open spec fn sender_shown_alike(a: SenderView, b: SenderView) -> bool {
    &&& a.sender == b.sender
    &&& a.transmission == b.transmission
    &&& a.media == b.media
    &&& a.transport == b.transport
    &&& refs_view(a.taken_by@) == refs_view(b.taken_by@)
}

/// Whether two Receiver rows show the same: the same Receiver, state,
/// formats, transport, and the same pairing.
pub open spec fn receiver_shown_alike(a: ReceiverView, b: ReceiverView) -> bool {
    &&& a.receiver == b.receiver
    &&& a.reception == b.reception
    &&& a.accepts == b.accepts
    &&& a.transport == b.transport
    &&& pairing_shown(a.pairing) == pairing_shown(b.pairing)
}

/// Whether two Devices show the same, row for row.
pub open spec fn device_shown_alike(a: DeviceView, b: DeviceView) -> bool {
    &&& a.device == b.device
    &&& a.senders@.len() == b.senders@.len()
    &&& a.receivers@.len() == b.receivers@.len()
    &&& forall|s: int| 0 <= s < a.senders@.len() ==> sender_shown_alike(#[trigger] a.senders@[s], b.senders@[s])
    &&& forall|k: int| 0 <= k < a.receivers@.len() ==> receiver_shown_alike(#[trigger] a.receivers@[k], b.receivers@[k])
}

/// Whether two Nodes show the same, Device for Device.
pub open spec fn node_shown_alike(a: KnownNode, b: KnownNode) -> bool {
    &&& a.key == b.key
    &&& a.instances == b.instances
    &&& a.endpoints == b.endpoints
    &&& a.hostname == b.hostname
    &&& a.requires_authorization == b.requires_authorization
    &&& match (a.state, b.state) {
        (NodeState::Ready(x), NodeState::Ready(y)) => {
            &&& x.node == y.node
            &&& x.orphans == y.orphans
            &&& x.devices@.len() == y.devices@.len()
            &&& forall|d: int| 0 <= d < x.devices@.len() ==> device_shown_alike(#[trigger] x.devices@[d], y.devices@[d])
        },
        (NodeState::Ready(_), _) => false,
        (_, NodeState::Ready(_)) => false,
        (p, q) => p == q,
    }
}

/// References in key order are fixed, as views, by how often each occurs.
proof fn lemma_sorted_refs_unique(a: Seq<ResourceRef>, b: Seq<ResourceRef>)
    requires
        ordered_by_key(a),
        ordered_by_key(b),
        refs_view(a).to_multiset() == refs_view(b).to_multiset(),
    ensures
        refs_view(a) == refs_view(b),
    decreases a.len(),
{
    broadcast use vstd::seq_lib::group_to_multiset_ensures;

    vstd::seq_lib::to_multiset_len(refs_view(a));
    vstd::seq_lib::to_multiset_len(refs_view(b));
    if a.len() == 0 {
        assert(refs_view(a) =~= refs_view(b));
    } else {
        let n = a.len() - 1;
        let x = a[n];
        let y = b[n];
        let vx = ref_view(x);
        let vy = ref_view(y);
        assert(refs_view(a)[n] == vx);
        assert(refs_view(b)[n] == vy);
        assert(refs_view(b).to_multiset().count(vx) > 0);
        let j = choose|j: int| 0 <= j < refs_view(b).len() && refs_view(b)[j] == vx;
        assert(refs_view(b)[j] == ref_view(b[j]));
        ResourceRef::lemma_order(b[j], x);
        assert(b[j].key() == x.key());
        assert(!seq_lt(y.key(), x.key())) by {
            if j < n {
                assert(!seq_lt(b[n].key(), b[j].key()));
            } else {
                crate::base::order::lemma_lt_irreflexive(x.key());
            }
        }
        assert(refs_view(a).to_multiset().count(vy) > 0);
        let i = choose|i: int| 0 <= i < refs_view(a).len() && refs_view(a)[i] == vy;
        assert(refs_view(a)[i] == ref_view(a[i]));
        ResourceRef::lemma_order(a[i], y);
        assert(a[i].key() == y.key());
        assert(!seq_lt(x.key(), y.key())) by {
            if i < n {
                assert(!seq_lt(a[n].key(), a[i].key()));
            } else {
                crate::base::order::lemma_lt_irreflexive(y.key());
            }
        }
        if x.key() != y.key() {
            crate::base::order::lemma_lt_total(x.key(), y.key());
        }
        ResourceRef::lemma_order(x, y);
        assert(vx == vy);
        let a1 = a.drop_last();
        let b1 = b.drop_last();
        assert forall|p: int, q: int| 0 <= p < q < a1.len() implies !seq_lt(#[trigger] a1[q].key(), #[trigger] a1[p].key()) by {
            assert(a1[p] == a[p] && a1[q] == a[q]);
        }
        assert forall|p: int, q: int| 0 <= p < q < b1.len() implies !seq_lt(#[trigger] b1[q].key(), #[trigger] b1[p].key()) by {
            assert(b1[p] == b[p] && b1[q] == b[q]);
        }
        assert(refs_view(a) =~= refs_view(a1).push(vx));
        assert(refs_view(b) =~= refs_view(b1).push(vx));
        vstd::seq_lib::to_multiset_build(refs_view(a1), vx);
        vstd::seq_lib::to_multiset_build(refs_view(b1), vx);
        assert(refs_view(a1).to_multiset() =~= refs_view(a1).to_multiset().insert(vx).remove(vx));
        assert(refs_view(b1).to_multiset() =~= refs_view(b1).to_multiset().insert(vx).remove(vx));
        lemma_sorted_refs_unique(a1, b1);
    }
}

/// Two pairings that show the same outcome show the same plain values.
proof fn lemma_shown_alike(p: Pairing, q: Pairing, o: Outcome)
    requires
        pairing_shows(p, o),
        pairing_shows(q, o),
    ensures
        pairing_shown(p) == pairing_shown(q),
{
    match (p, q) {
        (Pairing::Ambiguous { candidates: a }, Pairing::Ambiguous { candidates: b }) => {
            lemma_sorted_refs_unique(a@, b@);
        },
        _ => {},
    }
}

/// Two Nodes, each paired and told its takers from the same index and the
/// same takers, from rows that read alike, show the same.
proof fn lemma_node_shown_alike(
    n2: KnownNode,
    m2: KnownNode,
    n1: KnownNode,
    m1: KnownNode,
    n0: KnownNode,
    index: Seq<EntryView>,
    takers: Seq<TakerView>,
)
    requires
        node_paired(m2, n1, index),
        node_taken(n2, m2, takers),
        node_paired(m1, n0, index),
        node_taken(n1, m1, takers),
        rows_read_alike(n1, n0, index),
    ensures
        node_shown_alike(n2, n1),
{
    match (n2.state, m2.state, n1.state, m1.state, n0.state) {
        (
            NodeState::Ready(c2),
            NodeState::Ready(cm2),
            NodeState::Ready(c1),
            NodeState::Ready(cm1),
            NodeState::Ready(c0),
        ) => {
            assert forall|d: int| 0 <= d < c2.devices@.len() implies device_shown_alike(
                #[trigger] c2.devices@[d],
                c1.devices@[d],
            ) by {
                let (d2, dm2, d1, dm1, d0) = (c2.devices@[d], cm2.devices@[d], c1.devices@[d], cm1.devices@[d], c0.devices@[d]);
                assert(device_taken(d2, dm2, takers));
                assert(device_paired(dm2, d1, index));
                assert(device_taken(d1, dm1, takers));
                assert(device_paired(dm1, d0, index));
                assert forall|s: int| 0 <= s < d2.senders@.len() implies sender_shown_alike(
                    #[trigger] d2.senders@[s],
                    d1.senders@[s],
                ) by {
                    assert(sender_taken(d2.senders@[s], dm2.senders@[s], takers));
                    assert(sender_taken(d1.senders@[s], dm1.senders@[s], takers));
                    lemma_sorted_refs_unique(d2.senders@[s].taken_by@, d1.senders@[s].taken_by@);
                }
                assert forall|k: int| 0 <= k < d2.receivers@.len() implies receiver_shown_alike(
                    #[trigger] d2.receivers@[k],
                    d1.receivers@[k],
                ) by {
                    assert(receiver_paired(dm2.receivers@[k], d1.receivers@[k], index));
                    assert(receiver_paired(dm1.receivers@[k], d0.receivers@[k], index));
                    assert(row_outcome(d1.receivers@[k], index) == row_outcome(d0.receivers@[k], index));
                    lemma_shown_alike(d2.receivers@[k].pairing, d1.receivers@[k].pairing, row_outcome(d0.receivers@[k], index));
                }
            }
        },
        _ => {},
    }
}

/// Resolving twice shows what resolving once showed: every Node, Device,
/// Sender and Receiver row the same, each Sender's takers the same in the
/// same order, and each Receiver's pairing the same.
pub proof fn law_resolving_twice_shows_the_same(
    n0: Table<NodeKey, KnownNode>,
    n1: Table<NodeKey, KnownNode>,
    n2: Table<NodeKey, KnownNode>,
)
    requires
        graph_resolved(n1, n0),
        graph_resolved(n2, n1),
    ensures
        n2.entries().len() == n1.entries().len(),
        forall|i: int|
            0 <= i < n2.entries().len() ==> (#[trigger] n2.entries()[i]).0 == n1.entries()[i].0
                && node_shown_alike(n2.entries()[i].1, n1.entries()[i].1),
{
    law_resolving_again_finds_the_same(n1, n0);
    let index = sender_index(n0.entries());
    let takers = all_takers(n0.entries(), index);
    assert forall|i: int| 0 <= i < n2.entries().len() implies (#[trigger] n2.entries()[i]).0 == n1.entries()[i].0
        && node_shown_alike(n2.entries()[i].1, n1.entries()[i].1) by {
        let e2 = n2.entries()[i];
        let e1 = n1.entries()[i];
        let e0 = n0.entries()[i];
        let m2 = choose|m: KnownNode| node_paired(m, e1.1, index) && node_taken(e2.1, m, takers);
        let m1 = choose|m: KnownNode| node_paired(m, e0.1, index) && node_taken(e1.1, m, takers);
        assert(rows_read_alike(e1.1, e0.1, index));
        lemma_node_shown_alike(e2.1, m2, e1.1, m1, e0.1, index, takers);
    }
}

} // verus!
