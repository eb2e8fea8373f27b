//! Turning a Node's flat resource lists into the tree a reader browses.
//!
//! Two references are followed here. A Sender and a Receiver belong to a
//! Device, which is what everything is grouped by; and a Sender carries a
//! Flow, whose media type is the only thing that tells two identically
//! labelled Senders apart. A reference that points at nothing is reported as
//! unresolved — never dropped, and never allowed to fail the whole Node.

use vstd::prelude::*;

use crate::base::dup::{all_same, duplicate_slice, Duplicate};
use crate::base::table::{Keyed, Table};
use crate::inventory::view::{
    addresses_view, DeviceView, Media, NodeContents, Orphan, OrphanKind, Pairing, ReceiverView,
    SenderView, Transport,
};
use crate::nmos::connection_api::{ReceiverLeg, ReceiverTransport, SenderLeg, SenderTransport, StreamAddress};
use crate::nmos::device::Device;
use crate::nmos::flow::Flow;
use crate::nmos::node_api::ResourceTree;
use crate::nmos::receiver::Receiver;
use crate::nmos::resource::ResourceId;
use crate::nmos::sender::Sender;

verus! {

broadcast use vstd::std_specs::vec::group_vec_axioms;

/// What the transport pass said of each Sender, by identifier.
pub type SenderTransports = Table<ResourceId, Result<SenderTransport, String>>;

/// What the transport pass said of each Receiver, by identifier.
pub type ReceiverTransports = Table<ResourceId, Result<ReceiverTransport, String>>;

/// What is held for a resource, if anything.
pub open spec fn held<T>(t: Table<ResourceId, T>, id: ResourceId) -> Option<T> {
    if t@.contains_key(id.key()) {
        Some(t@[id.key()])
    } else {
        None
    }
}

/// Where a Sender's legs send, leg by leg, skipping those that cannot say.
pub open spec fn destinations(legs: Seq<SenderLeg>) -> Seq<(Seq<char>, u16)>
    decreases legs.len(),
{
    if legs.len() == 0 {
        Seq::empty()
    } else {
        let rest = destinations(legs.drop_last());
        let l = legs.last();
        if l.spec_has_destination() {
            rest.push((l.destination_ip->0@, l.destination_port->0))
        } else {
            rest
        }
    }
}

/// Which streams a Receiver's legs take, leg by leg, skipping those that
/// cannot say.
pub open spec fn stream_addresses(legs: Seq<ReceiverLeg>) -> Seq<(Seq<char>, u16)>
    decreases legs.len(),
{
    if legs.len() == 0 {
        Seq::empty()
    } else {
        let rest = stream_addresses(legs.drop_last());
        let l = legs.last();
        if l.spec_has_stream() {
            rest.push((l.spec_stream_address(), l.destination_port->0))
        } else {
            rest
        }
    }
}

/// What a Sender's transport shows, given what the transport pass holds for
/// it: pending until the pass has run, the reason when it failed, and the
/// destinations otherwise.
pub open spec fn sender_transport_is(h: Option<Result<SenderTransport, String>>, t: Transport) -> bool {
    match h {
        None => t is Pending,
        Some(Err(reason)) => t matches Transport::Unavailable { reason: x } && x@ == reason@,
        Some(Ok(tr)) => t matches Transport::Known { streams } && addresses_view(streams@)
            == destinations(tr.legs@),
    }
}

/// What a Receiver's transport shows, given what the transport pass holds
/// for it.
pub open spec fn receiver_transport_is(h: Option<Result<ReceiverTransport, String>>, t: Transport) -> bool {
    match h {
        None => t is Pending,
        Some(Err(reason)) => t matches Transport::Unavailable { reason: x } && x@ == reason@,
        Some(Ok(tr)) => t matches Transport::Known { streams } && addresses_view(streams@)
            == stream_addresses(tr.legs@),
    }
}

/// Where a Sender's legs send.
pub fn sender_streams(legs: &Vec<SenderLeg>) -> (r: Vec<StreamAddress>)
    ensures
        addresses_view(r@) == destinations(legs@),
{
    let mut r: Vec<StreamAddress> = Vec::new();
    let mut i: usize = 0;
    while i < legs.len()
        invariant
            i <= legs@.len(),
            addresses_view(r@) == destinations(legs@.take(i as int)),
        decreases legs@.len() - i,
    {
        assert(legs@.take(i + 1).drop_last() =~= legs@.take(i as int));
        assert(legs@.take(i + 1).last() == legs@[i as int]);
        let ghost before = r@;
        match legs[i].destination() {
            Some(s) => {
                r.push(s);
                assert(addresses_view(r@) =~= addresses_view(before).push((s.address@, s.port)));
            },
            None => {},
        }
        i = i + 1;
    }
    assert(legs@.take(legs@.len() as int) =~= legs@);
    r
}

/// Which streams a Receiver's legs take.
pub fn receiver_streams(legs: &Vec<ReceiverLeg>) -> (r: Vec<StreamAddress>)
    ensures
        addresses_view(r@) == stream_addresses(legs@),
{
    let mut r: Vec<StreamAddress> = Vec::new();
    let mut i: usize = 0;
    while i < legs.len()
        invariant
            i <= legs@.len(),
            addresses_view(r@) == stream_addresses(legs@.take(i as int)),
        decreases legs@.len() - i,
    {
        assert(legs@.take(i + 1).drop_last() =~= legs@.take(i as int));
        assert(legs@.take(i + 1).last() == legs@[i as int]);
        let ghost before = r@;
        match legs[i].stream() {
            Some(s) => {
                r.push(s);
                assert(addresses_view(r@) =~= addresses_view(before).push((s.address@, s.port)));
            },
            None => {},
        }
        i = i + 1;
    }
    assert(legs@.take(legs@.len() as int) =~= legs@);
    r
}

/// What a Sender's transport shows.
pub fn sender_transport(h: Option<&Result<SenderTransport, String>>) -> (t: Transport)
    ensures
        sender_transport_is(
            match h {
                Some(x) => Some(*x),
                None => None,
            },
            t,
        ),
{
    match h {
        None => Transport::Pending,
        Some(Err(reason)) => Transport::Unavailable { reason: reason.clone() },
        Some(Ok(transport)) => Transport::Known { streams: sender_streams(&transport.legs) },
    }
}

/// What a Receiver's transport shows.
pub fn receiver_transport(h: Option<&Result<ReceiverTransport, String>>) -> (t: Transport)
    ensures
        receiver_transport_is(
            match h {
                Some(x) => Some(*x),
                None => None,
            },
            t,
        ),
{
    match h {
        None => Transport::Pending,
        Some(Err(reason)) => Transport::Unavailable { reason: reason.clone() },
        Some(Ok(transport)) => Transport::Known { streams: receiver_streams(&transport.legs) },
    }
}

/// The index of the first Device with an identifier, or `-1` when none has it.
pub open spec fn device_index(devices: Seq<Device>, id: Seq<char>) -> int {
    if exists|i: int| 0 <= i < devices.len() && #[trigger] devices[i].core.id@ == id {
        choose|i: int|
            0 <= i < devices.len() && devices[i].core.id@ == id && forall|j: int|
                0 <= j < i ==> #[trigger] devices[j].core.id@ != id
    } else {
        -1
    }
}

/// The index of the first Device with an identifier.
pub fn find_device(devices: &Vec<Device>, id: &ResourceId) -> (r: Option<usize>)
    ensures
        match r {
            Some(i) => i == device_index(devices@, id@) && i < devices@.len(),
            None => device_index(devices@, id@) == -1,
        },
{
    let mut i: usize = 0;
    while i < devices.len()
        invariant
            i <= devices@.len(),
            forall|j: int| 0 <= j < i ==> #[trigger] devices@[j].core.id@ != id@,
        decreases devices@.len() - i,
    {
        if devices[i].core.id.same(id) {
            let ghost f = device_index(devices@, id@);
            assert(f == i) by {
                assert(devices@[i as int].core.id@ == id@);
                if f < i {
                } else if f > i {
                }
            }
            return Some(i);
        }
        i = i + 1;
    }
    None
}

/// The index of the last Flow with an identifier, or `-1` when none has it.
pub open spec fn flow_index(flows: Seq<Flow>, id: Seq<char>) -> int {
    if exists|i: int| 0 <= i < flows.len() && #[trigger] flows[i].spec_core().core.id@ == id {
        choose|i: int|
            0 <= i < flows.len() && flows[i].spec_core().core.id@ == id && forall|j: int|
                i < j < flows.len() ==> #[trigger] flows[j].spec_core().core.id@ != id
    } else {
        -1
    }
}

/// The index of the last Flow with an identifier.
pub fn find_flow(flows: &Vec<Flow>, id: &ResourceId) -> (r: Option<usize>)
    ensures
        match r {
            Some(i) => i == flow_index(flows@, id@) && i < flows@.len(),
            None => flow_index(flows@, id@) == -1,
        },
{
    let mut i: usize = flows.len();
    while i > 0
        invariant
            i <= flows@.len(),
            forall|j: int| i <= j < flows@.len() ==> #[trigger] flows@[j].spec_core().core.id@ != id@,
        decreases i,
    {
        let k = i - 1;
        if flows[k].id().same(id) {
            let ghost f = flow_index(flows@, id@);
            assert(f == k) by {
                assert(flows@[k as int].spec_core().core.id@ == id@);
                if f < k {
                } else if f > k {
                }
            }
            return Some(k);
        }
        i = k;
    }
    None
}

/// What a Sender carries, given the Flows its Node returned: none when it
/// names no Flow; the last Flow with the identifier it names; or the
/// identifier itself, when no Flow has it.
pub open spec fn media_is(flow_id: Option<ResourceId>, flows: Seq<Flow>, m: Media) -> bool {
    match flow_id {
        None => m is NoFlow,
        Some(id) => {
            let i = flow_index(flows, id@);
            if i == -1 {
                m matches Media::Unresolved { flow_id: f } && f@ == id@
            } else {
                m matches Media::Known { media_type, format } && media_type@
                    == flows[i].spec_media_type()@ && format == flows[i].spec_format()
            }
        },
    }
}

/// What a Sender carries.
pub fn media_of(flow_id: &Option<ResourceId>, flows: &Vec<Flow>) -> (m: Media)
    ensures
        media_is(*flow_id, flows@, m),
{
    match flow_id {
        None => Media::NoFlow,
        Some(id) => match find_flow(flows, id) {
            Some(i) => Media::Known {
                media_type: flows[i].media_type().copy(),
                format: flows[i].format(),
            },
            None => Media::Unresolved { flow_id: id.copy() },
        },
    }
}

/// Whether a Sender's row is what its Node says of it: a copy of the Sender,
/// its transmission, its media, and its transport as far as the transport
/// pass has got — with nobody yet known to take it.
pub open spec fn sender_view_is(
    v: SenderView,
    s: Sender,
    flows: Seq<Flow>,
    st: SenderTransports,
) -> bool {
    &&& v.sender.same(&s)
    &&& v.transmission == s.subscription.spec_transmission()
    &&& media_is(s.flow_id, flows, v.media)
    &&& sender_transport_is(held(st, s.core.id), v.transport)
    &&& v.taken_by@.len() == 0
}

/// Whether a Receiver's row is what its Node says of it, its pairing still
/// to be worked out.
pub open spec fn receiver_view_is(v: ReceiverView, r: Receiver, rt: ReceiverTransports) -> bool {
    &&& v.receiver.same(&r)
    &&& v.reception == r.subscription.spec_reception()
    &&& all_same(v.accepts@, r.caps.spec_caps().media_types@)
    &&& receiver_transport_is(held(rt, r.core.id), v.transport)
    &&& v.pairing is Pending
}

/// A Sender's row.
pub fn sender_view(sender: &Sender, flows: &Vec<Flow>, st: &SenderTransports) -> (v: SenderView)
    ensures
        sender_view_is(v, *sender, flows@, *st),
{
    let h = st.get(&sender.core.id);
    SenderView {
        sender: sender.duplicate(),
        transmission: sender.subscription.transmission(),
        media: media_of(&sender.flow_id, flows),
        transport: sender_transport(h),
        taken_by: Vec::new(),
    }
}

/// A Receiver's row.
pub fn receiver_view(receiver: &Receiver, rt: &ReceiverTransports) -> (v: ReceiverView)
    ensures
        receiver_view_is(v, *receiver, *rt),
{
    let h = rt.get(&receiver.core.id);
    let accepts = duplicate_slice(receiver.caps.media_types());
    ReceiverView {
        receiver: receiver.duplicate(),
        reception: receiver.subscription.reception(),
        accepts,
        transport: receiver_transport(h),
        pairing: Pairing::Pending,
    }
}

/// The Senders of a tree whose first matching Device is at `d` (`-1`: none
/// matches), in the order the tree lists them.
pub open spec fn senders_of(tree: ResourceTree, d: int) -> Seq<Sender> {
    tree.senders@.filter(|s: Sender| device_index(tree.devices@, s.device_id@) == d)
}

/// The Receivers of a tree whose first matching Device is at `d` (`-1`: none
/// matches), in the order the tree lists them.
pub open spec fn receivers_of(tree: ResourceTree, d: int) -> Seq<Receiver> {
    tree.receivers@.filter(|r: Receiver| device_index(tree.devices@, r.device_id@) == d)
}

/// A slot as an index, `-1` for none.
pub open spec fn slot_index(slot: Option<usize>) -> int {
    match slot {
        Some(i) => i as int,
        None => -1,
    }
}

/// The rows of the Senders of a tree whose Device is at a slot.
fn sender_rows(tree: &ResourceTree, slot: Option<usize>, st: &SenderTransports) -> (r: Vec<SenderView>)
    ensures
        r@.len() == senders_of(*tree, slot_index(slot)).len(),
        forall|k: int|
            0 <= k < r@.len() ==> sender_view_is(
                #[trigger] r@[k],
                senders_of(*tree, slot_index(slot))[k],
                tree.flows@,
                *st,
            ),
{
    let ghost d = slot_index(slot);
    let ghost pred = |s: Sender| device_index(tree.devices@, s.device_id@) == d;
    let mut r: Vec<SenderView> = Vec::new();
    let mut i: usize = 0;
    while i < tree.senders.len()
        invariant
            i <= tree.senders@.len(),
            d == slot_index(slot),
            pred == (|s: Sender| device_index(tree.devices@, s.device_id@) == d),
            r@.len() == tree.senders@.take(i as int).filter(pred).len(),
            forall|k: int|
                0 <= k < r@.len() ==> sender_view_is(
                    #[trigger] r@[k],
                    tree.senders@.take(i as int).filter(pred)[k],
                    tree.flows@,
                    *st,
                ),
        decreases tree.senders@.len() - i,
    {
        let s = &tree.senders[i];
        proof {
            tree.senders@.take(i as int).lemma_filter_push(*s, pred);
            assert(tree.senders@.take(i + 1) =~= tree.senders@.take(i as int).push(*s));
        }
        let here = find_device(&tree.devices, &s.device_id);
        let matches = match (here, slot) {
            (Some(a), Some(b)) => a == b,
            (None, None) => true,
            _ => false,
        };
        if matches {
            r.push(sender_view(s, &tree.flows, st));
        }
        i = i + 1;
    }
    assert(tree.senders@.take(tree.senders@.len() as int) =~= tree.senders@);
    r
}

/// The rows of the Receivers of a tree whose Device is at a slot.
fn receiver_rows(tree: &ResourceTree, slot: Option<usize>, rt: &ReceiverTransports) -> (r: Vec<ReceiverView>)
    ensures
        r@.len() == receivers_of(*tree, slot_index(slot)).len(),
        forall|k: int|
            0 <= k < r@.len() ==> receiver_view_is(
                #[trigger] r@[k],
                receivers_of(*tree, slot_index(slot))[k],
                *rt,
            ),
{
    let ghost d = slot_index(slot);
    let ghost pred = |x: Receiver| device_index(tree.devices@, x.device_id@) == d;
    let mut r: Vec<ReceiverView> = Vec::new();
    let mut i: usize = 0;
    while i < tree.receivers.len()
        invariant
            i <= tree.receivers@.len(),
            d == slot_index(slot),
            pred == (|x: Receiver| device_index(tree.devices@, x.device_id@) == d),
            r@.len() == tree.receivers@.take(i as int).filter(pred).len(),
            forall|k: int|
                0 <= k < r@.len() ==> receiver_view_is(
                    #[trigger] r@[k],
                    tree.receivers@.take(i as int).filter(pred)[k],
                    *rt,
                ),
        decreases tree.receivers@.len() - i,
    {
        let x = &tree.receivers[i];
        proof {
            tree.receivers@.take(i as int).lemma_filter_push(*x, pred);
            assert(tree.receivers@.take(i + 1) =~= tree.receivers@.take(i as int).push(*x));
        }
        let here = find_device(&tree.devices, &x.device_id);
        let matches = match (here, slot) {
            (Some(a), Some(b)) => a == b,
            (None, None) => true,
            _ => false,
        };
        if matches {
            r.push(receiver_view(x, rt));
        }
        i = i + 1;
    }
    assert(tree.receivers@.take(tree.receivers@.len() as int) =~= tree.receivers@);
    r
}

/// Whether an orphan names a resource.
pub open spec fn orphan_is(o: Orphan, id: ResourceId, label: String, device_id: ResourceId, kind: OrphanKind) -> bool {
    o.id@ == id@ && o.label@ == label@ && o.device_id@ == device_id@ && o.kind == kind
}

/// Whether a Node's contents are what its tree says: its own record, every
/// Device in order with the rows of the Senders and Receivers it owns, and
/// the Senders and then the Receivers whose Device is missing, as orphans.
pub open spec fn contents_are(
    c: NodeContents,
    tree: ResourceTree,
    st: SenderTransports,
    rt: ReceiverTransports,
) -> bool {
    &&& c.node.same(&tree.node)
    &&& c.devices@.len() == tree.devices@.len()
    &&& forall|d: int|
        0 <= d < c.devices@.len() ==> {
            let v = #[trigger] c.devices@[d];
            &&& v.device.same(&tree.devices@[d])
            &&& v.senders@.len() == senders_of(tree, d).len()
            &&& forall|k: int|
                0 <= k < v.senders@.len() ==> sender_view_is(
                    #[trigger] v.senders@[k],
                    senders_of(tree, d)[k],
                    tree.flows@,
                    st,
                )
            &&& v.receivers@.len() == receivers_of(tree, d).len()
            &&& forall|k: int|
                0 <= k < v.receivers@.len() ==> receiver_view_is(
                    #[trigger] v.receivers@[k],
                    receivers_of(tree, d)[k],
                    rt,
                )
        }
    &&& c.orphans@.len() == senders_of(tree, -1).len() + receivers_of(tree, -1).len()
    &&& forall|k: int|
        0 <= k < senders_of(tree, -1).len() ==> orphan_is(
            #[trigger] c.orphans@[k],
            senders_of(tree, -1)[k].core.id,
            senders_of(tree, -1)[k].core.label,
            senders_of(tree, -1)[k].device_id,
            OrphanKind::Sender,
        )
    &&& forall|k: int|
        0 <= k < receivers_of(tree, -1).len() ==> orphan_is(
            #[trigger] c.orphans@[senders_of(tree, -1).len() + k],
            receivers_of(tree, -1)[k].core.id,
            receivers_of(tree, -1)[k].core.label,
            receivers_of(tree, -1)[k].device_id,
            OrphanKind::Receiver,
        )
}

/// Build a Node's contents from what it returned.
pub fn contents(tree: &ResourceTree, st: &SenderTransports, rt: &ReceiverTransports) -> (c: NodeContents)
    ensures
        contents_are(c, *tree, *st, *rt),
{
    let mut devices: Vec<DeviceView> = Vec::new();
    let mut d: usize = 0;
    while d < tree.devices.len()
        invariant
            d <= tree.devices@.len(),
            devices@.len() == d,
            forall|e: int|
                0 <= e < d ==> {
                    let v = #[trigger] devices@[e];
                    &&& v.device.same(&tree.devices@[e])
                    &&& v.senders@.len() == senders_of(*tree, e).len()
                    &&& forall|k: int|
                        0 <= k < v.senders@.len() ==> sender_view_is(
                            #[trigger] v.senders@[k],
                            senders_of(*tree, e)[k],
                            tree.flows@,
                            *st,
                        )
                    &&& v.receivers@.len() == receivers_of(*tree, e).len()
                    &&& forall|k: int|
                        0 <= k < v.receivers@.len() ==> receiver_view_is(
                            #[trigger] v.receivers@[k],
                            receivers_of(*tree, e)[k],
                            *rt,
                        )
                },
        decreases tree.devices@.len() - d,
    {
        let senders = sender_rows(tree, Some(d), st);
        let receivers = receiver_rows(tree, Some(d), rt);
        devices.push(DeviceView { device: tree.devices[d].duplicate(), senders, receivers });
        d = d + 1;
    }
    let lost_senders = sender_rows(tree, None, st);
    let lost_receivers = receiver_rows(tree, None, rt);
    let mut orphans: Vec<Orphan> = Vec::new();
    let mut k: usize = 0;
    while k < lost_senders.len()
        invariant
            k <= lost_senders@.len(),
            lost_senders@.len() == senders_of(*tree, -1).len(),
            forall|j: int|
                0 <= j < lost_senders@.len() ==> sender_view_is(
                    #[trigger] lost_senders@[j],
                    senders_of(*tree, -1)[j],
                    tree.flows@,
                    *st,
                ),
            orphans@.len() == k,
            forall|j: int|
                0 <= j < k ==> orphan_is(
                    #[trigger] orphans@[j],
                    senders_of(*tree, -1)[j].core.id,
                    senders_of(*tree, -1)[j].core.label,
                    senders_of(*tree, -1)[j].device_id,
                    OrphanKind::Sender,
                ),
        decreases lost_senders@.len() - k,
    {
        let s = &lost_senders[k].sender;
        orphans.push(Orphan {
            id: s.core.id.copy(),
            label: s.core.label.clone(),
            device_id: s.device_id.copy(),
            kind: OrphanKind::Sender,
        });
        k = k + 1;
    }
    let ns = lost_senders.len();
    let mut k: usize = 0;
    while k < lost_receivers.len()
        invariant
            k <= lost_receivers@.len(),
            ns == senders_of(*tree, -1).len(),
            lost_receivers@.len() == receivers_of(*tree, -1).len(),
            forall|j: int|
                0 <= j < lost_receivers@.len() ==> receiver_view_is(
                    #[trigger] lost_receivers@[j],
                    receivers_of(*tree, -1)[j],
                    *rt,
                ),
            orphans@.len() == ns + k,
            forall|j: int|
                0 <= j < ns ==> orphan_is(
                    #[trigger] orphans@[j],
                    senders_of(*tree, -1)[j].core.id,
                    senders_of(*tree, -1)[j].core.label,
                    senders_of(*tree, -1)[j].device_id,
                    OrphanKind::Sender,
                ),
            forall|j: int|
                0 <= j < k ==> orphan_is(
                    #[trigger] orphans@[ns + j],
                    receivers_of(*tree, -1)[j].core.id,
                    receivers_of(*tree, -1)[j].core.label,
                    receivers_of(*tree, -1)[j].device_id,
                    OrphanKind::Receiver,
                ),
        decreases lost_receivers@.len() - k,
    {
        let x = &lost_receivers[k].receiver;
        orphans.push(Orphan {
            id: x.core.id.copy(),
            label: x.core.label.clone(),
            device_id: x.device_id.copy(),
            kind: OrphanKind::Receiver,
        });
        proof {
            assert(orphans@[ns + k as int] == orphans@[orphans@.len() - 1]);
        }
        k = k + 1;
    }
    NodeContents { node: tree.node.duplicate(), devices, orphans }
}

/// Whether a Sender's row is the old one with its transport brought up to
/// date.
pub open spec fn sender_refreshed(new: SenderView, old: SenderView, st: SenderTransports) -> bool {
    &&& new.sender == old.sender
    &&& new.transmission == old.transmission
    &&& new.media == old.media
    &&& new.taken_by == old.taken_by
    &&& sender_transport_is(held(st, old.sender.core.id), new.transport)
}

/// Whether a Receiver's row is the old one with its transport brought up to
/// date.
pub open spec fn receiver_refreshed(new: ReceiverView, old: ReceiverView, rt: ReceiverTransports) -> bool {
    &&& new.receiver == old.receiver
    &&& new.reception == old.reception
    &&& new.accepts == old.accepts
    &&& new.pairing == old.pairing
    &&& receiver_transport_is(held(rt, old.receiver.core.id), new.transport)
}

/// Whether a Device's rows are the old ones with their transports brought up
/// to date.
pub open spec fn device_refreshed(new: DeviceView, old: DeviceView, st: SenderTransports, rt: ReceiverTransports) -> bool {
    &&& new.device == old.device
    &&& new.senders@.len() == old.senders@.len()
    &&& forall|k: int| 0 <= k < new.senders@.len() ==> sender_refreshed(#[trigger] new.senders@[k], old.senders@[k], st)
    &&& new.receivers@.len() == old.receivers@.len()
    &&& forall|k: int| 0 <= k < new.receivers@.len() ==> receiver_refreshed(#[trigger] new.receivers@[k], old.receivers@[k], rt)
}

/// Whether contents are the old ones with every transport brought up to
/// date, and nothing else changed.
pub open spec fn transports_applied(new: NodeContents, old: NodeContents, st: SenderTransports, rt: ReceiverTransports) -> bool {
    &&& new.node == old.node
    &&& new.orphans == old.orphans
    &&& new.devices@.len() == old.devices@.len()
    &&& forall|d: int| 0 <= d < new.devices@.len() ==> device_refreshed(#[trigger] new.devices@[d], old.devices@[d], st, rt)
}

fn refresh_device(dv: DeviceView, st: &SenderTransports, rt: &ReceiverTransports) -> (r: DeviceView)
    ensures
        device_refreshed(r, dv, *st, *rt),
{
    let ghost old = dv;
    let DeviceView { device, senders, receivers } = dv;
    let mut rest = senders;
    let mut fresh: Vec<SenderView> = Vec::new();
    while rest.len() > 0
        invariant
            fresh@.len() + rest@.len() == old.senders@.len(),
            rest@ == old.senders@.skip(fresh@.len() as int),
            forall|k: int| 0 <= k < fresh@.len() ==> sender_refreshed(#[trigger] fresh@[k], old.senders@[k], *st),
        decreases rest@.len(),
    {
        let ghost at = fresh@.len() as int;
        let sv = rest.remove(0);
        assert(sv == old.senders@[at]);
        let SenderView { sender, transmission, media, transport: _, taken_by } = sv;
        let transport = sender_transport(st.get(&sender.core.id));
        fresh.push(SenderView { sender, transmission, media, transport, taken_by });
        assert(rest@ =~= old.senders@.skip(fresh@.len() as int));
    }
    let mut rest = receivers;
    let mut fresh_receivers: Vec<ReceiverView> = Vec::new();
    while rest.len() > 0
        invariant
            fresh_receivers@.len() + rest@.len() == old.receivers@.len(),
            rest@ == old.receivers@.skip(fresh_receivers@.len() as int),
            forall|k: int| 0 <= k < fresh_receivers@.len() ==> receiver_refreshed(#[trigger] fresh_receivers@[k], old.receivers@[k], *rt),
        decreases rest@.len(),
    {
        let ghost at = fresh_receivers@.len() as int;
        let rv = rest.remove(0);
        assert(rv == old.receivers@[at]);
        let ReceiverView { receiver, reception, accepts, transport: _, pairing } = rv;
        let transport = receiver_transport(rt.get(&receiver.core.id));
        fresh_receivers.push(ReceiverView { receiver, reception, accepts, transport, pairing });
        assert(rest@ =~= old.receivers@.skip(fresh_receivers@.len() as int));
    }
    DeviceView { device, senders: fresh, receivers: fresh_receivers }
}

/// Push transport results into contents that were built before they arrived.
pub fn apply_transports(contents: NodeContents, st: &SenderTransports, rt: &ReceiverTransports) -> (r: NodeContents)
    ensures
        transports_applied(r, contents, *st, *rt),
{
    let ghost old = contents;
    let NodeContents { node, devices, orphans } = contents;
    let mut rest = devices;
    let mut fresh: Vec<DeviceView> = Vec::new();
    while rest.len() > 0
        invariant
            fresh@.len() + rest@.len() == old.devices@.len(),
            rest@ == old.devices@.skip(fresh@.len() as int),
            forall|k: int| 0 <= k < fresh@.len() ==> device_refreshed(#[trigger] fresh@[k], old.devices@[k], *st, *rt),
        decreases rest@.len(),
    {
        let ghost at = fresh@.len() as int;
        let dv = rest.remove(0);
        assert(dv == old.devices@[at]);
        fresh.push(refresh_device(dv, st, rt));
        assert(rest@ =~= old.devices@.skip(fresh@.len() as int));
    }
    NodeContents { node, devices: fresh, orphans }
}

} // verus!
