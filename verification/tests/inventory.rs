//! The inventory: what the controller holds, and what it says about the gaps.

use std::collections::BTreeMap;

use jackfield::discovery::advert::Advertisement;
use jackfield::discovery::endpoint::IpAddress;
use jackfield::discovery::txt::TxtRecords;
use jackfield::identity::NodeKey;
use jackfield::inventory::view::{Media, NodeState, OrphanKind, Pairing, Transport};
use jackfield::inventory::Inventory;
use jackfield::nmos::connection::{Reception, Transmission};
use jackfield::nmos::connection_api::{ReceiverLeg, ReceiverTransport, SenderLeg, SenderTransport, StreamAddress};
use jackfield::nmos::device::{Control, Device};
use jackfield::nmos::flow::{Flow, FlowCore, InterlaceMode, VideoCore};
use jackfield::nmos::media::{MediaType, Rate};
use jackfield::nmos::node::{Node, NodeApi};
use jackfield::nmos::node_api::ResourceTree;
use jackfield::nmos::receiver::{MediaCaps, Receiver, ReceiverCaps, ReceiverSubscription};
use jackfield::nmos::resource::{ResourceCore, ResourceId, Version};
use jackfield::nmos::sender::{Sender, SenderSubscription};
use jackfield::nmos::source::{Source, SourceCore};
use jackfield::nmos::version::ApiVersion;

// --- fabricated resources ---------------------------------------------------

/// A well-formed identifier built from a small number.
fn id(n: u16) -> ResourceId {
    ResourceId::parse(&format!("{n:08x}-0000-4000-8000-000000000000")).expect("a well-formed identifier")
}

fn resource_core(n: u16, label: &str) -> ResourceCore {
    ResourceCore {
        id: id(n),
        version: Version::parse("1441700172:0").expect("a version"),
        label: label.to_owned(),
        description: String::new(),
        tags: BTreeMap::new(),
    }
}

fn advertisement(instance: &str, address: [u8; 4], port: u16) -> Advertisement {
    Advertisement::try_from_parts(
        instance,
        Some(format!("{instance}.local.")),
        &[IpAddress::V4(address[0], address[1], address[2], address[3])],
        port,
        &TxtRecords::new(),
    )
    .expect("usable")
}

fn node(n: u16, label: &str) -> Node {
    Node {
        core: resource_core(n, label),
        href: "http://10.77.1.90:8090/".to_owned(),
        hostname: Some("converter.local.".to_owned()),
        api: NodeApi { versions: vec!["v1.3".to_owned()], endpoints: Vec::new() },
        caps: BTreeMap::new(),
        services: Vec::new(),
        clocks: Vec::new(),
        interfaces: Vec::new(),
    }
}

fn device(n: u16, label: &str, node_id: u16) -> Device {
    Device {
        core: resource_core(n, label),
        kind: "urn:x-nmos:device:generic".to_owned(),
        node_id: id(node_id),
        senders: Vec::new(),
        receivers: Vec::new(),
        controls: vec![Control {
            href: "http://10.77.1.90:8090/x-nmos/connection/v1.1/".to_owned(),
            kind: "urn:x-nmos:control:sr-ctrl/v1.1".to_owned(),
            authorization: false,
        }],
    }
}

fn sender(n: u16, label: &str, device_id: u16, flow_id: Option<u16>) -> Sender {
    Sender {
        core: resource_core(n, label),
        caps: BTreeMap::new(),
        flow_id: flow_id.map(id),
        transport: "urn:x-nmos:transport:rtp.mcast".to_owned(),
        device_id: id(device_id),
        manifest_href: None,
        interface_bindings: Vec::new(),
        subscription: SenderSubscription::new(Transmission::Idle, None),
    }
}

fn transmitting(mut sender: Sender) -> Sender {
    sender.subscription = SenderSubscription::new(Transmission::Transmitting, None);
    sender
}

fn receiver(n: u16, label: &str, device_id: u16, media: &str) -> Receiver {
    Receiver {
        core: resource_core(n, label),
        device_id: id(device_id),
        transport: "urn:x-nmos:transport:rtp.mcast".to_owned(),
        interface_bindings: Vec::new(),
        subscription: ReceiverSubscription::new(Reception::Unsubscribed, None),
        caps: ReceiverCaps::Video {
            caps: MediaCaps { media_types: vec![MediaType::parse(media).expect("a media type")], event_types: Vec::new() },
        },
    }
}

fn subscribed(mut receiver: Receiver, sender_id: Option<u16>) -> Receiver {
    receiver.subscription = ReceiverSubscription::new(Reception::Subscribed, sender_id.map(id));
    receiver
}

fn flow(n: u16, label: &str, device_id: u16, source_id: u16, media: &str) -> Flow {
    let flow_core =
        FlowCore { core: resource_core(n, label), source_id: id(source_id), device_id: id(device_id), parents: Vec::new(), grain_rate: None };
    let media_type = MediaType::parse(media).expect("a media type");
    if media_type.as_str().starts_with("audio/") {
        Flow::AudioRaw {
            core: flow_core,
            sample_rate: Rate { numerator: 48_000, denominator: 1 },
            media_type,
            bit_depth: Some(24),
        }
    } else if media_type.as_str() == "video/smpte291" {
        Flow::SdiAncData { core: flow_core, media_type, did_sdid: Vec::new() }
    } else {
        Flow::VideoRaw {
            core: flow_core,
            video: VideoCore {
                frame_width: 1920,
                frame_height: 1080,
                interlace_mode: InterlaceMode::Progressive,
                colorspace: "BT709".to_owned(),
                transfer_characteristic: None,
            },
            media_type,
            components: Vec::new(),
        }
    }
}

fn source(n: u16, label: &str, device_id: u16) -> Source {
    Source::Video {
        core: SourceCore {
            core: resource_core(n, label),
            grain_rate: None,
            caps: BTreeMap::new(),
            device_id: id(device_id),
            parents: Vec::new(),
            clock_name: None,
        },
    }
}

fn tree(node_n: u16, label: &str) -> ResourceTree {
    ResourceTree {
        version: ApiVersion::new(1, 3),
        node: node(node_n, label),
        devices: Vec::new(),
        senders: Vec::new(),
        receivers: Vec::new(),
        flows: Vec::new(),
        sources: Vec::new(),
    }
}

/// The bench converter's shape: one Node, three Devices, three Senders and
/// three Receivers each, the Senders on a Device sharing one label.
fn bench_tree() -> ResourceTree {
    let mut t = tree(1, "Converter");
    let media = ["video/raw", "audio/L24", "video/smpte291"];
    for port in 0..3u16 {
        let device_n = 10 + port;
        let label = format!("SDI {}", port + 1);
        t.devices.push(device(device_n, &label, 1));
        for (index, media_type) in media.iter().enumerate() {
            let index = u16::try_from(index).expect("three fits in a u16");
            let sender_n = 100 + port * 10 + index;
            let flow_n = 200 + port * 10 + index;
            let source_n = 300 + port * 10 + index;
            let receiver_n = 400 + port * 10 + index;
            let one = sender(sender_n, &label, device_n, Some(flow_n));
            let one = if port == 0 { transmitting(one) } else { one };
            t.senders.push(one);
            t.flows.push(flow(flow_n, &label, device_n, source_n, media_type));
            t.sources.push(source(source_n, &label, device_n));
            t.receivers.push(receiver(receiver_n, &format!("{label}/{media_type}"), device_n, media_type));
        }
    }
    t
}

fn multicast(last: u8, port: u16) -> StreamAddress {
    StreamAddress { address: format!("239.255.0.{last}"), port }
}

fn sender_transport(streams: &[StreamAddress]) -> SenderTransport {
    SenderTransport {
        receiver_id: None,
        legs: streams
            .iter()
            .map(|stream| SenderLeg {
                destination_ip: Some(stream.address.clone()),
                destination_port: Some(stream.port),
                source_ip: None,
                rtp_enabled: true,
            })
            .collect(),
    }
}

fn receiver_transport(streams: &[StreamAddress]) -> ReceiverTransport {
    ReceiverTransport {
        sender_id: None,
        legs: streams
            .iter()
            .map(|stream| ReceiverLeg {
                multicast_ip: Some(stream.address.clone()),
                source_ip: None,
                destination_port: Some(stream.port),
                rtp_enabled: true,
            })
            .collect(),
        has_transport_file: true,
    }
}

// --- state transitions ------------------------------------------------------

#[test]
fn every_run_starts_empty() {
    let inventory = Inventory::new();
    assert!(inventory.is_empty());
    assert_eq!(inventory.nodes().len(), 0);
}

#[test]
fn a_discovered_node_is_listed_as_loading_rather_than_hidden() {
    let mut inventory = Inventory::new();
    let key = inventory.observe(&advertisement("converter", [10, 77, 1, 90], 8090));

    let node = inventory.node(&key).expect("the Node is held");
    assert!(matches!(node.state, NodeState::Loading));
    assert_eq!(node.endpoints.len(), 1);
    assert_eq!(inventory.len(), 1);
}

#[test]
fn a_node_that_fails_keeps_its_reason_and_does_not_poison_the_others() {
    let mut inventory = Inventory::new();
    let healthy = inventory.observe(&advertisement("healthy", [10, 77, 1, 90], 8090));
    let broken = inventory.observe(&advertisement("broken", [10, 77, 1, 91], 8090));

    inventory.set_tree(&healthy, bench_tree());
    inventory.set_failure(&broken, "connection refused".to_owned());

    assert!(inventory.node(&healthy).unwrap().state.is_ready());
    assert_eq!(inventory.node(&broken).unwrap().state.failure(), Some("connection refused"));
    assert_eq!(inventory.node(&healthy).unwrap().devices().len(), 3);
}

#[test]
fn a_failed_node_becomes_browsable_when_it_starts_answering() {
    let mut inventory = Inventory::new();
    let key = inventory.observe(&advertisement("converter", [10, 77, 1, 90], 8090));
    inventory.set_failure(&key, "timed out".to_owned());
    inventory.set_tree(&key, bench_tree());

    assert!(inventory.node(&key).unwrap().state.is_ready());
    assert_eq!(inventory.node(&key).unwrap().state.failure(), None);
}

#[test]
fn a_node_surviving_on_its_second_endpoint_is_not_reported_as_failed() {
    let mut inventory = Inventory::new();
    inventory.observe(&advertisement("media-1", [10, 77, 1, 90], 8090));
    inventory.observe(&advertisement("media-2", [10, 78, 1, 90], 8090));
    inventory.identify("media-1", &id(1));
    let key = inventory.identify("media-2", &id(1));
    inventory.set_tree(&key, bench_tree());

    inventory.depart("media-1");

    let node = inventory.node(&key).expect("still there");
    assert!(node.state.is_ready(), "losing one route is not losing the box");
    assert_eq!(inventory.len(), 1);
}

#[test]
fn each_new_route_adds_one_node_and_each_last_departure_removes_one() {
    let mut inventory = Inventory::new();
    let first = inventory.observe(&advertisement("converter", [10, 77, 1, 90], 8090));
    assert_eq!(inventory.len(), 1);
    let again = inventory.observe(&advertisement("converter", [10, 77, 1, 90], 8090));
    assert_eq!(again, first);
    assert_eq!(inventory.len(), 1);
    inventory.observe(&advertisement("gateway", [10, 77, 1, 91], 8090));
    assert_eq!(inventory.len(), 2);
    inventory.set_failure(&first, "timed out".to_owned());
    assert_eq!(inventory.len(), 2);
    inventory.depart("gateway");
    assert_eq!(inventory.len(), 1);
    inventory.depart("converter");
    assert_eq!(inventory.len(), 0);
}

#[test]
fn a_late_identification_after_a_departure_adds_no_row() {
    let mut inventory = Inventory::new();
    inventory.observe(&advertisement("converter", [10, 77, 1, 90], 8090));
    inventory.depart("converter");
    let key = inventory.identify("converter", &id(1));
    assert!(inventory.node(&key).is_none());
    assert_eq!(inventory.len(), 0);
    inventory.depart("converter");
    assert_eq!(inventory.len(), 0);
}

#[test]
fn departing_the_last_route_removes_the_node() {
    let mut inventory = Inventory::new();
    inventory.observe(&advertisement("converter", [10, 77, 1, 90], 8090));
    inventory.depart("converter");
    assert!(inventory.is_empty());
}

#[test]
fn a_multi_homed_node_occupies_one_row_with_both_endpoints() {
    let mut inventory = Inventory::new();
    inventory.observe(&advertisement("media-1", [10, 77, 1, 90], 8090));
    inventory.observe(&advertisement("media-2", [10, 78, 1, 90], 8090));
    assert_eq!(inventory.len(), 2, "before identification they cannot be told apart");

    inventory.identify("media-1", &id(1));
    let key = inventory.identify("media-2", &id(1));

    assert_eq!(inventory.len(), 1);
    assert_eq!(inventory.node(&key).unwrap().endpoints.len(), 2);
    assert!(matches!(key, NodeKey::Settled(_)));
}

#[test]
fn a_refresh_replaces_the_tree_so_a_removed_sender_disappears() {
    let mut inventory = Inventory::new();
    let key = inventory.observe(&advertisement("converter", [10, 77, 1, 90], 8090));

    let mut two = tree(1, "Converter");
    two.devices.push(device(10, "SDI 1", 1));
    two.senders.push(sender(100, "SDI 1", 10, None));
    two.senders.push(sender(101, "SDI 1", 10, None));
    inventory.set_tree(&key, two);
    assert_eq!(inventory.node(&key).unwrap().devices()[0].senders.len(), 2);

    let mut one = tree(1, "Converter");
    one.devices.push(device(10, "SDI 1", 1));
    one.senders.push(sender(100, "SDI 1", 10, None));
    inventory.set_tree(&key, one);
    assert_eq!(inventory.node(&key).unwrap().devices()[0].senders.len(), 1);
}

#[test]
fn a_tree_for_a_node_not_known_is_ignored() {
    let mut inventory = Inventory::new();
    inventory.set_tree(&NodeKey::Settled(id(1)), bench_tree());
    assert!(inventory.is_empty());
    assert!(!inventory.has_tree(&NodeKey::Settled(id(1))));
}

// --- naming -----------------------------------------------------------------

#[test]
fn a_node_without_a_label_falls_back_to_its_hostname_then_its_address() {
    let mut inventory = Inventory::new();
    let key = inventory.observe(&advertisement("converter", [10, 77, 1, 90], 8090));
    assert_eq!(inventory.node(&key).unwrap().display_name(), "converter.local");

    let mut unlabelled = tree(1, "");
    unlabelled.devices.push(device(10, "SDI 1", 1));
    inventory.set_tree(&key, unlabelled);
    assert_eq!(inventory.node(&key).unwrap().display_name(), "converter.local");

    inventory.set_tree(&key, tree(1, "Converter"));
    assert_eq!(inventory.node(&key).unwrap().display_name(), "Converter");
}

#[test]
fn a_hostname_of_only_dots_falls_back_to_the_address() {
    let mut inventory = Inventory::new();
    let dotted =
        Advertisement::try_from_parts("converter", Some(".".to_owned()), &[IpAddress::V4(10, 77, 1, 90)], 8090, &TxtRecords::new())
            .expect("usable");
    let key = inventory.observe(&dotted);
    let name = inventory.node(&key).unwrap().display_name();
    assert!(!name.is_empty(), "a blank row cannot be pointed at or reported");
    assert_eq!(name, "http://10.77.1.90:8090");
}

#[test]
fn a_node_with_neither_label_nor_hostname_falls_back_to_its_address() {
    let mut inventory = Inventory::new();
    let nameless =
        Advertisement::try_from_parts("converter", None, &[IpAddress::V4(10, 77, 1, 90)], 8090, &TxtRecords::new())
            .expect("usable");
    let key = inventory.observe(&nameless);
    inventory.set_tree(&key, tree(1, ""));

    assert_eq!(
        inventory.node(&key).unwrap().display_name(),
        "http://10.77.1.90:8090",
        "a blank row cannot be pointed at or reported"
    );
}

// --- reference resolution ---------------------------------------------------

#[test]
fn senders_and_receivers_are_attributed_to_the_device_that_owns_them() {
    let mut inventory = Inventory::new();
    let key = inventory.observe(&advertisement("converter", [10, 77, 1, 90], 8090));
    inventory.set_tree(&key, bench_tree());

    let devices = inventory.node(&key).unwrap().devices();
    assert_eq!(devices.len(), 3, "one Device per physical port");
    for device in devices {
        assert_eq!(device.senders.len(), 3);
        assert_eq!(device.receivers.len(), 3);
        for sender in &device.senders {
            assert_eq!(sender.sender.device_id, device.device.core.id);
        }
    }
}

#[test]
fn a_devices_media_types_tell_its_identically_labelled_senders_apart() {
    let mut inventory = Inventory::new();
    let key = inventory.observe(&advertisement("converter", [10, 77, 1, 90], 8090));
    inventory.set_tree(&key, bench_tree());

    let device = &inventory.node(&key).unwrap().devices()[0];
    let labels: Vec<&str> = device.senders.iter().map(|s| s.sender.core.label.as_str()).collect();
    assert_eq!(labels, ["SDI 1", "SDI 1", "SDI 1"]);

    let media: Vec<String> = device.senders.iter().map(|s| s.media.to_string()).collect();
    assert_eq!(media, ["video/raw", "audio/L24", "video/smpte291"]);
}

#[test]
fn a_dangling_flow_reference_is_unresolved_and_the_rest_stays_usable() {
    let mut inventory = Inventory::new();
    let key = inventory.observe(&advertisement("converter", [10, 77, 1, 90], 8090));

    let mut t = tree(1, "Converter");
    t.devices.push(device(10, "SDI 1", 1));
    t.senders.push(sender(100, "SDI 1", 10, Some(999)));
    t.senders.push(sender(101, "SDI 1", 10, Some(200)));
    t.flows.push(flow(200, "SDI 1", 10, 300, "video/raw"));
    t.sources.push(source(300, "SDI 1", 10));
    inventory.set_tree(&key, t);

    let device = &inventory.node(&key).unwrap().devices()[0];
    assert!(matches!(device.senders[0].media, Media::Unresolved { .. }));
    assert_eq!(device.senders[0].media.to_string(), "unknown media");
    assert!(matches!(device.senders[1].media, Media::Known { .. }));
}

#[test]
fn a_sender_with_no_flow_says_so_rather_than_showing_a_blank() {
    let mut inventory = Inventory::new();
    let key = inventory.observe(&advertisement("converter", [10, 77, 1, 90], 8090));
    let mut t = tree(1, "Converter");
    t.devices.push(device(10, "SDI 1", 1));
    t.senders.push(sender(100, "SDI 1", 10, None));
    inventory.set_tree(&key, t);

    let device = &inventory.node(&key).unwrap().devices()[0];
    assert!(matches!(device.senders[0].media, Media::NoFlow));
    assert_eq!(device.senders[0].media.to_string(), "no flow");
}

#[test]
fn a_resource_whose_device_is_missing_is_reported_not_dropped() {
    let mut inventory = Inventory::new();
    let key = inventory.observe(&advertisement("converter", [10, 77, 1, 90], 8090));
    let mut t = tree(1, "Converter");
    t.devices.push(device(10, "SDI 1", 1));
    t.senders.push(sender(100, "orphan", 999, None));
    inventory.set_tree(&key, t);

    let NodeState::Ready(contents) = &inventory.node(&key).unwrap().state else {
        panic!("expected a ready Node");
    };
    assert_eq!(contents.orphans.len(), 1);
    assert_eq!(contents.orphans[0].kind, OrphanKind::Sender);
    assert!(contents.devices[0].senders.is_empty());
}

#[test]
fn a_device_with_nothing_on_it_is_still_shown() {
    let mut inventory = Inventory::new();
    let key = inventory.observe(&advertisement("converter", [10, 77, 1, 90], 8090));
    let mut t = tree(1, "Converter");
    t.devices.push(device(10, "SDI 1", 1));
    inventory.set_tree(&key, t);

    let devices = inventory.node(&key).unwrap().devices();
    assert_eq!(devices.len(), 1);
    assert!(devices[0].is_empty());
}

#[test]
fn inventory_a_node_exposing_no_devices_is_not_an_error() {
    let mut inventory = Inventory::new();
    let key = inventory.observe(&advertisement("converter", [10, 77, 1, 90], 8090));
    inventory.set_tree(&key, tree(1, "Converter"));

    assert!(inventory.node(&key).unwrap().state.is_ready());
    assert!(inventory.node(&key).unwrap().devices().is_empty());
}

// --- connection state -------------------------------------------------------

#[test]
fn connection_state_is_available_from_the_resource_tree_alone() {
    let mut inventory = Inventory::new();
    let key = inventory.observe(&advertisement("converter", [10, 77, 1, 90], 8090));
    inventory.set_tree(&key, bench_tree());

    let devices = inventory.node(&key).unwrap().devices();
    for sender in &devices[0].senders {
        assert_eq!(sender.transmission, Transmission::Transmitting);
        assert!(sender.transport.is_pending(), "no Connection API has been read");
    }
    for sender in &devices[1].senders {
        assert_eq!(sender.transmission, Transmission::Idle);
    }
    for receiver in &devices[0].receivers {
        assert_eq!(receiver.reception, Reception::Unsubscribed);
    }
}

#[test]
fn a_transmitting_sender_whose_transport_is_unread_is_pending_not_absent() {
    let mut inventory = Inventory::new();
    let key = inventory.observe(&advertisement("converter", [10, 77, 1, 90], 8090));
    inventory.set_tree(&key, bench_tree());
    inventory.resolve_connections();

    let sender = &inventory.node(&key).unwrap().devices()[0].senders[0];
    assert_eq!(sender.transmission, Transmission::Transmitting);
    assert!(sender.transport.is_pending());
    assert!(!sender.is_transmitting_into_the_void(), "a Sender whose takers are unknown is not a Sender with none");
}

// --- the connection graph ---------------------------------------------------

fn source_and_sink(inventory: &mut Inventory, receivers: Vec<Receiver>) -> (NodeKey, NodeKey) {
    let sending = inventory.observe(&advertisement("source-box", [10, 77, 1, 90], 8090));
    let taking = inventory.observe(&advertisement("sink-box", [10, 77, 1, 91], 8090));
    let mut s = tree(1, "Source");
    s.devices.push(device(10, "SDI 1", 1));
    s.senders.push(transmitting(sender(100, "SDI 1", 10, None)));
    inventory.set_tree(&sending, s);
    let mut t = tree(2, "Sink");
    t.devices.push(device(20, "SDI 1", 2));
    t.receivers = receivers;
    inventory.set_tree(&taking, t);
    (sending, taking)
}

#[test]
fn a_receiver_naming_its_sender_on_another_node_pairs_on_both_ends() {
    let mut inventory = Inventory::new();
    let (sending, taking) =
        source_and_sink(&mut inventory, vec![subscribed(receiver(400, "SDI 1", 20, "video/raw"), Some(100))]);
    inventory.resolve_connections();

    let receiver = &inventory.node(&taking).unwrap().devices()[0].receivers[0];
    match &receiver.pairing {
        Pairing::Resolved(sender) => {
            assert_eq!(sender.node_label, "Source");
            assert_eq!(sender.id, id(100));
        }
        other => panic!("expected a resolved pairing, got {other:?}"),
    }

    let sender = &inventory.node(&sending).unwrap().devices()[0].senders[0];
    assert_eq!(sender.taken_by.len(), 1);
    assert_eq!(sender.taken_by[0].node_label, "Sink");
}

#[test]
fn a_receiver_naming_nobody_is_paired_by_its_stream_address() {
    let mut inventory = Inventory::new();
    let (sending, taking) =
        source_and_sink(&mut inventory, vec![subscribed(receiver(400, "SDI 1", 20, "video/raw"), None)]);

    let stream = multicast(190, 5004);
    inventory.set_sender_transport(&id(100), Ok(sender_transport(std::slice::from_ref(&stream))));
    inventory.set_receiver_transport(&id(400), Ok(receiver_transport(&[stream])));
    inventory.resolve_connections();

    let receiver = &inventory.node(&taking).unwrap().devices()[0].receivers[0];
    assert!(matches!(receiver.pairing, Pairing::Resolved(_)), "got {:?}", receiver.pairing);

    let sender = &inventory.node(&sending).unwrap().devices()[0].senders[0];
    assert_eq!(sender.taken_by.len(), 1);
}

#[test]
fn one_sender_feeding_three_receivers_across_two_nodes_carries_all_three() {
    let mut inventory = Inventory::new();
    let sending = inventory.observe(&advertisement("source-box", [10, 77, 1, 90], 8090));
    let first = inventory.observe(&advertisement("sink-a", [10, 77, 1, 91], 8090));
    let second = inventory.observe(&advertisement("sink-b", [10, 77, 1, 92], 8090));

    let mut s = tree(1, "Source");
    s.devices.push(device(10, "SDI 1", 1));
    s.senders.push(transmitting(sender(100, "SDI 1", 10, None)));
    inventory.set_tree(&sending, s);
    let mut a = tree(2, "Sink A");
    a.devices.push(device(20, "SDI 1", 2));
    a.receivers.push(subscribed(receiver(400, "one", 20, "video/raw"), Some(100)));
    a.receivers.push(subscribed(receiver(401, "two", 20, "video/raw"), Some(100)));
    inventory.set_tree(&first, a);
    let mut b = tree(3, "Sink B");
    b.devices.push(device(30, "SDI 1", 3));
    b.receivers.push(subscribed(receiver(402, "three", 30, "video/raw"), Some(100)));
    inventory.set_tree(&second, b);
    inventory.resolve_connections();

    let sender = &inventory.node(&sending).unwrap().devices()[0].senders[0];
    assert_eq!(sender.taken_by.len(), 3);
    let nodes: Vec<&str> = sender.taken_by.iter().map(|r| r.node_label.as_str()).collect();
    assert!(nodes.contains(&"Sink A") && nodes.contains(&"Sink B"));
}

#[test]
fn a_receiver_listed_twice_is_counted_twice_and_a_second_resolve_changes_nothing() {
    let mut inventory = Inventory::new();
    let sending = inventory.observe(&advertisement("source-box", [10, 77, 1, 90], 8090));
    let sink = inventory.observe(&advertisement("sink", [10, 77, 1, 91], 8090));

    let mut s = tree(1, "Source");
    s.devices.push(device(10, "SDI 1", 1));
    s.senders.push(transmitting(sender(100, "SDI 1", 10, None)));
    inventory.set_tree(&sending, s);
    let mut a = tree(2, "Sink");
    a.devices.push(device(20, "SDI 1", 2));
    a.receivers.push(subscribed(receiver(400, "a", 20, "video/raw"), Some(100)));
    a.receivers.push(subscribed(receiver(400, "a", 20, "video/raw"), Some(100)));
    a.receivers.push(subscribed(receiver(401, "b", 20, "video/raw"), Some(100)));
    inventory.set_tree(&sink, a);
    inventory.resolve_connections();

    let labels = |inventory: &Inventory| -> Vec<String> {
        inventory.node(&sending).unwrap().devices()[0].senders[0].taken_by.iter().map(|r| r.label.clone()).collect()
    };
    assert_eq!(labels(&inventory), ["a", "a", "b"]);
    inventory.resolve_connections();
    assert_eq!(labels(&inventory), ["a", "a", "b"]);
}

#[test]
fn a_sender_transmitting_into_the_void_says_so() {
    let mut inventory = Inventory::new();
    let key = inventory.observe(&advertisement("source-box", [10, 77, 1, 90], 8090));
    let mut s = tree(1, "Source");
    s.devices.push(device(10, "SDI 1", 1));
    s.senders.push(transmitting(sender(100, "SDI 1", 10, None)));
    inventory.set_tree(&key, s);
    inventory.set_sender_transport(&id(100), Ok(sender_transport(&[multicast(190, 5004)])));
    inventory.resolve_connections();

    let sender = &inventory.node(&key).unwrap().devices()[0].senders[0];
    assert!(sender.taken_by.is_empty());
    assert!(sender.is_transmitting_into_the_void());
    assert_eq!(sender.transmission, Transmission::Transmitting);
}

// --- unresolvable pairings --------------------------------------------------

fn sink_only(inventory: &mut Inventory, receiver: Receiver) -> NodeKey {
    let key = inventory.observe(&advertisement("sink-box", [10, 77, 1, 91], 8090));
    let mut t = tree(2, "Sink");
    t.devices.push(device(20, "SDI 1", 2));
    t.receivers.push(receiver);
    inventory.set_tree(&key, t);
    key
}

#[test]
fn a_receiver_naming_an_undiscovered_sender_stays_subscribed() {
    let mut inventory = Inventory::new();
    let key = sink_only(&mut inventory, subscribed(receiver(400, "SDI 1", 20, "video/raw"), Some(999)));
    inventory.resolve_connections();

    let receiver = &inventory.node(&key).unwrap().devices()[0].receivers[0];
    assert_eq!(receiver.reception, Reception::Subscribed, "never Unsubscribed");
    match &receiver.pairing {
        Pairing::UnknownSender { sender_id } => assert_eq!(*sender_id, id(999)),
        other => panic!("expected an unknown Sender, got {other:?}"),
    }
}

#[test]
fn discovering_the_missing_node_resolves_the_edge_on_both_ends() {
    let mut inventory = Inventory::new();
    let taking = sink_only(&mut inventory, subscribed(receiver(400, "SDI 1", 20, "video/raw"), Some(100)));
    inventory.resolve_connections();
    assert!(matches!(
        inventory.node(&taking).unwrap().devices()[0].receivers[0].pairing,
        Pairing::UnknownSender { .. }
    ));

    let sending = inventory.observe(&advertisement("source-box", [10, 77, 1, 90], 8090));
    let mut s = tree(1, "Source");
    s.devices.push(device(10, "SDI 1", 1));
    s.senders.push(transmitting(sender(100, "SDI 1", 10, None)));
    inventory.set_tree(&sending, s);
    inventory.resolve_connections();

    assert!(matches!(inventory.node(&taking).unwrap().devices()[0].receivers[0].pairing, Pairing::Resolved(_)));
    assert_eq!(inventory.node(&sending).unwrap().devices()[0].senders[0].taken_by.len(), 1);
}

#[test]
fn two_senders_in_one_multicast_group_are_reported_as_ambiguous() {
    let mut inventory = Inventory::new();
    let sending = inventory.observe(&advertisement("source-box", [10, 77, 1, 90], 8090));
    let mut s = tree(1, "Source");
    s.devices.push(device(10, "SDI 1", 1));
    s.senders.push(transmitting(sender(100, "first", 10, None)));
    s.senders.push(transmitting(sender(101, "second", 10, None)));
    inventory.set_tree(&sending, s);
    let taking = sink_only(&mut inventory, subscribed(receiver(400, "SDI 1", 20, "video/raw"), None));

    let stream = multicast(190, 5004);
    inventory.set_sender_transport(&id(100), Ok(sender_transport(std::slice::from_ref(&stream))));
    inventory.set_sender_transport(&id(101), Ok(sender_transport(std::slice::from_ref(&stream))));
    inventory.set_receiver_transport(&id(400), Ok(receiver_transport(&[stream])));
    inventory.resolve_connections();

    let receiver = &inventory.node(&taking).unwrap().devices()[0].receivers[0];
    match &receiver.pairing {
        Pairing::Ambiguous { candidates } => {
            assert_eq!(candidates.len(), 2);
            let labels: Vec<&str> = candidates.iter().map(|c| c.label.as_str()).collect();
            assert!(labels.contains(&"first") && labels.contains(&"second"));
        }
        other => panic!("expected an ambiguous pairing, got {other:?}"),
    }
    assert_eq!(receiver.reception, Reception::Subscribed);
}

#[test]
fn an_unsubscribed_receiver_has_no_pairing() {
    let mut inventory = Inventory::new();
    let key = sink_only(&mut inventory, receiver(400, "SDI 1", 20, "video/raw"));
    inventory.resolve_connections();

    let receiver = &inventory.node(&key).unwrap().devices()[0].receivers[0];
    assert!(matches!(receiver.pairing, Pairing::Nothing));
    assert_eq!(receiver.reception, Reception::Unsubscribed);
}

#[test]
fn a_subscribed_receiver_whose_transport_is_unread_is_pending_not_unmatched() {
    let mut inventory = Inventory::new();
    let key = sink_only(&mut inventory, subscribed(receiver(400, "SDI 1", 20, "video/raw"), None));
    inventory.resolve_connections();

    let receiver = &inventory.node(&key).unwrap().devices()[0].receivers[0];
    assert!(matches!(receiver.pairing, Pairing::Pending));
    assert_eq!(receiver.reception, Reception::Subscribed);
}

#[test]
fn a_receiver_whose_stream_matches_nothing_known_is_unmatched() {
    let mut inventory = Inventory::new();
    let key = sink_only(&mut inventory, subscribed(receiver(400, "SDI 1", 20, "video/raw"), None));
    inventory.set_receiver_transport(&id(400), Ok(receiver_transport(&[multicast(9, 5004)])));
    inventory.resolve_connections();

    let receiver = &inventory.node(&key).unwrap().devices()[0].receivers[0];
    assert!(matches!(receiver.pairing, Pairing::Unmatched));
    assert_eq!(receiver.reception, Reception::Subscribed);
}

#[test]
fn a_node_whose_connection_api_is_unreachable_keeps_its_state() {
    let mut inventory = Inventory::new();
    let key = inventory.observe(&advertisement("converter", [10, 77, 1, 90], 8090));
    inventory.set_tree(&key, bench_tree());
    inventory.set_sender_transport(&id(100), Err("connection refused".to_owned()));
    inventory.resolve_connections();

    let sender = &inventory.node(&key).unwrap().devices()[0].senders[0];
    assert_eq!(sender.transmission, Transmission::Transmitting, "state came from IS-04");
    assert!(matches!(sender.transport, Transport::Unavailable { .. }));
}

#[test]
fn transport_results_survive_a_tree_being_re_read() {
    let mut inventory = Inventory::new();
    let key = inventory.observe(&advertisement("converter", [10, 77, 1, 90], 8090));
    inventory.set_tree(&key, bench_tree());
    inventory.set_sender_transport(&id(100), Ok(sender_transport(&[multicast(190, 5004)])));

    inventory.set_tree(&key, bench_tree());

    let sender = &inventory.node(&key).unwrap().devices()[0].senders[0];
    assert_eq!(sender.transport.streams(), [multicast(190, 5004)]);
}

// --- what the transport pass asks -------------------------------------------

#[test]
fn a_resource_is_read_at_the_connection_api_of_its_own_device() {
    let mut inventory = Inventory::new();
    let key = inventory.observe(&advertisement("converter", [10, 77, 1, 90], 8090));
    let mut t = tree(1, "Converter");
    t.devices.push(device(10, "SDI 1", 1));
    let mut elsewhere = device(11, "SDI 2", 1);
    elsewhere.controls[0].href = "http://10.77.1.99:9000/x-nmos/connection/v1.1/".to_owned();
    t.devices.push(elsewhere);
    let mut bare = device(12, "SDI 3", 1);
    bare.controls.clear();
    t.devices.push(bare);
    t.senders.push(sender(100, "SDI 1", 10, None));
    t.senders.push(sender(110, "SDI 2", 11, None));
    t.senders.push(sender(120, "SDI 3", 12, None));
    inventory.set_tree(&key, t);

    assert_eq!(inventory.connection_base(&key, &id(100)).as_deref(), Some("http://10.77.1.90:8090"));
    assert_eq!(inventory.connection_base(&key, &id(110)).as_deref(), Some("http://10.77.1.99:9000"));
    assert_eq!(inventory.connection_base(&key, &id(120)), None);
    assert_eq!(inventory.connection_base(&key, &id(999)), None);

    let (senders, receivers) = inventory.resources_of(&key);
    assert_eq!(senders, [id(100), id(110), id(120)]);
    assert!(receivers.is_empty());
    let versions: Vec<String> = inventory.versions_of(&key).iter().map(|v| v.to_string()).collect();
    assert_eq!(versions, ["v1.3"]);
}

#[test]
fn a_copy_of_a_node_keeps_what_is_known_of_it() {
    let mut inventory = Inventory::new();
    let key = inventory.observe(&advertisement("converter", [10, 77, 1, 90], 8090));
    inventory.set_tree(&key, bench_tree());
    let node = inventory.node(&key).unwrap();
    let copy = node.duplicate();
    assert_eq!(copy.key, node.key);
    assert_eq!(copy.display_name(), node.display_name());
    assert_eq!(copy.endpoints.len(), 1);
    assert_eq!(copy.instances.len(), 1);
    assert_eq!(copy.hostname, node.hostname);
    assert_eq!(copy.devices().len(), 3);
}

#[test]
fn a_receiver_declares_the_media_types_it_accepts_and_its_format() {
    let r = receiver(400, "SDI 1", 20, "video/raw");
    assert_eq!(r.caps.media_types().len(), 1);
    assert_eq!(r.caps.media_types()[0].as_str(), "video/raw");
    assert_eq!(r.caps.format(), jackfield::nmos::media::Format::Video);
}

#[test]
fn a_devices_connection_api_is_found_among_its_controls() {
    let d = device(10, "SDI 1", 1);
    assert_eq!(
        d.control_href("urn:x-nmos:control:sr-ctrl"),
        Some("http://10.77.1.90:8090/x-nmos/connection/v1.1/")
    );
    assert_eq!(d.control_href("urn:x-nmos:control:manifest"), None);
}
