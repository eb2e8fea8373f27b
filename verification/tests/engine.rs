//! What the engine decides, driven step by step with no network and no clock.

use std::collections::BTreeMap;
use std::time::Duration;

use jackfield::discovery::advert::{Advertisement, DiscoveryEvent};
use jackfield::discovery::counters::Collection;
use jackfield::discovery::endpoint::IpAddress;
use jackfield::discovery::txt::TxtRecords;
use jackfield::engine::{
    advertised_versions, apply_command, apply_done, apply_event, observe, publish, queue_due_transports,
    take_work, transport_due, transport_floor, Command, Done, EngineConfig, Pending, Work, FETCH_CONCURRENCY,
};
use jackfield::identity::NodeKey;
use jackfield::inventory::Inventory;
use jackfield::nmos::connection::Transmission;
use jackfield::nmos::device::{Control, Device};
use jackfield::nmos::node::{Node, NodeApi};
use jackfield::nmos::node_api::ResourceTree;
use jackfield::nmos::resource::{ResourceCore, ResourceId, Version};
use jackfield::nmos::sender::{Sender, SenderSubscription};
use jackfield::nmos::version::ApiVersion;

fn id(n: u16) -> ResourceId {
    ResourceId::parse(&format!("{n:08x}-0000-4000-8000-000000000000")).expect("a well-formed identifier")
}

fn resource_core(n: u16, label: &str) -> ResourceCore {
    ResourceCore {
        id: id(n),
        version: Version::parse("1441700172:0").expect("a version"),
        label: label.to_owned(),
        description: String::new(),
        tags: BTreeMap::new(),
    }
}

fn txt(pairs: &[(&str, &str)]) -> TxtRecords {
    let mut t = TxtRecords::new();
    for (k, v) in pairs {
        t.insert((*k).to_owned(), (*v).to_owned());
    }
    t
}

fn advertisement(instance: &str, last: u8, records: TxtRecords) -> Advertisement {
    Advertisement::try_from_parts(instance, None, &[IpAddress::V4(10, 77, 1, last)], 8090, &records).expect("usable")
}

fn one_sender_tree(node_n: u16, versions: &[&str]) -> ResourceTree {
    ResourceTree {
        version: ApiVersion::new(1, 3),
        node: Node {
            core: resource_core(node_n, "Converter"),
            href: "http://10.77.1.90:8090/".to_owned(),
            hostname: None,
            api: NodeApi { versions: versions.iter().map(|v| (*v).to_owned()).collect(), endpoints: Vec::new() },
            caps: BTreeMap::new(),
            services: Vec::new(),
            clocks: Vec::new(),
            interfaces: Vec::new(),
        },
        devices: vec![Device {
            core: resource_core(10, "SDI 1"),
            kind: "urn:x-nmos:device:generic".to_owned(),
            node_id: id(node_n),
            senders: Vec::new(),
            receivers: Vec::new(),
            controls: vec![Control {
                href: "http://10.77.1.90:8090/x-nmos/connection/v1.1/".to_owned(),
                kind: "urn:x-nmos:control:sr-ctrl/v1.1".to_owned(),
                authorization: false,
            }],
        }],
        senders: vec![Sender {
            core: resource_core(100, "SDI 1"),
            caps: BTreeMap::new(),
            flow_id: None,
            transport: "urn:x-nmos:transport:rtp.mcast".to_owned(),
            device_id: id(10),
            manifest_href: None,
            interface_bindings: Vec::new(),
            subscription: SenderSubscription::new(Transmission::Transmitting, None),
        }],
        receivers: Vec::new(),
        flows: Vec::new(),
        sources: Vec::new(),
    }
}

#[test]
fn the_defaults_read_eight_nodes_at_once_and_pass_transports_every_minute() {
    let config = EngineConfig::default();
    assert_eq!(config.concurrency, 8);
    assert_eq!(FETCH_CONCURRENCY, 8);
    assert_eq!(config.transport_floor, Duration::from_secs(60));
    assert_eq!(transport_floor(), Duration::from_secs(60));
}

#[test]
fn a_new_node_is_owed_a_full_read_at_its_address_and_at_every_version_spoken() {
    let mut inventory = Inventory::new();
    let mut pending = Pending::new();
    assert!(pending.is_empty());
    let key = observe(&mut inventory, &mut pending, &advertisement("converter", 90, TxtRecords::new()));
    assert!(!pending.is_empty());

    match take_work(&inventory, &mut pending) {
        Work::Tree { key: k, base, versions } => {
            assert_eq!(k, key);
            assert_eq!(base, "http://10.77.1.90:8090");
            let texts: Vec<String> = versions.iter().map(|v| v.to_string()).collect();
            assert_eq!(texts, ["v1.2", "v1.3"]);
        }
        other => panic!("expected a tree read, got {other:?}"),
    }
    assert!(pending.is_empty());
    assert!(matches!(take_work(&inventory, &mut pending), Work::Idle));
}

#[test]
fn a_read_tree_rekeys_the_node_and_owes_it_a_transport_pass() {
    let mut inventory = Inventory::new();
    let mut pending = Pending::new();
    let key = observe(&mut inventory, &mut pending, &advertisement("converter", 90, TxtRecords::new()));
    take_work(&inventory, &mut pending);

    apply_done(&mut inventory, &mut pending, Done::Tree(key.clone(), Ok(one_sender_tree(1, &["v1.3"]))));
    let settled = NodeKey::Settled(id(1));
    assert!(inventory.node(&settled).expect("re-keyed").state.is_ready());
    assert!(inventory.node(&key).is_none());
    assert_eq!(advertised_versions(&inventory, &settled), [ApiVersion::new(1, 3)]);

    match take_work(&inventory, &mut pending) {
        Work::Transports { senders, receivers } => {
            assert_eq!(senders.len(), 1);
            assert_eq!(senders[0].0, id(100));
            assert_eq!(senders[0].1, "http://10.77.1.90:8090");
            assert!(receivers.is_empty());
        }
        other => panic!("expected a transport pass, got {other:?}"),
    }
}

#[test]
fn a_failed_read_is_recorded_and_owes_nothing() {
    let mut inventory = Inventory::new();
    let mut pending = Pending::new();
    let key = observe(&mut inventory, &mut pending, &advertisement("converter", 90, TxtRecords::new()));
    take_work(&inventory, &mut pending);
    apply_done(&mut inventory, &mut pending, Done::Tree(key.clone(), Err("timed out".to_owned())));
    assert_eq!(inventory.node(&key).unwrap().state.failure(), Some("timed out"));
    assert!(pending.is_empty());
}

#[test]
fn only_the_collections_that_moved_are_owed_and_senders_owe_a_transport_pass() {
    let mut inventory = Inventory::new();
    let mut pending = Pending::new();
    let key = observe(&mut inventory, &mut pending, &advertisement("converter", 90, TxtRecords::new()));
    take_work(&inventory, &mut pending);
    let tree = one_sender_tree(1, &["v1.3"]);
    inventory.set_tree(&key, tree);

    apply_event(
        &mut inventory,
        &mut pending,
        DiscoveryEvent::Changed {
            advertisement: advertisement("converter", 90, txt(&[("ver_snd", "18")])),
            changed: vec![Collection::Flows, Collection::Senders],
        },
    );

    // Collections come before transports, each in order.
    match take_work(&inventory, &mut pending) {
        Work::Collection { collection, base, .. } => {
            assert_eq!(collection, Collection::Senders);
            assert_eq!(base, "http://10.77.1.90:8090");
        }
        other => panic!("expected a collection read, got {other:?}"),
    }
    match take_work(&inventory, &mut pending) {
        Work::Collection { collection, .. } => assert_eq!(collection, Collection::Flows),
        other => panic!("expected a collection read, got {other:?}"),
    }
    assert!(matches!(take_work(&inventory, &mut pending), Work::Transports { .. }));
    assert!(matches!(take_work(&inventory, &mut pending), Work::Idle));
}

#[test]
fn a_change_to_a_node_never_read_owes_a_full_read_instead() {
    let mut inventory = Inventory::new();
    let mut pending = Pending::new();
    apply_event(
        &mut inventory,
        &mut pending,
        DiscoveryEvent::Changed {
            advertisement: advertisement("converter", 90, TxtRecords::new()),
            changed: vec![Collection::Senders],
        },
    );
    assert!(matches!(take_work(&inventory, &mut pending), Work::Tree { .. }));
    assert!(matches!(take_work(&inventory, &mut pending), Work::Idle));
}

#[test]
fn a_full_read_covers_the_collections_owed_by_that_node() {
    let mut inventory = Inventory::new();
    let mut pending = Pending::new();
    let key = observe(&mut inventory, &mut pending, &advertisement("converter", 90, TxtRecords::new()));
    pending.owe_collection(key.clone(), Collection::Devices);
    pending.owe_collection(key.clone(), Collection::Sources);
    assert!(matches!(take_work(&inventory, &mut pending), Work::Tree { .. }));
    assert!(pending.is_empty());
}

#[test]
fn a_departure_removes_the_node() {
    let mut inventory = Inventory::new();
    let mut pending = Pending::new();
    apply_event(&mut inventory, &mut pending, DiscoveryEvent::Appeared(advertisement("converter", 90, TxtRecords::new())));
    assert_eq!(inventory.len(), 1);
    apply_event(&mut inventory, &mut pending, DiscoveryEvent::Departed { instance: "converter".to_owned() });
    assert!(inventory.is_empty());
}

#[test]
fn work_for_a_node_that_has_gone_is_passed_over() {
    let inventory = Inventory::new();
    let mut pending = Pending::new();
    pending.owe_tree(NodeKey::Settled(id(7)));
    assert!(matches!(take_work(&inventory, &mut pending), Work::Unreachable));
    pending.owe_transport(NodeKey::Settled(id(7)));
    assert!(matches!(take_work(&inventory, &mut pending), Work::Unreachable));
    assert!(pending.is_empty());
}

#[test]
fn commands_owe_reads_and_stop_ends_the_engine() {
    let mut inventory = Inventory::new();
    let mut pending = Pending::new();
    inventory.observe(&advertisement("a", 90, TxtRecords::new()));
    inventory.observe(&advertisement("b", 91, TxtRecords::new()));

    assert!(apply_command(&inventory, &mut pending, Command::RefreshAll));
    assert!(matches!(take_work(&inventory, &mut pending), Work::Tree { .. }));
    assert!(matches!(take_work(&inventory, &mut pending), Work::Tree { .. }));
    assert!(matches!(take_work(&inventory, &mut pending), Work::Idle));

    assert!(apply_command(&inventory, &mut pending, Command::Refresh(NodeKey::Provisional("a".to_owned()))));
    assert!(!pending.is_empty());
    assert!(!apply_command(&inventory, &mut pending, Command::Stop));
}

#[test]
fn a_transport_pass_is_due_when_never_run_or_run_a_floor_ago() {
    let floor = Duration::from_secs(60);
    assert!(transport_due(None, floor));
    assert!(transport_due(Some(Duration::from_secs(60)), floor));
    assert!(transport_due(Some(Duration::from_secs(61)), floor));
    assert!(!transport_due(Some(Duration::from_millis(59_999)), floor));
}

#[test]
fn only_nodes_that_have_been_read_are_owed_a_due_transport_pass() {
    let mut inventory = Inventory::new();
    let mut pending = Pending::new();
    let loading = inventory.observe(&advertisement("loading", 90, TxtRecords::new()));
    let ready = inventory.observe(&advertisement("ready", 91, TxtRecords::new()));
    inventory.set_tree(&ready, one_sender_tree(2, &["v1.3"]));

    queue_due_transports(&inventory, &mut pending, &vec![loading, ready]);
    assert!(matches!(take_work(&inventory, &mut pending), Work::Transports { .. }));
    assert!(pending.is_empty());
}

#[test]
fn each_snapshot_has_the_next_generation_and_the_count_wraps() {
    let mut inventory = Inventory::new();
    assert_eq!(publish(&mut inventory, 0), 1);
    assert_eq!(publish(&mut inventory, 41), 42);
    assert_eq!(publish(&mut inventory, u64::MAX), 0);
}
