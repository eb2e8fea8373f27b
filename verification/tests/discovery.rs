//! Discovery, driven by fabricated advertisements: no network is involved.

use jackfield::discovery::advert::{Advertisement, DiscoveryEvent, Tracker};
use jackfield::discovery::counters::{Collection, VersionCounters};
use jackfield::discovery::endpoint::{Endpoint, IpAddress};
use jackfield::discovery::mdns::{instance_name, interpret, node_service_type_text, ServiceNotice};
use jackfield::discovery::txt::TxtRecords;
use jackfield::nmos::node::Protocol;

/// The TXT records the bench converter actually publishes.
fn bench_txt() -> TxtRecords {
    let mut txt = TxtRecords::new();
    for (k, v) in [
        ("api_proto", "http"),
        ("api_ver", "v1.0,v1.1,v1.2,v1.3"),
        ("api_auth", "false"),
        ("ver_slf", "3"),
        ("ver_dvc", "5"),
        ("ver_snd", "17"),
        ("ver_rcv", "9"),
        ("ver_flw", "4"),
        ("ver_src", "4"),
    ] {
        txt.insert(k.to_owned(), v.to_owned());
    }
    txt
}

fn advertisement(instance: &str, addresses: &[IpAddress], txt: TxtRecords) -> Advertisement {
    Advertisement::try_from_parts(instance, Some("converter.local.".to_owned()), addresses, 8090, &txt)
        .expect("these parts make a usable advertisement")
}

fn v4(a: u8, b: u8, c: u8, d: u8) -> IpAddress {
    IpAddress::V4(a, b, c, d)
}

fn fd00_1() -> IpAddress {
    IpAddress::V6(0xfd00, 0, 0, 0, 0, 0, 0, 1)
}

fn version_texts(advert: &Advertisement) -> Vec<String> {
    advert.versions.iter().map(|v| v.to_string()).collect()
}

// --- instance names ---------------------------------------------------------

#[test]
fn the_instance_is_taken_out_of_the_full_name() {
    let nmos = "_nmos-node._tcp.local.";
    assert_eq!(instance_name("converter._nmos-node._tcp.local.", nmos), "converter");
    // An instance name may contain dots of its own.
    assert_eq!(instance_name("a.b._nmos-node._tcp.local.", nmos), "a.b");
}

#[test]
fn the_service_type_comes_from_the_event_not_from_an_assumption() {
    assert_eq!(
        instance_name("fixture._jackfield-test._tcp.local.", "_jackfield-test._tcp.local."),
        "fixture"
    );
}

#[test]
fn a_full_name_of_another_shape_is_kept_whole() {
    let nmos = "_nmos-node._tcp.local.";
    assert_eq!(instance_name("something-else.local.", nmos), "something-else.local.");
    assert_eq!(instance_name("", nmos), "");
}

#[test]
fn a_service_type_written_with_a_leading_dot_still_matches() {
    assert_eq!(instance_name("converter._nmos-node._tcp.local.", "._nmos-node._tcp.local."), "converter");
    assert_eq!(node_service_type_text(), "_nmos-node._tcp.local.");
}

// --- the tracker -------------------------------------------------------------

#[test]
fn a_departure_for_something_never_seen_says_nothing() {
    let mut tracker = Tracker::default();
    assert!(tracker.withdraw("never-here").is_none());
}

#[test]
fn a_return_after_a_departure_is_a_fresh_appearance() {
    let mut tracker = Tracker::default();
    let advert = || {
        Advertisement::try_from_parts("c", None, &[v4(10, 77, 1, 90)], 8090, &TxtRecords::new()).expect("usable")
    };
    assert!(matches!(tracker.observe(advert()), Some(DiscoveryEvent::Appeared(_))));
    assert!(tracker.withdraw("c").is_some());
    assert!(matches!(tracker.observe(advert()), Some(DiscoveryEvent::Appeared(_))));
}

#[test]
fn re_advertising_unchanged_says_nothing() {
    let mut tracker = Tracker::new();
    let first = tracker.observe(advertisement("converter", &[v4(10, 77, 1, 90)], bench_txt()));
    assert!(matches!(first, Some(DiscoveryEvent::Appeared(_))));
    let again = tracker.observe(advertisement("converter", &[v4(10, 77, 1, 90)], bench_txt()));
    assert!(again.is_none(), "an unchanged re-advertisement must not wake the rest of the system");
    assert_eq!(tracker.known().len(), 1);
}

#[test]
fn a_counter_moving_reports_that_the_collection_changed() {
    let mut tracker = Tracker::new();
    tracker.observe(advertisement("converter", &[v4(10, 77, 1, 90)], bench_txt()));
    let mut moved = bench_txt();
    moved.insert("ver_snd".to_owned(), "18".to_owned());
    match tracker.observe(advertisement("converter", &[v4(10, 77, 1, 90)], moved)) {
        Some(DiscoveryEvent::Changed { advertisement, changed }) => {
            assert_eq!(changed, vec![Collection::Senders]);
            assert_eq!(advertisement.counters.get(Collection::Senders), Some(18));
        }
        other => panic!("expected a change, got {other:?}"),
    }
}

#[test]
fn a_goodbye_produces_a_departure_naming_the_instance() {
    let mut tracker = Tracker::new();
    tracker.observe(advertisement("converter", &[v4(10, 77, 1, 90)], bench_txt()));
    match tracker.withdraw("converter") {
        Some(DiscoveryEvent::Departed { instance }) => assert_eq!(instance, "converter"),
        other => panic!("expected a departure, got {other:?}"),
    }
    assert!(tracker.known().is_empty());
}

#[test]
fn a_resolved_service_is_interpreted_as_an_appearance_and_a_removal_as_a_departure() {
    let mut tracker = Tracker::new();
    let resolved = ServiceNotice::Resolved {
        fullname: "converter._nmos-node._tcp.local.".to_owned(),
        service_type: "_nmos-node._tcp.local.".to_owned(),
        host: "converter.local.".to_owned(),
        addresses: vec![v4(10, 77, 1, 90)],
        port: 8090,
        txt: bench_txt(),
    };
    match interpret(&mut tracker, resolved) {
        Some(DiscoveryEvent::Appeared(a)) => assert_eq!(a.instance, "converter"),
        other => panic!("expected an appearance, got {other:?}"),
    }
    let removed = ServiceNotice::Removed {
        fullname: "converter._nmos-node._tcp.local.".to_owned(),
        service_type: "_nmos-node._tcp.local.".to_owned(),
    };
    match interpret(&mut tracker, removed) {
        Some(DiscoveryEvent::Departed { instance }) => assert_eq!(instance, "converter"),
        other => panic!("expected a departure, got {other:?}"),
    }
}

#[test]
fn a_resolved_service_with_no_port_says_nothing() {
    let mut tracker = Tracker::new();
    let resolved = ServiceNotice::Resolved {
        fullname: "broken._nmos-node._tcp.local.".to_owned(),
        service_type: "_nmos-node._tcp.local.".to_owned(),
        host: String::new(),
        addresses: vec![],
        port: 0,
        txt: bench_txt(),
    };
    assert!(interpret(&mut tracker, resolved).is_none());
    assert!(tracker.known().is_empty());
}

// --- malformed and hostile --------------------------------------------------

#[test]
fn an_advertisement_with_no_address_is_ignored() {
    assert!(Advertisement::try_from_parts("converter", None, &[], 8090, &bench_txt()).is_none());
}

#[test]
fn an_advertisement_with_no_port_is_ignored() {
    assert!(Advertisement::try_from_parts("converter", None, &[v4(10, 77, 1, 90)], 0, &bench_txt()).is_none());
}

#[test]
fn an_advertisement_with_no_instance_name_is_ignored() {
    assert!(Advertisement::try_from_parts("", None, &[v4(10, 77, 1, 90)], 8090, &bench_txt()).is_none());
}

#[test]
fn absurd_txt_values_do_not_stop_discovery() {
    let hostile = [
        ("api_ver", "v".repeat(100_000)),
        ("api_ver", "v1.99999999999999999999999".to_owned()),
        ("api_proto", "\u{0}\u{1}\u{2}".to_owned()),
        ("api_auth", "maybe".to_owned()),
        ("ver_snd", "-1".to_owned()),
        ("ver_snd", "99999999999999999999999999".to_owned()),
        ("ver_snd", "seventeen".to_owned()),
    ];
    for (key, value) in hostile {
        let mut txt = bench_txt();
        txt.insert(key.to_owned(), value);
        let advert = advertisement("converter", &[v4(10, 77, 1, 90)], txt);
        assert_eq!(advert.instance, "converter");
        assert!(advert.endpoints.len() > 0);
    }
}

// --- TXT records ------------------------------------------------------------

#[test]
fn the_advertised_versions_are_read() {
    let advert = advertisement("converter", &[v4(10, 77, 1, 90)], bench_txt());
    assert_eq!(version_texts(&advert), ["v1.0", "v1.1", "v1.2", "v1.3"]);
}

#[test]
fn an_absent_api_proto_falls_back_to_the_specifications_default() {
    let mut txt = bench_txt();
    txt.remove("api_proto");
    let advert = advertisement("converter", &[v4(10, 77, 1, 90)], txt);
    assert_eq!(advert.endpoints.entry(0).0.protocol, Protocol::Http);
}

#[test]
fn an_https_node_is_addressed_over_https() {
    let mut txt = bench_txt();
    txt.insert("api_proto".to_owned(), "https".to_owned());
    let advert = advertisement("converter", &[v4(10, 77, 1, 90)], txt);
    assert_eq!(advert.endpoints.entry(0).0.protocol, Protocol::Https);
}

#[test]
fn a_node_requiring_authorization_is_marked() {
    let mut txt = bench_txt();
    txt.insert("api_auth".to_owned(), "true".to_owned());
    let advert = advertisement("converter", &[v4(10, 77, 1, 90)], txt);
    assert!(advert.requires_authorization);

    let default = advertisement("converter", &[v4(10, 77, 1, 90)], bench_txt());
    assert!(!default.requires_authorization);
}

#[test]
fn an_absent_api_ver_falls_back_to_the_specifications_default() {
    let mut txt = bench_txt();
    txt.remove("api_ver");
    let advert = advertisement("converter", &[v4(10, 77, 1, 90)], txt);
    assert_eq!(version_texts(&advert), ["v1.0"]);
}

#[test]
fn unparseable_versions_are_dropped_and_the_rest_kept() {
    let mut txt = bench_txt();
    txt.insert("api_ver".to_owned(), "v1.3,nonsense,,v1.2".to_owned());
    let advert = advertisement("converter", &[v4(10, 77, 1, 90)], txt);
    assert_eq!(version_texts(&advert), ["v1.2", "v1.3"]);
}

#[test]
fn versions_advertised_with_spaces_and_repeats_are_read_once_each() {
    let mut txt = bench_txt();
    txt.insert("api_ver".to_owned(), " v1.3 , v1.2,v1.3".to_owned());
    let advert = advertisement("converter", &[v4(10, 77, 1, 90)], txt);
    assert_eq!(version_texts(&advert), ["v1.2", "v1.3"]);
}

// --- version counters -------------------------------------------------------

#[test]
fn a_counter_set_is_comparable_against_an_empty_one() {
    let empty = VersionCounters::default();
    assert!(empty.changed_since(&empty).is_empty());
    assert!(empty.is_empty());
}

#[test]
fn every_counter_is_reported() {
    let advert = advertisement("converter", &[v4(10, 77, 1, 90)], bench_txt());
    assert_eq!(advert.counters.get(Collection::Node), Some(3));
    assert_eq!(advert.counters.get(Collection::Devices), Some(5));
    assert_eq!(advert.counters.get(Collection::Senders), Some(17));
    assert_eq!(advert.counters.get(Collection::Receivers), Some(9));
    assert_eq!(advert.counters.get(Collection::Flows), Some(4));
    assert_eq!(advert.counters.get(Collection::Sources), Some(4));
}

#[test]
fn an_absent_counter_is_absent_and_not_zero() {
    let advert = advertisement("converter", &[v4(10, 77, 1, 90)], TxtRecords::new());
    for collection in Collection::all() {
        assert_eq!(advert.counters.get(collection), None, "{collection:?}");
    }
    assert!(advert.counters.is_empty());
}

#[test]
fn a_counter_of_zero_is_a_value() {
    let mut txt = bench_txt();
    txt.insert("ver_snd".to_owned(), "0".to_owned());
    let advert = advertisement("converter", &[v4(10, 77, 1, 90)], txt);
    assert_eq!(advert.counters.get(Collection::Senders), Some(0));
}

#[test]
fn only_the_collections_whose_counters_moved_are_reported_as_changed() {
    let before = advertisement("converter", &[v4(10, 77, 1, 90)], bench_txt()).counters;
    let mut txt = bench_txt();
    txt.insert("ver_rcv".to_owned(), "10".to_owned());
    let after = advertisement("converter", &[v4(10, 77, 1, 90)], txt).counters;

    assert_eq!(after.changed_since(&before), vec![Collection::Receivers]);
    assert!(after.changed_since(&after).is_empty());
}

#[test]
fn a_counter_appearing_for_the_first_time_is_a_change() {
    let mut without = bench_txt();
    without.remove("ver_snd");
    let before = advertisement("c", &[v4(10, 77, 1, 90)], without).counters;
    let after = advertisement("c", &[v4(10, 77, 1, 90)], bench_txt()).counters;
    assert_eq!(after.changed_since(&before), vec![Collection::Senders]);
}

#[test]
fn a_node_publishing_no_counters_is_reported_as_wholly_changed() {
    let before = advertisement("c", &[v4(10, 77, 1, 90)], bench_txt()).counters;
    let after = advertisement("c", &[v4(10, 77, 1, 90)], TxtRecords::new()).counters;
    assert_eq!(after.changed_since(&before), Collection::all());
}

#[test]
fn every_collection_has_its_counter_key_and_path() {
    let keys: Vec<&str> = Collection::all().into_iter().map(|c| c.counter_key()).collect();
    assert_eq!(keys, ["ver_slf", "ver_dvc", "ver_snd", "ver_rcv", "ver_flw", "ver_src"]);
    let paths: Vec<&str> = Collection::all().into_iter().map(|c| c.path()).collect();
    assert_eq!(paths, ["self", "devices", "senders", "receivers", "flows", "sources"]);
}

// --- address families -------------------------------------------------------

#[test]
fn both_address_families_are_kept_and_ipv4_is_preferred() {
    let advert = advertisement("converter", &[fd00_1(), v4(10, 77, 1, 90)], bench_txt());
    assert_eq!(advert.endpoints.len(), 2);
    let preferred = advert.preferred_endpoint().expect("an endpoint");
    assert_eq!(preferred.address, v4(10, 77, 1, 90));
}

#[test]
fn an_ipv6_only_node_is_discovered_and_used() {
    let advert = advertisement("converter", &[fd00_1()], bench_txt());
    assert_eq!(advert.preferred_endpoint().expect("an endpoint").address, fd00_1());
}

#[test]
fn one_node_advertised_on_three_interfaces_has_one_endpoint() {
    let advert = advertisement("converter", &[v4(10, 77, 1, 90), v4(10, 77, 1, 90), v4(10, 77, 1, 90)], bench_txt());
    assert_eq!(advert.endpoints.len(), 1);
}

#[test]
fn an_endpoint_prints_as_a_url_an_operator_can_paste() {
    let endpoint = Endpoint { address: v4(10, 77, 1, 90), port: 8090, protocol: Protocol::Http };
    assert_eq!(endpoint.to_string(), "http://10.77.1.90:8090");

    let ipv6 = Endpoint { address: fd00_1(), port: 8090, protocol: Protocol::Https };
    assert_eq!(ipv6.to_string(), "https://[fd00::1]:8090");
}

#[test]
fn ipv6_addresses_print_in_their_shortest_form() {
    let cases = [
        (IpAddress::V6(0, 0, 0, 0, 0, 0, 0, 0), "[::]"),
        (IpAddress::V6(0, 0, 0, 0, 0, 0, 0, 1), "[::1]"),
        (IpAddress::V6(0x2001, 0xdb8, 0, 0, 1, 0, 0, 1), "[2001:db8::1:0:0:1]"),
        (IpAddress::V6(0x2001, 0xdb8, 1, 2, 3, 4, 5, 6), "[2001:db8:1:2:3:4:5:6]"),
        (IpAddress::V6(0, 0, 0, 0, 0, 0xffff, 0x0a4d, 0x015a), "[::ffff:10.77.1.90]"),
        (IpAddress::V6(0xfe80, 0, 0, 0, 0xabcd, 0, 0, 0), "[fe80::abcd:0:0:0]"),
    ];
    for (address, text) in cases {
        assert_eq!(address.to_url_text(), text);
    }
    assert_eq!(v4(255, 0, 9, 10).to_url_text(), "255.0.9.10");
}

#[test]
fn a_base_url_is_the_endpoint_as_text() {
    let endpoint = Endpoint { address: v4(192, 168, 0, 7), port: 80, protocol: Protocol::Http };
    assert_eq!(endpoint.base_url(), "http://192.168.0.7:80");
}
