//! The parts of reading a Node or a Connection API that are not the request
//! itself: where to ask, what an answer's status means, how a failure reads,
//! and what a change to a device would say.

use std::time::Duration;

use jackfield::connector::{confirm, connection_version, legs, subscription_plan, StreamSource};
use jackfield::discovery::endpoint::IpAddress;
use jackfield::nmos::connection_api::{
    active_url, check_status as connection_status, classify as classify_connection, resource_name,
    supported_connection_versions, ConnectionApiClient, ConnectionApiError, StreamAddress,
};
use jackfield::nmos::error::ParseError;
use jackfield::nmos::http::{default_user_agent, looks_like_markup};
use jackfield::nmos::node_api::{
    check_status as node_status, choose_version, collection_url, describe, malformed, tree_prefix, NodeApiClient,
    NodeApiError,
};
use jackfield::nmos::resource::ResourceId;
use jackfield::nmos::version::ApiVersion;

const ID: &str = "3b8be755-08ff-452b-b217-c9151eb21193";

fn id() -> ResourceId {
    ResourceId::parse(ID).expect("well formed")
}

fn stream(address: &str, port: u16) -> StreamAddress {
    StreamAddress { address: address.to_owned(), port }
}

/// A failed request made without any network: the address cannot be read.
fn request_error() -> reqwest::Error {
    let runtime = tokio::runtime::Builder::new_current_thread().build().expect("a runtime");
    let client = reqwest::Client::new();
    runtime.block_on(async { client.get("http://[::1").send().await.expect_err("not an address") })
}

// --- the Node API -----------------------------------------------------------

#[test]
fn a_tree_is_read_below_the_node_path_at_the_chosen_version() {
    let prefix = tree_prefix("http://10.77.1.90:8090//", ApiVersion::new(1, 3));
    assert_eq!(prefix, "http://10.77.1.90:8090/x-nmos/node/v1.3");
    assert_eq!(collection_url(&prefix, "senders"), "http://10.77.1.90:8090/x-nmos/node/v1.3/senders");
}

#[test]
fn the_highest_version_both_ends_speak_is_chosen() {
    let offered = [ApiVersion::new(1, 0), ApiVersion::new(1, 3), ApiVersion::new(1, 2)];
    assert_eq!(choose_version(&offered).expect("overlap"), ApiVersion::new(1, 3));
}

#[test]
fn no_version_in_common_names_both_sides() {
    let error = choose_version(&[ApiVersion::new(1, 0), ApiVersion::new(1, 1)]).expect_err("no overlap");
    assert!(matches!(error, NodeApiError::UnsupportedVersion { .. }));
    assert_eq!(error.to_string(), "node offers only v1.0, v1.1 (this controller speaks v1.2, v1.3)");
}

#[test]
fn only_ok_is_an_answer() {
    assert!(node_status("senders", 200).is_ok());
    match node_status("senders", 404) {
        Err(e @ NodeApiError::Status { .. }) => assert_eq!(e.to_string(), "node answered 404 for senders"),
        other => panic!("expected a status failure, got {other:?}"),
    }
    assert!(connection_status("senders/x", 200).is_ok());
    match connection_status("senders/x", 500) {
        Err(e @ ConnectionApiError::Status { .. }) => {
            assert_eq!(e.to_string(), "connection api answered 500 for senders/x")
        }
        other => panic!("expected a status failure, got {other:?}"),
    }
}

#[test]
fn a_web_page_where_json_was_expected_is_named_as_such() {
    let body = "  <html><body>Login</body></html>";
    let error = serde_json::from_str::<serde_json::Value>(body).expect_err("not JSON");
    let text = error.to_string();
    assert!(looks_like_markup(body));
    assert_eq!(describe(body, &error), format!("expected JSON, got what looks like a web page ({text})"));
    match malformed("devices", body, &error) {
        NodeApiError::Malformed { collection, reason } => {
            assert_eq!(collection, "devices");
            assert_eq!(reason, format!("expected JSON, got what looks like a web page ({text})"));
        }
        other => panic!("expected a malformed answer, got {other:?}"),
    }
}

#[test]
fn json_that_is_merely_wrong_is_described_by_the_parser() {
    let body = "{\"id\": 42";
    let error = serde_json::from_str::<serde_json::Value>(body).expect_err("truncated");
    let text = error.to_string();
    assert!(!looks_like_markup(body));
    assert_eq!(describe(body, &error), text);
}

#[test]
fn the_node_api_failures_read_as_sentences() {
    assert_eq!(NodeApiError::Timeout { collection: "flows" }.to_string(), "timed out reading flows");
    assert_eq!(
        NodeApiError::Unreachable { collection: "self", reason: "refused".to_owned() }.to_string(),
        "cannot reach the node for self: refused"
    );
    assert_eq!(
        NodeApiError::BadAddress { base: "x".to_owned(), reason: "no".to_owned() }.to_string(),
        "cannot address the node at x: no"
    );
    assert_eq!(
        NodeApiError::Malformed { collection: "sources", reason: "bad".to_owned() }.to_string(),
        "cannot understand the node's sources: bad"
    );
}

#[test]
fn a_client_builds_with_the_defaults_and_with_settings() {
    assert_eq!(default_user_agent(), "jackfield/0.1.0");
    assert!(NodeApiClient::builder().build().is_ok());
    let built = NodeApiClient::builder()
        .request_timeout(Duration::from_secs(1))
        .connect_timeout(Duration::from_millis(500))
        .user_agent("test-agent".to_owned())
        .build();
    assert!(built.is_ok());
    assert!(ConnectionApiClient::builder().user_agent("test-agent".to_owned()).build().is_ok());
}

// --- the Connection API -----------------------------------------------------

#[test]
fn a_transport_is_read_at_the_resources_active_endpoint() {
    assert_eq!(
        active_url("http://10.77.1.90:8090/", connection_version(), "senders", &id()),
        format!("http://10.77.1.90:8090/x-nmos/connection/v1.1/single/senders/{ID}/active")
    );
    assert_eq!(resource_name("receivers", &id()), format!("receivers/{ID}"));
    let versions: Vec<String> = supported_connection_versions().iter().map(|v| v.to_string()).collect();
    assert!(versions.contains(&"v1.1".to_owned()));
}

#[test]
fn a_request_that_never_left_is_reported_as_unreachable_naming_the_resource() {
    let reason = request_error().to_string();
    match classify_connection(request_error(), "senders/x") {
        ConnectionApiError::Unreachable { resource, reason: r } => {
            assert_eq!(resource, "senders/x");
            assert_eq!(r, reason);
        }
        other => panic!("expected an unreachable resource, got {other:?}"),
    }
    match jackfield::nmos::node_api::classify(request_error(), "self") {
        NodeApiError::Unreachable { collection, reason: r } => {
            assert_eq!(collection, "self");
            assert_eq!(r, reason);
        }
        other => panic!("expected an unreachable Node, got {other:?}"),
    }
}

#[test]
fn the_connection_api_failures_read_as_sentences() {
    assert_eq!(
        ConnectionApiError::Timeout { resource: "senders/x".to_owned() }.to_string(),
        "timed out reading the connection api for senders/x"
    );
    assert_eq!(
        ConnectionApiError::Malformed { resource: "receivers/y".to_owned(), reason: "bad".to_owned() }.to_string(),
        "cannot understand the connection api's answer for receivers/y: bad"
    );
}

// --- rejections -------------------------------------------------------------

#[test]
fn a_rejection_says_what_was_wrong() {
    assert_eq!(
        ResourceId::parse("not-a-uuid").expect_err("rejected").to_string(),
        "not an NMOS resource identifier: expected 36 characters"
    );
    assert_eq!(ParseError::Format.to_string(), "not an NMOS format URN");
    assert_eq!(ParseError::MediaType.to_string(), "not a media type");
    assert_eq!(ParseError::ApiVersion.to_string(), "not an NMOS API version");
    assert_eq!(
        ParseError::Version { reason: "seconds do not fit" }.to_string(),
        "not a TAI version timestamp: seconds do not fit"
    );
}

// --- changing a device ------------------------------------------------------

#[test]
fn each_sender_leg_becomes_a_receiver_leg_joining_its_group() {
    let streams = [stream("239.255.0.1", 5004), stream("239.255.1.1", 5006)];
    let parsed = [Some(IpAddress::V4(239, 255, 0, 1)), Some(IpAddress::V4(239, 255, 1, 1))];
    let planned = legs(&streams, &parsed).expect("usable");
    assert_eq!(planned.len(), 2);
    assert_eq!(planned[0].multicast_ip, IpAddress::V4(239, 255, 0, 1));
    assert_eq!(planned[1].destination_port, 5006);
    assert!(planned.iter().all(|leg| leg.rtp_enabled));
}

#[test]
fn an_address_this_controller_cannot_read_is_refused_rather_than_sent() {
    let streams = [stream("239.255.0.1", 5004), stream("not-an-address", 5006)];
    let parsed = [Some(IpAddress::V4(239, 255, 0, 1)), None];
    assert_eq!(
        legs(&streams, &parsed).expect_err("refused"),
        "the Sender reports an address this controller cannot use: not-an-address"
    );
}

#[test]
fn a_sender_with_a_file_and_no_addresses_is_taken_by_its_file_alone() {
    let plan = subscription_plan(StreamSource::TransportFile { data: "v=0".to_owned(), streams: Vec::new() }, &[])
        .expect("a plan");
    assert_eq!(plan.transport_file.as_deref(), Some("v=0"));
    assert!(plan.legs.is_none());
}

#[test]
fn a_sender_with_a_file_and_addresses_is_taken_by_both() {
    let plan = subscription_plan(
        StreamSource::TransportFile { data: "v=0".to_owned(), streams: vec![stream("239.255.0.1", 5004)] },
        &[Some(IpAddress::V4(239, 255, 0, 1))],
    )
    .expect("a plan");
    assert_eq!(plan.transport_file.as_deref(), Some("v=0"));
    assert_eq!(plan.legs.expect("legs").len(), 1);
}

#[test]
fn a_sender_without_an_sdp_is_taken_by_its_addresses_instead() {
    let plan = subscription_plan(StreamSource::Streams(vec![stream("239.255.0.1", 5004)]), &[Some(IpAddress::V4(
        239, 255, 0, 1,
    ))])
    .expect("a plan");
    assert!(plan.transport_file.is_none());
    assert_eq!(plan.legs.expect("legs")[0].destination_port, 5004);
}

#[test]
fn a_device_that_does_not_do_what_it_was_asked_is_reported_as_such() {
    assert!(confirm(true, true).is_ok());
    assert!(confirm(false, false).is_ok());
    assert_eq!(
        confirm(false, true).expect_err("refused"),
        "the device answered master_enable=false to a request for true; something else is staging against it"
    );
}

#[test]
fn a_client_that_could_not_be_built_says_why_in_the_http_clients_words() {
    let reason = request_error().to_string();
    match jackfield::nmos::connection_api::build_failure(request_error()) {
        ConnectionApiError::Client { reason: r } => assert_eq!(r, reason),
        other => panic!("expected a client failure, got {other:?}"),
    }
    match jackfield::nmos::node_api::build_failure(request_error()) {
        NodeApiError::BadAddress { base, reason: r } => {
            assert_eq!(base, "<http client>");
            assert_eq!(r, reason);
        }
        other => panic!("expected a client failure, got {other:?}"),
    }
}
