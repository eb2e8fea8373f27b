//! The NMOS scalars: identifiers, versions, media types, formats and the
//! states a connection can be in.

use jackfield::nmos::connection::{Reception, Transmission};
use jackfield::nmos::media::{Format, MediaType};
use jackfield::nmos::receiver::ReceiverSubscription;
use jackfield::nmos::sender::SenderSubscription;
use jackfield::nmos::resource::{ResourceId, Version};
use jackfield::nmos::version::{negotiate, supported_versions, ApiVersion};

// --- identifiers ------------------------------------------------------------

#[test]
fn a_well_formed_identifier_parses_and_prints_back_unchanged() {
    let text = "3b8be755-08ff-452b-b217-c9151eb21193";
    let id = ResourceId::parse(text).expect("a well-formed identifier parses");
    assert_eq!(id.as_str(), text);
    assert_eq!(id.to_string(), text);
}

#[test]
fn a_malformed_identifier_is_rejected() {
    let rejected = [
        "",
        "not-a-uuid",
        "3b8be755-08ff-452b-b217-c9151eb2119",
        "3b8be755-08ff-452b-b217-c9151eb211933",
        "3B8BE755-08FF-452B-B217-C9151EB21193",
        "3b8be755:08ff:452b:b217:c9151eb21193",
        "3b8be755-08ff-052b-b217-c9151eb21193",
        "3b8be755-08ff-452b-c217-c9151eb21193",
        "00000000-0000-0000-0000-000000000000",
        "3b8be755-08ff-452b-b217-c9151eb211g3",
    ];
    for text in rejected {
        assert!(ResourceId::parse(text).is_err(), "`{text}` must not parse as an identifier");
    }
}

#[test]
fn the_identifier_layout_check_looks_at_every_position() {
    assert!(ResourceId::parse("3b8be755-08ff-452b-b217-c9151eb2-1193").is_err());
    assert!(ResourceId::parse("3b8be7550-8ff-452b-b217-c9151eb21193").is_err());
}

#[test]
fn every_version_nibble_and_variant_the_pattern_allows_parses() {
    for version in ['1', '2', '3', '4', '5'] {
        for variant in ['8', '9', 'a', 'b'] {
            let text = format!("3b8be755-08ff-{version}52b-{variant}217-c9151eb21193");
            assert!(ResourceId::parse(&text).is_ok(), "`{text}` is well formed");
        }
    }
}

// --- versions ---------------------------------------------------------------

#[test]
fn a_version_parses_into_its_two_parts() {
    let version = Version::parse("1441700172:318426300").expect("parses");
    assert_eq!(version.seconds(), 1_441_700_172);
    assert_eq!(version.nanoseconds(), 318_426_300);
    assert_eq!(version.to_string(), "1441700172:318426300");
}

#[test]
fn versions_order_by_time() {
    let earlier = Version::parse("1441700172:318426300").expect("parses");
    let later = Version::parse("1441700172:318426301").expect("parses");
    let much_later = Version::parse("1441700173:0").expect("parses");

    assert!(earlier < later);
    assert!(later < much_later);
    assert_eq!(earlier, earlier);
    assert!(earlier.earlier_than(later));
    assert!(later.earlier_than(much_later));
    assert!(!later.earlier_than(earlier));
}

#[test]
fn a_malformed_version_is_rejected() {
    let rejected = [
        "",
        "1441700172",
        "1441700172:",
        ":318426300",
        "1441700172:318426300:1",
        "-1:0",
        "1441700172.318426300",
        "abc:def",
        " 1441700172:318426300",
    ];
    for text in rejected {
        assert!(Version::parse(text).is_err(), "`{text}` must not parse as a version");
    }
}

#[test]
fn a_version_too_large_to_hold_is_an_error_not_a_panic() {
    let huge = format!("{}:0", "9".repeat(40));
    assert!(Version::parse(&huge).is_err());
}

#[test]
fn a_version_with_leading_zeroes_parses_and_normalises() {
    let version = Version::parse("007:0000").expect("the schema pattern allows this");
    assert_eq!(version.to_string(), "7:0");
}

#[test]
fn a_version_with_a_sign_is_rejected() {
    assert!(Version::parse("+7:0").is_err());
}

#[test]
fn the_largest_version_that_fits_is_accepted() {
    let version = Version::parse("18446744073709551615:999999999").expect("fits");
    assert_eq!(version.seconds(), u64::MAX);
    assert!(Version::parse("18446744073709551616:0").is_err());
}

// --- API versions -----------------------------------------------------------

#[test]
fn the_highest_common_version_wins_whatever_the_order() {
    let supported = [ApiVersion::new(1, 2), ApiVersion::new(1, 3)];
    let offered = [ApiVersion::new(1, 3), ApiVersion::new(1, 0), ApiVersion::new(1, 2)];
    assert_eq!(negotiate(&offered, &supported), Some(ApiVersion::new(1, 3)));
}

#[test]
fn no_overlap_is_no_version() {
    let supported = [ApiVersion::new(1, 3)];
    assert_eq!(negotiate(&[ApiVersion::new(1, 0)], &supported), None);
    assert_eq!(negotiate(&[], &supported), None);
}

#[test]
fn versions_order_numerically_not_lexically() {
    assert!(ApiVersion::new(1, 9) < ApiVersion::new(1, 10));
    assert!(ApiVersion::new(1, 10) < ApiVersion::new(2, 0));
    assert!(ApiVersion::new(1, 9).before(ApiVersion::new(1, 10)));
    assert!(ApiVersion::new(1, 10).before(ApiVersion::new(2, 0)));
}

#[test]
fn an_api_version_reads_and_prints_in_the_path_form() {
    let version = ApiVersion::parse("v1.3").expect("parses");
    assert_eq!(version.major(), 1);
    assert_eq!(version.minor(), 3);
    assert_eq!(version.to_string(), "v1.3");
    assert_eq!(ApiVersion::parse("v1.10").expect("parses").to_string(), "v1.10");
    for rejected in ["", "1.3", "v1", "v1.", "v.3", "v1.3.0", "V1.3", "v+1.3", "v1.99999999"] {
        assert!(ApiVersion::parse(rejected).is_err(), "`{rejected}` must not parse");
    }
}

#[test]
fn this_controller_speaks_v1_2_and_v1_3() {
    let supported: Vec<String> = supported_versions().iter().map(|v| v.to_string()).collect();
    assert_eq!(supported, ["v1.2", "v1.3"]);
}

// --- media types and formats ------------------------------------------------

#[test]
fn a_media_type_is_a_type_and_a_subtype() {
    let media_type = MediaType::parse("video/raw").expect("parses");
    assert_eq!(media_type.as_str(), "video/raw");
    assert_eq!(media_type.to_string(), "video/raw");

    for rejected in ["", "video", "video/", "/raw", "video/ raw", "a/b/c"] {
        assert!(MediaType::parse(rejected).is_err(), "`{rejected}` must not parse as a media type");
    }
}

#[test]
fn linear_audio_is_told_apart_from_coded_audio() {
    for linear in ["audio/L8", "audio/L16", "audio/L20", "audio/L24"] {
        assert!(MediaType::parse(linear).expect("parses").is_linear_audio());
    }
    for coded in ["audio/AAC", "audio/L", "audio/Lx", "video/raw"] {
        assert!(!MediaType::parse(coded).expect("parses").is_linear_audio());
    }
}

#[test]
fn a_format_round_trips_through_its_urn() {
    for (urn, format) in [
        ("urn:x-nmos:format:video", Format::Video),
        ("urn:x-nmos:format:audio", Format::Audio),
        ("urn:x-nmos:format:data", Format::Data),
        ("urn:x-nmos:format:mux", Format::Mux),
    ] {
        assert_eq!(Format::parse(urn).expect("parses"), format);
        assert_eq!(format.to_string(), urn);
        assert_eq!(format.as_urn(), urn);
    }
    assert!(Format::parse("urn:x-nmos:format:hologram").is_err());
}

// --- connection state -------------------------------------------------------

#[test]
fn the_domain_states_read_as_the_glossary_writes_them() {
    assert_eq!(Transmission::Transmitting.to_string(), "transmitting");
    assert_eq!(Transmission::Idle.to_string(), "idle");
    assert_eq!(Reception::Subscribed.to_string(), "subscribed");
    assert_eq!(Reception::Unsubscribed.to_string(), "unsubscribed");
}

#[test]
fn a_state_knows_whether_it_carries_a_stream() {
    assert!(Transmission::Transmitting.is_transmitting());
    assert!(!Transmission::Idle.is_transmitting());
    assert!(Reception::Subscribed.is_subscribed());
    assert!(!Reception::Unsubscribed.is_subscribed());
}

// --- subscriptions ------------------------------------------------------------

const RECEIVER: &str = "3b8be755-08ff-452b-b217-c9151eb21193";

#[test]
fn a_sender_transmitting_to_nobody_is_transmitting_and_names_nobody() {
    let subscription = SenderSubscription::from_wire(None, true);
    assert_eq!(subscription.transmission(), Transmission::Transmitting);
    assert!(subscription.receiver_id.is_none(), "an empty receiver_id must not be turned into a pairing");
}

#[test]
fn an_idle_sender_is_idle() {
    assert_eq!(SenderSubscription::from_wire(None, false).transmission(), Transmission::Idle);
}

#[test]
fn a_sender_naming_its_receiver_keeps_that_name() {
    let subscription = SenderSubscription::from_wire(Some(ResourceId::parse(RECEIVER).expect("well formed")), true);
    assert_eq!(subscription.transmission(), Transmission::Transmitting);
    assert_eq!(subscription.receiver_id.as_ref().map(|id| id.as_str()), Some(RECEIVER));
}

#[test]
fn a_subscribed_receiver_naming_nobody_is_still_subscribed() {
    let subscription = ReceiverSubscription::from_wire(None, true);
    assert_eq!(subscription.reception(), Reception::Subscribed);
    assert!(subscription.sender_id.is_none());
}

#[test]
fn an_unsubscribed_receiver_is_unsubscribed() {
    assert_eq!(ReceiverSubscription::from_wire(None, false).reception(), Reception::Unsubscribed);
}

#[test]
fn a_subscription_survives_a_round_trip_through_the_protocol_flag() {
    for transmission in [Transmission::Transmitting, Transmission::Idle] {
        let subscription = SenderSubscription::new(transmission, None);
        assert_eq!(subscription.active_flag(), transmission.is_transmitting());
        let back = SenderSubscription::from_wire(None, subscription.active_flag());
        assert_eq!(back.transmission(), transmission);
    }
    for reception in [Reception::Subscribed, Reception::Unsubscribed] {
        let subscription = ReceiverSubscription::new(reception, None);
        assert_eq!(subscription.active_flag(), reception.is_subscribed());
        assert_eq!(ReceiverSubscription::from_wire(None, subscription.active_flag()).reception(), reception);
    }
}
