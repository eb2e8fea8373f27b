//! Which kind of Flow a wire document is: format first, then media type.

use std::collections::BTreeMap;

use jackfield::nmos::flow::{Component, ComponentName, Flow, FlowWire, InterlaceMode, MissingField};
use jackfield::nmos::media::{Format, MediaType, Rate};
use jackfield::nmos::resource::{ResourceCore, ResourceId, Version};

fn wire(format: Format, media_type: &str) -> FlowWire {
    FlowWire {
        core: ResourceCore {
            id: ResourceId::parse("3b8be755-08ff-452b-b217-c9151eb21193").expect("an identifier"),
            version: Version::parse("1441700172:318426300").expect("a version"),
            label: "SDI 1".to_owned(),
            description: String::new(),
            tags: BTreeMap::new(),
        },
        source_id: ResourceId::parse("6cddb0fb-9b6d-4f88-8d17-9b6a3a1cd4f6").expect("an identifier"),
        device_id: ResourceId::parse("9126cc2f-4c26-4c9b-a6cd-93c4381c9be5").expect("an identifier"),
        parents: Vec::new(),
        grain_rate: None,
        format,
        media_type: MediaType::parse(media_type).expect("a media type"),
        frame_width: Some(1920),
        frame_height: Some(1080),
        interlace_mode: None,
        colorspace: Some("BT709".to_owned()),
        transfer_characteristic: None,
        components: Some(vec![Component { name: ComponentName::Y, width: 1920, height: 1080, bit_depth: 10 }]),
        sample_rate: Some(Rate { numerator: 48000, denominator: 1 }),
        bit_depth: Some(24),
        did_sdid: None,
        event_type: None,
    }
}

fn flow_variant_name(flow: &Flow) -> &'static str {
    match flow {
        Flow::VideoRaw { .. } => "video raw",
        Flow::VideoCoded { .. } => "video coded",
        Flow::AudioRaw { .. } => "audio raw",
        Flow::AudioCoded { .. } => "audio coded",
        Flow::SdiAncData { .. } => "sdianc data",
        Flow::JsonData { .. } => "json data",
        Flow::Data { .. } => "data",
        Flow::Mux { .. } => "mux",
    }
}

#[test]
fn every_flow_variant_is_selected_by_format_and_media_type() {
    let variants = [
        (Format::Video, "video/raw", "video raw"),
        (Format::Video, "video/H264", "video coded"),
        (Format::Video, "video/vc2", "video coded"),
        (Format::Audio, "audio/L24", "audio raw"),
        (Format::Audio, "audio/L16", "audio raw"),
        (Format::Audio, "audio/AAC", "audio coded"),
        (Format::Data, "video/smpte291", "sdianc data"),
        (Format::Data, "application/json", "json data"),
        (Format::Data, "application/octet-stream", "data"),
        (Format::Mux, "video/SMPTE2022-6", "mux"),
    ];
    for (format, media_type, expected) in variants {
        let flow = Flow::from_wire(wire(format, media_type)).unwrap_or_else(|e| panic!("{media_type}: {e:?}"));
        assert_eq!(flow_variant_name(&flow), expected, "{format:?} with {media_type} selected the wrong variant");
        assert_eq!(flow.format(), format);
        assert_eq!(flow.media_type().as_str(), media_type);
    }
}

#[test]
fn a_video_flow_without_its_geometry_names_what_is_missing() {
    let mut w = wire(Format::Video, "video/raw");
    w.frame_width = None;
    assert_eq!(Flow::from_wire(w).expect_err("incomplete"), MissingField::FrameWidth);

    let mut w = wire(Format::Video, "video/raw");
    w.components = None;
    assert_eq!(Flow::from_wire(w).expect_err("incomplete"), MissingField::Components);
    assert_eq!(MissingField::Components.name(), "components");

    let mut w = wire(Format::Video, "video/H264");
    w.colorspace = None;
    assert_eq!(Flow::from_wire(w).expect_err("incomplete"), MissingField::Colorspace);
}

#[test]
fn an_audio_flow_without_its_sample_rate_names_what_is_missing() {
    let mut w = wire(Format::Audio, "audio/L24");
    w.sample_rate = None;
    assert_eq!(Flow::from_wire(w).expect_err("incomplete"), MissingField::SampleRate);
    assert_eq!(MissingField::SampleRate.name(), "sample_rate");
}

#[test]
fn an_unstated_interlace_mode_is_progressive() {
    match Flow::from_wire(wire(Format::Video, "video/raw")).expect("complete") {
        Flow::VideoRaw { video, .. } => assert_eq!(video.interlace_mode, InterlaceMode::Progressive),
        other => panic!("expected raw video, got {other:?}"),
    }
}

#[test]
fn a_flow_written_back_reads_as_the_same_flow() {
    let flow = Flow::from_wire(wire(Format::Audio, "audio/L24")).expect("complete");
    let again = Flow::from_wire(flow.clone().into_wire()).expect("complete");
    assert_eq!(flow_variant_name(&again), flow_variant_name(&flow));
    assert_eq!(again.media_type(), flow.media_type());
    assert_eq!(again.id(), flow.id());
    match (&again, &flow) {
        (Flow::AudioRaw { sample_rate: a, bit_depth: x, .. }, Flow::AudioRaw { sample_rate: b, bit_depth: y, .. }) => {
            assert_eq!(a, b);
            assert_eq!(x, y);
        }
        other => panic!("expected raw audio twice, got {other:?}"),
    }
    let written = flow.into_wire();
    assert_eq!(written.format, Format::Audio);
    assert!(written.frame_width.is_none(), "an audio Flow writes no picture geometry");
}
