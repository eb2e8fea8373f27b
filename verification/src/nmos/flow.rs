//! The Flow resource: the media a Sender carries.
//!
//! IS-04 models this as eight sibling schemas selected by `format` and
//! `media_type`. Here it is one enum, because that is what it is, and because
//! the media type is the field that tells two identically labelled Senders
//! apart.

use vstd::prelude::*;

use crate::nmos::media::{Format, MediaType, Rate};
use crate::nmos::resource::{ResourceCore, ResourceId};
use crate::nmos::media::is_linear_audio_text;

verus! {

/// The fields every Flow carries, whatever it holds.
#[derive(Debug, Clone)]
pub struct FlowCore {
    /// The fields every NMOS resource carries.
    pub core: ResourceCore,
    /// The Source this Flow originates from.
    pub source_id: ResourceId,
    /// The Device this Flow was created by.
    pub device_id: ResourceId,
    /// Flows that came together to make this one.
    pub parents: Vec<ResourceId>,
    /// Grains per second, for a periodic Flow.
    pub grain_rate: Option<Rate>,
}

/// One component plane of a raw video Flow.
#[derive(Debug, Clone, Copy, PartialEq, Eq, Structural)]
pub struct Component {
    /// Which plane this is.
    pub name: ComponentName,
    /// Width in pixels.
    pub width: i64,
    /// Height in pixels.
    pub height: i64,
    /// Bits per sample.
    pub bit_depth: i64,
}

/// The plane a video component describes.
#[derive(Debug, Clone, Copy, PartialEq, Eq, Structural)]
pub enum ComponentName {
    Y,
    Cb,
    Cr,
    I,
    Ct,
    Cp,
    A,
    R,
    G,
    B,
    DepthMap,
}

/// How the frames of a video Flow are scanned.
#[derive(Debug, Clone, Copy, PartialEq, Eq, Structural)]
pub enum InterlaceMode {
    Progressive,
    InterlacedTff,
    InterlacedBff,
    InterlacedPsf,
}

impl Default for InterlaceMode {
    fn default() -> (r: Self)
        ensures
            r == InterlaceMode::Progressive,
    {
        InterlaceMode::Progressive
    }
}

/// The picture geometry and colour a video Flow shares across its variants.
#[derive(Debug, Clone)]
pub struct VideoCore {
    /// Width of the picture in pixels.
    pub frame_width: i64,
    /// Height of the picture in pixels.
    pub frame_height: i64,
    /// How the frames are scanned.
    pub interlace_mode: InterlaceMode,
    /// Colorspace used for the video.
    pub colorspace: String,
    /// Transfer characteristic.
    pub transfer_characteristic: Option<String>,
}

/// A pair of SDI ancillary data identification words.
#[derive(Debug, Clone)]
pub struct DidSdid {
    /// Data identification word.
    pub did: Option<String>,
    /// Secondary data identification word.
    pub sdid: Option<String>,
}

/// The media a Sender carries.
///
/// The variant is chosen by format first and media type second, and never by
/// which schema happens to match.
#[derive(Debug, Clone)]
pub enum Flow {
    /// Uncompressed video: `video/raw`.
    VideoRaw { core: FlowCore, video: VideoCore, media_type: MediaType, components: Vec<Component> },
    /// Compressed video: anything under `video/` that is not `video/raw`.
    VideoCoded { core: FlowCore, video: VideoCore, media_type: MediaType },
    /// Uncompressed linear audio: `audio/L16`, `audio/L24` and their kin.
    AudioRaw { core: FlowCore, sample_rate: Rate, media_type: MediaType, bit_depth: Option<i64> },
    /// Compressed audio.
    AudioCoded { core: FlowCore, sample_rate: Rate, media_type: MediaType },
    /// SDI ancillary data: `video/smpte291`.
    SdiAncData { core: FlowCore, media_type: MediaType, did_sdid: Vec<DidSdid> },
    /// IS-07 event data: `application/json`.
    JsonData { core: FlowCore, media_type: MediaType, event_type: Option<String> },
    /// Any other data Flow.
    Data { core: FlowCore, media_type: MediaType },
    /// A muxed Flow, such as `video/SMPTE2022-6`.
    Mux { core: FlowCore, media_type: MediaType },
}

impl Flow {
    /// The fields every Flow carries.
    pub open spec fn spec_core(&self) -> FlowCore {
        match *self {
            Flow::VideoRaw { core, .. } => core,
            Flow::VideoCoded { core, .. } => core,
            Flow::AudioRaw { core, .. } => core,
            Flow::AudioCoded { core, .. } => core,
            Flow::SdiAncData { core, .. } => core,
            Flow::JsonData { core, .. } => core,
            Flow::Data { core, .. } => core,
            Flow::Mux { core, .. } => core,
        }
    }

    /// What this Flow carries.
    pub open spec fn spec_media_type(&self) -> MediaType {
        match *self {
            Flow::VideoRaw { media_type, .. } => media_type,
            Flow::VideoCoded { media_type, .. } => media_type,
            Flow::AudioRaw { media_type, .. } => media_type,
            Flow::AudioCoded { media_type, .. } => media_type,
            Flow::SdiAncData { media_type, .. } => media_type,
            Flow::JsonData { media_type, .. } => media_type,
            Flow::Data { media_type, .. } => media_type,
            Flow::Mux { media_type, .. } => media_type,
        }
    }

    /// The high-level format of this Flow.
    pub open spec fn spec_format(&self) -> Format {
        match *self {
            Flow::VideoRaw { .. } | Flow::VideoCoded { .. } => Format::Video,
            Flow::AudioRaw { .. } | Flow::AudioCoded { .. } => Format::Audio,
            Flow::SdiAncData { .. } | Flow::JsonData { .. } | Flow::Data { .. } => Format::Data,
            Flow::Mux { .. } => Format::Mux,
        }
    }

    /// The fields every Flow carries.
    pub fn core_fields(&self) -> (r: &FlowCore)
        ensures
            *r == self.spec_core(),
    {
        match self {
            Flow::VideoRaw { core, .. } => core,
            Flow::VideoCoded { core, .. } => core,
            Flow::AudioRaw { core, .. } => core,
            Flow::AudioCoded { core, .. } => core,
            Flow::SdiAncData { core, .. } => core,
            Flow::JsonData { core, .. } => core,
            Flow::Data { core, .. } => core,
            Flow::Mux { core, .. } => core,
        }
    }

    /// What this Flow carries: the field an operator reads to tell two Senders
    /// under one label apart.
    pub fn media_type(&self) -> (r: &MediaType)
        ensures
            *r == self.spec_media_type(),
    {
        match self {
            Flow::VideoRaw { media_type, .. } => media_type,
            Flow::VideoCoded { media_type, .. } => media_type,
            Flow::AudioRaw { media_type, .. } => media_type,
            Flow::AudioCoded { media_type, .. } => media_type,
            Flow::SdiAncData { media_type, .. } => media_type,
            Flow::JsonData { media_type, .. } => media_type,
            Flow::Data { media_type, .. } => media_type,
            Flow::Mux { media_type, .. } => media_type,
        }
    }

    /// The high-level format of this Flow.
    pub fn format(&self) -> (r: Format)
        ensures
            r == self.spec_format(),
    {
        match self {
            Flow::VideoRaw { .. } | Flow::VideoCoded { .. } => Format::Video,
            Flow::AudioRaw { .. } | Flow::AudioCoded { .. } => Format::Audio,
            Flow::SdiAncData { .. } | Flow::JsonData { .. } | Flow::Data { .. } => Format::Data,
            Flow::Mux { .. } => Format::Mux,
        }
    }

    /// The identifier of this Flow.
    pub fn id(&self) -> (r: &ResourceId)
        ensures
            *r == self.spec_core().core.id,
    {
        &self.core_fields().core.id
    }
}

/// The flat document a Flow is on the wire, in every variant at once.
///
/// `flow.json` is keyed on two fields, format and media type, so a document is
/// read into this and then dispatched; a Flow is written through it as well,
/// which keeps one description of the wire format rather than two.
#[derive(Debug, Clone)]
pub struct FlowWire {
    pub core: ResourceCore,
    pub source_id: ResourceId,
    pub device_id: ResourceId,
    pub parents: Vec<ResourceId>,
    pub grain_rate: Option<Rate>,
    pub format: Format,
    pub media_type: MediaType,
    pub frame_width: Option<i64>,
    pub frame_height: Option<i64>,
    pub interlace_mode: Option<InterlaceMode>,
    pub colorspace: Option<String>,
    pub transfer_characteristic: Option<String>,
    pub components: Option<Vec<Component>>,
    pub sample_rate: Option<Rate>,
    pub bit_depth: Option<i64>,
    pub did_sdid: Option<Vec<DidSdid>>,
    pub event_type: Option<String>,
}

/// A field a Flow of its kind must carry and did not.
#[derive(Debug, Clone, Copy, PartialEq, Eq, Structural)]
pub enum MissingField {
    FrameWidth,
    FrameHeight,
    Colorspace,
    Components,
    SampleRate,
}

impl MissingField {
    /// The field's name on the wire.
    pub fn name(self) -> (r: &'static str)
        ensures
            r@ == (match self {
                MissingField::FrameWidth => "frame_width"@,
                MissingField::FrameHeight => "frame_height"@,
                MissingField::Colorspace => "colorspace"@,
                MissingField::Components => "components"@,
                MissingField::SampleRate => "sample_rate"@,
            }),
    {
        match self {
            MissingField::FrameWidth => "frame_width",
            MissingField::FrameHeight => "frame_height",
            MissingField::Colorspace => "colorspace",
            MissingField::Components => "components",
            MissingField::SampleRate => "sample_rate",
        }
    }
}

/// The fields shared by every Flow, taken from a wire document.
pub open spec fn wire_flow_core(w: FlowWire) -> FlowCore {
    FlowCore {
        core: w.core,
        source_id: w.source_id,
        device_id: w.device_id,
        parents: w.parents,
        grain_rate: w.grain_rate,
    }
}

/// The picture a video document describes, or the first field it lacks.
pub open spec fn wire_video_core(w: FlowWire) -> Result<VideoCore, MissingField> {
    if w.frame_width is None {
        Err(MissingField::FrameWidth)
    } else if w.frame_height is None {
        Err(MissingField::FrameHeight)
    } else if w.colorspace is None {
        Err(MissingField::Colorspace)
    } else {
        Ok(
            VideoCore {
                frame_width: w.frame_width->0,
                frame_height: w.frame_height->0,
                interlace_mode: match w.interlace_mode {
                    Some(m) => m,
                    None => InterlaceMode::Progressive,
                },
                colorspace: w.colorspace->0,
                transfer_characteristic: w.transfer_characteristic,
            },
        )
    }
}

/// The Flow a wire document describes: the variant chosen by format, then by
/// media type; or the first field that variant needs and the document lacks.
/// An SDI ancillary Flow that lists no identification words holds `none`,
/// which is empty.
pub open spec fn flow_of_wire(w: FlowWire, none: Vec<DidSdid>) -> Result<Flow, MissingField> {
    let core = wire_flow_core(w);
    let media_type = w.media_type;
    match w.format {
        Format::Video => match wire_video_core(w) {
            Err(e) => Err(e),
            Ok(video) => if media_type@ == "video/raw"@ {
                match w.components {
                    None => Err(MissingField::Components),
                    Some(components) => Ok(Flow::VideoRaw { core, video, media_type, components }),
                }
            } else {
                Ok(Flow::VideoCoded { core, video, media_type })
            },
        },
        Format::Audio => match w.sample_rate {
            None => Err(MissingField::SampleRate),
            Some(sample_rate) => if is_linear_audio_text(media_type@) {
                Ok(Flow::AudioRaw { core, sample_rate, media_type, bit_depth: w.bit_depth })
            } else {
                Ok(Flow::AudioCoded { core, sample_rate, media_type })
            },
        },
        Format::Data => if media_type@ == "video/smpte291"@ {
            Ok(
                Flow::SdiAncData {
                    core,
                    media_type,
                    did_sdid: match w.did_sdid {
                        Some(v) => v,
                        None => none,
                    },
                },
            )
        } else if media_type@ == "application/json"@ {
            Ok(Flow::JsonData { core, media_type, event_type: w.event_type })
        } else {
            Ok(Flow::Data { core, media_type })
        },
        Format::Mux => Ok(Flow::Mux { core, media_type }),
    }
}

/// The wire document a Flow is written as.
pub open spec fn wire_of_flow(f: Flow) -> FlowWire {
    let core = f.spec_core();
    let base = FlowWire {
        core: core.core,
        source_id: core.source_id,
        device_id: core.device_id,
        parents: core.parents,
        grain_rate: core.grain_rate,
        format: f.spec_format(),
        media_type: f.spec_media_type(),
        frame_width: None,
        frame_height: None,
        interlace_mode: None,
        colorspace: None,
        transfer_characteristic: None,
        components: None,
        sample_rate: None,
        bit_depth: None,
        did_sdid: None,
        event_type: None,
    };
    match f {
        Flow::VideoRaw { video, components, .. } => FlowWire {
            frame_width: Some(video.frame_width),
            frame_height: Some(video.frame_height),
            interlace_mode: Some(video.interlace_mode),
            colorspace: Some(video.colorspace),
            transfer_characteristic: video.transfer_characteristic,
            components: Some(components),
            ..base
        },
        Flow::VideoCoded { video, .. } => FlowWire {
            frame_width: Some(video.frame_width),
            frame_height: Some(video.frame_height),
            interlace_mode: Some(video.interlace_mode),
            colorspace: Some(video.colorspace),
            transfer_characteristic: video.transfer_characteristic,
            ..base
        },
        Flow::AudioRaw { sample_rate, bit_depth, .. } => FlowWire {
            sample_rate: Some(sample_rate),
            bit_depth,
            ..base
        },
        Flow::AudioCoded { sample_rate, .. } => FlowWire { sample_rate: Some(sample_rate), ..base },
        Flow::SdiAncData { did_sdid, .. } => FlowWire { did_sdid: Some(did_sdid), ..base },
        Flow::JsonData { event_type, .. } => FlowWire { event_type, ..base },
        Flow::Data { .. } | Flow::Mux { .. } => base,
    }
}

/// Whether a Flow's variant agrees with its media type — which every Flow read
/// from the wire does, because the media type is what chose the variant.
pub open spec fn flow_variant_fits(f: Flow) -> bool {
    match f {
        Flow::VideoRaw { media_type, .. } => media_type@ == "video/raw"@,
        Flow::VideoCoded { media_type, .. } => media_type@ != "video/raw"@,
        Flow::AudioRaw { media_type, .. } => is_linear_audio_text(media_type@),
        Flow::AudioCoded { media_type, .. } => !is_linear_audio_text(media_type@),
        Flow::SdiAncData { media_type, .. } => media_type@ == "video/smpte291"@,
        Flow::JsonData { media_type, .. } => media_type@ == "application/json"@,
        Flow::Data { media_type, .. } => media_type@ != "video/smpte291"@ && media_type@
            != "application/json"@,
        Flow::Mux { .. } => true,
    }
}

impl Flow {
    /// Read a Flow out of its wire document.
    pub fn from_wire(w: FlowWire) -> (r: Result<Flow, MissingField>)
        ensures
            exists|none: Vec<DidSdid>| none@.len() == 0 && r == flow_of_wire(w, none),
    {
        let none: Vec<DidSdid> = Vec::new();
        let ghost empty = none;
        let r = Flow::dispatch(w, none);
        assert(empty@.len() == 0 && r == flow_of_wire(w, empty));
        r
    }

    /// Dispatch a wire document to its variant.
    fn dispatch(w: FlowWire, none: Vec<DidSdid>) -> (r: Result<Flow, MissingField>)
        ensures
            r == flow_of_wire(w, none),
    {
        let ghost given = w;
        let FlowWire {
            core,
            source_id,
            device_id,
            parents,
            grain_rate,
            format,
            media_type,
            frame_width,
            frame_height,
            interlace_mode,
            colorspace,
            transfer_characteristic,
            components,
            sample_rate,
            bit_depth,
            did_sdid,
            event_type,
        } = w;
        let flow_core = FlowCore { core, source_id, device_id, parents, grain_rate };
        match format {
            Format::Video => {
                let frame_width = match frame_width {
                    None => return Err(MissingField::FrameWidth),
                    Some(v) => v,
                };
                let frame_height = match frame_height {
                    None => return Err(MissingField::FrameHeight),
                    Some(v) => v,
                };
                let colorspace = match colorspace {
                    None => return Err(MissingField::Colorspace),
                    Some(v) => v,
                };
                let interlace_mode = match interlace_mode {
                    Some(m) => m,
                    None => InterlaceMode::Progressive,
                };
                let video = VideoCore {
                    frame_width,
                    frame_height,
                    interlace_mode,
                    colorspace,
                    transfer_characteristic,
                };
                if media_type.is("video/raw") {
                    match components {
                        None => Err(MissingField::Components),
                        Some(components) => Ok(
                            Flow::VideoRaw { core: flow_core, video, media_type, components },
                        ),
                    }
                } else {
                    Ok(Flow::VideoCoded { core: flow_core, video, media_type })
                }
            },
            Format::Audio => {
                let sample_rate = match sample_rate {
                    None => return Err(MissingField::SampleRate),
                    Some(v) => v,
                };
                if media_type.is_linear_audio() {
                    Ok(Flow::AudioRaw { core: flow_core, sample_rate, media_type, bit_depth })
                } else {
                    Ok(Flow::AudioCoded { core: flow_core, sample_rate, media_type })
                }
            },
            Format::Data => {
                if media_type.is("video/smpte291") {
                    let did_sdid = match did_sdid {
                        Some(v) => v,
                        None => none,
                    };
                    Ok(Flow::SdiAncData { core: flow_core, media_type, did_sdid })
                } else if media_type.is("application/json") {
                    Ok(Flow::JsonData { core: flow_core, media_type, event_type })
                } else {
                    Ok(Flow::Data { core: flow_core, media_type })
                }
            },
            Format::Mux => Ok(Flow::Mux { core: flow_core, media_type }),
        }
    }

    /// The wire document this Flow is written as.
    pub fn into_wire(self) -> (w: FlowWire)
        ensures
            w == wire_of_flow(self),
    {
        let format = self.format();
        let (flow_core, media_type, video, components, sample_rate, bit_depth, did_sdid, event_type) =
            match self {
            Flow::VideoRaw { core, video, media_type, components } => (
                core,
                media_type,
                Some(video),
                Some(components),
                None,
                None,
                None,
                None,
            ),
            Flow::VideoCoded { core, video, media_type } => (
                core,
                media_type,
                Some(video),
                None,
                None,
                None,
                None,
                None,
            ),
            Flow::AudioRaw { core, sample_rate, media_type, bit_depth } => (
                core,
                media_type,
                None,
                None,
                Some(sample_rate),
                bit_depth,
                None,
                None,
            ),
            Flow::AudioCoded { core, sample_rate, media_type } => (
                core,
                media_type,
                None,
                None,
                Some(sample_rate),
                None,
                None,
                None,
            ),
            Flow::SdiAncData { core, media_type, did_sdid } => (
                core,
                media_type,
                None,
                None,
                None,
                None,
                Some(did_sdid),
                None,
            ),
            Flow::JsonData { core, media_type, event_type } => (
                core,
                media_type,
                None,
                None,
                None,
                None,
                None,
                event_type,
            ),
            Flow::Data { core, media_type } => (core, media_type, None, None, None, None, None, None),
            Flow::Mux { core, media_type } => (core, media_type, None, None, None, None, None, None),
        };
        let FlowCore { core, source_id, device_id, parents, grain_rate } = flow_core;
        let (frame_width, frame_height, interlace_mode, colorspace, transfer_characteristic) =
            match video {
            Some(video) => (
                Some(video.frame_width),
                Some(video.frame_height),
                Some(video.interlace_mode),
                Some(video.colorspace),
                video.transfer_characteristic,
            ),
            None => (None, None, None, None, None),
        };
        FlowWire {
            core,
            source_id,
            device_id,
            parents,
            grain_rate,
            format,
            media_type,
            frame_width,
            frame_height,
            interlace_mode,
            colorspace,
            transfer_characteristic,
            components,
            sample_rate,
            bit_depth,
            did_sdid,
            event_type,
        }
    }
}

/// Writing a Flow to the wire and reading it back gives the same Flow, for
/// every Flow whose variant agrees with its media type.
pub proof fn law_flow_wire_round_trip(f: Flow, none: Vec<DidSdid>)
    requires
        flow_variant_fits(f),
    ensures
        flow_of_wire(wire_of_flow(f), none) == Ok::<Flow, MissingField>(f),
{
    let w = wire_of_flow(f);
    assert(wire_flow_core(w) == f.spec_core());
    match f {
        Flow::VideoRaw { video, .. } => {
            assert(wire_video_core(w) == Ok::<VideoCore, MissingField>(video));
            assert(flow_of_wire(w, none) == Ok::<Flow, MissingField>(f));
        },
        Flow::VideoCoded { video, .. } => {
            assert(wire_video_core(w) == Ok::<VideoCore, MissingField>(video));
            assert(flow_of_wire(w, none) == Ok::<Flow, MissingField>(f));
        },
        Flow::AudioRaw { .. } => {
            assert(flow_of_wire(w, none) == Ok::<Flow, MissingField>(f));
        },
        Flow::AudioCoded { .. } => {
            assert(flow_of_wire(w, none) == Ok::<Flow, MissingField>(f));
        },
        Flow::SdiAncData { .. } => {
            assert(flow_of_wire(w, none) == Ok::<Flow, MissingField>(f));
        },
        Flow::JsonData { .. } => {
            reveal_strlit("application/json");
            reveal_strlit("video/smpte291");
            assert("application/json"@.len() == 16);
            assert("video/smpte291"@.len() == 14);
            assert("application/json"@ != "video/smpte291"@);
            assert(flow_of_wire(w, none) == Ok::<Flow, MissingField>(f));
        },
        Flow::Data { .. } => {
            assert(flow_of_wire(w, none) == Ok::<Flow, MissingField>(f));
        },
        Flow::Mux { .. } => {
            assert(flow_of_wire(w, none) == Ok::<Flow, MissingField>(f));
        },
    }
}

} // verus!
