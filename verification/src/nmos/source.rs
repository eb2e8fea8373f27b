//! The Source resource: the logical origin of a Flow, upstream of the Flow
//! itself. Never a synonym for Sender.

use vstd::prelude::*;

use crate::nmos::media::Rate;
use crate::nmos::resource::{Capabilities, ResourceCore, ResourceId};

verus! {

/// The fields every Source carries.
#[derive(Debug, Clone)]
pub struct SourceCore {
    /// The fields every NMOS resource carries.
    pub core: ResourceCore,
    /// Maximum grains per second for Flows derived from this Source.
    pub grain_rate: Option<Rate>,
    /// Capabilities. Not yet defined by the specification.
    pub caps: Capabilities,
    /// The Device this Source was created by.
    pub device_id: ResourceId,
    /// Sources that came together at the input to this one.
    pub parents: Vec<ResourceId>,
    /// The Node clock this Source is referenced to, when it names one.
    pub clock_name: Option<String>,
}

/// The logical origin of a Flow.
#[derive(Debug, Clone)]
pub enum Source {
    /// A video Source.
    Video { core: SourceCore },
    /// A mux Source.
    Mux { core: SourceCore },
    /// An audio Source, which names its channels.
    Audio { core: SourceCore, channels: Vec<Channel> },
    /// A data Source.
    Data { core: SourceCore, event_type: Option<String> },
}

impl Source {
    /// The fields every Source carries.
    pub open spec fn spec_core(&self) -> SourceCore {
        match *self {
            Source::Video { core } => core,
            Source::Mux { core } => core,
            Source::Audio { core, .. } => core,
            Source::Data { core, .. } => core,
        }
    }

    /// The fields every Source carries.
    pub fn core_fields(&self) -> (r: &SourceCore)
        ensures
            *r == self.spec_core(),
    {
        match self {
            Source::Video { core } => core,
            Source::Mux { core } => core,
            Source::Audio { core, .. } => core,
            Source::Data { core, .. } => core,
        }
    }

    /// The identifier of this Source.
    pub fn id(&self) -> (r: &ResourceId)
        ensures
            *r == self.spec_core().core.id,
    {
        &self.core_fields().core.id
    }
}

/// One audio channel of a Source.
#[derive(Debug, Clone)]
pub struct Channel {
    /// Free-text label for the channel.
    pub label: String,
    /// Symbol for the channel, from VSF TR-03 Appendix A.
    pub symbol: Option<String>,
}

} // verus!
