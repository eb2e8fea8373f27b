//! The Receiver resource: an ingress to a Device, consuming a stream.

use vstd::prelude::*;

use crate::base::dup::{all_same, duplicate_all, duplicate_opt, opt_same, Duplicate};
use crate::nmos::connection::Reception;
use crate::nmos::media::{Format, MediaType};
use crate::nmos::resource::{ResourceCore, ResourceId};

verus! {

/// An ingress to a Device.
#[derive(Debug, Clone)]
pub struct Receiver {
    /// The fields every NMOS resource carries.
    pub core: ResourceCore,
    /// The Device this Receiver forms part of.
    pub device_id: ResourceId,
    /// Transport type URN the Receiver accepts.
    pub transport: String,
    /// Names of the Node interfaces this Receiver's ingress is bound to.
    pub interface_bindings: Vec<String>,
    /// How the Receiver is currently configured to receive.
    pub subscription: ReceiverSubscription,
    /// What the Receiver accepts, and in which format.
    pub caps: ReceiverCaps,
}

/// How a Receiver is currently configured to receive data.
///
/// As with a Sender, `active` is IS-04's word and stops at this boundary:
/// [`Reception`] is the domain's. The field stays public for the same reason:
/// the pairing's contracts read `sender_id` outside this module.
#[derive(Debug, Clone)]
pub struct ReceiverSubscription {
    /// The Sender this Receiver is taking from, when the Node reports one.
    pub sender_id: Option<ResourceId>,
    /// IS-04's own flag. Read it through the method that names the state in the
    /// domain's words.
    pub active: bool,
}

impl ReceiverSubscription {
    /// IS-04's flag.
    pub open spec fn spec_active(&self) -> bool {
        self.active
    }

    /// What the Receiver is doing.
    pub open spec fn spec_reception(&self) -> Reception {
        if self.spec_active() {
            Reception::Subscribed
        } else {
            Reception::Unsubscribed
        }
    }

    /// What the Receiver is doing.
    pub fn reception(&self) -> (r: Reception)
        ensures
            r == self.spec_reception(),
    {
        if self.active {
            Reception::Subscribed
        } else {
            Reception::Unsubscribed
        }
    }

    /// Build a subscription, for tests and for fabricated fixtures.
    pub fn new(reception: Reception, sender_id: Option<ResourceId>) -> (r: Self)
        ensures
            r.spec_reception() == reception,
            r.sender_id == sender_id,
    {
        ReceiverSubscription { sender_id, active: reception.is_subscribed() }
    }

    /// IS-04's `active` flag, for writing the subscription back to the wire.
    pub fn active_flag(&self) -> (r: bool)
        ensures
            r == self.spec_active(),
    {
        self.active
    }

    /// A subscription as the wire has it.
    pub fn from_wire(sender_id: Option<ResourceId>, active: bool) -> (r: Self)
        ensures
            r.spec_active() == active,
            r.sender_id == sender_id,
    {
        ReceiverSubscription { sender_id, active }
    }
}

impl Duplicate for ReceiverSubscription {
    open spec fn same(&self, other: &Self) -> bool {
        opt_same(self.sender_id, other.sender_id) && self.spec_active() == other.spec_active()
    }

    fn duplicate(&self) -> (r: Self) {
        ReceiverSubscription { sender_id: duplicate_opt(&self.sender_id), active: self.active }
    }
}

impl Receiver {
    /// What this Receiver is doing.
    pub fn reception(&self) -> (r: Reception)
        ensures
            r == self.subscription.spec_reception(),
    {
        self.subscription.reception()
    }
}

/// What a Receiver accepts, keyed by the format it declares.
#[derive(Debug, Clone)]
pub enum ReceiverCaps {
    /// A video Receiver.
    Video { caps: MediaCaps },
    /// An audio Receiver.
    Audio { caps: MediaCaps },
    /// A data Receiver.
    Data { caps: MediaCaps },
    /// A mux Receiver.
    Mux { caps: MediaCaps },
}

impl ReceiverCaps {
    /// The capabilities, whatever the format.
    pub open spec fn spec_caps(&self) -> MediaCaps {
        match *self {
            ReceiverCaps::Video { caps } => caps,
            ReceiverCaps::Audio { caps } => caps,
            ReceiverCaps::Data { caps } => caps,
            ReceiverCaps::Mux { caps } => caps,
        }
    }

    /// The format this Receiver accepts.
    pub open spec fn spec_format(&self) -> Format {
        match *self {
            ReceiverCaps::Video { .. } => Format::Video,
            ReceiverCaps::Audio { .. } => Format::Audio,
            ReceiverCaps::Data { .. } => Format::Data,
            ReceiverCaps::Mux { .. } => Format::Mux,
        }
    }

    /// The media types this Receiver accepts. Reported, never reconciled with
    /// what any Sender emits.
    pub fn media_types(&self) -> (r: &[MediaType])
        ensures
            r@ == self.spec_caps().media_types@,
    {
        match self {
            ReceiverCaps::Video { caps } => caps.media_types.as_slice(),
            ReceiverCaps::Audio { caps } => caps.media_types.as_slice(),
            ReceiverCaps::Data { caps } => caps.media_types.as_slice(),
            ReceiverCaps::Mux { caps } => caps.media_types.as_slice(),
        }
    }

    /// The format this Receiver accepts.
    pub fn format(&self) -> (r: Format)
        ensures
            r == self.spec_format(),
    {
        match self {
            ReceiverCaps::Video { .. } => Format::Video,
            ReceiverCaps::Audio { .. } => Format::Audio,
            ReceiverCaps::Data { .. } => Format::Data,
            ReceiverCaps::Mux { .. } => Format::Mux,
        }
    }
}

impl Duplicate for ReceiverCaps {
    open spec fn same(&self, other: &Self) -> bool {
        self.spec_format() == other.spec_format() && self.spec_caps().same(&other.spec_caps())
    }

    fn duplicate(&self) -> (r: Self) {
        match self {
            ReceiverCaps::Video { caps } => ReceiverCaps::Video { caps: caps.duplicate() },
            ReceiverCaps::Audio { caps } => ReceiverCaps::Audio { caps: caps.duplicate() },
            ReceiverCaps::Data { caps } => ReceiverCaps::Data { caps: caps.duplicate() },
            ReceiverCaps::Mux { caps } => ReceiverCaps::Mux { caps: caps.duplicate() },
        }
    }
}

/// The media a Receiver will accept.
#[derive(Debug, Clone)]
pub struct MediaCaps {
    /// Subclassifications of the format accepted.
    pub media_types: Vec<MediaType>,
    /// IS-07 event types accepted, on a data Receiver that carries them.
    pub event_types: Vec<String>,
}

impl Duplicate for MediaCaps {
    open spec fn same(&self, other: &Self) -> bool {
        all_same(self.media_types@, other.media_types@) && all_same(
            self.event_types@,
            other.event_types@,
        )
    }

    fn duplicate(&self) -> (r: Self) {
        MediaCaps {
            media_types: duplicate_all(&self.media_types),
            event_types: duplicate_all(&self.event_types),
        }
    }
}

impl Duplicate for Receiver {
    open spec fn same(&self, other: &Self) -> bool {
        &&& self.core.same(&other.core)
        &&& self.device_id@ == other.device_id@
        &&& self.transport@ == other.transport@
        &&& all_same(self.interface_bindings@, other.interface_bindings@)
        &&& self.subscription.same(&other.subscription)
        &&& self.caps.same(&other.caps)
    }

    fn duplicate(&self) -> (r: Self) {
        Receiver {
            core: self.core.duplicate(),
            device_id: self.device_id.copy(),
            transport: self.transport.clone(),
            interface_bindings: duplicate_all(&self.interface_bindings),
            subscription: self.subscription.duplicate(),
            caps: self.caps.duplicate(),
        }
    }
}

} // verus!
