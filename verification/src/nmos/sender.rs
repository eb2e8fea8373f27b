//! The Sender resource: an egress from a Device, carrying a Flow onto the network.

use vstd::prelude::*;

use crate::base::dup::{all_same, duplicate_all, duplicate_opt, opt_same, Duplicate};
use crate::nmos::connection::Transmission;
use crate::nmos::resource::{Capabilities, ResourceCore, ResourceId};

verus! {

/// An egress from a Device.
///
/// Its subscription says whether it is putting its Flow on the network, and
/// nothing about whether anything is taking it — only the inventory, which
/// sees every Node, can answer that.
#[derive(Debug, Clone)]
pub struct Sender {
    /// The fields every NMOS resource carries.
    pub core: ResourceCore,
    /// Capabilities of this Sender.
    pub caps: Capabilities,
    /// The Flow currently routed to this Sender, or none when nothing is.
    pub flow_id: Option<ResourceId>,
    /// Transport type URN.
    pub transport: String,
    /// The Device this Sender forms part of.
    pub device_id: ResourceId,
    /// URL of a transport file describing how to connect.
    pub manifest_href: Option<String>,
    /// Names of the Node interfaces this Sender's egress is bound to.
    pub interface_bindings: Vec<String>,
    /// How the Sender is currently configured to send.
    pub subscription: SenderSubscription,
}

/// How a Sender is currently configured to send data.
///
/// `active` is IS-04's word. The rest of the library asks what a Sender is
/// doing through [`SenderSubscription::transmission`], which answers in the
/// domain's words. The field stays public because a struct with a private
/// field is opaque to every contract outside this module, and the public
/// contracts here name `receiver_id`.
#[derive(Debug, Clone)]
pub struct SenderSubscription {
    /// The Receiver this Sender is configured to send to, if it names one.
    pub receiver_id: Option<ResourceId>,
    /// IS-04's own flag. Read it through the method that names the state in the
    /// domain's words.
    pub active: bool,
}

impl SenderSubscription {
    /// IS-04's flag.
    pub open spec fn spec_active(&self) -> bool {
        self.active
    }

    /// What the Sender is doing.
    pub open spec fn spec_transmission(&self) -> Transmission {
        if self.spec_active() {
            Transmission::Transmitting
        } else {
            Transmission::Idle
        }
    }

    /// What the Sender is doing.
    pub fn transmission(&self) -> (r: Transmission)
        ensures
            r == self.spec_transmission(),
    {
        if self.active {
            Transmission::Transmitting
        } else {
            Transmission::Idle
        }
    }

    /// Build a subscription, for tests and for fabricated fixtures.
    pub fn new(transmission: Transmission, receiver_id: Option<ResourceId>) -> (r: Self)
        ensures
            r.spec_transmission() == transmission,
            r.receiver_id == receiver_id,
    {
        SenderSubscription { receiver_id, active: transmission.is_transmitting() }
    }

    /// IS-04's `active` flag, for writing the subscription back to the wire.
    pub fn active_flag(&self) -> (r: bool)
        ensures
            r == self.spec_active(),
    {
        self.active
    }

    /// A subscription as the wire has it.
    pub fn from_wire(receiver_id: Option<ResourceId>, active: bool) -> (r: Self)
        ensures
            r.spec_active() == active,
            r.receiver_id == receiver_id,
    {
        SenderSubscription { receiver_id, active }
    }
}

impl Duplicate for SenderSubscription {
    open spec fn same(&self, other: &Self) -> bool {
        opt_same(self.receiver_id, other.receiver_id) && self.spec_active() == other.spec_active()
    }

    fn duplicate(&self) -> (r: Self) {
        SenderSubscription { receiver_id: duplicate_opt(&self.receiver_id), active: self.active }
    }
}

impl Sender {
    /// What this Sender is doing, from the resource tree alone.
    pub fn transmission(&self) -> (r: Transmission)
        ensures
            r == self.subscription.spec_transmission(),
    {
        self.subscription.transmission()
    }
}

impl Duplicate for Sender {
    open spec fn same(&self, other: &Self) -> bool {
        &&& self.core.same(&other.core)
        &&& self.caps@ == other.caps@
        &&& opt_same(self.flow_id, other.flow_id)
        &&& self.transport@ == other.transport@
        &&& self.device_id@ == other.device_id@
        &&& opt_same(self.manifest_href, other.manifest_href)
        &&& all_same(self.interface_bindings@, other.interface_bindings@)
        &&& self.subscription.same(&other.subscription)
    }

    fn duplicate(&self) -> (r: Self) {
        Sender {
            core: self.core.duplicate(),
            caps: self.caps.clone(),
            flow_id: duplicate_opt(&self.flow_id),
            transport: self.transport.clone(),
            device_id: self.device_id.copy(),
            manifest_href: duplicate_opt(&self.manifest_href),
            interface_bindings: duplicate_all(&self.interface_bindings),
            subscription: self.subscription.duplicate(),
        }
    }
}

} // verus!
