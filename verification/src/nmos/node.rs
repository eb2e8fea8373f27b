//! The Node resource: one logical host on the network, as it announces itself.

use vstd::prelude::*;

use crate::base::dup::{all_same, duplicate_all, duplicate_opt, opt_same, Duplicate};
use crate::nmos::resource::{Capabilities, ResourceCore};

verus! {

/// One logical host, holding Devices.
#[derive(Debug, Clone)]
pub struct Node {
    /// The fields every NMOS resource carries.
    pub core: ResourceCore,
    /// HTTP access href for the Node's API (deprecated by IS-04).
    pub href: String,
    /// The Node's hostname, when it reports one.
    pub hostname: Option<String>,
    /// Where and in which versions the Node API can be reached.
    pub api: NodeApi,
    /// Capabilities. Not yet defined by the specification, and carried opaquely.
    pub caps: Capabilities,
    /// Services running on the Node.
    pub services: Vec<Service>,
    /// Clocks the Node makes available to its Devices.
    pub clocks: Vec<Clock>,
    /// Network interfaces, which Senders and Receivers bind to by name.
    pub interfaces: Vec<Interface>,
}

/// Where and in which versions a Node's API can be reached.
#[derive(Debug, Clone)]
pub struct NodeApi {
    /// API versions this Node supports, written `v1.3` and so on.
    pub versions: Vec<String>,
    /// Every host, port and protocol the API answers on.
    pub endpoints: Vec<ApiEndpoint>,
}

/// One address at which a Node's API answers.
#[derive(Debug, Clone)]
pub struct ApiEndpoint {
    /// IP address or hostname the API runs on.
    pub host: String,
    /// Port the API runs on.
    pub port: u16,
    /// Whether the API is reached over `http` or `https`.
    pub protocol: Protocol,
    /// Whether this endpoint requires authorization.
    pub authorization: bool,
}

/// The scheme an NMOS API is reached over.
#[derive(Debug, Clone, Copy, PartialEq, Eq, Structural, PartialOrd, Ord, Hash)]
pub enum Protocol {
    Http,
    Https,
}

impl Protocol {
    /// The scheme as it appears in a URL.
    pub open spec fn spec_str(self) -> Seq<char> {
        match self {
            Protocol::Http => "http"@,
            Protocol::Https => "https"@,
        }
    }

    /// The scheme as it appears in a URL.
    pub fn as_str(self) -> (r: &'static str)
        ensures
            r@ == self.spec_str(),
    {
        match self {
            Protocol::Http => "http",
            Protocol::Https => "https",
        }
    }
}

/// A service running on a Node, identified by a URN.
#[derive(Debug, Clone)]
pub struct Service {
    /// URL at which the service is reached.
    pub href: String,
    /// URN identifying the kind of service.
    pub kind: String,
    /// Whether the service requires authorization.
    pub authorization: bool,
}

/// A reference clock a Node offers its Devices.
#[derive(Debug, Clone)]
pub enum Clock {
    /// A clock with no external reference.
    Internal { name: String },
    /// A clock referenced to PTP.
    Ptp { name: String, traceable: bool, version: String, gmid: String, locked: bool },
}

/// A network interface on a Node, which Senders and Receivers bind to by name.
#[derive(Debug, Clone)]
pub struct Interface {
    /// Chassis ID as signalled in LLDP, or null where LLDP is unsuitable.
    pub chassis_id: Option<String>,
    /// Port ID as signalled in LLDP or ARP; a MAC address.
    pub port_id: String,
    /// Name of the interface, unique within the Node.
    pub name: String,
    /// The network device this interface is attached to, when LLDP reports one.
    pub attached_network_device: Option<AttachedNetworkDevice>,
}

/// The switch port a Node's interface is plugged into.
#[derive(Debug, Clone)]
pub struct AttachedNetworkDevice {
    /// Chassis ID of the attached network device.
    pub chassis_id: String,
    /// Port ID of the attached network device.
    pub port_id: String,
}

impl Duplicate for ApiEndpoint {
    open spec fn same(&self, other: &Self) -> bool {
        self.host@ == other.host@ && self.port == other.port && self.protocol == other.protocol
            && self.authorization == other.authorization
    }

    fn duplicate(&self) -> (r: Self) {
        ApiEndpoint {
            host: self.host.clone(),
            port: self.port,
            protocol: self.protocol,
            authorization: self.authorization,
        }
    }
}

impl Duplicate for NodeApi {
    open spec fn same(&self, other: &Self) -> bool {
        all_same(self.versions@, other.versions@) && all_same(self.endpoints@, other.endpoints@)
    }

    fn duplicate(&self) -> (r: Self) {
        NodeApi {
            versions: duplicate_all(&self.versions),
            endpoints: duplicate_all(&self.endpoints),
        }
    }
}

impl Duplicate for Service {
    open spec fn same(&self, other: &Self) -> bool {
        self.href@ == other.href@ && self.kind@ == other.kind@ && self.authorization
            == other.authorization
    }

    fn duplicate(&self) -> (r: Self) {
        Service {
            href: self.href.clone(),
            kind: self.kind.clone(),
            authorization: self.authorization,
        }
    }
}

impl Duplicate for Clock {
    open spec fn same(&self, other: &Self) -> bool {
        match (*self, *other) {
            (Clock::Internal { name: a }, Clock::Internal { name: b }) => a@ == b@,
            (
                Clock::Ptp { name: a, traceable: t, version: v, gmid: g, locked: l },
                Clock::Ptp { name: a2, traceable: t2, version: v2, gmid: g2, locked: l2 },
            ) => a@ == a2@ && t == t2 && v@ == v2@ && g@ == g2@ && l == l2,
            _ => false,
        }
    }

    fn duplicate(&self) -> (r: Self) {
        match self {
            Clock::Internal { name } => Clock::Internal { name: name.clone() },
            Clock::Ptp { name, traceable, version, gmid, locked } => Clock::Ptp {
                name: name.clone(),
                traceable: *traceable,
                version: version.clone(),
                gmid: gmid.clone(),
                locked: *locked,
            },
        }
    }
}

impl Duplicate for AttachedNetworkDevice {
    open spec fn same(&self, other: &Self) -> bool {
        self.chassis_id@ == other.chassis_id@ && self.port_id@ == other.port_id@
    }

    fn duplicate(&self) -> (r: Self) {
        AttachedNetworkDevice { chassis_id: self.chassis_id.clone(), port_id: self.port_id.clone() }
    }
}

impl Duplicate for Interface {
    open spec fn same(&self, other: &Self) -> bool {
        opt_same(self.chassis_id, other.chassis_id) && self.port_id@ == other.port_id@
            && self.name@ == other.name@ && opt_same(
            self.attached_network_device,
            other.attached_network_device,
        )
    }

    fn duplicate(&self) -> (r: Self) {
        Interface {
            chassis_id: duplicate_opt(&self.chassis_id),
            port_id: self.port_id.clone(),
            name: self.name.clone(),
            attached_network_device: duplicate_opt(&self.attached_network_device),
        }
    }
}

impl Duplicate for Node {
    open spec fn same(&self, other: &Self) -> bool {
        &&& self.core.same(&other.core)
        &&& self.href@ == other.href@
        &&& opt_same(self.hostname, other.hostname)
        &&& self.api.same(&other.api)
        &&& self.caps@ == other.caps@
        &&& all_same(self.services@, other.services@)
        &&& all_same(self.clocks@, other.clocks@)
        &&& all_same(self.interfaces@, other.interfaces@)
    }

    fn duplicate(&self) -> (r: Self) {
        Node {
            core: self.core.duplicate(),
            href: self.href.clone(),
            hostname: duplicate_opt(&self.hostname),
            api: self.api.duplicate(),
            caps: self.caps.clone(),
            services: duplicate_all(&self.services),
            clocks: duplicate_all(&self.clocks),
            interfaces: duplicate_all(&self.interfaces),
        }
    }
}

} // verus!
