//! What the IS-05 Connection API reports about transport: where a Sender's
//! stream goes and which stream a Receiver takes.
//!
//! Connection state is not read here. It already came from the resource tree,
//! and reading it again would cost one request per resource for an answer
//! already held.

use std::time::Duration;

use vstd::prelude::*;

use crate::base::decimal::{decimal, decimal_chars};
use crate::base::order::{
    lemma_lt_closed_then, lemma_lt_irreflexive, lemma_lt_total, lemma_text_key_injective,
    lemma_text_key_nonnegative, seq_lt, text_key,
};
use crate::base::table::Keyed;
use crate::base::text::{append_decimal, append_str, chars_of, string_from_chars, text_before};
use crate::nmos::http::{
    agent_name, build_client, configured, default_user_agent, http_body_failed, http_builder,
    http_error_message, http_error_text, http_timed_out, http_undecodable, seconds,
    timed_out, trim_trailing_slashes, undecodable, unreadable_body, whole_seconds,
    with_connect_timeout, with_timeout, with_user_agent, without_trailing_slashes,
};
use crate::nmos::resource::ResourceId;
use crate::nmos::version::{api_version_text, ApiVersion};

verus! {

broadcast use vstd::std_specs::vec::group_vec_axioms;

/// The IS-05 versions the Connection API client speaks.
pub fn supported_connection_versions() -> (r: Vec<ApiVersion>)
    ensures
        r@.len() == 2,
        r@[0].spec_major() == 1 && r@[0].spec_minor() == 0,
        r@[1].spec_major() == 1 && r@[1].spec_minor() == 1,
{
    let mut r = Vec::new();
    r.push(ApiVersion::new(1, 0));
    r.push(ApiVersion::new(1, 1));
    r
}

/// The URN prefix a Device uses to advertise its Connection API.
pub open spec fn connection_control_urn() -> Seq<char> {
    "urn:x-nmos:control:sr-ctrl"@
}

/// The URN prefix a Device uses to advertise its Connection API.
pub fn connection_control_prefix() -> (r: &'static str)
    ensures
        r@ == connection_control_urn(),
{
    "urn:x-nmos:control:sr-ctrl"
}

/// Where a stream actually goes, or comes from.
///
/// Two ends carrying the same address and port are the same stream, which is
/// what makes the connection graph possible on equipment that reports no
/// pairing identifiers.
#[derive(Debug, Clone, PartialEq, Eq, PartialOrd, Ord, Hash)]
pub struct StreamAddress {
    /// The address, as the device reports it.
    pub address: String,
    /// The port.
    pub port: u16,
}

impl StreamAddress {
    /// A copy of the address.
    pub fn copy(&self) -> (r: StreamAddress)
        ensures
            r.address@ == self.address@,
            r.port == self.port,
    {
        StreamAddress { address: self.address.clone(), port: self.port }
    }

    /// The address as an operator reads it: `address:port`.
    pub fn to_string(&self) -> (r: String)
        ensures
            r@ == self.address@.push(':') + decimal(self.port as nat),
    {
        let mut chars = chars_of(self.address.as_str());
        chars.push(':');
        let mut port = decimal_chars(self.port as u64);
        chars.append(&mut port);
        string_from_chars(&chars)
    }
}

impl Keyed for StreamAddress {
    /// Ordered by address, then by port; the address is closed by a mark
    /// below every character, so a shorter address sorts first.
    open spec fn key(&self) -> Seq<int> {
        text_key(self.address@).push(-1).push(self.port as int)
    }

    fn same_key(&self, other: &Self) -> (r: bool) {
        let r = self.address == other.address && self.port == other.port;
        proof {
            lemma_text_key_injective(self.address@, other.address@);
            let a = text_key(self.address@);
            let b = text_key(other.address@);
            if self.key() == other.key() {
                assert(self.key().len() == other.key().len());
                assert(a.len() == b.len());
                assert(a =~= self.key().subrange(0, a.len() as int));
                assert(b =~= other.key().subrange(0, b.len() as int));
                assert(self.key()[(a.len() + 1) as int] == self.port as int);
            }
        }
        r
    }

    fn key_before(&self, other: &Self) -> (r: bool) {
        let a = self.address.as_str();
        let b = other.address.as_str();
        let before = text_before(a, b);
        let after = text_before(b, a);
        let r = if before {
            true
        } else if after {
            false
        } else {
            self.port < other.port
        };
        proof {
            lemma_stream_key_order(self.address@, self.port, other.address@, other.port);
        }
        r
    }
}

/// How two stream keys are ordered: by address, then by port.
proof fn lemma_stream_key_order(a: Seq<char>, p: u16, b: Seq<char>, q: u16)
    ensures
        seq_lt(text_key(a).push(-1).push(p as int), text_key(b).push(-1).push(q as int)) == (seq_lt(
            text_key(a),
            text_key(b),
        ) || (!seq_lt(text_key(a), text_key(b)) && !seq_lt(text_key(b), text_key(a)) && p < q)),
{
    lemma_text_key_nonnegative(a);
    lemma_text_key_nonnegative(b);
    lemma_lt_closed_then(text_key(a), p as int, text_key(b), q as int);
    if text_key(a) != text_key(b) {
        lemma_lt_total(text_key(a), text_key(b));
    } else {
        lemma_lt_irreflexive(text_key(a));
    }
}

/// One leg of a Sender's transport. More than one means ST 2022-7.
#[derive(Debug, Clone, PartialEq, Eq)]
pub struct SenderLeg {
    /// Address the stream is sent to; `None` where the device reports `auto`
    /// or nothing.
    pub destination_ip: Option<String>,
    /// Port the stream is sent to, on the same terms.
    pub destination_port: Option<u16>,
    /// Address the stream is sent from.
    pub source_ip: Option<String>,
    /// Whether RTP is enabled on this leg.
    pub rtp_enabled: bool,
}

impl SenderLeg {
    /// Whether this leg's destination is knowable: RTP is on, and both the
    /// address and the port are reported.
    pub open spec fn spec_has_destination(&self) -> bool {
        self.rtp_enabled && self.destination_ip is Some && self.destination_port is Some
    }

    /// Where this leg sends, when that is knowable.
    pub fn destination(&self) -> (r: Option<StreamAddress>)
        ensures
            r is Some <==> self.spec_has_destination(),
            r matches Some(s) ==> s.address@ == self.destination_ip->0@ && s.port
                == self.destination_port->0,
    {
        if !self.rtp_enabled {
            return None;
        }
        match (&self.destination_ip, self.destination_port) {
            (Some(address), Some(port)) => Some(StreamAddress { address: address.clone(), port }),
            _ => None,
        }
    }
}

/// One leg of a Receiver's transport.
#[derive(Debug, Clone, PartialEq, Eq)]
pub struct ReceiverLeg {
    /// Multicast group joined, where the stream is multicast.
    pub multicast_ip: Option<String>,
    /// Address the stream comes from.
    pub source_ip: Option<String>,
    /// Port the stream arrives on.
    pub destination_port: Option<u16>,
    /// Whether RTP is enabled on this leg.
    pub rtp_enabled: bool,
}

impl ReceiverLeg {
    /// Whether this leg's stream is knowable: RTP is on, an address is
    /// reported (the group, or failing that the source) and a port.
    pub open spec fn spec_has_stream(&self) -> bool {
        self.rtp_enabled && (self.multicast_ip is Some || self.source_ip is Some)
            && self.destination_port is Some
    }

    /// The address identifying the stream: the multicast group, or failing
    /// that the source.
    pub open spec fn spec_stream_address(&self) -> Seq<char> {
        match self.multicast_ip {
            Some(m) => m@,
            None => self.source_ip->0@,
        }
    }

    /// Which stream this leg takes, when that is knowable.
    ///
    /// A multicast group identifies the stream; a unicast stream is identified
    /// by where it comes from.
    pub fn stream(&self) -> (r: Option<StreamAddress>)
        ensures
            r is Some <==> self.spec_has_stream(),
            r matches Some(s) ==> s.address@ == self.spec_stream_address() && s.port
                == self.destination_port->0,
    {
        if !self.rtp_enabled {
            return None;
        }
        let address = match &self.multicast_ip {
            Some(m) => m.clone(),
            None => match &self.source_ip {
                Some(s) => s.clone(),
                None => return None,
            },
        };
        match self.destination_port {
            Some(port) => Some(StreamAddress { address, port }),
            None => None,
        }
    }
}

/// What a Sender's Connection API reports about where its stream goes.
#[derive(Debug, Clone, PartialEq, Eq)]
pub struct SenderTransport {
    /// The Receiver this Sender was configured against, when it names one.
    pub receiver_id: Option<ResourceId>,
    /// One entry per leg.
    pub legs: Vec<SenderLeg>,
}

/// What a Receiver's Connection API reports about the stream it takes.
#[derive(Debug, Clone, PartialEq, Eq)]
pub struct ReceiverTransport {
    /// The Sender this Receiver names, when it names one.
    pub sender_id: Option<ResourceId>,
    /// One entry per leg.
    pub legs: Vec<ReceiverLeg>,
    /// Whether the Receiver was connected by transport file rather than by
    /// naming a Sender.
    pub has_transport_file: bool,
}

/// A field IS-05 writes either as a value or as the string `auto`.
///
/// `auto` says the device decides, which from here is indistinguishable from
/// not knowing — so it collapses to `None` rather than to a plausible number.
#[derive(Debug, Clone)]
pub enum AutoOr<T> {
    /// A value.
    Value(T),
    /// The literal string `auto`.
    Auto(String),
}

impl<T> AutoOr<T> {
    /// The value, if the device stated one.
    pub fn known(self) -> (r: Option<T>)
        ensures
            r == (match self {
                AutoOr::Value(v) => Some(v),
                AutoOr::Auto(_) => None::<T>,
            }),
    {
        match self {
            AutoOr::Value(value) => Some(value),
            AutoOr::Auto(_) => None,
        }
    }
}

/// The value of a field, if it is present and not `auto`.
pub open spec fn spec_known<T>(field: Option<AutoOr<T>>) -> Option<T> {
    match field {
        Some(AutoOr::Value(v)) => Some(v),
        _ => None,
    }
}

/// The value of a field, if it is present and not `auto`.
pub fn known<T>(field: Option<AutoOr<T>>) -> (r: Option<T>)
    ensures
        r == spec_known(field),
{
    match field {
        Some(f) => f.known(),
        None => None,
    }
}

/// One leg of a Sender's transport as the wire writes it.
#[derive(Debug, Clone)]
pub struct WireSenderLeg {
    pub destination_ip: Option<AutoOr<String>>,
    pub destination_port: Option<AutoOr<u16>>,
    pub source_ip: Option<AutoOr<String>>,
    pub rtp_enabled: bool,
}

/// One leg of a Receiver's transport as the wire writes it.
#[derive(Debug, Clone)]
pub struct WireReceiverLeg {
    pub multicast_ip: Option<AutoOr<String>>,
    pub source_ip: Option<AutoOr<String>>,
    pub destination_port: Option<AutoOr<u16>>,
    pub rtp_enabled: bool,
}

/// A Sender's active transport as the wire writes it.
#[derive(Debug, Clone)]
pub struct WireSender {
    pub receiver_id: Option<ResourceId>,
    pub transport_params: Vec<WireSenderLeg>,
}

/// A Receiver's transport file as the wire writes it.
#[derive(Debug, Clone)]
pub struct WireTransportFile {
    pub data: Option<String>,
}

/// A Receiver's active transport as the wire writes it.
#[derive(Debug, Clone)]
pub struct WireReceiver {
    pub sender_id: Option<ResourceId>,
    pub transport_params: Vec<WireReceiverLeg>,
    pub transport_file: Option<WireTransportFile>,
}

/// A leg read from the wire: every `auto` collapses to not knowing.
pub open spec fn sender_leg_of(w: WireSenderLeg) -> SenderLeg {
    SenderLeg {
        destination_ip: spec_known(w.destination_ip),
        destination_port: spec_known(w.destination_port),
        source_ip: spec_known(w.source_ip),
        rtp_enabled: w.rtp_enabled,
    }
}

/// A leg read from the wire: every `auto` collapses to not knowing.
pub open spec fn receiver_leg_of(w: WireReceiverLeg) -> ReceiverLeg {
    ReceiverLeg {
        multicast_ip: spec_known(w.multicast_ip),
        source_ip: spec_known(w.source_ip),
        destination_port: spec_known(w.destination_port),
        rtp_enabled: w.rtp_enabled,
    }
}

impl SenderLeg {
    /// A leg read from the wire.
    pub fn from_wire(leg: WireSenderLeg) -> (r: SenderLeg)
        ensures
            r == sender_leg_of(leg),
    {
        SenderLeg {
            destination_ip: known(leg.destination_ip),
            destination_port: known(leg.destination_port),
            source_ip: known(leg.source_ip),
            rtp_enabled: leg.rtp_enabled,
        }
    }
}

impl ReceiverLeg {
    /// A leg read from the wire.
    pub fn from_wire(leg: WireReceiverLeg) -> (r: ReceiverLeg)
        ensures
            r == receiver_leg_of(leg),
    {
        ReceiverLeg {
            multicast_ip: known(leg.multicast_ip),
            source_ip: known(leg.source_ip),
            destination_port: known(leg.destination_port),
            rtp_enabled: leg.rtp_enabled,
        }
    }
}

impl SenderTransport {
    /// A Sender's transport read from the wire, leg by leg in order.
    pub fn from_wire(wire: WireSender) -> (r: SenderTransport)
        ensures
            r.receiver_id == wire.receiver_id,
            r.legs@ == wire.transport_params@.map_values(|w: WireSenderLeg| sender_leg_of(w)),
    {
        let WireSender { receiver_id, transport_params } = wire;
        let ghost wires = transport_params@;
        let mut legs: Vec<SenderLeg> = Vec::new();
        let mut rest = transport_params;
        while rest.len() > 0
            invariant
                rest@ == wires.subrange(legs@.len() as int, wires.len() as int),
                legs@.len() <= wires.len(),
                legs@ == wires.subrange(0, legs@.len() as int).map_values(|w: WireSenderLeg| sender_leg_of(w)),
            decreases rest@.len(),
        {
            let ghost done = legs@.len() as int;
            let leg = rest.remove(0);
            assert(leg == wires[done]);
            legs.push(SenderLeg::from_wire(leg));
            assert(wires.subrange(0, done + 1) =~= wires.subrange(0, done).push(wires[done]));
            assert(rest@ =~= wires.subrange(done + 1, wires.len() as int));
        }
        assert(wires.subrange(0, wires.len() as int) =~= wires);
        SenderTransport { receiver_id, legs }
    }
}

impl ReceiverTransport {
    /// A Receiver's transport read from the wire, leg by leg in order.
    pub fn from_wire(wire: WireReceiver) -> (r: ReceiverTransport)
        ensures
            r.sender_id == wire.sender_id,
            r.legs@ == wire.transport_params@.map_values(|w: WireReceiverLeg| receiver_leg_of(w)),
            r.has_transport_file == (match wire.transport_file {
                Some(file) => file.data is Some,
                None => false,
            }),
    {
        let WireReceiver { sender_id, transport_params, transport_file } = wire;
        let ghost wires = transport_params@;
        let mut legs: Vec<ReceiverLeg> = Vec::new();
        let mut rest = transport_params;
        while rest.len() > 0
            invariant
                rest@ == wires.subrange(legs@.len() as int, wires.len() as int),
                legs@.len() <= wires.len(),
                legs@ == wires.subrange(0, legs@.len() as int).map_values(|w: WireReceiverLeg| receiver_leg_of(w)),
            decreases rest@.len(),
        {
            let ghost done = legs@.len() as int;
            let leg = rest.remove(0);
            assert(leg == wires[done]);
            legs.push(ReceiverLeg::from_wire(leg));
            assert(wires.subrange(0, done + 1) =~= wires.subrange(0, done).push(wires[done]));
            assert(rest@ =~= wires.subrange(done + 1, wires.len() as int));
        }
        assert(wires.subrange(0, wires.len() as int) =~= wires);
        let has_transport_file = match transport_file {
            Some(file) => file.data.is_some(),
            None => false,
        };
        ReceiverTransport { sender_id, legs, has_transport_file }
    }
}

// ---------------------------------------------------------------------------
// Failures, and the client.

/// Why a Connection API could not be read.
#[derive(Debug)]
#[non_exhaustive]
pub enum ConnectionApiError {
    /// The connection could not be made.
    Unreachable {
        /// Which resource was being read.
        resource: String,
        /// Why the connection failed.
        reason: String,
    },
    /// The Node accepted the connection but did not answer in time.
    Timeout {
        /// Which resource was being read.
        resource: String,
    },
    /// The Node answered with an error status.
    Status {
        /// Which resource was being read.
        resource: String,
        /// The status it answered with.
        status: u16,
    },
    /// The Node answered with something that is not a transport.
    Malformed {
        /// Which resource was being read.
        resource: String,
        /// What could not be understood.
        reason: String,
    },
    /// The HTTP client could not be constructed.
    Client {
        /// Why.
        reason: String,
    },
}

/// How a Connection API failure reads.
pub open spec fn connection_error_text(e: ConnectionApiError) -> Seq<char> {
    match e {
        ConnectionApiError::Unreachable { resource, reason } => "cannot reach the connection api for "@
            + resource@ + ": "@ + reason@,
        ConnectionApiError::Timeout { resource } => "timed out reading the connection api for "@
            + resource@,
        ConnectionApiError::Status { resource, status } => "connection api answered "@ + decimal(
            status as nat,
        ) + " for "@ + resource@,
        ConnectionApiError::Malformed { resource, reason } =>
            "cannot understand the connection api's answer for "@ + resource@ + ": "@ + reason@,
        ConnectionApiError::Client { reason } => "cannot build an http client: "@ + reason@,
    }
}

impl ConnectionApiError {
    /// The failure as an operator reads it.
    pub fn to_string(&self) -> (r: String)
        ensures
            r@ == connection_error_text(*self),
    {
        let mut v: Vec<char> = Vec::new();
        match self {
            ConnectionApiError::Unreachable { resource, reason } => {
                append_str(&mut v, "cannot reach the connection api for ");
                append_str(&mut v, resource.as_str());
                append_str(&mut v, ": ");
                append_str(&mut v, reason.as_str());
            },
            ConnectionApiError::Timeout { resource } => {
                append_str(&mut v, "timed out reading the connection api for ");
                append_str(&mut v, resource.as_str());
            },
            ConnectionApiError::Status { resource, status } => {
                append_str(&mut v, "connection api answered ");
                append_decimal(&mut v, *status as u64);
                append_str(&mut v, " for ");
                append_str(&mut v, resource.as_str());
            },
            ConnectionApiError::Malformed { resource, reason } => {
                append_str(&mut v, "cannot understand the connection api's answer for ");
                append_str(&mut v, resource.as_str());
                append_str(&mut v, ": ");
                append_str(&mut v, reason.as_str());
            },
            ConnectionApiError::Client { reason } => {
                append_str(&mut v, "cannot build an http client: ");
                append_str(&mut v, reason.as_str());
            },
        }
        string_from_chars(&v)
    }
}

/// The failure a request that did not complete is reported as: a timeout, an
/// answer that could not be decoded, or otherwise a Node not reached.
pub open spec fn is_failure_of(
    e: ConnectionApiError,
    resource: Seq<char>,
    timed_out: bool,
    undecodable: bool,
    reason: Seq<char>,
) -> bool {
    match e {
        ConnectionApiError::Timeout { resource: r } => timed_out && r@ == resource,
        ConnectionApiError::Malformed { resource: r, reason: y } => !timed_out && undecodable && r@
            == resource && y@ == reason,
        ConnectionApiError::Unreachable { resource: r, reason: y } => !timed_out && !undecodable
            && r@ == resource && y@ == reason,
        _ => false,
    }
}

/// The failure a request that did not complete is reported as.
pub fn classify_failure(resource: &str, timed_out: bool, undecodable: bool, reason: String) -> (r:
    ConnectionApiError)
    ensures
        is_failure_of(r, resource@, timed_out, undecodable, reason@),
{
    let resource = resource.to_owned();
    if timed_out {
        ConnectionApiError::Timeout { resource }
    } else if undecodable {
        ConnectionApiError::Malformed { resource, reason }
    } else {
        ConnectionApiError::Unreachable { resource, reason }
    }
}

/// The failure an HTTP error is reported as, naming the resource.
pub fn classify(error: reqwest::Error, resource: &str) -> (r: ConnectionApiError)
    ensures
        is_failure_of(
            r,
            resource@,
            http_timed_out(error),
            http_undecodable(error) || http_body_failed(error),
            http_error_message(error),
        ),
{
    let t = timed_out(&error);
    let u = undecodable(&error) || unreadable_body(&error);
    let reason = http_error_text(&error);
    classify_failure(resource, t, u, reason)
}

/// The answer's status, as a failure unless it is `200 OK`.
pub fn check_status(resource: &str, status: u16) -> (r: Result<(), ConnectionApiError>)
    ensures
        match r {
            Ok(()) => status == 200,
            Err(ConnectionApiError::Status { resource: x, status: s }) => status != 200 && x@
                == resource@ && s == status,
            Err(_) => false,
        },
{
    if status == 200 {
        Ok(())
    } else {
        Err(ConnectionApiError::Status { resource: resource.to_owned(), status })
    }
}

/// How a resource is named in a failure: `kind/id`.
pub open spec fn resource_text(kind: Seq<char>, id: Seq<char>) -> Seq<char> {
    kind + "/"@ + id
}

/// How a resource is named in a failure: `kind/id`.
pub fn resource_name(kind: &str, id: &ResourceId) -> (r: String)
    ensures
        r@ == resource_text(kind@, id@),
{
    let mut v: Vec<char> = Vec::new();
    append_str(&mut v, kind);
    append_str(&mut v, "/");
    append_str(&mut v, id.as_str());
    string_from_chars(&v)
}

/// Where a resource's active transport is read.
pub open spec fn active_url_text(base: Seq<char>, version: ApiVersion, kind: Seq<char>, id: Seq<
    char,
>) -> Seq<char> {
    without_trailing_slashes(base) + "/x-nmos/connection/"@ + api_version_text(
        version.spec_major(),
        version.spec_minor(),
    ) + "/single/"@ + kind + "/"@ + id + "/active"@
}

/// Where a resource's active transport is read: the Connection API at
/// `base`, at `version`, for the `kind` (`senders` or `receivers`) and `id`.
pub fn active_url(base: &str, version: ApiVersion, kind: &str, id: &ResourceId) -> (r: String)
    ensures
        r@ == active_url_text(base@, version, kind@, id@),
{
    let mut v = trim_trailing_slashes(base);
    append_str(&mut v, "/x-nmos/connection/");
    let version_text = version.to_string();
    append_str(&mut v, version_text.as_str());
    append_str(&mut v, "/single/");
    append_str(&mut v, kind);
    append_str(&mut v, "/");
    append_str(&mut v, id.as_str());
    append_str(&mut v, "/active");
    string_from_chars(&v)
}

/// Reads Connection APIs.
pub struct ConnectionApiClient {
    http: reqwest::Client,
    configured_by: Ghost<reqwest::ClientBuilder>,
}

/// Builds a [`ConnectionApiClient`].
#[derive(Debug)]
pub struct ConnectionApiClientBuilder {
    request_timeout: Duration,
    connect_timeout: Duration,
    user_agent: String,
}

impl ConnectionApiClientBuilder {
    /// How long one request may take in total.
    pub closed spec fn spec_request_timeout(self) -> Duration {
        self.request_timeout
    }

    /// How long establishing a connection may take.
    pub closed spec fn spec_connect_timeout(self) -> Duration {
        self.connect_timeout
    }

    /// What the controller identifies itself as.
    pub closed spec fn spec_user_agent(self) -> Seq<char> {
        self.user_agent@
    }

    /// How long one request may take in total.
    pub fn request_timeout(self, timeout: Duration) -> (r: Self)
        ensures
            r.spec_request_timeout() == timeout,
            r.spec_connect_timeout() == self.spec_connect_timeout(),
            r.spec_user_agent() == self.spec_user_agent(),
    {
        ConnectionApiClientBuilder { request_timeout: timeout, ..self }
    }

    /// How long establishing a connection may take.
    pub fn connect_timeout(self, timeout: Duration) -> (r: Self)
        ensures
            r.spec_connect_timeout() == timeout,
            r.spec_request_timeout() == self.spec_request_timeout(),
            r.spec_user_agent() == self.spec_user_agent(),
    {
        ConnectionApiClientBuilder { connect_timeout: timeout, ..self }
    }

    /// What to identify this controller as.
    pub fn user_agent(self, user_agent: String) -> (r: Self)
        ensures
            r.spec_user_agent() == user_agent@,
            r.spec_request_timeout() == self.spec_request_timeout(),
            r.spec_connect_timeout() == self.spec_connect_timeout(),
    {
        ConnectionApiClientBuilder { user_agent, ..self }
    }

    /// Build the client.
    ///
    /// Fails, with [`ConnectionApiError::Client`], only if the HTTP client
    /// cannot be constructed.
    pub fn build(self) -> (r: Result<ConnectionApiClient, ConnectionApiError>)
        ensures
            r matches Ok(c) ==> exists|start: reqwest::ClientBuilder| c.spec_configured_by() == configured(
                start,
                self.spec_request_timeout(),
                self.spec_connect_timeout(),
                self.spec_user_agent(),
            ),
            r matches Err(e) ==> e matches ConnectionApiError::Client { reason } && exists|x: reqwest::Error|
                reason@ == http_error_message(x),
    {
        let start = http_builder();
        let ghost first = start;
        let b = with_timeout(start, self.request_timeout);
        let b = with_connect_timeout(b, self.connect_timeout);
        let b = with_user_agent(b, self.user_agent);
        let ghost made = b;
        assert(made == configured(first, self.request_timeout, self.connect_timeout, self.user_agent@));
        match build_client(b) {
            Ok(http) => {
                let c = ConnectionApiClient { http, configured_by: Ghost(made) };
                assert(c.spec_configured_by() == configured(
                    first,
                    self.spec_request_timeout(),
                    self.spec_connect_timeout(),
                    self.spec_user_agent(),
                ));
                Ok(c)
            },
            Err(e) => Err(build_failure(e)),
        }
    }
}

/// What a failure to build the HTTP client is reported as, in the HTTP
/// client's own words.
pub fn build_failure(e: reqwest::Error) -> (r: ConnectionApiError)
    ensures
        r matches ConnectionApiError::Client { reason } && reason@ == http_error_message(e),
{
    ConnectionApiError::Client { reason: http_error_text(&e) }
}

impl Default for ConnectionApiClientBuilder {
    /// Five seconds a request, two to connect, and this controller's name.
    fn default() -> (r: Self)
        ensures
            r.spec_request_timeout() == whole_seconds(5),
            r.spec_connect_timeout() == whole_seconds(2),
            r.spec_user_agent() == agent_name(),
    {
        ConnectionApiClientBuilder {
            request_timeout: seconds(5),
            connect_timeout: seconds(2),
            user_agent: default_user_agent(),
        }
    }
}

impl ConnectionApiClient {
    /// Start building a client.
    pub fn builder() -> (r: ConnectionApiClientBuilder)
        ensures
            r.spec_request_timeout() == whole_seconds(5),
            r.spec_connect_timeout() == whole_seconds(2),
            r.spec_user_agent() == agent_name(),
    {
        ConnectionApiClientBuilder::default()
    }

    /// The HTTP client this client holds.
    pub closed spec fn spec_http(&self) -> reqwest::Client {
        self.http
    }

    /// The builder the HTTP client was built from.
    pub closed spec fn spec_configured_by(&self) -> reqwest::ClientBuilder {
        self.configured_by@
    }

    /// The HTTP client requests are sent with: the one this client holds.
    pub fn http(&self) -> (r: &reqwest::Client)
        ensures
            *r == self.spec_http(),
    {
        &self.http
    }
}

/// A Sender leg with RTP switched off sends nowhere; one switched on with an
/// address and a port sends there.
pub proof fn law_a_leg_switched_off_sends_nowhere(leg: SenderLeg, r: Option<StreamAddress>)
    requires
        r is Some <==> leg.spec_has_destination(),
        r matches Some(s) ==> s.address@ == leg.destination_ip->0@ && s.port == leg.destination_port->0,
    ensures
        !leg.rtp_enabled ==> r is None,
        leg.rtp_enabled && leg.destination_ip is Some && leg.destination_port is Some ==> (r matches Some(s)
            && s.address@ == leg.destination_ip->0@ && s.port == leg.destination_port->0),
{
}

/// A Receiver leg is identified by its multicast group, or, unicast, by the
/// source it takes from: with RTP on and a port, either gives a stream.
pub proof fn law_a_unicast_leg_is_taken_from_its_source(leg: ReceiverLeg, r: Option<StreamAddress>)
    requires
        r is Some <==> leg.spec_has_stream(),
        r matches Some(s) ==> s.address@ == leg.spec_stream_address() && s.port == leg.destination_port->0,
    ensures
        leg.rtp_enabled && leg.multicast_ip is None && leg.source_ip is Some && leg.destination_port is Some ==> (r matches Some(
            s,
        ) && s.address@ == leg.source_ip->0@ && s.port == leg.destination_port->0),
        leg.rtp_enabled && leg.multicast_ip is Some && leg.destination_port is Some ==> (r matches Some(s)
            && s.address@ == leg.multicast_ip->0@ && s.port == leg.destination_port->0),
        !leg.rtp_enabled ==> r is None,
{
}

} // verus!
