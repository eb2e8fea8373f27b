//! Changing a device: the one thing this controller does that is not a read.
//!
//! IS-05 has a single verb — stage a patch and say when it takes effect — so
//! putting a Sender on air, taking it off, connecting a Receiver and
//! disconnecting it are one request with four documents. What is decided here
//! is what those documents say and whether the device's answer confirms what
//! was asked; sending them is the caller's business.

use vstd::prelude::*;

use crate::base::text::{append_str, string_from_chars};
use crate::discovery::endpoint::IpAddress;
use crate::nmos::connection_api::StreamAddress;
use crate::nmos::version::ApiVersion;

verus! {

broadcast use vstd::std_specs::vec::group_vec_axioms;

/// The IS-05 version writes are addressed at.
pub fn connection_version() -> (r: ApiVersion)
    ensures
        r.spec_major() == 1 && r.spec_minor() == 1,
{
    ApiVersion::new(1, 1)
}

/// What a Receiver is told to take.
///
/// The media description travels from Sender to Receiver as an SDP, passed
/// through unread. Not every Sender publishes one, so the addresses are the
/// fallback, and there is deliberately no third case where a Receiver is
/// enabled with nothing to point it at.
#[derive(Debug, Clone, PartialEq, Eq)]
pub enum StreamSource {
    /// The Sender's transport file, handed over unchanged, with the addresses
    /// the Sender reports for the same stream (possibly none).
    TransportFile {
        /// The SDP, unread.
        data: String,
        /// Where the Sender says the stream goes, one entry per leg.
        streams: Vec<StreamAddress>,
    },
    /// Where the Sender's stream goes, one entry per leg, primary first.
    Streams(Vec<StreamAddress>),
}

/// One Receiver leg, joining the group a Sender leg sends to, with RTP
/// stated enabled.
#[derive(Debug, Clone, Copy, PartialEq, Eq, Structural)]
pub struct ReceiverLegPlan {
    /// The group to join.
    pub multicast_ip: IpAddress,
    /// The port to receive on.
    pub destination_port: u16,
    /// Whether RTP is enabled on the leg: always stated, always true.
    pub rtp_enabled: bool,
}

/// The message for an address this controller cannot use.
pub open spec fn unusable_address_text(address: Seq<char>) -> Seq<char> {
    "the Sender reports an address this controller cannot use: "@ + address
}

/// The index of the first stream whose address could not be read, or `-1`.
pub open spec fn first_unreadable(parsed: Seq<Option<IpAddress>>) -> int {
    if exists|i: int| 0 <= i < parsed.len() && #[trigger] parsed[i] is None {
        choose|i: int| 0 <= i < parsed.len() && parsed[i] is None && forall|j: int| 0 <= j < i ==> #[trigger] parsed[j] is Some
    } else {
        -1
    }
}

/// One Receiver leg per Sender leg, joining the group the Sender sends to.
///
/// `parsed` holds, for each stream, its address as an IP address, or `None`
/// where the address cannot be read as one; the first such address fails the
/// whole, by name.
pub fn legs(streams: &[StreamAddress], parsed: &[Option<IpAddress>]) -> (r: Result<Vec<ReceiverLegPlan>, String>)
    requires
        streams@.len() == parsed@.len(),
    ensures
        match r {
            Ok(v) => first_unreadable(parsed@) == -1 && v@.len() == streams@.len() && forall|i: int|
                0 <= i < v@.len() ==> (#[trigger] v@[i]).multicast_ip == parsed@[i]->0 && v@[i].destination_port
                    == streams@[i].port && v@[i].rtp_enabled,
            Err(m) => first_unreadable(parsed@) != -1 && m@ == unusable_address_text(
                streams@[first_unreadable(parsed@)].address@,
            ),
        },
{
    let mut v: Vec<ReceiverLegPlan> = Vec::new();
    let mut i: usize = 0;
    while i < streams.len()
        invariant
            streams@.len() == parsed@.len(),
            i <= streams@.len(),
            v@.len() == i,
            forall|j: int| 0 <= j < i ==> #[trigger] parsed@[j] is Some,
            forall|j: int|
                0 <= j < i ==> (#[trigger] v@[j]).multicast_ip == parsed@[j]->0 && v@[j].destination_port
                    == streams@[j].port && v@[j].rtp_enabled,
        decreases streams@.len() - i,
    {
        match parsed[i] {
            Some(ip) => {
                v.push(ReceiverLegPlan { multicast_ip: ip, destination_port: streams[i].port, rtp_enabled: true });
            },
            None => {
                let ghost f = first_unreadable(parsed@);
                assert(f == i) by {
                    assert(parsed@[i as int] is None);
                    if f < i {
                    } else if f > i {
                    }
                }
                let mut m: Vec<char> = Vec::new();
                append_str(&mut m, "the Sender reports an address this controller cannot use: ");
                append_str(&mut m, streams[i].address.as_str());
                return Err(string_from_chars(&m));
            },
        }
        i = i + 1;
    }
    Ok(v)
}

/// What a Receiver's staged patch says of the stream: the transport file,
/// and the legs.
#[derive(Debug, Clone, PartialEq, Eq)]
pub struct SubscriptionPlan {
    /// The SDP to stage, if the Sender publishes one.
    pub transport_file: Option<String>,
    /// The legs to stage, if the Sender reports where it sends.
    pub legs: Option<Vec<ReceiverLegPlan>>,
}

/// The streams a source names.
pub open spec fn source_streams(source: StreamSource) -> Seq<StreamAddress> {
    match source {
        StreamSource::TransportFile { streams, .. } => streams@,
        StreamSource::Streams(streams) => streams@,
    }
}

/// Whether a plan is what a source asks for: a transport file alone when the
/// Sender reports no addresses; otherwise its legs, with the file where there
/// is one; or the first address that cannot be used, by name.
pub open spec fn subscription_planned(
    source: StreamSource,
    parsed: Seq<Option<IpAddress>>,
    r: Result<SubscriptionPlan, String>,
) -> bool {
    let streams = source_streams(source);
    let file = match source {
        StreamSource::TransportFile { data, .. } => Some(data@),
        StreamSource::Streams(_) => None,
    };
    if file is Some && streams.len() == 0 {
        &&& r is Ok
        &&& r->Ok_0.legs is None
        &&& opt_text_of(r->Ok_0.transport_file) == file
    } else {
        match r {
            Ok(p) => {
                &&& first_unreadable(parsed) == -1
                &&& opt_text_of(p.transport_file) == file
                &&& p.legs is Some
                &&& p.legs->0@.len() == streams.len()
                &&& forall|i: int|
                    0 <= i < p.legs->0@.len() ==> (#[trigger] p.legs->0@[i]).multicast_ip
                        == parsed[i]->0 && p.legs->0@[i].destination_port == streams[i].port
                        && p.legs->0@[i].rtp_enabled
            },
            Err(m) => first_unreadable(parsed) != -1 && m@ == unusable_address_text(
                streams[first_unreadable(parsed)].address@,
            ),
        }
    }
}

/// The view of an optional text.
pub open spec fn opt_text_of(o: Option<String>) -> Option<Seq<char>> {
    match o {
        Some(s) => Some(s@),
        None => None,
    }
}

/// What a Receiver is told to take: a transport file alone when the Sender
/// reports no addresses; otherwise its legs, with the file where there is
/// one. An address that cannot be used fails it, by name.
pub fn subscription_plan(source: StreamSource, parsed: &[Option<IpAddress>]) -> (r: Result<SubscriptionPlan, String>)
    requires
        source_streams(source).len() == parsed@.len(),
    ensures
        subscription_planned(source, parsed@, r),
{
    match source {
        StreamSource::TransportFile { data, streams } => {
            if streams.len() == 0 {
                Ok(SubscriptionPlan { transport_file: Some(data), legs: None })
            } else {
                match legs(streams.as_slice(), parsed) {
                    Ok(l) => Ok(SubscriptionPlan { transport_file: Some(data), legs: Some(l) }),
                    Err(m) => Err(m),
                }
            }
        },
        StreamSource::Streams(streams) => match legs(streams.as_slice(), parsed) {
            Ok(l) => Ok(SubscriptionPlan { transport_file: None, legs: Some(l) }),
            Err(m) => Err(m),
        },
    }
}

/// A truth value as it is written.
pub open spec fn bool_text(b: bool) -> Seq<char> {
    if b {
        "true"@
    } else {
        "false"@
    }
}

/// The message for a device that did not do what it was asked.
pub open spec fn refusal_text(answered: bool, asked: bool) -> Seq<char> {
    "the device answered master_enable="@ + bool_text(answered) + " to a request for "@ + bool_text(
        asked,
    ) + "; something else is staging against it"@
}

/// Hold the device to what it answered.
///
/// IS-05 has no locking, so two controllers can stage against one resource
/// at once. The reply is the only evidence of what took effect, and a
/// controller that ignored it would report success for a change that never
/// happened.
pub fn confirm(answered: bool, asked: bool) -> (r: Result<(), String>)
    ensures
        r is Ok <==> answered == asked,
        r matches Err(m) ==> m@ == refusal_text(answered, asked),
{
    if answered == asked {
        return Ok(());
    }
    let mut m: Vec<char> = Vec::new();
    append_str(&mut m, "the device answered master_enable=");
    append_str(&mut m, if answered { "true" } else { "false" });
    append_str(&mut m, " to a request for ");
    append_str(&mut m, if asked { "true" } else { "false" });
    append_str(&mut m, "; something else is staging against it");
    Err(string_from_chars(&m))
}

} // verus!
