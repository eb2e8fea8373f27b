//! What a multicast DNS browse reports, and what each report amounts to.
//!
//! The browse itself runs outside the library; each service report it hands
//! over is interpreted here. One bad responder must never stop discovery, so
//! nothing here can fail loudly: a report that resolves to nothing usable is
//! ignored.

use vstd::prelude::*;

use crate::base::text::{append_str, chars_of, string_from_chars};
use crate::discovery::advert::{
    built_from, observed, withdrawn, Advertisement, DiscoveryEvent, Tracker,
};
use crate::discovery::endpoint::IpAddress;
use crate::discovery::txt::TxtRecords;

verus! {

broadcast use vstd::std_specs::vec::group_vec_axioms;

/// The DNS-SD service type an NMOS Node advertises itself under.
pub open spec fn node_service_type() -> Seq<char> {
    "_nmos-node._tcp.local."@
}

/// The DNS-SD service type an NMOS Node advertises itself under.
pub fn node_service_type_text() -> (r: &'static str)
    ensures
        r@ == node_service_type(),
{
    "_nmos-node._tcp.local."
}

/// Why discovery could not be started.
#[derive(Debug)]
#[non_exhaustive]
pub enum DiscoveryError {
    /// The mDNS responder could not be started, usually because the multicast
    /// socket could not be bound.
    Start {
        /// Why.
        reason: String,
    },
    /// The service type could not be browsed.
    Browse {
        /// What was being browsed.
        service_type: String,
        /// Why it failed.
        reason: String,
    },
}

/// How a discovery failure reads.
pub open spec fn discovery_error_text(e: DiscoveryError) -> Seq<char> {
    match e {
        DiscoveryError::Start { reason } => "cannot start mdns discovery: "@ + reason@,
        DiscoveryError::Browse { service_type, reason } => "cannot browse "@ + service_type@
            + ": "@ + reason@,
    }
}

impl DiscoveryError {
    /// The failure as an operator reads it.
    pub fn to_string(&self) -> (r: String)
        ensures
            r@ == discovery_error_text(*self),
    {
        let mut v: Vec<char> = Vec::new();
        match self {
            DiscoveryError::Start { reason } => {
                append_str(&mut v, "cannot start mdns discovery: ");
                append_str(&mut v, reason.as_str());
            },
            DiscoveryError::Browse { service_type, reason } => {
                append_str(&mut v, "cannot browse ");
                append_str(&mut v, service_type.as_str());
                append_str(&mut v, ": ");
                append_str(&mut v, reason.as_str());
            },
        }
        string_from_chars(&v)
    }
}

/// A text without the dots that open it.
pub open spec fn without_leading_dots(s: Seq<char>) -> Seq<char>
    decreases s.len(),
{
    if s.len() > 0 && s[0] == '.' {
        without_leading_dots(s.drop_first())
    } else {
        s
    }
}

/// The instance part of a DNS-SD full name found under a service type: the
/// full name without `.` and the type (its own leading dots aside) at its
/// end — or the whole full name, when it does not end so.
pub open spec fn instance_part(fullname: Seq<char>, service_type: Seq<char>) -> Seq<char> {
    let suffix = seq!['.'] + without_leading_dots(service_type);
    if suffix.len() <= fullname.len() && fullname.skip(fullname.len() - suffix.len()) == suffix {
        fullname.take(fullname.len() - suffix.len())
    } else {
        fullname
    }
}

/// The instance part of a DNS-SD full name, given the service type it was
/// found under.
///
/// `converter._nmos-node._tcp.local.` under `_nmos-node._tcp.local.` is
/// `converter`. The service type is taken from the report rather than
/// assumed, because an instance name may itself contain dots and because the
/// browsed type is not always `_nmos-node._tcp`.
pub fn instance_name(fullname: &str, service_type: &str) -> (r: String)
    ensures
        r@ == instance_part(fullname@, service_type@),
{
    let name = chars_of(fullname);
    let kind = chars_of(service_type);
    let mut lo: usize = 0;
    assert(kind@.skip(0) =~= kind@);
    while lo < kind.len() && kind[lo] == '.'
        invariant
            kind@ == service_type@,
            lo <= kind.len(),
            without_leading_dots(service_type@) == without_leading_dots(kind@.skip(lo as int)),
        decreases kind.len() - lo,
    {
        assert(kind@.skip(lo as int).drop_first() =~= kind@.skip(lo + 1));
        lo = lo + 1;
    }
    let ghost rest = kind@.skip(lo as int);
    assert(without_leading_dots(service_type@) == rest);
    let ghost suffix = seq!['.'] + rest;
    if kind.len() - lo >= name.len() {
        return fullname.to_owned();
    }
    let suffix_len = 1 + (kind.len() - lo);
    let cut = name.len() - suffix_len;
    let mut matches = name[cut] == '.';
    let mut k: usize = 0;
    while matches && k < kind.len() - lo
        invariant
            kind@ == service_type@,
            name@ == fullname@,
            rest == kind@.skip(lo as int),
            suffix == seq!['.'] + rest,
            lo <= kind.len(),
            cut + suffix_len == name.len(),
            suffix_len == 1 + (kind.len() - lo),
            k <= kind.len() - lo,
            matches ==> name@[cut as int] == '.',
            matches ==> forall|j: int| 0 <= j < k ==> name@[cut + 1 + j] == rest[j],
            !matches ==> (name@[cut as int] != '.' || exists|j: int|
                0 <= j < k && name@[cut + 1 + j] != #[trigger] rest[j]),
        decreases kind.len() - lo - k,
    {
        if name[cut + 1 + k] != kind[lo + k] {
            matches = false;
            assert(rest[k as int] == kind@[lo + k]);
            assert(name@[cut + 1 + k] != rest[k as int]);
        }
        k = k + 1;
    }
    if matches {
        assert(name@.skip(cut as int) =~= suffix);
        let mut v: Vec<char> = Vec::new();
        let mut i: usize = 0;
        while i < cut
            invariant
                name@ == fullname@,
                cut <= name.len(),
                i <= cut,
                v@ == name@.take(i as int),
            decreases cut - i,
        {
            v.push(name[i]);
            assert(name@.take(i + 1) =~= name@.take(i as int).push(name@[i as int]));
            i = i + 1;
        }
        string_from_chars(&v)
    } else {
        proof {
            if name@.skip(cut as int) == suffix {
                assert(name@.skip(cut as int)[0] == suffix[0]);
                if name@[cut as int] == '.' {
                    let j = choose|j: int| 0 <= j < k && name@[cut + 1 + j] != #[trigger] rest[j];
                    assert(name@.skip(cut as int)[1 + j] == suffix[1 + j]);
                }
            }
        }
        fullname.to_owned()
    }
}

/// One report from a multicast DNS browse, as plain values.
#[derive(Debug)]
pub enum ServiceNotice {
    /// A service was resolved to addresses, a port and TXT records.
    Resolved {
        /// Its full DNS-SD name.
        fullname: String,
        /// The service type it was found under.
        service_type: String,
        /// The host it resolved to; empty when none.
        host: String,
        /// The addresses it resolved to.
        addresses: Vec<IpAddress>,
        /// Its port.
        port: u16,
        /// Its TXT records.
        txt: TxtRecords,
    },
    /// A service withdrew its advertisement, or it expired.
    Removed {
        /// The service type it was found under.
        service_type: String,
        /// Its full DNS-SD name.
        fullname: String,
    },
    /// Searching started or stopped, or a name was seen but not yet resolved.
    Other,
}

/// The hostname a resolved report gives: none when it is empty.
pub open spec fn hostname_of(host: Seq<char>) -> Option<Seq<char>> {
    if host.len() == 0 {
        None
    } else {
        Some(host)
    }
}

/// What one report amounts to: a resolved service is observed as an
/// advertisement, when it makes one; a removed one is withdrawn; anything
/// else is nothing, and changes nothing.
pub open spec fn interpreted(
    before: Tracker,
    notice: ServiceNotice,
    after: Tracker,
    event: Option<DiscoveryEvent>,
) -> bool {
    match notice {
        ServiceNotice::Resolved { fullname, service_type, host, addresses, port, txt } => {
            let inst = instance_part(fullname@, service_type@);
            if inst.len() == 0 || addresses@.len() == 0 || port == 0 {
                event is None && after == before
            } else {
                exists|a: Advertisement|
                    built_from(a, inst, hostname_of(host@), addresses@, port, txt) && observed(
                        before,
                        a,
                        after,
                        event,
                    )
            }
        },
        ServiceNotice::Removed { service_type, fullname } => withdrawn(
            before,
            instance_part(fullname@, service_type@),
            after,
            event,
        ),
        ServiceNotice::Other => event is None && after == before,
    }
}

/// Turn one report into a discovery event, or into nothing.
pub fn interpret(tracker: &mut Tracker, notice: ServiceNotice) -> (r: Option<DiscoveryEvent>)
    ensures
        interpreted(*old(tracker), notice, *final(tracker), r),
{
    match notice {
        ServiceNotice::Resolved { fullname, service_type, host, addresses, port, txt } => {
            let inst = instance_name(fullname.as_str(), service_type.as_str());
            let hostname = if host.as_str().is_empty() {
                None
            } else {
                Some(host)
            };
            match Advertisement::try_from_parts(
                inst.as_str(),
                hostname,
                addresses.as_slice(),
                port,
                &txt,
            ) {
                Some(advertisement) => {
                    let ghost a = advertisement;
                    let r = tracker.observe(advertisement);
                    assert(built_from(a, inst@, hostname_of(host@), addresses@, port, txt));
                    r
                },
                None => None,
            }
        },
        ServiceNotice::Removed { service_type, fullname } => {
            let inst = instance_name(fullname.as_str(), service_type.as_str());
            tracker.withdraw(inst.as_str())
        },
        ServiceNotice::Other => None,
    }
}

} // verus!
