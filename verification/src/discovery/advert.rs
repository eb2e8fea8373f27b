//! What a Node says about itself over mDNS, and what a stream of such
//! sayings amounts to.

use vstd::prelude::*;

use crate::base::name::Name;
use crate::base::order::{lemma_text_key_injective, text_key};
use crate::base::table::{Keyed, Table};
use crate::base::text::text_eq;
use crate::discovery::counters::{counter_reading, moved_between, Collection, VersionCounters};
use crate::discovery::endpoint::{Endpoint, IpAddress};
use crate::discovery::txt::{
    advertised_authorization, advertised_protocol, advertised_versions, protocol,
    requires_authorization, versions, TxtRecords,
};
use crate::nmos::version::ApiVersion;

verus! {

broadcast use vstd::std_specs::vec::group_vec_axioms;

/// What a Node said about itself over mDNS.
///
/// This is everything known before anything is fetched — where to go and ask,
/// not an identity.
#[derive(Debug)]
pub struct Advertisement {
    /// The DNS-SD instance name, which is how a departure is matched to an
    /// arrival.
    pub instance: String,
    /// The hostname the responder resolved to, when there was one.
    pub hostname: Option<String>,
    /// Every address and port this advertisement resolved to, each once.
    pub endpoints: Table<Endpoint, ()>,
    /// The API versions the Node says it speaks, lowest first.
    pub versions: Vec<ApiVersion>,
    /// Whether the Node requires authorization.
    pub requires_authorization: bool,
    /// The per-collection version counters the Node publishes.
    pub counters: VersionCounters,
}

/// The view of an optional text.
pub open spec fn opt_text(o: Option<String>) -> Option<Seq<char>> {
    match o {
        Some(s) => Some(s@),
        None => None,
    }
}

/// Whether two advertisements say the same thing.
pub open spec fn same_advertisement(a: Advertisement, b: Advertisement) -> bool {
    &&& a.instance@ == b.instance@
    &&& opt_text(a.hostname) == opt_text(b.hostname)
    &&& a.endpoints.keys() == b.endpoints.keys()
    &&& a.versions@ == b.versions@
    &&& a.requires_authorization == b.requires_authorization
    &&& a.counters == b.counters
}

/// Whether an endpoint is one of the addresses, at the port and protocol.
pub open spec fn resolved_to(e: Endpoint, addresses: Seq<IpAddress>, port: u16, protocol: crate::nmos::node::Protocol) -> bool {
    e.port == port && e.protocol == protocol && addresses.contains(e.address)
}

/// Whether an advertisement is what a responder's parts make: its instance
/// and hostname as given, an endpoint for each address at the port and at the
/// protocol the TXT records say, and the versions, authorization and counters
/// the TXT records say.
pub open spec fn built_from(
    a: Advertisement,
    instance: Seq<char>,
    hostname: Option<Seq<char>>,
    addresses: Seq<IpAddress>,
    port: u16,
    txt: TxtRecords,
) -> bool {
    &&& a.instance@ == instance
    &&& opt_text(a.hostname) == hostname
    &&& forall|e: Endpoint| #[trigger]
        a.endpoints@.contains_key(e.key()) <==> resolved_to(
            e,
            addresses,
            port,
            advertised_protocol(txt),
        )
    &&& advertised_versions(txt, a.versions@)
    &&& a.requires_authorization == advertised_authorization(txt)
    &&& forall|c: Collection| #[trigger]
        a.counters.spec_get(c) == counter_reading(txt.lookup(c.spec_counter_key()))
}

/// Whether an optional text is the same as another.
fn same_opt_text(a: &Option<String>, b: &Option<String>) -> (r: bool)
    ensures
        r == (opt_text(*a) == opt_text(*b)),
{
    match (a, b) {
        (Some(x), Some(y)) => text_eq(x.as_str(), y.as_str()),
        (None, None) => true,
        _ => false,
    }
}

/// A copy of an optional text.
fn copy_opt_text(a: &Option<String>) -> (r: Option<String>)
    ensures
        opt_text(r) == opt_text(*a),
{
    match a {
        Some(x) => Some(x.clone()),
        None => None,
    }
}

/// Whether two lists of versions are the same.
fn same_versions(a: &Vec<ApiVersion>, b: &Vec<ApiVersion>) -> (r: bool)
    ensures
        r == (a@ == b@),
{
    if a.len() != b.len() {
        return false;
    }
    let mut i: usize = 0;
    while i < a.len()
        invariant
            a.len() == b.len(),
            i <= a.len(),
            forall|j: int| 0 <= j < i ==> a@[j] == b@[j],
        decreases a.len() - i,
    {
        if !a[i].same(b[i]) {
            return false;
        }
        i = i + 1;
    }
    assert(a@ =~= b@);
    true
}

impl Advertisement {
    /// Whether this advertisement says the same as another.
    pub fn same(&self, other: &Advertisement) -> (r: bool)
        ensures
            r == same_advertisement(*self, *other),
    {
        text_eq(self.instance.as_str(), other.instance.as_str()) && same_opt_text(
            &self.hostname,
            &other.hostname,
        ) && self.endpoints.same_keys(&other.endpoints) && same_versions(
            &self.versions,
            &other.versions,
        ) && self.requires_authorization == other.requires_authorization && self.counters
            == other.counters
    }

    /// A copy of the advertisement.
    pub fn duplicate(&self) -> (r: Advertisement)
        ensures
            same_advertisement(*self, r),
            r.endpoints.entries() == self.endpoints.entries(),
    {
        Advertisement {
            instance: self.instance.clone(),
            hostname: copy_opt_text(&self.hostname),
            endpoints: self.endpoints.copy(),
            versions: self.versions.clone(),
            requires_authorization: self.requires_authorization,
            counters: self.counters,
        }
    }

    /// Build an advertisement from what a responder resolved to, or `None`
    /// when it cannot be made sense of: no instance name, no address, or no
    /// port.
    ///
    /// Each field of the TXT records falls back to IS-04's default rather
    /// than taking the advertisement down with it.
    pub fn try_from_parts(
        instance: &str,
        hostname: Option<String>,
        addresses: &[IpAddress],
        port: u16,
        txt: &TxtRecords,
    ) -> (r: Option<Advertisement>)
        ensures
            r is None <==> (instance@.len() == 0 || addresses@.len() == 0 || port == 0),
            r matches Some(a) ==> built_from(a, instance@, opt_text(hostname), addresses@, port, *txt),
    {
        if instance.is_empty() || addresses.len() == 0 || port == 0 {
            return None;
        }
        let scheme = protocol(txt);
        let mut endpoints: Table<Endpoint, ()> = Table::new();
        let mut i: usize = 0;
        while i < addresses.len()
            invariant
                i <= addresses@.len(),
                forall|e: Endpoint| #[trigger]
                    endpoints@.contains_key(e.key()) <==> resolved_to(
                        e,
                        addresses@.take(i as int),
                        port,
                        scheme,
                    ),
            decreases addresses@.len() - i,
        {
            let e = Endpoint { address: addresses[i], port, protocol: scheme };
            endpoints.insert(e, ());
            proof {
                assert(addresses@.take(i + 1) =~= addresses@.take(i as int).push(addresses@[i as int]));
                assert forall|f: Endpoint| #[trigger]
                    endpoints@.contains_key(f.key()) <==> resolved_to(
                        f,
                        addresses@.take(i + 1),
                        port,
                        scheme,
                    ) by {
                    Endpoint::lemma_key_injective(f, e);
                    if f == e {
                        assert(addresses@.take(i + 1)[i as int] == f.address);
                    }
                    if addresses@.take(i + 1).contains(f.address) && f.address != e.address {
                        let j = choose|j: int| 0 <= j < i + 1 && #[trigger] addresses@.take(i + 1)[j] == f.address;
                        assert(addresses@.take(i as int)[j] == f.address);
                    }
                }
            }
            i = i + 1;
        }
        assert(addresses@.take(addresses@.len() as int) =~= addresses@);
        Some(
            Advertisement {
                instance: instance.to_owned(),
                hostname,
                endpoints,
                versions: versions(txt),
                requires_authorization: requires_authorization(txt),
                counters: VersionCounters::from_txt(txt),
            },
        )
    }

    /// The endpoint to make requests to: the first IPv4 endpoint where the
    /// Node offers one, and otherwise the first of the rest.
    pub fn preferred_endpoint(&self) -> (r: Option<&Endpoint>)
        ensures
            preferred_among(self.endpoints.entries(), r),
    {
        preferred_endpoint_of(&self.endpoints)
    }
}

/// Whether `r` is the preferred endpoint of the entries: `None` when there are
/// none; otherwise the first IPv4 one, or the first of all when there is no
/// IPv4 one.
pub open spec fn preferred_among(s: Seq<(Endpoint, ())>, r: Option<&Endpoint>) -> bool {
    match r {
        None => s.len() == 0,
        Some(e) => exists|i: int|
            0 <= i < s.len() && s[i].0 == *e && (forall|j: int|
                0 <= j < i ==> !(#[trigger] s[j].0.address).spec_is_ipv4()) && (e.address.spec_is_ipv4()
                || (i == 0 && forall|j: int| 0 <= j < s.len() ==> !(#[trigger] s[j].0.address).spec_is_ipv4())),
    }
}

/// The preferred endpoint of a set of endpoints.
pub fn preferred_endpoint_of(endpoints: &Table<Endpoint, ()>) -> (r: Option<&Endpoint>)
    ensures
        preferred_among(endpoints.entries(), r),
{
    let mut i: usize = 0;
    while i < endpoints.len()
        invariant
            i <= endpoints.entries().len(),
            forall|j: int| 0 <= j < i ==> !(#[trigger] endpoints.entries()[j].0.address).spec_is_ipv4(),
        decreases endpoints.entries().len() - i,
    {
        let e = endpoints.entry(i);
        if e.0.address.is_ipv4() {
            return Some(&e.0);
        }
        i = i + 1;
    }
    if endpoints.len() == 0 {
        None
    } else {
        let e = endpoints.entry(0);
        Some(&e.0)
    }
}

/// Something that happened on the network.
#[derive(Debug)]
pub enum DiscoveryEvent {
    /// A Node that was not there before is there now.
    Appeared(Advertisement),
    /// A Node that was already known re-advertised itself differently.
    Changed {
        /// What it now says.
        advertisement: Advertisement,
        /// Which collections its counters say have moved. Empty when only the
        /// addresses changed.
        changed: Vec<Collection>,
    },
    /// A Node withdrew its advertisement, or its advertisement expired.
    Departed {
        /// The DNS-SD instance name that went away.
        instance: String,
    },
}

/// The collections a re-advertisement reports as moved.
pub open spec fn changed_collections(now: VersionCounters, before: VersionCounters) -> Seq<Collection> {
    moved_between(now, before)
}

/// Turns a stream of raw advertisements into a stream of events.
///
/// Held apart from any browser so that what counts as a change, and what
/// counts as a return, is decided in one place whatever the source.
#[derive(Debug)]
pub struct Tracker {
    known: Table<Name, Advertisement>,
}

impl Tracker {
    /// What is held for an instance name.
    pub closed spec fn held(&self, instance: Seq<char>) -> Option<Advertisement> {
        if self.known@.contains_key(text_key(instance)) {
            Some(self.known@[text_key(instance)])
        } else {
            None
        }
    }

    /// How many instances are held.
    pub closed spec fn count(&self) -> nat {
        self.known.entries().len()
    }

    /// The advertisements held, in order of instance name.
    pub closed spec fn listing(&self) -> Seq<Advertisement> {
        self.known.entries().map_values(|e: (Name, Advertisement)| e.1)
    }

    /// Nothing known.
    pub fn new() -> (r: Tracker)
        ensures
            forall|k: Seq<char>| #[trigger] r.held(k) is None,
            r.count() == 0,
    {
        Tracker { known: Table::new() }
    }

    /// Record an advertisement, returning the event it amounts to, if any.
    pub fn observe(&mut self, advertisement: Advertisement) -> (r: Option<DiscoveryEvent>)
        ensures
            observed(*old(self), advertisement, *final(self), r),
    {
        proof {
            use_type_invariant(&self.known);
        }
        let ghost given = advertisement;
        let key = Name(advertisement.instance.clone());
        let ghost inst = advertisement.instance@;
        assert(key.key() == text_key(inst));
        let mut known = Table::new();
        std::mem::swap(&mut known, &mut self.known);
        let previous_counters = match known.get(&key) {
            None => None,
            Some(previous) => {
                if previous.same(&advertisement) {
                    self.known = known;
                    return None;
                }
                Some(previous.counters)
            },
        };
        let copy = advertisement.duplicate();
        known.insert(key, copy);
        proof {
            assert forall|k: Seq<char>| k != inst implies #[trigger] text_key(k) != text_key(inst) by {
                lemma_text_key_injective(k, inst);
            }
        }
        self.known = known;
        match previous_counters {
            None => Some(DiscoveryEvent::Appeared(advertisement)),
            Some(before) => {
                let changed = advertisement.counters.changed_since(&before);
                Some(DiscoveryEvent::Changed { advertisement, changed })
            },
        }
    }

    /// Everything currently advertised, in order of instance name.
    pub fn known(&self) -> (r: Vec<Advertisement>)
        ensures
            r@.len() == self.count(),
            forall|i: int| 0 <= i < r@.len() ==> same_advertisement(#[trigger] r@[i], self.listing()[i]),
    {
        let mut r: Vec<Advertisement> = Vec::new();
        let mut i: usize = 0;
        while i < self.known.len()
            invariant
                i <= self.count(),
                r@.len() == i,
                forall|j: int| 0 <= j < i ==> same_advertisement(#[trigger] r@[j], self.listing()[j]),
            decreases self.count() - i,
        {
            let e = self.known.entry(i);
            r.push(e.1.duplicate());
            i = i + 1;
        }
        r
    }

    /// Record a withdrawal, returning the event it amounts to, if any.
    pub fn withdraw(&mut self, instance: &str) -> (r: Option<DiscoveryEvent>)
        ensures
            withdrawn(*old(self), instance@, *final(self), r),
    {
        let mut known = Table::new();
        std::mem::swap(&mut known, &mut self.known);
        let gone = known.remove(&Name::of(instance));
        proof {
            assert forall|k: Seq<char>| k != instance@ implies #[trigger] text_key(k) != text_key(instance@) by {
                lemma_text_key_injective(k, instance@);
            }
        }
        self.known = known;
        match gone {
            Some(_) => Some(DiscoveryEvent::Departed { instance: instance.to_owned() }),
            None => None,
        }
    }
}

impl Default for Tracker {
    /// Nothing known.
    fn default() -> (r: Self)
        ensures
            forall|k: Seq<char>| #[trigger] r.held(k) is None,
    {
        Tracker::new()
    }
}

/// Whether every instance other than `inst` is held the same before and after.
pub open spec fn others_kept(before: Tracker, after: Tracker, inst: Seq<char>) -> bool {
    forall|k: Seq<char>| k != inst ==> #[trigger] after.held(k) == before.held(k)
}

/// What observing an advertisement does: a first sighting appears; the same
/// advertisement again says nothing and changes nothing; a different one is a
/// change, naming the collections whose counters moved. Either way what is
/// held for the instance afterwards says what the advertisement says.
pub open spec fn observed(
    before: Tracker,
    adv: Advertisement,
    after: Tracker,
    event: Option<DiscoveryEvent>,
) -> bool {
    let inst = adv.instance@;
    &&& others_kept(before, after, inst)
    &&& match before.held(inst) {
        None => {
            &&& event matches Some(DiscoveryEvent::Appeared(a)) && same_advertisement(a, adv)
            &&& after.held(inst) matches Some(h) && same_advertisement(h, adv)
        },
        Some(previous) => if same_advertisement(previous, adv) {
            &&& event is None
            &&& after.held(inst) == before.held(inst)
        } else {
            &&& event matches Some(DiscoveryEvent::Changed { advertisement: a, changed: c })
                && same_advertisement(a, adv) && c@ == changed_collections(
                adv.counters,
                previous.counters,
            )
            &&& after.held(inst) matches Some(h) && same_advertisement(h, adv)
        },
    }
}

/// What withdrawing an instance does: if it was held, it departs and is held
/// no more; if it was not, nothing is said.
pub open spec fn withdrawn(
    before: Tracker,
    inst: Seq<char>,
    after: Tracker,
    event: Option<DiscoveryEvent>,
) -> bool {
    &&& others_kept(before, after, inst)
    &&& after.held(inst) is None
    &&& match before.held(inst) {
        None => event is None,
        Some(_) => event matches Some(DiscoveryEvent::Departed { instance: x }) && x@ == inst,
    }
}

/// Re-advertising unchanged says nothing: observing the same advertisement a
/// second time gives no event.
pub proof fn law_unchanged_readvertisement_is_silent(
    t0: Tracker,
    a: Advertisement,
    t1: Tracker,
    e1: Option<DiscoveryEvent>,
    b: Advertisement,
    t2: Tracker,
    e2: Option<DiscoveryEvent>,
)
    requires
        observed(t0, a, t1, e1),
        observed(t1, b, t2, e2),
        same_advertisement(a, b),
    ensures
        e2 is None,
        t2.held(b.instance@) == t1.held(b.instance@),
{
}

/// A departure for something never seen says nothing.
pub proof fn law_unknown_departure_is_silent(
    t0: Tracker,
    inst: Seq<char>,
    t1: Tracker,
    e: Option<DiscoveryEvent>,
)
    requires
        withdrawn(t0, inst, t1, e),
        t0.held(inst) is None,
    ensures
        e is None,
{
}

/// A return after a departure is a fresh appearance.
pub proof fn law_return_is_a_fresh_appearance(
    t0: Tracker,
    inst: Seq<char>,
    t1: Tracker,
    e1: Option<DiscoveryEvent>,
    a: Advertisement,
    t2: Tracker,
    e2: Option<DiscoveryEvent>,
)
    requires
        withdrawn(t0, inst, t1, e1),
        a.instance@ == inst,
        observed(t1, a, t2, e2),
    ensures
        e2 matches Some(DiscoveryEvent::Appeared(x)) && same_advertisement(x, a),
{
}

/// An advertisement made from a responder's parts says what each reading
/// of those parts says: the protocol of its endpoints, the versions, the
/// authorization and the counters are those the TXT records give alone.
pub proof fn law_parts_read_as_the_records_say(
    a: Advertisement,
    instance: Seq<char>,
    hostname: Option<Seq<char>>,
    addresses: Seq<IpAddress>,
    port: u16,
    txt: TxtRecords,
    versions: Seq<ApiVersion>,
    counters: VersionCounters,
)
    requires
        built_from(a, instance, hostname, addresses, port, txt),
        advertised_versions(txt, versions),
        forall|c: Collection| #[trigger] counters.spec_get(c) == counter_reading(txt.lookup(c.spec_counter_key())),
    ensures
        a.versions@ == versions,
        a.counters == counters,
        a.requires_authorization == advertised_authorization(txt),
        forall|e: Endpoint| #[trigger] a.endpoints@.contains_key(e.key()) ==> e.protocol == advertised_protocol(txt)
            && e.port == port && addresses.contains(e.address),
{
    crate::discovery::txt::law_advertised_versions_are_one_reading(txt, a.versions@, versions);
    crate::discovery::counters::lemma_counters_same(a.counters, counters);
}

/// An advertisement made from a responder's parts requires authorization
/// exactly when its TXT records say `api_auth=true`; a Node that publishes no
/// `api_auth` does not.
pub proof fn law_authorization_only_when_the_records_say_true(
    a: Advertisement,
    instance: Seq<char>,
    hostname: Option<Seq<char>>,
    addresses: Seq<IpAddress>,
    port: u16,
    txt: TxtRecords,
)
    requires
        built_from(a, instance, hostname, addresses, port, txt),
    ensures
        a.requires_authorization <==> txt.lookup("api_auth"@) == Some("true"@),
        txt.lookup("api_auth"@) is None ==> !a.requires_authorization,
{
}

/// Two advertisements that count as the same reach the same endpoints.
pub proof fn law_the_same_advertisement_reaches_the_same_endpoints(a: Advertisement, b: Advertisement)
    requires
        same_advertisement(a, b),
    ensures
        a.endpoints@.dom() == b.endpoints@.dom(),
{
    a.endpoints.lemma_same_keys(&b.endpoints);
}

/// A Node that comes back at other addresses has changed: observing it gives
/// a change carrying the new endpoints, and the tracker then holds them.
pub proof fn law_a_move_is_a_change(t0: Tracker, b: Advertisement, t1: Tracker, e: Option<DiscoveryEvent>)
    requires
        observed(t0, b, t1, e),
        t0.held(b.instance@) matches Some(a) && a.endpoints@.dom() != b.endpoints@.dom(),
    ensures
        e matches Some(DiscoveryEvent::Changed { advertisement: x, changed: _ }) && x.endpoints@.dom()
            == b.endpoints@.dom(),
        t1.held(b.instance@) matches Some(h) && h.endpoints@.dom() == b.endpoints@.dom(),
{
    let a = t0.held(b.instance@)->0;
    if same_advertisement(a, b) {
        law_the_same_advertisement_reaches_the_same_endpoints(a, b);
    }
    match e {
        Some(DiscoveryEvent::Changed { advertisement: x, changed: _ }) => {
            law_the_same_advertisement_reaches_the_same_endpoints(x, b);
        },
        _ => {},
    }
    let h = t1.held(b.instance@)->0;
    law_the_same_advertisement_reaches_the_same_endpoints(h, b);
}

/// Two advertisements that count as the same agree on everything an
/// advertisement says: instance, hostname, endpoints, versions,
/// authorization and counters.
pub proof fn law_the_same_advertisement_differs_in_nothing(a: Advertisement, b: Advertisement)
    requires
        same_advertisement(a, b),
    ensures
        a.instance@ == b.instance@,
        opt_text(a.hostname) == opt_text(b.hostname),
        a.endpoints@.dom() == b.endpoints@.dom(),
        a.versions@ == b.versions@,
        a.requires_authorization == b.requires_authorization,
        a.counters == b.counters,
{
    law_the_same_advertisement_reaches_the_same_endpoints(a, b);
}

/// A re-advertisement whose counters moved is a change naming exactly the
/// collections whose counters differ.
pub proof fn law_a_change_names_the_moved_counters(
    t0: Tracker,
    b: Advertisement,
    t1: Tracker,
    e: Option<DiscoveryEvent>,
    c: Collection,
)
    requires
        observed(t0, b, t1, e),
        t0.held(b.instance@) matches Some(a) && a.counters != b.counters,
    ensures
        e matches Some(DiscoveryEvent::Changed { advertisement: _, changed }) && (changed@.contains(c) <==> b.counters.spec_get(c)
            != t0.held(b.instance@)->0.counters.spec_get(c)),
{
    let a = t0.held(b.instance@)->0;
    crate::discovery::counters::law_moved_is_a_difference(b.counters, a.counters, c);
}

} // verus!
