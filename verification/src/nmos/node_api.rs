//! What the IS-04 Node API client decides: which version to speak, where each
//! collection is read, and how every way a read can fail is reported.
//!
//! Read-only by contract: nothing here names a request that changes a device.

use std::time::Duration;

use vstd::prelude::*;

use crate::base::decimal::decimal;
use crate::base::text::{append_decimal, append_str, string_from_chars};
use crate::nmos::device::Device;
use crate::nmos::flow::Flow;
use crate::nmos::http::{
    agent_name, build_client, configured, default_user_agent, http_body_failed, http_builder,
    http_error_message, http_error_text, http_timed_out, http_undecodable, seconds,
    timed_out, trim_trailing_slashes, undecodable, unreadable_body, whole_seconds,
    with_connect_timeout, with_timeout, with_user_agent, without_trailing_slashes,
    looks_like_markup, opens_with_markup,
};
use crate::nmos::node::Node;
use crate::nmos::receiver::Receiver;
use crate::nmos::sender::Sender;
use crate::nmos::source::Source;
use crate::nmos::version::{
    api_lt, api_version_text, lemma_api_version_same, negotiate, supported_versions, ApiVersion,
};

verus! {

broadcast use vstd::std_specs::vec::group_vec_axioms;

/// A JSON document that could not be read, as `serde_json` reports it.
#[verifier::external_type_specification]
#[verifier::external_body]
pub struct ExJsonError(serde_json::Error);

/// What the `Display` of `serde_json::Error` writes for a failure.
pub uninterp spec fn json_error_message(e: serde_json::Error) -> Seq<char>;

/// What `serde_json` says of a failure. Wraps its `Display`, which writes
/// from the error's own code, line and column alone.
#[verifier::external_body]
pub(crate) fn json_error_text(e: &serde_json::Error) -> (r: String)
    ensures
        r@ == json_error_message(*e),
{
    format!("{e}")
}

/// Everything a Node says about itself, read in one pass.
#[derive(Debug, Clone)]
pub struct ResourceTree {
    /// The version the tree was read at.
    pub version: ApiVersion,
    /// The Node's own record.
    pub node: Node,
    /// The Devices the Node hosts.
    pub devices: Vec<Device>,
    /// The Senders those Devices expose.
    pub senders: Vec<Sender>,
    /// The Receivers those Devices expose.
    pub receivers: Vec<Receiver>,
    /// The Flows the Senders carry.
    pub flows: Vec<Flow>,
    /// The Sources those Flows originate from.
    pub sources: Vec<Source>,
}

/// One collection of a Node's tree, read on its own.
#[derive(Debug, Clone)]
pub enum CollectionData {
    /// The Node's own record.
    Node(Box<Node>),
    /// The Devices the Node hosts.
    Devices(Vec<Device>),
    /// The Senders those Devices expose.
    Senders(Vec<Sender>),
    /// The Receivers those Devices expose.
    Receivers(Vec<Receiver>),
    /// The Flows the Senders carry.
    Flows(Vec<Flow>),
    /// The Sources those Flows originate from.
    Sources(Vec<Source>),
}

/// A tree with one collection replaced.
pub open spec fn with_collection(tree: ResourceTree, data: CollectionData) -> ResourceTree {
    match data {
        CollectionData::Node(n) => ResourceTree { node: *n, ..tree },
        CollectionData::Devices(v) => ResourceTree { devices: v, ..tree },
        CollectionData::Senders(v) => ResourceTree { senders: v, ..tree },
        CollectionData::Receivers(v) => ResourceTree { receivers: v, ..tree },
        CollectionData::Flows(v) => ResourceTree { flows: v, ..tree },
        CollectionData::Sources(v) => ResourceTree { sources: v, ..tree },
    }
}

impl ResourceTree {
    /// Replace one collection, leaving the rest alone.
    pub fn replace_collection(self, data: CollectionData) -> (r: ResourceTree)
        ensures
            r == with_collection(self, data),
    {
        match data {
            CollectionData::Node(n) => ResourceTree { node: *n, ..self },
            CollectionData::Devices(v) => ResourceTree { devices: v, ..self },
            CollectionData::Senders(v) => ResourceTree { senders: v, ..self },
            CollectionData::Receivers(v) => ResourceTree { receivers: v, ..self },
            CollectionData::Flows(v) => ResourceTree { flows: v, ..self },
            CollectionData::Sources(v) => ResourceTree { sources: v, ..self },
        }
    }
}

/// Why a Node could not be read.
///
/// Every variant names the collection it came from: an operator reading one
/// line against one Node needs to know which request went wrong.
#[derive(Debug)]
#[non_exhaustive]
pub enum NodeApiError {
    /// The Node offers no version this client speaks.
    UnsupportedVersion {
        /// The versions the Node advertised.
        offered: Vec<String>,
        /// The versions this client speaks.
        supported: Vec<String>,
    },
    /// The Node's address could not be turned into a URL.
    BadAddress {
        /// The base URL that was tried.
        base: String,
        /// Why it could not be used.
        reason: String,
    },
    /// The connection could not be made.
    Unreachable {
        /// Which collection was being read.
        collection: &'static str,
        /// Why the connection failed.
        reason: String,
    },
    /// The Node accepted the connection but did not answer in time.
    Timeout {
        /// Which collection was being read.
        collection: &'static str,
    },
    /// The Node answered with an error status.
    Status {
        /// Which collection was being read.
        collection: &'static str,
        /// The status it answered with.
        status: u16,
    },
    /// The Node answered with something that is not the resource it should be.
    Malformed {
        /// Which collection was being read.
        collection: &'static str,
        /// What could not be understood.
        reason: String,
    },
}

/// Texts joined by a separator.
pub open spec fn joined(parts: Seq<Seq<char>>, sep: Seq<char>) -> Seq<char>
    decreases parts.len(),
{
    if parts.len() == 0 {
        Seq::empty()
    } else if parts.len() == 1 {
        parts[0]
    } else {
        joined(parts.drop_last(), sep) + sep + parts.last()
    }
}

/// The views of some texts.
pub open spec fn texts(v: Seq<String>) -> Seq<Seq<char>> {
    v.map_values(|s: String| s@)
}

/// Adds texts, joined by `, `, to the end of a buffer.
fn append_joined(v: &mut Vec<char>, parts: &Vec<String>)
    ensures
        final(v)@ == old(v)@ + joined(texts(parts@), ", "@),
{
    let ghost start = v@;
    let mut i: usize = 0;
    while i < parts.len()
        invariant
            i <= parts@.len(),
            v@ == start + joined(texts(parts@.subrange(0, i as int)), ", "@),
        decreases parts@.len() - i,
    {
        let ghost before = texts(parts@.subrange(0, i as int));
        let ghost after = texts(parts@.subrange(0, i + 1));
        assert(after.drop_last() =~= before);
        assert(after.last() == parts@[i as int]@);
        if i > 0 {
            append_str(v, ", ");
        }
        append_str(v, parts[i].as_str());
        proof {
            if i > 0 {
                assert(v@ =~= start + (joined(before, ", "@) + ", "@ + after.last()));
            } else {
                assert(before.len() == 0);
                assert(v@ =~= start + after.last());
            }
        }
        i = i + 1;
    }
    assert(parts@.subrange(0, parts@.len() as int) =~= parts@);
}

/// How a Node API failure reads.
pub open spec fn node_error_text(e: NodeApiError) -> Seq<char> {
    match e {
        NodeApiError::UnsupportedVersion { offered, supported } => "node offers only "@ + joined(
            texts(offered@),
            ", "@,
        ) + " (this controller speaks "@ + joined(texts(supported@), ", "@) + ")"@,
        NodeApiError::BadAddress { base, reason } => "cannot address the node at "@ + base@
            + ": "@ + reason@,
        NodeApiError::Unreachable { collection, reason } => "cannot reach the node for "@
            + collection@ + ": "@ + reason@,
        NodeApiError::Timeout { collection } => "timed out reading "@ + collection@,
        NodeApiError::Status { collection, status } => "node answered "@ + decimal(status as nat)
            + " for "@ + collection@,
        NodeApiError::Malformed { collection, reason } => "cannot understand the node's "@
            + collection@ + ": "@ + reason@,
    }
}

impl NodeApiError {
    /// The failure as an operator reads it.
    pub fn to_string(&self) -> (r: String)
        ensures
            r@ == node_error_text(*self),
    {
        let mut v: Vec<char> = Vec::new();
        match self {
            NodeApiError::UnsupportedVersion { offered, supported } => {
                append_str(&mut v, "node offers only ");
                append_joined(&mut v, offered);
                append_str(&mut v, " (this controller speaks ");
                append_joined(&mut v, supported);
                append_str(&mut v, ")");
            },
            NodeApiError::BadAddress { base, reason } => {
                append_str(&mut v, "cannot address the node at ");
                append_str(&mut v, base.as_str());
                append_str(&mut v, ": ");
                append_str(&mut v, reason.as_str());
            },
            NodeApiError::Unreachable { collection, reason } => {
                append_str(&mut v, "cannot reach the node for ");
                append_str(&mut v, collection);
                append_str(&mut v, ": ");
                append_str(&mut v, reason.as_str());
            },
            NodeApiError::Timeout { collection } => {
                append_str(&mut v, "timed out reading ");
                append_str(&mut v, collection);
            },
            NodeApiError::Status { collection, status } => {
                append_str(&mut v, "node answered ");
                append_decimal(&mut v, *status as u64);
                append_str(&mut v, " for ");
                append_str(&mut v, collection);
            },
            NodeApiError::Malformed { collection, reason } => {
                append_str(&mut v, "cannot understand the node's ");
                append_str(&mut v, collection);
                append_str(&mut v, ": ");
                append_str(&mut v, reason.as_str());
            },
        }
        string_from_chars(&v)
    }
}

/// Whether this client speaks a version: `v1.2` or `v1.3`.
pub open spec fn spoken(v: ApiVersion) -> bool {
    v.spec_major() == 1 && (v.spec_minor() == 2 || v.spec_minor() == 3)
}

/// How versions are written.
pub open spec fn version_texts(v: Seq<ApiVersion>) -> Seq<Seq<char>> {
    v.map_values(|a: ApiVersion| api_version_text(a.spec_major(), a.spec_minor()))
}

/// How some versions are written, in order.
fn version_strings(v: &[ApiVersion]) -> (r: Vec<String>)
    ensures
        texts(r@) == version_texts(v@),
{
    let mut r: Vec<String> = Vec::new();
    let mut i: usize = 0;
    while i < v.len()
        invariant
            i <= v@.len(),
            r@.len() == i,
            texts(r@) == version_texts(v@.subrange(0, i as int)),
        decreases v@.len() - i,
    {
        let t = v[i].to_string();
        let ghost old_r = r@;
        r.push(t);
        assert(r@ =~= old_r.push(t));
        assert(texts(r@) =~= version_texts(v@.subrange(0, i + 1))) by {
            assert forall|j: int| 0 <= j < i + 1 implies texts(r@)[j] == version_texts(
                v@.subrange(0, i + 1),
            )[j] by {
                if j < i {
                    assert(texts(old_r)[j] == version_texts(v@.subrange(0, i as int))[j]);
                }
            }
        }
        i = i + 1;
    }
    assert(v@.subrange(0, v@.len() as int) =~= v@);
    r
}

/// The version a Node is read at: the highest it offers that this client
/// speaks.
///
/// When nothing overlaps, the failure names what the Node offered and what
/// this client speaks.
pub fn choose_version(offered: &[ApiVersion]) -> (r: Result<ApiVersion, NodeApiError>)
    ensures
        r is Ok <==> exists|i: int| 0 <= i < offered@.len() && spoken(#[trigger] offered@[i]),
        r matches Ok(v) ==> offered@.contains(v) && spoken(v) && forall|w: ApiVersion|
            offered@.contains(w) && spoken(w) ==> !api_lt(v, w),
        r matches Err(e) ==> (e matches NodeApiError::UnsupportedVersion { offered: o, supported: s }
            && texts(o@) == version_texts(offered@) && texts(s@) == seq![
            api_version_text(1, 2),
            api_version_text(1, 3),
        ]),
{
    let supported = supported_versions();
    assert forall|w: ApiVersion| supported@.contains(w) <==> spoken(w) by {
        if spoken(w) {
            if w.spec_minor() == 2 {
                lemma_api_version_same(supported@[0], w);
                assert(supported@[0] == w);
            } else {
                lemma_api_version_same(supported@[1], w);
                assert(supported@[1] == w);
            }
        }
    }
    match negotiate(offered, supported.as_slice()) {
        Some(v) => Ok(v),
        None => {
            let o = version_strings(offered);
            let s = version_strings(supported.as_slice());
            assert(version_texts(supported@) =~= seq![
                api_version_text(1, 2),
                api_version_text(1, 3),
            ]);
            Err(NodeApiError::UnsupportedVersion { offered: o, supported: s })
        },
    }
}

/// Where a Node's collections are read at a version.
pub open spec fn tree_prefix_text(base: Seq<char>, version: ApiVersion) -> Seq<char> {
    without_trailing_slashes(base) + "/x-nmos/node/"@ + api_version_text(
        version.spec_major(),
        version.spec_minor(),
    )
}

/// Where a Node's collections are read at a version.
pub fn tree_prefix(base: &str, version: ApiVersion) -> (r: String)
    ensures
        r@ == tree_prefix_text(base@, version),
{
    let mut v = trim_trailing_slashes(base);
    append_str(&mut v, "/x-nmos/node/");
    let t = version.to_string();
    append_str(&mut v, t.as_str());
    string_from_chars(&v)
}

/// Where one collection is read, below the prefix.
pub fn collection_url(prefix: &str, collection: &str) -> (r: String)
    ensures
        r@ == prefix@ + "/"@ + collection@,
{
    let mut v: Vec<char> = Vec::new();
    append_str(&mut v, prefix);
    append_str(&mut v, "/");
    append_str(&mut v, collection);
    string_from_chars(&v)
}

/// The failure a request that did not complete is reported as: a timeout, an
/// answer that could not be decoded, or otherwise a Node not reached.
pub open spec fn is_failure_of(
    e: NodeApiError,
    collection: Seq<char>,
    timed_out: bool,
    undecodable: bool,
    reason: Seq<char>,
) -> bool {
    match e {
        NodeApiError::Timeout { collection: c } => timed_out && c@ == collection,
        NodeApiError::Malformed { collection: c, reason: y } => !timed_out && undecodable && c@
            == collection && y@ == reason,
        NodeApiError::Unreachable { collection: c, reason: y } => !timed_out && !undecodable && c@
            == collection && y@ == reason,
        _ => false,
    }
}

/// The failure a request that did not complete is reported as.
pub fn classify_failure(
    collection: &'static str,
    timed_out: bool,
    undecodable: bool,
    reason: String,
) -> (r: NodeApiError)
    ensures
        is_failure_of(r, collection@, timed_out, undecodable, reason@),
{
    if timed_out {
        NodeApiError::Timeout { collection }
    } else if undecodable {
        NodeApiError::Malformed { collection, reason }
    } else {
        NodeApiError::Unreachable { collection, reason }
    }
}

/// The failure an HTTP error is reported as, naming the collection.
pub fn classify(error: reqwest::Error, collection: &'static str) -> (r: NodeApiError)
    ensures
        is_failure_of(
            r,
            collection@,
            http_timed_out(error),
            http_undecodable(error) || http_body_failed(error),
            http_error_message(error),
        ),
{
    let t = timed_out(&error);
    let u = undecodable(&error) || unreadable_body(&error);
    let reason = http_error_text(&error);
    classify_failure(collection, t, u, reason)
}

/// The answer's status, as a failure unless it is `200 OK`.
pub fn check_status(collection: &'static str, status: u16) -> (r: Result<(), NodeApiError>)
    ensures
        match r {
            Ok(()) => status == 200,
            Err(NodeApiError::Status { collection: c, status: s }) => status != 200 && c@
                == collection@ && s == status,
            Err(_) => false,
        },
{
    if status == 200 {
        Ok(())
    } else {
        Err(NodeApiError::Status { collection, status })
    }
}

/// How a body that could not be read is described: a web page where JSON was
/// expected says so; anything else is the parser's own words.
pub open spec fn described(body: Seq<char>, reason: Seq<char>) -> Seq<char> {
    if opens_with_markup(body) {
        "expected JSON, got what looks like a web page ("@ + reason + ")"@
    } else {
        reason
    }
}

/// How a body that could not be read is described, given what the parser
/// said of it.
pub fn describe_failure(body: &str, reason: String) -> (r: String)
    ensures
        r@ == described(body@, reason@),
{
    if looks_like_markup(body) {
        let mut v: Vec<char> = Vec::new();
        append_str(&mut v, "expected JSON, got what looks like a web page (");
        append_str(&mut v, reason.as_str());
        append_str(&mut v, ")");
        string_from_chars(&v)
    } else {
        reason
    }
}

/// Describe a parse failure in terms of what actually arrived.
pub fn describe(body: &str, error: &serde_json::Error) -> (r: String)
    ensures
        r@ == described(body@, json_error_message(*error)),
{
    let reason = json_error_text(error);
    describe_failure(body, reason)
}

/// The failure a body that could not be read is reported as.
pub fn malformed(collection: &'static str, body: &str, error: &serde_json::Error) -> (r:
    NodeApiError)
    ensures
        r matches NodeApiError::Malformed { collection: c, reason: y } && c@ == collection@ && y@
            == described(body@, json_error_message(*error)),
{
    NodeApiError::Malformed { collection, reason: describe(body, error) }
}

/// Reads Node APIs.
pub struct NodeApiClient {
    http: reqwest::Client,
    configured_by: Ghost<reqwest::ClientBuilder>,
}

/// Builds a [`NodeApiClient`].
#[derive(Debug)]
pub struct NodeApiClientBuilder {
    request_timeout: Duration,
    connect_timeout: Duration,
    user_agent: String,
}

impl NodeApiClientBuilder {
    /// How long one request may take in total.
    pub closed spec fn spec_request_timeout(self) -> Duration {
        self.request_timeout
    }

    /// How long establishing a connection may take.
    pub closed spec fn spec_connect_timeout(self) -> Duration {
        self.connect_timeout
    }

    /// What the controller identifies itself as.
    pub closed spec fn spec_user_agent(self) -> Seq<char> {
        self.user_agent@
    }

    /// How long one request may take in total.
    pub fn request_timeout(self, timeout: Duration) -> (r: Self)
        ensures
            r.spec_request_timeout() == timeout,
            r.spec_connect_timeout() == self.spec_connect_timeout(),
            r.spec_user_agent() == self.spec_user_agent(),
    {
        NodeApiClientBuilder { request_timeout: timeout, ..self }
    }

    /// How long establishing a connection may take.
    pub fn connect_timeout(self, timeout: Duration) -> (r: Self)
        ensures
            r.spec_connect_timeout() == timeout,
            r.spec_request_timeout() == self.spec_request_timeout(),
            r.spec_user_agent() == self.spec_user_agent(),
    {
        NodeApiClientBuilder { connect_timeout: timeout, ..self }
    }

    /// What to identify this controller as.
    pub fn user_agent(self, user_agent: String) -> (r: Self)
        ensures
            r.spec_user_agent() == user_agent@,
            r.spec_request_timeout() == self.spec_request_timeout(),
            r.spec_connect_timeout() == self.spec_connect_timeout(),
    {
        NodeApiClientBuilder { user_agent, ..self }
    }

    /// Build the client.
    ///
    /// Fails only if the HTTP client cannot be constructed, which in practice
    /// means the platform's TLS backend is unavailable.
    pub fn build(self) -> (r: Result<NodeApiClient, NodeApiError>)
        ensures
            r matches Ok(c) ==> exists|start: reqwest::ClientBuilder| c.spec_configured_by() == configured(
                start,
                self.spec_request_timeout(),
                self.spec_connect_timeout(),
                self.spec_user_agent(),
            ),
            r matches Err(e) ==> (e matches NodeApiError::BadAddress { base: b, reason: y } && b@
                == "<http client>"@ && exists|x: reqwest::Error| y@ == http_error_message(x)),
    {
        let start = http_builder();
        let ghost first = start;
        let b = with_timeout(start, self.request_timeout);
        let b = with_connect_timeout(b, self.connect_timeout);
        let b = with_user_agent(b, self.user_agent);
        let ghost made = b;
        assert(made == configured(first, self.request_timeout, self.connect_timeout, self.user_agent@));
        match build_client(b) {
            Ok(http) => {
                let c = NodeApiClient { http, configured_by: Ghost(made) };
                assert(c.spec_configured_by() == configured(
                    first,
                    self.spec_request_timeout(),
                    self.spec_connect_timeout(),
                    self.spec_user_agent(),
                ));
                Ok(c)
            },
            Err(e) => Err(build_failure(e)),
        }
    }
}

/// What a failure to build the HTTP client is reported as: a bad address for
/// the client itself, in the HTTP client's own words.
pub fn build_failure(e: reqwest::Error) -> (r: NodeApiError)
    ensures
        r matches NodeApiError::BadAddress { base: b, reason: y } && b@ == "<http client>"@ && y@
            == http_error_message(e),
{
    NodeApiError::BadAddress { base: "<http client>".to_owned(), reason: http_error_text(&e) }
}

impl Default for NodeApiClientBuilder {
    /// Five seconds a request, two to connect, and this controller's name.
    fn default() -> (r: Self)
        ensures
            r.spec_request_timeout() == whole_seconds(5),
            r.spec_connect_timeout() == whole_seconds(2),
            r.spec_user_agent() == agent_name(),
    {
        NodeApiClientBuilder {
            request_timeout: seconds(5),
            connect_timeout: seconds(2),
            user_agent: default_user_agent(),
        }
    }
}

impl NodeApiClient {
    /// Start building a client.
    pub fn builder() -> (r: NodeApiClientBuilder)
        ensures
            r.spec_request_timeout() == whole_seconds(5),
            r.spec_connect_timeout() == whole_seconds(2),
            r.spec_user_agent() == agent_name(),
    {
        NodeApiClientBuilder::default()
    }

    /// The HTTP client this client holds.
    pub closed spec fn spec_http(&self) -> reqwest::Client {
        self.http
    }

    /// The builder the HTTP client was built from.
    pub closed spec fn spec_configured_by(&self) -> reqwest::ClientBuilder {
        self.configured_by@
    }

    /// The HTTP client requests are sent with: the one this client holds.
    pub fn http(&self) -> (r: &reqwest::Client)
        ensures
            *r == self.spec_http(),
    {
        &self.http
    }
}

} // verus!
