//! What the two HTTP clients share: the client itself, how a failed request
//! is told apart, and how a body that is not JSON is recognised.
//!
//! Nothing here sends a request; sending is the caller's business.

use std::time::Duration;

use vstd::prelude::*;

use crate::base::text::chars_of;
use crate::nmos::media::is_white_space;

verus! {

broadcast use vstd::std_specs::vec::group_vec_axioms;

/// The HTTP client, carried through unread.
#[verifier::external_type_specification]
#[verifier::external_body]
pub struct ExHttpClient(reqwest::Client);

/// The HTTP client's builder, carried through unread.
#[verifier::external_type_specification]
#[verifier::external_body]
pub struct ExHttpClientBuilder(reqwest::ClientBuilder);

/// A failed request, as the HTTP client reports it.
#[verifier::external_type_specification]
#[verifier::external_body]
pub struct ExHttpError(reqwest::Error);

/// What `Duration::from_secs` gives for a number of seconds.
pub uninterp spec fn whole_seconds(secs: u64) -> Duration;

/// What `Duration::as_nanos` gives for a span.
pub uninterp spec fn span_nanos(d: Duration) -> u128;

/// A span of whole seconds.
///
/// Wraps `Duration::from_secs`, which depends on its argument alone; the
/// span it makes holds that many seconds of nanoseconds.
#[verifier::external_body]
pub(crate) fn seconds(secs: u64) -> (d: Duration)
    ensures
        d == whole_seconds(secs),
        span_nanos(d) == secs as int * 1_000_000_000,
{
    Duration::from_secs(secs)
}

/// The nanoseconds a span holds. Wraps `Duration::as_nanos`, which counts
/// them all and depends on the span alone.
#[verifier::external_body]
pub(crate) fn nanos_in(d: Duration) -> (r: u128)
    ensures
        r == span_nanos(d),
{
    d.as_nanos()
}

/// A builder with the HTTP client's defaults. Wraps `reqwest::Client::builder`.
#[verifier::external_body]
pub(crate) fn http_builder() -> reqwest::ClientBuilder {
    reqwest::Client::builder()
}

/// What `reqwest::ClientBuilder::timeout` makes of a builder and a span.
pub uninterp spec fn timeout_set(b: reqwest::ClientBuilder, d: Duration) -> reqwest::ClientBuilder;

/// What `reqwest::ClientBuilder::connect_timeout` makes of a builder and a span.
pub uninterp spec fn connect_timeout_set(b: reqwest::ClientBuilder, d: Duration) -> reqwest::ClientBuilder;

/// What `reqwest::ClientBuilder::user_agent` makes of a builder and a text.
pub uninterp spec fn user_agent_set(b: reqwest::ClientBuilder, agent: Seq<char>) -> reqwest::ClientBuilder;

/// A builder with a request timeout, a connect timeout and a user agent set
/// on it, in that order.
pub open spec fn configured(
    b: reqwest::ClientBuilder,
    request_timeout: Duration,
    connect_timeout: Duration,
    agent: Seq<char>,
) -> reqwest::ClientBuilder {
    user_agent_set(connect_timeout_set(timeout_set(b, request_timeout), connect_timeout), agent)
}

/// Sets how long one request may take. Wraps `reqwest::ClientBuilder::timeout`,
/// which records the span in the builder and reads nothing else.
#[verifier::external_body]
pub(crate) fn with_timeout(b: reqwest::ClientBuilder, d: Duration) -> (r: reqwest::ClientBuilder)
    ensures
        r == timeout_set(b, d),
{
    b.timeout(d)
}

/// Sets how long connecting may take. Wraps `reqwest::ClientBuilder::connect_timeout`,
/// which records the span in the builder and reads nothing else.
#[verifier::external_body]
pub(crate) fn with_connect_timeout(b: reqwest::ClientBuilder, d: Duration) -> (r: reqwest::ClientBuilder)
    ensures
        r == connect_timeout_set(b, d),
{
    b.connect_timeout(d)
}

/// Sets the `User-Agent` header. Wraps `reqwest::ClientBuilder::user_agent`,
/// which records the header in the builder (or, for a text that is not a
/// header value, an error it reports when building) and reads nothing else.
#[verifier::external_body]
pub(crate) fn with_user_agent(b: reqwest::ClientBuilder, agent: String) -> (r: reqwest::ClientBuilder)
    ensures
        r == user_agent_set(b, agent@),
{
    b.user_agent(agent)
}

/// Builds the client. Wraps `reqwest::ClientBuilder::build`.
///
/// Nothing is stated of the outcome: whether a client can be made depends on
/// what the platform offers.
#[verifier::external_body]
pub(crate) fn build_client(b: reqwest::ClientBuilder) -> Result<reqwest::Client, reqwest::Error> {
    b.build()
}

/// What `reqwest::Error::is_timeout` says of a failure.
pub uninterp spec fn http_timed_out(e: reqwest::Error) -> bool;

/// What `reqwest::Error::is_decode` says of a failure.
pub uninterp spec fn http_undecodable(e: reqwest::Error) -> bool;

/// What `reqwest::Error::is_body` says of a failure.
pub uninterp spec fn http_body_failed(e: reqwest::Error) -> bool;

/// What the `Display` of `reqwest::Error` writes for a failure.
pub uninterp spec fn http_error_message(e: reqwest::Error) -> Seq<char>;

/// Whether the request ran out of time. Wraps `reqwest::Error::is_timeout`,
/// which reads the error's kind and source alone.
#[verifier::external_body]
pub(crate) fn timed_out(e: &reqwest::Error) -> (r: bool)
    ensures
        r == http_timed_out(*e),
{
    e.is_timeout()
}

/// Whether the answer could not be decoded. Wraps `reqwest::Error::is_decode`,
/// which reads the error's kind alone.
#[verifier::external_body]
pub(crate) fn undecodable(e: &reqwest::Error) -> (r: bool)
    ensures
        r == http_undecodable(*e),
{
    e.is_decode()
}

/// Whether the body could not be read. Wraps `reqwest::Error::is_body`,
/// which reads the error's kind alone.
#[verifier::external_body]
pub(crate) fn unreadable_body(e: &reqwest::Error) -> (r: bool)
    ensures
        r == http_body_failed(*e),
{
    e.is_body()
}

/// What the HTTP client says of a failure. Wraps its `Display`, which writes
/// from the error's own fields alone.
#[verifier::external_body]
pub(crate) fn http_error_text(e: &reqwest::Error) -> (r: String)
    ensures
        r@ == http_error_message(*e),
{
    format!("{e}")
}

/// What this controller calls itself on the wire.
pub open spec fn agent_name() -> Seq<char> {
    "jackfield/0.1.0"@
}

/// What this controller calls itself on the wire.
pub fn default_user_agent() -> (r: String)
    ensures
        r@ == agent_name(),
{
    "jackfield/0.1.0".to_owned()
}

/// A base address without the slashes that may close it.
pub open spec fn without_trailing_slashes(s: Seq<char>) -> Seq<char>
    decreases s.len(),
{
    if s.len() > 0 && s.last() == '/' {
        without_trailing_slashes(s.drop_last())
    } else {
        s
    }
}

/// A base address without the slashes that may close it.
pub fn trim_trailing_slashes(base: &str) -> (r: Vec<char>)
    ensures
        r@ == without_trailing_slashes(base@),
{
    let v = chars_of(base);
    let mut end = v.len();
    assert(base@.take(end as int) =~= base@);
    while end > 0 && v[end - 1] == '/'
        invariant
            v@ == base@,
            end <= v.len(),
            without_trailing_slashes(base@) == without_trailing_slashes(base@.take(end as int)),
        decreases end,
    {
        assert(base@.take(end as int).drop_last() =~= base@.take(end - 1));
        end = end - 1;
    }
    assert(without_trailing_slashes(base@.take(end as int)) == base@.take(end as int));
    let mut r: Vec<char> = Vec::new();
    let mut i: usize = 0;
    while i < end
        invariant
            v@ == base@,
            end <= v.len(),
            i <= end,
            r@ == base@.take(i as int),
        decreases end - i,
    {
        r.push(v[i]);
        assert(base@.take(i + 1) =~= base@.take(i as int).push(base@[i as int]));
        i = i + 1;
    }
    r
}

/// Whether a body opens, past any white space, with `<`: a web page where
/// JSON was expected.
pub open spec fn opens_with_markup(body: Seq<char>) -> bool {
    exists|i: int|
        0 <= i < body.len() && body[i] == '<' && forall|j: int| 0 <= j < i ==> is_white_space(#[trigger] body[j])
}

/// Whether a body opens, past any white space, with `<`.
pub fn looks_like_markup(body: &str) -> (r: bool)
    ensures
        r == opens_with_markup(body@),
{
    let v = chars_of(body);
    let mut i: usize = 0;
    while i < v.len()
        invariant
            v@ == body@,
            i <= v.len(),
            forall|j: int| 0 <= j < i ==> is_white_space(#[trigger] body@[j]),
        decreases v.len() - i,
    {
        let c = v[i];
        if c == '<' {
            return true;
        }
        if !crate::nmos::media::white_space(c) {
            assert(!opens_with_markup(body@)) by {
                if opens_with_markup(body@) {
                    let k = choose|k: int|
                        0 <= k < body@.len() && body@[k] == '<' && forall|j: int|
                            0 <= j < k ==> is_white_space(#[trigger] body@[j]);
                    if k > i {
                        assert(is_white_space(body@[i as int]));
                    }
                }
            }
            return false;
        }
        i = i + 1;
    }
    false
}

} // verus!
