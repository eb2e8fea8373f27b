//! The fields every NMOS resource carries, and the two scalar types that give
//! them meaning.

use std::collections::BTreeMap;

use vstd::prelude::*;
use vstd::string::StringSliceAdditionalSpecFns;

use crate::base::decimal::{
    ascii_bytes, all_digits, decimal, decimal_chars, decimal_u64, digits_between, digits_value,
    is_digit, lemma_decimal_round_trip,
};
use crate::base::order::{lemma_text_key_injective, text_key};
use crate::base::dup::Duplicate;
use crate::base::table::Keyed;
use crate::base::text::{string_from_chars, text_before};
use crate::nmos::error::ParseError;

verus! {

broadcast use vstd::std_specs::vec::group_vec_axioms;

/// An untyped JSON value, carried through unread.
#[verifier::external_type_specification]
#[verifier::external_body]
pub struct ExJsonValue(serde_json::Value);

// ---------------------------------------------------------------------------
// Finding a byte.

/// Whether `x` occurs at or after `lo`.
pub open spec fn occurs_from(b: Seq<u8>, lo: int, x: u8) -> bool {
    exists|i: int| lo <= i < b.len() && b[i] == x
}

/// The first index at or after `lo` holding `x`.
pub open spec fn first_from(b: Seq<u8>, lo: int, x: u8) -> int {
    choose|i: int|
        lo <= i < b.len() && b[i] == x && forall|j: int| lo <= j < i ==> b[j] != x
}

/// The first index at or after `lo` holding `x`, if there is one.
pub fn find_byte(b: &[u8], lo: usize, x: u8) -> (r: Option<usize>)
    requires
        lo <= b@.len(),
    ensures
        r is None <==> !occurs_from(b@, lo as int, x),
        r matches Some(i) ==> i == first_from(b@, lo as int, x) && lo <= i < b@.len() && b@[i as int]
            == x,
{
    let mut i = lo;
    while i < b.len()
        invariant
            lo <= i <= b@.len(),
            forall|j: int| lo <= j < i ==> b@[j] != x,
        decreases b@.len() - i,
    {
        if b[i] == x {
            let ghost f = first_from(b@, lo as int, x);
            assert(lo <= i < b@.len() && b@[i as int] == x && forall|j: int| lo <= j < i ==> b@[j] != x);
            assert(f == i) by {
                if f < i {
                } else if f > i {
                }
            }
            return Some(i);
        }
        i = i + 1;
    }
    None
}

// ---------------------------------------------------------------------------
// Resource identifiers.

/// Whether a byte is a lower-case hexadecimal digit.
pub open spec fn is_lower_hex(c: u8) -> bool {
    is_digit(c) || (97 <= c <= 102)
}

/// The positions of an identifier's hyphens.
pub open spec fn hyphen_at(p: int) -> bool {
    p == 8 || p == 13 || p == 18 || p == 23
}

/// Whether byte `c` belongs at position `p` of an identifier.
pub open spec fn id_byte_fits(p: int, c: u8) -> bool {
    if hyphen_at(p) {
        c == 45
    } else {
        is_lower_hex(c)
    }
}

/// Whether every byte of a 36-byte text is where the layout wants it.
pub open spec fn id_layout_fits(b: Seq<u8>) -> bool {
    forall|p: int| 0 <= p < 36 ==> id_byte_fits(p, #[trigger] b[p])
}

/// The first position that breaks the layout.
pub open spec fn first_misfit(b: Seq<u8>) -> int {
    choose|p: int|
        0 <= p < 36 && !id_byte_fits(p, b[p]) && forall|q: int| 0 <= q < p ==> id_byte_fits(q, b[q])
}

/// Whether the version nibble is one IS-04 admits.
pub open spec fn id_version_fits(b: Seq<u8>) -> bool {
    49 <= b[14] <= 53
}

/// Whether the variant nibble is one IS-04 admits.
pub open spec fn id_variant_fits(b: Seq<u8>) -> bool {
    b[19] == 56 || b[19] == 57 || b[19] == 97 || b[19] == 98
}

/// Whether a text is an NMOS resource identifier: lower-case, versions 1 to 5,
/// variants 8 to b.
pub open spec fn valid_resource_id(b: Seq<u8>) -> bool {
    &&& b.len() == 36
    &&& id_layout_fits(b)
    &&& id_version_fits(b)
    &&& id_variant_fits(b)
}

/// Why a text is not an identifier: the first check it fails.
pub open spec fn resource_id_reason(b: Seq<u8>) -> Seq<char> {
    if b.len() != 36 {
        "expected 36 characters"@
    } else if !id_layout_fits(b) {
        if hyphen_at(first_misfit(b)) {
            "expected a hyphen at 8, 13, 18 and 23"@
        } else {
            "expected lower-case hexadecimal digits"@
        }
    } else if !id_version_fits(b) {
        "version nibble outside 1-5"@
    } else {
        "variant nibble outside 8-b"@
    }
}

/// The globally unique identifier of an NMOS resource.
///
/// IS-04 narrows RFC 4122 further than a general UUID parser does — lower case,
/// version 1 to 5, variant 8 to b — so the check here is the specification's
/// own pattern rather than a general one. Holding the text as it arrived also
/// means a resource serializes back byte-for-byte.
#[derive(Debug, Clone, PartialEq, Eq, PartialOrd, Ord, Hash)]
pub struct ResourceId(String);

impl ResourceId {
    /// The identifier's text.
    pub closed spec fn view(&self) -> Seq<char> {
        self.0@
    }

    /// The identifier as it appears on the wire.
    pub fn as_str(&self) -> (r: &str)
        ensures
            r@ == self@,
    {
        self.0.as_str()
    }

    /// The identifier as text, exactly as it arrived.
    pub fn to_string(&self) -> (r: String)
        ensures
            r@ == self@,
    {
        self.0.clone()
    }

    /// A copy of the identifier.
    pub fn copy(&self) -> (r: ResourceId)
        ensures
            r@ == self@,
    {
        ResourceId(self.0.clone())
    }

    /// Whether two identifiers are the same.
    pub fn same(&self, other: &ResourceId) -> (r: bool)
        ensures
            r == (self@ == other@),
    {
        self.0 == other.0
    }

    /// Read an identifier, holding the text exactly as it arrived.
    pub fn parse(text: &str) -> (r: Result<ResourceId, ParseError>)
        ensures
            r is Ok <==> valid_resource_id(text.spec_bytes()),
            r matches Ok(id) ==> id@ == text@,
            r matches Err(e) ==> e matches ParseError::ResourceId { reason } && reason@
                == resource_id_reason(text.spec_bytes()),
    {
        let bytes = text.as_bytes();
        let ghost b = bytes@;
        if bytes.len() != 36 {
            return Err(ParseError::ResourceId { reason: "expected 36 characters" });
        }
        let mut position: usize = 0;
        while position < 36
            invariant
                b == bytes@,
                b == text.spec_bytes(),
                b.len() == 36,
                position <= 36,
                forall|q: int| 0 <= q < position ==> id_byte_fits(q, #[trigger] b[q]),
            decreases 36 - position,
        {
            let byte = bytes[position];
            let expected_hyphen = position == 8 || position == 13 || position == 18 || position
                == 23;
            let fits = if expected_hyphen {
                byte == 45
            } else {
                (48 <= byte && byte <= 57) || (97 <= byte && byte <= 102)
            };
            assert(fits == id_byte_fits(position as int, byte));
            if !fits {
                proof {
                    assert(!id_layout_fits(b));
                    let f = first_misfit(b);
                    assert(0 <= position < 36 && !id_byte_fits(position as int, b[position as int])
                        && forall|q: int| 0 <= q < position ==> id_byte_fits(q, b[q]));
                    assert(f == position) by {
                        if f < position {
                        } else if f > position {
                        }
                    }
                }
                if expected_hyphen {
                    return Err(
                        ParseError::ResourceId { reason: "expected a hyphen at 8, 13, 18 and 23" },
                    );
                } else {
                    return Err(
                        ParseError::ResourceId { reason: "expected lower-case hexadecimal digits" },
                    );
                }
            }
            position = position + 1;
        }
        let version = bytes[14];
        if !(49 <= version && version <= 53) {
            return Err(ParseError::ResourceId { reason: "version nibble outside 1-5" });
        }
        let variant = bytes[19];
        if !(variant == 56 || variant == 57 || variant == 97 || variant == 98) {
            return Err(ParseError::ResourceId { reason: "variant nibble outside 8-b" });
        }
        Ok(ResourceId(text.to_owned()))
    }
}

impl Keyed for ResourceId {
    open spec fn key(&self) -> Seq<int> {
        text_key(self@)
    }

    fn same_key(&self, other: &Self) -> (r: bool) {
        proof {
            lemma_text_key_injective(self@, other@);
        }
        self.same(other)
    }

    fn key_before(&self, other: &Self) -> (r: bool) {
        text_before(self.as_str(), other.as_str())
    }
}

impl Duplicate for ResourceId {
    open spec fn same(&self, other: &Self) -> bool {
        self@ == other@
    }

    fn duplicate(&self) -> (r: Self) {
        self.copy()
    }
}

impl std::str::FromStr for ResourceId {
    type Err = ParseError;

    /// Read a value, as [`ResourceId::parse`] does.
    fn from_str(text: &str) -> (r: Result<Self, Self::Err>)
        ensures
            r is Ok <==> valid_resource_id(text.spec_bytes()),
            r matches Ok(id) ==> id@ == text@,
            r matches Err(e) ==> e matches ParseError::ResourceId { reason } && reason@
                == resource_id_reason(text.spec_bytes()),
    {
        ResourceId::parse(text)
    }
}

// ---------------------------------------------------------------------------
// Versions.

/// What reading `<seconds>:<nanoseconds>` gives: the two numbers, or the
/// reason it cannot be read.
pub open spec fn version_reading(b: Seq<u8>) -> Result<(nat, nat), Seq<char>> {
    if !occurs_from(b, 0, 58) {
        Err("expected <seconds>:<nanoseconds>"@)
    } else {
        let c = first_from(b, 0, 58);
        let seconds = b.subrange(0, c);
        let nanoseconds = b.subrange(c + 1, b.len() as int);
        if !(seconds.len() > 0 && all_digits(seconds) && nanoseconds.len() > 0 && all_digits(
            nanoseconds,
        )) {
            Err("expected decimal digits either side of the colon"@)
        } else if digits_value(seconds) > u64::MAX {
            Err("seconds do not fit"@)
        } else if digits_value(nanoseconds) > u64::MAX {
            Err("nanoseconds do not fit"@)
        } else {
            Ok((digits_value(seconds), digits_value(nanoseconds)))
        }
    }
}

/// How a version is written: decimal seconds, a colon, decimal nanoseconds.
pub open spec fn version_text(seconds: u64, nanoseconds: u64) -> Seq<char> {
    decimal(seconds as nat).push(':') + decimal(nanoseconds as nat)
}

/// When a resource last changed: a TAI timestamp written `<seconds>:<nanoseconds>`.
///
/// Held as numbers rather than text because comparing two versions is the
/// point of the field — it is how the controller notices that a resource it
/// already holds has moved on.
#[derive(Debug, Clone, Copy, PartialEq, Eq, Structural, PartialOrd, Ord, Hash)]
pub struct Version {
    seconds: u64,
    nanoseconds: u64,
}

impl Version {
    /// Whole seconds since the TAI epoch.
    pub closed spec fn spec_seconds(self) -> u64 {
        self.seconds
    }

    /// Nanoseconds within the second.
    pub closed spec fn spec_nanoseconds(self) -> u64 {
        self.nanoseconds
    }

    /// Whole seconds since the TAI epoch.
    pub fn seconds(self) -> (r: u64)
        ensures
            r == self.spec_seconds(),
    {
        self.seconds
    }

    /// Nanoseconds within the second.
    pub fn nanoseconds(self) -> (r: u64)
        ensures
            r == self.spec_nanoseconds(),
    {
        self.nanoseconds
    }

    /// Whether this version is earlier than another: by seconds, then by
    /// nanoseconds.
    pub fn earlier_than(self, other: Version) -> (r: bool)
        ensures
            r == (self.spec_seconds() < other.spec_seconds() || (self.spec_seconds()
                == other.spec_seconds() && self.spec_nanoseconds() < other.spec_nanoseconds())),
    {
        self.seconds < other.seconds || (self.seconds == other.seconds && self.nanoseconds
            < other.nanoseconds)
    }

    /// Read a version.
    ///
    /// Digits are checked before they are read, so a leading `+` — which a
    /// general integer parser would accept — is refused, as the
    /// specification's pattern refuses it.
    pub fn parse(text: &str) -> (r: Result<Version, ParseError>)
        ensures
            r is Ok <==> version_reading(text.spec_bytes()) is Ok,
            r matches Ok(v) ==> version_reading(text.spec_bytes()) == Ok::<(nat, nat), Seq<char>>(
                (v.spec_seconds() as nat, v.spec_nanoseconds() as nat),
            ),
            r matches Err(e) ==> e matches ParseError::Version { reason } && version_reading(
                text.spec_bytes(),
            ) == Err::<(nat, nat), Seq<char>>(reason@),
    {
        let bytes = text.as_bytes();
        let colon = match find_byte(bytes, 0, 58) {
            None => return Err(ParseError::Version { reason: "expected <seconds>:<nanoseconds>" }),
            Some(c) => c,
        };
        let n = bytes.len();
        let seconds_ok = colon > 0 && digits_between(bytes, 0, colon);
        let nanos_ok = colon + 1 < n && digits_between(bytes, colon + 1, n);
        if !seconds_ok || !nanos_ok {
            return Err(
                ParseError::Version { reason: "expected decimal digits either side of the colon" },
            );
        }
        let seconds = match decimal_u64(bytes, 0, colon) {
            None => return Err(ParseError::Version { reason: "seconds do not fit" }),
            Some(v) => v,
        };
        let nanoseconds = match decimal_u64(bytes, colon + 1, n) {
            None => return Err(ParseError::Version { reason: "nanoseconds do not fit" }),
            Some(v) => v,
        };
        Ok(Version { seconds, nanoseconds })
    }

    /// The version as it is written on the wire: `<seconds>:<nanoseconds>`,
    /// without leading zeroes.
    pub fn to_string(&self) -> (r: String)
        ensures
            r@ == version_text(self.spec_seconds(), self.spec_nanoseconds()),
    {
        let mut chars = decimal_chars(self.seconds);
        chars.push(':');
        let mut rest = decimal_chars(self.nanoseconds);
        chars.append(&mut rest);
        string_from_chars(&chars)
    }
}

impl std::str::FromStr for Version {
    type Err = ParseError;

    /// Read a value, as [`Version::parse`] does.
    fn from_str(text: &str) -> (r: Result<Self, Self::Err>)
        ensures
            r is Ok <==> version_reading(text.spec_bytes()) is Ok,
            r matches Ok(v) ==> version_reading(text.spec_bytes()) == Ok::<(nat, nat), Seq<char>>(
                (v.spec_seconds() as nat, v.spec_nanoseconds() as nat),
            ),
            r matches Err(e) ==> e matches ParseError::Version { reason } && version_reading(
                text.spec_bytes(),
            ) == Err::<(nat, nat), Seq<char>>(reason@),
    {
        Version::parse(text)
    }
}

/// The bytes of the text a version is written as.
proof fn lemma_version_text_bytes(seconds: u64, nanoseconds: u64)
    ensures
        ({
            let b = ascii_bytes(version_text(seconds, nanoseconds));
            let c = decimal(seconds as nat).len() as int;
            &&& occurs_from(b, 0, 58)
            &&& first_from(b, 0, 58) == c
            &&& b.subrange(0, c) == ascii_bytes(decimal(seconds as nat))
            &&& b.subrange(c + 1, b.len() as int) == ascii_bytes(decimal(nanoseconds as nat))
        }),
{
    lemma_decimal_round_trip(seconds as nat);
    lemma_decimal_round_trip(nanoseconds as nat);
    let s = decimal(seconds as nat);
    let n = decimal(nanoseconds as nat);
    let b = ascii_bytes(version_text(seconds, nanoseconds));
    let c = s.len() as int;
    assert(b[c] == 58);
    assert forall|j: int| 0 <= j < c implies b[j] != 58 by {
        assert(b[j] == ascii_bytes(s)[j]);
        assert(is_digit(ascii_bytes(s)[j]));
    }
    let f = first_from(b, 0, 58);
    assert(f == c) by {
        if f < c {
        } else if f > c {
        }
    }
    assert(b.subrange(0, c) =~= ascii_bytes(s));
    assert(b.subrange(c + 1, b.len() as int) =~= ascii_bytes(n));
}

/// The text a version is written as is ASCII.
proof fn lemma_version_text_ascii(seconds: u64, nanoseconds: u64)
    ensures
        vstd::utf8::is_ascii_chars(version_text(seconds, nanoseconds)),
{
    lemma_decimal_round_trip(seconds as nat);
    lemma_decimal_round_trip(nanoseconds as nat);
    let s = decimal(seconds as nat);
    let n = decimal(nanoseconds as nat);
    let text = version_text(seconds, nanoseconds);
    assert forall|i: int| 0 <= i < text.len() implies '\0' <= #[trigger] text[i] <= '\u{7f}' by {
        if i < s.len() {
            assert(text[i] == s[i]);
            
        } else if i > s.len() {
            assert(text[i] == n[i - s.len() - 1]);
            
        }
    }
}

/// Writing a version and reading it back gives the same version: the text a
/// version is written as is always a readable version, and reads as itself.
pub proof fn law_version_text_round_trip(v: Version, t: &str)
    requires
        t@ == version_text(v.spec_seconds(), v.spec_nanoseconds()),
    ensures
        version_reading(t.spec_bytes()) == Ok::<(nat, nat), Seq<char>>(
            (v.spec_seconds() as nat, v.spec_nanoseconds() as nat),
        ),
{
    let seconds = v.spec_seconds();
    let nanoseconds = v.spec_nanoseconds();
    lemma_decimal_round_trip(seconds as nat);
    lemma_decimal_round_trip(nanoseconds as nat);
    lemma_version_text_bytes(seconds, nanoseconds);
    let text = version_text(seconds, nanoseconds);
    lemma_version_text_ascii(seconds, nanoseconds);
    vstd::string::is_ascii_spec_bytes(t);
    assert(t.spec_bytes() =~= ascii_bytes(text));
}

/// An object the specification leaves undefined — a resource's `caps`, so far.
///
/// Carried verbatim rather than dropped, so that a resource this project reads
/// and writes back satisfies its schema unchanged. Nothing here is interpreted.
pub type Capabilities = BTreeMap<String, serde_json::Value>;

/// Freeform tags a resource carries, each key mapping to a list of values.
pub type Tags = BTreeMap<String, Vec<String>>;

/// The fields `resource_core.json` gives every NMOS resource.
///
/// `label`, `description` and `tags` are required by the specification but
/// defaulted when absent, because equipment omits them and a Node that omits
/// its label must still be listed — under its hostname — rather than dropped.
#[derive(Debug, Clone)]
pub struct ResourceCore {
    /// Globally unique identifier for the resource.
    pub id: ResourceId,
    /// When an attribute of the resource last changed.
    pub version: Version,
    /// Freeform label. Repeats across resources on real equipment, so it is
    /// never enough on its own to tell two resources apart.
    pub label: String,
    /// Freeform description.
    pub description: String,
    /// Freeform tags.
    pub tags: Tags,
}

impl Duplicate for ResourceCore {
    open spec fn same(&self, other: &Self) -> bool {
        &&& self.id@ == other.id@
        &&& self.version == other.version
        &&& self.label@ == other.label@
        &&& self.description@ == other.description@
        &&& self.tags@ == other.tags@
    }

    fn duplicate(&self) -> (r: Self) {
        ResourceCore {
            id: self.id.copy(),
            version: self.version,
            label: self.label.clone(),
            description: self.description.clone(),
            tags: self.tags.clone(),
        }
    }
}

} // verus!
