//! The API versions this project speaks.

use vstd::prelude::*;
use vstd::string::StringSliceAdditionalSpecFns;

use crate::base::decimal::{
    ascii_bytes, all_digits, decimal, decimal_chars, decimal_u64, digits_between, digits_value,
    is_digit, lemma_decimal_round_trip,
};
use crate::base::text::string_from_chars;
use crate::nmos::error::ParseError;
use crate::nmos::resource::{find_byte, first_from, occurs_from};

verus! {

broadcast use vstd::std_specs::vec::group_vec_axioms;

/// An NMOS API version, written `v<major>.<minor>`.
///
/// Ordering is by major then minor, which is what makes "the highest version
/// both ends understand" a maximum rather than a table.
#[derive(Debug, Clone, Copy, PartialEq, Eq, Structural, PartialOrd, Ord, Hash)]
pub struct ApiVersion {
    major: u16,
    minor: u16,
}

/// Whether version `a` comes before version `b`: by major, then by minor.
pub open spec fn api_lt(a: ApiVersion, b: ApiVersion) -> bool {
    a.spec_major() < b.spec_major() || (a.spec_major() == b.spec_major() && a.spec_minor()
        < b.spec_minor())
}

/// What reading `v<major>.<minor>` gives, if it can be read.
pub open spec fn api_version_reading(b: Seq<u8>) -> Option<(nat, nat)> {
    if !(b.len() > 0 && b[0] == 118 && occurs_from(b, 1, 46)) {
        None
    } else {
        let d = first_from(b, 1, 46);
        let major = b.subrange(1, d);
        let minor = b.subrange(d + 1, b.len() as int);
        if !(major.len() > 0 && all_digits(major) && minor.len() > 0 && all_digits(minor)) {
            None
        } else if digits_value(major) > u16::MAX || digits_value(minor) > u16::MAX {
            None
        } else {
            Some((digits_value(major), digits_value(minor)))
        }
    }
}

/// How a version is written.
pub open spec fn api_version_text(major: u16, minor: u16) -> Seq<char> {
    seq!['v'] + decimal(major as nat).push('.') + decimal(minor as nat)
}

impl ApiVersion {
    /// The major component.
    pub closed spec fn spec_major(self) -> u16 {
        self.major
    }

    /// The minor component.
    pub closed spec fn spec_minor(self) -> u16 {
        self.minor
    }

    /// Construct a version from its parts.
    pub fn new(major: u16, minor: u16) -> (v: ApiVersion)
        ensures
            v.spec_major() == major,
            v.spec_minor() == minor,
    {
        ApiVersion { major, minor }
    }

    /// The major component.
    pub fn major(self) -> (r: u16)
        ensures
            r == self.spec_major(),
    {
        self.major
    }

    /// The minor component.
    pub fn minor(self) -> (r: u16)
        ensures
            r == self.spec_minor(),
    {
        self.minor
    }

    /// Whether two versions are the same.
    pub fn same(self, other: ApiVersion) -> (r: bool)
        ensures
            r == (self == other),
    {
        self.major == other.major && self.minor == other.minor
    }

    /// Whether this version comes before the other.
    pub fn before(self, other: ApiVersion) -> (r: bool)
        ensures
            r == api_lt(self, other),
    {
        self.major < other.major || (self.major == other.major && self.minor < other.minor)
    }

    /// Read a version.
    pub fn parse(text: &str) -> (r: Result<ApiVersion, ParseError>)
        ensures
            r is Ok <==> api_version_reading(text.spec_bytes()) is Some,
            r matches Ok(v) ==> api_version_reading(text.spec_bytes()) == Some(
                (v.spec_major() as nat, v.spec_minor() as nat),
            ),
            r matches Err(e) ==> e == ParseError::ApiVersion,
    {
        let bytes = text.as_bytes();
        let n = bytes.len();
        if n == 0 || bytes[0] != 118 {
            return Err(ParseError::ApiVersion);
        }
        let dot = match find_byte(bytes, 1, 46) {
            None => return Err(ParseError::ApiVersion),
            Some(d) => d,
        };
        let major_ok = dot > 1 && digits_between(bytes, 1, dot);
        let minor_ok = dot + 1 < n && digits_between(bytes, dot + 1, n);
        if !major_ok || !minor_ok {
            return Err(ParseError::ApiVersion);
        }
        let major = match decimal_u64(bytes, 1, dot) {
            Some(v) if v <= 65535 => v as u16,
            _ => return Err(ParseError::ApiVersion),
        };
        let minor = match decimal_u64(bytes, dot + 1, n) {
            Some(v) if v <= 65535 => v as u16,
            _ => return Err(ParseError::ApiVersion),
        };
        Ok(ApiVersion { major, minor })
    }

    /// The version as it is written: `v<major>.<minor>`.
    pub fn to_string(&self) -> (r: String)
        ensures
            r@ == api_version_text(self.spec_major(), self.spec_minor()),
    {
        let mut chars = Vec::new();
        chars.push('v');
        let mut major = decimal_chars(self.major as u64);
        chars.append(&mut major);
        chars.push('.');
        let mut minor = decimal_chars(self.minor as u64);
        chars.append(&mut minor);
        assert(chars@ =~= api_version_text(self.major, self.minor));
        string_from_chars(&chars)
    }
}

impl std::str::FromStr for ApiVersion {
    type Err = ParseError;

    /// Read a value, as [`ApiVersion::parse`] does.
    fn from_str(text: &str) -> (r: Result<Self, Self::Err>)
        ensures
            r is Ok <==> api_version_reading(text.spec_bytes()) is Some,
            r matches Ok(v) ==> api_version_reading(text.spec_bytes()) == Some(
                (v.spec_major() as nat, v.spec_minor() as nat),
            ),
            r matches Err(e) ==> e == ParseError::ApiVersion,
    {
        ApiVersion::parse(text)
    }
}

/// The text a version is written as is ASCII, and its bytes split at the dot.
proof fn lemma_api_version_text(major: u16, minor: u16)
    ensures
        vstd::utf8::is_ascii_chars(api_version_text(major, minor)),
        ({
            let b = ascii_bytes(api_version_text(major, minor));
            let d = 1 + decimal(major as nat).len() as int;
            &&& b.len() > 0
            &&& b[0] == 118
            &&& occurs_from(b, 1, 46)
            &&& first_from(b, 1, 46) == d
            &&& b.subrange(1, d) == ascii_bytes(decimal(major as nat))
            &&& b.subrange(d + 1, b.len() as int) == ascii_bytes(decimal(minor as nat))
        }),
{
    lemma_decimal_round_trip(major as nat);
    lemma_decimal_round_trip(minor as nat);
    let m = decimal(major as nat);
    let n = decimal(minor as nat);
    let text = api_version_text(major, minor);
    assert forall|i: int| 0 <= i < text.len() implies '\0' <= #[trigger] text[i] <= '\u{7f}' by {
        if 1 <= i < 1 + m.len() {
            assert(text[i] == m[i - 1]);
        } else if i > 1 + m.len() {
            assert(text[i] == n[i - m.len() - 2]);
        }
    }
    let b = ascii_bytes(text);
    let d = 1 + m.len() as int;
    assert(b[d] == 46);
    assert forall|j: int| 1 <= j < d implies b[j] != 46 by {
        assert(b[j] == ascii_bytes(m)[j - 1]);
        assert(is_digit(ascii_bytes(m)[j - 1]));
    }
    let f = first_from(b, 1, 46);
    assert(f == d) by {
        if f < d {
        } else if f > d {
        }
    }
    assert(b.subrange(1, d) =~= ascii_bytes(m));
    assert(b.subrange(d + 1, b.len() as int) =~= ascii_bytes(n));
}

/// Writing an API version and reading it back gives the same version.
pub proof fn law_api_version_text_round_trip(v: ApiVersion, t: &str)
    requires
        t@ == api_version_text(v.spec_major(), v.spec_minor()),
    ensures
        api_version_reading(t.spec_bytes()) == Some((v.spec_major() as nat, v.spec_minor() as nat)),
{
    lemma_api_version_text(v.spec_major(), v.spec_minor());
    lemma_decimal_round_trip(v.spec_major() as nat);
    lemma_decimal_round_trip(v.spec_minor() as nat);
    vstd::string::is_ascii_spec_bytes(t);
    assert(t.spec_bytes() =~= ascii_bytes(api_version_text(v.spec_major(), v.spec_minor())));
}

/// Two versions are the same exactly when their components are.
pub proof fn lemma_api_version_same(a: ApiVersion, b: ApiVersion)
    ensures
        (a.spec_major() == b.spec_major() && a.spec_minor() == b.spec_minor()) == (a == b),
{
}

/// The IS-04 versions the Node API client speaks, highest last.
pub fn supported_versions() -> (r: Vec<ApiVersion>)
    ensures
        r@.len() == 2,
        r@[0].spec_major() == 1 && r@[0].spec_minor() == 2,
        r@[1].spec_major() == 1 && r@[1].spec_minor() == 3,
{
    let mut r = Vec::new();
    r.push(ApiVersion { major: 1, minor: 2 });
    r.push(ApiVersion { major: 1, minor: 3 });
    r
}

/// Pick the highest version both ends understand, or none when the two have
/// nothing in common.
pub fn negotiate(offered: &[ApiVersion], supported: &[ApiVersion]) -> (r: Option<ApiVersion>)
    ensures
        r is None <==> !exists|i: int|
            0 <= i < offered@.len() && supported@.contains(#[trigger] offered@[i]),
        r matches Some(v) ==> offered@.contains(v) && supported@.contains(v) && forall|w: ApiVersion|
            offered@.contains(w) && supported@.contains(w) ==> !api_lt(v, w),
{
    let mut best: Option<ApiVersion> = None;
    let mut i: usize = 0;
    while i < offered.len()
        invariant
            i <= offered@.len(),
            best is None <==> !exists|j: int|
                0 <= j < i && supported@.contains(#[trigger] offered@[j]),
            best matches Some(v) ==> offered@.subrange(0, i as int).contains(v) && supported@.contains(v)
                && forall|w: ApiVersion|
                offered@.subrange(0, i as int).contains(w) && supported@.contains(w) ==> !api_lt(
                    v,
                    w,
                ),
        decreases offered@.len() - i,
    {
        let candidate = offered[i];
        let mut known = false;
        let mut k: usize = 0;
        while k < supported.len()
            invariant
                k <= supported@.len(),
                known == exists|m: int| 0 <= m < k && supported@[m] == candidate,
            decreases supported@.len() - k,
        {
            if supported[k].same(candidate) {
                known = true;
            }
            k = k + 1;
        }
        assert(known == supported@.contains(candidate));
        let ghost prefix = offered@.subrange(0, i as int);
        let ghost next = offered@.subrange(0, i + 1);
        assert(next =~= prefix.push(candidate));
        if known {
            match best {
                None => {
                    best = Some(candidate);
                    assert(next[i as int] == candidate);
                    assert forall|w: ApiVersion|
                        next.contains(w) && supported@.contains(w) implies !api_lt(candidate, w) by {
                        let j = choose|j: int| 0 <= j < next.len() && next[j] == w;
                        if j < i {
                            assert(supported@.contains(offered@[j]));
                        }
                    }
                },
                Some(b) => {
                    if b.before(candidate) {
                        best = Some(candidate);
                        assert(next[i as int] == candidate);
                        assert forall|w: ApiVersion|
                            next.contains(w) && supported@.contains(w) implies !api_lt(candidate, w) by {
                            let j = choose|j: int| 0 <= j < next.len() && next[j] == w;
                            if j < i {
                                assert(prefix[j] == w);
                                assert(prefix.contains(w));
                                assert(!api_lt(b, w));
                            }
                        }
                    } else {
                        let ghost j0 = choose|j: int| 0 <= j < prefix.len() && prefix[j] == b;
                        assert(next[j0] == b);
                        assert forall|w: ApiVersion|
                            next.contains(w) && supported@.contains(w) implies !api_lt(b, w) by {
                            let j = choose|j: int| 0 <= j < next.len() && next[j] == w;
                            if j < i {
                                assert(prefix.contains(w));
                            }
                        }
                    }
                },
            }
        } else {
            match best {
                None => {},
                Some(b) => {
                    let ghost j0 = choose|j: int| 0 <= j < prefix.len() && prefix[j] == b;
                    assert(next[j0] == b);
                    assert forall|w: ApiVersion|
                        next.contains(w) && supported@.contains(w) implies !api_lt(b, w) by {
                        let j = choose|j: int| 0 <= j < next.len() && next[j] == w;
                        if j < i {
                            assert(prefix.contains(w));
                        }
                    }
                },
            }
        }
        i = i + 1;
    }
    assert(offered@.subrange(0, offered@.len() as int) =~= offered@);
    best
}

} // verus!
