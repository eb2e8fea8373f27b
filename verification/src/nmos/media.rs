//! What a Flow carries and what a Receiver accepts.

use vstd::prelude::*;

use crate::base::dup::Duplicate;
use crate::base::text::{chars_of, text_eq};
use crate::nmos::error::ParseError;

verus! {

broadcast use vstd::std_specs::vec::group_vec_axioms;

/// The high-level kind of content, carried on the wire as a URN.
///
/// A format the specification does not define is rejected rather than mapped to
/// a catch-all: guessing what an unrecognised format means is how a controller
/// ends up telling an operator something untrue.
#[derive(Debug, Clone, Copy, PartialEq, Eq, Structural, PartialOrd, Ord, Hash)]
pub enum Format {
    Video,
    Audio,
    Data,
    Mux,
}

/// The URN each format is written as.
pub open spec fn format_urn(f: Format) -> Seq<char> {
    match f {
        Format::Video => "urn:x-nmos:format:video"@,
        Format::Audio => "urn:x-nmos:format:audio"@,
        Format::Data => "urn:x-nmos:format:data"@,
        Format::Mux => "urn:x-nmos:format:mux"@,
    }
}

impl Format {
    /// The URN this format is written as in IS-04.
    pub fn as_urn(self) -> (r: &'static str)
        ensures
            r@ == format_urn(self),
    {
        match self {
            Format::Video => "urn:x-nmos:format:video",
            Format::Audio => "urn:x-nmos:format:audio",
            Format::Data => "urn:x-nmos:format:data",
            Format::Mux => "urn:x-nmos:format:mux",
        }
    }

    /// The URN, as owned text.
    pub fn to_string(&self) -> (r: String)
        ensures
            r@ == format_urn(*self),
    {
        self.as_urn().to_owned()
    }

    /// Read a format from its URN; anything else is refused.
    pub fn parse(text: &str) -> (r: Result<Format, ParseError>)
        ensures
            r matches Ok(f) ==> text@ == format_urn(f),
            r is Err ==> r == Err::<Format, ParseError>(ParseError::Format) && forall|f: Format|
                text@ != format_urn(f),
    {
        if text_eq(text, "urn:x-nmos:format:video") {
            Ok(Format::Video)
        } else if text_eq(text, "urn:x-nmos:format:audio") {
            Ok(Format::Audio)
        } else if text_eq(text, "urn:x-nmos:format:data") {
            Ok(Format::Data)
        } else if text_eq(text, "urn:x-nmos:format:mux") {
            Ok(Format::Mux)
        } else {
            assert forall|f: Format| text@ != format_urn(f) by {
                match f {
                    Format::Video => {},
                    Format::Audio => {},
                    Format::Data => {},
                    Format::Mux => {},
                }
            }
            Err(ParseError::Format)
        }
    }
}

/// Every format's URN reads back as that format, and the four URNs are distinct.
pub proof fn law_format_urn_round_trip(f: Format, g: Format)
    ensures
        (format_urn(f) == format_urn(g)) == (f == g),
{
    reveal_strlit("urn:x-nmos:format:video");
    reveal_strlit("urn:x-nmos:format:audio");
    reveal_strlit("urn:x-nmos:format:data");
    reveal_strlit("urn:x-nmos:format:mux");
    if f != g {
        let a = format_urn(f);
        let b = format_urn(g);
        if a.len() == b.len() {
            assert(a[18] != b[18] || a[19] != b[19]);
        }
    }
}

impl std::str::FromStr for Format {
    type Err = ParseError;

    /// Read a format from its URN, as [`Format::parse`] does.
    fn from_str(text: &str) -> (r: Result<Self, Self::Err>)
        ensures
            r matches Ok(f) ==> text@ == format_urn(f),
            r is Err ==> r == Err::<Format, ParseError>(ParseError::Format) && forall|f: Format|
                text@ != format_urn(f),
    {
        Format::parse(text)
    }
}

/// Whether a character is white space, as Unicode's `White_Space` property
/// (and so `char::is_whitespace`) has it.
pub open spec fn is_white_space(c: char) -> bool {
    let u = c as u32;
    (9 <= u <= 13) || u == 32 || u == 0x85 || u == 0xA0 || u == 0x1680 || (0x2000 <= u <= 0x200A)
        || u == 0x2028 || u == 0x2029 || u == 0x202F || u == 0x205F || u == 0x3000
}

/// Whether a character is white space.
pub fn white_space(c: char) -> (r: bool)
    ensures
        r == is_white_space(c),
{
    let u = c as u32;
    (9 <= u && u <= 13) || u == 32 || u == 0x85 || u == 0xA0 || u == 0x1680 || (0x2000 <= u && u
        <= 0x200A) || u == 0x2028 || u == 0x2029 || u == 0x202F || u == 0x205F || u == 0x3000
}

/// Whether a text is `type/subtype`: exactly one slash, something on either
/// side of it, and no white space anywhere.
pub open spec fn media_type_fits(s: Seq<char>) -> bool {
    exists|c: int|
        0 < c < s.len() - 1 && #[trigger] s[c] == '/' && forall|i: int|
            0 <= i < s.len() ==> (i != c ==> s[i] != '/') && !is_white_space(#[trigger] s[i])
}

/// An IANA media type such as `video/raw` or `audio/L24`.
///
/// This is the field that makes a Sender row usable: equipment presents several
/// Senders under one label and only the media type tells them apart.
#[derive(Debug, Clone, PartialEq, Eq, PartialOrd, Ord, Hash)]
pub struct MediaType(String);

/// The prefix every linear audio media type shares.
pub open spec fn linear_audio_prefix() -> Seq<char> {
    "audio/L"@
}

/// Whether a media type is one of the uncompressed linear audio types:
/// `audio/L` followed by one or more decimal digits.
pub open spec fn is_linear_audio_text(s: Seq<char>) -> bool {
    &&& s.len() > 7
    &&& s.subrange(0, 7) == linear_audio_prefix()
    &&& forall|i: int| 7 <= i < s.len() ==> '0' <= #[trigger] s[i] <= '9'
}

impl MediaType {
    /// The media type's text.
    pub closed spec fn view(&self) -> Seq<char> {
        self.0@
    }

    /// The media type as it appears on the wire.
    pub fn as_str(&self) -> (r: &str)
        ensures
            r@ == self@,
    {
        self.0.as_str()
    }

    /// The media type, as owned text.
    pub fn to_string(&self) -> (r: String)
        ensures
            r@ == self@,
    {
        self.0.clone()
    }

    /// A copy of the media type.
    pub fn copy(&self) -> (r: MediaType)
        ensures
            r@ == self@,
    {
        MediaType(self.0.clone())
    }

    /// Whether the media type is exactly the given text.
    pub fn is(&self, text: &str) -> (r: bool)
        ensures
            r == (self@ == text@),
    {
        text_eq(self.0.as_str(), text)
    }

    /// Whether this is one of the uncompressed linear audio types, which is what
    /// separates a raw audio Flow from a coded one.
    pub fn is_linear_audio(&self) -> (r: bool)
        ensures
            r == is_linear_audio_text(self@),
    {
        let chars = chars_of(self.0.as_str());
        let prefix = chars_of("audio/L");
        proof {
            reveal_strlit("audio/L");
        }
        if chars.len() <= 7 {
            return false;
        }
        let mut i: usize = 0;
        while i < 7
            invariant
                chars@ == self@,
                prefix@ == linear_audio_prefix(),
                prefix@.len() == 7,
                chars@.len() > 7,
                i <= 7,
                forall|j: int| 0 <= j < i ==> chars@[j] == prefix@[j],
            decreases 7 - i,
        {
            if chars[i] != prefix[i] {
                assert(chars@.subrange(0, 7)[i as int] != linear_audio_prefix()[i as int]);
                return false;
            }
            i = i + 1;
        }
        assert(chars@.subrange(0, 7) =~= linear_audio_prefix());
        let mut k: usize = 7;
        while k < chars.len()
            invariant
                chars@ == self@,
                7 <= k <= chars@.len(),
                forall|j: int| 7 <= j < k ==> '0' <= #[trigger] chars@[j] <= '9',
            decreases chars@.len() - k,
        {
            let c = chars[k];
            if !('0' <= c && c <= '9') {
                return false;
            }
            k = k + 1;
        }
        true
    }

    /// Read a media type.
    pub fn parse(text: &str) -> (r: Result<MediaType, ParseError>)
        ensures
            r is Ok <==> media_type_fits(text@),
            r matches Ok(m) ==> m@ == text@,
            r is Err ==> r == Err::<MediaType, ParseError>(ParseError::MediaType),
    {
        let chars = chars_of(text);
        let n = chars.len();
        let mut slash: usize = n;
        let mut i: usize = 0;
        while i < n
            invariant
                chars@ == text@,
                n == chars@.len(),
                i <= n,
                slash == n || (slash < i && chars@[slash as int] == '/'),
                slash == n ==> forall|j: int| 0 <= j < i ==> chars@[j] != '/',
                slash < n ==> forall|j: int| 0 <= j < i && j != slash ==> chars@[j] != '/',
                forall|j: int| 0 <= j < i ==> !is_white_space(#[trigger] chars@[j]),
            decreases n - i,
        {
            let c = chars[i];
            if white_space(c) {
                assert(!media_type_fits(text@));
                return Err(ParseError::MediaType);
            }
            if c == '/' {
                if slash < n {
                    assert(!media_type_fits(text@)) by {
                        if media_type_fits(text@) {
                            let w = choose|w: int|
                                0 < w < text@.len() - 1 && #[trigger] text@[w] == '/' && forall|
                                    j: int,
                                | 0 <= j < text@.len() ==> (j != w ==> text@[j] != '/')
                                    && !is_white_space(#[trigger] text@[j]);
                            if w != slash {
                                assert(text@[slash as int] == '/');
                            } else {
                                assert(text@[i as int] == '/');
                            }
                        }
                    }
                    return Err(ParseError::MediaType);
                }
                slash = i;
            }
            i = i + 1;
        }
        if slash == n || slash == 0 || slash == n - 1 {
            assert(!media_type_fits(text@)) by {
                if media_type_fits(text@) {
                    let w = choose|w: int|
                        0 < w < text@.len() - 1 && #[trigger] text@[w] == '/' && forall|j: int|
                            0 <= j < text@.len() ==> (j != w ==> text@[j] != '/')
                                && !is_white_space(#[trigger] text@[j]);
                    assert(text@[w] == '/');
                }
            }
            return Err(ParseError::MediaType);
        }
        assert(text@[slash as int] == '/');
        Ok(MediaType(text.to_owned()))
    }
}

impl Duplicate for MediaType {
    open spec fn same(&self, other: &Self) -> bool {
        self@ == other@
    }

    fn duplicate(&self) -> (r: Self) {
        self.copy()
    }
}

impl std::str::FromStr for MediaType {
    type Err = ParseError;

    /// Read a value, as [`MediaType::parse`] does.
    fn from_str(text: &str) -> (r: Result<Self, Self::Err>)
        ensures
            r is Ok <==> media_type_fits(text@),
            r matches Ok(m) ==> m@ == text@,
            r is Err ==> r == Err::<MediaType, ParseError>(ParseError::MediaType),
    {
        MediaType::parse(text)
    }
}

/// A rate expressed as a rational number, as IS-04 writes grain and sample rates.
#[derive(Debug, Clone, Copy, PartialEq, Eq, Structural)]
pub struct Rate {
    /// Numerator.
    pub numerator: i64,
    /// Denominator; the specification defaults it to one.
    pub denominator: i64,
}

/// The denominator a rate has when none is written.
pub fn one() -> (r: i64)
    ensures
        r == 1,
{
    1
}

/// Whether a denominator is the default, and so need not be written.
pub fn is_one(value: &i64) -> (r: bool)
    ensures
        r == (*value == 1),
{
    *value == 1
}

} // verus!
