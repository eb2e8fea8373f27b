//! Reading the DNS-SD TXT records of an NMOS advertisement.
//!
//! Every field here is optional in practice, whatever the specification says,
//! so each falls back to the IS-04 default rather than taking the whole
//! advertisement down with it.

use vstd::prelude::*;

use crate::base::name::Name;
use crate::base::order::{lemma_text_key_injective, text_key};
use crate::base::table::{Keyed, Table};
use crate::base::text::{chars_of, string_from_chars, text_eq};
use crate::nmos::media::{is_white_space, white_space};
use crate::nmos::node::Protocol;
use crate::nmos::version::{api_lt, api_version_reading, lemma_api_version_same, ApiVersion};

verus! {

broadcast use vstd::std_specs::vec::group_vec_axioms;

/// The TXT records of an advertisement: each key once, with its value.
#[derive(Debug)]
pub struct TxtRecords {
    table: Table<Name, String>,
}

impl TxtRecords {
    /// The value held under a key, if any.
    pub closed spec fn lookup(&self, key: Seq<char>) -> Option<Seq<char>> {
        if self.table@.contains_key(text_key(key)) {
            Some(self.table@[text_key(key)]@)
        } else {
            None
        }
    }

    /// No records at all.
    pub fn new() -> (r: TxtRecords)
        ensures
            forall|k: Seq<char>| #[trigger] r.lookup(k) is None,
    {
        TxtRecords { table: Table::new() }
    }

    /// Hold `value` under `key`, replacing what was there.
    pub fn insert(&mut self, key: String, value: String)
        ensures
            forall|k: Seq<char>| #[trigger]
                final(self).lookup(k) == if k == key@ {
                    Some(value@)
                } else {
                    old(self).lookup(k)
                },
    {
        proof {
            use_type_invariant(&self.table);
        }
        let ghost kk = key@;
        let ghost vv = value@;
        let mut table = Table::new();
        std::mem::swap(&mut table, &mut self.table);
        let ghost before = table@;
        table.insert(Name(key), value);
        proof {
            assert forall|k: Seq<char>| k != kk implies #[trigger] text_key(k) != text_key(kk) by {
                lemma_text_key_injective(k, kk);
            }
        }
        self.table = table;
    }

    /// Take out the record under `key`.
    pub fn remove(&mut self, key: &str)
        ensures
            forall|k: Seq<char>| #[trigger]
                final(self).lookup(k) == if k == key@ {
                    None
                } else {
                    old(self).lookup(k)
                },
    {
        proof {
            use_type_invariant(&self.table);
        }
        let mut table = Table::new();
        std::mem::swap(&mut table, &mut self.table);
        table.remove(&Name::of(key));
        proof {
            assert forall|k: Seq<char>| k != key@ implies #[trigger] text_key(k) != text_key(key@) by {
                lemma_text_key_injective(k, key@);
            }
        }
        self.table = table;
    }

    /// The value held under a key, if any.
    pub fn get(&self, key: &str) -> (r: Option<&str>)
        ensures
            match r {
                Some(v) => self.lookup(key@) == Some(v@),
                None => self.lookup(key@) is None,
            },
    {
        proof {
            use_type_invariant(&self.table);
        }
        match self.table.get(&Name::of(key)) {
            Some(v) => Some(v.as_str()),
            None => None,
        }
    }
}

/// The scheme a Node's TXT records say its API is reached over: `https` only
/// when `api_proto` says exactly that, and IS-04's default `http` otherwise.
pub open spec fn advertised_protocol(txt: TxtRecords) -> Protocol {
    if txt.lookup("api_proto"@) == Some("https"@) {
        Protocol::Https
    } else {
        Protocol::Http
    }
}

/// The scheme the Node's API is reached over.
pub fn protocol(txt: &TxtRecords) -> (r: Protocol)
    ensures
        r == advertised_protocol(*txt),
{
    match txt.get("api_proto") {
        Some(value) => {
            if text_eq(value, "https") {
                Protocol::Https
            } else {
                Protocol::Http
            }
        },
        None => Protocol::Http,
    }
}

/// Whether a Node's TXT records say its API requires authorization: only a
/// literal `true` means yes.
pub open spec fn advertised_authorization(txt: TxtRecords) -> bool {
    txt.lookup("api_auth"@) == Some("true"@)
}

/// Whether the Node's API requires authorization.
pub fn requires_authorization(txt: &TxtRecords) -> (r: bool)
    ensures
        r == advertised_authorization(*txt),
{
    match txt.get("api_auth") {
        Some(value) => text_eq(value, "true"),
        None => false,
    }
}

/// A text cut at every comma.
pub open spec fn split_commas(s: Seq<char>) -> Seq<Seq<char>>
    decreases s.len(),
{
    if s.len() == 0 {
        seq![Seq::empty()]
    } else if s.last() == ',' {
        split_commas(s.drop_last()).push(Seq::empty())
    } else {
        let p = split_commas(s.drop_last());
        p.update(p.len() - 1, p.last().push(s.last()))
    }
}

proof fn lemma_split_nonempty(s: Seq<char>)
    ensures
        split_commas(s).len() >= 1,
    decreases s.len(),
{
    if s.len() > 0 {
        lemma_split_nonempty(s.drop_last());
    }
}

/// A text without the white space that opens it.
pub open spec fn trim_start(s: Seq<char>) -> Seq<char>
    decreases s.len(),
{
    if s.len() > 0 && is_white_space(s[0]) {
        trim_start(s.drop_first())
    } else {
        s
    }
}

/// A text without the white space that closes it.
pub open spec fn trim_end(s: Seq<char>) -> Seq<char>
    decreases s.len(),
{
    if s.len() > 0 && is_white_space(s.last()) {
        trim_end(s.drop_last())
    } else {
        s
    }
}

/// A text without the white space around it, as `str::trim` has it.
pub open spec fn trimmed(s: Seq<char>) -> Seq<char> {
    trim_end(trim_start(s))
}

/// A text without the white space around it.
pub fn trim(s: &Vec<char>) -> (r: Vec<char>)
    ensures
        r@ == trimmed(s@),
{
    let mut lo: usize = 0;
    assert(s@.skip(0) =~= s@);
    while lo < s.len() && white_space(s[lo as usize])
        invariant
            lo <= s.len(),
            trim_start(s@) == trim_start(s@.skip(lo as int)),
        decreases s.len() - lo,
    {
        assert(s@.skip(lo as int).drop_first() =~= s@.skip(lo + 1));
        lo = lo + 1;
    }
    let ghost start = s@.skip(lo as int);
    assert(trim_start(s@) == start);
    let mut hi: usize = s.len();
    assert(start.take(start.len() as int) =~= start);
    while hi > lo && white_space(s[hi - 1])
        invariant
            lo <= hi <= s.len(),
            start == s@.skip(lo as int),
            trim_end(start) == trim_end(start.take(hi - lo)),
        decreases hi,
    {
        assert(start.take(hi - lo).drop_last() =~= start.take(hi - lo - 1));
        hi = hi - 1;
    }
    let mut r: Vec<char> = Vec::new();
    let mut i = lo;
    while i < hi
        invariant
            lo <= i <= hi <= s.len(),
            r@ == s@.subrange(lo as int, i as int),
        decreases hi - i,
    {
        r.push(s[i]);
        assert(s@.subrange(lo as int, i + 1) =~= s@.subrange(lo as int, i as int).push(s@[i as int]));
        i = i + 1;
    }
    assert(r@ =~= start.take(hi - lo));
    r
}

/// A text cut at every comma.
pub fn split_on_commas(s: &Vec<char>) -> (r: Vec<Vec<char>>)
    ensures
        r@.map_values(|p: Vec<char>| p@) == split_commas(s@),
{
    let mut parts: Vec<Vec<char>> = Vec::new();
    let mut current: Vec<char> = Vec::new();
    let mut i: usize = 0;
    assert(s@.take(0) =~= Seq::<char>::empty());
    while i < s.len()
        invariant
            i <= s.len(),
            parts@.map_values(|p: Vec<char>| p@).push(current@) == split_commas(s@.take(i as int)),
        decreases s.len() - i,
    {
        let c = s[i];
        let ghost t = s@.take(i + 1);
        assert(t.drop_last() =~= s@.take(i as int));
        assert(t.last() == c);
        proof {
            lemma_split_nonempty(s@.take(i as int));
        }
        if c == ',' {
            let mut done: Vec<char> = Vec::new();
            std::mem::swap(&mut done, &mut current);
            let ghost before = parts@.map_values(|p: Vec<char>| p@);
            parts.push(done);
            assert(parts@.map_values(|p: Vec<char>| p@) =~= before.push(done@));
        } else {
            let ghost before = parts@.map_values(|p: Vec<char>| p@).push(current@);
            current.push(c);
            assert(parts@.map_values(|p: Vec<char>| p@).push(current@) =~= before.update(
                before.len() - 1,
                before.last().push(c),
            ));
        }
        i = i + 1;
    }
    assert(s@.take(s.len() as int) =~= s@);
    let ghost before = parts@.map_values(|p: Vec<char>| p@);
    parts.push(current);
    assert(parts@.map_values(|p: Vec<char>| p@) =~= before.push(current@));
    parts
}

/// What one comma-separated part of `api_ver` reads as, once trimmed.
pub open spec fn part_reading(part: Seq<char>) -> Option<(nat, nat)> {
    api_version_reading(vstd::utf8::encode_utf8(trimmed(part)))
}

/// Whether a version is written `v<major>.<minor>` in some part of `api_ver`.
pub open spec fn advertises(raw: Seq<char>, v: ApiVersion) -> bool {
    exists|i: int|
        0 <= i < split_commas(raw).len() && #[trigger] part_reading(split_commas(raw)[i]) == Some(
            (v.spec_major() as nat, v.spec_minor() as nat),
        )
}

/// Whether some part of `api_ver` can be read at all.
pub open spec fn advertises_any(raw: Seq<char>) -> bool {
    exists|i: int| 0 <= i < split_commas(raw).len() && #[trigger] part_reading(split_commas(raw)[i]) is Some
}

/// Versions, each coming before the next.
pub open spec fn increasing(s: Seq<ApiVersion>) -> bool {
    forall|i: int, j: int| 0 <= i < j < s.len() ==> api_lt(#[trigger] s[i], #[trigger] s[j])
}

/// Whether a version is the one IS-04 says to assume when a Node advertises
/// none: `v1.0`.
pub open spec fn is_default_version(v: ApiVersion) -> bool {
    v.spec_major() == 1 && v.spec_minor() == 0
}

/// Whether versions are what a Node's `api_ver` says: every version some part
/// reads as, once each, lowest first — or `v1.0` alone, when the record is
/// absent or no part can be read.
pub open spec fn advertised_versions(txt: TxtRecords, r: Seq<ApiVersion>) -> bool {
    match txt.lookup("api_ver"@) {
        Some(raw) if advertises_any(raw) => increasing(r) && forall|v: ApiVersion|
            r.contains(v) <==> advertises(raw, v),
        _ => r.len() == 1 && is_default_version(r[0]),
    }
}

/// Add a version to increasing versions, keeping them increasing and each once.
fn insert_version(out: &mut Vec<ApiVersion>, v: ApiVersion)
    requires
        increasing(old(out)@),
    ensures
        increasing(final(out)@),
        forall|w: ApiVersion| final(out)@.contains(w) <==> (old(out)@.contains(w) || w == v),
{
    let ghost before = out@;
    let mut i: usize = 0;
    while i < out.len() && out[i].before(v)
        invariant
            out@ == before,
            increasing(before),
            i <= before.len(),
            forall|j: int| 0 <= j < i ==> api_lt(#[trigger] before[j], v),
        decreases before.len() - i,
    {
        i = i + 1;
    }
    if i < out.len() && out[i].same(v) {
        assert forall|w: ApiVersion| out@.contains(w) <==> (before.contains(w) || w == v) by {
            if w == v {
                assert(out@[i as int] == v);
            }
        }
        return;
    }
    proof {
        if i < before.len() {
            lemma_api_version_same(before[i as int], v);
        }
    }
    out.insert(i, v);
    proof {
        let after = out@;
        assert(after =~= before.insert(i as int, v));
        assert forall|a: int, b: int| 0 <= a < b < after.len() implies api_lt(
            #[trigger] after[a],
            #[trigger] after[b],
        ) by {
            if b < i {
                assert(after[a] == before[a] && after[b] == before[b]);
            } else if b == i {
                assert(after[a] == before[a]);
            } else if a < i {
                assert(after[a] == before[a] && after[b] == before[b - 1]);
                assert(api_lt(before[a], v));
                if b - 1 > i {
                    assert(api_lt(before[i as int], before[b - 1]));
                }
            } else if a == i {
                assert(after[b] == before[b - 1]);
                if b - 1 > i {
                    assert(api_lt(before[i as int], before[b - 1]));
                }
            } else {
                assert(after[a] == before[a - 1] && after[b] == before[b - 1]);
            }
        }
        assert forall|w: ApiVersion| after.contains(w) <==> (before.contains(w) || w == v) by {
            if before.contains(w) {
                let j = choose|j: int| 0 <= j < before.len() && before[j] == w;
                if j < i {
                    assert(after[j] == w);
                } else {
                    assert(after[j + 1] == w);
                }
            }
            if w == v {
                assert(after[i as int] == v);
            }
            if after.contains(w) {
                let j = choose|j: int| 0 <= j < after.len() && after[j] == w;
                if j < i {
                    assert(before[j] == w);
                } else if j > i {
                    assert(before[j - 1] == w);
                }
            }
        }
    }
}

/// Whether some part before `n` reads as `v`.
pub open spec fn reads_before(split: Seq<Seq<char>>, n: int, v: ApiVersion) -> bool {
    exists|j: int|
        0 <= j < n && #[trigger] part_reading(split[j]) == Some(
            (v.spec_major() as nat, v.spec_minor() as nat),
        )
}

/// Whether some part before `n` can be read at all.
pub open spec fn any_before(split: Seq<Seq<char>>, n: int) -> bool {
    exists|j: int| 0 <= j < n && #[trigger] part_reading(split[j]) is Some
}

proof fn lemma_read_step(split: Seq<Seq<char>>, i: int, read: Option<ApiVersion>)
    requires
        0 <= i < split.len(),
        match read {
            Some(v) => part_reading(split[i]) == Some((v.spec_major() as nat, v.spec_minor() as nat)),
            None => part_reading(split[i]) is None,
        },
    ensures
        forall|w: ApiVersion|
            #[trigger] reads_before(split, i + 1, w) <==> (reads_before(split, i, w) || read
                == Some(w)),
        any_before(split, i + 1) <==> (any_before(split, i) || read is Some),
{
    assert forall|w: ApiVersion|
        #[trigger] reads_before(split, i + 1, w) <==> (reads_before(split, i, w) || read == Some(
            w,
        )) by {
        if read == Some(w) {
            assert(part_reading(split[i]) == Some((w.spec_major() as nat, w.spec_minor() as nat)));
        }
        if reads_before(split, i + 1, w) {
            let j = choose|j: int|
                0 <= j < i + 1 && #[trigger] part_reading(split[j]) == Some(
                    (w.spec_major() as nat, w.spec_minor() as nat),
                );
            if j == i {
                let v = read->0;
                lemma_api_version_same(w, v);
            }
        }
    }
    if any_before(split, i + 1) {
        let j = choose|j: int| 0 <= j < i + 1 && #[trigger] part_reading(split[j]) is Some;
        if j == i {
            assert(read is Some);
        }
    }
    if read is Some {
        assert(part_reading(split[i]) is Some);
    }
}

/// The API versions the Node says it speaks, lowest first, each once.
pub fn versions(txt: &TxtRecords) -> (r: Vec<ApiVersion>)
    ensures
        advertised_versions(*txt, r@),
{
    let fallback = vec![ApiVersion::new(1, 0)];
    let raw = match txt.get("api_ver") {
        Some(raw) => raw,
        None => return fallback,
    };
    let chars = chars_of(raw);
    let parts = split_on_commas(&chars);
    let ghost split = split_commas(raw@);
    let mut out: Vec<ApiVersion> = Vec::new();
    let mut i: usize = 0;
    while i < parts.len()
        invariant
            split == split_commas(raw@),
            parts@.map_values(|p: Vec<char>| p@) == split,
            i <= parts@.len(),
            increasing(out@),
            forall|v: ApiVersion| #[trigger] out@.contains(v) <==> reads_before(split, i as int, v),
            (out@.len() > 0) <==> any_before(split, i as int),
        decreases parts@.len() - i,
    {
        assert(parts@[i as int]@ == split[i as int]);
        let part = trim(&parts[i]);
        let text = string_from_chars(&part);
        match ApiVersion::parse(text.as_str()) {
            Ok(v) => {
                insert_version(&mut out, v);
                proof {
                    lemma_read_step(split, i as int, Some(v));
                    assert(out@.contains(v));
                }
            },
            Err(_) => {
                proof {
                    lemma_read_step(split, i as int, None);
                }
            },
        }
        i = i + 1;
    }
    if out.len() == 0 {
        fallback
    } else {
        proof {
            assert forall|v: ApiVersion| out@.contains(v) <==> advertises(raw@, v) by {
                assert(reads_before(split, split.len() as int, v) == advertises(raw@, v));
            }
        }
        out
    }
}

/// Versions lowest first, each once, are fixed by which versions they hold.
pub proof fn lemma_increasing_unique(a: Seq<ApiVersion>, b: Seq<ApiVersion>)
    requires
        increasing(a),
        increasing(b),
        forall|v: ApiVersion| a.contains(v) <==> b.contains(v),
    ensures
        a == b,
    decreases a.len(),
{
    if a.len() == 0 {
        if b.len() > 0 {
            assert(b.contains(b[0]));
        }
        assert(a =~= b);
    } else {
        assert(a.contains(a[0]));
        let x = a.last();
        let y = b.last();
        assert(a.contains(x));
        let j = choose|j: int| 0 <= j < b.len() && b[j] == x;
        assert(b.contains(y));
        let i = choose|i: int| 0 <= i < a.len() && a[i] == y;
        if j < b.len() - 1 {
            assert(api_lt(b[j], b[b.len() - 1]));
        }
        if i < a.len() - 1 {
            assert(api_lt(a[i], a[a.len() - 1]));
        }
        assert(x == y);
        let a1 = a.drop_last();
        let b1 = b.drop_last();
        assert forall|v: ApiVersion| a1.contains(v) <==> b1.contains(v) by {
            if a1.contains(v) {
                let k = choose|k: int| 0 <= k < a1.len() && a1[k] == v;
                assert(api_lt(a[k], a[a.len() - 1]));
                assert(a.contains(v));
                let m = choose|m: int| 0 <= m < b.len() && b[m] == v;
                assert(b1[m] == v);
            }
            if b1.contains(v) {
                let k = choose|k: int| 0 <= k < b1.len() && b1[k] == v;
                assert(api_lt(b[k], b[b.len() - 1]));
                assert(b.contains(v));
                let m = choose|m: int| 0 <= m < a.len() && a[m] == v;
                assert(a1[m] == v);
            }
        }
        assert forall|p: int, q: int| 0 <= p < q < a1.len() implies api_lt(#[trigger] a1[p], #[trigger] a1[q]) by {
            assert(a1[p] == a[p] && a1[q] == a[q]);
        }
        assert forall|p: int, q: int| 0 <= p < q < b1.len() implies api_lt(#[trigger] b1[p], #[trigger] b1[q]) by {
            assert(b1[p] == b[p] && b1[q] == b[q]);
        }
        lemma_increasing_unique(a1, b1);
        assert(a =~= a1.push(x));
        assert(b =~= b1.push(y));
    }
}

/// A Node's `api_ver` fixes the versions read from it: any two readings of
/// the same records are the same.
pub proof fn law_advertised_versions_are_one_reading(txt: TxtRecords, a: Seq<ApiVersion>, b: Seq<ApiVersion>)
    requires
        advertised_versions(txt, a),
        advertised_versions(txt, b),
    ensures
        a == b,
{
    match txt.lookup("api_ver"@) {
        Some(raw) if advertises_any(raw) => {
            lemma_increasing_unique(a, b);
        },
        _ => {
            crate::nmos::version::lemma_api_version_same(a[0], b[0]);
            assert(a =~= b);
        },
    }
}

/// Only a literal `true` under `api_auth` means a Node requires
/// authorization: an absent key, `false`, or any other text means it does not.
pub proof fn law_only_a_literal_true_requires_authorization(txt: TxtRecords, r: bool)
    requires
        r == advertised_authorization(txt),
    ensures
        r <==> txt.lookup("api_auth"@) == Some("true"@),
        txt.lookup("api_auth"@) is None ==> !r,
{
}

/// A Node's API is reached over `https` only when `api_proto` says exactly
/// that; absent or anything else, it is IS-04's default `http`.
pub proof fn law_https_only_when_the_records_say_so(txt: TxtRecords, r: Protocol)
    requires
        r == advertised_protocol(txt),
    ensures
        (r == Protocol::Https) <==> txt.lookup("api_proto"@) == Some("https"@),
        txt.lookup("api_proto"@) is None ==> r == Protocol::Http,
{
}

/// A Node that publishes no `api_ver` is read at IS-04's default, `v1.0`,
/// alone.
pub proof fn law_no_api_ver_means_v1_0(txt: TxtRecords, r: Seq<ApiVersion>)
    requires
        advertised_versions(txt, r),
        txt.lookup("api_ver"@) is None,
    ensures
        r.len() == 1,
        r[0].spec_major() == 1 && r[0].spec_minor() == 0,
{
}

} // verus!
