//! Where a Node's API answers.

use vstd::prelude::*;

use crate::base::decimal::decimal;
use crate::base::name::{as_key, numbers_before, numbers_equal};
use crate::base::table::Keyed;
use crate::base::text::{append_decimal, append_str, string_from_chars};
use crate::nmos::node::Protocol;

verus! {

broadcast use vstd::std_specs::vec::group_vec_axioms;

/// An IP address: four octets, or eight 16-bit segments.
///
/// Ordered as the standard library orders addresses: every IPv4 address
/// before every IPv6 one, and within a family by value.
#[derive(Debug, Clone, Copy, PartialEq, Eq, Structural, PartialOrd, Ord, Hash)]
pub enum IpAddress {
    /// An IPv4 address, most significant octet first.
    V4(u8, u8, u8, u8),
    /// An IPv6 address, most significant segment first.
    V6(u16, u16, u16, u16, u16, u16, u16, u16),
}

impl IpAddress {
    /// Whether this is an IPv4 address.
    pub open spec fn spec_is_ipv4(self) -> bool {
        self is V4
    }

    /// Whether this is an IPv4 address.
    pub fn is_ipv4(&self) -> (r: bool)
        ensures
            r == self.spec_is_ipv4(),
    {
        match self {
            IpAddress::V4(..) => true,
            IpAddress::V6(..) => false,
        }
    }
}

/// One address and port at which a Node's API can be reached.
///
/// A Node may have several. They are an attribute of the Node, not its
/// identity: ST 2110 equipment is multi-homed by design.
#[derive(Debug, Clone, Copy, PartialEq, Eq, Structural, PartialOrd, Ord, Hash)]
pub struct Endpoint {
    /// The address.
    pub address: IpAddress,
    /// The port.
    pub port: u16,
    /// Whether the API is reached over `http` or `https`.
    pub protocol: Protocol,
}

/// A protocol's place in the order.
pub open spec fn protocol_number(p: Protocol) -> u32 {
    match p {
        Protocol::Http => 0,
        Protocol::Https => 1,
    }
}

/// An endpoint spelled out as numbers, in the order its fields are compared.
pub open spec fn endpoint_numbers(e: Endpoint) -> Seq<u32> {
    match e.address {
        IpAddress::V4(a, b, c, d) => seq![0u32, a as u32, b as u32, c as u32, d as u32],
        IpAddress::V6(a, b, c, d, f, g, h, i) => seq![
            1u32,
            a as u32,
            b as u32,
            c as u32,
            d as u32,
            f as u32,
            g as u32,
            h as u32,
            i as u32,
        ],
    }.push(e.port as u32).push(protocol_number(e.protocol))
}

impl Endpoint {
    /// The endpoint spelled out as numbers.
    fn numbers(&self) -> (r: Vec<u32>)
        ensures
            r@ == endpoint_numbers(*self),
    {
        let mut r: Vec<u32> = match self.address {
            IpAddress::V4(a, b, c, d) => vec![0, a as u32, b as u32, c as u32, d as u32],
            IpAddress::V6(a, b, c, d, f, g, h, i) => vec![
                1,
                a as u32,
                b as u32,
                c as u32,
                d as u32,
                f as u32,
                g as u32,
                h as u32,
                i as u32,
            ],
        };
        r.push(self.port as u32);
        r.push(
            match self.protocol {
                Protocol::Http => 0,
                Protocol::Https => 1,
            },
        );
        assert(r@ =~= endpoint_numbers(*self));
        r
    }

    /// Endpoints are keyed apart exactly when they differ.
    pub proof fn lemma_key_injective(a: Endpoint, b: Endpoint)
        ensures
            (a.key() == b.key()) == (a == b),
    {
        if a.key() == b.key() {
            let x = endpoint_numbers(a);
            let y = endpoint_numbers(b);
            assert(as_key(x).len() == as_key(y).len());
            assert forall|i: int| 0 <= i < x.len() implies x[i] == y[i] by {
                assert(as_key(x)[i] == as_key(y)[i]);
            }
            assert(x[0] == y[0]);
            match a.address {
                IpAddress::V4(..) => {
                    assert(x[1] == y[1] && x[2] == y[2] && x[3] == y[3] && x[4] == y[4]);
                    assert(x[5] == y[5] && x[6] == y[6]);
                },
                IpAddress::V6(..) => {
                    assert(x[1] == y[1] && x[2] == y[2] && x[3] == y[3] && x[4] == y[4]);
                    assert(x[5] == y[5] && x[6] == y[6] && x[7] == y[7] && x[8] == y[8]);
                    assert(x[9] == y[9] && x[10] == y[10]);
                },
            }
        }
    }
}

impl Keyed for Endpoint {
    open spec fn key(&self) -> Seq<int> {
        as_key(endpoint_numbers(*self))
    }

    fn same_key(&self, other: &Self) -> (r: bool) {
        numbers_equal(&self.numbers(), &other.numbers())
    }

    fn key_before(&self, other: &Self) -> (r: bool) {
        numbers_before(&self.numbers(), &other.numbers())
    }
}

/// A hexadecimal digit, lower case.
pub open spec fn hex_digit(n: nat) -> char {
    if n < 10 {
        ((n + 48) as u8) as char
    } else {
        ((n + 87) as u8) as char
    }
}

/// The shortest lower-case hexadecimal spelling of a number.
pub open spec fn hex(n: nat) -> Seq<char>
    decreases n,
{
    if n < 16 {
        seq![hex_digit(n)]
    } else {
        hex(n / 16).push(hex_digit(n % 16))
    }
}

/// The shortest lower-case hexadecimal spelling of a number.
pub fn hex_chars(n: u16) -> (v: Vec<char>)
    ensures
        v@ == hex(n as nat),
    decreases n,
{
    let m = n % 16;
    let d = if m < 10 {
        ((m as u8) + 48) as char
    } else {
        ((m as u8) + 87) as char
    };
    if n < 16 {
        let mut v = Vec::new();
        v.push(d);
        assert(v@ =~= hex(n as nat));
        v
    } else {
        let mut v = hex_chars(n / 16);
        v.push(d);
        v
    }
}

/// An IPv4 address as it is written: four decimal octets and dots.
pub open spec fn ipv4_text(a: nat, b: nat, c: nat, d: nat) -> Seq<char> {
    decimal(a) + "."@ + decimal(b) + "."@ + decimal(c) + "."@ + decimal(d)
}

/// Segments written in hexadecimal, colon between.
pub open spec fn hex_joined(s: Seq<u16>) -> Seq<char>
    decreases s.len(),
{
    if s.len() == 0 {
        Seq::empty()
    } else if s.len() == 1 {
        hex(s[0] as nat)
    } else {
        hex_joined(s.drop_last()) + ":"@ + hex(s.last() as nat)
    }
}

/// Whether the segments from `a` on, `n` of them, are all zero.
pub open spec fn zero_run(s: Seq<u16>, a: int, n: int) -> bool {
    0 <= a && 1 <= n && a + n <= s.len() && forall|k: int| a <= k < a + n ==> #[trigger] s[k] == 0
}

/// Whether a run of zero segments is the longest, and the first of the
/// longest.
pub open spec fn longest_run(s: Seq<u16>, a: int, n: int) -> bool {
    zero_run(s, a, n) && forall|a2: int, n2: int| #[trigger] zero_run(s, a2, n2) ==> n2 < n || (n2 == n && a <= a2)
}

/// Whether an IPv6 address maps an IPv4 one: `::ffff:a.b.c.d`.
pub open spec fn maps_ipv4(s: Seq<u16>) -> bool {
    s[0] == 0 && s[1] == 0 && s[2] == 0 && s[3] == 0 && s[4] == 0 && s[5] == 0xffff
}

/// An IPv6 address as it is written: an IPv4-mapped one as `::ffff:` and
/// the IPv4 address; otherwise in hexadecimal segments, the longest run of
/// two or more zero segments (the first, among equals) written `::`.
pub open spec fn ipv6_text(s: Seq<u16>) -> Seq<char> {
    if maps_ipv4(s) {
        "::ffff:"@ + ipv4_text(s[6] as nat / 256, s[6] as nat % 256, s[7] as nat / 256, s[7] as nat % 256)
    } else if exists|a: int, n: int| #[trigger] longest_run(s, a, n) && n > 1 {
        let (a, n) = choose|a: int, n: int| #[trigger] longest_run(s, a, n) && n > 1;
        hex_joined(s.take(a)) + "::"@ + hex_joined(s.skip(a + n))
    } else {
        hex_joined(s)
    }
}

/// The segments of an IPv6 address.
pub open spec fn segments(a: IpAddress) -> Seq<u16> {
    match a {
        IpAddress::V6(a, b, c, d, e, f, g, h) => seq![a, b, c, d, e, f, g, h],
        _ => Seq::empty(),
    }
}

/// An address as it appears in a URL: IPv6 in brackets.
pub open spec fn address_text(a: IpAddress) -> Seq<char> {
    match a {
        IpAddress::V4(a, b, c, d) => ipv4_text(a as nat, b as nat, c as nat, d as nat),
        IpAddress::V6(..) => "["@ + ipv6_text(segments(a)) + "]"@,
    }
}

/// An endpoint as a URL an operator can paste.
pub open spec fn endpoint_text(e: Endpoint) -> Seq<char> {
    e.protocol.spec_str() + "://"@ + address_text(e.address) + ":"@ + decimal(e.port as nat)
}

fn append_ipv4(v: &mut Vec<char>, a: u8, b: u8, c: u8, d: u8)
    ensures
        final(v)@ == old(v)@ + ipv4_text(a as nat, b as nat, c as nat, d as nat),
{
    append_decimal(v, a as u64);
    append_str(v, ".");
    append_decimal(v, b as u64);
    append_str(v, ".");
    append_decimal(v, c as u64);
    append_str(v, ".");
    append_decimal(v, d as u64);
}

fn append_hex_joined(v: &mut Vec<char>, s: &Vec<u16>, lo: usize, hi: usize)
    requires
        lo <= hi <= s@.len(),
    ensures
        final(v)@ == old(v)@ + hex_joined(s@.subrange(lo as int, hi as int)),
{
    let ghost start = v@;
    let mut i = lo;
    assert(s@.subrange(lo as int, lo as int) =~= Seq::<u16>::empty());
    while i < hi
        invariant
            lo <= i <= hi <= s@.len(),
            v@ == start + hex_joined(s@.subrange(lo as int, i as int)),
        decreases hi - i,
    {
        let ghost part = s@.subrange(lo as int, i + 1);
        assert(part.drop_last() =~= s@.subrange(lo as int, i as int));
        assert(part.last() == s@[i as int]);
        if i > lo {
            append_str(v, ":");
        } else {
            assert(part =~= seq![s@[i as int]]);
        }
        let mut h = hex_chars(s[i]);
        v.append(&mut h);
        i = i + 1;
    }
}

/// Find the longest run of zero segments, the first among equals.
fn longest_zero_run(s: &Vec<u16>) -> (r: (usize, usize))
    requires
        s@.len() == 8,
    ensures
        r.1 == 0 ==> forall|a: int, n: int| !#[trigger] zero_run(s@, a, n),
        r.1 > 0 ==> longest_run(s@, r.0 as int, r.1 as int),
{
    let mut best_a: usize = 0;
    let mut best_n: usize = 0;
    let mut cur_a: usize = 0;
    let mut cur_n: usize = 0;
    let mut i: usize = 0;
    while i < 8
        invariant
            s@.len() == 8,
            i <= 8,
            cur_n > 0 ==> zero_run(s@, cur_a as int, cur_n as int) && cur_a + cur_n == i && (cur_a == 0 || s@[cur_a - 1] != 0),
            cur_n == 0 ==> (i == 0 || s@[i - 1] != 0),
            best_n > 0 ==> zero_run(s@, best_a as int, best_n as int) && best_a + best_n <= i,
            forall|a2: int, n2: int| #[trigger] zero_run(s@, a2, n2) && a2 + n2 <= i ==> n2 < best_n || (n2 == best_n && best_a <= a2),
            best_n == 0 ==> forall|a2: int, n2: int| #[trigger] zero_run(s@, a2, n2) ==> a2 + n2 > i,
        decreases 8 - i,
    {
        if s[i] == 0 {
            if cur_n == 0 {
                cur_a = i;
            }
            cur_n = cur_n + 1;
            proof {
                assert forall|a2: int, n2: int| #[trigger] zero_run(s@, a2, n2) && a2 + n2 == i + 1 implies a2 >= cur_a && n2 <= cur_n by {
                    if a2 < cur_a {
                        assert(s@[cur_a - 1] == 0);
                    }
                }
            }
            if cur_n > best_n {
                best_a = cur_a;
                best_n = cur_n;
            }
        } else {
            cur_n = 0;
            proof {
                assert forall|a2: int, n2: int| #[trigger] zero_run(s@, a2, n2) implies a2 + n2 != i + 1 by {
                    if a2 + n2 == i + 1 {
                        assert(s@[i as int] == 0);
                    }
                }
            }
        }
        i = i + 1;
    }
    proof {
        assert forall|a2: int, n2: int| #[trigger] zero_run(s@, a2, n2) implies a2 + n2 <= 8 by {}
    }
    (best_a, best_n)
}

impl IpAddress {
    /// The address as it appears in a URL.
    pub fn to_url_text(&self) -> (r: String)
        ensures
            r@ == address_text(*self),
    {
        let mut v: Vec<char> = Vec::new();
        match *self {
            IpAddress::V4(a, b, c, d) => append_ipv4(&mut v, a, b, c, d),
            IpAddress::V6(a, b, c, d, e, f, g, h) => {
                let s: Vec<u16> = vec![a, b, c, d, e, f, g, h];
                assert(s@ =~= segments(*self));
                append_str(&mut v, "[");
                append_ipv6(&mut v, &s);
                append_str(&mut v, "]");
            },
        }
        string_from_chars(&v)
    }
}

fn append_ipv6(v: &mut Vec<char>, s: &Vec<u16>)
    requires
        s@.len() == 8,
    ensures
        final(v)@ == old(v)@ + ipv6_text(s@),
{
    if s[0] == 0 && s[1] == 0 && s[2] == 0 && s[3] == 0 && s[4] == 0 && s[5] == 0xffff {
        append_str(v, "::ffff:");
        append_ipv4(v, (s[6] / 256) as u8, (s[6] % 256) as u8, (s[7] / 256) as u8, (s[7] % 256) as u8);
        return;
    }
    let (a, n) = longest_zero_run(s);
    if n > 1 {
        proof {
            let (ca, cn) = choose|a2: int, n2: int| #[trigger] longest_run(s@, a2, n2) && n2 > 1;
            assert(longest_run(s@, a as int, n as int));
            assert(ca == a && cn == n);
        }
        assert(s@.take(a as int) =~= s@.subrange(0, a as int));
        assert(s@.skip((a + n) as int) =~= s@.subrange((a + n) as int, 8));
        append_hex_joined(v, s, 0, a);
        append_str(v, "::");
        append_hex_joined(v, s, a + n, 8);
    } else {
        proof {
            if exists|a2: int, n2: int| #[trigger] longest_run(s@, a2, n2) && n2 > 1 {
                let (ca, cn) = choose|a2: int, n2: int| #[trigger] longest_run(s@, a2, n2) && n2 > 1;
                assert(zero_run(s@, ca, cn));
            }
        }
        assert(s@.subrange(0, 8) =~= s@);
        append_hex_joined(v, s, 0, 8);
    }
}

impl Endpoint {
    /// The endpoint as a URL an operator can paste: the scheme, the address
    /// (IPv6 in brackets) and the port.
    pub fn to_string(&self) -> (r: String)
        ensures
            r@ == endpoint_text(*self),
    {
        let mut v: Vec<char> = Vec::new();
        append_str(&mut v, self.protocol.as_str());
        append_str(&mut v, "://");
        let a = self.address.to_url_text();
        append_str(&mut v, a.as_str());
        append_str(&mut v, ":");
        append_decimal(&mut v, self.port as u64);
        string_from_chars(&v)
    }

    /// The base URL for requests to this endpoint.
    pub fn base_url(&self) -> (r: String)
        ensures
            r@ == endpoint_text(*self),
    {
        self.to_string()
    }
}

} // verus!
