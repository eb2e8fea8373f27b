//! Decimal numbers in text: reading them and writing them.

use vstd::prelude::*;

verus! {

broadcast use vstd::std_specs::vec::group_vec_axioms;

/// Whether a byte is an ASCII decimal digit.
pub open spec fn is_digit(b: u8) -> bool {
    48 <= b <= 57
}

/// Whether every byte is a decimal digit.
pub open spec fn all_digits(s: Seq<u8>) -> bool {
    forall|i: int| 0 <= i < s.len() ==> is_digit(#[trigger] s[i])
}

/// The number a run of decimal digits spells, most significant first.
pub open spec fn digits_value(s: Seq<u8>) -> nat
    decreases s.len(),
{
    if s.len() == 0 {
        0
    } else {
        digits_value(s.drop_last()) * 10 + ((s.last() - 48) as nat)
    }
}

/// The shortest decimal spelling of a number.
pub open spec fn decimal(n: nat) -> Seq<char>
    decreases n,
{
    if n < 10 {
        seq![((n + 48) as u8) as char]
    } else {
        decimal(n / 10).push((((n % 10) + 48) as u8) as char)
    }
}

/// The bytes of an ASCII text.
pub open spec fn ascii_bytes(s: Seq<char>) -> Seq<u8> {
    Seq::new(s.len(), |i: int| s[i] as u8)
}

/// Whether a byte is an ASCII decimal digit.
pub fn digit_byte(b: u8) -> (r: bool)
    ensures
        r == is_digit(b),
{
    48 <= b && b <= 57
}

/// Whether the bytes from `lo` to `hi` are all digits.
pub fn digits_between(b: &[u8], lo: usize, hi: usize) -> (r: bool)
    requires
        lo <= hi <= b@.len(),
    ensures
        r == all_digits(b@.subrange(lo as int, hi as int)),
{
    let mut i = lo;
    while i < hi
        invariant
            lo <= i <= hi <= b@.len(),
            forall|j: int| lo <= j < i ==> is_digit(#[trigger] b@[j]),
        decreases hi - i,
    {
        if !digit_byte(b[i]) {
            assert(b@.subrange(lo as int, hi as int)[i - lo] == b@[i as int]);
            return false;
        }
        i = i + 1;
    }
    assert forall|j: int| 0 <= j < hi - lo implies is_digit(
        #[trigger] b@.subrange(lo as int, hi as int)[j],
    ) by {
        assert(b@.subrange(lo as int, hi as int)[j] == b@[lo + j]);
    }
    true
}

/// Appending a digit never makes a number smaller.
proof fn lemma_value_grows(s: Seq<u8>, i: int)
    requires
        0 <= i <= s.len(),
    ensures
        digits_value(s.take(i)) <= digits_value(s),
    decreases s.len() - i,
{
    if i < s.len() {
        lemma_value_grows(s, i + 1);
        assert(s.take(i + 1).drop_last() =~= s.take(i));
    } else {
        assert(s.take(i) =~= s);
    }
}

/// The value of the digits from `lo` to `hi`, when it fits in 64 bits.
pub fn decimal_u64(b: &[u8], lo: usize, hi: usize) -> (r: Option<u64>)
    requires
        lo <= hi <= b@.len(),
        all_digits(b@.subrange(lo as int, hi as int)),
    ensures
        r matches Some(v) ==> v == digits_value(b@.subrange(lo as int, hi as int)),
        r is None <==> digits_value(b@.subrange(lo as int, hi as int)) > u64::MAX,
{
    let ghost s = b@.subrange(lo as int, hi as int);
    let mut acc: u64 = 0;
    let mut i = lo;
    assert(s.take(0) =~= Seq::<u8>::empty());
    while i < hi
        invariant
            lo <= i <= hi <= b@.len(),
            s == b@.subrange(lo as int, hi as int),
            all_digits(s),
            acc == digits_value(s.take(i - lo)),
        decreases hi - i,
    {
        let d = b[i];
        assert(s[i - lo] == d);
        assert(is_digit(d));
        assert(s.take(i - lo + 1).drop_last() =~= s.take(i - lo));
        assert(s.take(i - lo + 1).last() == d);
        match acc.checked_mul(10) {
            None => {
                proof {
                    lemma_value_grows(s, i - lo + 1);
                }
                return None;
            },
            Some(scaled) => match scaled.checked_add((d - 48) as u64) {
                None => {
                    proof {
                        lemma_value_grows(s, i - lo + 1);
                    }
                    return None;
                },
                Some(next) => {
                    acc = next;
                },
            },
        }
        i = i + 1;
    }
    assert(s.take(hi - lo) =~= s);
    Some(acc)
}

/// The decimal digits of a number, most significant first.
pub fn decimal_chars(n: u64) -> (v: Vec<char>)
    ensures
        v@ == decimal(n as nat),
    decreases n,
{
    let d = ((n % 10) as u8 + 48) as char;
    if n < 10 {
        let mut v = Vec::new();
        v.push(d);
        assert(v@ =~= decimal(n as nat));
        v
    } else {
        let mut v = decimal_chars(n / 10);
        v.push(d);
        v
    }
}

/// A decimal spelling is digits all the way, and spells back its number.
pub proof fn lemma_decimal_round_trip(n: nat)
    ensures
        decimal(n).len() > 0,
        all_digits(ascii_bytes(decimal(n))),
        digits_value(ascii_bytes(decimal(n))) == n,
        forall|i: int| 0 <= i < decimal(n).len() ==> '0' <= #[trigger] decimal(n)[i] <= '9',
    decreases n,
{
    if n >= 10 {
        lemma_decimal_round_trip(n / 10);
        let prev = decimal(n / 10);
        let c = (((n % 10) + 48) as u8) as char;
        assert(ascii_bytes(decimal(n)).drop_last() =~= ascii_bytes(prev));
        assert(ascii_bytes(decimal(n)).last() == (((n % 10) + 48) as u8));
        assert(n == (n / 10) * 10 + n % 10) by (nonlinear_arith);
        let x = ascii_bytes(decimal(n));
        assert(digits_value(x) == digits_value(x.drop_last()) * 10 + ((x.last() - 48) as nat));
        assert(digits_value(x.drop_last()) == n / 10);
        assert(((x.last() - 48) as nat) == n % 10);
        assert forall|i: int| 0 <= i < decimal(n).len() implies is_digit(
            #[trigger] ascii_bytes(decimal(n))[i],
        ) by {
            if i < prev.len() {
                assert(ascii_bytes(decimal(n))[i] == ascii_bytes(prev)[i]);
            }
        }
    } else {
        assert(ascii_bytes(decimal(n)).drop_last() =~= Seq::<u8>::empty());
        let x = ascii_bytes(decimal(n));
        assert(x.last() == ((n + 48) as u8));
        assert(digits_value(x.drop_last()) == 0);
        assert(digits_value(x) == digits_value(x.drop_last()) * 10 + ((x.last() - 48) as nat));
    }
}

} // verus!
