//! Working with text as the sequence of characters it is.

use vstd::prelude::*;

use crate::base::decimal::{decimal, decimal_chars};
use crate::base::order::{lemma_lt_first_differs, lemma_lt_skip_common, seq_lt, text_key};

verus! {

broadcast use vstd::std_specs::vec::group_vec_axioms;

/// The characters of a text.
pub fn chars_of(s: &str) -> (v: Vec<char>)
    ensures
        v@ == s@,
{
    let mut v: Vec<char> = Vec::new();
    for c in it: s.chars()
        invariant
            v@ == it.seq().take(it.index() as int),
    {
        v.push(c);
    }
    v
}

/// A text made of the given characters.
///
/// Wraps `String::from_iter` over characters, which std documents as
/// concatenating them in order.
#[verifier::external_body]
pub(crate) fn string_from_chars(v: &Vec<char>) -> (s: String)
    ensures
        s@ == v@,
{
    String::from_iter(v.iter())
}

/// Adds a text's characters to the end of a buffer.
pub fn append_str(v: &mut Vec<char>, s: &str)
    ensures
        final(v)@ == old(v)@ + s@,
{
    let mut more = chars_of(s);
    v.append(&mut more);
}

/// Adds a number, written in decimal, to the end of a buffer.
pub fn append_decimal(v: &mut Vec<char>, n: u64)
    ensures
        final(v)@ == old(v)@ + decimal(n as nat),
{
    let mut more = decimal_chars(n);
    v.append(&mut more);
}

/// Whether two texts are the same.
pub fn text_eq(a: &str, b: &str) -> (r: bool)
    ensures
        r == (a@ == b@),
{
    let x = chars_of(a);
    let y = chars_of(b);
    if x.len() != y.len() {
        return false;
    }
    let mut i: usize = 0;
    while i < x.len()
        invariant
            x@ == a@,
            y@ == b@,
            x.len() == y.len(),
            i <= x.len(),
            forall|j: int| 0 <= j < i ==> x@[j] == y@[j],
        decreases x.len() - i,
    {
        if x[i] != y[i] {
            return false;
        }
        i = i + 1;
    }
    assert(x@ =~= y@);
    true
}

/// Whether the first text comes before the second, character by character.
pub fn text_before(a: &str, b: &str) -> (r: bool)
    ensures
        r == seq_lt(text_key(a@), text_key(b@)),
{
    let x = chars_of(a);
    let y = chars_of(b);
    let ghost ka = text_key(a@);
    let ghost kb = text_key(b@);
    let mut i: usize = 0;
    assert(ka.skip(0) =~= ka);
    assert(kb.skip(0) =~= kb);
    while i < x.len() && i < y.len()
        invariant
            x@ == a@,
            y@ == b@,
            ka == text_key(a@),
            kb == text_key(b@),
            i <= x.len(),
            i <= y.len(),
            seq_lt(ka, kb) == seq_lt(ka.skip(i as int), kb.skip(i as int)),
        decreases x.len() - i,
    {
        let c = x[i];
        let d = y[i];
        if c != d {
            assert(ka.skip(i as int)[0] == (c as u32) as int);
            assert(kb.skip(i as int)[0] == (d as u32) as int);
            let r = (c as u32) < (d as u32);
            proof {
                vstd::utf8::char_u32_cast(c, c as u32);
                vstd::utf8::char_u32_cast(d, d as u32);
                lemma_lt_first_differs(ka.skip(i as int), kb.skip(i as int));
            }
            return r;
        }
        proof {
            lemma_lt_skip_common(ka, kb, i as int);
        }
        i = i + 1;
    }
    assert(ka.skip(i as int).len() == 0 || kb.skip(i as int).len() == 0);
    i == x.len() && i < y.len()
}

} // verus!
