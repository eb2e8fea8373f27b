//! Texts and small records as table keys.

use vstd::prelude::*;

use crate::base::order::{lemma_lt_first_differs, lemma_lt_skip_common, lemma_text_key_injective, seq_lt, text_key};
use crate::base::table::Keyed;
use crate::base::text::{text_before, text_eq};

verus! {

broadcast use vstd::std_specs::vec::group_vec_axioms;

/// A text used as a key: an instance name, a TXT record key.
#[derive(Debug, Clone, PartialEq, Eq, PartialOrd, Ord, Hash)]
pub struct Name(pub String);

impl Name {
    /// The text.
    pub open spec fn view(&self) -> Seq<char> {
        self.0@
    }

    /// A name for a text.
    pub fn of(s: &str) -> (r: Name)
        ensures
            r@ == s@,
    {
        Name(s.to_owned())
    }

    /// A copy of the name.
    pub fn copy(&self) -> (r: Name)
        ensures
            r@ == self@,
    {
        Name(self.0.clone())
    }
}

impl Keyed for Name {
    open spec fn key(&self) -> Seq<int> {
        text_key(self@)
    }

    fn same_key(&self, other: &Self) -> (r: bool) {
        proof {
            lemma_text_key_injective(self@, other@);
        }
        text_eq(self.0.as_str(), other.0.as_str())
    }

    fn key_before(&self, other: &Self) -> (r: bool) {
        text_before(self.0.as_str(), other.0.as_str())
    }
}

/// A key spelled out as numbers.
pub open spec fn as_key(v: Seq<u32>) -> Seq<int> {
    Seq::new(v.len(), |i: int| v[i] as int)
}

/// Whether two keys spelled out as numbers are the same.
pub fn numbers_equal(a: &Vec<u32>, b: &Vec<u32>) -> (r: bool)
    ensures
        r == (as_key(a@) == as_key(b@)),
{
    if a.len() != b.len() {
        assert(as_key(a@).len() != as_key(b@).len());
        return false;
    }
    let mut i: usize = 0;
    while i < a.len()
        invariant
            a.len() == b.len(),
            i <= a.len(),
            forall|j: int| 0 <= j < i ==> a@[j] == b@[j],
        decreases a.len() - i,
    {
        if a[i] != b[i] {
            assert(as_key(a@)[i as int] != as_key(b@)[i as int]);
            return false;
        }
        i = i + 1;
    }
    assert(as_key(a@) =~= as_key(b@));
    true
}

/// Whether one key spelled out as numbers comes before another.
pub fn numbers_before(a: &Vec<u32>, b: &Vec<u32>) -> (r: bool)
    ensures
        r == seq_lt(as_key(a@), as_key(b@)),
{
    let ghost ka = as_key(a@);
    let ghost kb = as_key(b@);
    let mut i: usize = 0;
    assert(ka.skip(0) =~= ka);
    assert(kb.skip(0) =~= kb);
    while i < a.len() && i < b.len()
        invariant
            ka == as_key(a@),
            kb == as_key(b@),
            i <= a.len(),
            i <= b.len(),
            seq_lt(ka, kb) == seq_lt(ka.skip(i as int), kb.skip(i as int)),
        decreases a.len() - i,
    {
        if a[i] != b[i] {
            assert(ka.skip(i as int)[0] == a@[i as int] as int);
            assert(kb.skip(i as int)[0] == b@[i as int] as int);
            proof {
                lemma_lt_first_differs(ka.skip(i as int), kb.skip(i as int));
            }
            return a[i] < b[i];
        }
        proof {
            lemma_lt_skip_common(ka, kb, i as int);
        }
        i = i + 1;
    }
    assert(ka.skip(i as int).len() == 0 || kb.skip(i as int).len() == 0);
    i == a.len() && i < b.len()
}

} // verus!
