//! Copies that are known to be copies.
//!
//! A value that is only carried, never read, still has to arrive where it was
//! sent unchanged. `Duplicate` is how the library makes a copy and knows it has
//! one: the copy is the same as its source in every part that has meaning.

use std::collections::BTreeMap;

use vstd::prelude::*;

verus! {

broadcast use vstd::std_specs::vec::group_vec_axioms;

/// A value that can be copied, with what "the same" means for it.
pub trait Duplicate: Sized {
    /// Whether two values are the same in every part that has meaning.
    spec fn same(&self, other: &Self) -> bool;

    /// A copy of the value.
    fn duplicate(&self) -> (r: Self)
        ensures
            self.same(&r),
    ;
}

/// Two sequences are the same element by element.
pub open spec fn all_same<T: Duplicate>(a: Seq<T>, b: Seq<T>) -> bool {
    &&& a.len() == b.len()
    &&& forall|i: int| 0 <= i < a.len() ==> (#[trigger] a[i]).same(&b[i])
}

/// Two optional values are both absent, or both present and the same.
pub open spec fn opt_same<T: Duplicate>(a: Option<T>, b: Option<T>) -> bool {
    match (a, b) {
        (None, None) => true,
        (Some(x), Some(y)) => x.same(&y),
        _ => false,
    }
}

/// A copy of every element of a slice, in order.
pub fn duplicate_slice<T: Duplicate>(v: &[T]) -> (r: Vec<T>)
    ensures
        all_same(v@, r@),
{
    let mut r: Vec<T> = Vec::new();
    let mut i: usize = 0;
    while i < v.len()
        invariant
            i <= v@.len(),
            r@.len() == i,
            forall|j: int| 0 <= j < i ==> (#[trigger] v@[j]).same(&r@[j]),
        decreases v@.len() - i,
    {
        r.push(v[i].duplicate());
        i = i + 1;
    }
    r
}

/// A copy of every element, in order.
pub fn duplicate_all<T: Duplicate>(v: &Vec<T>) -> (r: Vec<T>)
    ensures
        all_same(v@, r@),
{
    let mut r: Vec<T> = Vec::new();
    let mut i: usize = 0;
    while i < v.len()
        invariant
            i <= v@.len(),
            r@.len() == i,
            forall|j: int| 0 <= j < i ==> (#[trigger] v@[j]).same(&r@[j]),
        decreases v@.len() - i,
    {
        r.push(v[i].duplicate());
        i = i + 1;
    }
    r
}

/// A copy of an optional value.
pub fn duplicate_opt<T: Duplicate>(v: &Option<T>) -> (r: Option<T>)
    ensures
        opt_same(*v, r),
{
    match v {
        None => None,
        Some(x) => Some(x.duplicate()),
    }
}

impl Duplicate for String {
    open spec fn same(&self, other: &Self) -> bool {
        self@ == other@
    }

    fn duplicate(&self) -> (r: Self) {
        self.clone()
    }
}

impl Duplicate for bool {
    open spec fn same(&self, other: &Self) -> bool {
        *self == *other
    }

    fn duplicate(&self) -> (r: Self) {
        *self
    }
}

impl<K: Clone, V: Clone> Duplicate for BTreeMap<K, V> {
    open spec fn same(&self, other: &Self) -> bool {
        self@ == other@
    }

    fn duplicate(&self) -> (r: Self) {
        self.clone()
    }
}

impl<T: Duplicate> Duplicate for Vec<T> {
    open spec fn same(&self, other: &Self) -> bool {
        all_same(self@, other@)
    }

    fn duplicate(&self) -> (r: Self) {
        duplicate_all(self)
    }
}

impl<T: Duplicate> Duplicate for Option<T> {
    open spec fn same(&self, other: &Self) -> bool {
        opt_same(*self, *other)
    }

    fn duplicate(&self) -> (r: Self) {
        duplicate_opt(self)
    }
}

} // verus!
