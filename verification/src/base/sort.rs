//! Putting values in key order.

use vstd::prelude::*;

use crate::base::order::{lemma_lt_asymmetric, lemma_lt_transitive, seq_lt};
use crate::base::table::Keyed;

verus! {

broadcast use vstd::std_specs::vec::group_vec_axioms;

/// Values in key order, equal keys side by side.
pub open spec fn ordered_by_key<T: Keyed>(s: Seq<T>) -> bool {
    forall|i: int, j: int| 0 <= i < j < s.len() ==> !seq_lt(#[trigger] s[j].key(), #[trigger] s[i].key())
}

/// The same values, in key order.
pub fn sort_by_key<T: Keyed>(v: Vec<T>) -> (r: Vec<T>)
    ensures
        ordered_by_key(r@),
        r@.to_multiset() == v@.to_multiset(),
{
    broadcast use vstd::seq_lib::group_to_multiset_ensures;

    let ghost all = v@.to_multiset();
    let mut rest = v;
    let mut out: Vec<T> = Vec::new();
    while rest.len() > 0
        invariant
            ordered_by_key(out@),
            out@.to_multiset().add(rest@.to_multiset()) == all,
        decreases rest@.len(),
    {
        let ghost before = rest@;
        let x = match rest.pop() {
            Some(x) => x,
            None => return out,
        };
        proof {
            assert(before =~= rest@.push(x));
            vstd::seq_lib::to_multiset_build(rest@, x);
        }
        let mut j: usize = 0;
        while j < out.len() && !x.key_before(&out[j])
            invariant
                j <= out@.len(),
                forall|k: int| 0 <= k < j ==> !seq_lt(x.key(), #[trigger] out@[k].key()),
            decreases out@.len() - j,
        {
            j = j + 1;
        }
        let ghost old_out = out@;
        out.insert(j, x);
        proof {
            vstd::seq_lib::to_multiset_insert(old_out, j as int, x);
            assert(out@ == old_out.insert(j as int, x));
            let s = out@;
            assert forall|a: int, b: int| 0 <= a < b < s.len() implies !seq_lt(
                #[trigger] s[b].key(),
                #[trigger] s[a].key(),
            ) by {
                if b < j {
                    assert(s[a] == old_out[a] && s[b] == old_out[b]);
                } else if b == j {
                    assert(s[a] == old_out[a]);
                } else if a < j {
                    assert(s[a] == old_out[a] && s[b] == old_out[b - 1]);
                    if seq_lt(s[b].key(), s[a].key()) {
                        // s[a] is not after x, and x is before old_out[j] which s[b] is not before.
                        assert(!seq_lt(x.key(), s[a].key()));
                        assert(seq_lt(x.key(), old_out[j as int].key()));
                        if b - 1 > j {
                            assert(!seq_lt(old_out[b - 1].key(), old_out[j as int].key()));
                        }
                        if seq_lt(s[a].key(), x.key()) {
                            lemma_lt_transitive(s[b].key(), s[a].key(), x.key());
                            lemma_lt_transitive(s[b].key(), x.key(), old_out[j as int].key());
                        } else if s[a].key() == x.key() {
                            lemma_lt_transitive(s[b].key(), x.key(), old_out[j as int].key());
                        } else {
                            crate::base::order::lemma_lt_total(s[a].key(), x.key());
                        }
                    }
                } else if a == j {
                    assert(s[b] == old_out[b - 1]);
                    assert(seq_lt(x.key(), old_out[j as int].key()));
                    if seq_lt(s[b].key(), x.key()) {
                        lemma_lt_transitive(s[b].key(), x.key(), old_out[j as int].key());
                        if b - 1 > j {
                            assert(!seq_lt(old_out[b - 1].key(), old_out[j as int].key()));
                        } else {
                            crate::base::order::lemma_lt_irreflexive(old_out[j as int].key());
                        }
                    }
                } else {
                    assert(s[a] == old_out[a - 1] && s[b] == old_out[b - 1]);
                }
            }
            assert(out@.to_multiset() =~= old_out.to_multiset().insert(x));
            assert(out@.to_multiset().add(rest@.to_multiset()) =~= old_out.to_multiset().add(
                before.to_multiset(),
            ));
        }
    }
    proof {
        assert(rest@ =~= Seq::<T>::empty());
        assert(out@.to_multiset().add(rest@.to_multiset()) =~= out@.to_multiset());
    }
    out
}

} // verus!
