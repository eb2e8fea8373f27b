//! The order keys are held in: lexicographic order over sequences of integers.
//!
//! Every ordered collection in the library keys its entries by a sequence of
//! integers. A text is its characters' code points, which orders it exactly as
//! its UTF-8 bytes are ordered; a composite key is the concatenation of its
//! parts, each of fixed width or with a leading discriminant.

use vstd::prelude::*;

verus! {

/// Strict lexicographic order: a proper prefix comes first.
pub open spec fn seq_lt(a: Seq<int>, b: Seq<int>) -> bool
    decreases a.len(),
{
    if b.len() == 0 {
        false
    } else if a.len() == 0 {
        true
    } else if a[0] < b[0] {
        true
    } else if a[0] > b[0] {
        false
    } else {
        seq_lt(a.drop_first(), b.drop_first())
    }
}

/// The code points of a text, as a key.
pub open spec fn text_key(s: Seq<char>) -> Seq<int> {
    Seq::new(s.len(), |i: int| (s[i] as u32) as int)
}

/// Nothing comes before itself.
pub proof fn lemma_lt_irreflexive(a: Seq<int>)
    ensures
        !seq_lt(a, a),
    decreases a.len(),
{
    if a.len() > 0 {
        lemma_lt_irreflexive(a.drop_first());
    }
}

/// The order is transitive.
pub proof fn lemma_lt_transitive(a: Seq<int>, b: Seq<int>, c: Seq<int>)
    requires
        seq_lt(a, b),
        seq_lt(b, c),
    ensures
        seq_lt(a, c),
    decreases a.len(),
{
    if a.len() > 0 && b.len() > 0 && c.len() > 0 && a[0] == b[0] && b[0] == c[0] {
        lemma_lt_transitive(a.drop_first(), b.drop_first(), c.drop_first());
    }
}

/// Two different keys are ordered one way or the other.
pub proof fn lemma_lt_total(a: Seq<int>, b: Seq<int>)
    requires
        a != b,
    ensures
        seq_lt(a, b) || seq_lt(b, a),
    decreases a.len(),
{
    if a.len() > 0 && b.len() > 0 && a[0] == b[0] {
        if a.drop_first() == b.drop_first() {
            assert(a =~= seq![a[0]] + a.drop_first());
            assert(b =~= seq![b[0]] + b.drop_first());
        }
        lemma_lt_total(a.drop_first(), b.drop_first());
    } else if a.len() == 0 && b.len() == 0 {
        assert(a =~= b);
    }
}

/// The order is asymmetric.
pub proof fn lemma_lt_asymmetric(a: Seq<int>, b: Seq<int>)
    requires
        seq_lt(a, b),
    ensures
        !seq_lt(b, a),
    decreases a.len(),
{
    if a.len() > 0 && b.len() > 0 && a[0] == b[0] {
        lemma_lt_asymmetric(a.drop_first(), b.drop_first());
    }
}

/// Where two keys agree on a leading part, the order is decided by the rest.
pub proof fn lemma_lt_skip_common(a: Seq<int>, b: Seq<int>, i: int)
    requires
        0 <= i < a.len(),
        i < b.len(),
        a[i] == b[i],
    ensures
        seq_lt(a.skip(i), b.skip(i)) == seq_lt(a.skip(i + 1), b.skip(i + 1)),
{
    assert(a.skip(i).drop_first() =~= a.skip(i + 1));
    assert(b.skip(i).drop_first() =~= b.skip(i + 1));
}

/// Prefixing two keys with the same part does not change their order.
pub proof fn lemma_lt_common_prefix(p: Seq<int>, a: Seq<int>, b: Seq<int>)
    ensures
        seq_lt(p + a, p + b) == seq_lt(a, b),
    decreases p.len(),
{
    if p.len() > 0 {
        assert((p + a).drop_first() =~= p.drop_first() + a);
        assert((p + b).drop_first() =~= p.drop_first() + b);
        lemma_lt_common_prefix(p.drop_first(), a, b);
    } else {
        assert(p + a =~= a);
        assert(p + b =~= b);
    }
}

/// Keys led by different values are ordered by those values.
pub proof fn lemma_lt_first_differs(a: Seq<int>, b: Seq<int>)
    requires
        a.len() > 0,
        b.len() > 0,
        a[0] != b[0],
    ensures
        seq_lt(a, b) == (a[0] < b[0]),
{
}

/// Keys of non-negative entries, each closed by a mark below every entry and
/// followed by one more value, are ordered by the keys first and by that value
/// where the keys are equal.
pub proof fn lemma_lt_closed_then(a: Seq<int>, p: int, b: Seq<int>, q: int)
    requires
        forall|i: int| 0 <= i < a.len() ==> a[i] >= 0,
        forall|i: int| 0 <= i < b.len() ==> b[i] >= 0,
    ensures
        seq_lt(a.push(-1).push(p), b.push(-1).push(q)) == (seq_lt(a, b) || (a == b && p < q)),
    decreases a.len(),
{
    let x = a.push(-1).push(p);
    let y = b.push(-1).push(q);
    if a.len() > 0 && b.len() > 0 {
        if a[0] == b[0] {
            lemma_lt_closed_then(a.drop_first(), p, b.drop_first(), q);
            assert(x.drop_first() =~= a.drop_first().push(-1).push(p));
            assert(y.drop_first() =~= b.drop_first().push(-1).push(q));
            assert(x[0] == y[0]);
            if a.drop_first() == b.drop_first() {
                assert(a =~= seq![a[0]] + a.drop_first());
                assert(b =~= seq![b[0]] + b.drop_first());
            }
            if a == b {
                assert(a.drop_first() =~= b.drop_first());
            }
        } else {
            assert(x[0] == a[0] && y[0] == b[0]);
            assert(a != b);
        }
    } else if a.len() == 0 && b.len() == 0 {
        assert(a =~= b);
        assert(x =~= seq![-1, p]);
        assert(y =~= seq![-1, q]);
        assert(x.drop_first() =~= seq![p]);
        assert(y.drop_first() =~= seq![q]);
        assert(seq![p].drop_first() =~= Seq::<int>::empty());
        assert(seq![q].drop_first() =~= Seq::<int>::empty());
        assert(seq_lt(seq![p], seq![q]) == (p < q)) by {
            reveal_with_fuel(seq_lt, 2);
        }
    } else if a.len() == 0 {
        assert(x[0] == -1);
        assert(y[0] == b[0]);
    } else {
        assert(y[0] == -1);
        assert(x[0] == a[0]);
        assert(a != b);
    }
}

/// Keys of non-negative entries, each closed by a mark below every entry and
/// followed by more, are ordered by the keys first and by what follows where
/// the keys are equal.
pub proof fn lemma_lt_closed_concat(a: Seq<int>, x: Seq<int>, b: Seq<int>, y: Seq<int>)
    requires
        forall|i: int| 0 <= i < a.len() ==> a[i] >= 0,
        forall|i: int| 0 <= i < b.len() ==> b[i] >= 0,
    ensures
        seq_lt(a.push(-1) + x, b.push(-1) + y) == (seq_lt(a, b) || (a == b && seq_lt(x, y))),
        (a.push(-1) + x == b.push(-1) + y) == (a == b && x == y),
    decreases a.len(),
{
    let p = a.push(-1) + x;
    let q = b.push(-1) + y;
    if a.len() > 0 && b.len() > 0 {
        assert(p.drop_first() =~= a.drop_first().push(-1) + x);
        assert(q.drop_first() =~= b.drop_first().push(-1) + y);
        lemma_lt_closed_concat(a.drop_first(), x, b.drop_first(), y);
        if a[0] == b[0] {
            if a.drop_first() == b.drop_first() {
                assert(a =~= seq![a[0]] + a.drop_first());
                assert(b =~= seq![b[0]] + b.drop_first());
            }
            if a == b {
                assert(a.drop_first() =~= b.drop_first());
            }
            if p == q {
                assert(p.drop_first() == q.drop_first());
            }
        } else {
            assert(p[0] == a[0] && q[0] == b[0]);
            assert(a != b);
        }
    } else if a.len() == 0 && b.len() == 0 {
        assert(a =~= b);
        assert(p.drop_first() =~= x);
        assert(q.drop_first() =~= y);
        if p == q {
            assert(x =~= y);
        }
    } else if a.len() == 0 {
        assert(p[0] == -1);
        assert(q[0] == b[0]);
        assert(p != q);
    } else {
        assert(q[0] == -1);
        assert(p[0] == a[0]);
        assert(a != b);
        assert(p != q);
    }
}

/// The entries of a text key are code points, never negative.
pub proof fn lemma_text_key_nonnegative(s: Seq<char>)
    ensures
        forall|i: int| 0 <= i < text_key(s).len() ==> text_key(s)[i] >= 0,
{
}

/// Text keys are equal exactly when the texts are.
pub proof fn lemma_text_key_injective(a: Seq<char>, b: Seq<char>)
    ensures
        (text_key(a) == text_key(b)) == (a == b),
{
    if text_key(a) == text_key(b) {
        assert(text_key(a).len() == text_key(b).len());
        assert forall|i: int| 0 <= i < a.len() implies a[i] == b[i] by {
            assert(text_key(a)[i] == text_key(b)[i]);
            assert((a[i] as u32) == (b[i] as u32));
            vstd::utf8::char_u32_cast(a[i], a[i] as u32);
            vstd::utf8::char_u32_cast(b[i], b[i] as u32);
        }
        assert(a =~= b);
    }
}

} // verus!
