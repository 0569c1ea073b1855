//! The order of text: character sequences compared lexicographically by
//! code point, which is the order `String`'s `Ord` gives, and a sort of
//! strings in that order.

use vstd::prelude::*;
use vstd::relations::{sorted_by, total_ordering};
use vstd::seq_lib::lemma_sorted_unique;

verus! {

/// Strict lexicographic order of character sequences by code point
/// (the order of `String`'s `Ord`, which compares UTF-8 bytes).
pub open spec fn seq_lt(a: Seq<char>, b: Seq<char>) -> bool
    decreases a.len(),
{
    if a.len() == 0 {
        b.len() > 0
    } else if b.len() == 0 {
        false
    } else if a[0] != b[0] {
        a[0] < b[0]
    } else {
        seq_lt(a.drop_first(), b.drop_first())
    }
}

/// Whether `a` sorts strictly before `b`.
pub fn seq_lt_exec(a: &String, b: &String) -> (r: bool)
    ensures
        r == seq_lt(a@, b@),
{
    let x = crate::strings::chars_of(a.as_str());
    let y = crate::strings::chars_of(b.as_str());
    let mut i: usize = 0;
    assert(x@.skip(0) =~= x@);
    assert(y@.skip(0) =~= y@);
    while i < x.len() && i < y.len() && x[i] == y[i]
        invariant
            i <= x.len(),
            i <= y.len(),
            seq_lt(a@, b@) == seq_lt(x@.skip(i as int), y@.skip(i as int)),
        decreases x.len() - i,
    {
        assert(x@.skip(i as int).drop_first() =~= x@.skip(i + 1));
        assert(y@.skip(i as int).drop_first() =~= y@.skip(i + 1));
        i += 1;
    }
    if i == x.len() {
        i < y.len()
    } else if i == y.len() {
        false
    } else {
        assert(x@.skip(i as int)[0] == x@[i as int]);
        assert(y@.skip(i as int)[0] == y@[i as int]);
        x[i] < y[i]
    }
}

pub proof fn lemma_lt_irreflexive(a: Seq<char>)
    ensures
        !seq_lt(a, a),
    decreases a.len(),
{
    if a.len() > 0 {
        lemma_lt_irreflexive(a.drop_first());
    }
}

pub proof fn lemma_lt_total(a: Seq<char>, b: Seq<char>)
    requires
        a != b,
    ensures
        seq_lt(a, b) || seq_lt(b, a),
    decreases a.len(),
{
    if a.len() > 0 && b.len() > 0 && a[0] == b[0] {
        if a.drop_first() == b.drop_first() {
            assert(a =~= seq![a[0]] + a.drop_first());
            assert(b =~= seq![b[0]] + b.drop_first());
        }
        lemma_lt_total(a.drop_first(), b.drop_first());
    } else if a.len() == 0 && b.len() == 0 {
        assert(a =~= b);
    }
}

pub proof fn lemma_lt_asymmetric(a: Seq<char>, b: Seq<char>)
    requires
        seq_lt(a, b),
    ensures
        !seq_lt(b, a),
    decreases a.len(),
{
    if a.len() > 0 && b.len() > 0 && a[0] == b[0] {
        lemma_lt_asymmetric(a.drop_first(), b.drop_first());
    }
}

pub proof fn lemma_lt_transitive(a: Seq<char>, b: Seq<char>, c: Seq<char>)
    requires
        seq_lt(a, b),
        seq_lt(b, c),
    ensures
        seq_lt(a, c),
    decreases a.len(),
{
    if a.len() > 0 && a[0] == b[0] && b[0] == c[0] {
        lemma_lt_transitive(a.drop_first(), b.drop_first(), c.drop_first());
    }
}


/// `a` sorts no later than `b`.
pub open spec fn seq_le(a: Seq<char>, b: Seq<char>) -> bool {
    !seq_lt(b, a)
}

/// [`seq_le`] as a relation.
pub open spec fn text_order() -> spec_fn(Seq<char>, Seq<char>) -> bool {
    |a: Seq<char>, b: Seq<char>| seq_le(a, b)
}

/// [`seq_le`] is a total order.
pub proof fn lemma_text_order_is_total()
    ensures
        total_ordering(text_order()),
{
    let le = text_order();
    assert forall|x: Seq<char>| #[trigger] le(x, x) by {
        lemma_lt_irreflexive(x);
    }
    assert forall|x: Seq<char>, y: Seq<char>| #[trigger] le(x, y) && #[trigger] le(y, x) implies x == y by {
        if x != y {
            lemma_lt_total(x, y);
        }
    }
    assert forall|x: Seq<char>, y: Seq<char>, z: Seq<char>| #[trigger] le(x, y) && #[trigger] le(y, z) implies le(x, z) by {
        if seq_lt(z, x) {
            if y == x {
            } else {
                lemma_lt_total(x, y);
                if seq_lt(x, y) {
                    lemma_lt_transitive(z, x, y);
                }
            }
        }
    }
    assert forall|x: Seq<char>, y: Seq<char>| #[trigger] le(x, y) || #[trigger] le(y, x) by {
        if seq_lt(y, x) {
            lemma_lt_asymmetric(y, x);
        }
    }
}

/// The strings of `v`, sorted by [`seq_le`].
pub fn sort_texts(v: &Vec<String>) -> (r: Vec<String>)
    ensures
        r.deep_view() == v.deep_view().sort_by(text_order()),
{
    let ghost dv = v.deep_view();
    let ghost le = text_order();
    let mut sorted: Vec<String> = Vec::new();
    let mut k: usize = 0;
    proof {
        lemma_text_order_is_total();
        assert(dv.take(0) =~= Seq::<Seq<char>>::empty());
        assert(sorted.deep_view() =~= Seq::<Seq<char>>::empty());
    }
    while k < v.len()
        invariant
            k <= v.len(),
            dv == v.deep_view(),
            le == text_order(),
            total_ordering(le),
            sorted_by(sorted.deep_view(), le),
            sorted.deep_view().to_multiset() == dv.take(k as int).to_multiset(),
        decreases v.len() - k,
    {
        let x = v[k].clone();
        let mut p: usize = 0;
        while p < sorted.len() && !seq_lt_exec(&x, &sorted[p])
            invariant
                p <= sorted.len(),
                forall|i: int| 0 <= i < p ==> !seq_lt(x@, #[trigger] sorted.deep_view()[i]),
            decreases sorted.len() - p,
        {
            p += 1;
        }
        let ghost before = sorted.deep_view();
        sorted.insert(p, x);
        let ghost after = sorted.deep_view();
        proof {
            assert(after =~= before.insert(p as int, dv[k as int]));
            assert forall|i: int, j: int| 0 <= i < j < after.len() implies #[trigger] le(after[i], after[j]) by {
                if j < p {
                    assert(after[i] == before[i] && after[j] == before[j]);
                } else if j == p {
                    assert(after[i] == before[i]);
                    assert(!seq_lt(x@, before[i]));
                    assert(le(before[i], x@));
                } else if i < p {
                    assert(after[i] == before[i] && after[j] == before[j - 1]);
                } else if i == p {
                    assert(after[j] == before[j - 1]);
                    assert(seq_lt(x@, before[p as int]));
                    lemma_lt_asymmetric(x@, before[p as int]);
                    assert(le(x@, before[p as int]));
                    if j - 1 > p {
                        assert(le(before[p as int], before[j - 1]));
                    }
                } else {
                    assert(after[i] == before[i - 1] && after[j] == before[j - 1]);
                }
            }
            broadcast use vstd::seq_lib::group_to_multiset_ensures;
            assert(before.insert(p as int, x@).to_multiset() =~= before.to_multiset().insert(x@)) by {
                let ins = before.insert(p as int, x@);
                assert(ins.remove(p as int) =~= before);
                assert(ins.remove(p as int).to_multiset() == ins.to_multiset().remove(ins[p as int]));
            }
            let t = dv.take(k + 1);
            assert(t =~= dv.take(k as int).push(dv[k as int]));
        }
        k += 1;
    }
    proof {
        assert(dv.take(v.len() as int) =~= dv);
        dv.lemma_sort_by_ensures(le);
        lemma_sorted_unique(sorted.deep_view(), dv.sort_by(le), le);
    }
    sorted
}

} // verus!
