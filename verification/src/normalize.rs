//! Normalisation after apply: the plan's topic tags joined onto a
//! record's topics, in order and without duplicates.

use vstd::prelude::*;
use crate::text::str_eq;

verus! {

/// `existing` followed by each of `additional` not already present, in
/// order.
pub open spec fn merged(existing: Seq<Seq<char>>, additional: Seq<Seq<char>>) -> Seq<Seq<char>>
    decreases additional.len(),
{
    if additional.len() == 0 {
        existing
    } else {
        let m = merged(existing, additional.drop_last());
        if m.contains(additional.last()) {
            m
        } else {
            m.push(additional.last())
        }
    }
}

fn contains_topic(v: &Vec<String>, t: &String) -> (r: bool)
    ensures
        r == v.deep_view().contains(t@),
{
    let ghost dv = v.deep_view();
    let mut i: usize = 0;
    while i < v.len()
        invariant
            i <= v.len(),
            dv == v.deep_view(),
            forall|j: int| 0 <= j < i ==> dv[j] != t@,
        decreases v.len() - i,
    {
        if str_eq(v[i].as_str(), t.as_str()) {
            assert(dv[i as int] == t@);
            return true;
        }
        i += 1;
    }
    false
}

/// Merge `additional` into `existing`, preserving order and skipping
/// topics already present.
pub fn merge_topics(existing: &mut Vec<String>, additional: &[String])
    ensures
        final(existing).deep_view() == merged(old(existing).deep_view(), additional.deep_view()),
{
    let ghost start = existing.deep_view();
    let ghost add = additional.deep_view();
    let mut i: usize = 0;
    assert(add.take(0) =~= Seq::<Seq<char>>::empty());
    while i < additional.len()
        invariant
            i <= additional.len(),
            start == old(existing).deep_view(),
            add == additional.deep_view(),
            existing.deep_view() == merged(start, add.take(i as int)),
        decreases additional.len() - i,
    {
        let t = &additional[i];
        proof {
            let s = add.take(i + 1);
            assert(s.drop_last() =~= add.take(i as int));
            assert(s.last() == t@);
        }
        if !contains_topic(existing, t) {
            let ghost before = existing.deep_view();
            existing.push(t.clone());
            assert(existing.deep_view() =~= before.push(t@));
        }
        i += 1;
    }
    assert(add.take(additional.len() as int) =~= add);
}

/// No element occurs twice.
pub open spec fn no_duplicates(s: Seq<Seq<char>>) -> bool {
    forall|i: int, j: int| 0 <= i < j < s.len() ==> s[i] != s[j]
}

/// Law: merging keeps the existing topics in front, unchanged, and
/// every additional topic ends up present.
pub proof fn law_merge_keeps_existing_and_adds_all(existing: Seq<Seq<char>>, additional: Seq<Seq<char>>)
    ensures
        merged(existing, additional).len() >= existing.len(),
        merged(existing, additional).take(existing.len() as int) == existing,
        forall|k: int| 0 <= k < additional.len() ==> merged(existing, additional).contains(#[trigger] additional[k]),
        forall|x: Seq<char>| #[trigger] merged(existing, additional).contains(x) ==> existing.contains(x)
            || additional.contains(x),
    decreases additional.len(),
{
    if additional.len() > 0 {
        let init = additional.drop_last();
        law_merge_keeps_existing_and_adds_all(existing, init);
        let m = merged(existing, init);
        let last = additional.last();
        assert forall|k: int| 0 <= k < additional.len() implies merged(existing, additional).contains(
            #[trigger] additional[k],
        ) by {
            if k < additional.len() - 1 {
                assert(init[k] == additional[k]);
                assert(m.contains(init[k]));
                let w = choose|w: int| 0 <= w < m.len() && m[w] == init[k];
                if !m.contains(last) {
                    assert(m.push(last)[w] == init[k]);
                }
            } else {
                if !m.contains(last) {
                    assert(m.push(last)[m.len() as int] == last);
                }
            }
        }
        assert forall|x: Seq<char>| #[trigger] merged(existing, additional).contains(x) implies existing.contains(x)
            || additional.contains(x) by {
            if m.contains(x) {
                if init.contains(x) {
                    let w = choose|w: int| 0 <= w < init.len() && init[w] == x;
                    assert(additional[w] == x);
                }
            } else {
                let w = choose|w: int| 0 <= w < merged(existing, additional).len() && merged(existing, additional)[w] == x;
                assert(w == m.len());
                assert(additional[additional.len() - 1] == x);
            }
        }
        if !m.contains(last) {
            assert(m.push(last).take(existing.len() as int) =~= m.take(existing.len() as int));
        }
    } else {
        assert(existing.take(existing.len() as int) =~= existing);
    }
}

/// Law: merging never introduces a duplicate.
pub proof fn law_merge_introduces_no_duplicates(existing: Seq<Seq<char>>, additional: Seq<Seq<char>>)
    requires
        no_duplicates(existing),
    ensures
        no_duplicates(merged(existing, additional)),
    decreases additional.len(),
{
    if additional.len() > 0 {
        law_merge_introduces_no_duplicates(existing, additional.drop_last());
        let m = merged(existing, additional.drop_last());
        let last = additional.last();
        if !m.contains(last) {
            assert forall|i: int, j: int| 0 <= i < j < m.push(last).len() implies m.push(last)[i] != m.push(
                last,
            )[j] by {
                if j == m.len() {
                    assert(m[i] != last);
                }
            }
        }
    }
}

/// Law: merging the same topics twice is the same as merging them once.
pub proof fn law_merge_is_idempotent(existing: Seq<Seq<char>>, additional: Seq<Seq<char>>)
    ensures
        merged(merged(existing, additional), additional) == merged(existing, additional),
{
    law_merge_keeps_existing_and_adds_all(existing, additional);
    lemma_merge_present(merged(existing, additional), additional);
}

proof fn lemma_merge_present(existing: Seq<Seq<char>>, additional: Seq<Seq<char>>)
    requires
        forall|k: int| 0 <= k < additional.len() ==> existing.contains(#[trigger] additional[k]),
    ensures
        merged(existing, additional) == existing,
    decreases additional.len(),
{
    if additional.len() > 0 {
        let init = additional.drop_last();
        assert forall|k: int| 0 <= k < init.len() implies existing.contains(#[trigger] init[k]) by {
            assert(init[k] == additional[k]);
        }
        lemma_merge_present(existing, init);
        assert(existing.contains(additional[additional.len() - 1]));
    }
}

} // verus!
