//! The per-plan relation-predicate gate: drafts whose predicate the plan
//! does not declare are dropped, and the report names a bounded, sorted
//! sample of the dropped predicates.

use vstd::prelude::*;
use crate::research::{RelationKindExpectation, ResearchPlan};
use crate::order::{
    lemma_lt_asymmetric, lemma_lt_irreflexive, lemma_lt_total, lemma_lt_transitive, seq_lt,
    seq_lt_exec,
};
use crate::text::str_eq;

verus! {

/// Number of distinct dropped predicates the report samples.
pub const MAX_PREDICATE_LIST: usize = 16;

/// What one filtering call kept and dropped.
#[derive(Debug, Clone, PartialEq, Eq)]
pub struct PredicateFilterReport {
    /// Drafts kept.
    pub kept: usize,
    /// Drafts dropped because their predicate is not declared.
    pub dropped_unknown_kind: usize,
    /// Distinct dropped predicates, at most `MAX_PREDICATE_LIST`, sorted.
    pub dropped_predicates_sample: Vec<String>,
}

impl Default for PredicateFilterReport {
    fn default() -> (r: Self)
        ensures
            r.kept == 0,
            r.dropped_unknown_kind == 0,
            r.dropped_predicates_sample@.len() == 0,
    {
        PredicateFilterReport { kept: 0, dropped_unknown_kind: 0, dropped_predicates_sample: Vec::new() }
    }
}

/// `x` inserted into `s` before the first element it is less than.
pub open spec fn insert_sorted(s: Seq<Seq<char>>, x: Seq<char>) -> Seq<Seq<char>>
    decreases s.len(),
{
    if s.len() == 0 {
        seq![x]
    } else if seq_lt(x, s[0]) {
        seq![x] + s
    } else {
        seq![s[0]] + insert_sorted(s.drop_first(), x)
    }
}

/// `s` sorted by insertion.
pub open spec fn sort_seq(s: Seq<Seq<char>>) -> Seq<Seq<char>>
    decreases s.len(),
{
    if s.len() == 0 {
        s
    } else {
        insert_sorted(sort_seq(s.drop_last()), s.last())
    }
}

/// The predicates a plan declares.
pub open spec fn declared_kinds(plan: ResearchPlan) -> Seq<Seq<char>> {
    plan.expectations.relation_kinds@.map_values(|k: RelationKindExpectation| k.kind@)
}

/// The first `MAX_PREDICATE_LIST` distinct undeclared predicates among
/// the first `n` drafts, in order of first appearance.
pub open spec fn dropped_sample(kinds: Seq<Seq<char>>, declared: Seq<Seq<char>>, n: int) -> Seq<Seq<char>>
    decreases n,
{
    if n <= 0 {
        Seq::empty()
    } else {
        let s = dropped_sample(kinds, declared, n - 1);
        let k = kinds[n - 1];
        if !declared.contains(k) && s.len() < MAX_PREDICATE_LIST && !s.contains(k) {
            s.push(k)
        } else {
            s
        }
    }
}

/// Indices of the first `n` drafts whose predicate is declared.
pub open spec fn kept_indices(kinds: Seq<Seq<char>>, declared: Seq<Seq<char>>, n: int) -> Seq<int>
    decreases n,
{
    if n <= 0 {
        Seq::empty()
    } else if declared.contains(kinds[n - 1]) {
        kept_indices(kinds, declared, n - 1).push(n - 1)
    } else {
        kept_indices(kinds, declared, n - 1)
    }
}

proof fn lemma_insert_at_first_greater(s: Seq<Seq<char>>, x: Seq<char>, p: int)
    requires
        0 <= p <= s.len(),
        forall|i: int| 0 <= i < p ==> !seq_lt(x, #[trigger] s[i]),
        p < s.len() ==> seq_lt(x, s[p]),
    ensures
        s.insert(p, x) == insert_sorted(s, x),
    decreases s.len(),
{
    if s.len() == 0 {
        assert(s.insert(p, x) =~= seq![x]);
    } else if p == 0 {
        assert(s.insert(0, x) =~= seq![x] + s);
    } else {
        let t = s.drop_first();
        assert forall|i: int| 0 <= i < p - 1 implies !seq_lt(x, #[trigger] t[i]) by {
            assert(t[i] == s[i + 1]);
        }
        if p < s.len() {
            assert(t[p - 1] == s[p]);
        }
        lemma_insert_at_first_greater(t, x, p - 1);
        assert(!seq_lt(x, s[0]));
        assert(s.insert(p, x) =~= seq![s[0]] + t.insert(p - 1, x));
    }
}

fn contains_string(v: &Vec<String>, x: &String) -> (r: bool)
    ensures
        r == v.deep_view().contains(x@),
{
    let ghost dv = v.deep_view();
    let mut i: usize = 0;
    while i < v.len()
        invariant
            i <= v.len(),
            dv == v.deep_view(),
            forall|j: int| 0 <= j < i ==> dv[j] != x@,
        decreases v.len() - i,
    {
        if str_eq(v[i].as_str(), x.as_str()) {
            assert(dv[i as int] == x@);
            return true;
        }
        i += 1;
    }
    false
}

fn declared_contains(plan: &ResearchPlan, k: &String) -> (r: bool)
    ensures
        r == declared_kinds(*plan).contains(k@),
{
    let kinds = &plan.expectations.relation_kinds;
    let ghost d = declared_kinds(*plan);
    let mut i: usize = 0;
    while i < kinds.len()
        invariant
            i <= kinds.len(),
            d == declared_kinds(*plan),
            kinds@ == plan.expectations.relation_kinds@,
            forall|j: int| 0 <= j < i ==> d[j] != k@,
        decreases kinds.len() - i,
    {
        if str_eq(kinds[i].kind.as_str(), k.as_str()) {
            assert(d[i as int] == k@);
            return true;
        }
        i += 1;
    }
    false
}

fn sort_strings(v: Vec<String>) -> (r: Vec<String>)
    ensures
        r.deep_view() == sort_seq(v.deep_view()),
{
    let ghost dv = v.deep_view();
    let mut sorted: Vec<String> = Vec::new();
    let mut k: usize = 0;
    assert(dv.take(0) =~= Seq::<Seq<char>>::empty());
    assert(sorted.deep_view() =~= Seq::<Seq<char>>::empty());
    while k < v.len()
        invariant
            k <= v.len(),
            dv == v.deep_view(),
            sorted.deep_view() == sort_seq(dv.take(k as int)),
        decreases v.len() - k,
    {
        let x = v[k].clone();
        let mut p: usize = 0;
        while p < sorted.len() && !seq_lt_exec(&x, &sorted[p])
            invariant
                p <= sorted.len(),
                forall|i: int| 0 <= i < p ==> !seq_lt(x@, #[trigger] sorted.deep_view()[i]),
            decreases sorted.len() - p,
        {
            p += 1;
        }
        let ghost before = sorted.deep_view();
        proof {
            lemma_insert_at_first_greater(before, x@, p as int);
        }
        sorted.insert(p, x);
        assert(sorted.deep_view() =~= before.insert(p as int, dv[k as int]));
        proof {
            let t = dv.take(k + 1);
            assert(t.drop_last() =~= dv.take(k as int));
        }
        k += 1;
    }
    assert(dv.take(v.len() as int) =~= dv);
    sorted
}

/// Filter drafts, given by their predicates, against the plan's declared
/// relation kinds. Returns the indices of the kept drafts, in order, and
/// the report. A plan that declares no relation kinds keeps every draft.
pub fn filter_drafts_against_plan(draft_kinds: &Vec<String>, plan: &ResearchPlan) -> (r: (
    Vec<usize>,
    PredicateFilterReport,
))
    ensures
        ({
            let kinds = draft_kinds.deep_view();
            let declared = declared_kinds(*plan);
            let n = kinds.len() as int;
            if declared.len() == 0 {
                &&& r.0@.len() == n
                &&& forall|i: int| 0 <= i < n ==> r.0@[i] == i
                &&& r.1.kept == n
                &&& r.1.dropped_unknown_kind == 0
                &&& r.1.dropped_predicates_sample@.len() == 0
            } else {
                &&& r.0@.map_values(|i: usize| i as int) == kept_indices(kinds, declared, n)
                &&& r.1.kept == r.0@.len()
                &&& r.1.dropped_unknown_kind == n - r.0@.len()
                &&& r.1.dropped_predicates_sample.deep_view() == sort_seq(dropped_sample(kinds, declared, n))
            }
        }),
{
    let ghost kinds = draft_kinds.deep_view();
    let ghost declared = declared_kinds(*plan);
    let n = draft_kinds.len();
    if plan.expectations.relation_kinds.len() == 0 {
        let mut all: Vec<usize> = Vec::new();
        let mut i: usize = 0;
        while i < n
            invariant
                i <= n == draft_kinds.len(),
                all@.len() == i,
                forall|j: int| 0 <= j < i ==> all@[j] == j,
            decreases n - i,
        {
            all.push(i);
            i += 1;
        }
        return (all, PredicateFilterReport { kept: n, dropped_unknown_kind: 0, dropped_predicates_sample: Vec::new() });
    }
    let mut kept: Vec<usize> = Vec::new();
    let mut sample: Vec<String> = Vec::new();
    let mut i: usize = 0;
    assert(kept@.map_values(|i: usize| i as int) =~= Seq::<int>::empty());
    assert(sample.deep_view() =~= Seq::<Seq<char>>::empty());
    while i < n
        invariant
            i <= n == draft_kinds.len(),
            kinds == draft_kinds.deep_view(),
            declared == declared_kinds(*plan),
            kept@.map_values(|i: usize| i as int) == kept_indices(kinds, declared, i as int),
            kept@.len() <= i,
            sample.deep_view() == dropped_sample(kinds, declared, i as int),
        decreases n - i,
    {
        let k = &draft_kinds[i];
        assert(kinds[i as int] == k@);
        if declared_contains(plan, k) {
            let ghost before = kept@;
            kept.push(i);
            assert(kept@.map_values(|i: usize| i as int) =~= before.map_values(|i: usize| i as int).push(i as int));
        } else if sample.len() < MAX_PREDICATE_LIST && !contains_string(&sample, k) {
            let ghost before = sample.deep_view();
            sample.push(k.clone());
            assert(sample.deep_view() =~= before.push(k@));
        }
        i += 1;
    }
    let kept_count = kept.len();
    let sorted = sort_strings(sample);
    (kept, PredicateFilterReport { kept: kept_count, dropped_unknown_kind: n - kept_count, dropped_predicates_sample: sorted })
}

// ---------------------------------------------------------------------------
// Laws
// ---------------------------------------------------------------------------

/// Strictly increasing in [`seq_lt`].
pub open spec fn strictly_sorted(s: Seq<Seq<char>>) -> bool {
    forall|i: int, j: int| 0 <= i < j < s.len() ==> seq_lt(s[i], s[j])
}

/// No element occurs twice.
pub open spec fn all_distinct(s: Seq<Seq<char>>) -> bool {
    forall|i: int, j: int| 0 <= i < j < s.len() ==> s[i] != s[j]
}

proof fn lemma_insert_sorted(s: Seq<Seq<char>>, x: Seq<char>)
    requires
        strictly_sorted(s),
        !s.contains(x),
    ensures
        strictly_sorted(insert_sorted(s, x)),
        insert_sorted(s, x).len() == s.len() + 1,
        forall|y: Seq<char>| #[trigger] insert_sorted(s, x).contains(y) <==> (s.contains(y) || y == x),
    decreases s.len(),
{
    let r = insert_sorted(s, x);
    if s.len() == 0 {
        assert(r[0] == x);
    } else if seq_lt(x, s[0]) {
        assert(r =~= seq![x] + s);
        assert forall|i: int, j: int| 0 <= i < j < r.len() implies seq_lt(r[i], r[j]) by {
            if i == 0 {
                if j > 1 {
                    lemma_lt_transitive(x, s[0], s[j - 1]);
                }
            } else {
                assert(r[i] == s[i - 1] && r[j] == s[j - 1]);
            }
        }
        assert forall|y: Seq<char>| #[trigger] r.contains(y) <==> (s.contains(y) || y == x) by {
            if r.contains(y) {
                let w = choose|w: int| 0 <= w < r.len() && r[w] == y;
                if w > 0 {
                    assert(s[w - 1] == y);
                }
            }
            if s.contains(y) {
                let w = choose|w: int| 0 <= w < s.len() && s[w] == y;
                assert(r[w + 1] == y);
            }
            if y == x {
                assert(r[0] == x);
            }
        }
    } else {
        let t = s.drop_first();
        assert forall|i: int, j: int| 0 <= i < j < t.len() implies seq_lt(t[i], t[j]) by {
            assert(t[i] == s[i + 1] && t[j] == s[j + 1]);
        }
        if t.contains(x) {
            let w = choose|w: int| 0 <= w < t.len() && t[w] == x;
            assert(s[w + 1] == x);
        }
        lemma_insert_sorted(t, x);
        let rt = insert_sorted(t, x);
        assert(r =~= seq![s[0]] + rt);
        assert(s[0] != x);
        lemma_lt_total(x, s[0]);
        assert(seq_lt(s[0], x));
        assert forall|i: int, j: int| 0 <= i < j < r.len() implies seq_lt(r[i], r[j]) by {
            if i == 0 {
                let y = rt[j - 1];
                assert(rt.contains(y));
                if y == x {
                } else {
                    assert(t.contains(y));
                    let w = choose|w: int| 0 <= w < t.len() && t[w] == y;
                    assert(s[w + 1] == y);
                }
            } else {
                assert(r[i] == rt[i - 1] && r[j] == rt[j - 1]);
            }
        }
        assert forall|y: Seq<char>| #[trigger] r.contains(y) <==> (s.contains(y) || y == x) by {
            if r.contains(y) {
                let w = choose|w: int| 0 <= w < r.len() && r[w] == y;
                if w > 0 {
                    assert(rt[w - 1] == y);
                    assert(rt.contains(y));
                    if t.contains(y) {
                        let v = choose|v: int| 0 <= v < t.len() && t[v] == y;
                        assert(s[v + 1] == y);
                    }
                } else {
                    assert(s[0] == y);
                }
            }
            if s.contains(y) {
                let w = choose|w: int| 0 <= w < s.len() && s[w] == y;
                if w > 0 {
                    assert(t[w - 1] == y);
                    assert(t.contains(y));
                    assert(rt.contains(y));
                    let v = choose|v: int| 0 <= v < rt.len() && rt[v] == y;
                    assert(r[v + 1] == y);
                } else {
                    assert(r[0] == y);
                }
            }
            if y == x {
                assert(rt.contains(x));
                let v = choose|v: int| 0 <= v < rt.len() && rt[v] == x;
                assert(r[v + 1] == x);
            }
        }
    }
}

proof fn lemma_sort_seq(s: Seq<Seq<char>>)
    requires
        all_distinct(s),
    ensures
        strictly_sorted(sort_seq(s)),
        sort_seq(s).len() == s.len(),
        forall|y: Seq<char>| #[trigger] sort_seq(s).contains(y) <==> s.contains(y),
    decreases s.len(),
{
    if s.len() > 0 {
        let init = s.drop_last();
        assert forall|i: int, j: int| 0 <= i < j < init.len() implies init[i] != init[j] by {
            assert(init[i] == s[i] && init[j] == s[j]);
        }
        lemma_sort_seq(init);
        if sort_seq(init).contains(s.last()) {
            assert(init.contains(s.last()));
            let w = choose|w: int| 0 <= w < init.len() && init[w] == s.last();
            assert(s[w] == s[s.len() - 1]);
        }
        lemma_insert_sorted(sort_seq(init), s.last());
        assert forall|y: Seq<char>| #[trigger] sort_seq(s).contains(y) <==> s.contains(y) by {
            if sort_seq(init).contains(y) {
                assert(init.contains(y));
                let w = choose|w: int| 0 <= w < init.len() && init[w] == y;
                assert(s[w] == y);
            }
            if s.contains(y) {
                let w = choose|w: int| 0 <= w < s.len() && s[w] == y;
                if w < s.len() - 1 {
                    assert(init[w] == y);
                    assert(init.contains(y));
                    assert(sort_seq(init).contains(y));
                }
            }
        }
    }
}

proof fn lemma_dropped_sample(kinds: Seq<Seq<char>>, declared: Seq<Seq<char>>, n: int)
    requires
        0 <= n <= kinds.len(),
    ensures
        dropped_sample(kinds, declared, n).len() <= MAX_PREDICATE_LIST,
        all_distinct(dropped_sample(kinds, declared, n)),
        forall|y: Seq<char>| #[trigger] dropped_sample(kinds, declared, n).contains(y) ==> !declared.contains(y)
            && kinds.take(n).contains(y),
    decreases n,
{
    if n > 0 {
        lemma_dropped_sample(kinds, declared, n - 1);
        let s = dropped_sample(kinds, declared, n - 1);
        let k = kinds[n - 1];
        assert forall|y: Seq<char>| #[trigger] kinds.take(n - 1).contains(y) implies kinds.take(n).contains(y) by {
            let w = choose|w: int| 0 <= w < kinds.take(n - 1).len() && #[trigger] kinds.take(n - 1)[w] == y;
            assert(kinds.take(n)[w] == y);
        }
        if !declared.contains(k) && s.len() < MAX_PREDICATE_LIST && !s.contains(k) {
            let t = s.push(k);
            assert forall|i: int, j: int| 0 <= i < j < t.len() implies t[i] != t[j] by {
                if j == s.len() {
                    assert(s.contains(s[i]));
                }
            }
            assert forall|y: Seq<char>| #[trigger] t.contains(y) implies !declared.contains(y) && kinds.take(
                n,
            ).contains(y) by {
                let w = choose|w: int| 0 <= w < t.len() && t[w] == y;
                if w < s.len() {
                    assert(s[w] == y);
                    assert(s.contains(y));
                } else {
                    assert(kinds.take(n)[n - 1] == y);
                }
            }
        }
    }
}

/// Law: the dropped-predicate sample is sorted, holds each predicate at
/// most once, holds at most `MAX_PREDICATE_LIST` of them, and names only
/// undeclared predicates that some draft carries.
pub proof fn law_dropped_sample_is_sorted_distinct_and_capped(
    kinds: Seq<Seq<char>>,
    declared: Seq<Seq<char>>,
)
    ensures
        ({
            let sample = sort_seq(dropped_sample(kinds, declared, kinds.len() as int));
            &&& strictly_sorted(sample)
            &&& all_distinct(sample)
            &&& sample.len() <= MAX_PREDICATE_LIST
            &&& forall|y: Seq<char>| #[trigger] sample.contains(y) ==> !declared.contains(y) && kinds.contains(y)
        }),
{
    let raw = dropped_sample(kinds, declared, kinds.len() as int);
    lemma_dropped_sample(kinds, declared, kinds.len() as int);
    lemma_sort_seq(raw);
    let sample = sort_seq(raw);
    assert(kinds.take(kinds.len() as int) =~= kinds);
    assert forall|i: int, j: int| 0 <= i < j < sample.len() implies sample[i] != sample[j] by {
        if sample[i] == sample[j] {
            lemma_lt_irreflexive(sample[i]);
        }
    }
    assert forall|y: Seq<char>| #[trigger] sample.contains(y) implies !declared.contains(y) && kinds.contains(y) by {
        assert(raw.contains(y));
    }
}

/// Law: every kept draft carries a declared predicate, the kept indices
/// are increasing, and kept and dropped drafts add up to all drafts.
pub proof fn law_kept_drafts_are_declared(kinds: Seq<Seq<char>>, declared: Seq<Seq<char>>, n: int)
    requires
        0 <= n <= kinds.len(),
    ensures
        forall|i: int| 0 <= i < kept_indices(kinds, declared, n).len() ==> {
            let k = #[trigger] kept_indices(kinds, declared, n)[i];
            0 <= k < n && declared.contains(kinds[k])
        },
        forall|i: int, j: int| 0 <= i < j < kept_indices(kinds, declared, n).len() ==> kept_indices(
            kinds,
            declared,
            n,
        )[i] < kept_indices(kinds, declared, n)[j],
        kept_indices(kinds, declared, n).len() <= n,
    decreases n,
{
    if n > 0 {
        law_kept_drafts_are_declared(kinds, declared, n - 1);
    }
}

/// Law: a draft is kept exactly when its predicate is declared: every
/// draft of a declared kind is kept, however many drafts share that
/// kind, and no other draft is.
pub proof fn law_declared_drafts_are_all_kept(kinds: Seq<Seq<char>>, declared: Seq<Seq<char>>, n: int)
    requires
        0 <= n <= kinds.len(),
    ensures
        forall|i: int| 0 <= i < n ==> (kept_indices(kinds, declared, n).contains(i) <==> declared.contains(
            #[trigger] kinds[i],
        )),
    decreases n,
{
    if n > 0 {
        law_declared_drafts_are_all_kept(kinds, declared, n - 1);
        law_kept_drafts_are_declared(kinds, declared, n - 1);
        let prev = kept_indices(kinds, declared, n - 1);
        assert forall|i: int| 0 <= i < n implies (kept_indices(kinds, declared, n).contains(i) <==> declared.contains(
            #[trigger] kinds[i],
        )) by {
            if declared.contains(kinds[n - 1]) {
                let cur = prev.push(n - 1);
                if i == n - 1 {
                    assert(cur[prev.len() as int] == n - 1);
                    if prev.contains(n - 1) {
                        let t = choose|t: int| 0 <= t < prev.len() && prev[t] == n - 1;
                        assert(prev[t] < n - 1);
                    }
                } else {
                    if cur.contains(i) {
                        let t = choose|t: int| 0 <= t < cur.len() && cur[t] == i;
                        assert(t < prev.len());
                        assert(prev[t] == i);
                    }
                    if prev.contains(i) {
                        let t = choose|t: int| 0 <= t < prev.len() && prev[t] == i;
                        assert(cur[t] == i);
                    }
                }
            } else {
                if i == n - 1 && prev.contains(i) {
                    let t = choose|t: int| 0 <= t < prev.len() && prev[t] == i;
                    assert(prev[t] < n - 1);
                }
            }
        }
    }
}

} // verus!
