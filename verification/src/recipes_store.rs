//! Recipe persistence, the part that is the pipeline's own: the error
//! type and the "latest recipe per source" rule applied to the rows the
//! store returns, newest first.

use vstd::prelude::*;
use crate::recipes::FetchRecipe;
use crate::strings::string_of;
use crate::text::{push_str, str_eq};

verus! {

/// Why a recipe could not be saved or loaded.
#[derive(Debug, Clone, PartialEq, Eq)]
pub enum RecipeStoreError {
    /// The store refused the read or write.
    Storage(String),
    /// The recipe could not be encoded for storage.
    Serialize(String),
    /// A stored row could not be decoded back into a recipe.
    Deserialize(String),
}

/// The message of a [`RecipeStoreError`].
pub open spec fn spec_recipe_store_error_message(e: RecipeStoreError) -> Seq<char> {
    match e {
        RecipeStoreError::Storage(m) => "storage error: "@ + m@,
        RecipeStoreError::Serialize(m) => "recipe serialization failed: "@ + m@,
        RecipeStoreError::Deserialize(m) => "recipe deserialization failed: "@ + m@,
    }
}

impl RecipeStoreError {
    /// The error's message.
    pub fn message(&self) -> (r: String)
        ensures
            r@ == spec_recipe_store_error_message(*self),
    {
        let mut out: Vec<char> = Vec::new();
        match self {
            RecipeStoreError::Storage(m) => {
                push_str(&mut out, "storage error: ");
                push_str(&mut out, m.as_str());
            },
            RecipeStoreError::Serialize(m) => {
                push_str(&mut out, "recipe serialization failed: ");
                push_str(&mut out, m.as_str());
            },
            RecipeStoreError::Deserialize(m) => {
                push_str(&mut out, "recipe deserialization failed: ");
                push_str(&mut out, m.as_str());
            },
        }
        string_of(out.as_slice())
    }
}

/// The sources of the rows.
pub open spec fn row_sources(rows: Seq<FetchRecipe>) -> Seq<Seq<char>> {
    rows.map_values(|r: FetchRecipe| r.source_id@)
}

/// Indices, among the first `n` rows, of the first row of each source, in
/// row order.
pub open spec fn first_per_source(sources: Seq<Seq<char>>, n: int) -> Seq<int>
    decreases n,
{
    if n <= 0 {
        Seq::empty()
    } else if sources.take(n - 1).contains(sources[n - 1]) {
        first_per_source(sources, n - 1)
    } else {
        first_per_source(sources, n - 1).push(n - 1)
    }
}

/// Indices of the rows that `load_latest` keeps.
pub open spec fn latest_indices(rows: Seq<FetchRecipe>) -> Seq<int> {
    first_per_source(row_sources(rows), rows.len() as int)
}

/// The rows that `load_latest` keeps: the first row of each source.
pub open spec fn spec_latest_per_source(rows: Seq<FetchRecipe>) -> Seq<FetchRecipe> {
    first_per_source(row_sources(rows), rows.len() as int).map_values(|i: int| rows[i])
}

fn seen_source(kept: &Vec<FetchRecipe>, source_id: &str) -> (r: bool)
    ensures
        r == row_sources(kept@).contains(source_id@),
{
    let mut i: usize = 0;
    while i < kept.len()
        invariant
            i <= kept.len(),
            forall|j: int| 0 <= j < i ==> row_sources(kept@)[j] != source_id@,
        decreases kept.len() - i,
    {
        if str_eq(kept[i].source_id.as_str(), source_id) {
            assert(row_sources(kept@)[i as int] == source_id@);
            return true;
        }
        i += 1;
    }
    false
}

proof fn lemma_first_per_source(sources: Seq<Seq<char>>, n: int)
    requires
        0 <= n <= sources.len(),
    ensures
        forall|k: int| 0 <= k < first_per_source(sources, n).len() ==> 0 <= #[trigger] first_per_source(sources, n)[k] < n,
        forall|a: int, b: int| 0 <= a < b < first_per_source(sources, n).len() ==> first_per_source(sources, n)[a] < first_per_source(sources, n)[b],
        forall|x: Seq<char>| #[trigger] sources.take(n).contains(x) <==> first_per_source(sources, n).map_values(|i: int| sources[i]).contains(x),
    decreases n,
{
    let f = first_per_source(sources, n);
    if n > 0 {
        lemma_first_per_source(sources, n - 1);
        let p = first_per_source(sources, n - 1);
        let pm = p.map_values(|i: int| sources[i]);
        let fm = f.map_values(|i: int| sources[i]);
        let t = sources.take(n);
        let t1 = sources.take(n - 1);
        assert(t =~= t1.push(sources[n - 1]));
        if t1.contains(sources[n - 1]) {
            assert(fm =~= pm);
            assert forall|x: Seq<char>| #[trigger] t.contains(x) <==> fm.contains(x) by {
                if t.contains(x) {
                    if x != sources[n - 1] {
                        let w = choose|w: int| 0 <= w < t.len() && #[trigger] t[w] == x;
                        assert(t1[w] == x);
                    }
                    assert(t1.contains(x));
                    assert(pm.contains(x));
                }
                if fm.contains(x) {
                    assert(t1.contains(x));
                    let w = choose|w: int| 0 <= w < t1.len() && #[trigger] t1[w] == x;
                    assert(t[w] == x);
                }
            }
        } else {
            assert(fm =~= pm.push(sources[n - 1]));
            assert forall|x: Seq<char>| #[trigger] t.contains(x) <==> fm.contains(x) by {
                if t.contains(x) {
                    let w = choose|w: int| 0 <= w < t.len() && #[trigger] t[w] == x;
                    if w < n - 1 {
                        assert(t1[w] == x);
                        assert(t1.contains(x));
                        assert(pm.contains(x));
                        let v = choose|v: int| 0 <= v < pm.len() && #[trigger] pm[v] == x;
                        assert(fm[v] == x);
                    } else {
                        assert(fm[pm.len() as int] == x);
                    }
                }
                if fm.contains(x) {
                    let v = choose|v: int| 0 <= v < fm.len() && #[trigger] fm[v] == x;
                    if v < pm.len() {
                        assert(pm[v] == x);
                        assert(pm.contains(x));
                        assert(t1.contains(x));
                        let w = choose|w: int| 0 <= w < t1.len() && #[trigger] t1[w] == x;
                        assert(t[w] == x);
                    } else {
                        assert(t[n - 1] == x);
                    }
                }
            }
        }
    } else {
        assert(sources.take(0) =~= Seq::<Seq<char>>::empty());
        assert(f.map_values(|i: int| sources[i]) =~= Seq::<Seq<char>>::empty());
    }
}

/// Keep the latest recipe of each source. The rows come newest first, so
/// the latest is the first row of each source; the kept rows stay in the
/// order they came.
pub fn load_latest(rows: Vec<FetchRecipe>) -> (r: Vec<FetchRecipe>)
    ensures
        r@ == spec_latest_per_source(rows@),
{
    let ghost all = rows@;
    let ghost srcs = row_sources(all);
    let mut rest = rows;
    let mut kept: Vec<FetchRecipe> = Vec::new();
    let mut k: usize = 0;
    let n = rest.len();
    while rest.len() > 0
        invariant
            k + rest@.len() == n,
            n == all.len(),
            srcs == row_sources(all),
            rest@ == all.skip(k as int),
            kept@ == first_per_source(srcs, k as int).map_values(|i: int| all[i]),
            row_sources(kept@) == first_per_source(srcs, k as int).map_values(|i: int| srcs[i]),
        decreases rest.len(),
    {
        let row = rest.remove(0);
        proof {
            lemma_first_per_source(srcs, k as int);
            assert(row == all[k as int]);
            assert(rest@ =~= all.skip(k + 1));
            assert(srcs[k as int] == row.source_id@);
        }
        let ghost before = first_per_source(srcs, k as int);
        let seen = seen_source(&kept, row.source_id.as_str());
        proof {
            assert(seen == srcs.take(k as int).contains(srcs[k as int]));
        }
        if !seen {
            kept.push(row);
            proof {
                let after = first_per_source(srcs, k + 1);
                assert(after == before.push(k as int));
                assert(kept@ =~= after.map_values(|i: int| all[i]));
                assert(row_sources(kept@) =~= after.map_values(|i: int| srcs[i]));
            }
        }
        k += 1;
    }
    assert(k == n);
    kept
}

/// Law: after keeping the latest recipe per source, no source occurs
/// twice, every source of the input is still there, and each kept row is
/// the first of its source in the input.
pub proof fn law_latest_keeps_one_row_per_source(rows: Seq<FetchRecipe>)
    ensures
        forall|a: int, b: int|
            0 <= a < b < spec_latest_per_source(rows).len() ==> spec_latest_per_source(rows)[a].source_id@
                != spec_latest_per_source(rows)[b].source_id@,
        forall|x: Seq<char>| #[trigger] row_sources(rows).contains(x) <==> row_sources(spec_latest_per_source(rows)).contains(x),
        forall|k: int, j: int|
            #![trigger latest_indices(rows)[k], rows[j]]
            0 <= k < latest_indices(rows).len() && 0 <= j < latest_indices(rows)[k] ==> rows[j].source_id@
                != rows[latest_indices(rows)[k]].source_id@,
{
    let srcs = row_sources(rows);
    let n = rows.len() as int;
    lemma_first_per_source(srcs, n);
    lemma_first_is_first(srcs, n);
    assert(srcs.take(n) =~= srcs);
    let f = first_per_source(srcs, n);
    assert(row_sources(spec_latest_per_source(rows)) =~= f.map_values(|i: int| srcs[i]));
    assert forall|a: int, b: int| 0 <= a < b < spec_latest_per_source(rows).len() implies spec_latest_per_source(rows)[a].source_id@
        != spec_latest_per_source(rows)[b].source_id@ by {
        assert(f[a] < f[b]);
        assert(srcs[f[b]] == rows[f[b]].source_id@);
        assert(srcs[f[a]] == rows[f[a]].source_id@);
        assert(srcs.take(f[b]).contains(srcs[f[a]]) ==> srcs[f[a]] != srcs[f[b]]) by {
            assert(!srcs.take(f[b]).contains(srcs[f[b]]));
        }
        assert(srcs.take(f[b])[f[a]] == srcs[f[a]]);
    }
    assert forall|k: int, j: int|
        #![trigger f[k], rows[j]]
        0 <= k < f.len() && 0 <= j < f[k] implies rows[j].source_id@ != rows[f[k]].source_id@ by {
        assert(!srcs.take(f[k]).contains(srcs[f[k]]));
        assert(srcs.take(f[k])[j] == srcs[j]);
        assert(srcs[j] == rows[j].source_id@);
        assert(srcs[f[k]] == rows[f[k]].source_id@);
    }
}

proof fn lemma_first_is_first(sources: Seq<Seq<char>>, n: int)
    requires
        0 <= n <= sources.len(),
    ensures
        forall|k: int| 0 <= k < first_per_source(sources, n).len() ==> !sources.take(#[trigger] first_per_source(sources, n)[k]).contains(
            sources[first_per_source(sources, n)[k]],
        ),
    decreases n,
{
    if n > 0 {
        lemma_first_is_first(sources, n - 1);
        let p = first_per_source(sources, n - 1);
        let f = first_per_source(sources, n);
        if !sources.take(n - 1).contains(sources[n - 1]) {
            assert(f == p.push(n - 1));
            assert forall|k: int| 0 <= k < f.len() implies !sources.take(#[trigger] f[k]).contains(sources[f[k]]) by {
                if k < p.len() {
                    assert(f[k] == p[k]);
                }
            }
        }
    }
}

} // verus!
