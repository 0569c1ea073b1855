//! Materialisation of a plan's exemplar relation triples: the work list
//! a plan yields, the deterministic dedup key of each triple, and the
//! report of one pass.

use vstd::prelude::*;
use crate::research::{RelationKindExpectation, RelationTripleExemplar, ResearchPlan};
use crate::strings::{chars_of, string_of};
use crate::text::{push_all, push_str, trim, trim_chars};

verus! {

/// Summary of one materialisation pass.
#[derive(Debug, Clone, PartialEq, Eq)]
pub struct MaterializationReport {
    /// Triples inserted as fresh rows.
    pub materialized: u32,
    /// Triples whose dedup key already had a row.
    pub skipped_existing: u32,
    /// Per-triple failures, `{kind}:{from}->{to}: {error}`.
    pub errors: Vec<String>,
}

impl Default for MaterializationReport {
    fn default() -> (r: Self)
        ensures
            r.materialized == 0,
            r.skipped_existing == 0,
            r.errors@.len() == 0,
    {
        MaterializationReport { materialized: 0, skipped_existing: 0, errors: Vec::new() }
    }
}

impl MaterializationReport {
    /// Total triples considered: the sum of the three buckets.
    pub fn total(&self) -> (r: u32)
        requires
            self.materialized + self.skipped_existing + self.errors@.len() <= u32::MAX,
        ensures
            r == self.materialized + self.skipped_existing + self.errors@.len(),
    {
        self.materialized + self.skipped_existing + self.errors.len() as u32
    }
}

/// `plan:{plan_id}#relation_exemplar:{kind}:{from}:{to}`
pub open spec fn spec_dedup_key_for_triple(plan_id: Seq<char>, kind: Seq<char>, from: Seq<char>, to: Seq<char>) -> Seq<
    char,
> {
    "plan:"@ + plan_id + "#relation_exemplar:"@ + kind + ":"@ + from + ":"@ + to
}

/// The deterministic dedup key of a `(plan, kind, from, to)` triple.
pub fn dedup_key_for_triple(plan: &ResearchPlan, kind: &str, triple: &RelationTripleExemplar) -> (r: String)
    ensures
        r@ == spec_dedup_key_for_triple(plan.id@, kind@, triple.from@, triple.to@),
{
    let mut out: Vec<char> = Vec::new();
    push_str(&mut out, "plan:");
    push_str(&mut out, plan.id.as_str());
    push_str(&mut out, "#relation_exemplar:");
    push_str(&mut out, kind);
    push_str(&mut out, ":");
    push_str(&mut out, triple.from.as_str());
    push_str(&mut out, ":");
    push_str(&mut out, triple.to.as_str());
    string_of(out.as_slice())
}

/// A plan's exemplar relation as it is materialised, before the record
/// type assigns its identifier: provenance, subjects, the accept time
/// and the relation's content.
#[derive(Debug, Clone, PartialEq, Eq)]
pub struct ExemplarRelationDraft {
    /// `plan:{plan_id}#relation_exemplar`.
    pub source_id: String,
    pub license: String,
    /// The two endpoints, `from` first.
    pub entities: Vec<String>,
    /// The plan's topic tags.
    pub topics: Vec<String>,
    /// When the plan was accepted, in milliseconds since the Unix epoch.
    pub observed_at: i64,
    pub kind: String,
    pub from: String,
    pub to: String,
    pub dedup_key: String,
}

/// `d` is the exemplar relation of `triple` under `kind` for `plan`.
pub open spec fn exemplar_relation_matches(
    d: ExemplarRelationDraft,
    plan: ResearchPlan,
    kind: Seq<char>,
    triple: RelationTripleExemplar,
    accepted_at: i64,
    dedup_key: Seq<char>,
) -> bool {
    &&& d.source_id@ == "plan:"@ + plan.id@ + "#relation_exemplar"@
    &&& d.license@ == "classifier-emitted"@
    &&& d.entities@.len() == 2 && d.entities@[0]@ == triple.from@ && d.entities@[1]@ == triple.to@
    &&& d.topics@.len() == plan.topic_tags@.len()
    &&& forall|i: int| 0 <= i < d.topics@.len() ==> (#[trigger] d.topics@[i])@ == plan.topic_tags@[i]@
    &&& d.observed_at == accepted_at
    &&& d.kind@ == kind && d.from@ == triple.from@ && d.to@ == triple.to@
    &&& d.dedup_key@ == dedup_key
}

/// The relation a plan's exemplar triple materialises as: provenance
/// `plan:{plan_id}#relation_exemplar` under the `classifier-emitted`
/// licence, both endpoints as subject entities, the plan's topics, the
/// accept time, and the triple as content, with `dedup_key`.
pub fn build_exemplar_relation(
    plan: &ResearchPlan,
    kind: &str,
    triple: &RelationTripleExemplar,
    accepted_at: i64,
    dedup_key: String,
) -> (r: ExemplarRelationDraft)
    ensures
        exemplar_relation_matches(r, *plan, kind@, *triple, accepted_at, dedup_key@),
{
    let mut sid: Vec<char> = Vec::new();
    push_str(&mut sid, "plan:");
    push_str(&mut sid, plan.id.as_str());
    push_str(&mut sid, "#relation_exemplar");
    let mut topics: Vec<String> = Vec::new();
    let mut i: usize = 0;
    while i < plan.topic_tags.len()
        invariant
            i <= plan.topic_tags@.len(),
            topics@.len() == i,
            forall|j: int| 0 <= j < i ==> (#[trigger] topics@[j])@ == plan.topic_tags@[j]@,
        decreases plan.topic_tags@.len() - i,
    {
        topics.push(plan.topic_tags[i].clone());
        i += 1;
    }
    let mut license: Vec<char> = Vec::new();
    push_str(&mut license, "classifier-emitted");
    ExemplarRelationDraft {
        source_id: string_of(sid.as_slice()),
        license: string_of(license.as_slice()),
        entities: vec![triple.from.clone(), triple.to.clone()],
        topics,
        observed_at: accepted_at,
        kind: string_of(chars_of(kind).as_slice()),
        from: triple.from.clone(),
        to: triple.to.clone(),
        dedup_key,
    }
}

/// One triple to materialise: its trimmed kind and its endpoints.
#[derive(Debug, Clone, PartialEq, Eq)]
pub struct ExemplarWork {
    pub kind: String,
    pub from: String,
    pub to: String,
}

impl View for ExemplarWork {
    type V = (Seq<char>, Seq<char>, Seq<char>);

    open spec fn view(&self) -> (Seq<char>, Seq<char>, Seq<char>) {
        (self.kind@, self.from@, self.to@)
    }
}

impl DeepView for ExemplarWork {
    type V = (Seq<char>, Seq<char>, Seq<char>);

    open spec fn deep_view(&self) -> (Seq<char>, Seq<char>, Seq<char>) {
        self@
    }
}

/// The triples of one relation kind, under its trimmed kind; none when
/// the kind is blank.
pub open spec fn kind_work(k: RelationKindExpectation) -> Seq<(Seq<char>, Seq<char>, Seq<char>)> {
    if trim(k.kind@).len() == 0 {
        Seq::empty()
    } else {
        k.exemplar_triples@.map_values(|t: RelationTripleExemplar| (trim(k.kind@), t.from@, t.to@))
    }
}

/// Every triple of every relation kind, in plan order.
pub open spec fn work_of(kinds: Seq<RelationKindExpectation>) -> Seq<(Seq<char>, Seq<char>, Seq<char>)>
    decreases kinds.len(),
{
    if kinds.len() == 0 {
        Seq::empty()
    } else {
        work_of(kinds.drop_last()) + kind_work(kinds.last())
    }
}

/// The triples a plan asks to materialise, in order: every exemplar
/// triple of every relation kind whose trimmed kind is not blank.
pub fn exemplar_work(plan: &ResearchPlan) -> (r: Vec<ExemplarWork>)
    ensures
        r.deep_view() == work_of(plan.expectations.relation_kinds@),
{
    let kinds = &plan.expectations.relation_kinds;
    let mut out: Vec<ExemplarWork> = Vec::new();
    let mut i: usize = 0;
    assert(kinds@.take(0) =~= Seq::<RelationKindExpectation>::empty());
    assert(out.deep_view() =~= Seq::<(Seq<char>, Seq<char>, Seq<char>)>::empty());
    while i < kinds.len()
        invariant
            i <= kinds.len(),
            out.deep_view() == work_of(kinds@.take(i as int)),
        decreases kinds.len() - i,
    {
        let k = &kinds[i];
        let ghost before = out.deep_view();
        let ghost kw = kind_work(*k);
        let kc = chars_of(k.kind.as_str());
        let kt = trim_chars(kc.as_slice());
        if kt.len() > 0 {
            let triples = &k.exemplar_triples;
            let mut j: usize = 0;
            while j < triples.len()
                invariant
                    j <= triples.len(),
                    triples@ == k.exemplar_triples@,
                    kt@ == trim(k.kind@),
                    kt@.len() > 0,
                    kw == kind_work(*k),
                    out.deep_view() == before + kw.take(j as int),
                decreases triples.len() - j,
            {
                let t = &triples[j];
                let w = ExemplarWork {
                    kind: string_of(kt.as_slice()),
                    from: t.from.clone(),
                    to: t.to.clone(),
                };
                let ghost o = out.deep_view();
                let ghost wv = w@;
                assert(wv == kw[j as int]);
                out.push(w);
                assert(out.deep_view() =~= o.push(wv));
                assert(kw.take(j + 1) =~= kw.take(j as int).push(kw[j as int]));
                assert(out.deep_view() =~= before + kw.take(j + 1));
                j += 1;
            }
            assert(kw.take(triples.len() as int) =~= kw);
        } else {
            assert(out.deep_view() =~= before + kw);
        }
        proof {
            let t = kinds@.take(i + 1);
            assert(t.drop_last() =~= kinds@.take(i as int));
        }
        i += 1;
    }
    assert(kinds@.take(kinds.len() as int) =~= kinds@);
    out
}

/// What happened to one triple.
#[derive(Debug, Clone, PartialEq, Eq)]
pub enum MaterializeOutcome {
    Inserted,
    AlreadyExists,
    Failed(String),
}

/// The outcome decided by the existence check, when it decides one:
/// an existing row skips, a failed check fails; `None` means insert.
pub fn outcome_of_existence_check(check: Result<bool, String>) -> (r: Option<MaterializeOutcome>)
    ensures
        match check {
            Ok(true) => r == Some(MaterializeOutcome::AlreadyExists),
            Ok(false) => r is None,
            Err(e) => r matches Some(MaterializeOutcome::Failed(m)) && m@ == "existence check: "@ + e@,
        },
{
    match check {
        Ok(true) => Some(MaterializeOutcome::AlreadyExists),
        Ok(false) => None,
        Err(e) => {
            let mut m: Vec<char> = Vec::new();
            push_str(&mut m, "existence check: ");
            push_str(&mut m, e.as_str());
            Some(MaterializeOutcome::Failed(string_of(m.as_slice())))
        },
    }
}

/// The outcome of the insert.
pub fn outcome_of_insert(inserted: Result<(), String>) -> (r: MaterializeOutcome)
    ensures
        match inserted {
            Ok(_) => r == MaterializeOutcome::Inserted,
            Err(e) => r matches MaterializeOutcome::Failed(m) && m@ == "insert: "@ + e@,
        },
{
    match inserted {
        Ok(_) => MaterializeOutcome::Inserted,
        Err(e) => {
            let mut m: Vec<char> = Vec::new();
            push_str(&mut m, "insert: ");
            push_str(&mut m, e.as_str());
            MaterializeOutcome::Failed(string_of(m.as_slice()))
        },
    }
}

/// Count one triple's outcome into the report; a failure is listed as
/// `{kind}:{from}->{to}: {error}`.
pub fn record_outcome(report: &mut MaterializationReport, work: &ExemplarWork, outcome: MaterializeOutcome)
    requires
        old(report).materialized < u32::MAX,
        old(report).skipped_existing < u32::MAX,
    ensures
        match outcome {
            MaterializeOutcome::Inserted => final(report).materialized == old(report).materialized + 1
                && final(report).skipped_existing == old(report).skipped_existing && final(report).errors@
                == old(report).errors@,
            MaterializeOutcome::AlreadyExists => final(report).materialized == old(report).materialized
                && final(report).skipped_existing == old(report).skipped_existing + 1 && final(report).errors@
                == old(report).errors@,
            MaterializeOutcome::Failed(e) => final(report).materialized == old(report).materialized
                && final(report).skipped_existing == old(report).skipped_existing && final(report).errors@.len()
                == old(report).errors@.len() + 1 && final(report).errors@.drop_last() == old(report).errors@
                && final(report).errors@.last()@ == work.kind@ + ":"@ + work.from@ + "->"@ + work.to@ + ": "@
                + e@,
        },
{
    match outcome {
        MaterializeOutcome::Inserted => {
            report.materialized = report.materialized + 1;
        },
        MaterializeOutcome::AlreadyExists => {
            report.skipped_existing = report.skipped_existing + 1;
        },
        MaterializeOutcome::Failed(e) => {
            let mut m: Vec<char> = Vec::new();
            push_str(&mut m, work.kind.as_str());
            push_str(&mut m, ":");
            push_str(&mut m, work.from.as_str());
            push_str(&mut m, "->");
            push_str(&mut m, work.to.as_str());
            push_str(&mut m, ": ");
            push_str(&mut m, e.as_str());
            let ghost before = report.errors@;
            report.errors.push(string_of(m.as_slice()));
            assert(report.errors@.drop_last() =~= before);
        },
    }
}

} // verus!
