//! The propose-URL step: the prompt that asks for the next candidate URL
//! of a nominated source, rendered from the plan, the nomination and the
//! attempts so far, and the interpretation of the model's answer.

use vstd::prelude::*;
use vstd::utf8::encode_utf8;
use crate::parsers::{parse_url, url_parse};
use crate::research::{DocumentSourceNomination, GeoScope, PriorityTier, ResearchPlan};
use crate::strings::{chars_of, string_of};
use crate::text::{
    check_length_bound, decimal, join_lines, length_bound_message, push_decimal, push_str, replace_all,
    replace_chars, str_eq, trim, trim_chars,
};

verus! {

// ---------------------------------------------------------------------------
// Types
// ---------------------------------------------------------------------------

/// Closed-vocabulary class of what went wrong with a fetch attempt.
#[derive(Debug, Clone, Copy, PartialEq, Eq, Structural)]
pub enum FetchOutcomeClass {
    HostUnreachable,
    HostBlockedByWaf,
    HostRequiresAuth,
    HostRequiresUaPolicy,
    UrlShapeMismatch,
    RateLimited,
    IndexPageDetected,
}

/// The snake-case label of a fetch outcome class.
pub open spec fn spec_class_label(c: FetchOutcomeClass) -> Seq<char> {
    match c {
        FetchOutcomeClass::HostUnreachable => "host_unreachable"@,
        FetchOutcomeClass::HostBlockedByWaf => "host_blocked_by_waf"@,
        FetchOutcomeClass::HostRequiresAuth => "host_requires_auth"@,
        FetchOutcomeClass::HostRequiresUaPolicy => "host_requires_ua_policy"@,
        FetchOutcomeClass::UrlShapeMismatch => "url_shape_mismatch"@,
        FetchOutcomeClass::RateLimited => "rate_limited"@,
        FetchOutcomeClass::IndexPageDetected => "index_page_detected"@,
    }
}

impl FetchOutcomeClass {
    /// The closed-vocabulary label the propose-URL prompt routes on.
    pub fn label(&self) -> (r: &'static str)
        ensures
            r@ == spec_class_label(*self),
    {
        match self {
            FetchOutcomeClass::HostUnreachable => "host_unreachable",
            FetchOutcomeClass::HostBlockedByWaf => "host_blocked_by_waf",
            FetchOutcomeClass::HostRequiresAuth => "host_requires_auth",
            FetchOutcomeClass::HostRequiresUaPolicy => "host_requires_ua_policy",
            FetchOutcomeClass::UrlShapeMismatch => "url_shape_mismatch",
            FetchOutcomeClass::RateLimited => "rate_limited",
            FetchOutcomeClass::IndexPageDetected => "index_page_detected",
        }
    }
}

/// One prior attempt against a nomination.
#[derive(Debug, Clone, PartialEq, Eq)]
pub struct PriorAttempt {
    pub url: String,
    pub class: FetchOutcomeClass,
    pub reason: String,
}

/// What the model returns from one propose-URL call; an empty `url`
/// declines.
#[derive(Debug, Clone, PartialEq, Eq)]
pub struct ProposedUrl {
    pub url: String,
    pub rationale: String,
}

/// Outcome of one proposal.
#[derive(Debug, Clone, PartialEq, Eq)]
pub enum ProposalOutcome {
    /// A URL, in its parsed serialization, with the model's rationale.
    Url { url: String, rationale: String },
    /// The model declined, with its reason.
    Declined { reason: String },
}

/// Errors of the propose-URL step.
#[derive(Debug, Clone, PartialEq, Eq)]
pub enum ProposalError {
    NoStructuredOutput,
    OutputParse(String),
    BadUrl(String),
    Prompt(String),
}

/// The text a proposal error displays.
pub open spec fn spec_proposal_error_message(e: ProposalError) -> Seq<char> {
    match e {
        ProposalError::NoStructuredOutput => "llm returned no structured output (schema ignored?)"@,
        ProposalError::OutputParse(m) => "llm output failed to deserialize: "@ + m@,
        ProposalError::BadUrl(m) => "proposed url rejected: "@ + m@,
        ProposalError::Prompt(m) => "prompt construction failed: "@ + m@,
    }
}

impl ProposalError {
    /// The human-readable rendering of the error.
    pub fn message(&self) -> (r: String)
        ensures
            r@ == spec_proposal_error_message(*self),
    {
        let mut out: Vec<char> = Vec::new();
        match self {
            ProposalError::NoStructuredOutput => {
                push_str(&mut out, "llm returned no structured output (schema ignored?)");
            },
            ProposalError::OutputParse(m) => {
                push_str(&mut out, "llm output failed to deserialize: ");
                push_str(&mut out, m.as_str());
            },
            ProposalError::BadUrl(m) => {
                push_str(&mut out, "proposed url rejected: ");
                push_str(&mut out, m.as_str());
            },
            ProposalError::Prompt(m) => {
                push_str(&mut out, "prompt construction failed: ");
                push_str(&mut out, m.as_str());
            },
        }
        string_of(out.as_slice())
    }
}

/// Upper bound, in bytes, of an assembled prompt.
pub const LLM_PROMPT_BODY_MAX_BYTES: usize = 262144;

// ---------------------------------------------------------------------------
// Renderings
// ---------------------------------------------------------------------------

/// The snake-case name of a priority tier.
pub open spec fn spec_priority_tier_to_str(t: PriorityTier) -> Seq<char> {
    match t {
        PriorityTier::AuthoritativePrimary => "authoritative_primary"@,
        PriorityTier::AuthoritativeSecondary => "authoritative_secondary"@,
        PriorityTier::IndustryTradePress => "industry_trade_press"@,
        PriorityTier::GeneralNews => "general_news"@,
    }
}

/// Render a priority tier by its snake-case name.
pub fn priority_tier_to_str(t: PriorityTier) -> (r: &'static str)
    ensures
        r@ == spec_priority_tier_to_str(t),
{
    match t {
        PriorityTier::AuthoritativePrimary => "authoritative_primary",
        PriorityTier::AuthoritativeSecondary => "authoritative_secondary",
        PriorityTier::IndustryTradePress => "industry_trade_press",
        PriorityTier::GeneralNews => "general_news",
    }
}

/// A bullet naming `x` in backquotes.
pub open spec fn bullet(x: Seq<char>) -> Seq<char> {
    "- `"@ + x + "`"@
}

/// The kinds in order of first occurrence, each once.
pub open spec fn dedup(s: Seq<Seq<char>>) -> Seq<Seq<char>>
    decreases s.len(),
{
    if s.len() == 0 {
        s
    } else if dedup(s.drop_last()).contains(s.last()) {
        dedup(s.drop_last())
    } else {
        dedup(s.drop_last()).push(s.last())
    }
}

/// The views of a slice of string slices.
pub open spec fn strs_view(kinds: Seq<&str>) -> Seq<Seq<char>> {
    Seq::new(kinds.len(), |i: int| kinds[i]@)
}

/// The `{{TARGET_KINDS_NEEDED}}` section: a no-constraint marker for no
/// kinds, otherwise the distinct kinds as bullets in first-seen order
/// inside fixed guidance prose.
pub open spec fn spec_render_target_kinds_needed(kinds: Seq<Seq<char>>) -> Seq<char> {
    if kinds.len() == 0 {
        "(no specific record-type focus; propose any URL that satisfies the nomination's description)"@
    } else {
        "The following record-type bucket(s) still need URLs after prior attempts on this nomination:\n"@
            + join_lines(dedup(kinds).map_values(|k: Seq<char>| bullet(k)))
            + "\n\nBias your next URL toward an endpoint shape that the structural-patterns section above names as a typical fit for these kinds. A URL that serves multiple still-unfilled kinds in one fetch is fine; one that serves none of them is a poor use of this attempt."@
    }
}

fn contains_str(seen: &Vec<&str>, k: &str) -> (r: bool)
    ensures
        r == strs_view(seen@).contains(k@),
{
    let ghost sv = strs_view(seen@);
    let mut i: usize = 0;
    while i < seen.len()
        invariant
            i <= seen.len(),
            sv == strs_view(seen@),
            forall|j: int| 0 <= j < i ==> sv[j] != k@,
        decreases seen.len() - i,
    {
        if str_eq(seen[i], k) {
            assert(sv[i as int] == k@);
            return true;
        }
        i += 1;
    }
    false
}

fn push_bullets(out: &mut Vec<char>, items: &Vec<&str>)
    ensures
        final(out)@ == old(out)@ + join_lines(strs_view(items@).map_values(|k: Seq<char>| bullet(k))),
{
    let ghost lines = strs_view(items@).map_values(|k: Seq<char>| bullet(k));
    let mut i: usize = 0;
    assert(lines.take(0) =~= Seq::<Seq<char>>::empty());
    while i < items.len()
        invariant
            i <= items.len(),
            lines == strs_view(items@).map_values(|k: Seq<char>| bullet(k)),
            out@ == old(out)@ + join_lines(lines.take(i as int)),
        decreases items.len() - i,
    {
        let ghost before = out@;
        if i > 0 {
            push_str(out, "\n");
        }
        push_str(out, "- `");
        push_str(out, items[i]);
        push_str(out, "`");
        proof {
            let t = lines.take(i + 1);
            assert(t.drop_last() =~= lines.take(i as int));
            assert(t.last() == bullet(items@[i as int]@));
            assert(out@ =~= old(out)@ + join_lines(t));
        }
        i += 1;
    }
    assert(lines.take(items.len() as int) =~= lines);
}

/// Law: the bucket list names every requested kind exactly once, and
/// nothing else.
pub proof fn law_target_kinds_listed_once(kinds: Seq<Seq<char>>)
    ensures
        forall|i: int, j: int| 0 <= i < j < dedup(kinds).len() ==> dedup(kinds)[i] != dedup(kinds)[j],
        forall|k: Seq<char>| #[trigger] dedup(kinds).contains(k) <==> kinds.contains(k),
    decreases kinds.len(),
{
    if kinds.len() > 0 {
        let init = kinds.drop_last();
        law_target_kinds_listed_once(init);
        let d = dedup(init);
        let last = kinds.last();
        assert forall|k: Seq<char>| #[trigger] dedup(kinds).contains(k) <==> kinds.contains(k) by {
            if kinds.contains(k) {
                let w = choose|w: int| 0 <= w < kinds.len() && kinds[w] == k;
                if w < kinds.len() - 1 {
                    assert(init[w] == k);
                    assert(init.contains(k));
                    assert(d.contains(k));
                    let v = choose|v: int| 0 <= v < d.len() && d[v] == k;
                    if !d.contains(last) {
                        assert(d.push(last)[v] == k);
                    }
                } else if !d.contains(last) {
                    assert(d.push(last)[d.len() as int] == k);
                }
            }
            if dedup(kinds).contains(k) {
                let w = choose|w: int| 0 <= w < dedup(kinds).len() && dedup(kinds)[w] == k;
                if d.contains(k) {
                    assert(init.contains(k));
                    let v = choose|v: int| 0 <= v < init.len() && init[v] == k;
                    assert(kinds[v] == k);
                } else {
                    assert(w == d.len());
                    assert(kinds[kinds.len() - 1] == k);
                }
            }
        }
        if !d.contains(last) {
            assert forall|i: int, j: int| 0 <= i < j < d.push(last).len() implies d.push(last)[i] != d.push(
                last,
            )[j] by {
                if j == d.len() {
                    assert(d[i] != last);
                }
            }
        }
    }
}

/// Law: the buckets keep the order in which kinds were first requested:
/// what is listed before `x` was requested first before `x` was.
pub proof fn law_target_kinds_keep_first_seen_order(kinds: Seq<Seq<char>>, k: int)
    requires
        0 <= k <= kinds.len(),
    ensures
        dedup(kinds.take(k)).len() <= dedup(kinds).len(),
        dedup(kinds).take(dedup(kinds.take(k)).len() as int) == dedup(kinds.take(k)),
    decreases kinds.len() - k,
{
    if k < kinds.len() {
        law_target_kinds_keep_first_seen_order(kinds, k + 1);
        let t = kinds.take(k + 1);
        assert(t.drop_last() =~= kinds.take(k));
        let a = dedup(kinds.take(k));
        let b = dedup(t);
        assert(b.take(a.len() as int) =~= a);
        assert(dedup(kinds).take(b.len() as int).take(a.len() as int) =~= dedup(kinds).take(a.len() as int));
    } else {
        assert(kinds.take(k) =~= kinds);
        assert(dedup(kinds).take(dedup(kinds).len() as int) =~= dedup(kinds));
    }
}

/// Render the still-unfilled record-type buckets for the prompt.
pub fn render_target_kinds_needed(kinds: &[&str]) -> (r: String)
    ensures
        r@ == spec_render_target_kinds_needed(strs_view(kinds@)),
{
    if kinds.len() == 0 {
        return "(no specific record-type focus; propose any URL that satisfies the nomination's description)".to_string();
    }
    let ghost kv = strs_view(kinds@);
    let mut seen: Vec<&str> = Vec::new();
    let mut i: usize = 0;
    assert(kv.take(0) =~= Seq::<Seq<char>>::empty());
    assert(strs_view(seen@) =~= Seq::<Seq<char>>::empty());
    while i < kinds.len()
        invariant
            i <= kinds.len(),
            kv == strs_view(kinds@),
            strs_view(seen@) == dedup(kv.take(i as int)),
        decreases kinds.len() - i,
    {
        let k = kinds[i];
        let ghost t = kv.take(i + 1);
        assert(t.drop_last() =~= kv.take(i as int));
        assert(t.last() == k@);
        if !contains_str(&seen, k) {
            let ghost before = strs_view(seen@);
            seen.push(k);
            assert(strs_view(seen@) =~= before.push(k@));
        }
        i += 1;
    }
    assert(kv.take(kinds.len() as int) =~= kv);
    let mut out: Vec<char> = Vec::new();
    push_str(&mut out, "The following record-type bucket(s) still need URLs after prior attempts on this nomination:\n");
    push_bullets(&mut out, &seen);
    push_str(&mut out, "\n\nBias your next URL toward an endpoint shape that the structural-patterns section above names as a typical fit for these kinds. A URL that serves multiple still-unfilled kinds in one fetch is fine; one that serves none of them is a poor use of this attempt.");
    string_of(out.as_slice())
}

/// The line of the `i`-th prior attempt.
pub open spec fn attempt_line(i: int, a: PriorAttempt) -> Seq<char> {
    decimal((i + 1) as nat) + ". URL: `"@ + a.url@ + "`\n   Class: "@ + spec_class_label(a.class) + "\n   Reason: "@
        + a.reason@
}

/// The `{{PRIOR_ATTEMPTS}}` section: a first-attempt marker, or one
/// numbered entry per attempt.
pub open spec fn spec_render_prior_attempts(attempts: Seq<PriorAttempt>) -> Seq<char> {
    if attempts.len() == 0 {
        "(none — this is the first attempt)"@
    } else {
        join_lines(Seq::new(attempts.len(), |i: int| attempt_line(i, attempts[i])))
    }
}

/// Render the attempts made so far against a nomination.
pub fn render_prior_attempts(attempts: &[PriorAttempt]) -> (r: String)
    ensures
        r@ == spec_render_prior_attempts(attempts@),
{
    if attempts.len() == 0 {
        return "(none — this is the first attempt)".to_string();
    }
    let ghost lines = Seq::new(attempts@.len(), |i: int| attempt_line(i, attempts@[i]));
    let mut out: Vec<char> = Vec::new();
    let mut i: usize = 0;
    assert(lines.take(0) =~= Seq::<Seq<char>>::empty());
    while i < attempts.len()
        invariant
            i <= attempts.len(),
            lines == Seq::new(attempts@.len(), |i: int| attempt_line(i, attempts@[i])),
            out@ == join_lines(lines.take(i as int)),
        decreases attempts.len() - i,
    {
        if i > 0 {
            push_str(&mut out, "\n");
        }
        let a = &attempts[i];
        push_decimal(&mut out, i as u64 + 1);
        push_str(&mut out, ". URL: `");
        push_str(&mut out, a.url.as_str());
        push_str(&mut out, "`\n   Class: ");
        push_str(&mut out, a.class.label());
        push_str(&mut out, "\n   Reason: ");
        push_str(&mut out, a.reason.as_str());
        proof {
            let t = lines.take(i + 1);
            assert(t.drop_last() =~= lines.take(i as int));
            assert(t.last() == attempt_line(i as int, attempts@[i as int]));
            assert(out@ =~= join_lines(t));
        }
        i += 1;
    }
    assert(lines.take(attempts.len() as int) =~= lines);
    string_of(out.as_slice())
}

/// The `{{TOPIC_TAGS}}` section.
pub open spec fn spec_topic_tags(tags: Seq<Seq<char>>) -> Seq<char> {
    if tags.len() == 0 {
        "(none)"@
    } else {
        join_lines(tags.map_values(|t: Seq<char>| bullet(t)))
    }
}

/// One geographic scope entry: `- `CODE`` or `- `CODE` (DISPLAY)`.
pub open spec fn geo_line(g: GeoScope) -> Seq<char> {
    if g.display@.len() == 0 {
        bullet(g.code@)
    } else {
        bullet(g.code@) + " ("@ + g.display@ + ")"@
    }
}

/// The `{{GEOGRAPHIC_SCOPE}}` section.
pub open spec fn spec_geo_scope(scope: Seq<GeoScope>) -> Seq<char> {
    if scope.len() == 0 {
        "(global / no specific scope)"@
    } else {
        join_lines(scope.map_values(|g: GeoScope| geo_line(g)))
    }
}

fn render_topic_tags(tags: &Vec<String>) -> (r: Vec<char>)
    ensures
        r@ == spec_topic_tags(tags.deep_view()),
{
    let mut out: Vec<char> = Vec::new();
    if tags.len() == 0 {
        push_str(&mut out, "(none)");
        return out;
    }
    let ghost lines = tags.deep_view().map_values(|t: Seq<char>| bullet(t));
    let mut i: usize = 0;
    assert(lines.take(0) =~= Seq::<Seq<char>>::empty());
    assert(out@ =~= Seq::<char>::empty());
    while i < tags.len()
        invariant
            i <= tags.len(),
            lines == tags.deep_view().map_values(|t: Seq<char>| bullet(t)),
            out@ == join_lines(lines.take(i as int)),
        decreases tags.len() - i,
    {
        if i > 0 {
            push_str(&mut out, "\n");
        }
        push_str(&mut out, "- `");
        push_str(&mut out, tags[i].as_str());
        push_str(&mut out, "`");
        proof {
            let t = lines.take(i + 1);
            assert(t.drop_last() =~= lines.take(i as int));
            assert(t.last() == bullet(tags@[i as int]@));
            assert(out@ =~= join_lines(t));
        }
        i += 1;
    }
    assert(lines.take(tags.len() as int) =~= lines);
    out
}

fn render_geo_scope(scope: &Vec<GeoScope>) -> (r: Vec<char>)
    ensures
        r@ == spec_geo_scope(scope@),
{
    let mut out: Vec<char> = Vec::new();
    if scope.len() == 0 {
        push_str(&mut out, "(global / no specific scope)");
        return out;
    }
    let ghost lines = scope@.map_values(|g: GeoScope| geo_line(g));
    let mut i: usize = 0;
    assert(lines.take(0) =~= Seq::<Seq<char>>::empty());
    assert(out@ =~= Seq::<char>::empty());
    while i < scope.len()
        invariant
            i <= scope.len(),
            lines == scope@.map_values(|g: GeoScope| geo_line(g)),
            out@ == join_lines(lines.take(i as int)),
        decreases scope.len() - i,
    {
        if i > 0 {
            push_str(&mut out, "\n");
        }
        let g = &scope[i];
        push_str(&mut out, "- `");
        push_str(&mut out, g.code.as_str());
        push_str(&mut out, "`");
        if !g.display.as_str().is_empty() {
            push_str(&mut out, " (");
            push_str(&mut out, g.display.as_str());
            push_str(&mut out, ")");
        }
        proof {
            let t = lines.take(i + 1);
            assert(t.drop_last() =~= lines.take(i as int));
            assert(t.last() == geo_line(scope@[i as int]));
            assert(out@ =~= join_lines(t));
        }
        i += 1;
    }
    assert(lines.take(scope.len() as int) =~= lines);
    out
}

// ---------------------------------------------------------------------------
// The prompt
// ---------------------------------------------------------------------------

/// The template with each placeholder replaced, in order.
pub open spec fn spec_propose_prompt(
    template: Seq<char>,
    plan: ResearchPlan,
    nomination: DocumentSourceNomination,
    prior_attempts: Seq<PriorAttempt>,
    kinds: Seq<Seq<char>>,
) -> Seq<char> {
    let s1 = replace_all(template, "{{PLAN_INTERPRETATION}}"@, plan.interpretation@);
    let s2 = replace_all(s1, "{{TOPIC_TAGS}}"@, spec_topic_tags(plan.topic_tags.deep_view()));
    let s3 = replace_all(s2, "{{GEOGRAPHIC_SCOPE}}"@, spec_geo_scope(plan.geographic_scope@));
    let s4 = replace_all(s3, "{{HISTORICAL_WINDOW}}"@, decimal(plan.historical_window_days as nat) + " days"@);
    let s5 = replace_all(s4, "{{NOMINATION_DESCRIPTION}}"@, nomination.description@);
    let s6 = replace_all(s5, "{{PRIORITY_TIER}}"@, spec_priority_tier_to_str(nomination.priority_tier));
    let s7 = replace_all(s6, "{{PRIOR_ATTEMPTS}}"@, spec_render_prior_attempts(prior_attempts));
    replace_all(s7, "{{TARGET_KINDS_NEEDED}}"@, spec_render_target_kinds_needed(kinds))
}

/// Law: a template that holds none of the placeholders is the prompt
/// itself.
pub proof fn law_template_without_placeholders_is_kept(
    template: Seq<char>,
    plan: ResearchPlan,
    nomination: DocumentSourceNomination,
    prior_attempts: Seq<PriorAttempt>,
    kinds: Seq<Seq<char>>,
)
    requires
        forall|j: int| !crate::text::occurs_in_at(template, j, "{{PLAN_INTERPRETATION}}"@),
        forall|j: int| !crate::text::occurs_in_at(template, j, "{{TOPIC_TAGS}}"@),
        forall|j: int| !crate::text::occurs_in_at(template, j, "{{GEOGRAPHIC_SCOPE}}"@),
        forall|j: int| !crate::text::occurs_in_at(template, j, "{{HISTORICAL_WINDOW}}"@),
        forall|j: int| !crate::text::occurs_in_at(template, j, "{{NOMINATION_DESCRIPTION}}"@),
        forall|j: int| !crate::text::occurs_in_at(template, j, "{{PRIORITY_TIER}}"@),
        forall|j: int| !crate::text::occurs_in_at(template, j, "{{PRIOR_ATTEMPTS}}"@),
        forall|j: int| !crate::text::occurs_in_at(template, j, "{{TARGET_KINDS_NEEDED}}"@),
    ensures
        spec_propose_prompt(template, plan, nomination, prior_attempts, kinds) == template,
{
    crate::text::law_replace_absent_is_identity(template, "{{PLAN_INTERPRETATION}}"@, plan.interpretation@);
    crate::text::law_replace_absent_is_identity(
        template,
        "{{TOPIC_TAGS}}"@,
        spec_topic_tags(plan.topic_tags.deep_view()),
    );
    crate::text::law_replace_absent_is_identity(
        template,
        "{{GEOGRAPHIC_SCOPE}}"@,
        spec_geo_scope(plan.geographic_scope@),
    );
    crate::text::law_replace_absent_is_identity(
        template,
        "{{HISTORICAL_WINDOW}}"@,
        decimal(plan.historical_window_days as nat) + " days"@,
    );
    crate::text::law_replace_absent_is_identity(
        template,
        "{{NOMINATION_DESCRIPTION}}"@,
        nomination.description@,
    );
    crate::text::law_replace_absent_is_identity(
        template,
        "{{PRIORITY_TIER}}"@,
        spec_priority_tier_to_str(nomination.priority_tier),
    );
    crate::text::law_replace_absent_is_identity(
        template,
        "{{PRIOR_ATTEMPTS}}"@,
        spec_render_prior_attempts(prior_attempts),
    );
    crate::text::law_replace_absent_is_identity(
        template,
        "{{TARGET_KINDS_NEEDED}}"@,
        spec_render_target_kinds_needed(kinds),
    );
}

fn replace_str(s: Vec<char>, pat: &str, rep: &[char]) -> (r: Vec<char>)
    ensures
        r@ == replace_all(s@, pat@, rep@),
{
    let p = chars_of(pat);
    replace_chars(s.as_slice(), p.as_slice(), rep)
}

/// Substitute the propose-URL template's placeholders. Fails with
/// `Prompt` when the result exceeds `LLM_PROMPT_BODY_MAX_BYTES`.
pub fn build_prompt(
    template: &str,
    plan: &ResearchPlan,
    nomination: &DocumentSourceNomination,
    prior_attempts: &[PriorAttempt],
    target_kinds_needed: &[&str],
) -> (r: Result<String, ProposalError>)
    ensures
        ({
            let p = spec_propose_prompt(
                template@,
                *plan,
                *nomination,
                prior_attempts@,
                strs_view(target_kinds_needed@),
            );
            if encode_utf8(p).len() <= LLM_PROMPT_BODY_MAX_BYTES {
                r matches Ok(s) && s@ == p
            } else {
                r matches Err(ProposalError::Prompt(m)) && m@ == length_bound_message(
                    "propose_source_url prompt body"@,
                    encode_utf8(p).len(),
                    LLM_PROMPT_BODY_MAX_BYTES as nat,
                )
            }
        }),
{
    let interpretation = chars_of(plan.interpretation.as_str());
    let tags = render_topic_tags(&plan.topic_tags);
    let geo = render_geo_scope(&plan.geographic_scope);
    let mut window: Vec<char> = Vec::new();
    push_decimal(&mut window, plan.historical_window_days as u64);
    push_str(&mut window, " days");
    let description = chars_of(nomination.description.as_str());
    let tier = chars_of(priority_tier_to_str(nomination.priority_tier));
    let prior_text = render_prior_attempts(prior_attempts);
    let prior = chars_of(prior_text.as_str());
    let kinds_text = render_target_kinds_needed(target_kinds_needed);
    let kinds = chars_of(kinds_text.as_str());
    let t = chars_of(template);
    let s1 = replace_str(t, "{{PLAN_INTERPRETATION}}", interpretation.as_slice());
    let s2 = replace_str(s1, "{{TOPIC_TAGS}}", tags.as_slice());
    let s3 = replace_str(s2, "{{GEOGRAPHIC_SCOPE}}", geo.as_slice());
    let s4 = replace_str(s3, "{{HISTORICAL_WINDOW}}", window.as_slice());
    let s5 = replace_str(s4, "{{NOMINATION_DESCRIPTION}}", description.as_slice());
    let s6 = replace_str(s5, "{{PRIORITY_TIER}}", tier.as_slice());
    let s7 = replace_str(s6, "{{PRIOR_ATTEMPTS}}", prior.as_slice());
    let s8 = replace_str(s7, "{{TARGET_KINDS_NEEDED}}", kinds.as_slice());
    let out = string_of(s8.as_slice());
    match check_length_bound("propose_source_url prompt body", out.as_str(), LLM_PROMPT_BODY_MAX_BYTES) {
        Err(m) => {
            return Err(ProposalError::Prompt(m));
        },
        Ok(_) => {},
    }
    Ok(out)
}

// ---------------------------------------------------------------------------
// Interpretation of the answer
// ---------------------------------------------------------------------------

/// The outcome of interpreting a proposal: a blank URL declines with the
/// trimmed rationale (or a default reason); otherwise the URL guard's
/// verdict on the trimmed URL decides, then URL parsing.
pub open spec fn interpret_ok(
    output: ProposedUrl,
    url_guard: Result<(), Seq<char>>,
    r: Result<ProposalOutcome, ProposalError>,
) -> bool {
    let u = trim(output.url@);
    if u.len() == 0 {
        r matches Ok(ProposalOutcome::Declined { reason }) && reason@ == (if trim(output.rationale@).len() == 0 {
            "url proposer declined without a reason"@
        } else {
            trim(output.rationale@)
        })
    } else {
        match url_guard {
            Err(v) => r matches Err(ProposalError::BadUrl(m)) && m@ == v,
            Ok(_) => match url_parse(u) {
                Err(e) => r matches Err(ProposalError::BadUrl(m)) && m@ == "guard accepted but url::Url::parse rejected: "@
                    + e,
                Ok(parsed) => r matches Ok(ProposalOutcome::Url { url, rationale }) && url@ == parsed && rationale@
                    == output.rationale@,
            },
        }
    }
}

/// Interpret the model's proposal. `url_guard` is the URL guard's verdict
/// on the trimmed URL: accepted, or the violation's message.
pub fn interpret_proposed_url(output: ProposedUrl, url_guard: Result<(), String>) -> (r: Result<
    ProposalOutcome,
    ProposalError,
>)
    ensures
        interpret_ok(
            output,
            match url_guard {
                Ok(_) => Ok(()),
                Err(v) => Err(v@),
            },
            r,
        ),
{
    let url_chars = chars_of(output.url.as_str());
    let trimmed = trim_chars(url_chars.as_slice());
    if trimmed.len() == 0 {
        let rationale_chars = chars_of(output.rationale.as_str());
        let reason = trim_chars(rationale_chars.as_slice());
        if reason.len() == 0 {
            return Ok(ProposalOutcome::Declined { reason: "url proposer declined without a reason".to_string() });
        }
        return Ok(ProposalOutcome::Declined { reason: string_of(reason.as_slice()) });
    }
    match url_guard {
        Err(v) => {
            return Err(ProposalError::BadUrl(v));
        },
        Ok(_) => {},
    }
    let text = string_of(trimmed.as_slice());
    match parse_url(text.as_str()) {
        Err(e) => {
            let mut m: Vec<char> = Vec::new();
            push_str(&mut m, "guard accepted but url::Url::parse rejected: ");
            push_str(&mut m, e.as_str());
            Err(ProposalError::BadUrl(string_of(m.as_slice())))
        },
        Ok(url) => Ok(ProposalOutcome::Url { url, rationale: output.rationale }),
    }
}

} // verus!
