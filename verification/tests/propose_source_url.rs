use pipeline::propose_source_url::{
    build_prompt, interpret_proposed_url, priority_tier_to_str, render_prior_attempts,
    render_target_kinds_needed, FetchOutcomeClass, PriorAttempt, ProposalError, ProposalOutcome,
    ProposedUrl, LLM_PROMPT_BODY_MAX_BYTES,
};
use pipeline::research::{
    DocumentSourceNomination, GeoScope, PriorityTier, RecordExpectations, ResearchPlan,
};

fn sample_plan() -> ResearchPlan {
    ResearchPlan {
        id: "0190f2c4-8a6b-7c3d-9e1f-2a3b4c5d6e7f".into(),
        topic: "lithium supply chain".into(),
        interpretation: "Lithium supply chain — global production, reserves, and refining capacity.".into(),
        topic_tags: vec!["lithium".into()],
        geographic_scope: vec![GeoScope { code: "AU".into(), display: "Australia".into() }],
        historical_window_days: 730,
        expectations: RecordExpectations {
            observation_metrics: vec![],
            event_types: vec![],
            entity_kinds: vec![],
            relation_kinds: vec![],
            document_sources: vec![],
        },
    }
}

fn sample_nomination() -> DocumentSourceNomination {
    DocumentSourceNomination {
        nomination_id: "0190f2c4-8a6b-7c3d-9e1f-000000000001".into(),
        description: "USGS Mineral Commodity Summaries — annual lithium chapter".into(),
        priority_tier: PriorityTier::AuthoritativePrimary,
    }
}

#[test]
fn propose_source_url_build_prompt_substitutes_all_placeholders() {
    let template = "\
        INTERPRETATION: {{PLAN_INTERPRETATION}}\n\
        TAGS:\n{{TOPIC_TAGS}}\n\
        SCOPE:\n{{GEOGRAPHIC_SCOPE}}\n\
        WINDOW: {{HISTORICAL_WINDOW}}\n\
        DESC: {{NOMINATION_DESCRIPTION}}\n\
        TIER: {{PRIORITY_TIER}}\n\
        PRIOR:\n{{PRIOR_ATTEMPTS}}\n\
    ";
    let plan = sample_plan();
    let nom = sample_nomination();
    let out = build_prompt(template, &plan, &nom, &[], &[]).unwrap();

    for ph in [
        "{{PLAN_INTERPRETATION}}",
        "{{TOPIC_TAGS}}",
        "{{GEOGRAPHIC_SCOPE}}",
        "{{HISTORICAL_WINDOW}}",
        "{{NOMINATION_DESCRIPTION}}",
        "{{PRIORITY_TIER}}",
        "{{PRIOR_ATTEMPTS}}",
    ] {
        assert!(!out.contains(ph), "placeholder {ph} not substituted");
    }
    assert!(out.contains("USGS"));
    assert!(out.contains("authoritative_primary"));
    assert!(out.contains("730 days"));
    assert!(out.contains("first attempt"));
}

#[test]
fn render_prior_attempts_empty_signals_first_attempt() {
    let s = render_prior_attempts(&[]);
    assert!(s.contains("first attempt"));
}

#[test]
fn render_prior_attempts_non_empty_lists_url_and_reason() {
    let s = render_prior_attempts(&[
        PriorAttempt {
            url: "https://www.fao.org/fishery/en/topic/166235".into(),
            class: FetchOutcomeClass::UrlShapeMismatch,
            reason: "recipe author declined: JS-rendered SPA".into(),
        },
        PriorAttempt {
            url: "https://www.fao.org/topic/sustainable-fisheries".into(),
            class: FetchOutcomeClass::UrlShapeMismatch,
            reason: "fetch failed: 404".into(),
        },
    ]);
    assert!(s.contains("1."));
    assert!(s.contains("2."));
    assert!(s.contains("topic/166235"));
    assert!(s.contains("404"));
}

#[test]
fn render_prior_attempts_includes_class_label_on_its_own_line() {
    let s = render_prior_attempts(&[PriorAttempt {
        url: "https://www.example.com/auth-walled".into(),
        class: FetchOutcomeClass::HostRequiresAuth,
        reason: "fetch failed: 401".into(),
    }]);
    assert!(s.contains("Class: host_requires_auth"));
    assert!(s.contains("Reason: fetch failed: 401"));
    let class_idx = s.find("Class: ").unwrap();
    let reason_idx = s.find("Reason: ").unwrap();
    assert!(class_idx < reason_idx);
}

#[test]
fn render_target_kinds_needed_empty_yields_no_constraint_marker_sn101_lever3() {
    let s = render_target_kinds_needed(&[]);
    assert!(
        s.contains("no specific record-type focus"),
        "empty slice should produce the no-constraint marker; got: {s}"
    );
}

#[test]
fn render_target_kinds_needed_single_kind_lists_it_as_bullet_sn101_lever3() {
    let s = render_target_kinds_needed(&["observation_metric"]);
    assert!(s.contains("- `observation_metric`"));
    assert!(s.contains("still need URLs"));
}

#[test]
fn render_target_kinds_needed_dedupes_repeated_kinds_sn101_lever3() {
    let s = render_target_kinds_needed(&[
        "observation_metric",
        "observation_metric",
        "event_type",
    ]);
    let occ = s.matches("- `observation_metric`").count();
    assert_eq!(
        occ, 1,
        "repeated observation_metric kind should appear once after dedup"
    );
    assert!(s.contains("- `event_type`"));
}

#[test]
fn render_target_kinds_needed_preserves_insertion_order_sn101_lever3() {
    let s = render_target_kinds_needed(&["entity_kind", "observation_metric"]);
    let i_entity = s.find("- `entity_kind`").unwrap();
    let i_obs = s.find("- `observation_metric`").unwrap();
    assert!(
        i_entity < i_obs,
        "insertion order should be preserved in bullet list"
    );
}

#[test]
fn build_prompt_substitutes_target_kinds_needed_placeholder_sn101_lever3() {
    let template = "TARGET_KINDS: {{TARGET_KINDS_NEEDED}}\n\
                    PLAN: {{PLAN_INTERPRETATION}}\n\
                    TAGS: {{TOPIC_TAGS}}\n\
                    SCOPE: {{GEOGRAPHIC_SCOPE}}\n\
                    WINDOW: {{HISTORICAL_WINDOW}}\n\
                    DESC: {{NOMINATION_DESCRIPTION}}\n\
                    TIER: {{PRIORITY_TIER}}\n\
                    PRIOR: {{PRIOR_ATTEMPTS}}";
    let plan = sample_plan();
    let nom = sample_nomination();
    let empty = build_prompt(template, &plan, &nom, &[], &[]).unwrap();
    assert!(empty.contains("no specific record-type focus"));
    let with_kinds =
        build_prompt(template, &plan, &nom, &[], &["event_type", "entity_kind"]).unwrap();
    assert!(with_kinds.contains("- `event_type`"));
    assert!(with_kinds.contains("- `entity_kind`"));
    assert!(with_kinds.contains("still need URLs"));
}

#[test]
fn render_prior_attempts_emits_distinct_class_labels_per_variant() {
    let cases = [
        FetchOutcomeClass::HostUnreachable,
        FetchOutcomeClass::HostBlockedByWaf,
        FetchOutcomeClass::HostRequiresAuth,
        FetchOutcomeClass::HostRequiresUaPolicy,
        FetchOutcomeClass::UrlShapeMismatch,
        FetchOutcomeClass::RateLimited,
    ];
    for class in cases {
        let s = render_prior_attempts(&[PriorAttempt {
            url: "https://example.test/".into(),
            class,
            reason: "synthetic test row".into(),
        }]);
        assert!(
            s.contains(&format!("Class: {}", class.label())),
            "class {:?} did not render its label",
            class
        );
    }
}

#[test]
fn interpret_proposed_url_empty_string_is_decline() {
    let out = ProposedUrl {
        url: "".into(),
        rationale: "exhausted FAO endpoints I know".into(),
    };
    match interpret_proposed_url(out, Ok(())).unwrap() {
        ProposalOutcome::Declined { reason } => {
            assert!(reason.contains("FAO"));
        }
        _ => panic!("empty url must produce Declined"),
    }
}

#[test]
fn interpret_proposed_url_whitespace_is_decline() {
    let out = ProposedUrl {
        url: "   ".into(),
        rationale: "nothing else".into(),
    };
    assert!(matches!(
        interpret_proposed_url(out, Ok(())).unwrap(),
        ProposalOutcome::Declined { .. }
    ));
}

#[test]
fn interpret_proposed_url_decline_without_reason_gets_default() {
    let out = ProposedUrl {
        url: "".into(),
        rationale: "".into(),
    };
    match interpret_proposed_url(out, Ok(())).unwrap() {
        ProposalOutcome::Declined { reason } => {
            assert!(reason.contains("without a reason"));
        }
        _ => panic!("empty url must produce Declined"),
    }
}

#[test]
fn interpret_proposed_url_valid_https_passes() {
    let out = ProposedUrl {
        url: "https://pubs.usgs.gov/periodicals/mcs2024/mcs2024-lithium.pdf".into(),
        rationale: "USGS lithium chapter PDF".into(),
    };
    match interpret_proposed_url(out, Ok(())).unwrap() {
        ProposalOutcome::Url { url, .. } => {
            assert!(url.starts_with("https://"));
            assert!(url.contains("pubs.usgs.gov"));
        }
        _ => panic!("expected Url"),
    }
}

#[test]
fn priority_tier_to_str_covers_all_variants() {
    assert_eq!(
        priority_tier_to_str(PriorityTier::AuthoritativePrimary),
        "authoritative_primary"
    );
    assert_eq!(
        priority_tier_to_str(PriorityTier::AuthoritativeSecondary),
        "authoritative_secondary"
    );
    assert_eq!(
        priority_tier_to_str(PriorityTier::IndustryTradePress),
        "industry_trade_press"
    );
    assert_eq!(
        priority_tier_to_str(PriorityTier::GeneralNews),
        "general_news"
    );
}

#[test]
fn build_prompt_handles_empty_topic_tags_and_scope() {
    let template = "TAGS: {{TOPIC_TAGS}}\nSCOPE: {{GEOGRAPHIC_SCOPE}}\n";
    let mut plan = sample_plan();
    plan.topic_tags = vec![];
    plan.geographic_scope = vec![];
    let nom = sample_nomination();
    let out = build_prompt(template, &plan, &nom, &[], &[]).unwrap();
    assert!(out.contains("(none)"));
    assert!(out.contains("global"));
}


#[test]
fn build_prompt_renders_each_section_exactly() {
    let plan = sample_plan();
    let nom = sample_nomination();
    let out = build_prompt(
        "{{TOPIC_TAGS}}|{{GEOGRAPHIC_SCOPE}}|{{HISTORICAL_WINDOW}}|{{PRIORITY_TIER}}|{{PLAN_INTERPRETATION}}",
        &plan,
        &nom,
        &[],
        &[],
    )
    .unwrap();
    assert_eq!(
        out,
        "- `lithium`|- `AU` (Australia)|730 days|authoritative_primary|Lithium supply chain — global production, reserves, and refining capacity."
    );
}

#[test]
fn build_prompt_geo_scope_without_display_and_repeated_placeholders() {
    let mut plan = sample_plan();
    plan.geographic_scope = vec![
        GeoScope { code: "CL".into(), display: String::new() },
        GeoScope { code: "AR".into(), display: "Argentina".into() },
    ];
    plan.topic_tags = vec!["a".into(), "b".into()];
    let out = build_prompt("{{GEOGRAPHIC_SCOPE}}/{{TOPIC_TAGS}}/{{TOPIC_TAGS}}", &plan, &sample_nomination(), &[], &[])
        .unwrap();
    assert_eq!(out, "- `CL`\n- `AR` (Argentina)/- `a`\n- `b`/- `a`\n- `b`");
}

#[test]
fn build_prompt_rejects_oversized_prompt() {
    let mut nom = sample_nomination();
    nom.description = "d".repeat(LLM_PROMPT_BODY_MAX_BYTES + 1);
    let err = build_prompt("{{NOMINATION_DESCRIPTION}}", &sample_plan(), &nom, &[], &[]).unwrap_err();
    assert_eq!(
        err,
        ProposalError::Prompt(format!(
            "propose_source_url prompt body: length {} exceeds bound {}",
            LLM_PROMPT_BODY_MAX_BYTES + 1,
            LLM_PROMPT_BODY_MAX_BYTES
        ))
    );
    assert!(err.message().starts_with("prompt construction failed: "));
}

#[test]
fn render_prior_attempts_exact_lines() {
    let s = render_prior_attempts(&[
        PriorAttempt { url: "https://a.test/".into(), class: FetchOutcomeClass::RateLimited, reason: "429".into() },
        PriorAttempt {
            url: "https://b.test/".into(),
            class: FetchOutcomeClass::IndexPageDetected,
            reason: "listing".into(),
        },
    ]);
    assert_eq!(
        s,
        "1. URL: `https://a.test/`\n   Class: rate_limited\n   Reason: 429\n2. URL: `https://b.test/`\n   Class: index_page_detected\n   Reason: listing"
    );
}

#[test]
fn render_target_kinds_needed_exact_text() {
    let s = render_target_kinds_needed(&["event_type", "event_type"]);
    assert!(s.starts_with(
        "The following record-type bucket(s) still need URLs after prior attempts on this nomination:\n- `event_type`\n\nBias your next URL"
    ));
    assert_eq!(s.matches("- `").count(), 1);
}

#[test]
fn interpret_proposed_url_trims_and_reports_guard_rejection() {
    let out = ProposedUrl { url: "  file:///etc/passwd ".into(), rationale: "x".into() };
    assert_eq!(
        interpret_proposed_url(out, Err("scheme not allowed".into())),
        Err(ProposalError::BadUrl("scheme not allowed".into()))
    );
    let out = ProposedUrl { url: "  ".into(), rationale: "  nothing left  ".into() };
    assert_eq!(
        interpret_proposed_url(out, Err("ignored".into())),
        Ok(ProposalOutcome::Declined { reason: "nothing left".into() })
    );
    let out = ProposedUrl { url: " https://example.com ".into(), rationale: "r".into() };
    assert_eq!(
        interpret_proposed_url(out, Ok(())),
        Ok(ProposalOutcome::Url { url: "https://example.com/".into(), rationale: "r".into() })
    );
}

#[test]
fn interpret_proposed_url_reports_unparseable_urls() {
    let out = ProposedUrl { url: "not a url".into(), rationale: "r".into() };
    match interpret_proposed_url(out, Ok(())) {
        Err(ProposalError::BadUrl(m)) => {
            assert!(m.starts_with("guard accepted but url::Url::parse rejected: "), "got {m}")
        }
        other => panic!("got {other:?}"),
    }
}

#[test]
fn fetch_outcome_class_labels() {
    assert_eq!(FetchOutcomeClass::HostUnreachable.label(), "host_unreachable");
    assert_eq!(FetchOutcomeClass::HostBlockedByWaf.label(), "host_blocked_by_waf");
    assert_eq!(FetchOutcomeClass::HostRequiresUaPolicy.label(), "host_requires_ua_policy");
    assert_eq!(FetchOutcomeClass::UrlShapeMismatch.label(), "url_shape_mismatch");
}
