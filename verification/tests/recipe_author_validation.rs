use pipeline::recipe_author::{
    build_prompt, build_prompt_with_fence_id, build_validated_recipe, convert_binding,
    convert_expectation_ref, convert_extraction, convert_field_map, convert_row_filter,
    AuthoredExpectationRef, AuthoredExtractionSpec, AuthoredFieldMap, AuthoredFieldValueSource,
    AuthoredProductionBinding, AuthoredRecordType, AuthoredRowFilter, AuthoringContext,
    AuthoringError, RecipeAuthoringOutput, DECLINE_REASON_MAX_BYTES, LLM_PROMPT_BODY_MAX_BYTES,
    MAX_BINDINGS,
};
use pipeline::recipes::{
    ExpectationRef, ExtractionSpec, FetchRecipe, FieldValueSource, RecordType, RowFilter,
};
use pipeline::research::{
    GeoScope, RecordExpectations, RelationKindExpectation, ResearchPlan,
};

const PLAN_ID: &str = "0190f2c4-8a6b-7c3d-9e1f-2a3b4c5d6e7f";

const SCHEMA_BLOCK: &str = "{\n  \"observation\": {},\n  \"event\": {},\n  \"relation\": {}\n}";

fn sample_plan() -> ResearchPlan {
    ResearchPlan {
        id: PLAN_ID.into(),
        topic: "lithium production".into(),
        interpretation: "Research on global lithium production, reserves, and trade.".into(),
        topic_tags: vec!["Li".into()],
        geographic_scope: vec![
            GeoScope { code: "AU".into(), display: String::new() },
            GeoScope { code: "CL".into(), display: String::new() },
        ],
        historical_window_days: 730,
        expectations: RecordExpectations {
            observation_metrics: vec!["production".into(), "reserves".into()],
            event_types: vec!["mine_opened".into()],
            entity_kinds: vec!["mine".into()],
            relation_kinds: vec![RelationKindExpectation {
                kind: "operator_of".into(),
                exemplar_triples: vec![],
            }],
            document_sources: vec!["USGS Mineral Commodity Summaries".into()],
        },
    }
}

/// The plan's JSON as the caller renders it for the prompt.
fn plan_json(plan: &ResearchPlan) -> String {
    format!(
        "{{\n  \"id\": \"{}\",\n  \"topic\": \"{}\",\n  \"interpretation\": \"{}\"\n}}",
        plan.id, plan.topic, plan.interpretation
    )
}

fn sample_context() -> AuthoringContext {
    AuthoringContext {
        source_id: "usgs_mcs:2024:lithium".into(),
        sample_url: "https://pubs.usgs.gov/periodicals/mcs2024/mcs2024-lithium.pdf".into(),
        document_excerpt: "Lithium\n\nProduction: Australia 88,000 tonnes, Chile 49,000 tonnes.".into(),
        recipe_feedback: None,
        previous_failure_reason: None,
        operator_guidance: None,
    }
}

fn good_output() -> RecipeAuthoringOutput {
    RecipeAuthoringOutput {
        source_url: "https://pubs.usgs.gov/periodicals/mcs2024/mcs2024-lithium.pdf".into(),
        extraction: AuthoredExtractionSpec::PdfTable { page: 2, table_index: 0, row: 3, col: 1 },
        produces: vec![AuthoredProductionBinding {
            record_type: AuthoredRecordType::Observation,
            expectation: AuthoredExpectationRef::ObservationMetric { index: 0 },
            field_mappings: vec![
                AuthoredFieldMap { path: "value".into(), source: AuthoredFieldValueSource::Extracted },
                AuthoredFieldMap {
                    path: "unit".into(),
                    source: AuthoredFieldValueSource::Literal { value: "\"t\"".into() },
                },
                AuthoredFieldMap {
                    path: "metric".into(),
                    source: AuthoredFieldValueSource::FromPlan {
                        pointer: "expectations.observation_metrics.0.name".into(),
                    },
                },
            ],
        }],
        static_payload: String::new(),
        decline_reason: String::new(),
    }
}

/// Validate with the URL guard accepting the output's URL as given.
fn validate(out: RecipeAuthoringOutput, plan: &ResearchPlan) -> Result<FetchRecipe, AuthoringError> {
    let url = out.source_url.clone();
    build_validated_recipe(out, plan, "xai", Ok(url))
}

#[test]
fn build_validated_recipe_accepts_good_output() {
    let recipe = validate(good_output(), &sample_plan()).unwrap();
    assert_eq!(recipe.authored_by, "xai");
    assert_eq!(recipe.version, 1);
    assert_eq!(recipe.produces.len(), 1);
    assert!(matches!(
        recipe.extraction,
        ExtractionSpec::PdfTable { page: 2, .. }
    ));
    assert_eq!(recipe.id.chars().nth(14), Some('7'));
}

#[test]
fn build_validated_recipe_rejects_non_https_url() {
    let mut out = good_output();
    out.source_url = "file:///etc/passwd".into();
    // The URL guard refuses the file scheme; the recipe reports it.
    let verdict = Err("scheme \"file\" is not allowed".to_string());
    let err = build_validated_recipe(out, &sample_plan(), "xai", verdict).unwrap_err();
    assert!(matches!(err, AuthoringError::BadUrl(_)), "got {err:?}");
}

#[test]
fn build_validated_recipe_rejects_private_ip_url() {
    let mut out = good_output();
    out.source_url = "http://127.0.0.1/".into();
    // The URL guard refuses loopback hosts; the recipe reports it.
    let verdict = Err("host 127.0.0.1 is a private address".to_string());
    let err = build_validated_recipe(out, &sample_plan(), "xai", verdict).unwrap_err();
    assert!(matches!(err, AuthoringError::BadUrl(_)), "got {err:?}");
}

#[test]
fn build_validated_recipe_threads_plan_id() {
    let plan = sample_plan();
    let recipe = validate(good_output(), &plan).unwrap();
    assert_eq!(recipe.plan_id, plan.id);
}

#[test]
fn build_validated_recipe_treats_nonempty_decline_reason_as_declined() {
    let mut out = good_output();
    out.decline_reason = "this source is a JS-rendered SPA; the closed \
                          extraction vocabulary cannot address it"
        .into();
    let err = validate(out, &sample_plan()).unwrap_err();
    match err {
        AuthoringError::Declined { reason } => {
            assert!(
                reason.contains("JS-rendered SPA"),
                "decline reason verbatim: {reason}"
            );
        }
        other => panic!("expected Declined, got: {other:?}"),
    }
}

#[test]
fn declined_output_short_circuits_all_other_validation() {
    let mut out = good_output();
    out.source_url = "file:///etc/passwd".into(); // would normally be rejected
    out.produces = vec![]; // would also normally be rejected
    out.decline_reason = "API requires authentication; no public endpoint".into();
    let err = validate(out, &sample_plan()).unwrap_err();
    assert!(matches!(err, AuthoringError::Declined { .. }), "got {err:?}");
}

#[test]
fn whitespace_only_decline_reason_does_not_decline() {
    let mut out = good_output();
    out.decline_reason = "   \n\t  ".into();
    let recipe = validate(out, &sample_plan()).unwrap();
    assert_eq!(recipe.produces.len(), 1);
}

#[test]
fn over_bounded_decline_reason_is_invalid_not_declined() {
    let mut out = good_output();
    out.decline_reason = "x".repeat(DECLINE_REASON_MAX_BYTES + 1);
    let err = validate(out, &sample_plan()).unwrap_err();
    assert!(
        matches!(err, AuthoringError::InvalidRecipe(ref m) if m.contains("decline_reason")),
        "got {err:?}"
    );
}

#[test]
fn build_validated_recipe_rejects_empty_produces() {
    let mut out = good_output();
    out.produces = vec![];
    let err = validate(out, &sample_plan()).unwrap_err();
    assert!(matches!(err, AuthoringError::InvalidRecipe(_)), "got {err:?}");
}

#[test]
fn build_validated_recipe_rejects_binding_with_no_field_mappings() {
    let mut out = good_output();
    out.produces[0].field_mappings = vec![];
    let err = validate(out, &sample_plan()).unwrap_err();
    let msg = err.message();
    assert!(msg.contains("no field mappings"), "got {msg}");
}

#[test]
fn build_validated_recipe_rejects_duplicate_expectation_bindings() {
    let mut out = good_output();
    out.produces.push(out.produces[0].clone());
    let err = validate(out, &sample_plan()).unwrap_err();
    let msg = err.message();
    assert!(msg.contains("same expectation"), "got {msg}");
}

#[test]
fn build_validated_recipe_rejects_expectation_index_out_of_range() {
    let mut out = good_output();
    out.produces[0].expectation = AuthoredExpectationRef::ObservationMetric { index: 99 };
    let err = validate(out, &sample_plan()).unwrap_err();
    let msg = err.message();
    assert!(msg.contains("but plan has only"), "got {msg}");
}

#[test]
fn build_validated_recipe_rejects_pdf_table_page_zero() {
    let mut out = good_output();
    out.extraction = AuthoredExtractionSpec::PdfTable {
        page: 0,
        table_index: 0,
        row: 0,
        col: 0,
    };
    let err = validate(out, &sample_plan()).unwrap_err();
    assert!(matches!(err, AuthoringError::InvalidRecipe(_)), "got {err:?}");
}

#[test]
fn build_validated_recipe_rejects_regex_group_zero() {
    let mut out = good_output();
    out.extraction = AuthoredExtractionSpec::RegexCapture {
        pattern: "x".into(),
        group: 0,
    };
    let err = validate(out, &sample_plan()).unwrap_err();
    assert!(matches!(err, AuthoringError::InvalidRecipe(_)), "got {err:?}");
}

#[test]
fn build_validated_recipe_rejects_empty_css_selector() {
    let mut out = good_output();
    out.extraction = AuthoredExtractionSpec::CssSelect {
        selector: "".into(),
        attribute: None,
    };
    let err = validate(out, &sample_plan()).unwrap_err();
    assert!(matches!(err, AuthoringError::InvalidRecipe(_)), "got {err:?}");
}

#[test]
fn build_validated_recipe_rejects_too_many_bindings() {
    let mut out = good_output();
    let one = out.produces[0].clone();
    for i in 1..=MAX_BINDINGS as u32 {
        let mut b = one.clone();
        b.expectation = AuthoredExpectationRef::ObservationMetric { index: i };
        out.produces.push(b);
    }
    let err = validate(out, &sample_plan()).unwrap_err();
    let msg = err.message();
    assert!(
        msg.contains("exceeds limit") || msg.contains("but plan has only"),
        "got {msg}"
    );
}

#[test]
fn build_validated_recipe_rejects_empty_field_path() {
    let mut out = good_output();
    out.produces[0].field_mappings[0].path = "".into();
    let err = validate(out, &sample_plan()).unwrap_err();
    let msg = err.message();
    assert!(msg.contains("empty field path"), "got {msg}");
}

#[test]
fn build_validated_recipe_collapses_empty_static_payload_to_none() {
    let recipe = validate(good_output(), &sample_plan())
        .expect("good_output has empty static_payload — must validate");
    assert!(
        recipe.static_payload.is_none(),
        "empty wire-form static_payload must collapse to None, got {:?}",
        recipe.static_payload
    );
}

#[test]
fn build_validated_recipe_collapses_whitespace_static_payload_to_none() {
    let mut out = good_output();
    out.static_payload = "  \n\t  \n".into();
    let recipe = validate(out, &sample_plan())
        .expect("whitespace-only static_payload must collapse to None");
    assert!(recipe.static_payload.is_none());
}

#[test]
fn build_validated_recipe_accepts_well_formed_static_payload() {
    let mut out = good_output();
    let payload = r#"{"date":"2026-03-26","rate":"6.50","direction":"hold"}"#;
    out.static_payload = payload.into();
    let recipe = validate(out, &sample_plan())
        .expect("well-formed JSON static_payload must validate");
    assert_eq!(recipe.static_payload.as_deref(), Some(payload));
}

#[test]
fn build_validated_recipe_rejects_non_empty_static_payload_that_is_not_json() {
    let mut out = good_output();
    out.static_payload = "this is not JSON".into();
    let err = validate(out, &sample_plan()).unwrap_err();
    let msg = err.message();
    assert!(
        msg.contains("static_payload must parse as JSON"),
        "expected JSON-parse error, got: {msg}"
    );
}

#[test]
fn recipe_author_build_prompt_substitutes_all_placeholders() {
    let template = "\
        plan: {{PLAN_JSON}}\n\
        id: {{SOURCE_ID}}\n\
        url: {{SOURCE_URL}}\n\
        excerpt: {{DOCUMENT_EXCERPT}}\n\
    ";
    let out = build_prompt(template, &plan_json(&sample_plan()), SCHEMA_BLOCK, &sample_context()).unwrap();

    assert!(!out.contains("{{PLAN_JSON}}"), "plan placeholder left");
    assert!(!out.contains("{{SOURCE_ID}}"), "source id placeholder left");
    assert!(!out.contains("{{SOURCE_URL}}"), "url placeholder left");
    assert!(!out.contains("{{DOCUMENT_EXCERPT}}"), "excerpt placeholder left");

    assert!(out.contains("usgs_mcs:2024:lithium"));
    assert!(out.contains("mcs2024-lithium.pdf"));
    assert!(out.contains("Australia 88,000 tonnes"));
    assert!(out.contains("\"topic\""));
    assert!(out.contains("lithium production"));
}

#[test]
fn build_prompt_rejects_oversized_excerpt() {
    let mut ctx = sample_context();
    ctx.document_excerpt = "x".repeat(LLM_PROMPT_BODY_MAX_BYTES + 1);
    let err = build_prompt("x{{DOCUMENT_EXCERPT}}y", &plan_json(&sample_plan()), SCHEMA_BLOCK, &ctx).unwrap_err();
    assert!(matches!(err, AuthoringError::Prompt(_)), "got {err:?}");
}

#[test]
fn build_prompt_substitutes_track_b_placeholders() {
    let plan = sample_plan();
    let ctx = AuthoringContext {
        source_id: "world_bank".into(),
        sample_url: "https://api.worldbank.org/v2/indicator?format=json".into(),
        document_excerpt: "{ ... }".into(),
        recipe_feedback: None,
        previous_failure_reason: Some("apply error: matched 0 rows".into()),
        operator_guidance: Some("look at $.data not $.items".into()),
    };
    let template = "PLAN={{PLAN_JSON}} \
                    SCHEMA={{TARGET_RECORD_SCHEMA}} \
                    PREV={{PREVIOUS_FAILURE_REASON}} \
                    GUIDE={{OPERATOR_GUIDANCE}} \
                    SOURCE={{SOURCE_ID}}";
    let out = build_prompt_with_fence_id(template, &plan_json(&plan), SCHEMA_BLOCK, &ctx, "nonce-1234").unwrap();
    assert!(out.contains("\"topic\""));
    assert!(out.contains("\"observation\""));
    assert!(out.contains("\"event\""));
    assert!(out.contains("\"relation\""));
    assert!(out.contains("Why the previous recipe failed"));
    assert!(out.contains("matched 0 rows"));
    assert!(out.contains("<operator_guidance id=\"nonce-1234\">"));
    assert!(out.contains("look at $.data"));
    assert!(out.contains("world_bank"));
}

#[test]
fn build_prompt_collapses_track_b_placeholders_when_unset() {
    let plan = sample_plan();
    let ctx = AuthoringContext {
        source_id: "src".into(),
        sample_url: "https://example.com/api".into(),
        document_excerpt: "x".into(),
        recipe_feedback: None,
        previous_failure_reason: None,
        operator_guidance: None,
    };
    let template = "PREV={{PREVIOUS_FAILURE_REASON}} GUIDE={{OPERATOR_GUIDANCE}}";
    let out = build_prompt_with_fence_id(template, &plan_json(&plan), SCHEMA_BLOCK, &ctx, "n").unwrap();
    assert_eq!(out, "PREV= GUIDE=");
}

#[test]
fn build_prompt_substitutes_recipe_feedback_when_present() {
    let template = "X {{RECIPE_FEEDBACK}} Y";
    let mut ctx = sample_context();
    ctx.recipe_feedback = Some("wrong endpoint shape".into());
    let out =
        build_prompt_with_fence_id(template, &plan_json(&sample_plan()), SCHEMA_BLOCK, &ctx, "abcd1234").unwrap();
    assert!(!out.contains("{{RECIPE_FEEDBACK}}"));
    assert!(out.contains("wrong endpoint shape"));
    assert!(out.contains("<recipe_feedback id=\"abcd1234\">"));
}

#[test]
fn build_prompt_collapses_recipe_feedback_placeholder_when_none() {
    let template = "X {{RECIPE_FEEDBACK}} Y";
    let ctx = sample_context();
    assert!(ctx.recipe_feedback.is_none(), "fixture invariant");
    let out =
        build_prompt_with_fence_id(template, &plan_json(&sample_plan()), SCHEMA_BLOCK, &ctx, "abcd1234").unwrap();
    assert_eq!(out, "X  Y");
}

#[test]
fn build_prompt_tolerates_template_without_recipe_feedback_placeholder() {
    let template = "X no placeholder here Y";
    let mut ctx = sample_context();
    ctx.recipe_feedback = Some("note".into());
    let out =
        build_prompt_with_fence_id(template, &plan_json(&sample_plan()), SCHEMA_BLOCK, &ctx, "abcd1234").unwrap();
    assert_eq!(out, "X no placeholder here Y");
}


#[test]
fn build_validated_recipe_reports_the_url_guard_verdict() {
    let out = good_output();
    let err = build_validated_recipe(out, &sample_plan(), "xai", Err("scheme not allowed: file".into()))
        .unwrap_err();
    assert_eq!(err, AuthoringError::BadUrl("scheme not allowed: file".into()));
    assert_eq!(err.message(), "recipe url rejected: scheme not allowed: file");
}

#[test]
fn build_validated_recipe_exact_messages() {
    let mut out = good_output();
    out.produces[0].expectation = AuthoredExpectationRef::EventType { index: 5 };
    assert_eq!(
        validate(out, &sample_plan()).unwrap_err(),
        AuthoringError::InvalidRecipe(
            "expectation reference event_types[5] but plan has only 1 entries".into()
        )
    );
    let mut out = good_output();
    out.produces.push(out.produces[0].clone());
    assert_eq!(
        validate(out, &sample_plan()).unwrap_err(),
        AuthoringError::InvalidRecipe(
            "two bindings target the same expectation ObservationMetric { index: 0 }".into()
        )
    );
    let mut out = good_output();
    out.decline_reason = "  too hard  ".into();
    assert_eq!(
        validate(out, &sample_plan()).unwrap_err(),
        AuthoringError::Declined { reason: "too hard".into() }
    );
    let mut out = good_output();
    out.decline_reason = "y".repeat(DECLINE_REASON_MAX_BYTES + 5);
    assert_eq!(
        validate(out, &sample_plan()).unwrap_err(),
        AuthoringError::InvalidRecipe("decline_reason exceeds bound: 2005 > 2000 chars".into())
    );
}

#[test]
fn build_validated_recipe_assembles_the_recipe() {
    let recipe = validate(good_output(), &sample_plan()).unwrap();
    assert_eq!(recipe.id.len(), 36);
    assert_eq!(recipe.plan_id, PLAN_ID);
    assert_eq!(recipe.source_id, "");
    assert_eq!(recipe.dedup_key, None);
    assert_eq!(recipe.source_url, "https://pubs.usgs.gov/periodicals/mcs2024/mcs2024-lithium.pdf");
    assert_eq!(recipe.extraction, ExtractionSpec::PdfTable { page: 2, table_index: 0, row: 3, col: 1 });
    let b = &recipe.produces[0];
    assert_eq!(b.record_type, RecordType::Observation);
    assert_eq!(b.expectation, ExpectationRef::ObservationMetric { index: 0 });
    assert_eq!(b.field_mappings.len(), 3);
    assert_eq!(b.field_mappings[1].source, FieldValueSource::Literal { value: "\"t\"".into() });
}

#[test]
fn convert_extraction_checks_each_mode() {
    assert_eq!(
        convert_extraction(AuthoredExtractionSpec::JsonPath { path: String::new() }),
        Err(AuthoringError::InvalidRecipe("empty jsonpath".into()))
    );
    assert_eq!(
        convert_extraction(AuthoredExtractionSpec::CsvCell { column: String::new(), row_filter: None }),
        Err(AuthoringError::InvalidRecipe("empty csv column name".into()))
    );
    assert_eq!(
        convert_extraction(AuthoredExtractionSpec::RegexCapture { pattern: String::new(), group: 0 }),
        Err(AuthoringError::InvalidRecipe("empty regex pattern".into()))
    );
    assert_eq!(
        convert_extraction(AuthoredExtractionSpec::RegexCapture { pattern: "a".into(), group: 0 }),
        Err(AuthoringError::InvalidRecipe("regex capture group must be >= 1 (1-indexed)".into()))
    );
    assert_eq!(
        convert_extraction(AuthoredExtractionSpec::CsvCell {
            column: "v".into(),
            row_filter: Some(AuthoredRowFilter::LabeledAs { label_column: "l".into(), label: "x".into() }),
        }),
        Ok(ExtractionSpec::CsvCell {
            column: "v".into(),
            row_filter: Some(RowFilter::LabeledAs { label_column: "l".into(), label: "x".into() }),
        })
    );
    assert_eq!(
        convert_row_filter(AuthoredRowFilter::Equals { column: "c".into(), value: "v".into() }),
        RowFilter::Equals { column: "c".into(), value: "v".into() }
    );
}

#[test]
fn convert_expectation_ref_bounds_each_list() {
    let plan = sample_plan();
    assert_eq!(
        convert_expectation_ref(AuthoredExpectationRef::DocumentSource { index: 0 }, &plan),
        Ok(ExpectationRef::DocumentSource { index: 0 })
    );
    assert_eq!(
        convert_expectation_ref(AuthoredExpectationRef::RelationKind { index: 1 }, &plan),
        Err(AuthoringError::InvalidRecipe(
            "expectation reference relation_kinds[1] but plan has only 1 entries".into()
        ))
    );
    assert_eq!(
        convert_expectation_ref(AuthoredExpectationRef::EntityKind { index: 0 }, &plan),
        Ok(ExpectationRef::EntityKind { index: 0 })
    );
}

#[test]
fn convert_field_map_and_binding() {
    assert_eq!(
        convert_field_map(AuthoredFieldMap {
            path: "metric".into(),
            source: AuthoredFieldValueSource::FromPlan { pointer: String::new() },
        }),
        Err(AuthoringError::InvalidRecipe("from_plan pointer must not be empty".into()))
    );
    let mut b = good_output().produces[0].clone();
    b.field_mappings = (0..51)
        .map(|i| AuthoredFieldMap { path: format!("p{i}"), source: AuthoredFieldValueSource::Extracted })
        .collect();
    assert_eq!(
        convert_binding(b, &sample_plan()),
        Err(AuthoringError::InvalidRecipe("binding has 51 field mappings, exceeds limit of 50".into()))
    );
    let mut b = good_output().produces[0].clone();
    b.record_type = AuthoredRecordType::Relation;
    b.expectation = AuthoredExpectationRef::RelationKind { index: 0 };
    let pb = convert_binding(b, &sample_plan()).unwrap();
    assert_eq!(pb.record_type, RecordType::Relation);
    assert_eq!(pb.expectation, ExpectationRef::RelationKind { index: 0 });
}

#[test]
fn build_prompt_uses_one_fresh_nonce_for_both_fences() {
    let mut ctx = sample_context();
    ctx.recipe_feedback = Some("wrong table".into());
    ctx.operator_guidance = Some("use page 3".into());
    let out = build_prompt("{{RECIPE_FEEDBACK}}{{OPERATOR_GUIDANCE}}", "{}", SCHEMA_BLOCK, &ctx).unwrap();
    let start = out.find("<recipe_feedback id=\"").unwrap() + "<recipe_feedback id=\"".len();
    let nonce = &out[start..start + 32];
    assert!(nonce.chars().all(|c| c.is_ascii_hexdigit()));
    assert!(out.contains(&format!("<operator_guidance id=\"{nonce}\">")));
}

#[test]
fn build_prompt_rejects_oversized_assembled_prompt() {
    let ctx = sample_context();
    let big = "z".repeat(LLM_PROMPT_BODY_MAX_BYTES);
    let err = build_prompt_with_fence_id("{{PLAN_JSON}}{{SOURCE_ID}}", &big, SCHEMA_BLOCK, &ctx, "n").unwrap_err();
    assert_eq!(
        err,
        AuthoringError::Prompt(format!("llm_prompt_user: length {} exceeds bound 262144", LLM_PROMPT_BODY_MAX_BYTES + 21))
    );
}

#[test]
fn authoring_error_messages() {
    assert_eq!(
        AuthoringError::Declined { reason: "SPA".into() }.message(),
        "recipe author declined to write a recipe: SPA"
    );
    assert_eq!(
        AuthoringError::InvalidRecipe("x".into()).message(),
        "recipe structural validation failed: x"
    );
    assert_eq!(AuthoringError::Prompt("p".into()).message(), "prompt construction failed: p");
}
