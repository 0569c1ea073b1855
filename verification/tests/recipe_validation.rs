use pipeline::recipe_apply::{
    apply, apply_css_iterator, apply_iterator, apply_scalar, css_iterator_records, json_iterator_records, validate_recipe_shape_against_bytes, Applied, apply_json_iterator, compute_dedup_key, validate_recipe_against_bytes, ApplyError, MAX_RECORDS_PER_RECIPE,
};
use pipeline::content::JsonValue;
use pipeline::research::{RecordExpectations, ResearchPlan};
use pipeline::parsers::{CssLeavesOutcome, JsonLeavesOutcome, JsonNode, ScopeNodes};
use pipeline::recipes::{
    ExpectationRef, ExtractionSpec, FetchRecipe, FieldMap, FieldValueSource, ProductionBinding, RecordType,
};

fn no_pdf() -> Result<Vec<String>, String> {
    Err("not a PDF".to_string())
}

fn validate(recipe: &FetchRecipe, bytes: &[u8]) -> Result<(), ApplyError> {
    validate_recipe_against_bytes(recipe, bytes, &no_pdf())
}

fn recipe_with(extraction: ExtractionSpec) -> FetchRecipe {
    FetchRecipe {
        id: "0190f2c4-8a6b-7c3d-9e1f-2a3b4c5d6e7f".into(),
        dedup_key: None,
        plan_id: "0190f2c4-8a6b-7c3d-9e1f-111111111111".into(),
        source_id: "usgs_mcs".into(),
        source_url: "https://pubs.usgs.gov/periodicals/mcs2024/mcs2024-lithium.csv".into(),
        extraction,
        iterator: None,
        produces: vec![ProductionBinding {
            record_type: RecordType::Observation,
            expectation: ExpectationRef::ObservationMetric { index: 0 },
            field_mappings: vec![
                FieldMap { path: "value".into(), source: FieldValueSource::Extracted },
                FieldMap { path: "unit".into(), source: FieldValueSource::Literal { value: "\"t\"".into() } },
            ],
            dedup_key_field: None,
        }],
        authored_at: 0,
        authored_by: "test".into(),
        version: 1,
        static_payload: None,
        prior_recipe_id: None,
        reauthor_reason: None,
    }
}

fn iterator_event_recipe(iter_selector: &str, inner_selector: &str) -> FetchRecipe {
    let mut r = recipe_with(ExtractionSpec::CssSelect { selector: inner_selector.into(), attribute: None });
    r.iterator = Some(ExtractionSpec::CssSelect { selector: iter_selector.into(), attribute: None });
    r.produces[0].field_mappings = vec![
        FieldMap { path: "event_type".into(), source: FieldValueSource::Literal { value: "\"milestone_announced\"".into() } },
        FieldMap { path: "headline".into(), source: FieldValueSource::Extracted },
    ];
    r.produces[0].dedup_key_field = Some("headline".into());
    r
}

fn iterator_event_recipe_json(iter_path: &str, inner_path: &str) -> FetchRecipe {
    let mut r = recipe_with(ExtractionSpec::JsonPath { path: inner_path.into() });
    r.iterator = Some(ExtractionSpec::JsonPath { path: iter_path.into() });
    r.produces[0].field_mappings = vec![
        FieldMap { path: "event_type".into(), source: FieldValueSource::Literal { value: "\"milestone_announced\"".into() } },
        FieldMap { path: "headline".into(), source: FieldValueSource::Extracted },
    ];
    r.produces[0].dedup_key_field = Some("headline".into());
    r
}

#[test]
fn validate_recipe_css_select_rejects_selector_that_matches_nothing() {
    let html = b"<html><body><table id=\"data\"><tr><td>1</td></tr></table></body></html>";
    let recipe = recipe_with(ExtractionSpec::CssSelect {
        selector: "table#balance-sheet td.value".into(),
        attribute: None,
    });
    match validate(&recipe, html).unwrap_err() {
        ApplyError::Extraction { mode: "css_select", reason } => {
            assert!(reason.contains("matched no elements"), "got: {reason}");
        }
        other => panic!("expected Extraction error from css_select, got {other:?}"),
    }
}

#[test]
fn validate_recipe_css_select_accepts_selector_that_matches() {
    let html = b"<html><body><div class=\"value\">42</div></body></html>";
    let recipe = recipe_with(ExtractionSpec::CssSelect { selector: ".value".into(), attribute: None });
    validate(&recipe, html).expect("matching css_select selector must validate");
}

#[test]
fn validate_recipe_css_iterator_accepts_when_outer_and_inner_match() {
    let html = b"<html><body><div class=\"card\"><h3>First</h3></div><div class=\"card\"><h3>Second</h3></div></body></html>";
    let recipe = iterator_event_recipe(".card", "h3");
    validate(&recipe, html).expect("matching iterator + inner selectors must validate");
}

#[test]
fn validate_recipe_css_iterator_rejects_when_outer_matches_but_inner_does_not() {
    let html = b"<html><body><div class=\"card\"><span>First</span></div><div class=\"card\"><span>Second</span></div></body></html>";
    let recipe = iterator_event_recipe(".card", "h3.headline");
    match validate(&recipe, html).unwrap_err() {
        ApplyError::Extraction { mode: "css_select", reason } => {
            assert!(reason.contains("inner selector"), "got: {reason}");
            assert!(reason.contains("within any of the 2 iterator matches"), "got: {reason}");
        }
        other => panic!("expected Extraction error from css_select, got {other:?}"),
    }
}

#[test]
fn validate_recipe_css_iterator_rejects_when_outer_matches_nothing() {
    let html = b"<html><body><p>no cards here</p></body></html>";
    let recipe = iterator_event_recipe(".card", "h3");
    match validate(&recipe, html).unwrap_err() {
        ApplyError::Extraction { mode: "css_select", reason } => {
            assert_eq!(reason, "iterator selector \".card\" matched no elements");
        }
        other => panic!("expected Extraction error from css_select, got {other:?}"),
    }
}

#[test]
fn validate_recipe_css_iterator_reports_unparsable_selectors() {
    let html = b"<p>x</p>";
    match validate(&iterator_event_recipe("((", "h3"), html).unwrap_err() {
        ApplyError::Extraction { mode: "css_select", reason } => {
            assert!(reason.starts_with("iterator selector did not parse: "), "got: {reason}");
        }
        other => panic!("got {other:?}"),
    }
    match validate(&iterator_event_recipe("p", "(("), html).unwrap_err() {
        ApplyError::Extraction { mode: "css_select", reason } => {
            assert!(reason.starts_with("inner selector did not parse: "), "got: {reason}");
        }
        other => panic!("got {other:?}"),
    }
}

#[test]
fn validate_recipe_json_iterator_accepts_when_outer_and_inner_match() {
    let bytes = br#"{"items": [{"headline": "Storm declared", "id": 1}, {"headline": "Amendment filed", "id": 2}]}"#;
    let recipe = iterator_event_recipe_json("$.items[*]", "$.headline");
    validate(&recipe, bytes).expect("matching iterator + inner json_paths must validate");
}

#[test]
fn validate_recipe_json_iterator_rejects_when_outer_matches_but_inner_does_not() {
    let bytes = br#"{"items": [{"id": 1}, {"id": 2}]}"#;
    let recipe = iterator_event_recipe_json("$.items[*]", "$.headline");
    match validate(&recipe, bytes).unwrap_err() {
        ApplyError::Extraction { mode: "json_path", reason } => {
            assert!(reason.contains("inner path"), "got: {reason}");
            assert!(reason.contains("matched no nodes"), "got: {reason}");
        }
        other => panic!("expected Extraction error from json_path, got {other:?}"),
    }
}

#[test]
fn validate_recipe_json_iterator_rejects_when_outer_matches_nothing() {
    let bytes = br#"{"other_root": []}"#;
    let recipe = iterator_event_recipe_json("$.items[*]", "$.headline");
    match validate(&recipe, bytes).unwrap_err() {
        ApplyError::Extraction { mode: "json_path", reason } => {
            assert!(reason.contains("iterator path"), "got: {reason}");
            assert!(reason.contains("matched no nodes"), "got: {reason}");
        }
        other => panic!("expected Extraction error from json_path, got {other:?}"),
    }
}

#[test]
fn validate_recipe_json_iterator_rejects_when_inner_matches_only_null() {
    let bytes = br#"{"items": [{"headline": null, "id": 1}, {"headline": null, "id": 2}]}"#;
    let recipe = iterator_event_recipe_json("$.items[*]", "$.headline");
    match validate(&recipe, bytes).unwrap_err() {
        ApplyError::Extraction { mode: "json_path", reason } => {
            assert!(reason.contains("inner path"), "got: {reason}");
        }
        other => panic!("expected Extraction error from json_path, got {other:?}"),
    }
}

#[test]
fn validate_recipe_json_iterator_rejects_when_bytes_are_not_json() {
    let html = b"<html><body><p>not json</p></body></html>";
    let recipe = iterator_event_recipe_json("$.items[*]", "$.headline");
    match validate(&recipe, html).unwrap_err() {
        ApplyError::Extraction { mode: "json_path", reason } => {
            assert!(reason.contains("bytes did not parse as JSON"), "got: {reason}");
        }
        other => panic!("expected Extraction error from json_path, got {other:?}"),
    }
}

#[test]
fn validate_recipe_unsupported_iterator_pair_message_names_both_supported_pairs() {
    let mut recipe = iterator_event_recipe(".card", "h3");
    recipe.iterator = Some(ExtractionSpec::JsonPath { path: "$.items[*]".into() });
    let bytes = br#"{"items": []}"#;
    match validate(&recipe, bytes).unwrap_err() {
        ApplyError::NotImplemented { mode, reason } => {
            assert_eq!(mode, "iterator");
            assert!(reason.contains("css_select \u{d7} css_select"), "got: {reason}");
            assert!(reason.contains("json_path \u{d7} json_path"), "got: {reason}");
            assert!(reason.contains("Got iter=json_path, inner=css_select"), "got: {reason}");
        }
        other => panic!("expected NotImplemented for cross-mode iterator pair, got {other:?}"),
    }
}

#[test]
fn validate_recipe_json_path_inherits_runtime_null_skip_contract() {
    let bytes = br#"{"data": [{"v": 1}, {"v": 2}]}"#;
    let recipe = recipe_with(ExtractionSpec::JsonPath { path: "$.data[*].v".into() });
    validate(&recipe, bytes).expect("matching json_path must validate via the same dispatch");
    let recipe_no_match = recipe_with(ExtractionSpec::JsonPath { path: "$.does_not_exist".into() });
    let err = validate(&recipe_no_match, bytes).unwrap_err();
    assert!(matches!(err, ApplyError::Extraction { mode: "json_path", .. }), "got {err:?}");
}

#[test]
fn validate_recipe_json_path_rejects_world_bank_leading_null_trap() {
    let bytes = br#"[
        {"page": 1, "per_page": 4, "total": 4},
        [
            {"country": "AUS", "year": "2026", "value": null},
            {"country": "AUS", "year": "2025", "value": null},
            {"country": "AUS", "year": "2024", "value": 88000},
            {"country": "AUS", "year": "2023", "value": 86000}
        ]
    ]"#;
    let trap_recipe = recipe_with(ExtractionSpec::JsonPath { path: "$[1][0].value".into() });
    match validate(&trap_recipe, bytes).unwrap_err() {
        ApplyError::Extraction { mode, reason } => {
            assert_eq!(mode, "json_path");
            assert!(reason.to_lowercase().contains("null"), "got reason: {reason}");
        }
        other => panic!("got {other:?}"),
    }
}

#[test]
fn validate_recipe_pdf_table_uses_the_page_text() {
    let recipe = recipe_with(ExtractionSpec::PdfTable { page: 1, table_index: 0, row: 99, col: 0 });
    let pages: Result<Vec<String>, String> = Ok(vec!["Country Production\nChile 49000\n".to_string()]);
    match validate_recipe_against_bytes(&recipe, b"%PDF", &pages).unwrap_err() {
        ApplyError::Extraction { mode: "pdf_table", reason } => {
            assert!(reason.contains("row 99 out of range"), "got: {reason}");
        }
        other => panic!("got {other:?}"),
    }
    let ok = recipe_with(ExtractionSpec::PdfTable { page: 1, table_index: 0, row: 1, col: 1 });
    validate_recipe_against_bytes(&ok, b"%PDF", &pages).expect("in-range cell validates");
}

fn binding_with(dedup_field: Option<&str>, mappings: Vec<(&str, FieldValueSource)>) -> ProductionBinding {
    ProductionBinding {
        record_type: RecordType::Event,
        expectation: ExpectationRef::EventType { index: 0 },
        field_mappings: mappings.into_iter().map(|(p, s)| FieldMap { path: p.into(), source: s }).collect(),
        dedup_key_field: dedup_field.map(|f| f.to_string()),
    }
}

fn field_mapping_reason(r: Result<String, ApplyError>) -> String {
    match r.unwrap_err() {
        ApplyError::FieldMapping { reason } => reason,
        other => panic!("got {other:?}"),
    }
}

#[test]
fn dedup_key_is_recipe_id_and_field_value() {
    let b = binding_with(Some("headline"), vec![("headline", FieldValueSource::Extracted)]);
    assert_eq!(compute_dedup_key(&b, "Storm declared", None, "rid").unwrap(), "rid:Storm declared");
    let long = "x".repeat(250);
    assert_eq!(compute_dedup_key(&b, &long, None, "rid").unwrap(), format!("rid:{}", "x".repeat(200)));
}

#[test]
fn dedup_key_reads_literals_and_inner_leaves() {
    let lit = binding_with(Some("kind"), vec![("kind", FieldValueSource::Literal { value: "\"storm\"".into() })]);
    assert_eq!(compute_dedup_key(&lit, "ignored", None, "rid").unwrap(), "rid:storm");
    let num = binding_with(Some("n"), vec![("n", FieldValueSource::Literal { value: "42".into() })]);
    assert_eq!(compute_dedup_key(&num, "ignored", None, "rid").unwrap(), "rid:42");
    let inner_spec = ExtractionSpec::CssSelect { selector: "a".into(), attribute: Some("href".into()) };
    let inner = binding_with(Some("url"), vec![("url", FieldValueSource::ExtractedInner { spec: inner_spec })]);
    let leaves = vec![("title".to_string(), "T".to_string()), ("url".to_string(), "/a/1".to_string())];
    assert_eq!(compute_dedup_key(&inner, "outer", Some(&leaves), "rid").unwrap(), "rid:/a/1");
    assert_eq!(
        field_mapping_reason(compute_dedup_key(&inner, "outer", Some(&vec![]), "rid")),
        "dedup_key_field \"url\" resolves to ExtractedInner but produced no leaf for this match."
    );
    assert!(field_mapping_reason(compute_dedup_key(&inner, "outer", None, "rid")).contains("did not thread an inner-extractions map"));
}

#[test]
fn dedup_key_errors_name_the_field() {
    let none = binding_with(None, vec![("headline", FieldValueSource::Extracted)]);
    assert!(field_mapping_reason(compute_dedup_key(&none, "x", None, "rid")).starts_with("iterator recipe missing dedup_key_field"));
    let missing = binding_with(Some("id"), vec![("headline", FieldValueSource::Extracted)]);
    assert_eq!(
        field_mapping_reason(compute_dedup_key(&missing, "x", None, "rid")),
        "dedup_key_field \"id\" does not match any field_mappings path; the validator should have rejected this at authoring time"
    );
    let plan = binding_with(Some("m"), vec![("m", FieldValueSource::FromPlan { pointer: "topic".into() })]);
    assert!(field_mapping_reason(compute_dedup_key(&plan, "x", None, "rid")).contains("uses FromPlan source"));
}

fn apply_css(recipe: &FetchRecipe, bytes: &[u8]) -> Result<Vec<pipeline::recipe_apply::AppliedRecord>, ApplyError> {
    let (outer, inner, attr) = match (&recipe.iterator, &recipe.extraction) {
        (
            Some(ExtractionSpec::CssSelect { selector: o, .. }),
            ExtractionSpec::CssSelect { selector: i, attribute },
        ) => (o.clone(), i.clone(), attribute.clone()),
        _ => panic!("css iterator recipe expected"),
    };
    apply_css_iterator(recipe, bytes, &outer, &inner, attr.as_deref())
}

fn event_iterator_recipe(iter_selector: &str, inner_selector: &str) -> FetchRecipe {
    let mut r = iterator_event_recipe(iter_selector, inner_selector);
    r.produces[0].field_mappings = vec![
        FieldMap { path: "event_type".into(), source: FieldValueSource::Literal { value: "\"milestone_announced\"".into() } },
        FieldMap { path: "headline".into(), source: FieldValueSource::Extracted },
    ];
    r
}

#[test]
fn css_select_iterator_produces_n_records() {
    let html = br#"
        <html><body>
          <div class="card"><h3>Quantum supremacy claim verified</h3></div>
          <div class="card"><h3>Photonic chip hits 1024 qubits</h3></div>
          <div class="card"><h3>Error correction crosses threshold</h3></div>
        </body></html>
    "#;
    let recipe = event_iterator_recipe(".card", "h3");
    let records = apply_css(&recipe, html).unwrap();
    assert_eq!(records.len(), 3, "expected one record per card");
    let headlines: Vec<&str> = records.iter().map(|r| r.extracted.as_str()).collect();
    assert_eq!(
        headlines,
        vec!["Quantum supremacy claim verified", "Photonic chip hits 1024 qubits", "Error correction crosses threshold"]
    );
    for r in &records {
        assert_eq!(r.binding_index, 0);
        assert_eq!(r.dedup_key, format!("{}:{}", recipe.id, r.extracted));
        assert!(r.inner.is_none());
    }
}

#[test]
fn iterator_caps_records_at_max() {
    let mut body = String::with_capacity(60_000);
    body.push_str("<html><body>");
    for i in 0..600 {
        body.push_str(&format!("<div class=\"card\"><h3>card {i}</h3></div>"));
    }
    body.push_str("</body></html>");
    let recipe = event_iterator_recipe(".card", "h3");
    match apply_css(&recipe, body.as_bytes()).unwrap_err() {
        ApplyError::Extraction { mode, reason } => {
            assert_eq!(mode, "css_select");
            assert!(reason.contains("cap is") && reason.contains(&MAX_RECORDS_PER_RECIPE.to_string()), "got: {reason}");
            assert!(reason.starts_with("iterator produced 600 matches"), "got: {reason}");
        }
        other => panic!("expected Extraction error, got {other:?}"),
    }
}

#[test]
fn iterator_with_zero_matches_reports_iterator_selector() {
    let html = b"<html><body><p>nothing here</p></body></html>";
    let recipe = event_iterator_recipe(".card", "h3");
    match apply_css(&recipe, html).unwrap_err() {
        ApplyError::Extraction { mode, reason } => {
            assert_eq!(mode, "css_select");
            assert!(reason.contains("iterator"), "got: {reason}");
            assert!(reason.contains(".card"), "got: {reason}");
        }
        other => panic!("expected Extraction error, got {other:?}"),
    }
}

#[test]
fn iterator_inner_selector_miss_reports_inner_layer() {
    let html = b"<html><body><div class=\"card\"><p>no h3 in here</p></div></body></html>";
    let recipe = event_iterator_recipe(".card", "h3");
    match apply_css(&recipe, html).unwrap_err() {
        ApplyError::Extraction { mode, reason } => {
            assert_eq!(mode, "css_select");
            assert!(reason.contains("inner selector") && reason.contains("iterator"), "got: {reason}");
        }
        other => panic!("expected Extraction error, got {other:?}"),
    }
}

#[test]
fn css_iterator_multi_leaf_collects_inner_extractions_per_row() {
    let html = br#"
        <html><body><table class="storms">
          <tr class="storm-row"><td class="storm-name">Hurricane Alpha</td><td class="storm-direction">supply_negative</td></tr>
          <tr class="storm-row"><td class="storm-name">Hurricane Beta</td><td class="storm-direction">context</td></tr>
        </table></body></html>
    "#;
    let mut recipe = event_iterator_recipe("tr.storm-row", "td.storm-name");
    let inner = |sel: &str| FieldValueSource::ExtractedInner {
        spec: ExtractionSpec::CssSelect { selector: sel.into(), attribute: None },
    };
    recipe.produces[0].field_mappings = vec![
        FieldMap { path: "headline".into(), source: inner("td.storm-name") },
        FieldMap { path: "direction".into(), source: inner("td.storm-direction") },
    ];
    let records = apply_css(&recipe, html).expect("multi-leaf iterator must apply");
    assert_eq!(records.len(), 2, "one record per storm row");
    let first = records[0].inner.clone().unwrap();
    assert_eq!(
        first,
        vec![
            ("headline".to_string(), "Hurricane Alpha".to_string()),
            ("direction".to_string(), "supply_negative".to_string()),
        ]
    );
    assert_eq!(records[1].dedup_key, format!("{}:Hurricane Beta", recipe.id));
    recipe.produces[0].field_mappings.push(FieldMap { path: "x".into(), source: inner("td.missing") });
    match apply_css(&recipe, html).unwrap_err() {
        ApplyError::Extraction { mode, reason } => {
            assert_eq!(mode, "css_select");
            assert!(reason.starts_with("binding[0] ExtractedInner: FieldMap \"x\": inner selector matched no elements"), "got: {reason}");
        }
        other => panic!("got {other:?}"),
    }
}

#[test]
fn iterator_with_cross_mode_pair_is_not_implemented() {
    let mut recipe = event_iterator_recipe(".card", "h3");
    recipe.extraction = ExtractionSpec::JsonPath { path: "$.title".into() };
    let html = b"<html><body><div class=\"card\"><h3>x</h3></div></body></html>";
    let iter = recipe.iterator.clone().unwrap();
    match apply_iterator(&recipe, html, &iter).unwrap_err() {
        ApplyError::NotImplemented { mode, reason } => {
            assert_eq!(mode, "iterator");
            assert!(reason.contains("css_select") && reason.contains("json_path"));
        }
        other => panic!("expected NotImplemented, got {other:?}"),
    }
}

#[test]
fn json_iterator_multi_leaf_collects_inner_extractions_per_element() {
    let json_bytes = br#"{"storms":[
        {"name":"Hurricane Alpha","direction":"supply_negative"},
        {"name":"Hurricane Beta","direction":"context"}
    ]}"#;
    let mut recipe = iterator_event_recipe_json("$.storms[*]", "$.name");
    let inner = |p: &str| FieldValueSource::ExtractedInner { spec: ExtractionSpec::JsonPath { path: p.into() } };
    recipe.produces[0].field_mappings = vec![
        FieldMap { path: "headline".into(), source: inner("$.name") },
        FieldMap { path: "direction".into(), source: inner("$.direction") },
    ];
    let iter = recipe.iterator.clone().unwrap();
    let records = apply_iterator(&recipe, json_bytes, &iter).expect("multi-leaf iterator must apply");
    assert_eq!(records.len(), 2);
    assert_eq!(records[0].extracted, "Hurricane Alpha");
    assert_eq!(
        records[1].inner.clone().unwrap(),
        vec![
            ("headline".to_string(), "Hurricane Beta".to_string()),
            ("direction".to_string(), "context".to_string()),
        ]
    );
    assert_eq!(records[0].dedup_key, format!("{}:Hurricane Alpha", recipe.id));
}

#[test]
fn json_iterator_reports_each_failure_layer() {
    let recipe = iterator_event_recipe_json("$.items[*]", "$.headline");
    let reason = |r: Result<Vec<pipeline::recipe_apply::AppliedRecord>, ApplyError>| match r.unwrap_err() {
        ApplyError::Extraction { mode, reason } => {
            assert_eq!(mode, "json_path");
            reason
        }
        other => panic!("got {other:?}"),
    };
    assert!(reason(apply_json_iterator(&recipe, b"<html/>", "$.items[*]", "$.headline")).starts_with("bytes did not parse as JSON: "));
    assert!(reason(apply_json_iterator(&recipe, br#"{"x":1}"#, "$.items[*]", "$.headline")).contains("matched no nodes (the source may have changed shape"));
    assert_eq!(
        reason(apply_json_iterator(&recipe, br#"{"items":[{"headline":null}]}"#, "$.items[*]", "$.headline")),
        "inner path \"$.headline\" matched 1 node(s), all JSON null"
    );
    assert_eq!(
        reason(apply_json_iterator(&recipe, br#"{"items":[{"id":1}]}"#, "$.items[*]", "$.headline")),
        "inner path \"$.headline\" matched no nodes within scope"
    );
    let many: String = format!("{{\"items\":[{}]}}", vec!["{\"headline\":\"h\"}"; 501].join(","));
    assert!(reason(apply_json_iterator(&recipe, many.as_bytes(), "$.items[*]", "$.headline")).contains("matched 501 elements; cap is 500"));
    let ok = apply_json_iterator(&recipe, br#"{"items":[{"headline":"a"},{"headline":7}]}"#, "$.items[*]", "$.headline").unwrap();
    let got: Vec<&str> = ok.iter().map(|r| r.extracted.as_str()).collect();
    assert_eq!(got, vec!["a", "7"]);
}

fn inner_of(path: &str, selector: &str) -> FieldMap {
    FieldMap {
        path: path.into(),
        source: FieldValueSource::ExtractedInner {
            spec: ExtractionSpec::CssSelect { selector: selector.into(), attribute: None },
        },
    }
}

#[test]
fn apply_scalar_without_inner_maps_extracts_once() {
    let recipe = recipe_with(ExtractionSpec::CsvCell { column: "production".into(), row_filter: None });
    let got = apply_scalar(&recipe, b"country,production\nChile,49000\n", &no_pdf()).unwrap();
    assert_eq!(got.extracted, "49000");
    assert_eq!(got.inner, vec![None]);
}

#[test]
fn apply_scalar_resolves_inner_maps_within_the_first_css_match() {
    let mut recipe = recipe_with(ExtractionSpec::CssSelect { selector: ".card".into(), attribute: None });
    recipe.produces[0].field_mappings = vec![inner_of("headline", "h3"), inner_of("date", ".date")];
    let html = b"<div class=card><h3> Storm A </h3><span class=date>2026</span></div><div class=card><h3>Storm B</h3></div>";
    let got = apply_scalar(&recipe, html, &no_pdf()).unwrap();
    assert_eq!(got.extracted, "Storm A 2026");
    assert_eq!(
        got.inner,
        vec![Some(vec![("headline".to_string(), "Storm A".to_string()), ("date".to_string(), "2026".to_string())])]
    );
}

#[test]
fn apply_scalar_resolves_inner_maps_within_the_first_non_null_json_match() {
    let mut recipe = recipe_with(ExtractionSpec::JsonPath { path: "$.items[*]".into() });
    recipe.produces[0].field_mappings = vec![FieldMap {
        path: "headline".into(),
        source: FieldValueSource::ExtractedInner { spec: ExtractionSpec::JsonPath { path: "$.h".into() } },
    }];
    let got = apply_scalar(&recipe, br#"{"items":[null,{"h":"x"},{"h":"y"}]}"#, &no_pdf()).unwrap();
    assert_eq!(got.inner, vec![Some(vec![("headline".to_string(), "x".to_string())])]);
}

#[test]
fn apply_scalar_inner_maps_under_csv_are_not_implemented() {
    let mut recipe = recipe_with(ExtractionSpec::CsvCell { column: "production".into(), row_filter: None });
    recipe.produces[0].field_mappings = vec![inner_of("headline", "h3")];
    match apply_scalar(&recipe, b"country,production\nChile,49000\n", &no_pdf()).unwrap_err() {
        ApplyError::NotImplemented { mode, reason } => {
            assert_eq!(mode, "extracted_inner");
            assert!(reason.contains("outer mode csv_cell"), "got: {reason}");
        }
        other => panic!("got {other:?}"),
    }
}

#[test]
fn apply_dispatches_on_the_iterator() {
    let recipe = recipe_with(ExtractionSpec::CsvCell { column: "production".into(), row_filter: None });
    match apply(&recipe, b"country,production\nChile,49000\n", &no_pdf()).unwrap() {
        Applied::Scalar(a) => assert_eq!(a.extracted, "49000"),
        other => panic!("got {other:?}"),
    }
    let recipe = iterator_event_recipe(".card", "h3");
    let html = b"<div class=card><h3>A</h3></div><div class=card><h3>B</h3></div>";
    match apply(&recipe, html, &no_pdf()).unwrap() {
        Applied::Records(v) => assert_eq!(v.len(), 2),
        other => panic!("got {other:?}"),
    }
}

#[test]
fn css_iterator_records_reads_the_selection_outcome() {
    let recipe = iterator_event_recipe(".card", "h3");
    let bad = CssLeavesOutcome::BadOuter { detail: "unexpected token".into() };
    match css_iterator_records(&recipe, "", ".card", None, &bad).unwrap_err() {
        ApplyError::Extraction { mode, reason } => {
            assert_eq!(mode, "css_select");
            assert_eq!(reason, "iterator selector did not parse: unexpected token");
        }
        other => panic!("got {other:?}"),
    }
    let two = CssLeavesOutcome::Leaves { values: vec![Some(Some(" A ".into())), Some(Some("B".into()))] };
    let recs = css_iterator_records(&recipe, "", ".card", None, &two).unwrap();
    let got: Vec<(&str, &str)> = recs.iter().map(|r| (r.extracted.as_str(), r.dedup_key.as_str())).collect();
    assert_eq!(
        got,
        vec![("A", "0190f2c4-8a6b-7c3d-9e1f-2a3b4c5d6e7f:A"), ("B", "0190f2c4-8a6b-7c3d-9e1f-2a3b4c5d6e7f:B")]
    );
    let missing = CssLeavesOutcome::Leaves { values: vec![None] };
    assert!(css_iterator_records(&recipe, "", ".card", None, &missing).is_err());
    let many = CssLeavesOutcome::Leaves { values: vec![Some(Some("x".into())); 501] };
    match css_iterator_records(&recipe, "", ".card", None, &many).unwrap_err() {
        ApplyError::Extraction { reason, .. } => {
            assert!(reason.starts_with("iterator produced 501 matches; cap is 500 (ADR 0016 \u{a7}Consequences)."), "got {reason}")
        }
        other => panic!("got {other:?}"),
    }
}

#[test]
fn json_iterator_records_reads_the_query_outcome() {
    let recipe = iterator_event_recipe_json("$.items[*]", "$.headline");
    let node = |t: &str| JsonNode { is_null: false, string: Some(t.into()), json: format!("{t:?}") };
    let outcome = JsonLeavesOutcome::Leaves {
        scopes: vec![ScopeNodes::Nodes { nodes: vec![node("h1")] }, ScopeNodes::Nodes { nodes: vec![node("h2")] }],
    };
    let recs = json_iterator_records(&recipe, b"", "$.items[*]", "$.headline", &outcome).unwrap();
    let got: Vec<&str> = recs.iter().map(|r| r.extracted.as_str()).collect();
    assert_eq!(got, vec!["h1", "h2"]);
    let failed = JsonLeavesOutcome::Leaves { scopes: vec![ScopeNodes::Failed { detail: "bad path".into() }] };
    match json_iterator_records(&recipe, b"", "$.items[*]", "$.headline", &failed).unwrap_err() {
        ApplyError::Extraction { reason, .. } => assert_eq!(reason, "inner path query failed: bad path"),
        other => panic!("got {other:?}"),
    }
    let not_json = JsonLeavesOutcome::NotJson { detail: "eof".into() };
    match json_iterator_records(&recipe, b"", "$.items[*]", "$.headline", &not_json).unwrap_err() {
        ApplyError::Extraction { reason, .. } => assert_eq!(reason, "bytes did not parse as JSON: eof"),
        other => panic!("got {other:?}"),
    }
}

fn shape_plan() -> ResearchPlan {
    ResearchPlan {
        id: "0190f2c4-8a6b-7c3d-9e1f-111111111111".into(),
        topic: "lithium".into(),
        interpretation: "Lithium production.".into(),
        topic_tags: vec!["lithium".into()],
        geographic_scope: vec![],
        historical_window_days: 365,
        expectations: RecordExpectations {
            observation_metrics: vec!["production".into()],
            event_types: vec![],
            entity_kinds: vec![],
            relation_kinds: vec![],
            document_sources: vec![],
        },
    }
}

fn shape_plan_json() -> JsonValue {
    JsonValue::Object(vec![(
        "expectations".into(),
        JsonValue::Object(vec![(
            "observation_metrics".into(),
            JsonValue::Array(vec![JsonValue::Str("production".into())]),
        )]),
    )])
}

fn shape(recipe: &FetchRecipe, bytes: &[u8]) -> Result<(), ApplyError> {
    validate_recipe_shape_against_bytes(recipe, bytes, &no_pdf(), &shape_plan(), &shape_plan_json())
}

#[test]
fn validate_shape_accepts_numeric_extraction_for_f64_value_field() {
    let bytes = b"<html><body><div class=\"value\">49000</div></body></html>";
    let recipe = recipe_with(ExtractionSpec::CssSelect { selector: ".value".into(), attribute: None });
    shape(&recipe, bytes).expect("numeric extracted scalar must shape-validate into f64");
}

#[test]
fn validate_shape_strict_superset_of_extraction_validator() {
    let bytes = b"<html><body><p>no value here</p></body></html>";
    let recipe = recipe_with(ExtractionSpec::CssSelect { selector: ".value".into(), attribute: None });
    let shape_err = shape(&recipe, bytes).expect_err("shape validator must inherit structural failures");
    let struct_err = validate(&recipe, bytes).expect_err("structural validator must reject too");
    assert!(
        matches!(shape_err, ApplyError::Extraction { mode: "css_select", .. }),
        "shape validator must inherit the structural validator's extraction error type; got {shape_err:?}"
    );
    assert!(
        matches!(struct_err, ApplyError::Extraction { mode: "css_select", .. }),
        "sanity: structural validator's error shape unchanged; got {struct_err:?}"
    );
}

#[test]
fn validate_shape_reports_binding_errors_the_structural_validator_cannot_see() {
    let bytes = b"<html><body><div class=\"value\">49000</div></body></html>";
    let mut recipe = recipe_with(ExtractionSpec::CssSelect { selector: ".value".into(), attribute: None });
    recipe.produces[0].field_mappings.push(FieldMap {
        path: "metric".into(),
        source: FieldValueSource::FromPlan { pointer: "expectations.observation_metrics.3".into() },
    });
    validate(&recipe, bytes).expect("the structural validator sees only the extraction");
    match shape(&recipe, bytes).unwrap_err() {
        ApplyError::Binding { index, reason } => {
            assert_eq!(index, 0);
            assert_eq!(
                reason,
                "field mapping: from_plan pointer \"expectations.observation_metrics.3\" resolved to nothing"
            );
        }
        other => panic!("got {other:?}"),
    }
    recipe.produces[0].field_mappings[2] = FieldMap {
        path: "metric".into(),
        source: FieldValueSource::FromPlan { pointer: "expectations.observation_metrics.0".into() },
    };
    shape(&recipe, bytes).expect("a pointer into the plan resolves");
    recipe.produces[0].record_type = RecordType::Document;
    match shape(&recipe, bytes).unwrap_err() {
        ApplyError::Binding { index, reason } => {
            assert_eq!(index, 0);
            assert!(reason.starts_with("record_type Document is not producible from a recipe."), "got {reason}");
        }
        other => panic!("got {other:?}"),
    }
}

#[test]
fn validate_shape_builds_from_the_first_outer_match_with_an_inner_match() {
    let mut recipe = iterator_event_recipe(".card", "h3");
    let html = b"<div class=card><p>no headline</p></div><div class=card><h3>Storm</h3></div>";
    shape(&recipe, html).expect("the second card holds the inner match");
    recipe.produces[0].field_mappings.push(FieldMap {
        path: "headline.text".into(),
        source: FieldValueSource::Literal { value: "1".into() },
    });
    match shape(&recipe, html).unwrap_err() {
        ApplyError::Binding { index, reason } => {
            assert_eq!(index, 0);
            assert_eq!(reason, "field mapping: path segment \"text\" expected an object");
        }
        other => panic!("got {other:?}"),
    }
}

#[test]
fn validate_shape_json_iterator_uses_the_first_non_null_match() {
    let recipe = iterator_event_recipe_json("$.items[*]", "$.headline");
    shape(&recipe, br#"{"items":[null,{"headline":"a"}]}"#).expect("first non-null match builds");
    let mut scalar = recipe_with(ExtractionSpec::JsonPath { path: "$.items[*]".into() });
    scalar.produces[0].field_mappings = vec![FieldMap {
        path: "headline".into(),
        source: FieldValueSource::ExtractedInner { spec: ExtractionSpec::JsonPath { path: "$.missing".into() } },
    }];
    match shape(&scalar, br#"{"items":[{"headline":"a"}]}"#).unwrap_err() {
        ApplyError::Extraction { mode, reason } => {
            assert_eq!(mode, "json_path");
            assert!(reason.starts_with("FieldMap \"headline\": inner path"), "got {reason}");
        }
        other => panic!("got {other:?}"),
    }
}
