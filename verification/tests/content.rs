use pipeline::content::{
    build_content, build_record, scalar_drafts, coerce_for_string_path, entity_field, insert_at_path, resolve_field_value, walk_pointer,
    JsonValue,
};
use pipeline::recipe_apply::ApplyError;
use pipeline::recipes::{
    ExpectationRef, ExtractionSpec, FetchRecipe, FieldMap, FieldValueSource, ProductionBinding, RecordType,
};
use pipeline::research::{RecordExpectations, ResearchPlan};

fn obj(entries: Vec<(&str, JsonValue)>) -> JsonValue {
    JsonValue::Object(entries.into_iter().map(|(k, v)| (k.to_string(), v)).collect())
}

fn s(v: &str) -> JsonValue {
    JsonValue::Str(v.to_string())
}

fn num(v: &str) -> JsonValue {
    JsonValue::Number(v.to_string())
}

fn plan() -> ResearchPlan {
    ResearchPlan {
        id: "0190f2c4-8a6b-7c3d-9e1f-111111111111".into(),
        topic: "lithium".into(),
        interpretation: "Lithium production.".into(),
        topic_tags: vec!["lithium".into(), "batteries".into()],
        geographic_scope: vec![],
        historical_window_days: 365,
        expectations: RecordExpectations {
            observation_metrics: vec!["production".into()],
            event_types: vec![],
            entity_kinds: vec![],
            relation_kinds: vec![],
            document_sources: vec![],
        },
    }
}

fn plan_json() -> JsonValue {
    obj(vec![(
        "expectations",
        obj(vec![(
            "observation_metrics",
            JsonValue::Array(vec![obj(vec![("name", s("production"))]), obj(vec![("name", s("reserves"))])]),
        )]),
    )])
}

fn recipe(iterator: Option<ExtractionSpec>, fms: Vec<FieldMap>, record_type: RecordType) -> FetchRecipe {
    FetchRecipe {
        id: "0190f2c4-8a6b-7c3d-9e1f-2a3b4c5d6e7f".into(),
        dedup_key: None,
        plan_id: "0190f2c4-8a6b-7c3d-9e1f-111111111111".into(),
        source_id: "usgs_mcs".into(),
        source_url: "https://pubs.usgs.gov/x.csv".into(),
        extraction: ExtractionSpec::CssSelect { selector: "h3".into(), attribute: None },
        iterator,
        produces: vec![ProductionBinding {
            record_type,
            expectation: ExpectationRef::ObservationMetric { index: 0 },
            field_mappings: fms,
            dedup_key_field: None,
        }],
        authored_at: 0,
        authored_by: "test".into(),
        version: 3,
        static_payload: None,
        prior_recipe_id: None,
        reauthor_reason: None,
    }
}

fn fm(path: &str, source: FieldValueSource) -> FieldMap {
    FieldMap { path: path.into(), source }
}

#[test]
fn walk_pointer_handles_object_and_array() {
    let root = plan_json();
    assert_eq!(walk_pointer(&root, "expectations.observation_metrics.0.name"), Some(s("production")));
    assert_eq!(walk_pointer(&root, "expectations.observation_metrics.1.name"), Some(s("reserves")));
}

#[test]
fn walk_pointer_returns_none_for_missing() {
    let root = obj(vec![("a", num("1"))]);
    assert_eq!(walk_pointer(&root, "a.b.c"), None);
    assert_eq!(walk_pointer(&root, "missing"), None);
}

#[test]
fn walk_pointer_index_forms() {
    let root = obj(vec![("a", JsonValue::Array(vec![num("10"), num("20")]))]);
    assert_eq!(walk_pointer(&root, "a.+1"), Some(num("20")));
    assert_eq!(walk_pointer(&root, "a.2"), None);
    assert_eq!(walk_pointer(&root, "a.x"), None);
    assert_eq!(walk_pointer(&root, "a.99999999999999999999999"), None);
    assert_eq!(walk_pointer(&root, "a"), Some(JsonValue::Array(vec![num("10"), num("20")])));
}

#[test]
fn insert_at_path_sets_top_level_field() {
    let mut m = Vec::new();
    insert_at_path(&mut m, "value", num("42")).unwrap();
    assert_eq!(m, vec![("value".to_string(), num("42"))]);
}

#[test]
fn insert_at_path_creates_nested_objects() {
    let mut m = Vec::new();
    insert_at_path(&mut m, "a.b.c", s("x")).unwrap();
    assert_eq!(JsonValue::Object(m), obj(vec![("a", obj(vec![("b", obj(vec![("c", s("x"))]))]))]));
}

#[test]
fn insert_at_path_replaces_and_extends() {
    let mut m = Vec::new();
    insert_at_path(&mut m, "a.b", num("1")).unwrap();
    insert_at_path(&mut m, "a.c", num("2")).unwrap();
    insert_at_path(&mut m, "a.b", num("3")).unwrap();
    assert_eq!(JsonValue::Object(m), obj(vec![("a", obj(vec![("b", num("3")), ("c", num("2"))]))]));
}

#[test]
fn insert_at_path_through_a_non_object_is_refused_and_leaves_the_map() {
    let mut m = vec![("a".to_string(), num("1"))];
    match insert_at_path(&mut m, "a.b.c", s("x")) {
        Err(ApplyError::FieldMapping { reason }) => assert_eq!(reason, "path segment \"b\" expected an object"),
        other => panic!("got {other:?}"),
    }
    assert_eq!(m, vec![("a".to_string(), num("1"))]);
}

#[test]
fn insert_at_path_descends_into_a_literal_object() {
    let mut m = vec![("magnitude".to_string(), JsonValue::Encoded("{\"unit\":\"t\"}".into()))];
    insert_at_path(&mut m, "magnitude.value", num("5")).unwrap();
    assert_eq!(
        JsonValue::Object(m),
        obj(vec![("magnitude", obj(vec![("unit", JsonValue::Encoded("\"t\"".into())), ("value", num("5"))]))])
    );
    let mut m = vec![("magnitude".to_string(), JsonValue::Encoded("[1]".into()))];
    assert!(insert_at_path(&mut m, "magnitude.value", num("5")).is_err());
    assert_eq!(m, vec![("magnitude".to_string(), JsonValue::Encoded("[1]".into()))]);
}

#[test]
fn coerce_for_string_path_stringifies_number_at_known_path() {
    let mut v = num("22.0");
    coerce_for_string_path(&mut v, RecordType::Event, "headline");
    assert_eq!(v, s("22.0"));
    let mut v = num("22");
    coerce_for_string_path(&mut v, RecordType::Event, "headline");
    assert_eq!(v, s("22"));
}

#[test]
fn coerce_for_string_path_leaves_value_field_alone() {
    let mut v = num("22.0");
    coerce_for_string_path(&mut v, RecordType::Observation, "value");
    assert_eq!(v, num("22.0"));
}

#[test]
fn coerce_for_string_path_leaves_already_string_alone() {
    let mut v = s("Fed raised rates");
    coerce_for_string_path(&mut v, RecordType::Event, "headline");
    assert_eq!(v, s("Fed raised rates"));
}

#[test]
fn coerce_for_string_path_leaves_non_number_non_string_alone() {
    for mut v in [JsonValue::Bool(true), JsonValue::Null, obj(vec![]), JsonValue::Array(vec![])] {
        let before = match &v {
            JsonValue::Bool(b) => JsonValue::Bool(*b),
            JsonValue::Null => JsonValue::Null,
            JsonValue::Object(_) => obj(vec![]),
            _ => JsonValue::Array(vec![]),
        };
        coerce_for_string_path(&mut v, RecordType::Event, "headline");
        assert_eq!(v, before, "non-Number/non-String must pass through");
    }
}

#[test]
fn resolve_field_value_covers_each_source() {
    let p = plan_json();
    let x = num("49000");
    let got = resolve_field_value(&fm("value", FieldValueSource::Extracted), &x, &p, None).unwrap();
    assert_eq!(got, num("49000"));
    let got = resolve_field_value(&fm("unit", FieldValueSource::Literal { value: "\"t\"".into() }), &x, &p, None);
    assert_eq!(got.unwrap(), JsonValue::Encoded("\"t\"".into()));
    let from_plan = FieldValueSource::FromPlan { pointer: "expectations.observation_metrics.0.name".into() };
    assert_eq!(resolve_field_value(&fm("metric", from_plan), &x, &p, None).unwrap(), s("production"));
    let missing = FieldValueSource::FromPlan { pointer: "nope".into() };
    match resolve_field_value(&fm("metric", missing), &x, &p, None) {
        Err(ApplyError::FieldMapping { reason }) => assert_eq!(reason, "from_plan pointer \"nope\" resolved to nothing"),
        other => panic!("got {other:?}"),
    }
    let inner_src = || FieldValueSource::ExtractedInner {
        spec: ExtractionSpec::CssSelect { selector: "b".into(), attribute: None },
    };
    match resolve_field_value(&fm("headline", inner_src()), &x, &p, None) {
        Err(ApplyError::FieldMapping { reason }) => {
            assert!(reason.starts_with("FieldMap \"headline\" has ExtractedInner source"), "got {reason}")
        }
        other => panic!("got {other:?}"),
    }
    let leaves = vec![("headline".to_string(), s("Storm"))];
    assert_eq!(resolve_field_value(&fm("headline", inner_src()), &x, &p, Some(&leaves)).unwrap(), s("Storm"));
    match resolve_field_value(&fm("summary", inner_src()), &x, &p, Some(&leaves)) {
        Err(ApplyError::FieldMapping { reason }) => {
            assert!(reason.starts_with("ExtractedInner FieldMap \"summary\" produced no leaf"), "got {reason}")
        }
        other => panic!("got {other:?}"),
    }
}

#[test]
fn build_content_assembles_and_coerces() {
    let r = recipe(
        None,
        vec![
            fm("event_type", FieldValueSource::Literal { value: "\"milestone_announced\"".into() }),
            fm("headline", FieldValueSource::Extracted),
        ],
        RecordType::Event,
    );
    let c = build_content(&r.produces[0], 0, &num("22.0"), &plan_json(), None).unwrap();
    assert_eq!(
        c,
        vec![
            ("event_type".to_string(), JsonValue::Encoded("\"milestone_announced\"".into())),
            ("headline".to_string(), s("22.0")),
        ]
    );
}

#[test]
fn build_content_reports_the_binding_of_a_failed_mapping() {
    let r = recipe(
        None,
        vec![
            fm("value", FieldValueSource::Extracted),
            fm("value.x", FieldValueSource::Literal { value: "1".into() }),
        ],
        RecordType::Observation,
    );
    match build_content(&r.produces[0], 2, &num("5"), &plan_json(), None) {
        Err(ApplyError::Binding { index, reason }) => {
            assert_eq!(index, 2);
            assert_eq!(reason, "field mapping: path segment \"x\" expected an object");
        }
        other => panic!("got {other:?}"),
    }
}

#[test]
fn build_record_stamps_provenance_and_subjects() {
    let r = recipe(
        Some(ExtractionSpec::CssSelect { selector: ".card".into(), attribute: None }),
        vec![fm("value", FieldValueSource::Extracted)],
        RecordType::Observation,
    );
    let d = build_record(
        &r.produces[0],
        0,
        "49,000 t",
        &num("49000"),
        None,
        &r,
        &plan(),
        &plan_json(),
        Some("k1".into()),
        1_767_225_600_000,
    )
    .unwrap();
    assert_eq!(d.observed_at, 1_767_225_600_000);
    assert_eq!(d.id.len(), 36);
    assert_eq!(&d.id[14..15], "7");
    assert_eq!(d.record_type, RecordType::Observation);
    assert_eq!(d.content, vec![("value".to_string(), num("49000"))]);
    assert_eq!(d.dedup_key.as_deref(), Some("k1"));
    assert_eq!(d.provenance_source_id, "usgs_mcs#recipe:0190f2c4-8a6b-7c3d-9e1f-2a3b4c5d6e7f@v3");
    assert_eq!(d.source_url, "https://pubs.usgs.gov/x.csv");
    assert_eq!(d.selector_path, "css:.card >> css:h3");
    assert_eq!(d.raw_bytes_excerpt, "49,000 t");
    assert_eq!(d.topics, vec!["lithium".to_string(), "batteries".to_string()]);
}

#[test]
fn build_record_refuses_documents_and_assertions() {
    for (rt, name) in [(RecordType::Document, "Document"), (RecordType::Assertion, "Assertion")] {
        let r = recipe(None, vec![fm("value", FieldValueSource::Extracted)], rt);
        match build_record(&r.produces[0], 1, "1", &num("1"), None, &r, &plan(), &plan_json(), None, 0) {
            Err(ApplyError::Binding { index, reason }) => {
                assert_eq!(index, 1);
                assert!(reason.starts_with(&format!("record_type {name} is not producible from a recipe.")), "got {reason}");
            }
            other => panic!("got {other:?}"),
        }
    }
}

#[test]
fn walk_pointer_reads_back_what_insert_at_path_set() {
    let mut m = vec![("a".to_string(), obj(vec![("b", num("1"))]))];
    insert_at_path(&mut m, "a.c.d", s("x")).unwrap();
    let root = JsonValue::Object(m);
    assert_eq!(walk_pointer(&root, "a.c.d"), Some(s("x")));
    assert_eq!(walk_pointer(&root, "a.b"), Some(num("1")));
}

#[test]
fn entity_field_reads_strings_and_string_literals() {
    let content = vec![
        ("entity_id".to_string(), s("company:tsla")),
        ("kind".to_string(), JsonValue::Encoded("\"company\"".into())),
        ("canonical_name".to_string(), JsonValue::Encoded("42".into())),
    ];
    assert_eq!(entity_field(&content, "entity_id").unwrap(), "company:tsla");
    assert_eq!(entity_field(&content, "kind").unwrap(), "company");
    for key in ["canonical_name", "missing"] {
        match entity_field(&content, key) {
            Err(ApplyError::ContentAssembly { reason }) => {
                assert_eq!(reason, format!("entity content: missing or non-string `{key}`"))
            }
            other => panic!("got {other:?}"),
        }
    }
}

#[test]
fn insert_at_path_leaves_other_top_level_keys() {
    let mut m = vec![("x".to_string(), num("1")), ("y".to_string(), s("keep"))];
    insert_at_path(&mut m, "z.w", num("2")).unwrap();
    let root = JsonValue::Object(m);
    assert_eq!(walk_pointer(&root, "x"), Some(num("1")));
    assert_eq!(walk_pointer(&root, "y"), Some(s("keep")));
    assert_eq!(walk_pointer(&root, "z.w"), Some(num("2")));
}

#[test]
fn scalar_drafts_build_one_draft_per_binding_until_one_fails() {
    let mut r = recipe(None, vec![fm("value", FieldValueSource::Extracted)], RecordType::Observation);
    let second = r.produces[0].clone();
    r.produces.push(second);
    let inner = vec![None, None];
    let v = scalar_drafts(&r, &plan(), &plan_json(), "49000", &num("49000"), &inner, 7).unwrap();
    assert_eq!(v.len(), 2);
    assert!(v.iter().all(|d| d.dedup_key.is_none() && d.observed_at == 7 && d.selector_path == "css:h3"));
    r.produces[1].record_type = RecordType::Assertion;
    match scalar_drafts(&r, &plan(), &plan_json(), "49000", &num("49000"), &inner, 7) {
        Err(ApplyError::Binding { index, reason }) => {
            assert_eq!(index, 1);
            assert!(reason.starts_with("record_type Assertion is not producible"), "got {reason}");
        }
        other => panic!("got {other:?}"),
    }
}
