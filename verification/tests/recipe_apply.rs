use pipeline::parsers::{node_text, CsvOutcome, CsvRow, JsonNode, JsonQueryOutcome};
use pipeline::recipe_apply::{
    bound_extracted, csv_table_extraction, leading_numeric_prefix, numeric_candidate_text, detect_pdf_tables, extract, extract_csv_cell,
    extract_css_select, extract_json_path, extract_pdf_table, extract_regex, json_path_extraction,
    mode_name, path_expects_string, render_selector_path,
    strip_thousand_separator_commas, tokenize_line, truncate_content_assembly_reason, ApplyError,
    CONTENT_ASSEMBLY_REASON_MAX_CHARS, EXTRACTED_SCALAR_MAX_BYTES, RAW_BYTES_EXCERPT_CAP, truncate_excerpt,
};
use pipeline::recipes::{ExtractionSpec, RecordType, RowFilter};

#[test]
fn render_selector_path_css_without_attribute() {
    let s = render_selector_path(&ExtractionSpec::CssSelect {
        selector: "#price".into(),
        attribute: None,
    });
    assert_eq!(s, "css:#price");
}

#[test]
fn render_selector_path_css_with_attribute() {
    let s = render_selector_path(&ExtractionSpec::CssSelect {
        selector: ".quote".into(),
        attribute: Some("data-value".into()),
    });
    assert_eq!(s, "css:.quote[data-value]");
}

#[test]
fn render_selector_path_json() {
    let s = render_selector_path(&ExtractionSpec::JsonPath {
        path: "$.prices[-1].close".into(),
    });
    assert_eq!(s, "json:$.prices[-1].close");
}

#[test]
fn render_selector_path_csv_no_filter() {
    let s = render_selector_path(&ExtractionSpec::CsvCell {
        column: "close".into(),
        row_filter: None,
    });
    assert_eq!(s, "csv:close");
}

#[test]
fn render_selector_path_csv_equals_filter() {
    let s = render_selector_path(&ExtractionSpec::CsvCell {
        column: "close".into(),
        row_filter: Some(RowFilter::Equals {
            column: "date".into(),
            value: "2026-05-15".into(),
        }),
    });
    assert_eq!(s, "csv:close@date=2026-05-15");
}

#[test]
fn render_selector_path_csv_labeled_as() {
    let s = render_selector_path(&ExtractionSpec::CsvCell {
        column: "production".into(),
        row_filter: Some(RowFilter::LabeledAs {
            label_column: "country".into(),
            label: "Australia".into(),
        }),
    });
    assert_eq!(s, "csv:production@country=Australia");
}

#[test]
fn render_selector_path_pdf_table() {
    let s = render_selector_path(&ExtractionSpec::PdfTable {
        page: 7,
        table_index: 0,
        row: 2,
        col: 3,
    });
    assert_eq!(s, "pdf:p7/t0/r2/c3");
}

#[test]
fn render_selector_path_regex() {
    let s = render_selector_path(&ExtractionSpec::RegexCapture {
        pattern: "(\\d+)".into(),
        group: 1,
    });
    assert_eq!(s, "regex:group=1");
}

#[test]
fn bound_extracted_passes_typical_field_sizes() {
    for fixture in [
        "3.14",
        "1,234,567.89 USD",
        &"This is a long event description ".repeat(18),
    ] {
        let out = bound_extracted(fixture.to_string(), "json_path")
            .expect("typical sizes must pass the bound");
        assert_eq!(out, fixture);
    }
}

#[test]
fn truncate_content_assembly_reason_passes_short_messages_unchanged() {
    let short = "observation content: invalid type: string \"foo\", expected f64";
    assert_eq!(
        truncate_content_assembly_reason(short.to_string()),
        short
    );
}

#[test]
fn truncate_content_assembly_reason_preserves_head_and_tail() {
    let middle = "Z".repeat(4_000);
    let reason = format!(
        "observation content: invalid type: string \"{middle}\", expected f64"
    );
    let truncated = truncate_content_assembly_reason(reason.clone());

    assert!(
        truncated.chars().count()
            <= CONTENT_ASSEMBLY_REASON_MAX_CHARS + 32,
        "truncated message must stay near the cap, got {} chars",
        truncated.chars().count()
    );
    assert!(
        truncated.starts_with("observation content: invalid type: string"),
        "head must survive: {truncated}"
    );
    assert!(
        truncated.ends_with("expected f64"),
        "tail must survive: {truncated}"
    );
    assert!(
        truncated.contains("truncated"),
        "must signal truncation: {truncated}"
    );
    assert!(
        truncated.contains(&reason.chars().count().to_string()),
        "must name the full length: {truncated}"
    );
}

#[test]
fn tokenize_line_splits_on_any_whitespace_run() {
    assert_eq!(
        tokenize_line("Country Production"),
        vec!["Country".to_string(), "Production".to_string()]
    );
    assert_eq!(
        tokenize_line("Country     Production"),
        vec!["Country".to_string(), "Production".to_string()]
    );
    assert_eq!(
        tokenize_line("a\tb"),
        vec!["a".to_string(), "b".to_string()]
    );
}

#[test]
fn tokenize_line_treats_multi_word_cells_as_separate_tokens() {
    let v = tokenize_line("United States 1234");
    assert_eq!(
        v,
        vec!["United".to_string(), "States".to_string(), "1234".to_string()]
    );
}

#[test]
fn tokenize_line_returns_empty_for_blank() {
    assert!(tokenize_line("   ").is_empty());
    assert!(tokenize_line("").is_empty());
    assert!(tokenize_line("\t\n").is_empty());
}

    #[test]
    fn detect_pdf_tables_finds_one_clean_table() {
        let txt = "\
Country Production
Australia 88000
Chile 49000
Argentina 6200
";
        let tables = detect_pdf_tables(txt);
        assert_eq!(tables.len(), 1, "got {tables:?}");
        assert_eq!(tables[0].len(), 4);
        assert_eq!(tables[0][0], vec!["Country".to_string(), "Production".to_string()]);
        assert_eq!(tables[0][2], vec!["Chile".to_string(), "49000".to_string()]);
    }

    #[test]
    fn detect_pdf_tables_treats_blank_lines_as_skipped_not_terminators() {
        let txt = "\
A 1
B 2

C 3
D 4
";
        let tables = detect_pdf_tables(txt);
        assert_eq!(tables.len(), 1);
        assert_eq!(tables[0].len(), 4);
        assert_eq!(tables[0][0], vec!["A".to_string(), "1".to_string()]);
        assert_eq!(tables[0][3], vec!["D".to_string(), "4".to_string()]);
    }

    #[test]
    fn detect_pdf_tables_terminates_on_token_count_change_even_across_blanks() {
        let txt = "\
A 1
B 2

X y z
P q r
";
        let tables = detect_pdf_tables(txt);
        assert_eq!(tables.len(), 2);
        assert_eq!(tables[0][0].len(), 2);
        assert_eq!(tables[1][0].len(), 3);
    }

    #[test]
    fn detect_pdf_tables_breaks_on_token_count_change() {
        let txt = "\
A 1
B 2
X y z
P q r
";
        let tables = detect_pdf_tables(txt);
        assert_eq!(tables.len(), 2);
        assert_eq!(tables[0][0].len(), 2);
        assert_eq!(tables[1][0].len(), 3);
    }

    #[test]
    fn detect_pdf_tables_rejects_single_row_clusters() {
        let txt = "\
Just one line here
And then nothing.
";
        let tables = detect_pdf_tables(txt);
        assert_eq!(tables.len(), 0, "got {tables:?}");
    }

    #[test]
    fn detect_pdf_tables_rejects_single_column_lines() {
        let txt = "\
just_one_token
another
third
";
        let tables = detect_pdf_tables(txt);
        assert!(tables.is_empty());
    }

    #[test]
    fn detect_pdf_tables_terminates_at_multi_word_cell_row() {
        let txt = "\
A 1
B 2
United States 3
C 4
";
        let tables = detect_pdf_tables(txt);
        assert_eq!(tables.len(), 1);
        assert_eq!(tables[0].len(), 2);
        assert_eq!(tables[0][0], vec!["A".to_string(), "1".to_string()]);
    }


#[test]
fn json_path_extracts_a_scalar() {
    let bytes = br#"{"data": {"production": {"chile": 49000}}}"#;
    let out = extract_json_path(bytes, "$.data.production.chile").unwrap();
    assert_eq!(out, "49000");
}

#[test]
fn json_path_extracts_a_string_without_quotes() {
    let bytes = br#"{"label": "Annual production"}"#;
    let out = extract_json_path(bytes, "$.label").unwrap();
    assert_eq!(out, "Annual production");
}

#[test]
fn json_path_errors_when_no_match() {
    let bytes = br#"{"a": 1}"#;
    let err = extract_json_path(bytes, "$.missing").unwrap_err();
    assert!(matches!(err, ApplyError::Extraction { mode: "json_path", .. }), "got {err:?}");
}

#[test]
fn json_path_errors_when_bytes_not_json() {
    let bytes = b"not json";
    let err = extract_json_path(bytes, "$.a").unwrap_err();
    assert!(matches!(err, ApplyError::Extraction { mode: "json_path", .. }));
}

#[test]
fn json_path_skips_leading_nulls_and_returns_first_real_value() {
    let bytes = br#"[
        {"page": 1, "pages": 1, "per_page": 5, "total": 5},
        [
            {"date": "2024", "value": null},
            {"date": "2023", "value": null},
            {"date": "2022", "value": 178832000000.0},
            {"date": "2021", "value": 181847000000.0},
            {"date": "2020", "value": 156800000000.0}
        ]
    ]"#;
    let out = extract_json_path(bytes, "$[1][*].value").unwrap();
    assert_eq!(out, "178832000000.0");
}

#[test]
fn json_path_all_null_returns_actionable_error() {
    let bytes = br#"[
        {"date": "2024", "value": null},
        {"date": "2023", "value": null}
    ]"#;
    let err = extract_json_path(bytes, "$[*].value").unwrap_err();
    let reason = match err {
        ApplyError::Extraction { mode, reason } => {
            assert_eq!(mode, "json_path");
            reason
        }
        other => panic!("expected Extraction, got {other:?}"),
    };
    assert!(
        reason.to_lowercase().contains("null"),
        "error must name null as the cause; got: {reason}"
    );
    assert!(
        reason.contains("filter expression") || reason.contains("?("),
        "error must point at the filter-expression fix; got: {reason}"
    );
}

#[test]
fn json_path_single_null_match_returns_actionable_error() {
    let bytes = br#"{"value": null}"#;
    let err = extract_json_path(bytes, "$.value").unwrap_err();
    match err {
        ApplyError::Extraction { mode, reason } => {
            assert_eq!(mode, "json_path");
            assert!(
                reason.to_lowercase().contains("null"),
                "error must name null; got: {reason}"
            );
        }
        other => panic!("expected Extraction, got {other:?}"),
    }
}

#[test]
fn css_select_extracts_text() {
    let html = b"<html><body><table><tr><td class='prod'>49,000</td></tr></table></body></html>";
    let out = extract_css_select(html, "td.prod", None).unwrap();
    assert_eq!(out, "49,000");
}

#[test]
fn css_select_extracts_attribute() {
    let html = b"<a href='https://example.com/file.pdf'>report</a>";
    let out = extract_css_select(html, "a", Some("href")).unwrap();
    assert_eq!(out, "https://example.com/file.pdf");
}

#[test]
fn css_select_errors_when_selector_matches_nothing() {
    let html = b"<p>hi</p>";
    let err = extract_css_select(html, "table", None).unwrap_err();
    assert!(matches!(err, ApplyError::Extraction { mode: "css_select", .. }));
}

#[test]
fn css_select_rejects_oversized_extraction() {
    let huge = "x".repeat(EXTRACTED_SCALAR_MAX_BYTES + 100);
    let html = format!("<html><body>{huge}</body></html>");
    let err = extract_css_select(html.as_bytes(), "body", None).unwrap_err();
    let ApplyError::Extraction { mode, reason } = err else {
        panic!("expected Extraction error, got {err:?}");
    };
    assert_eq!(mode, "css_select");
    assert!(
        reason.contains("scalar"),
        "reason should explain the scalar contract, got {reason:?}"
    );
    assert!(
        reason.contains(&EXTRACTED_SCALAR_MAX_BYTES.to_string()),
        "reason should name the bound, got {reason:?}"
    );
    assert!(
        reason.len() < 1024,
        "reason itself must stay small (got {} bytes); the whole \
         point of the bound is to keep error messages short",
        reason.len()
    );
}

#[test]
fn json_path_rejects_oversized_extraction() {
    let huge = "y".repeat(EXTRACTED_SCALAR_MAX_BYTES + 100);
    let bytes = format!(r#"{{"data":"{huge}"}}"#).into_bytes();
    let err = extract_json_path(&bytes, "$.data").unwrap_err();
    assert!(
        matches!(err, ApplyError::Extraction { mode: "json_path", .. }),
        "got {err:?}"
    );
}

#[test]
fn csv_cell_extracts_by_row_filter() {
    let csv = b"country,production\nAustralia,88000\nChile,49000\nArgentina,6200\n";
    let out = extract_csv_cell(
        csv,
        "production",
        Some(&RowFilter::Equals {
            column: "country".into(),
            value: "Chile".into(),
        }),
    )
    .unwrap();
    assert_eq!(out, "49000");
}

#[test]
fn csv_cell_extracts_single_row_without_filter() {
    let csv = b"metric,value\nproduction,49000\n";
    let out = extract_csv_cell(csv, "value", None).unwrap();
    assert_eq!(out, "49000");
}

#[test]
fn csv_cell_errors_on_ambiguous_multi_row_without_filter() {
    let csv = b"metric,value\nproduction,49000\nreserves,9300000\n";
    let err = extract_csv_cell(csv, "value", None).unwrap_err();
    let msg = err.message();
    assert!(msg.contains("ambiguous"), "got {msg}");
}

#[test]
fn csv_cell_errors_when_column_missing() {
    let csv = b"country,production\nChile,49000\n";
    let err = extract_csv_cell(
        csv,
        "reserves",
        Some(&RowFilter::Equals {
            column: "country".into(),
            value: "Chile".into(),
        }),
    )
    .unwrap_err();
    let msg = err.message();
    assert!(msg.contains("not in headers"), "got {msg}");
}

#[test]
fn csv_cell_labeled_as_filter() {
    let csv = b"row_label,value\nTotal production,49000\nTotal reserves,9300000\n";
    let out = extract_csv_cell(
        csv,
        "value",
        Some(&RowFilter::LabeledAs {
            label_column: "row_label".into(),
            label: "Total production".into(),
        }),
    )
    .unwrap();
    assert_eq!(out, "49000");
}

#[test]
fn regex_capture_pulls_group_1() {
    let bytes = b"Production: 49,000 tonnes in 2024";
    let out = extract_regex(bytes, r"Production:\s*([\d,]+)\s*tonnes", 1).unwrap();
    assert_eq!(out, "49,000");
}

#[test]
fn regex_capture_errors_when_no_match() {
    let err = extract_regex(b"empty", r"\d+ tonnes", 1).unwrap_err();
    assert!(matches!(err, ApplyError::Extraction { mode: "regex_capture", .. }));
}

#[test]
fn regex_capture_errors_on_bad_pattern() {
    let err = extract_regex(b"x", "(unclosed", 1).unwrap_err();
    assert!(matches!(err, ApplyError::Extraction { mode: "regex_capture", .. }));
}

#[test]
fn extract_pdf_table_errors_on_invalid_pdf_bytes() {
    let pages = pdf_extract::extract_text_from_mem_by_pages(b"not a pdf at all").map_err(|e| e.to_string());
    let err = extract_pdf_table(&pages, 1, 0, 0, 0).unwrap_err();
    match err {
        ApplyError::Extraction { mode, reason } => {
            assert_eq!(mode, "pdf_table");
            assert!(reason.contains("pdf parse failed"), "got {reason}");
        }
        other => panic!("expected Extraction, got {other:?}"),
    }
}

#[test]
fn path_expects_string_covers_event_headline() {
    assert!(path_expects_string(RecordType::Event, "headline"));
}

#[test]
fn path_expects_string_covers_observation_metric_unit_currency_period() {
    for path in ["metric", "unit", "currency", "period"] {
        assert!(
            path_expects_string(RecordType::Observation, path),
            "Observation.{path} must be in the String set"
        );
    }
}

#[test]
fn path_expects_string_rejects_observation_value() {
    assert!(!path_expects_string(RecordType::Observation, "value"));
    assert!(
        !path_expects_string(RecordType::Observation, "value_uncertainty"),
        "value_uncertainty is Option<f64>, not String"
    );
}

#[test]
fn path_expects_string_covers_relation_entity_endpoints() {
    assert!(path_expects_string(RecordType::Relation, "from"));
    assert!(path_expects_string(RecordType::Relation, "to"));
    assert!(path_expects_string(RecordType::Relation, "kind"));
}

#[test]
fn path_expects_string_covers_nested_magnitude_paths() {
    for record_type in [RecordType::Event, RecordType::Relation] {
        for path in [
            "magnitude.metric",
            "magnitude.unit",
            "magnitude.currency",
            "magnitude.period",
        ] {
            assert!(
                path_expects_string(record_type, path),
                "{record_type:?}.{path} must be in the String set"
            );
        }
    }
}

#[test]
fn path_expects_string_empty_for_non_recipe_record_types() {
    for record_type in [RecordType::Document, RecordType::Assertion] {
        assert!(!path_expects_string(record_type, "any_path"));
        assert!(!path_expects_string(record_type, "headline"));
    }
}

#[test]
fn path_expects_string_covers_entity_fields() {
    for path in ["entity_id", "kind", "canonical_name"] {
        assert!(
            path_expects_string(RecordType::Entity, path),
            "Entity.{path} must be in the String set"
        );
    }
    assert!(!path_expects_string(RecordType::Entity, "geometry"));
    assert!(!path_expects_string(RecordType::Entity, "value"));
}


#[test]
fn mode_name_matches_serde_names() {
    assert_eq!(mode_name(&ExtractionSpec::JsonPath { path: "$".into() }), "json_path");
    assert_eq!(
        mode_name(&ExtractionSpec::CssSelect { selector: "p".into(), attribute: None }),
        "css_select"
    );
    assert_eq!(
        mode_name(&ExtractionSpec::CsvCell { column: "c".into(), row_filter: None }),
        "csv_cell"
    );
    assert_eq!(
        mode_name(&ExtractionSpec::PdfTable { page: 1, table_index: 0, row: 0, col: 0 }),
        "pdf_table"
    );
    assert_eq!(
        mode_name(&ExtractionSpec::RegexCapture { pattern: "x".into(), group: 1 }),
        "regex_capture"
    );
}

#[test]
fn bound_extracted_rejects_one_byte_over_the_bound() {
    let at = "a".repeat(EXTRACTED_SCALAR_MAX_BYTES);
    assert_eq!(bound_extracted(at.clone(), "regex_capture").unwrap(), at);
    let over = "b".repeat(EXTRACTED_SCALAR_MAX_BYTES + 1);
    match bound_extracted(over, "regex_capture").unwrap_err() {
        ApplyError::Extraction { mode, reason } => {
            assert_eq!(mode, "regex_capture");
            assert!(reason.starts_with("extraction returned 2049 bytes;"), "got {reason}");
            let preview = format!("Preview: \"{}\"", "b".repeat(120));
            assert!(reason.ends_with(&preview), "got {reason}");
        }
        other => panic!("expected Extraction, got {other:?}"),
    }
}

#[test]
fn bound_extracted_counts_utf8_bytes_not_chars() {
    let s = "\u{e9}".repeat(1025);
    assert!(bound_extracted(s, "css_select").is_err());
    let t = "\u{e9}".repeat(1024);
    assert_eq!(bound_extracted(t.clone(), "css_select").unwrap(), t);
}

#[test]
fn truncate_content_assembly_reason_exact_shape() {
    let reason = "h".repeat(400) + &"t".repeat(401);
    let out = truncate_content_assembly_reason(reason);
    let expected = format!(
        "{} \u{2026} [value truncated, total 801 chars] \u{2026} {}",
        "h".repeat(368),
        "t".repeat(184)
    );
    assert_eq!(out, expected);
    let edge = "q".repeat(CONTENT_ASSEMBLY_REASON_MAX_CHARS);
    assert_eq!(truncate_content_assembly_reason(edge.clone()), edge);
}

#[test]
fn strip_thousand_separator_commas_examples() {
    assert_eq!(strip_thousand_separator_commas("74,700"), Some("74700".to_string()));
    assert_eq!(strip_thousand_separator_commas("1,234,567"), Some("1234567".to_string()));
    assert_eq!(strip_thousand_separator_commas("42"), Some("42".to_string()));
    assert_eq!(strip_thousand_separator_commas("1234.56"), Some("1234.56".to_string()));
    assert_eq!(strip_thousand_separator_commas("-3,200.5"), Some("-3200.5".to_string()));
    assert_eq!(strip_thousand_separator_commas("+1,000 t"), Some("1000 t".to_string()));
    assert_eq!(strip_thousand_separator_commas("1,23"), None);
    assert_eq!(strip_thousand_separator_commas("abc,def"), None);
    assert_eq!(strip_thousand_separator_commas("1234,567"), None);
    assert_eq!(strip_thousand_separator_commas("1.2,3"), None);
    assert_eq!(strip_thousand_separator_commas("12 a,b"), None);
}

#[test]
fn render_selector_path_json_path() {
    let s = render_selector_path(&ExtractionSpec::JsonPath { path: "$.a[0]".into() });
    assert_eq!(s, "json:$.a[0]");
}

#[test]
fn apply_error_messages_name_the_stage() {
    let e = ApplyError::Extraction { mode: "csv_cell", reason: "no rows matched the filter".into() };
    assert_eq!(e.message(), "extraction [csv_cell]: no rows matched the filter");
    let b = ApplyError::Binding { index: 3, reason: "bad".into() };
    assert_eq!(b.message(), "binding[3]: bad");
    let n = ApplyError::NotImplemented { mode: "iterator", reason: "later".into() };
    assert_eq!(n.message(), "extraction mode not implemented: iterator (later)");
}

#[test]
fn json_path_extraction_from_outcomes() {
    let nodes = JsonQueryOutcome::Matched {
        nodes: vec![
            JsonNode { is_null: true, string: None, json: "null".into() },
            JsonNode { is_null: false, string: None, json: "7".into() },
        ],
    };
    assert_eq!(json_path_extraction(&nodes, "$.x").unwrap(), "7");
    let empty = JsonQueryOutcome::Matched { nodes: vec![] };
    match json_path_extraction(&empty, "$.x").unwrap_err() {
        ApplyError::Extraction { reason, .. } => assert_eq!(reason, "path \"$.x\" matched no nodes"),
        other => panic!("got {other:?}"),
    }
    let bad = JsonQueryOutcome::NotJson { detail: "eof".into() };
    match json_path_extraction(&bad, "$").unwrap_err() {
        ApplyError::Extraction { reason, .. } => assert_eq!(reason, "bytes did not parse as JSON: eof"),
        other => panic!("got {other:?}"),
    }
}

#[test]
fn csv_table_extraction_reports_bad_rows_and_short_rows() {
    let table = CsvOutcome::Table {
        headers: vec!["a".into(), "b".into()],
        rows: vec![
            CsvRow::Fields { cells: vec!["1".into()] },
            CsvRow::Bad { detail: "oops".into() },
        ],
    };
    match csv_table_extraction(&table, "b", None).unwrap_err() {
        ApplyError::Extraction { reason, .. } => assert_eq!(reason, "row has no cell at index 1"),
        other => panic!("got {other:?}"),
    }
    match csv_table_extraction(&table, "a", None).unwrap_err() {
        ApplyError::Extraction { reason, .. } => assert_eq!(reason, "row parse error: oops"),
        other => panic!("got {other:?}"),
    }
    match csv_table_extraction(&table, "z", None).unwrap_err() {
        ApplyError::Extraction { reason, .. } => {
            assert_eq!(reason, "column \"z\" not in headers [\"a\", \"b\"]")
        }
        other => panic!("got {other:?}"),
    }
}

#[test]
fn extract_pdf_table_addresses_cells_of_detected_tables() {
    let pages: Result<Vec<String>, String> = Ok(vec![
        "Some prose on the cover page.".to_string(),
        "Country Production\nAustralia 88000\nChile 49000\n".to_string(),
    ]);
    assert_eq!(extract_pdf_table(&pages, 2, 0, 2, 1).unwrap(), "49000");
    assert_eq!(extract_pdf_table(&pages, 2, 0, 0, 0).unwrap(), "Country");
    let reason = |r: Result<String, ApplyError>| match r.unwrap_err() {
        ApplyError::Extraction { mode, reason } => {
            assert_eq!(mode, "pdf_table");
            reason
        }
        other => panic!("got {other:?}"),
    };
    assert_eq!(
        reason(extract_pdf_table(&pages, 0, 0, 0, 0)),
        "page must be 1-indexed; 0 is not a valid PDF page"
    );
    assert_eq!(reason(extract_pdf_table(&pages, 9, 0, 0, 0)), "page 9 out of range (PDF has 2 pages)");
    assert_eq!(
        reason(extract_pdf_table(&pages, 1, 0, 0, 0)),
        "table_index 0 not found on page 1 (0 tables detected; use table_index 0..0)"
    );
    assert_eq!(
        reason(extract_pdf_table(&pages, 2, 0, 99, 0)),
        "row 99 out of range on page 2, table 0 (table has 3 rows)"
    );
    assert_eq!(
        reason(extract_pdf_table(&pages, 2, 0, 1, 99)),
        "col 99 out of range at page 2, table 0, row 1 (row has 2 cells)"
    );
    let failed: Result<Vec<String>, String> = Err("bad header".to_string());
    assert_eq!(reason(extract_pdf_table(&failed, 1, 0, 0, 0)), "pdf parse failed: bad header");
}

fn no_pdf() -> Result<Vec<String>, String> {
    Err("not a PDF".to_string())
}

#[test]
fn extract_dispatches_on_the_spec() {
    let spec = ExtractionSpec::RegexCapture { pattern: r"(\d+)".into(), group: 1 };
    assert_eq!(extract(&spec, b"abc 42 def", &no_pdf()).unwrap(), "42");
    let spec = ExtractionSpec::CsvCell { column: "v".into(), row_filter: None };
    assert_eq!(extract(&spec, b"v\n9\n", &no_pdf()).unwrap(), "9");
    let spec = ExtractionSpec::JsonPath { path: "$.k".into() };
    assert_eq!(extract(&spec, br#"{"k": true}"#, &no_pdf()).unwrap(), "true");
    let spec = ExtractionSpec::CssSelect { selector: "b".into(), attribute: None };
    assert_eq!(extract(&spec, b"<p><b>  bold  </b></p>", &no_pdf()).unwrap(), "bold");
    let spec = ExtractionSpec::RegexCapture { pattern: "x".into(), group: 2 };
    match extract(&spec, b"xyz", &no_pdf()).unwrap_err() {
        ApplyError::Extraction { mode, reason } => {
            assert_eq!(mode, "regex_capture");
            assert_eq!(reason, "capture group 2 not present in match");
        }
        other => panic!("got {other:?}"),
    }
}

#[test]
fn css_attribute_missing_and_empty_values() {
    match extract_css_select(b"<a>x</a>", "a", Some("href")).unwrap_err() {
        ApplyError::Extraction { reason, .. } => assert_eq!(reason, "element has no attribute \"href\""),
        other => panic!("got {other:?}"),
    }
    match extract_css_select(b"<p>   </p>", "p", None).unwrap_err() {
        ApplyError::Extraction { reason, .. } => assert_eq!(reason, "selection resolved to empty string"),
        other => panic!("got {other:?}"),
    }
    match extract_css_select(&[0xff, 0xfe], "p", None).unwrap_err() {
        ApplyError::Extraction { reason, .. } => assert!(reason.starts_with("bytes were not UTF-8: ")),
        other => panic!("got {other:?}"),
    }
}

#[test]
fn detected_tables_are_rectangular_with_two_rows() {
    let txt = "a b\nc d\ne f g\nh i j\nk l m\nsolo\nx y\n";
    let tables = detect_pdf_tables(txt);
    assert_eq!(tables.len(), 2);
    for t in &tables {
        assert!(t.len() >= 2);
        assert!(t[0].len() >= 2);
        assert!(t.iter().all(|r| r.len() == t[0].len()));
    }
}

#[test]
fn numeric_candidate_text_normalises_formatted_values() {
    let n = |s: &str| numeric_candidate_text(s);
    assert_eq!(n("74,700"), Some("74700".to_string()));
    assert_eq!(n("est. 1,200"), Some("1200".to_string()));
    assert_eq!(n("est 800"), Some("800".to_string()));
    assert_eq!(n("~5000"), Some("5000".to_string()));
    assert_eq!(n("\u{2248}10,000"), Some("10000".to_string()));
    assert_eq!(n("$1,234.56"), Some("1234.56".to_string()));
    assert_eq!(n("\u{20ac}1,000"), Some("1000".to_string()));
    assert_eq!(n("USD 1,234"), Some("1234".to_string()));
    assert_eq!(n("1,234 EUR"), Some("1234".to_string()));
    assert_eq!(n("1 234.5"), Some("1234.5".to_string()));
    assert_eq!(n("e 12"), Some("12".to_string()));
    assert_eq!(n("e1,200"), Some("1200".to_string()));
    assert_eq!(n("2e3"), Some("2e3".to_string()));
    assert_eq!(n("1.234,56"), None);
    assert_eq!(n("   "), None);
    assert_eq!(n("1,23"), Some("1,23".to_string()));
    assert_eq!(n("49,000 t"), Some("49000t".to_string()));
    assert_eq!(leading_numeric_prefix("49000t"), "49000");
    assert_eq!(leading_numeric_prefix("12.5%"), "12.5");
    assert_eq!(leading_numeric_prefix("abc"), "");
}

#[test]
fn truncate_excerpt_short_string_passes_through() {
    let s = truncate_excerpt("613.99");
    assert_eq!(s, "613.99");
}

#[test]
fn truncate_excerpt_long_string_gets_ellipsis() {
    let s = "x".repeat(500);
    let truncated = truncate_excerpt(&s);
    let cap = RAW_BYTES_EXCERPT_CAP;
    // 256 'x' codepoints + 1 ellipsis codepoint
    assert_eq!(truncated.chars().count(), cap + 1);
    assert!(truncated.ends_with('\u{2026}'));
}

#[test]
fn truncate_excerpt_multibyte_codepoint_safe() {
    let s = "\u{65e5}".repeat(500);
    let truncated = truncate_excerpt(&s);
    assert!(truncated.is_char_boundary(truncated.len()));
    assert!(truncated.ends_with('\u{2026}'));
}

#[test]
fn truncate_excerpt_at_the_cap_is_kept() {
    let s = "y".repeat(RAW_BYTES_EXCERPT_CAP);
    assert_eq!(truncate_excerpt(&s), s);
    let over = "y".repeat(RAW_BYTES_EXCERPT_CAP + 1);
    assert_eq!(truncate_excerpt(&over), format!("{}\u{2026}", "y".repeat(RAW_BYTES_EXCERPT_CAP)));
}

#[test]
fn node_text_unquotes_strings_and_renders_other_values() {
    let s = JsonNode { is_null: false, string: Some("Chile".into()), json: "\"Chile\"".into() };
    let n = JsonNode { is_null: false, string: None, json: "49000".into() };
    assert_eq!(node_text(&s), "Chile");
    assert_eq!(node_text(&n), "49000");
}
