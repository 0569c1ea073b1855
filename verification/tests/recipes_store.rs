use pipeline::recipes::{ExtractionSpec, FetchRecipe};
use pipeline::recipes_store::{load_latest, RecipeStoreError};

const PLAN: &str = "0190f2c4-8a6b-7c3d-9e1f-111111111111";

fn sample(id: &str, source_id: &str, version: u32, authored_at: u64) -> FetchRecipe {
    FetchRecipe {
        id: id.to_string(),
        dedup_key: Some(format!("{PLAN}:{source_id}")),
        plan_id: PLAN.to_string(),
        source_id: source_id.to_string(),
        source_url: "https://example.org/data.json".to_string(),
        extraction: ExtractionSpec::JsonPath { path: "$.price".to_string() },
        iterator: None,
        produces: Vec::new(),
        authored_at,
        authored_by: "operator".to_string(),
        version,
        static_payload: None,
        prior_recipe_id: None,
        reauthor_reason: None,
    }
}

#[test]
fn load_latest_recipes_for_plan_dedups_to_newest_per_source() {
    let base: u64 = 1_777_593_600_000;
    let one_day: u64 = 86_400_000;
    let a_v1_id = "0190f2c4-8a6b-7c3d-9e1f-0000000000a1";
    let a_v2_id = "0190f2c4-8a6b-7c3d-9e1f-0000000000a2";
    let b_v1_id = "0190f2c4-8a6b-7c3d-9e1f-0000000000b1";
    // The store returns rows newest first (authored_at, then version).
    let rows = vec![
        sample(a_v2_id, "source_a", 2, base + one_day),
        sample(b_v1_id, "source_b", 1, base),
        sample(a_v1_id, "source_a", 1, base),
    ];
    let latest = load_latest(rows);
    assert_eq!(latest.len(), 2, "expected one recipe per source");
    let a = latest.iter().find(|r| r.source_id == "source_a").unwrap();
    assert_eq!(a.id, a_v2_id, "source_a should resolve to v2");
    let b = latest.iter().find(|r| r.source_id == "source_b").unwrap();
    assert_eq!(b.id, b_v1_id, "source_b should resolve to v1");
}

#[test]
fn load_latest_keeps_row_order_and_handles_empty() {
    let rows = vec![
        sample("id-1", "s1", 3, 30),
        sample("id-2", "s2", 1, 20),
        sample("id-3", "s1", 2, 10),
        sample("id-4", "s3", 1, 5),
        sample("id-5", "s2", 0, 1),
    ];
    let ids: Vec<String> = load_latest(rows).into_iter().map(|r| r.id).collect();
    assert_eq!(ids, vec!["id-1", "id-2", "id-4"]);
    assert!(load_latest(Vec::new()).is_empty());
}

#[test]
fn recipe_store_error_messages() {
    assert_eq!(RecipeStoreError::Storage("disk".into()).message(), "storage error: disk");
    assert_eq!(
        RecipeStoreError::Serialize("extraction: bad".into()).message(),
        "recipe serialization failed: extraction: bad"
    );
    assert_eq!(
        RecipeStoreError::Deserialize("source_url: relative URL".into()).message(),
        "recipe deserialization failed: source_url: relative URL"
    );
}
