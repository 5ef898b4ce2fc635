use concord::capabilities::{CapabilityQualification, McpDiscoveryRecord, RegisteredCapabilityPackage};
use concord::store::{Database, DatabaseTables, StoreError};
use concord::workspaces::{ScienceRecord, ScienceRow, ScienceTable};

fn empty_tables() -> DatabaseTables {
    DatabaseTables {
        campaigns: Vec::new(),
        capabilities: Vec::new(),
        runs: Vec::new(),
        run_supervision: Vec::new(),
        metrics: Vec::new(),
        semantic_objects: Vec::new(),
        semantic_relations: Vec::new(),
        actions: Vec::new(),
        events: Vec::new(),
        external_jobs: Vec::new(),
        providers: Vec::new(),
        projections: Vec::new(),
        artifacts: Vec::new(),
        project_inputs: Vec::new(),
        agent_progressions: Vec::new(),
        science_records: Vec::new(),
        capability_packages: Vec::new(),
        mcp_discoveries: Vec::new(),
        capability_qualifications: Vec::new(),
        budgets: Vec::new(),
        operational_imports: Vec::new(),
        operational_sources: Vec::new(),
    }
}

fn row(table: ScienceTable, id: &str, campaign_id: &str, created_at: &str) -> ScienceRow {
    ScienceRow {
        table,
        record: ScienceRecord {
            id: id.to_owned(),
            campaign_id: campaign_id.to_owned(),
            created_at: created_at.to_owned(),
            record_json: format!("{{\"id\":\"{id}\"}}"),
        },
    }
}

fn ids(records: &[ScienceRecord]) -> Vec<&str> {
    records.iter().map(|record| record.id.as_str()).collect()
}

fn database(tables: DatabaseTables) -> Database {
    Database::restore("/tmp/concord-registry-test/state.sqlite", tables)
}

#[test]
fn standing_review_history_is_oldest_first_and_latest_is_the_newest() {
    let mut tables = empty_tables();
    tables.science_records = vec![
        row(ScienceTable::StandingReviewReceipts, "review:b", "campaign:a", "2026-01-02T00:00:00Z"),
        row(ScienceTable::StandingReviewReceipts, "review:other", "campaign:b", "2026-01-01T00:00:00Z"),
        row(ScienceTable::StandingReviewReceipts, "review:a", "campaign:a", "2026-01-01T00:00:00Z"),
        row(ScienceTable::ExecutionPlans, "plan:x", "campaign:a", "2025-12-31T00:00:00Z"),
    ];
    let database = database(tables);
    let workspace = database.standing_review_workspace("campaign:a").unwrap();
    assert_eq!(ids(&workspace.history), vec!["review:a", "review:b"]);
    assert_eq!(workspace.latest.unwrap().id, "review:b");
    let empty = database.standing_review_workspace("campaign:none").unwrap();
    assert!(empty.history.is_empty());
    assert!(empty.latest.is_none());
}

#[test]
fn science_workspace_lists_each_kind_by_time_then_identity() {
    let mut tables = empty_tables();
    tables.science_records = vec![
        row(ScienceTable::ArtifactVersions, "version:2", "campaign:a", "2026-01-01T00:00:00Z"),
        row(ScienceTable::ArtifactVersions, "version:1", "campaign:a", "2026-01-01T00:00:00Z"),
        row(ScienceTable::ArtifactReviews, "review:1", "campaign:a", "2026-01-03T00:00:00Z"),
        row(ScienceTable::DecisionMemos, "memo:1", "campaign:a", "2026-01-04T00:00:00Z"),
        row(ScienceTable::ArtifactVersions, "version:0", "campaign:b", "2025-01-01T00:00:00Z"),
    ];
    let workspace = database(tables).science_artifact_workspace("campaign:a").unwrap();
    assert_eq!(ids(&workspace.versions), vec!["version:1", "version:2"]);
    assert_eq!(ids(&workspace.reviews), vec!["review:1"]);
    assert_eq!(ids(&workspace.decision_memos), vec!["memo:1"]);
    assert!(workspace.annotations.is_empty());
    assert!(workspace.dispositions.is_empty());
    assert!(workspace.batches.is_empty());
    assert!(workspace.ranked_tables.is_empty());
}

#[test]
fn execution_workspace_separates_plans_and_receipts() {
    let mut tables = empty_tables();
    tables.science_records = vec![
        row(ScienceTable::ExecutionReceipts, "receipt:1", "campaign:a", "2026-01-02T00:00:00Z"),
        row(ScienceTable::ExecutionPlans, "plan:2", "campaign:a", "2026-01-03T00:00:00Z"),
        row(ScienceTable::ExecutionPlans, "plan:1", "campaign:a", "2026-01-01T00:00:00Z"),
    ];
    let workspace = database(tables).execution_workspace("campaign:a").unwrap();
    assert_eq!(ids(&workspace.plans), vec!["plan:1", "plan:2"]);
    assert_eq!(ids(&workspace.receipts), vec!["receipt:1"]);
}

fn package(record_id: &str, updated_at: &str) -> RegisteredCapabilityPackage {
    RegisteredCapabilityPackage {
        record_id: record_id.to_owned(),
        package_json: "{}".to_owned(),
        registered_at: "2026-01-01T00:00:00Z".to_owned(),
        updated_at: updated_at.to_owned(),
    }
}

#[test]
fn packages_are_listed_most_recently_updated_first() {
    let mut tables = empty_tables();
    tables.capability_packages = vec![
        package("capkg_b", "2026-01-01T00:00:00Z"),
        package("capkg_c", "2026-02-01T00:00:00Z"),
        package("capkg_a", "2026-01-01T00:00:00Z"),
    ];
    let packages = database(tables).capability_packages().unwrap();
    let order: Vec<&str> = packages.iter().map(|p| p.record_id.as_str()).collect();
    assert_eq!(order, vec!["capkg_c", "capkg_a", "capkg_b"]);
}

fn discovery(record_id: &str, package_record_id: &str, recorded_at: &str) -> McpDiscoveryRecord {
    McpDiscoveryRecord {
        record_id: record_id.to_owned(),
        package_record_id: package_record_id.to_owned(),
        package_content_sha256: "c".repeat(64),
        snapshot_json: "{}".to_owned(),
        recorded_at: recorded_at.to_owned(),
    }
}

#[test]
fn discoveries_of_a_package_are_newest_first() {
    let mut tables = empty_tables();
    tables.mcp_discoveries = vec![
        discovery("mcpdisc_1", "capkg_a", "2026-01-01T00:00:00Z"),
        discovery("mcpdisc_2", "capkg_b", "2026-01-02T00:00:00Z"),
        discovery("mcpdisc_3", "capkg_a", "2026-01-03T00:00:00Z"),
    ];
    let found = database(tables).mcp_discoveries_for_package("capkg_a").unwrap();
    let order: Vec<&str> = found.iter().map(|d| d.record_id.as_str()).collect();
    assert_eq!(order, vec!["mcpdisc_3", "mcpdisc_1"]);
}

fn qualification(record_id: &str, package_record_id: &str, sha: &str, previous: Option<&str>) -> CapabilityQualification {
    CapabilityQualification {
        record_id: record_id.to_owned(),
        package_record_id: package_record_id.to_owned(),
        qualification_sha256: sha.to_owned(),
        previous_qualification_sha256: previous.map(str::to_owned),
        qualification_json: "{}".to_owned(),
    }
}

#[test]
fn qualification_history_is_a_newest_first_hash_chain() {
    let mut tables = empty_tables();
    tables.capability_qualifications = vec![
        qualification("capqual_1", "capkg_a", "1111", None),
        qualification("capqual_x", "capkg_b", "9999", None),
        qualification("capqual_2", "capkg_a", "2222", Some("1111")),
    ];
    let database = database(tables);
    let history = database.capability_qualifications_for_package("capkg_a").unwrap();
    let order: Vec<&str> = history.iter().map(|q| q.record_id.as_str()).collect();
    assert_eq!(order, vec!["capqual_2", "capqual_1"]);
    let latest = database.latest_capability_qualification("capkg_a").unwrap().unwrap();
    assert_eq!(latest.qualification_sha256, "2222");
    assert!(database.latest_capability_qualification("capkg_none").unwrap().is_none());
}

#[test]
fn broken_qualification_chain_is_refused() {
    let mut tables = empty_tables();
    tables.capability_qualifications = vec![
        qualification("capqual_1", "capkg_a", "1111", None),
        qualification("capqual_2", "capkg_a", "2222", Some("0000")),
    ];
    let database = database(tables);
    assert!(matches!(
        database.capability_qualifications_for_package("capkg_a"),
        Err(StoreError::Invalid(_))
    ));
    assert!(matches!(
        database.latest_capability_qualification("capkg_a"),
        Err(StoreError::Invalid(_))
    ));
}
