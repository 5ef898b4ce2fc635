use concord::records::{
    CampaignCapabilityUpdate, Capability,
    ActionRecord, AgentProgressionAction, AgentProgressionRecord, Artifact, Campaign, DesignProgram,
    ExternalJob, MetricPoint, ObjectProjection, ProgressionRow, ProjectInputRow,
    ProjectInputVersion, Run, SemanticObject, SemanticRelation, SetAgentProgressionRequest,
};
use concord::notes::{CreateNoteRequest, NOTE_CONTRACT};
use concord::store::{Database, DatabaseTables, StoreError, PROJECT_INPUT_CONTRACT};

fn empty_tables() -> DatabaseTables {
    DatabaseTables {
        campaigns: Vec::new(),
        capabilities: Vec::new(),
        runs: Vec::new(),
        run_supervision: Vec::new(),
        metrics: Vec::new(),
        semantic_objects: Vec::new(),
        semantic_relations: Vec::new(),
        actions: Vec::new(),
        events: Vec::new(),
        external_jobs: Vec::new(),
        providers: Vec::new(),
        projections: Vec::new(),
        artifacts: Vec::new(),
        project_inputs: Vec::new(),
        agent_progressions: Vec::new(),
        science_records: Vec::new(),
        capability_packages: Vec::new(),
        mcp_discoveries: Vec::new(),
        capability_qualifications: Vec::new(),
        budgets: Vec::new(),
        operational_imports: Vec::new(),
        operational_sources: Vec::new(),
    }
}

fn campaign(id: &str) -> Campaign {
    Campaign {
        id: id.to_owned(),
        name: "Campaign".to_owned(),
        domain: "test".to_owned(),
        objective: "campaign test".to_owned(),
        status: "active".to_owned(),
        created_at: "2026-08-09T19:30:00+00:00".to_owned(),
        program: DesignProgram {
            id: "program".to_owned(),
            name: "Program".to_owned(),
            language: "connected".to_owned(),
            language_version: "0.1".to_owned(),
            source: "artifacts".to_owned(),
        },
        capability_ids: Vec::new(),
    }
}

fn run(id: &str, status: &str) -> Run {
    Run {
        id: id.to_owned(),
        campaign_id: "campaign:a".to_owned(),
        capability_id: "test.capability".to_owned(),
        name: "Run".to_owned(),
        status: status.to_owned(),
        phase: "execute".to_owned(),
        progress_bits: 0.5f64.to_bits(),
        started_at: None,
        finished_at: None,
        external_url: None,
        pid: Some(1234),
        budget_ceiling_usd_bits: None,
        cost_usd_bits: None,
        parameters_json: "{}".to_owned(),
        resources_json: "{}".to_owned(),
    }
}

fn metric(run_id: &str, step: i64, value: f64) -> MetricPoint {
    MetricPoint {
        run_id: run_id.to_owned(),
        name: "loss".to_owned(),
        step,
        value_bits: value.to_bits(),
        timestamp: "2026-09-03T12:00:00Z".to_owned(),
    }
}

fn object(id: &str, semantic_type: &str) -> SemanticObject {
    SemanticObject {
        id: id.to_owned(),
        campaign_id: Some("campaign:a".to_owned()),
        run_id: None,
        kind: "evidence".to_owned(),
        semantic_type: semantic_type.to_owned(),
        state: "recorded".to_owned(),
        label: None,
        payload_json: "{\"role\":\"assistant\"}".to_owned(),
        created_at: "2026-08-23T00:00:00Z".to_owned(),
        updated_at: "2026-08-23T00:00:00Z".to_owned(),
    }
}

fn relation() -> SemanticRelation {
    SemanticRelation {
        id: "relation:reply".to_owned(),
        campaign_id: Some("campaign:a".to_owned()),
        run_id: None,
        subject_id: "message:assistant".to_owned(),
        predicate: "replies_to".to_owned(),
        object_id: "message:user".to_owned(),
        payload_json: "{}".to_owned(),
        timestamp: "2026-08-23T00:00:01Z".to_owned(),
    }
}

fn action() -> ActionRecord {
    ActionRecord {
        id: "action:exchange".to_owned(),
        campaign_id: Some("campaign:a".to_owned()),
        run_id: None,
        action_type: "research_exchange".to_owned(),
        actor: "assistant".to_owned(),
        target_id: Some("message:assistant".to_owned()),
        status: "recorded".to_owned(),
        payload_json: "{}".to_owned(),
        timestamp: "2026-08-23T00:00:01Z".to_owned(),
    }
}

fn job(id: &str, external_id: &str) -> ExternalJob {
    ExternalJob {
        id: id.to_owned(),
        campaign_id: Some("campaign:a".to_owned()),
        run_id: None,
        provider: "quantum".to_owned(),
        external_id: external_id.to_owned(),
        label: "Job".to_owned(),
        status: "queued".to_owned(),
        chip: Some("chip-1".to_owned()),
        submitted_at: Some("2026-09-03T12:00:00Z".to_owned()),
        started_at: None,
        finished_at: None,
        rate_per_min_usd_bits: Some(1.5f64.to_bits()),
        max_cost_usd_bits: None,
        cost_usd_bits: None,
        queue_position: Some(3),
        estimated_wait_seconds: None,
        payload_json: "{}".to_owned(),
        updated_at: "2026-09-03T12:00:00Z".to_owned(),
    }
}

fn projection(id: &str, x: f64) -> ObjectProjection {
    ObjectProjection {
        id: id.to_owned(),
        campaign_id: "campaign:a".to_owned(),
        run_id: None,
        object_id: "observation:1".to_owned(),
        space: "migration-pca".to_owned(),
        x_bits: x.to_bits(),
        y_bits: 2.0f64.to_bits(),
        z_bits: None,
        group_id: Some("north-pacific".to_owned()),
        signals_json: "{\"confidence\":0.9}".to_owned(),
        selected: false,
        label: Some("Observation 1".to_owned()),
        updated_at: "2026-09-03T12:00:00Z".to_owned(),
    }
}

fn artifact(id: &str, byte_size: u64) -> Artifact {
    Artifact {
        id: id.to_owned(),
        run_id: None,
        kind: "project_input".to_owned(),
        media_type: "text/csv".to_owned(),
        byte_size,
        path: "/tmp/inputs/samples.csv".to_owned(),
        source_path: None,
        created_at: "2026-09-03T12:00:00Z".to_owned(),
    }
}

fn input(id: &str, version: u64, previous: Option<(&str, &str)>, sha: &str) -> ProjectInputRow {
    ProjectInputRow {
        record: ProjectInputVersion {
            contract: PROJECT_INPUT_CONTRACT.to_owned(),
            id: id.to_owned(),
            campaign_id: "campaign:a".to_owned(),
            logical_path: "dataset/samples.csv".to_owned(),
            version,
            artifact_id: format!("artifact:{id}"),
            content_sha256: "c".repeat(64),
            byte_size: 17,
            media_type: "text/csv".to_owned(),
            previous_version_id: previous.map(|p| p.0.to_owned()),
            previous_version_sha256: previous.map(|p| p.1.to_owned()),
            actor: "researcher".to_owned(),
            idempotency_key: format!("upload-{version}"),
            created_at: "2026-09-03T12:00:00Z".to_owned(),
            record_sha256: sha.to_owned(),
        },
        record_json: format!("{{\"id\":\"{id}\"}}"),
    }
}

fn progression(run_id: &str, sequence: u64, previous: Option<&str>, sha: &str) -> ProgressionRow {
    ProgressionRow {
        agent_run_id: run_id.to_owned(),
        sequence,
        record: AgentProgressionRecord {
            contract: "concord.agent-progression/1".to_owned(),
            agent_run_id: run_id.to_owned(),
            sequence,
            agent_revision: sequence + 1,
            agent_event_sha256: "e".repeat(64),
            request: SetAgentProgressionRequest {
                action: AgentProgressionAction::Run,
                actor: "primary".to_owned(),
                reason: "Run within the frozen limits".to_owned(),
                idempotency_key: format!("step-{sequence}"),
                expected_record_sha256: None,
                expected_agent_revision: None,
            },
            previous_record_sha256: previous.map(|p| p.to_owned()),
            created_at: "2026-09-03T12:00:00Z".to_owned(),
            record_sha256: sha.to_owned(),
        },
    }
}

fn store_with(tables: DatabaseTables) -> Database {
    Database::restore("/tmp/concord-store-test/state.sqlite", tables)
}

#[test]
fn new_store_is_empty_until_a_campaign_exists() {
    let store = Database::new("/tmp/concord-store-test/state.sqlite").unwrap();
    assert!(store.is_empty().unwrap());
    assert_eq!(store.path(), "/tmp/concord-store-test/state.sqlite");
    let mut tables = empty_tables();
    tables.campaigns.push(campaign("campaign:a"));
    assert!(!store_with(tables).is_empty().unwrap());
}

#[test]
fn campaign_ids_are_sorted_and_distinct() {
    let mut tables = empty_tables();
    tables.campaigns.push(campaign("campaign:c"));
    tables.campaigns.push(campaign("campaign:a"));
    tables.campaigns.push(campaign("campaign:b"));
    let store = store_with(tables);
    assert_eq!(
        store.campaign_ids().unwrap(),
        vec!["campaign:a", "campaign:b", "campaign:c"]
    );
    assert_eq!(store.campaign("campaign:b").unwrap().unwrap().id, "campaign:b");
    assert!(store.campaign("campaign:z").unwrap().is_none());
}

#[test]
fn metrics_need_their_run_and_replace_the_same_step() {
    let mut tables = empty_tables();
    tables.runs.push(run("run:a", "running"));
    let mut store = store_with(tables);
    assert!(matches!(
        store.insert_metric(metric("run:missing", 0, 1.0)),
        Err(StoreError::Constraint(_))
    ));
    store.insert_metric(metric("run:a", 0, 1.0)).unwrap();
    store.insert_metric(metric("run:a", 1, 0.5)).unwrap();
    store.insert_metric(metric("run:a", 0, 0.75)).unwrap();
    let metrics = &store.tables().metrics;
    assert_eq!(metrics.len(), 2);
    assert_eq!(f64::from_bits(metrics[0].value_bits), 0.75);
    assert_eq!(metrics[1].step, 1);
}

#[test]
fn external_job_reports_merge_over_the_stored_job() {
    let mut store = store_with(empty_tables());
    store.upsert_external_job(job("job:1", "ext-1")).unwrap();
    let mut report = job("job:other-id", "ext-1");
    report.status = "running".to_owned();
    report.chip = None;
    report.started_at = Some("2026-09-03T12:05:00Z".to_owned());
    store.upsert_external_job(report).unwrap();
    let jobs = &store.tables().external_jobs;
    assert_eq!(jobs.len(), 1);
    assert_eq!(jobs[0].id, "job:1");
    assert_eq!(jobs[0].status, "running");
    assert_eq!(jobs[0].chip.as_deref(), Some("chip-1"));
    assert_eq!(jobs[0].started_at.as_deref(), Some("2026-09-03T12:05:00Z"));
    assert!(matches!(
        store.upsert_external_job(job("job:1", "ext-2")),
        Err(StoreError::Constraint(_))
    ));
}

#[test]
fn projections_must_be_finite_and_keep_their_identity() {
    let mut tables = empty_tables();
    tables.campaigns.push(campaign("campaign:a"));
    let mut store = store_with(tables);
    assert!(matches!(
        store.upsert_projection(projection("projection:1", f64::NAN)),
        Err(StoreError::Invalid(_))
    ));
    assert!(matches!(
        store.upsert_projection(projection("projection:1", f64::INFINITY)),
        Err(StoreError::Invalid(_))
    ));
    let mut elsewhere = projection("projection:9", 1.0);
    elsewhere.campaign_id = "campaign:missing".to_owned();
    assert!(matches!(
        store.upsert_projection(elsewhere),
        Err(StoreError::Constraint(_))
    ));
    store.upsert_projection(projection("projection:1", 1.0)).unwrap();
    store.upsert_projection(projection("projection:2", 3.0)).unwrap();
    let projections = &store.tables().projections;
    assert_eq!(projections.len(), 1);
    assert_eq!(projections[0].id, "projection:1");
    assert_eq!(f64::from_bits(projections[0].x_bits), 3.0);
}

#[test]
fn input_owned_artifacts_are_immutable() {
    let mut tables = empty_tables();
    tables.project_inputs.push(input("input-a", 1, None, &"1".repeat(64)));
    tables.artifacts.push(artifact("artifact:input-a", 17));
    let mut store = store_with(tables);
    store.insert_artifact(artifact("artifact:input-a", 17)).unwrap();
    assert!(matches!(
        store.insert_artifact(artifact("artifact:input-a", 18)),
        Err(StoreError::Invalid(_))
    ));
    assert_eq!(store.tables().artifacts[0].byte_size, 17);
    store.insert_artifact(artifact("artifact:free", 5)).unwrap();
    store.insert_artifact(artifact("artifact:free", 6)).unwrap();
    assert_eq!(store.tables().artifacts.len(), 2);
    assert_eq!(store.tables().artifacts[1].byte_size, 6);
}

#[test]
fn only_the_attachment_boundary_records_project_inputs() {
    let mut store = store_with(empty_tables());
    match store.upsert_semantic_object(object("forged", PROJECT_INPUT_CONTRACT)) {
        Err(StoreError::Invalid(message)) => {
            assert_eq!(message, "project input records must use the input attachment boundary");
        }
        other => panic!("expected a refusal, got {other:?}"),
    }
    store
        .upsert_semantic_object(object("message:1", "concord.research_message"))
        .unwrap();
    let mut later = object("message:1", "concord.research_message");
    later.created_at = "2026-08-24T00:00:00Z".to_owned();
    later.updated_at = "2026-08-24T00:00:00Z".to_owned();
    store.upsert_semantic_object(later).unwrap();
    let objects = &store.tables().semantic_objects;
    assert_eq!(objects.len(), 1);
    assert_eq!(objects[0].created_at, "2026-08-23T00:00:00Z");
    assert_eq!(objects[0].updated_at, "2026-08-24T00:00:00Z");
}

#[test]
fn research_exchange_is_recorded_whole_or_not_at_all() {
    let mut store = store_with(empty_tables());
    let refused = store.record_research_exchange(
        object("message:user", "concord.research_message"),
        object("message:assistant", PROJECT_INPUT_CONTRACT),
        relation(),
        action(),
    );
    assert!(matches!(refused, Err(StoreError::Invalid(_))));
    assert!(store.tables().semantic_objects.is_empty());
    assert!(store.tables().semantic_relations.is_empty());
    assert!(store.tables().actions.is_empty());

    store
        .record_research_exchange(
            object("message:user", "concord.research_message"),
            object("message:assistant", "concord.research_message"),
            relation(),
            action(),
        )
        .unwrap();
    assert_eq!(store.tables().semantic_objects.len(), 2);
    assert_eq!(store.tables().semantic_relations.len(), 1);
    assert_eq!(store.tables().actions.len(), 1);
}

#[test]
fn only_supervised_active_runs_are_recoverable() {
    let mut tables = empty_tables();
    tables.runs.push(run("local:run", "running"));
    tables.runs.push(run("external:run", "running"));
    tables.runs.push(run("done:run", "succeeded"));
    tables.runs.push(run("queued:run", "queued"));
    tables.run_supervision.push("local:run".to_owned());
    tables.run_supervision.push("done:run".to_owned());
    tables.run_supervision.push("queued:run".to_owned());
    let store = store_with(tables);
    let runs = store.recoverable_local_runs().unwrap();
    let ids: Vec<&str> = runs.iter().map(|r| r.id.as_str()).collect();
    assert_eq!(ids, ["local:run", "queued:run"]);
}

#[test]
fn input_versions_are_read_through_their_lineage() {
    let first_sha = "1".repeat(64);
    let mut tables = empty_tables();
    tables.project_inputs.push(input("input-a", 1, None, &first_sha));
    tables
        .project_inputs
        .push(input("input-b", 2, Some(("input-a", &first_sha)), &"2".repeat(64)));
    let store = store_with(tables.clone());
    let second = store.project_input("campaign:a", "input-b").unwrap().unwrap();
    assert_eq!(second.version, 2);
    assert_eq!(second.previous_version_id.as_deref(), Some("input-a"));
    assert!(store.project_input("campaign:a", "input-z").unwrap().is_none());

    tables.project_inputs[1].record.previous_version_sha256 = Some("9".repeat(64));
    let broken = store_with(tables);
    assert!(matches!(
        broken.project_input("campaign:a", "input-a"),
        Err(StoreError::Invalid(_))
    ));
    assert!(broken.project_input("campaign:other", "input-a").unwrap().is_none());
}

#[test]
fn progressions_come_back_in_sequence_and_chained() {
    let mut tables = empty_tables();
    tables
        .agent_progressions
        .push(progression("agent:a", 1, Some(&"a".repeat(64)), &"b".repeat(64)));
    tables
        .agent_progressions
        .push(progression("agent:other", 0, None, &"c".repeat(64)));
    tables
        .agent_progressions
        .push(progression("agent:a", 0, None, &"a".repeat(64)));
    let store = store_with(tables.clone());
    let records = store.agent_progressions("agent:a").unwrap();
    assert_eq!(records.len(), 2);
    assert_eq!(records[0].sequence, 0);
    assert_eq!(records[1].sequence, 1);
    assert!(store.agent_progressions("agent:none").unwrap().is_empty());

    tables.agent_progressions[0].record.previous_record_sha256 = Some("f".repeat(64));
    assert!(matches!(
        store_with(tables).agent_progressions("agent:a"),
        Err(StoreError::Invalid(_))
    ));
}

fn note_store() -> Database {
    let mut tables = empty_tables();
    tables.campaigns.push(campaign("campaign:a"));
    tables.campaigns.push(campaign("campaign:b"));
    tables.runs.push(run("run:a", "completed"));
    let mut other = run("run:b", "completed");
    other.campaign_id = "campaign:b".to_owned();
    tables.runs.push(other);
    store_with(tables)
}

fn note_request() -> CreateNoteRequest {
    CreateNoteRequest {
        campaign_id: "campaign:a".to_owned(),
        run_id: Some("run:a".to_owned()),
        target_id: None,
        category: "mistake".to_owned(),
        severity: "critical".to_owned(),
        title: "Incorrect campaign execution".to_owned(),
        body: "Keep the failure visible and do not reuse it as confirmatory evidence.".to_owned(),
        actor: "primary-agent".to_owned(),
        labels: vec!["postmortem".to_owned(), "internal".to_owned()],
        provenance_json: "{\"source\":\"test fixture\"}".to_owned(),
    }
}

#[test]
fn campaign_note_is_atomic_and_auditable() {
    let mut store = note_store();
    let response = store.create_note(&note_request()).unwrap();
    assert_eq!(response.note.semantic_type, NOTE_CONTRACT);
    assert_eq!(response.note.state, "mistake");
    assert!(response.note.payload_json.contains("\"internal\":true"));
    assert_eq!(response.relation.predicate, "annotates");
    assert_eq!(response.relation.object_id, "run:a");
    assert_eq!(response.action.action_type, "note_created");
    let tables = store.tables();
    assert!(tables.semantic_objects.iter().any(|o| o.id == response.note.id));
    assert!(tables.semantic_relations.iter().any(|r| r.id == response.relation.id));
    assert!(tables.actions.iter().any(|a| a.id == response.action.id));
    assert!(tables
        .events
        .iter()
        .any(|e| e.object_id == response.note.id && e.verb == "note_recorded"));
}

#[test]
fn campaign_note_rejects_invalid_category() {
    let mut store = note_store();
    let mut request = note_request();
    request.category = "Wishful_Thinking".to_owned();
    match store.create_note(&request) {
        Err(StoreError::Invalid(message)) => {
            assert_eq!(message, "unsupported note category wishful_thinking");
        }
        other => panic!("expected an invalid request, got {other:?}"),
    }
    assert!(store.tables().semantic_objects.is_empty());
    assert!(store.tables().events.is_empty());
}

#[test]
fn campaign_note_rejects_run_from_another_campaign() {
    let mut store = note_store();
    let mut request = note_request();
    request.run_id = Some("run:b".to_owned());
    match store.create_note(&request) {
        Err(StoreError::Constraint(message)) => {
            assert!(message.contains("does not belong to campaign"));
        }
        other => panic!("expected a refused reference, got {other:?}"),
    }
    assert!(store.tables().semantic_objects.is_empty());
}

#[test]
fn note_payload_is_canonical_and_labels_are_normalized() {
    let mut store = note_store();
    let mut request = note_request();
    request.category = "  Mistake ".to_owned();
    request.severity = "HIGH".to_owned();
    request.labels = vec![
        " zeta ".to_owned(),
        "alpha".to_owned(),
        "".to_owned(),
        "zeta".to_owned(),
    ];
    request.run_id = None;
    let response = store
        .create_note_at(&request, &"2026-09-03T12:00:00Z".to_owned(), &"abc".to_owned())
        .unwrap();
    assert_eq!(response.note.id, "note:abc");
    assert_eq!(response.note.state, "mistake");
    assert_eq!(response.note.label.as_deref(), Some("Incorrect campaign execution"));
    assert_eq!(
        response.note.payload_json,
        "{\"actor\":\"primary-agent\",\"body\":\"Keep the failure visible and do not reuse it as confirmatory evidence.\",\"category\":\"mistake\",\"internal\":true,\"labels\":[\"alpha\",\"zeta\"],\"provenance\":{\"source\":\"test fixture\"},\"severity\":\"high\",\"targetId\":\"campaign:a\"}"
    );
    assert_eq!(response.relation.id, "relation:note:abc:annotates");
    assert_eq!(response.relation.object_id, "campaign:a");
    assert_eq!(response.action.id, "action:note:abc:created");
    assert_eq!(
        response.action.payload_json,
        "{\"category\":\"mistake\",\"internal\":true,\"severity\":\"high\"}"
    );
    let event = &store.tables().events[0];
    assert_eq!(event.id, "event:note:abc:recorded");
    assert_eq!(event.object_type, "campaign_note");
}

#[test]
fn note_validation_covers_every_field() {
    let mut store = note_store();
    let cases: Vec<fn(&mut CreateNoteRequest)> = vec![
        |r| r.campaign_id = "  ".to_owned(),
        |r| r.severity = "urgent".to_owned(),
        |r| r.title = String::new(),
        |r| r.title = "t".repeat(241),
        |r| r.body = "b".repeat(32_001),
        |r| r.actor = "a".repeat(161),
        |r| r.labels = vec!["x".to_owned(); 33],
        |r| r.labels = vec!["l".repeat(81)],
        |r| r.provenance_json = "[1]".to_owned(),
    ];
    for change in cases {
        let mut request = note_request();
        change(&mut request);
        assert!(matches!(store.create_note(&request), Err(StoreError::Invalid(_))));
    }
    let mut unknown = note_request();
    unknown.campaign_id = "campaign:z".to_owned();
    unknown.run_id = None;
    assert!(matches!(store.create_note(&unknown), Err(StoreError::Constraint(_))));
    let mut stray = note_request();
    stray.target_id = Some("object:elsewhere".to_owned());
    assert!(matches!(store.create_note(&stray), Err(StoreError::Constraint(_))));
    assert!(store.tables().semantic_objects.is_empty());
}

#[test]
fn note_may_target_an_object_of_its_campaign() {
    let mut store = note_store();
    store
        .upsert_semantic_object(object("observation:1", "concord.research_message"))
        .unwrap();
    let mut request = note_request();
    request.target_id = Some(" observation:1 ".to_owned());
    let response = store.create_note(&request).unwrap();
    assert_eq!(response.relation.object_id, "observation:1");
    assert_eq!(store.tables().semantic_objects.len(), 2);
}

#[test]
fn notes_are_listed_newest_first_for_their_campaign() {
    let mut store = note_store();
    store
        .create_note_at(&note_request(), &"2026-09-03T12:00:01Z".to_owned(), &"one".to_owned())
        .unwrap();
    store
        .create_note_at(&note_request(), &"2026-09-03T12:00:03Z".to_owned(), &"two".to_owned())
        .unwrap();
    store
        .create_note_at(&note_request(), &"2026-09-03T12:00:02Z".to_owned(), &"three".to_owned())
        .unwrap();
    store
        .upsert_semantic_object(object("message:1", "concord.research_message"))
        .unwrap();
    let notes = store.notes_for_campaign("campaign:a").unwrap();
    let ids: Vec<&str> = notes.iter().map(|n| n.id.as_str()).collect();
    assert_eq!(ids, ["note:two", "note:three", "note:one"]);
    assert!(store.notes_for_campaign("campaign:b").unwrap().is_empty());
    assert!(matches!(
        store.notes_for_campaign("campaign:z"),
        Err(StoreError::Constraint(_))
    ));
}

fn capability(id: &str) -> Capability {
    Capability {
        id: id.to_owned(),
        name: "Generic capability".to_owned(),
        kind: "analysis".to_owned(),
        version: "1".to_owned(),
        provider: "local".to_owned(),
        description: "test".to_owned(),
        trust_status: "qualified".to_owned(),
        lifecycle_json: "{}".to_owned(),
        command_json: "[]".to_owned(),
        resources_json: "{}".to_owned(),
    }
}

#[test]
fn capability_bindings_are_a_sorted_set_entered_in_the_ledger() {
    let mut tables = empty_tables();
    tables.campaigns.push(campaign("campaign:a"));
    tables.capabilities.push(capability("test.b"));
    tables.capabilities.push(capability("test.a"));
    let mut store = store_with(tables);
    let bind = |id: &str| CampaignCapabilityUpdate {
        capability_id: id.to_owned(),
        enabled: true,
    };
    store.set_campaign_capability("campaign:a", &bind("test.b")).unwrap();
    store.set_campaign_capability("campaign:a", &bind("test.a")).unwrap();
    store.set_campaign_capability("campaign:a", &bind("test.b")).unwrap();
    assert_eq!(
        store.campaign("campaign:a").unwrap().unwrap().capability_ids,
        vec!["test.a", "test.b"]
    );
    store
        .set_campaign_capability_at(
            "campaign:a",
            &CampaignCapabilityUpdate {
                capability_id: "test.b".to_owned(),
                enabled: false,
            },
            &"2026-09-03T12:00:00Z".to_owned(),
            &"unbind".to_owned(),
        )
        .unwrap();
    assert_eq!(
        store.campaign("campaign:a").unwrap().unwrap().capability_ids,
        vec!["test.a"]
    );
    let events = &store.tables().events;
    assert_eq!(events.len(), 4);
    let last = &events[3];
    assert_eq!(last.id, "evt_unbind");
    assert_eq!(last.verb, "unbound");
    assert_eq!(last.object_type, "capability_binding");
    assert!(matches!(
        store.set_campaign_capability("campaign:z", &bind("test.a")),
        Err(StoreError::Constraint(_))
    ));
    assert!(matches!(
        store.set_campaign_capability("campaign:a", &bind("test.z")),
        Err(StoreError::Constraint(_))
    ));
    assert_eq!(store.tables().events.len(), 4);
}

#[test]
fn ledger_events_are_recorded_and_replaced_by_identifier() {
    let mut store = store_with(empty_tables());
    let now = "2026-09-03T12:00:00Z".to_owned();
    let first = store.record_event_at(
        Some("campaign:a".to_owned()),
        None,
        "campaign",
        "campaign:a",
        "replayed",
        "{\"sourceCampaignId\":\"campaign:b\"}",
        &now,
        &"fixed".to_owned(),
    );
    assert_eq!(first.id, "evt_fixed");
    assert_eq!(first.payload_json, "{\"sourceCampaignId\":\"campaign:b\"}");
    store.record_event_at(None, None, "campaign", "campaign:a", "archived", "{}", &now, &"fixed".to_owned());
    assert_eq!(store.tables().events.len(), 1);
    assert_eq!(store.tables().events[0].verb, "archived");
    let fresh = store.record_event(None, None, "campaign", "campaign:a", "touched", "{}");
    assert!(fresh.id.starts_with("evt_"));
    assert_eq!(fresh.id.len(), 36);
    assert_eq!(store.tables().events.len(), 2);
}

#[test]
fn lookups_find_rows_by_identifier() {
    let mut tables = empty_tables();
    tables.capabilities.push(capability("test.a"));
    tables.runs.push(run("run:a", "running"));
    tables.artifacts.push(artifact("artifact:a", 3));
    let store = store_with(tables);
    assert_eq!(store.capability("test.a").unwrap().unwrap().kind, "analysis");
    assert!(store.capability("test.z").unwrap().is_none());
    assert_eq!(store.run("run:a").unwrap().unwrap().status, "running");
    assert!(store.run("run:z").unwrap().is_none());
    assert_eq!(store.artifact("artifact:a").unwrap().unwrap().byte_size, 3);
    assert!(store.provider("provider:z").unwrap().is_none());
}

fn named_metric(run_id: &str, name: &str, step: i64) -> MetricPoint {
    MetricPoint {
        run_id: run_id.to_owned(),
        name: name.to_owned(),
        step,
        value_bits: (step as f64).to_bits(),
        timestamp: "2026-09-03T12:00:00Z".to_owned(),
    }
}

#[test]
fn metric_listing_orders_by_step_then_name_and_limits() {
    let mut tables = empty_tables();
    tables.runs.push(run("run:a", "running"));
    tables.runs.push(run("run:b", "running"));
    let mut store = store_with(tables);
    for (name, step) in [("loss", 2), ("accuracy", 2), ("loss", 1), ("accuracy", 0)] {
        store.insert_metric(named_metric("run:a", name, step)).unwrap();
    }
    store.insert_metric(named_metric("run:b", "loss", 0)).unwrap();
    let points = store.metrics_for_run("run:a", None, 100).unwrap();
    let order: Vec<(i64, &str)> = points.iter().map(|p| (p.step, p.name.as_str())).collect();
    assert_eq!(order, [(0, "accuracy"), (1, "loss"), (2, "accuracy"), (2, "loss")]);
    let later = store.metrics_for_run("run:a", Some(1), 100).unwrap();
    assert_eq!(later.len(), 2);
    let first = store.metrics_for_run("run:a", None, 0).unwrap();
    assert_eq!(first.len(), 1);
    assert_eq!(first[0].step, 0);
    assert_eq!(store.next_metric_step("run:a", "loss").unwrap(), 3);
    assert_eq!(store.next_metric_step("run:a", "missing").unwrap(), 0);
}

#[test]
fn bounded_metrics_keep_only_the_recent_window() {
    let mut tables = empty_tables();
    tables.runs.push(run("run:a", "running"));
    let mut store = store_with(tables);
    for step in 0..6 {
        store.insert_metric_bounded(named_metric("run:a", "loss", step), 3).unwrap();
    }
    store.insert_metric_bounded(named_metric("run:a", "accuracy", 0), 3).unwrap();
    let steps: Vec<i64> = store
        .metrics_for_run("run:a", None, 100)
        .unwrap()
        .iter()
        .filter(|p| p.name == "loss")
        .map(|p| p.step)
        .collect();
    assert_eq!(steps, [3, 4, 5]);
    assert_eq!(store.metrics_for_run("run:a", None, 100).unwrap().len(), 4);
    assert!(matches!(
        store.insert_metric_bounded(named_metric("run:z", "loss", 0), 3),
        Err(StoreError::Constraint(_))
    ));
}

#[test]
fn input_listing_orders_by_path_and_version_and_rejects_duplicate_versions() {
    let a1 = "1".repeat(64);
    let mut tables = empty_tables();
    let mut other_path = input("input-z", 1, None, &"3".repeat(64));
    other_path.record.logical_path = "dataset/aardvark.csv".to_owned();
    tables
        .project_inputs
        .push(input("input-b", 2, Some(("input-a", &a1)), &"2".repeat(64)));
    tables.project_inputs.push(other_path);
    tables.project_inputs.push(input("input-a", 1, None, &a1));
    let store = store_with(tables.clone());
    let ids: Vec<String> = store
        .project_inputs("campaign:a")
        .unwrap()
        .into_iter()
        .map(|v| v.id)
        .collect();
    assert_eq!(ids, ["input-z", "input-a", "input-b"]);
    assert_eq!(
        store.project_input_for_artifact("artifact:input-b").unwrap().unwrap().id,
        "input-b"
    );
    assert!(store.project_input_for_artifact("artifact:none").unwrap().is_none());

    tables
        .project_inputs
        .push(input("input-c", 2, Some(("input-a", &a1)), &"4".repeat(64)));
    assert!(matches!(
        store_with(tables).project_inputs("campaign:a"),
        Err(StoreError::Invalid(_))
    ));
}

#[test]
fn accepted_input_projection_cannot_be_changed() {
    let mut tables = empty_tables();
    tables.project_inputs.push(input("input-a", 1, None, &"1".repeat(64)));
    let mut store = store_with(tables);
    let id = store.tables().project_inputs[0].record.id.clone();
    let changed = object(&id, PROJECT_INPUT_CONTRACT);
    match store.upsert_semantic_object(changed) {
        Err(StoreError::Invalid(message)) => {
            assert!(message.contains("immutable"));
        }
        other => panic!("expected a refusal, got {other:?}"),
    }
    assert!(store.tables().semantic_objects.is_empty());
}

#[test]
fn note_reference_refusals_name_what_is_missing() {
    let mut store = note_store();
    let mut request = note_request();
    request.campaign_id = "campaign:none".to_owned();
    match store.create_note(&request) {
        Err(StoreError::Constraint(message)) => assert_eq!(message, "unknown campaign campaign:none"),
        other => panic!("expected a refused reference, got {other:?}"),
    }
    let mut request = note_request();
    request.run_id = Some("run:none".to_owned());
    match store.create_note(&request) {
        Err(StoreError::Constraint(message)) => assert_eq!(message, "unknown run run:none"),
        other => panic!("expected a refused reference, got {other:?}"),
    }
    let mut request = note_request();
    request.target_id = Some("object:elsewhere".to_owned());
    match store.create_note(&request) {
        Err(StoreError::Constraint(message)) => {
            assert_eq!(message, "note target object:elsewhere is not part of campaign campaign:a")
        }
        other => panic!("expected a refused reference, got {other:?}"),
    }
    let mut request = note_request();
    request.severity = " URGENT ".to_owned();
    match store.create_note(&request) {
        Err(StoreError::Invalid(message)) => assert_eq!(message, "unsupported note severity urgent"),
        other => panic!("expected an invalid request, got {other:?}"),
    }
}

#[test]
fn reading_an_input_agrees_with_the_listing() {
    let mut tables = empty_tables();
    tables.project_inputs.push(input("input-b", 2, Some(("input-a", &"1".repeat(64))), &"2".repeat(64)));
    tables.project_inputs.push(input("input-a", 1, None, &"1".repeat(64)));
    let store = store_with(tables);
    let listed = store.project_inputs("campaign:a").unwrap();
    for id in ["input-a", "input-b"] {
        let read = store.project_input("campaign:a", id).unwrap().unwrap();
        let in_listing = listed.iter().find(|record| record.id == id).unwrap();
        assert_eq!(read.id, in_listing.id);
        assert_eq!(read.version, in_listing.version);
        assert_eq!(read.record_sha256, in_listing.record_sha256);
        assert_eq!(read.previous_version_id, in_listing.previous_version_id);
    }
}

#[test]
fn note_provenance_must_parse_as_a_json_object() {
    let mut store = note_store();
    for provenance in ["{\"source\": unquoted}", "[\"source\"]", "{source"] {
        let mut request = note_request();
        request.provenance_json = provenance.to_owned();
        match store.create_note(&request) {
            Err(StoreError::Invalid(message)) => {
                assert_eq!(message, "note provenance must be a JSON object");
            }
            other => panic!("expected a refused provenance, got {other:?}"),
        }
    }
    assert!(store.tables().semantic_objects.is_empty());

    let mut request = note_request();
    request.provenance_json = "{ \"source\" : \"fixture\", \"batch\": 2 }".to_owned();
    let response = store.create_note(&request).unwrap();
    assert!(response
        .note
        .payload_json
        .contains("\"provenance\":{\"batch\":2,\"source\":\"fixture\"}"));
}
