use concord::operational::{
    operational_record_count, OperationalBundle, OperationalImportEnvelope, OperationalSource,
};
use concord::records::{Campaign, Capability, DesignProgram, ExternalJob, MetricPoint, ProviderProfile};
use concord::snapshot::RuntimeStatus;
use concord::store::{Database, StoreError};

fn external_campaign(generated_at: &str) -> Campaign {
    Campaign {
        id: "external:campaign".into(),
        name: "External campaign".into(),
        domain: "test domain".into(),
        objective: "Exercise a domain-neutral import".into(),
        status: "active".into(),
        created_at: generated_at.into(),
        program: DesignProgram {
            id: "external:program".into(),
            name: "External program".into(),
            language: "external-contract".into(),
            language_version: "1".into(),
            source: "sha256:abc".into(),
        },
        capability_ids: vec![],
    }
}

fn empty_bundle(generated_at: &str) -> OperationalBundle {
    OperationalBundle {
        campaigns: vec![external_campaign(generated_at)],
        capabilities: vec![],
        runs: vec![],
        events: vec![],
        artifacts: vec![],
        budgets: vec![],
        objects: vec![],
        relations: vec![],
        actions: vec![],
        external_jobs: vec![],
        providers: vec![],
        metrics: vec![],
        candidates: vec![],
        basins: vec![],
        projections: vec![],
    }
}

fn envelope(generated_at: &str) -> OperationalImportEnvelope {
    OperationalImportEnvelope {
        contract: "concord.operational-import/1".into(),
        import_id: "source:snapshot:1".into(),
        generated_at: generated_at.into(),
        classification: "operational_metadata".into(),
        contains_scientific_endpoints: false,
        source: OperationalSource {
            system: "external-test".into(),
            stream: "campaign/1".into(),
            repository: "example/repository".into(),
            revision: "0123456789012345678901234567890123456789".into(),
            url: None,
        },
        bundle: empty_bundle(generated_at),
    }
}

const BUNDLE_JSON: &str = r#"{"campaigns":[{"id":"external:campaign"}]}"#;

fn refusal(result: Result<concord::operational::OperationalImportResponse, StoreError>) -> String {
    match result {
        Err(StoreError::Invalid(message)) => message,
        other => panic!("expected a refusal, got {:?}", other.map(|r| r.imported)),
    }
}

#[test]
fn operational_import_is_idempotent_and_rejects_endpoint_material() {
    let mut database = Database::new("operational-import-test.sqlite").unwrap();
    let generated_at = chrono::Utc::now().to_rfc3339();
    let envelope = envelope(&generated_at);
    let bundle_json = BUNDLE_JSON.to_string();
    let first = database.import_operational(&envelope, &bundle_json).unwrap();
    assert!(first.imported);
    assert_eq!(first.record.record_count, 1);
    assert_eq!(first.source.status, "fresh");
    assert_eq!(first.source.latest_import_id, envelope.import_id);
    let repeated = database.import_operational(&envelope, &bundle_json).unwrap();
    assert!(!repeated.imported);
    assert_eq!(repeated.record.content_sha256, first.record.content_sha256);
    assert_eq!(repeated.source.latest_import_id, first.source.latest_import_id);

    let snapshot = database
        .snapshot(RuntimeStatus {
            version: "0.1".into(),
            status: "connected".into(),
            state_path: database.path().to_string(),
            artifact_path: "artifacts".into(),
            started_at: chrono::Utc::now().to_rfc3339(),
            host_json: "{}".into(),
        })
        .unwrap();
    assert_eq!(snapshot.operational_sources.len(), 1);
    assert_eq!(snapshot.operational_sources[0].source_stream, "campaign/1");

    let mut stale_envelope = envelope.clone();
    stale_envelope.import_id = "source:snapshot:stale".into();
    stale_envelope.generated_at = "2020-01-01T00:00:00Z".into();
    assert!(database.import_operational(&stale_envelope, &bundle_json).is_err());

    let mut endpoint_envelope = envelope.clone();
    endpoint_envelope.import_id = "source:snapshot:endpoint".into();
    endpoint_envelope.contains_scientific_endpoints = true;
    assert!(database.import_operational(&endpoint_envelope, &bundle_json).is_err());

    let mut metric_envelope = envelope;
    metric_envelope.import_id = "source:snapshot:metric".into();
    metric_envelope.bundle.metrics.push(MetricPoint {
        run_id: "run".into(),
        name: "scientific/endpoint".into(),
        step: 1,
        value_bits: 0.5f64.to_bits(),
        timestamp: generated_at,
    });
    assert!(database.import_operational(&metric_envelope, &bundle_json).is_err());
}

#[test]
fn operational_import_records_its_digest_and_writes_its_rows() {
    let mut database = Database::new("operational-import-rows.sqlite").unwrap();
    let envelope = envelope("2026-01-01T00:00:00Z");
    let bundle_json = BUNDLE_JSON.to_string();
    let response = database
        .import_operational_at(&envelope, &bundle_json, &"2026-01-02T00:00:00Z".to_string())
        .unwrap();
    // SHA-256 of the published bundle text, not of the text itself.
    assert_eq!(response.record.content_sha256.len(), 64);
    assert_ne!(response.record.content_sha256, bundle_json);
    assert_eq!(response.record.imported_at, "2026-01-02T00:00:00Z");
    assert_eq!(response.source.last_changed_at, "2026-01-02T00:00:00Z");
    let tables = database.tables();
    assert_eq!(tables.campaigns.len(), 1);
    assert_eq!(tables.campaigns[0].id, "external:campaign");
    assert_eq!(tables.operational_imports.len(), 1);

    // A repeat is answered from the record and keeps the time the stream last changed.
    let repeat = database
        .import_operational_at(&envelope, &bundle_json, &"2026-01-03T00:00:00Z".to_string())
        .unwrap();
    assert!(!repeat.imported);
    assert_eq!(repeat.record.imported_at, "2026-01-02T00:00:00Z");
    assert_eq!(repeat.source.last_checked_at, "2026-01-03T00:00:00Z");
    assert_eq!(repeat.source.last_changed_at, "2026-01-02T00:00:00Z");
    assert_eq!(database.tables().operational_imports.len(), 1);

    // The same identifier with other content is refused.
    let changed = r#"{"campaigns":[]}"#.to_string();
    assert_eq!(
        refusal(database.import_operational_at(&envelope, &changed, &"2026-01-04T00:00:00Z".to_string())),
        "operational import id was reused with different content"
    );

    // A later import of the stream is accepted; one at the same instant is stale.
    let mut later = envelope.clone();
    later.import_id = "source:snapshot:2".into();
    later.generated_at = "2026-01-01T00:00:00.5Z".into();
    assert!(database.import_operational_at(&later, &changed, &"2026-01-05T00:00:00Z".to_string()).unwrap().imported);
    let mut same = later.clone();
    same.import_id = "source:snapshot:3".into();
    same.generated_at = "2026-01-01T01:00:00+01:00".into();
    assert_eq!(
        refusal(database.import_operational_at(&same, &changed, &"2026-01-06T00:00:00Z".to_string())),
        "operational import is stale or reuses a source-stream timestamp"
    );
    let mut unparsable = later.clone();
    unparsable.import_id = "source:snapshot:4".into();
    unparsable.generated_at = "yesterday".into();
    assert_eq!(
        refusal(database.import_operational_at(&unparsable, &changed, &"2026-01-06T00:00:00Z".to_string())),
        "operational import generated_at is not RFC3339"
    );
}

#[test]
fn operational_import_refuses_each_boundary_violation() {
    let mut database = Database::new("operational-import-refusals.sqlite").unwrap();
    let bundle_json = BUNDLE_JSON.to_string();
    let now = "2026-01-02T00:00:00Z".to_string();
    let base = envelope("2026-01-01T00:00:00Z");

    let mut contract = base.clone();
    contract.contract = "concord.operational-import/2".into();
    assert_eq!(refusal(database.import_operational_at(&contract, &bundle_json, &now)), "unsupported operational import contract");

    let mut classification = base.clone();
    classification.classification = "scientific".into();
    assert_eq!(
        refusal(database.import_operational_at(&classification, &bundle_json, &now)),
        "operational import has the wrong information classification"
    );

    let mut blank = base.clone();
    blank.source.revision = "  ".into();
    assert_eq!(refusal(database.import_operational_at(&blank, &bundle_json, &now)), "source revision must not be empty");

    let mut executable = base.clone();
    executable.bundle.capabilities.push(Capability {
        id: "cap".into(),
        name: "Capability".into(),
        kind: "tool".into(),
        version: "1".into(),
        provider: "local".into(),
        description: "runs".into(),
        trust_status: "trusted".into(),
        lifecycle_json: "{}".into(),
        command_json: r#"["run"]"#.into(),
        resources_json: "{}".into(),
    });
    assert_eq!(
        refusal(database.import_operational_at(&executable, &bundle_json, &now)),
        "imported capabilities must be descriptive and non-executable"
    );

    let mut secret = base.clone();
    secret.bundle.providers.push(ProviderProfile {
        id: "provider".into(),
        name: "Provider".into(),
        kind: "model".into(),
        base_url: None,
        secret_ref: Some("env:KEY".into()),
        status: "ready".into(),
        metadata_json: "{}".into(),
        updated_at: "2026-01-01T00:00:00Z".into(),
    });
    assert_eq!(
        refusal(database.import_operational_at(&secret, &bundle_json, &now)),
        "operational imports cannot contain secret references"
    );
    assert!(database.tables().operational_imports.is_empty());
    assert!(database.tables().campaigns.is_empty());
}

#[test]
fn operational_import_is_all_or_nothing_when_a_job_identifier_is_taken() {
    let mut database = Database::new("operational-import-jobs.sqlite").unwrap();
    let now = "2026-01-02T00:00:00Z".to_string();
    let job = |id: &str, external_id: &str| ExternalJob {
        id: id.into(),
        campaign_id: None,
        run_id: None,
        provider: "quantum".into(),
        external_id: external_id.into(),
        label: "job".into(),
        status: "queued".into(),
        chip: None,
        submitted_at: None,
        started_at: None,
        finished_at: None,
        rate_per_min_usd_bits: None,
        max_cost_usd_bits: None,
        cost_usd_bits: None,
        queue_position: None,
        estimated_wait_seconds: None,
        payload_json: "{}".into(),
        updated_at: "2026-01-01T00:00:00Z".into(),
    };
    let mut import = envelope("2026-01-01T00:00:00Z");
    import.bundle.external_jobs = vec![job("job-1", "ext-1"), job("job-1", "ext-2")];
    let result = database.import_operational_at(&import, &BUNDLE_JSON.to_string(), &now);
    assert!(matches!(result, Err(StoreError::Constraint(_))));
    assert!(database.tables().campaigns.is_empty());
    assert!(database.tables().external_jobs.is_empty());
    assert_eq!(operational_record_count(&import.bundle), 3);
}

#[test]
fn snapshot_lists_tables_in_view_order() {
    let mut database = Database::new("snapshot-order.sqlite").unwrap();
    let mut first = envelope("2026-01-01T00:00:00Z");
    let mut late = external_campaign("2026-03-01T00:00:00Z");
    late.id = "external:late".into();
    let mut early = external_campaign("2025-12-01T00:00:00Z");
    early.id = "external:early".into();
    first.bundle.campaigns = vec![late, early];
    first.bundle.capabilities = vec![
        Capability {
            id: "b".into(),
            name: "Zeta".into(),
            kind: "tool".into(),
            version: "1".into(),
            provider: "local".into(),
            description: "describes".into(),
            trust_status: "trusted".into(),
            lifecycle_json: "{}".into(),
            command_json: "[]".into(),
            resources_json: "{}".into(),
        },
        Capability {
            id: "a".into(),
            name: "Alpha".into(),
            kind: "tool".into(),
            version: "1".into(),
            provider: "local".into(),
            description: "describes".into(),
            trust_status: "trusted".into(),
            lifecycle_json: "{}".into(),
            command_json: "[]".into(),
            resources_json: "{}".into(),
        },
    ];
    database
        .import_operational_at(&first, &BUNDLE_JSON.to_string(), &"2026-01-02T00:00:00Z".to_string())
        .unwrap();
    let mut second = envelope("2026-01-05T00:00:00Z");
    second.import_id = "source:snapshot:2".into();
    second.source.stream = "campaign/2".into();
    second.source.system = "a-system".into();
    database
        .import_operational_at(&second, &BUNDLE_JSON.to_string(), &"2026-01-06T00:00:00Z".to_string())
        .unwrap();
    let snapshot = database
        .snapshot(RuntimeStatus {
            version: "0.1".into(),
            status: "connected".into(),
            state_path: "state".into(),
            artifact_path: "artifacts".into(),
            started_at: "2026-01-06T00:00:00Z".into(),
            host_json: "{}".into(),
        })
        .unwrap();
    let campaign_ids: Vec<&str> = snapshot.campaigns.iter().map(|c| c.id.as_str()).collect();
    assert_eq!(campaign_ids, vec!["external:early", "external:campaign", "external:late"]);
    let capability_names: Vec<&str> = snapshot.capabilities.iter().map(|c| c.name.as_str()).collect();
    assert_eq!(capability_names, vec!["Alpha", "Zeta"]);
    let imports: Vec<&str> = snapshot.operational_imports.iter().map(|r| r.import_id.as_str()).collect();
    assert_eq!(imports, vec!["source:snapshot:2", "source:snapshot:1"]);
    let streams: Vec<&str> = snapshot.operational_sources.iter().map(|s| s.source_system.as_str()).collect();
    assert_eq!(streams, vec!["a-system", "external-test"]);
    assert_eq!(snapshot.runtime.started_at, "2026-01-06T00:00:00Z");
}
