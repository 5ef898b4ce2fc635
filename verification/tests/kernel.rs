use concord::dispatch::{
    AuthorizeCampaignDispatchRequest, DispatchOperation, DispatchPermitStatus, EpactDispatchBinding,
    InterruptedDispatchResolution, ResolveInterruptedDispatchRequest,
};
use concord::epact::{
    CompiledAuthority, EpactDischarge, EpactObligation, EpactProgramImage, EpactResourceEnvelope,
    EpactRuntimeEvent, EpactRuntimeEventKind, EpactTerminalRule, KernelOperation,
};
use concord::kernel::{CampaignStatus, KernelError, KernelEventKind};
use concord::reference::{CreateBudgetRequest, CreateCampaignRequest, ReferenceKernel};

const IMAGE_SHA256: &str = "9f2c1e5d7a3b4c6d8e0f1a2b3c4d5e6f7a8b9c0d1e2f3a4b5c6d7e8f9a0b1c2d";

fn resources(cost_microusd: u64) -> EpactResourceEnvelope {
    EpactResourceEnvelope {
        maximum_cost_microusd: cost_microusd,
        maximum_elapsed_seconds: 60,
        maximum_model_calls: 0,
        maximum_tool_calls: 1,
        maximum_external_jobs: 0,
        maximum_cpu_millicores: 1000,
        maximum_ram_milli_gb: 1000,
        maximum_gpu_count: 0,
        maximum_vram_milli_gb: 0,
        maximum_storage_milli_gb: 1000,
        maximum_data_movement_milli_gb: 0,
    }
}

fn authority(operation: KernelOperation) -> CompiledAuthority {
    CompiledAuthority {
        principal_id: "operator".to_owned(),
        operation,
        whole_program: true,
        obligation_ids: Vec::new(),
        capability_ids: Vec::new(),
        maximum_cost_microusd: Some(1_000_000),
        valid_after: None,
        valid_before: None,
    }
}

fn image() -> EpactProgramImage {
    EpactProgramImage {
        image_sha256: IMAGE_SHA256.to_owned(),
        program_id: "program:quickstart".to_owned(),
        created_by: "operator".to_owned(),
        principal_ids: vec!["operator".to_owned()],
        object_ids: vec!["result".to_owned()],
        capability_ids: vec!["local-analysis".to_owned()],
        authorities: vec![
            authority(KernelOperation::Freeze),
            authority(KernelOperation::Authorize),
            authority(KernelOperation::Propose),
            authority(KernelOperation::Reserve),
            authority(KernelOperation::Dispatch),
            authority(KernelOperation::Amend),
        ],
        resources: resources(1_000_000),
        obligations: vec![EpactObligation {
            id: "run-analysis".to_owned(),
            dependency_ids: Vec::new(),
            gate_ids: Vec::new(),
            discharge: EpactDischarge::Capability {
                capability_id: "local-analysis".to_owned(),
            },
            output_object_ids: vec!["result".to_owned()],
            effects: vec!["local_write".to_owned()],
            resources: resources(1_000_000),
            terminal_receipt_contract: "example.analysis-receipt/1".to_owned(),
        }],
        gates: Vec::new(),
        evidence_rules: Vec::new(),
        terminal: EpactTerminalRule {
            required_obligation_ids: vec!["run-analysis".to_owned()],
            required_object_ids: vec!["result".to_owned()],
            required_receipt_contracts: vec!["example.analysis-receipt/1".to_owned()],
        },
        obligation_order: vec!["run-analysis".to_owned()],
    }
}

fn fixture() -> ReferenceKernel {
    let mut kernel = ReferenceKernel::open("/tmp/concord-kernel-test/concord.db").unwrap();
    kernel
        .create_campaign(CreateCampaignRequest {
            id: "campaign:test".to_owned(),
            name: "Test campaign".to_owned(),
            objective: "Exercise the public authority path.".to_owned(),
            image: image(),
        })
        .unwrap();
    kernel
        .create_budget(
            "campaign:test",
            &CreateBudgetRequest {
                id: "budget:local".to_owned(),
                total_microusd: 2_000_000,
            },
        )
        .unwrap();
    kernel
}

fn dispatch_request(key: &str) -> AuthorizeCampaignDispatchRequest {
    AuthorizeCampaignDispatchRequest {
        generation: 1,
        idempotency_key: key.to_owned(),
        actor: "operator".to_owned(),
        operation: DispatchOperation::ExecutionRun,
        target_id: "local-analysis".to_owned(),
        budget_id: Some("budget:local".to_owned()),
        maximum_cost_microusd: 250_000,
        reserve_budget: true,
        budget_pre_reserved: false,
        maximum_elapsed_seconds: 30,
        epact: Some(EpactDispatchBinding {
            program_image_sha256: IMAGE_SHA256.to_owned(),
            obligation_id: "run-analysis".to_owned(),
            operation: KernelOperation::Dispatch,
            capability_id: Some("local-analysis".to_owned()),
            effects: vec!["local_write".to_owned()],
            resources: EpactResourceEnvelope {
                maximum_cost_microusd: 250_000,
                maximum_elapsed_seconds: 30,
                maximum_model_calls: 0,
                maximum_tool_calls: 1,
                maximum_external_jobs: 0,
                maximum_cpu_millicores: 1000,
                maximum_ram_milli_gb: 1000,
                maximum_gpu_count: 0,
                maximum_vram_milli_gb: 0,
                maximum_storage_milli_gb: 1000,
                maximum_data_movement_milli_gb: 0,
            },
        }),
    }
}

fn reopen(kernel: ReferenceKernel) -> ReferenceKernel {
    let (path, campaigns, permits, times) = kernel.into_parts();
    ReferenceKernel::restore(&path, campaigns, permits, times)
}

fn no_provider_start() -> ResolveInterruptedDispatchRequest {
    ResolveInterruptedDispatchRequest {
        actor: "operator".to_owned(),
        resolution: InterruptedDispatchResolution::NoProviderStart,
        evidence_sha256: "a".repeat(64),
        actual_cost_microusd: None,
        settlement_basis: None,
    }
}

#[test]
fn durable_kernel_runs_and_replays_a_complete_local_campaign() {
    let mut kernel = fixture();
    let request = dispatch_request("dispatch:one");
    let first = kernel
        .authorize_campaign_dispatch("campaign:test", &request)
        .unwrap();
    let retry = kernel
        .authorize_campaign_dispatch("campaign:test", &request)
        .unwrap();
    assert_eq!(first.token, retry.token);

    let consumed = kernel.consume_campaign_dispatch(&first.token).unwrap();
    assert_eq!(consumed.status, DispatchPermitStatus::Consumed);
    let settled = kernel
        .settle_campaign_dispatch(&first.token, 200_000, "local worker receipt")
        .unwrap();
    assert_eq!(settled.status, DispatchPermitStatus::Settled);

    let created_at = "2026-09-03T12:00:00Z".to_owned();
    let object_event = EpactRuntimeEvent {
        id: "event:result".to_owned(),
        program_image_sha256: IMAGE_SHA256.to_owned(),
        sequence: 0,
        actor: "operator".to_owned(),
        idempotency_key: "record:result".to_owned(),
        kind: EpactRuntimeEventKind::ObjectRecorded {
            object_id: "result".to_owned(),
        },
        previous_event_sha256: None,
        event_sha256: "1".repeat(64),
        created_at: created_at.clone(),
    };
    kernel
        .accept_epact_event("campaign:test", object_event.clone())
        .unwrap();
    let completion_event = EpactRuntimeEvent {
        id: "event:complete".to_owned(),
        program_image_sha256: IMAGE_SHA256.to_owned(),
        sequence: 1,
        actor: "operator".to_owned(),
        idempotency_key: "complete:result".to_owned(),
        kind: EpactRuntimeEventKind::ObligationSatisfied {
            obligation_id: "run-analysis".to_owned(),
            receipt_contract: "example.analysis-receipt/1".to_owned(),
        },
        previous_event_sha256: Some(object_event.event_sha256.clone()),
        event_sha256: "2".repeat(64),
        created_at,
    };
    kernel
        .accept_epact_event("campaign:test", completion_event)
        .unwrap();

    let reopened = reopen(kernel);
    let report = reopened.verify_campaign("campaign:test").unwrap();
    assert!(report.terminal);
    assert_eq!(report.epact_event_count, 2);
    assert_eq!(report.dispatch_permit_count, 1);
    let budget = &reopened.campaign_rows()[0].budgets[0];
    assert_eq!(budget.spent_microusd, 200_000);
    assert_eq!(budget.exposure_microusd, 0);
}

#[test]
fn dispatch_fails_closed_without_epact_or_available_budget() {
    let mut kernel = fixture();
    let mut request = dispatch_request("missing-binding");
    request.epact = None;
    assert!(matches!(
        kernel.authorize_campaign_dispatch("campaign:test", &request),
        Err(KernelError::AuthorityDenied(_))
    ));

    let mut request = dispatch_request("over-budget");
    request.maximum_cost_microusd = 3_000_000;
    request.epact.as_mut().unwrap().resources.maximum_cost_microusd = 3_000_000;
    assert!(matches!(
        kernel.authorize_campaign_dispatch("campaign:test", &request),
        Err(KernelError::AuthorityDenied(_))
    ));
}

#[test]
fn interrupted_dispatch_blocks_new_authority_until_reconciled() {
    let mut kernel = fixture();
    let permit = kernel
        .authorize_campaign_dispatch("campaign:test", &dispatch_request("first"))
        .unwrap();
    kernel.consume_campaign_dispatch(&permit.token).unwrap();
    kernel
        .interrupt_campaign_dispatch(&permit.token, "worker connection lost after start")
        .unwrap();
    assert!(matches!(
        kernel.authorize_campaign_dispatch("campaign:test", &dispatch_request("blocked")),
        Err(KernelError::AuthorityDenied(_))
    ));

    let resolved = kernel
        .resolve_interrupted_dispatch("campaign:test", &permit.token, &no_provider_start())
        .unwrap();
    assert_eq!(resolved.status, DispatchPermitStatus::Released);
    assert_eq!(
        kernel.campaign("campaign:test").unwrap().status,
        CampaignStatus::Open
    );
}

#[test]
fn verification_detects_a_tampered_kernel_chain() {
    let kernel = fixture();
    let (path, mut campaigns, permits, times) = kernel.into_parts();
    assert_eq!(campaigns[0].kernel_events[0].kind, KernelEventKind::CampaignCreated);
    campaigns[0].kernel_events[0].kind = KernelEventKind::BudgetCreated;
    let tampered = ReferenceKernel::restore(&path, campaigns, permits, times);
    assert!(matches!(
        tampered.verify_campaign("campaign:test"),
        Err(KernelError::Integrity(_))
    ));
}

#[test]
fn untampered_chain_verifies_after_a_restore() {
    let kernel = reopen(fixture());
    let report = kernel.verify_campaign("campaign:test").unwrap();
    assert_eq!(report.kernel_event_count, 2);
    assert_eq!(report.budget_count, 1);
    assert_eq!(report.dispatch_permit_count, 0);
    assert!(!report.terminal);
    assert_eq!(report.program_image_sha256, IMAGE_SHA256);
}

#[test]
fn permit_is_consumed_only_once() {
    let mut kernel = fixture();
    let permit = kernel
        .authorize_campaign_dispatch("campaign:test", &dispatch_request("once"))
        .unwrap();
    assert_eq!(permit.status, DispatchPermitStatus::Authorized);
    kernel.consume_campaign_dispatch(&permit.token).unwrap();
    assert!(matches!(
        kernel.consume_campaign_dispatch(&permit.token),
        Err(KernelError::Conflict(_))
    ));
}

#[test]
fn release_returns_the_reservation_to_the_budget() {
    let mut kernel = fixture();
    let permit = kernel
        .authorize_campaign_dispatch("campaign:test", &dispatch_request("reserve"))
        .unwrap();
    {
        let budget = &kernel.campaign_rows()[0].budgets[0];
        assert_eq!(budget.exposure_microusd, 250_000);
        assert_eq!(budget.available_microusd, 1_750_000);
    }
    let released = kernel.release_campaign_dispatch(&permit.token).unwrap();
    assert_eq!(released.status, DispatchPermitStatus::Released);
    let budget = &kernel.campaign_rows()[0].budgets[0];
    assert_eq!(budget.exposure_microusd, 0);
    assert_eq!(budget.spent_microusd, 0);
    assert_eq!(budget.available_microusd, 2_000_000);
}

#[test]
fn settlement_charges_the_actual_cost() {
    let mut kernel = fixture();
    let permit = kernel
        .authorize_campaign_dispatch("campaign:test", &dispatch_request("settle"))
        .unwrap();
    kernel.consume_campaign_dispatch(&permit.token).unwrap();
    let settled = kernel
        .settle_campaign_dispatch(&permit.token, 120_000, "provider receipt")
        .unwrap();
    assert_eq!(settled.actual_cost_microusd, Some(120_000));
    assert_eq!(settled.settlement_basis.as_deref(), Some("provider receipt"));
    let budget = &kernel.campaign_rows()[0].budgets[0];
    assert_eq!(budget.spent_microusd, 120_000);
    assert_eq!(budget.exposure_microusd, 0);
    assert_eq!(budget.available_microusd, 1_880_000);
}

#[test]
fn settling_before_consumption_is_refused() {
    let mut kernel = fixture();
    let permit = kernel
        .authorize_campaign_dispatch("campaign:test", &dispatch_request("early"))
        .unwrap();
    assert!(kernel
        .settle_campaign_dispatch(&permit.token, 1, "too early")
        .is_err());
    assert_eq!(
        kernel.permit(&permit.token).unwrap().status,
        DispatchPermitStatus::Authorized
    );
}

#[test]
fn interruption_blocks_the_campaign_with_its_reason() {
    let mut kernel = fixture();
    let permit = kernel
        .authorize_campaign_dispatch("campaign:test", &dispatch_request("cut"))
        .unwrap();
    kernel.consume_campaign_dispatch(&permit.token).unwrap();
    let interrupted = kernel
        .interrupt_campaign_dispatch(&permit.token, "lost")
        .unwrap();
    assert_eq!(interrupted.status, DispatchPermitStatus::Interrupted);
    assert_eq!(interrupted.interruption.as_deref(), Some("lost"));
    assert_eq!(
        kernel.campaign("campaign:test").unwrap().status,
        CampaignStatus::Blocked
    );
}

#[test]
fn epact_event_is_accepted_once() {
    let mut kernel = fixture();
    let event = EpactRuntimeEvent {
        id: "event:result".to_owned(),
        program_image_sha256: IMAGE_SHA256.to_owned(),
        sequence: 0,
        actor: "operator".to_owned(),
        idempotency_key: "record:result".to_owned(),
        kind: EpactRuntimeEventKind::ObjectRecorded {
            object_id: "result".to_owned(),
        },
        previous_event_sha256: None,
        event_sha256: "3".repeat(64),
        created_at: "2026-09-03T12:00:00Z".to_owned(),
    };
    let first = kernel
        .accept_epact_event("campaign:test", event.clone())
        .unwrap();
    let again = kernel.accept_epact_event("campaign:test", event).unwrap();
    assert_eq!(first.next_sequence, 1);
    assert_eq!(again.next_sequence, 1);
    assert_eq!(kernel.campaign_rows()[0].epact_events.len(), 1);
}

#[test]
fn unknown_campaign_is_not_found() {
    let mut kernel = fixture();
    assert!(matches!(
        kernel.campaign("campaign:missing"),
        Err(KernelError::NotFound(_))
    ));
    assert!(matches!(
        kernel.authorize_campaign_dispatch("campaign:missing", &dispatch_request("x")),
        Err(KernelError::NotFound(_))
    ));
}

#[test]
fn recreating_a_campaign_is_idempotent_and_conflicts_on_change() {
    let mut kernel = fixture();
    let again = kernel
        .create_campaign(CreateCampaignRequest {
            id: "campaign:test".to_owned(),
            name: "Test campaign".to_owned(),
            objective: "Exercise the public authority path.".to_owned(),
            image: image(),
        })
        .unwrap();
    assert_eq!(again.generation, 1);
    assert!(matches!(
        kernel.create_campaign(CreateCampaignRequest {
            id: "campaign:test".to_owned(),
            name: "Renamed".to_owned(),
            objective: "Exercise the public authority path.".to_owned(),
            image: image(),
        }),
        Err(KernelError::Conflict(_))
    ));
    assert_eq!(kernel.campaign_rows().len(), 1);
}

#[test]
fn blank_campaign_name_is_a_contract_error() {
    let mut kernel = ReferenceKernel::open("/tmp/concord-kernel-test/blank.db").unwrap();
    assert!(matches!(
        kernel.create_campaign(CreateCampaignRequest {
            id: "campaign:blank".to_owned(),
            name: "   ".to_owned(),
            objective: "objective".to_owned(),
            image: image(),
        }),
        Err(KernelError::Contract(_))
    ));
}

#[test]
fn snapshot_holds_the_campaign_its_permits_and_replayed_projection() {
    let mut kernel = fixture();
    let permit = kernel
        .authorize_campaign_dispatch("campaign:test", &dispatch_request("snap"))
        .unwrap();
    let event = EpactRuntimeEvent {
        id: "event:result".to_owned(),
        program_image_sha256: IMAGE_SHA256.to_owned(),
        sequence: 0,
        actor: "operator".to_owned(),
        idempotency_key: "record:result".to_owned(),
        kind: EpactRuntimeEventKind::ObjectRecorded {
            object_id: "result".to_owned(),
        },
        previous_event_sha256: None,
        event_sha256: "4".repeat(64),
        created_at: "2026-09-03T12:00:00Z".to_owned(),
    };
    kernel.accept_epact_event("campaign:test", event).unwrap();
    let snapshot = kernel.snapshot("campaign:test").unwrap();
    assert_eq!(snapshot.campaign.id, "campaign:test");
    assert_eq!(snapshot.image.image_sha256, IMAGE_SHA256);
    assert_eq!(snapshot.epact_state.next_sequence, 1);
    assert_eq!(snapshot.epact_state.present_object_ids, vec!["result".to_owned()]);
    assert_eq!(snapshot.epact_events.len(), 1);
    assert_eq!(snapshot.budgets.len(), 1);
    assert_eq!(snapshot.dispatch_permits.len(), 1);
    assert_eq!(snapshot.dispatch_permits[0].token, permit.token);
    assert_eq!(snapshot.kernel_events.len(), 4);
    assert!(matches!(
        kernel.snapshot("campaign:missing"),
        Err(KernelError::NotFound(_))
    ));
}

#[test]
fn snapshot_lists_budgets_by_identifier() {
    let mut kernel = fixture();
    kernel
        .create_budget(
            "campaign:test",
            &CreateBudgetRequest {
                id: "budget:archive".to_owned(),
                total_microusd: 5,
            },
        )
        .unwrap();
    let snapshot = kernel.snapshot("campaign:test").unwrap();
    let ids: Vec<&str> = snapshot.budgets.iter().map(|b| b.id.as_str()).collect();
    assert_eq!(ids, ["budget:archive", "budget:local"]);
}

#[test]
fn every_lifecycle_step_keeps_the_campaign_verifiable() {
    let mut kernel = fixture();
    assert!(kernel.verify_campaign("campaign:test").is_ok());
    let first = kernel
        .authorize_campaign_dispatch("campaign:test", &dispatch_request("step:one"))
        .unwrap();
    assert!(kernel.verify_campaign("campaign:test").is_ok());
    kernel.consume_campaign_dispatch(&first.token).unwrap();
    assert!(kernel.verify_campaign("campaign:test").is_ok());
    kernel
        .interrupt_campaign_dispatch(&first.token, "worker lost")
        .unwrap();
    assert!(kernel.verify_campaign("campaign:test").is_ok());
    kernel
        .resolve_interrupted_dispatch("campaign:test", &first.token, &no_provider_start())
        .unwrap();
    assert!(kernel.verify_campaign("campaign:test").is_ok());
    let second = kernel
        .authorize_campaign_dispatch("campaign:test", &dispatch_request("step:two"))
        .unwrap();
    kernel.release_campaign_dispatch(&second.token).unwrap();
    assert!(kernel.verify_campaign("campaign:test").is_ok());
    let third = kernel
        .authorize_campaign_dispatch("campaign:test", &dispatch_request("step:three"))
        .unwrap();
    kernel.consume_campaign_dispatch(&third.token).unwrap();
    kernel
        .settle_campaign_dispatch(&third.token, 100_000, "provider invoice")
        .unwrap();
    let report = reopen(kernel).verify_campaign("campaign:test").unwrap();
    assert_eq!(report.dispatch_permit_count, 3);
}

#[test]
fn snapshot_lists_permits_by_when_they_last_changed_then_by_token() {
    let mut kernel = fixture();
    let start: i64 = 1_800_000_000;
    kernel
        .authorize_campaign_dispatch_at("campaign:test", &dispatch_request("order:first"), start, "dispatch_b".to_owned())
        .unwrap();
    kernel
        .authorize_campaign_dispatch_at("campaign:test", &dispatch_request("order:second"), start + 1, "dispatch_a".to_owned())
        .unwrap();
    kernel
        .authorize_campaign_dispatch_at("campaign:test", &dispatch_request("order:third"), start + 1, "dispatch_0".to_owned())
        .unwrap();
    kernel.consume_campaign_dispatch_at("dispatch_b", start + 2).unwrap();
    let kernel = reopen(kernel);
    let snapshot = kernel.snapshot("campaign:test").unwrap();
    let tokens: Vec<&str> = snapshot.dispatch_permits.iter().map(|p| p.token.as_str()).collect();
    assert_eq!(tokens, vec!["dispatch_0", "dispatch_a", "dispatch_b"]);
}

#[test]
fn accepted_projection_is_what_the_snapshot_shows() {
    let mut kernel = fixture();
    let event = EpactRuntimeEvent {
        id: "event:result".to_owned(),
        program_image_sha256: IMAGE_SHA256.to_owned(),
        sequence: 0,
        actor: "operator".to_owned(),
        idempotency_key: "record:result".to_owned(),
        kind: EpactRuntimeEventKind::ObjectRecorded {
            object_id: "result".to_owned(),
        },
        previous_event_sha256: None,
        event_sha256: "5".repeat(64),
        created_at: "2026-09-03T12:00:00Z".to_owned(),
    };
    let accepted = kernel.accept_epact_event("campaign:test", event).unwrap();
    let kernel = reopen(kernel);
    let snapshot = kernel.snapshot("campaign:test").unwrap();
    let shown = &snapshot.epact_state;
    assert_eq!(shown.program_image_sha256, accepted.program_image_sha256);
    assert_eq!(shown.next_sequence, accepted.next_sequence);
    assert_eq!(shown.event_head_sha256, accepted.event_head_sha256);
    assert_eq!(shown.event_head_sha256, Some("5".repeat(64)));
    assert_eq!(shown.present_object_ids, accepted.present_object_ids);
    assert_eq!(shown.satisfied_evidence_rule_ids, accepted.satisfied_evidence_rule_ids);
    assert_eq!(shown.obligations.len(), accepted.obligations.len());
    for (left, right) in shown.obligations.iter().zip(accepted.obligations.iter()) {
        assert_eq!(left.obligation_id, right.obligation_id);
        assert_eq!(left.state, right.state);
        assert_eq!(left.terminal_event_sha256, right.terminal_event_sha256);
    }
}

#[test]
fn refused_dispatch_names_each_blocker_as_code_and_subject() {
    let mut kernel = fixture();
    let mut request = dispatch_request("wrong-effects");
    request.epact.as_mut().unwrap().effects = vec!["network_write".to_owned()];
    match kernel.authorize_campaign_dispatch("campaign:test", &request) {
        Err(KernelError::AuthorityDenied(message)) => {
            assert!(message.split(", ").any(|part| part == "effect_mismatch:run-analysis"));
            assert!(message.split(", ").all(|part| part.split(':').count() >= 2));
        }
        other => panic!("expected a denial, got {other:?}"),
    }
}

#[test]
fn dispatch_tokens_are_prefixed_lowercase_uuids() {
    let mut kernel = fixture();
    let permit = kernel
        .authorize_campaign_dispatch("campaign:test", &dispatch_request("token-shape"))
        .unwrap();
    assert_eq!(permit.token.len(), 41);
    assert!(permit.token.starts_with("dispatch_"));
    assert!(permit.token[9..].chars().all(|c| c.is_ascii_digit() || ('a'..='f').contains(&c)));
}
