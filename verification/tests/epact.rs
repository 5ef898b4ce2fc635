use concord::epact::{
    CompiledAuthority, EpactDischarge, EpactObligation, EpactObligationState,
    EpactOperationRequest, EpactProgramImage, EpactResourceEnvelope, EpactRuntimeError,
    EpactRuntimeEvent, EpactRuntimeEventKind, EpactTerminalRule, KernelOperation,
};
use concord::epact_eval::{
    epact_program_is_terminal, evaluate_epact_operation, validate_epact_timestamp,
};
use concord::epact_runtime::{
    apply_event, initial_epact_state, obligation_state_of, replay_epact_events,
};

const IMAGE_SHA256: &str = "5e1f0d2c3b4a59687766554433221100ffeeddccbbaa99887766554433221100";

fn resources(cost_microusd: u64) -> EpactResourceEnvelope {
    EpactResourceEnvelope {
        maximum_cost_microusd: cost_microusd,
        maximum_elapsed_seconds: 60,
        maximum_model_calls: 0,
        maximum_tool_calls: 1,
        maximum_external_jobs: 0,
        maximum_cpu_millicores: 1000,
        maximum_ram_milli_gb: 1000,
        maximum_gpu_count: 0,
        maximum_vram_milli_gb: 0,
        maximum_storage_milli_gb: 1000,
        maximum_data_movement_milli_gb: 0,
    }
}

fn image() -> EpactProgramImage {
    EpactProgramImage {
        image_sha256: IMAGE_SHA256.to_owned(),
        program_id: "program:quickstart".to_owned(),
        created_by: "operator".to_owned(),
        principal_ids: vec!["operator".to_owned()],
        object_ids: vec!["result".to_owned()],
        capability_ids: vec!["local-analysis".to_owned()],
        authorities: vec![CompiledAuthority {
            principal_id: "operator".to_owned(),
            operation: KernelOperation::Dispatch,
            whole_program: true,
            obligation_ids: Vec::new(),
            capability_ids: Vec::new(),
            maximum_cost_microusd: Some(1_000_000),
            valid_after: None,
            valid_before: None,
        }],
        resources: resources(1_000_000),
        obligations: vec![EpactObligation {
            id: "run-analysis".to_owned(),
            dependency_ids: Vec::new(),
            gate_ids: Vec::new(),
            discharge: EpactDischarge::Capability {
                capability_id: "local-analysis".to_owned(),
            },
            output_object_ids: vec!["result".to_owned()],
            effects: vec!["local_write".to_owned()],
            resources: resources(1_000_000),
            terminal_receipt_contract: "example.analysis-receipt/1".to_owned(),
        }],
        gates: Vec::new(),
        evidence_rules: Vec::new(),
        terminal: EpactTerminalRule {
            required_obligation_ids: vec!["run-analysis".to_owned()],
            required_object_ids: vec!["result".to_owned()],
            required_receipt_contracts: vec!["example.analysis-receipt/1".to_owned()],
        },
        obligation_order: vec!["run-analysis".to_owned()],
    }
}

fn request(principal: &str, cost_microusd: u64) -> EpactOperationRequest {
    EpactOperationRequest {
        principal_id: principal.to_owned(),
        operation: KernelOperation::Dispatch,
        requested_at: "2026-09-03T12:00:00Z".to_owned(),
        obligation_id: Some("run-analysis".to_owned()),
        capability_id: Some("local-analysis".to_owned()),
        effects: vec!["local_write".to_owned()],
        resources: EpactResourceEnvelope {
            maximum_cost_microusd: cost_microusd,
            ..resources(cost_microusd)
        },
    }
}

fn recorded(sequence: u64, previous: Option<&str>, sha: &str) -> EpactRuntimeEvent {
    EpactRuntimeEvent {
        id: format!("event:{sequence}"),
        program_image_sha256: IMAGE_SHA256.to_owned(),
        sequence,
        actor: "operator".to_owned(),
        idempotency_key: format!("key:{sequence}"),
        kind: EpactRuntimeEventKind::ObjectRecorded {
            object_id: "result".to_owned(),
        },
        previous_event_sha256: previous.map(|p| p.to_owned()),
        event_sha256: sha.to_owned(),
        created_at: "2026-09-03T12:00:00Z".to_owned(),
    }
}

fn satisfied(sequence: u64, previous: &str, sha: &str, contract: &str) -> EpactRuntimeEvent {
    EpactRuntimeEvent {
        id: format!("event:{sequence}"),
        program_image_sha256: IMAGE_SHA256.to_owned(),
        sequence,
        actor: "operator".to_owned(),
        idempotency_key: format!("key:{sequence}"),
        kind: EpactRuntimeEventKind::ObligationSatisfied {
            obligation_id: "run-analysis".to_owned(),
            receipt_contract: contract.to_owned(),
        },
        previous_event_sha256: Some(previous.to_owned()),
        event_sha256: sha.to_owned(),
        created_at: "2026-09-03T12:00:01Z".to_owned(),
    }
}

#[test]
fn timestamps_use_the_canonical_utc_second_form() {
    assert!(validate_epact_timestamp("2026-09-03T12:00:00Z"));
    assert!(!validate_epact_timestamp("2026-09-03T12:00:00+00:00"));
    assert!(!validate_epact_timestamp("2026-13-03T12:00:00Z"));
    assert!(!validate_epact_timestamp("2026-09-03T24:00:00Z"));
    assert!(!validate_epact_timestamp("2026-09-03 12:00:00Z"));
}

#[test]
fn initial_state_has_every_obligation_pending() {
    let img = image();
    let state = initial_epact_state(&img);
    assert_eq!(state.next_sequence, 0);
    assert_eq!(state.event_head_sha256, None);
    assert_eq!(
        obligation_state_of(&state, &"run-analysis".to_owned()),
        Some(EpactObligationState::Pending)
    );
    assert!(state.present_object_ids.is_empty());
}

#[test]
fn permitted_dispatch_is_eligible() {
    let img = image();
    let state = initial_epact_state(&img);
    let eligibility = evaluate_epact_operation(&img, &state, &request("operator", 250_000)).unwrap();
    assert!(eligibility.allowed);
    assert!(eligibility.blockers.is_empty());
}

#[test]
fn unknown_principal_and_excess_cost_are_blocked() {
    let img = image();
    let state = initial_epact_state(&img);
    let stranger = evaluate_epact_operation(&img, &state, &request("stranger", 250_000)).unwrap();
    assert!(!stranger.allowed);
    assert!(stranger.blockers.iter().any(|b| b.code == "unknown_principal"));
    let costly = evaluate_epact_operation(&img, &state, &request("operator", 2_000_000)).unwrap();
    assert!(!costly.allowed);
    assert!(costly
        .blockers
        .iter()
        .any(|b| b.code == "obligation_resource_ceiling"));
    let mut late = request("operator", 250_000);
    late.requested_at = "yesterday".to_owned();
    let late = evaluate_epact_operation(&img, &state, &late).unwrap();
    assert!(late.blockers.iter().any(|b| b.code == "invalid_request_time"));
}

#[test]
fn replay_reaches_the_terminal_state() {
    let img = image();
    let first = recorded(0, None, &"1".repeat(64));
    let second = satisfied(1, &"1".repeat(64), &"2".repeat(64), "example.analysis-receipt/1");
    let events = vec![first, second];
    let state = replay_epact_events(&img, &events).unwrap();
    assert_eq!(state.next_sequence, 2);
    assert_eq!(state.event_head_sha256, Some("2".repeat(64)));
    assert_eq!(
        obligation_state_of(&state, &"run-analysis".to_owned()),
        Some(EpactObligationState::Satisfied)
    );
    assert!(epact_program_is_terminal(&img, &state, &events).unwrap());
    let partial = replay_epact_events(&img, &events[..1].to_vec()).unwrap();
    assert!(!epact_program_is_terminal(&img, &partial, &events[..1].to_vec()).unwrap());
}

#[test]
fn replay_refuses_broken_histories() {
    let img = image();
    assert!(matches!(
        replay_epact_events(&img, &vec![recorded(1, None, &"1".repeat(64))]),
        Err(EpactRuntimeError::UnexpectedSequence { expected: 0, actual: 1 })
    ));
    assert!(matches!(
        replay_epact_events(
            &img,
            &vec![
                recorded(0, None, &"1".repeat(64)),
                satisfied(1, &"9".repeat(64), &"2".repeat(64), "example.analysis-receipt/1"),
            ]
        ),
        Err(EpactRuntimeError::BrokenEventChain(_))
    ));
    assert!(matches!(
        replay_epact_events(
            &img,
            &vec![
                recorded(0, None, &"1".repeat(64)),
                satisfied(1, &"1".repeat(64), &"2".repeat(64), "other-receipt/1"),
            ]
        ),
        Err(EpactRuntimeError::ReceiptContractMismatch { .. })
    ));
    let mut foreign = recorded(0, None, &"1".repeat(64));
    foreign.program_image_sha256 = "0".repeat(64);
    assert!(matches!(
        replay_epact_events(&img, &vec![foreign]),
        Err(EpactRuntimeError::ImageBindingMismatch)
    ));
}

#[test]
fn satisfaction_needs_the_discharged_object() {
    let img = image();
    let mut state = initial_epact_state(&img);
    let premature = EpactRuntimeEvent {
        previous_event_sha256: None,
        sequence: 0,
        ..satisfied(0, "", &"2".repeat(64), "example.analysis-receipt/1")
    };
    assert!(matches!(
        apply_event(&img, &mut state, &premature),
        Err(EpactRuntimeError::MissingDischargeObject { .. })
    ));
    let mut state = initial_epact_state(&img);
    apply_event(&img, &mut state, &recorded(0, None, &"1".repeat(64))).unwrap();
    assert_eq!(state.present_object_ids, vec!["result".to_owned()]);
}

#[test]
fn every_prefix_of_a_replayed_history_replays_and_is_chained() {
    let img = image();
    let events = vec![
        recorded(0, None, &"1".repeat(64)),
        recorded(1, Some(&"1".repeat(64)), &"2".repeat(64)),
        satisfied(2, &"2".repeat(64), &"3".repeat(64), "example.analysis-receipt/1"),
    ];
    let full = replay_epact_events(&img, &events).unwrap();
    assert_eq!(full.program_image_sha256, IMAGE_SHA256);
    for k in 0..=events.len() {
        let prefix = events[..k].to_vec();
        let state = replay_epact_events(&img, &prefix).unwrap();
        assert_eq!(state.next_sequence, k as u64);
        assert_eq!(state.event_head_sha256, prefix.last().map(|e| e.event_sha256.clone()));
        for (i, event) in prefix.iter().enumerate() {
            assert_eq!(event.sequence, i as u64);
            let expected = if i == 0 { None } else { Some(prefix[i - 1].event_sha256.clone()) };
            assert_eq!(event.previous_event_sha256, expected);
        }
    }
    let again = replay_epact_events(&img, &events).unwrap();
    assert_eq!(again.next_sequence, full.next_sequence);
    assert_eq!(again.event_head_sha256, full.event_head_sha256);
}
