use std::cell::RefCell;

use concord::allocator::{
    same_binding, validate_initial_permit, DispatchAllocator, DispatchKernel, DispatchRuntimeError,
};
use concord::dispatch::{
    AuthorizeCampaignDispatchRequest, CampaignDispatchPermit, DispatchOperation,
    DispatchPermitStatus, CAMPAIGN_DISPATCH_PERMIT_CONTRACT,
};

#[derive(Debug)]
struct FakeKernelError(&'static str);

struct FakeKernel {
    permit: RefCell<CampaignDispatchPermit>,
    calls: RefCell<Vec<&'static str>>,
    drift_on_authorize: bool,
    refuse_authorize: bool,
}

impl FakeKernel {
    fn new(drift_on_authorize: bool) -> Self {
        Self {
            permit: RefCell::new(authorized_permit()),
            calls: RefCell::new(Vec::new()),
            drift_on_authorize,
            refuse_authorize: false,
        }
    }
}

impl DispatchKernel for FakeKernel {
    type Error = FakeKernelError;

    fn authorize_dispatch(
        &self,
        _campaign_id: &str,
        _request: &AuthorizeCampaignDispatchRequest,
    ) -> Result<CampaignDispatchPermit, Self::Error> {
        self.calls.borrow_mut().push("authorize");
        if self.refuse_authorize {
            return Err(FakeKernelError("budget exhausted"));
        }
        let mut permit = self.permit.borrow().clone();
        if self.drift_on_authorize {
            permit.target_id = "job:other".to_owned();
        }
        Ok(permit)
    }

    fn consume_dispatch(&self, _token: &str) -> Result<CampaignDispatchPermit, Self::Error> {
        self.calls.borrow_mut().push("consume");
        let mut permit = self.permit.borrow_mut();
        permit.status = DispatchPermitStatus::Consumed;
        permit.consumed_at = Some("2026-09-03T08:01:00Z".to_owned());
        Ok(permit.clone())
    }

    fn settle_dispatch(
        &self,
        _token: &str,
        actual_cost_microusd: u64,
        settlement_basis: &str,
    ) -> Result<CampaignDispatchPermit, Self::Error> {
        self.calls.borrow_mut().push("settle");
        let mut permit = self.permit.borrow_mut();
        permit.status = DispatchPermitStatus::Settled;
        permit.actual_cost_microusd = Some(actual_cost_microusd);
        permit.settlement_basis = Some(settlement_basis.to_owned());
        permit.settled_at = Some("2026-09-03T08:02:00Z".to_owned());
        permit.interruption = None;
        Ok(permit.clone())
    }

    fn interrupt_dispatch(
        &self,
        _token: &str,
        reason: &str,
    ) -> Result<CampaignDispatchPermit, Self::Error> {
        self.calls.borrow_mut().push("interrupt");
        let mut permit = self.permit.borrow_mut();
        permit.status = DispatchPermitStatus::Interrupted;
        permit.interruption = Some(reason.to_owned());
        Ok(permit.clone())
    }

    fn release_dispatch(&self, _token: &str) -> Result<CampaignDispatchPermit, Self::Error> {
        self.calls.borrow_mut().push("release");
        let mut permit = self.permit.borrow_mut();
        permit.status = DispatchPermitStatus::Released;
        permit.released_at = Some("2026-09-03T08:02:00Z".to_owned());
        Ok(permit.clone())
    }
}

#[test]
fn allocator_composes_reserve_consume_and_settle() {
    let kernel = FakeKernel::new(false);
    let allocator = DispatchAllocator::new(&kernel);
    let mut allocation = allocator.reserve("campaign:a", &request()).unwrap();

    assert_eq!(allocation.permit().status, DispatchPermitStatus::Authorized);
    allocation.consume().unwrap();
    assert_eq!(allocation.permit().status, DispatchPermitStatus::Consumed);
    allocation.settle(4_250_000, "provider usage receipt").unwrap();
    assert_eq!(allocation.permit().status, DispatchPermitStatus::Settled);
    assert_eq!(allocation.permit().actual_cost_microusd, Some(4_250_000));
    assert_eq!(
        kernel.calls.borrow().as_slice(),
        ["authorize", "consume", "settle"]
    );
}

#[test]
fn unconsumed_allocation_can_be_explicitly_released() {
    let kernel = FakeKernel::new(false);
    let allocator = DispatchAllocator::new(&kernel);
    let mut allocation = allocator.reserve("campaign:a", &request()).unwrap();
    allocation.release().unwrap();
    assert_eq!(allocation.permit().status, DispatchPermitStatus::Released);
    assert_eq!(kernel.calls.borrow().as_slice(), ["authorize", "release"]);
}

#[test]
fn dropping_a_handle_does_not_manufacture_a_release_receipt() {
    let kernel = FakeKernel::new(false);
    {
        let allocator = DispatchAllocator::new(&kernel);
        let _allocation = allocator.reserve("campaign:a", &request()).unwrap();
    }
    assert_eq!(kernel.calls.borrow().as_slice(), ["authorize"]);
}

#[test]
fn allocator_rejects_illegal_order_before_calling_the_kernel() {
    let kernel = FakeKernel::new(false);
    let allocator = DispatchAllocator::new(&kernel);
    let mut allocation = allocator.reserve("campaign:a", &request()).unwrap();
    let error = allocation
        .settle(4_250_000, "provider usage receipt")
        .unwrap_err();
    assert!(matches!(
        error,
        DispatchRuntimeError::IllegalLifecycle { .. }
    ));
    assert_eq!(kernel.calls.borrow().as_slice(), ["authorize"]);
}

#[test]
fn allocator_rejects_kernel_binding_drift() {
    let kernel = FakeKernel::new(true);
    let allocator = DispatchAllocator::new(&kernel);
    let error = match allocator.reserve("campaign:a", &request()) {
        Ok(_) => panic!("drifted permit must fail"),
        Err(error) => error,
    };
    assert!(matches!(error, DispatchRuntimeError::KernelInvariant(_)));
}

#[test]
fn kernel_refusal_is_passed_through() {
    let mut kernel = FakeKernel::new(false);
    kernel.refuse_authorize = true;
    let allocator = DispatchAllocator::new(&kernel);
    match allocator.reserve("campaign:a", &request()) {
        Err(DispatchRuntimeError::Kernel(FakeKernelError(message))) => {
            assert_eq!(message, "budget exhausted")
        }
        _ => panic!("kernel refusal must surface"),
    }
}

#[test]
fn interruption_requires_a_consumed_permit_and_a_reason() {
    let kernel = FakeKernel::new(false);
    let allocator = DispatchAllocator::new(&kernel);
    let mut allocation = allocator.reserve("campaign:a", &request()).unwrap();
    assert!(matches!(
        allocation.interrupt("lost").unwrap_err(),
        DispatchRuntimeError::IllegalLifecycle { .. }
    ));
    allocation.consume().unwrap();
    assert!(matches!(
        allocation.interrupt("   ").unwrap_err(),
        DispatchRuntimeError::InvalidInterruption
    ));
    allocation.interrupt("worker lost").unwrap();
    assert_eq!(allocation.permit().status, DispatchPermitStatus::Interrupted);
    assert_eq!(
        kernel.calls.borrow().as_slice(),
        ["authorize", "consume", "interrupt"]
    );
}

#[test]
fn settlement_needs_a_basis() {
    let kernel = FakeKernel::new(false);
    let allocator = DispatchAllocator::new(&kernel);
    let mut allocation = allocator.reserve("campaign:a", &request()).unwrap();
    allocation.consume().unwrap();
    assert!(matches!(
        allocation.settle(1, "").unwrap_err(),
        DispatchRuntimeError::InvalidSettlement
    ));
    assert_eq!(kernel.calls.borrow().as_slice(), ["authorize", "consume"]);
}

#[test]
fn initial_permit_checks_status_and_binding() {
    let permit = authorized_permit();
    assert!(validate_initial_permit::<()>("campaign:a", &request(), &permit).is_ok());
    assert!(matches!(
        validate_initial_permit::<()>("campaign:b", &request(), &permit),
        Err(DispatchRuntimeError::KernelInvariant(_))
    ));
    let mut consumed = authorized_permit();
    consumed.status = DispatchPermitStatus::Consumed;
    assert!(matches!(
        validate_initial_permit::<()>("campaign:a", &request(), &consumed),
        Err(DispatchRuntimeError::IllegalLifecycle {
            actual: DispatchPermitStatus::Consumed,
            ..
        })
    ));
}

#[test]
fn binding_comparison_ignores_lifecycle_fields() {
    let left = authorized_permit();
    let mut right = authorized_permit();
    right.status = DispatchPermitStatus::Settled;
    right.actual_cost_microusd = Some(5);
    assert!(same_binding(&left, &right));
    right.maximum_cost_microusd = 1;
    assert!(!same_binding(&left, &right));
}

fn request() -> AuthorizeCampaignDispatchRequest {
    AuthorizeCampaignDispatchRequest {
        generation: 3,
        idempotency_key: "dispatch:campaign-a:job-7".to_owned(),
        actor: "operator:alice".to_owned(),
        operation: DispatchOperation::ExternalJob,
        target_id: "job:7".to_owned(),
        budget_id: Some("budget:campaign-a".to_owned()),
        maximum_cost_microusd: 12_500_000,
        reserve_budget: true,
        budget_pre_reserved: false,
        maximum_elapsed_seconds: 900,
        epact: None,
    }
}

fn authorized_permit() -> CampaignDispatchPermit {
    CampaignDispatchPermit {
        contract: CAMPAIGN_DISPATCH_PERMIT_CONTRACT.to_owned(),
        token: "permit:7".to_owned(),
        campaign_id: "campaign:a".to_owned(),
        generation: 3,
        idempotency_key: "dispatch:campaign-a:job-7".to_owned(),
        actor: "operator:alice".to_owned(),
        operation: DispatchOperation::ExternalJob,
        target_id: "job:7".to_owned(),
        budget_id: Some("budget:campaign-a".to_owned()),
        maximum_cost_microusd: 12_500_000,
        reserve_budget: true,
        budget_pre_reserved: false,
        epact: None,
        reconciliation_sha256: "a".repeat(64),
        status: DispatchPermitStatus::Authorized,
        issued_at: "2026-09-03T08:00:00Z".to_owned(),
        deadline_at: "2026-09-03T08:15:00Z".to_owned(),
        consumed_at: None,
        settled_at: None,
        actual_cost_microusd: None,
        settlement_basis: None,
        interruption: None,
        released_at: None,
        resolution_evidence_sha256: None,
        resolved_by: None,
    }
}
