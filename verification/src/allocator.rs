//! A provider-neutral allocation facade over a kernel's dispatch operations: it composes only
//! the legal permit lifecycle and checks every record the kernel hands back.

use vstd::prelude::*;
use vstd::string::StringExecFns;
use crate::dispatch::{
    binding_view, same_opt_text, AuthorizeCampaignDispatchRequest, CampaignDispatchPermit,
    DispatchPermitStatus, PermitView, permit_status_name,
};
use crate::epact::opt_text;
use crate::reference::binding_equal;
use crate::text::{is_blank, measure_text, trim, trim_text};

verus! {

broadcast use vstd::string::group_string_axioms;

/// The dispatch operations of a kernel. Implementations own storage, clocks, credentials and
/// durable authority; nothing is assumed of what they return, which the allocator checks.
pub trait DispatchKernel {
    type Error;

    fn authorize_dispatch(
        &self,
        campaign_id: &str,
        request: &AuthorizeCampaignDispatchRequest,
    ) -> Result<CampaignDispatchPermit, Self::Error>;

    fn consume_dispatch(&self, token: &str) -> Result<CampaignDispatchPermit, Self::Error>;

    fn settle_dispatch(
        &self,
        token: &str,
        actual_cost_microusd: u64,
        settlement_basis: &str,
    ) -> Result<CampaignDispatchPermit, Self::Error>;

    fn interrupt_dispatch(&self, token: &str, reason: &str) -> Result<CampaignDispatchPermit, Self::Error>;

    fn release_dispatch(&self, token: &str) -> Result<CampaignDispatchPermit, Self::Error>;
}

/// Why the allocator refused, or what the kernel did wrong.
#[derive(Debug)]
pub enum DispatchRuntimeError<KernelError> {
    Kernel(KernelError),
    IllegalLifecycle { expected: &'static str, actual: DispatchPermitStatus },
    InvalidSettlement,
    InvalidInterruption,
    KernelInvariant(&'static str),
}

/// The permit carries exactly the authority the request asked for.
pub open spec fn initial_permit_matches(
    campaign_id: Seq<char>,
    request: AuthorizeCampaignDispatchRequest,
    p: PermitView,
) -> bool {
    &&& p.campaign_id == campaign_id
    &&& p.generation == request.generation
    &&& p.idempotency_key == request.idempotency_key@
    &&& p.actor == request.actor@
    &&& p.operation == request.operation
    &&& p.target_id == request.target_id@
    &&& p.budget_id == opt_text(request.budget_id)
    &&& p.maximum_cost_microusd == request.maximum_cost_microusd
    &&& p.reserve_budget == request.reserve_budget
    &&& p.budget_pre_reserved == request.budget_pre_reserved
    &&& p.epact == binding_view(request.epact)
}

/// Two records of one permit agree on everything a lifecycle step may not change.
pub open spec fn binding_kept(left: PermitView, right: PermitView) -> bool {
    &&& left.contract == right.contract
    &&& left.token == right.token
    &&& left.campaign_id == right.campaign_id
    &&& left.generation == right.generation
    &&& left.idempotency_key == right.idempotency_key
    &&& left.actor == right.actor
    &&& left.operation == right.operation
    &&& left.target_id == right.target_id
    &&& left.budget_id == right.budget_id
    &&& left.maximum_cost_microusd == right.maximum_cost_microusd
    &&& left.reserve_budget == right.reserve_budget
    &&& left.budget_pre_reserved == right.budget_pre_reserved
    &&& left.epact == right.epact
    &&& left.reconciliation_sha256 == right.reconciliation_sha256
    &&& left.issued_at == right.issued_at
    &&& left.deadline_at == right.deadline_at
}

/// Checks the permit a kernel issued: it is authorized and carries what was asked for.
pub fn validate_initial_permit<E>(
    campaign_id: &str,
    request: &AuthorizeCampaignDispatchRequest,
    permit: &CampaignDispatchPermit,
) -> (r: Result<(), DispatchRuntimeError<E>>)
    ensures
        match r {
            Ok(()) => permit.status == DispatchPermitStatus::Authorized && initial_permit_matches(
                campaign_id@,
                *request,
                permit@,
            ),
            Err(DispatchRuntimeError::IllegalLifecycle { expected, actual }) => permit.status
                != DispatchPermitStatus::Authorized && expected@ == permit_status_name(
                DispatchPermitStatus::Authorized,
            ) && actual == permit.status,
            Err(DispatchRuntimeError::KernelInvariant(_)) => permit.status
                == DispatchPermitStatus::Authorized && !initial_permit_matches(
                campaign_id@,
                *request,
                permit@,
            ),
            Err(_) => false,
        },
{
    if permit.status != DispatchPermitStatus::Authorized {
        return Err(
            DispatchRuntimeError::IllegalLifecycle {
                expected: DispatchPermitStatus::Authorized.as_str(),
                actual: permit.status,
            },
        );
    }
    let epact_same = match (&permit.epact, &request.epact) {
        (Some(a), Some(b)) => binding_equal(a, b),
        (None, None) => true,
        _ => false,
    };
    let id = campaign_id.to_string();
    if !(permit.campaign_id == id) || permit.generation != request.generation || !(
    permit.idempotency_key == request.idempotency_key) || !(permit.actor == request.actor) || permit.operation
        != request.operation || !(permit.target_id == request.target_id) || !same_opt_text(
        &permit.budget_id,
        &request.budget_id,
    ) || permit.maximum_cost_microusd != request.maximum_cost_microusd || permit.reserve_budget
        != request.reserve_budget || permit.budget_pre_reserved != request.budget_pre_reserved
        || !epact_same {
        return Err(
            DispatchRuntimeError::KernelInvariant(
                "authorized permit differs from the requested authority",
            ),
        );
    }
    Ok(())
}

/// Whether two records of one permit agree on everything a lifecycle step may not change.
pub fn same_binding(left: &CampaignDispatchPermit, right: &CampaignDispatchPermit) -> (r: bool)
    ensures
        r == binding_kept(left@, right@),
{
    let epact_same = match (&left.epact, &right.epact) {
        (Some(a), Some(b)) => binding_equal(a, b),
        (None, None) => true,
        _ => false,
    };
    left.contract == right.contract && left.token == right.token && left.campaign_id
        == right.campaign_id && left.generation == right.generation && left.idempotency_key
        == right.idempotency_key && left.actor == right.actor && left.operation == right.operation
        && left.target_id == right.target_id && same_opt_text(&left.budget_id, &right.budget_id)
        && left.maximum_cost_microusd == right.maximum_cost_microusd && left.reserve_budget
        == right.reserve_budget && left.budget_pre_reserved == right.budget_pre_reserved
        && epact_same && left.reconciliation_sha256 == right.reconciliation_sha256 && left.issued_at
        == right.issued_at && left.deadline_at == right.deadline_at
}

/// Allocation over a kernel's dispatch operations.
pub struct DispatchAllocator<'kernel, Kernel> {
    kernel: &'kernel Kernel,
}

/// A checked handle to one durable dispatch allocation. Dropping it claims nothing: the kernel
/// stays responsible for expiring or reconciling what the handle held.
pub struct DispatchAllocation<'kernel, Kernel> {
    kernel: &'kernel Kernel,
    permit: CampaignDispatchPermit,
}

impl<'kernel, Kernel: DispatchKernel> DispatchAllocator<'kernel, Kernel> {
    /// The kernel this allocator works through.
    pub closed spec fn kernel_view(&self) -> &'kernel Kernel {
        self.kernel
    }

    /// An allocator over `kernel`.
    pub fn new(kernel: &'kernel Kernel) -> (r: Self)
        ensures
            r.kernel_view() == kernel,
    {
        DispatchAllocator { kernel }
    }

    /// Obtains bounded authority from the kernel and checks that the permit it issued is
    /// authorized and carries exactly what was asked for. The request is handed to the kernel
    /// as given: the model-protocol validation of request fields is not part of this facade.
    pub fn reserve(
        &self,
        campaign_id: &str,
        request: &AuthorizeCampaignDispatchRequest,
    ) -> (r: Result<DispatchAllocation<'kernel, Kernel>, DispatchRuntimeError<Kernel::Error>>)
        ensures
            r matches Ok(allocation) ==> allocation.permit().status == DispatchPermitStatus::Authorized
                && initial_permit_matches(campaign_id@, *request, allocation.permit()@),
            r matches Err(e) ==> (e is Kernel || e is IllegalLifecycle || e is KernelInvariant),
    {
        let permit = match self.kernel.authorize_dispatch(campaign_id, request) {
            Ok(permit) => permit,
            Err(e) => {
                return Err(DispatchRuntimeError::Kernel(e));
            },
        };
        match validate_initial_permit(campaign_id, request, &permit) {
            Ok(()) => {},
            Err(e) => {
                return Err(e);
            },
        }
        Ok(DispatchAllocation { kernel: self.kernel, permit })
    }
}

impl<'kernel, Kernel: DispatchKernel> DispatchAllocation<'kernel, Kernel> {
    /// The permit this allocation holds.
    pub closed spec fn permit_view(&self) -> &CampaignDispatchPermit {
        &self.permit
    }

    /// The permit this allocation holds.
    #[verifier::when_used_as_spec(permit_view)]
    pub fn permit(&self) -> (r: &CampaignDispatchPermit)
        ensures
            r == self.permit_view(),
    {
        &self.permit
    }

    /// Refuses unless the permit is in the `expected` state.
    fn require_status(&self, expected: DispatchPermitStatus) -> (r: Result<(), DispatchRuntimeError<Kernel::Error>>)
        ensures
            match r {
                Ok(()) => self.permit.status == expected,
                Err(e) => e matches DispatchRuntimeError::IllegalLifecycle { expected: x, actual }
                    && x@ == permit_status_name(expected) && actual == self.permit.status
                    && self.permit.status != expected,
            },
    {
        if self.permit.status != expected {
            return Err(
                DispatchRuntimeError::IllegalLifecycle {
                    expected: expected.as_str(),
                    actual: self.permit.status,
                },
            );
        }
        Ok(())
    }

    /// Takes the kernel's next record of the permit when it keeps the permit's bindings and is
    /// in the `expected` state.
    fn accept_successor(&mut self, next: CampaignDispatchPermit, expected: DispatchPermitStatus) -> (r: Result<
        (),
        DispatchRuntimeError<Kernel::Error>,
    >)
        ensures
            final(self).kernel == old(self).kernel,
            match r {
                Ok(()) => final(self).permit@ == next@ && next.status == expected && binding_kept(
                    old(self).permit@,
                    next@,
                ),
                Err(e) => final(self).permit@ == old(self).permit@ && (e is KernelInvariant
                    || e is IllegalLifecycle),
            },
    {
        if !same_binding(&self.permit, &next) {
            return Err(
                DispatchRuntimeError::KernelInvariant(
                    "dispatch successor changed immutable permit bindings",
                ),
            );
        }
        if next.status != expected {
            return Err(
                DispatchRuntimeError::IllegalLifecycle {
                    expected: expected.as_str(),
                    actual: next.status,
                },
            );
        }
        self.permit = next;
        Ok(())
    }

    /// Crosses the external-start boundary once: only an authorized permit is consumed, and
    /// the kernel's record must be consumed and keep the permit's bindings.
    pub fn consume(&mut self) -> (r: Result<&CampaignDispatchPermit, DispatchRuntimeError<Kernel::Error>>)
        ensures
            old(self).permit_view().status != DispatchPermitStatus::Authorized ==> (r matches Err(e)
                && e is IllegalLifecycle && final(self).permit_view()@ == old(self).permit_view()@),
            r matches Ok(p) ==> p.status == DispatchPermitStatus::Consumed && binding_kept(
                old(self).permit_view()@,
                p@,
            ) && *p == *final(self).permit_view(),
            r is Err ==> final(self).permit_view()@ == old(self).permit_view()@,
    {
        match self.require_status(DispatchPermitStatus::Authorized) {
            Ok(()) => {},
            Err(e) => {
                return Err(e);
            },
        }
        let next = match self.kernel.consume_dispatch(self.permit.token.as_str()) {
            Ok(next) => next,
            Err(e) => {
                return Err(DispatchRuntimeError::Kernel(e));
            },
        };
        match self.accept_successor(next, DispatchPermitStatus::Consumed) {
            Ok(()) => {},
            Err(e) => {
                return Err(e);
            },
        }
        Ok(&self.permit)
    }

    /// Records the provider-reported cost of a consumed or interrupted allocation. The kernel's
    /// record must be settled, keep the permit's bindings, and carry the submitted accounting.
    pub fn settle(&mut self, actual_cost_microusd: u64, settlement_basis: &str) -> (r: Result<
        &CampaignDispatchPermit,
        DispatchRuntimeError<Kernel::Error>,
    >)
        ensures
            old(self).permit_view().status != DispatchPermitStatus::Consumed && old(self).permit_view().status
                != DispatchPermitStatus::Interrupted ==> (r matches Err(e) && e is IllegalLifecycle
                && final(self).permit_view()@ == old(self).permit_view()@),
            (old(self).permit_view().status == DispatchPermitStatus::Consumed || old(self).permit_view().status
                == DispatchPermitStatus::Interrupted) && is_blank(settlement_basis@) ==> (r matches Err(
                e,
            ) && e is InvalidSettlement && final(self).permit_view()@ == old(self).permit_view()@),
            r matches Ok(p) ==> p.status == DispatchPermitStatus::Settled && binding_kept(
                old(self).permit_view()@,
                p@,
            ) && p.actual_cost_microusd == Some(actual_cost_microusd) && p@.settlement_basis
                == Some(trim(settlement_basis@)) && *p == *final(self).permit_view(),
    {
        if self.permit.status != DispatchPermitStatus::Consumed && self.permit.status
            != DispatchPermitStatus::Interrupted {
            return Err(
                DispatchRuntimeError::IllegalLifecycle {
                    expected: "consumed or interrupted",
                    actual: self.permit.status,
                },
            );
        }
        let (_, blank) = measure_text(settlement_basis);
        if blank {
            return Err(DispatchRuntimeError::InvalidSettlement);
        }
        let basis = trim_text(settlement_basis);
        let next = match self.kernel.settle_dispatch(
            self.permit.token.as_str(),
            actual_cost_microusd,
            basis.as_str(),
        ) {
            Ok(next) => next,
            Err(e) => {
                return Err(DispatchRuntimeError::Kernel(e));
            },
        };
        match self.accept_successor(next, DispatchPermitStatus::Settled) {
            Ok(()) => {},
            Err(e) => {
                return Err(e);
            },
        }
        let same_cost = match self.permit.actual_cost_microusd {
            Some(cost) => cost == actual_cost_microusd,
            None => false,
        };
        let same_basis = match &self.permit.settlement_basis {
            Some(b) => *b == basis,
            None => false,
        };
        if !same_cost || !same_basis {
            return Err(
                DispatchRuntimeError::KernelInvariant(
                    "settlement receipt differs from the submitted accounting",
                ),
            );
        }
        Ok(&self.permit)
    }

    /// Preserves an ambiguous external start for reconciliation: only a consumed permit is
    /// interrupted, for a non-blank reason.
    pub fn interrupt(&mut self, reason: &str) -> (r: Result<&CampaignDispatchPermit, DispatchRuntimeError<Kernel::Error>>)
        ensures
            old(self).permit_view().status != DispatchPermitStatus::Consumed ==> (r matches Err(e)
                && e is IllegalLifecycle && final(self).permit_view()@ == old(self).permit_view()@),
            old(self).permit_view().status == DispatchPermitStatus::Consumed && is_blank(reason@) ==> (r matches Err(
                e,
            ) && e is InvalidInterruption && final(self).permit_view()@ == old(self).permit_view()@),
            r matches Ok(p) ==> p.status == DispatchPermitStatus::Interrupted && binding_kept(
                old(self).permit_view()@,
                p@,
            ) && *p == *final(self).permit_view(),
            r is Err ==> final(self).permit_view()@ == old(self).permit_view()@,
    {
        match self.require_status(DispatchPermitStatus::Consumed) {
            Ok(()) => {},
            Err(e) => {
                return Err(e);
            },
        }
        let (_, blank) = measure_text(reason);
        if blank {
            return Err(DispatchRuntimeError::InvalidInterruption);
        }
        let next = match self.kernel.interrupt_dispatch(self.permit.token.as_str(), reason) {
            Ok(next) => next,
            Err(e) => {
                return Err(DispatchRuntimeError::Kernel(e));
            },
        };
        match self.accept_successor(next, DispatchPermitStatus::Interrupted) {
            Ok(()) => {},
            Err(e) => {
                return Err(e);
            },
        }
        Ok(&self.permit)
    }

    /// Returns authority that never crossed the external-start boundary: only an authorized
    /// permit is released.
    pub fn release(&mut self) -> (r: Result<&CampaignDispatchPermit, DispatchRuntimeError<Kernel::Error>>)
        ensures
            old(self).permit_view().status != DispatchPermitStatus::Authorized ==> (r matches Err(e)
                && e is IllegalLifecycle && final(self).permit_view()@ == old(self).permit_view()@),
            r matches Ok(p) ==> p.status == DispatchPermitStatus::Released && binding_kept(
                old(self).permit_view()@,
                p@,
            ) && *p == *final(self).permit_view(),
            r is Err ==> final(self).permit_view()@ == old(self).permit_view()@,
    {
        match self.require_status(DispatchPermitStatus::Authorized) {
            Ok(()) => {},
            Err(e) => {
                return Err(e);
            },
        }
        let next = match self.kernel.release_dispatch(self.permit.token.as_str()) {
            Ok(next) => next,
            Err(e) => {
                return Err(DispatchRuntimeError::Kernel(e));
            },
        };
        match self.accept_successor(next, DispatchPermitStatus::Released) {
            Ok(()) => {},
            Err(e) => {
                return Err(e);
            },
        }
        Ok(&self.permit)
    }
}

} // verus!
