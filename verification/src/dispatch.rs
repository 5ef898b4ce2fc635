//! Dispatch permits: bounded, single-use authority to start one external effect.

use vstd::prelude::*;
use vstd::string::StringExecFns;
use crate::canonical::{decimal, json_string, push_decimal, push_json_string};
use crate::epact::{opt_text, EpactResourceEnvelope, KernelOperation};
use crate::kernel::json_optional;
use crate::order::{clone_texts, texts};

verus! {

broadcast use vstd::string::group_string_axioms;

/// The contract every dispatch permit carries.
pub const CAMPAIGN_DISPATCH_PERMIT_CONTRACT: &'static str = "concord.campaign-dispatch-permit/1";

/// Where a permit stands in its lifecycle.
#[derive(Clone, Copy, PartialEq, Eq, Debug, Structural)]
pub enum DispatchPermitStatus {
    Authorized,
    Consumed,
    Settled,
    Interrupted,
    Released,
}

pub open spec fn permit_status_name(status: DispatchPermitStatus) -> Seq<char> {
    match status {
        DispatchPermitStatus::Authorized => "authorized"@,
        DispatchPermitStatus::Consumed => "consumed"@,
        DispatchPermitStatus::Settled => "settled"@,
        DispatchPermitStatus::Interrupted => "interrupted"@,
        DispatchPermitStatus::Released => "released"@,
    }
}

impl DispatchPermitStatus {
    pub fn as_str(&self) -> (r: &'static str)
        ensures
            r@ == permit_status_name(*self),
    {
        match self {
            DispatchPermitStatus::Authorized => "authorized",
            DispatchPermitStatus::Consumed => "consumed",
            DispatchPermitStatus::Settled => "settled",
            DispatchPermitStatus::Interrupted => "interrupted",
            DispatchPermitStatus::Released => "released",
        }
    }

    /// Reads a stored status name.
    pub fn parse(value: &str) -> (r: Option<DispatchPermitStatus>)
        ensures
            match r {
                Some(status) => permit_status_name(status) == value@,
                None => forall|s: DispatchPermitStatus| permit_status_name(s) != value@,
            },
    {
        let owned = value.to_string();
        if owned == "authorized".to_string() {
            Some(DispatchPermitStatus::Authorized)
        } else if owned == "consumed".to_string() {
            Some(DispatchPermitStatus::Consumed)
        } else if owned == "settled".to_string() {
            Some(DispatchPermitStatus::Settled)
        } else if owned == "interrupted".to_string() {
            Some(DispatchPermitStatus::Interrupted)
        } else if owned == "released".to_string() {
            Some(DispatchPermitStatus::Released)
        } else {
            None
        }
    }
}

/// What the dispatched effect is.
#[derive(Clone, Copy, PartialEq, Eq, Debug, Structural)]
pub enum DispatchOperation {
    ExecutionRun,
    ExternalJob,
    AgentModelCall,
}

pub open spec fn dispatch_operation_name(op: DispatchOperation) -> Seq<char> {
    match op {
        DispatchOperation::ExecutionRun => "execution_run"@,
        DispatchOperation::ExternalJob => "external_job"@,
        DispatchOperation::AgentModelCall => "agent_model_call"@,
    }
}

pub open spec fn kernel_operation_name(op: KernelOperation) -> Seq<char> {
    match op {
        KernelOperation::Freeze => "freeze"@,
        KernelOperation::Authorize => "authorize"@,
        KernelOperation::Propose => "propose"@,
        KernelOperation::Reserve => "reserve"@,
        KernelOperation::Dispatch => "dispatch"@,
        KernelOperation::Amend => "amend"@,
        KernelOperation::Attest => "attest"@,
        KernelOperation::Evaluate => "evaluate"@,
        KernelOperation::Decide => "decide"@,
        KernelOperation::Publish => "publish"@,
        KernelOperation::Retract => "retract"@,
    }
}

fn dispatch_operation_str(op: DispatchOperation) -> (r: &'static str)
    ensures
        r@ == dispatch_operation_name(op),
{
    match op {
        DispatchOperation::ExecutionRun => "execution_run",
        DispatchOperation::ExternalJob => "external_job",
        DispatchOperation::AgentModelCall => "agent_model_call",
    }
}

fn kernel_operation_str(op: KernelOperation) -> (r: &'static str)
    ensures
        r@ == kernel_operation_name(op),
{
    match op {
        KernelOperation::Freeze => "freeze",
        KernelOperation::Authorize => "authorize",
        KernelOperation::Propose => "propose",
        KernelOperation::Reserve => "reserve",
        KernelOperation::Dispatch => "dispatch",
        KernelOperation::Amend => "amend",
        KernelOperation::Attest => "attest",
        KernelOperation::Evaluate => "evaluate",
        KernelOperation::Decide => "decide",
        KernelOperation::Publish => "publish",
        KernelOperation::Retract => "retract",
    }
}

/// The Epact obligation a dispatch is bound to.
#[derive(Debug, Clone)]
pub struct EpactDispatchBinding {
    pub program_image_sha256: String,
    pub obligation_id: String,
    pub operation: KernelOperation,
    pub capability_id: Option<String>,
    pub effects: Vec<String>,
    pub resources: EpactResourceEnvelope,
}

/// A binding as mathematical values.
pub struct BindingView {
    pub program_image_sha256: Seq<char>,
    pub obligation_id: Seq<char>,
    pub operation: KernelOperation,
    pub capability_id: Option<Seq<char>>,
    pub effects: Seq<Seq<char>>,
    pub resources: EpactResourceEnvelope,
}

impl View for EpactDispatchBinding {
    type V = BindingView;

    open spec fn view(&self) -> BindingView {
        BindingView {
            program_image_sha256: self.program_image_sha256@,
            obligation_id: self.obligation_id@,
            operation: self.operation,
            capability_id: crate::epact::opt_text(self.capability_id),
            effects: texts(self.effects@),
            resources: self.resources,
        }
    }
}

pub open spec fn binding_view(b: Option<EpactDispatchBinding>) -> Option<BindingView> {
    match b {
        Some(b) => Some(b@),
        None => None,
    }
}

/// A request for bounded dispatch authority. Money is in micro-USD.
#[derive(Debug, Clone)]
pub struct AuthorizeCampaignDispatchRequest {
    pub generation: u64,
    pub idempotency_key: String,
    pub actor: String,
    pub operation: DispatchOperation,
    pub target_id: String,
    pub budget_id: Option<String>,
    pub maximum_cost_microusd: u64,
    pub reserve_budget: bool,
    pub budget_pre_reserved: bool,
    pub maximum_elapsed_seconds: u64,
    pub epact: Option<EpactDispatchBinding>,
}

/// Durable, single-use authority for one dispatch. Money is in micro-USD.
#[derive(Debug, Clone)]
pub struct CampaignDispatchPermit {
    pub contract: String,
    pub token: String,
    pub campaign_id: String,
    pub generation: u64,
    pub idempotency_key: String,
    pub actor: String,
    pub operation: DispatchOperation,
    pub target_id: String,
    pub budget_id: Option<String>,
    pub maximum_cost_microusd: u64,
    pub reserve_budget: bool,
    pub budget_pre_reserved: bool,
    pub epact: Option<EpactDispatchBinding>,
    pub reconciliation_sha256: String,
    pub status: DispatchPermitStatus,
    pub issued_at: String,
    pub deadline_at: String,
    pub consumed_at: Option<String>,
    pub settled_at: Option<String>,
    pub actual_cost_microusd: Option<u64>,
    pub settlement_basis: Option<String>,
    pub interruption: Option<String>,
    pub released_at: Option<String>,
    pub resolution_evidence_sha256: Option<String>,
    pub resolved_by: Option<String>,
}

/// How an operator resolved an interrupted dispatch.
#[derive(Clone, Copy, PartialEq, Eq, Debug, Structural)]
pub enum InterruptedDispatchResolution {
    NoProviderStart,
    ProviderSettled,
}

#[derive(Debug, Clone)]
pub struct ResolveInterruptedDispatchRequest {
    pub actor: String,
    pub resolution: InterruptedDispatchResolution,
    pub evidence_sha256: String,
    pub actual_cost_microusd: Option<u64>,
    pub settlement_basis: Option<String>,
}

pub open spec fn json_bool(b: bool) -> Seq<char> {
    if b {
        "true"@
    } else {
        "false"@
    }
}

pub open spec fn json_optional_number(n: Option<u64>) -> Seq<char> {
    match n {
        Some(v) => decimal(v as nat),
        None => "null"@,
    }
}

/// The first `n` texts as the body of a JSON array.
pub open spec fn json_string_items(v: Seq<Seq<char>>, n: nat) -> Seq<char>
    decreases n,
{
    if n == 0 || n > v.len() {
        Seq::empty()
    } else if n == 1 {
        json_string(v[0])
    } else {
        json_string_items(v, (n - 1) as nat) + ","@ + json_string(v[n - 1])
    }
}

pub open spec fn resources_json(r: EpactResourceEnvelope) -> Seq<char> {
    "{\"maximumCostMicrousd\":"@ + decimal(r.maximum_cost_microusd as nat)
        + ",\"maximumCpuMillicores\":"@ + decimal(r.maximum_cpu_millicores as nat)
        + ",\"maximumDataMovementMilliGb\":"@ + decimal(r.maximum_data_movement_milli_gb as nat)
        + ",\"maximumElapsedSeconds\":"@ + decimal(r.maximum_elapsed_seconds as nat)
        + ",\"maximumExternalJobs\":"@ + decimal(r.maximum_external_jobs as nat)
        + ",\"maximumGpuCount\":"@ + decimal(r.maximum_gpu_count as nat) + ",\"maximumModelCalls\":"@
        + decimal(r.maximum_model_calls as nat) + ",\"maximumRamMilliGb\":"@ + decimal(
        r.maximum_ram_milli_gb as nat,
    ) + ",\"maximumStorageMilliGb\":"@ + decimal(r.maximum_storage_milli_gb as nat)
        + ",\"maximumToolCalls\":"@ + decimal(r.maximum_tool_calls as nat)
        + ",\"maximumVramMilliGb\":"@ + decimal(r.maximum_vram_milli_gb as nat) + "}"@
}

pub open spec fn json_optional_view(s: Option<Seq<char>>) -> Seq<char> {
    match s {
        Some(v) => json_string(v),
        None => "null"@,
    }
}

pub open spec fn binding_view_json(b: BindingView) -> Seq<char> {
    "{\"capabilityId\":"@ + json_optional_view(b.capability_id) + ",\"effects\":["@
        + json_string_items(b.effects, b.effects.len()) + "],\"obligationId\":"@ + json_string(
        b.obligation_id,
    ) + ",\"operation\":"@ + json_string(kernel_operation_name(b.operation))
        + ",\"programImageSha256\":"@ + json_string(b.program_image_sha256) + ",\"resources\":"@
        + resources_json(b.resources) + "}"@
}

pub open spec fn binding_json(b: EpactDispatchBinding) -> Seq<char> {
    binding_view_json(b@)
}

pub open spec fn optional_binding_json(b: Option<BindingView>) -> Seq<char> {
    match b {
        Some(b) => binding_view_json(b),
        None => "null"@,
    }
}

/// A permit as mathematical values.
pub struct PermitView {
    pub contract: Seq<char>,
    pub token: Seq<char>,
    pub campaign_id: Seq<char>,
    pub generation: u64,
    pub idempotency_key: Seq<char>,
    pub actor: Seq<char>,
    pub operation: DispatchOperation,
    pub target_id: Seq<char>,
    pub budget_id: Option<Seq<char>>,
    pub maximum_cost_microusd: u64,
    pub reserve_budget: bool,
    pub budget_pre_reserved: bool,
    pub epact: Option<BindingView>,
    pub reconciliation_sha256: Seq<char>,
    pub status: DispatchPermitStatus,
    pub issued_at: Seq<char>,
    pub deadline_at: Seq<char>,
    pub consumed_at: Option<Seq<char>>,
    pub settled_at: Option<Seq<char>>,
    pub actual_cost_microusd: Option<u64>,
    pub settlement_basis: Option<Seq<char>>,
    pub interruption: Option<Seq<char>>,
    pub released_at: Option<Seq<char>>,
    pub resolution_evidence_sha256: Option<Seq<char>>,
    pub resolved_by: Option<Seq<char>>,
}

impl View for CampaignDispatchPermit {
    type V = PermitView;

    open spec fn view(&self) -> PermitView {
        PermitView {
            contract: self.contract@,
            token: self.token@,
            campaign_id: self.campaign_id@,
            generation: self.generation,
            idempotency_key: self.idempotency_key@,
            actor: self.actor@,
            operation: self.operation,
            target_id: self.target_id@,
            budget_id: opt_text(self.budget_id),
            maximum_cost_microusd: self.maximum_cost_microusd,
            reserve_budget: self.reserve_budget,
            budget_pre_reserved: self.budget_pre_reserved,
            epact: binding_view(self.epact),
            reconciliation_sha256: self.reconciliation_sha256@,
            status: self.status,
            issued_at: self.issued_at@,
            deadline_at: self.deadline_at@,
            consumed_at: opt_text(self.consumed_at),
            settled_at: opt_text(self.settled_at),
            actual_cost_microusd: self.actual_cost_microusd,
            settlement_basis: opt_text(self.settlement_basis),
            interruption: opt_text(self.interruption),
            released_at: opt_text(self.released_at),
            resolution_evidence_sha256: opt_text(self.resolution_evidence_sha256),
            resolved_by: opt_text(self.resolved_by),
        }
    }
}

/// The canonical JSON of a permit: keys sorted, no white space.
pub open spec fn permit_view_json(p: PermitView) -> Seq<char> {
    "{\"actor\":"@ + json_string(p.actor) + ",\"actualCostMicrousd\":"@ + json_optional_number(
        p.actual_cost_microusd,
    ) + ",\"budgetId\":"@ + json_optional_view(p.budget_id) + ",\"budgetPreReserved\":"@
        + json_bool(p.budget_pre_reserved) + ",\"campaignId\":"@ + json_string(p.campaign_id)
        + ",\"consumedAt\":"@ + json_optional_view(p.consumed_at) + ",\"contract\":"@
        + json_string(p.contract) + ",\"deadlineAt\":"@ + json_string(p.deadline_at)
        + ",\"epact\":"@ + optional_binding_json(p.epact) + ",\"generation\":"@ + decimal(
        p.generation as nat,
    ) + ",\"idempotencyKey\":"@ + json_string(p.idempotency_key) + ",\"interruption\":"@
        + json_optional_view(p.interruption) + ",\"issuedAt\":"@ + json_string(p.issued_at)
        + ",\"maximumCostMicrousd\":"@ + decimal(p.maximum_cost_microusd as nat)
        + ",\"operation\":"@ + json_string(dispatch_operation_name(p.operation))
        + ",\"reconciliationSha256\":"@ + json_string(p.reconciliation_sha256)
        + ",\"releasedAt\":"@ + json_optional_view(p.released_at) + ",\"reserveBudget\":"@
        + json_bool(p.reserve_budget) + ",\"resolutionEvidenceSha256\":"@ + json_optional_view(
        p.resolution_evidence_sha256,
    ) + ",\"resolvedBy\":"@ + json_optional_view(p.resolved_by) + ",\"settledAt\":"@
        + json_optional_view(p.settled_at) + ",\"settlementBasis\":"@ + json_optional_view(
        p.settlement_basis,
    ) + ",\"status\":"@ + json_string(permit_status_name(p.status)) + ",\"targetId\":"@
        + json_string(p.target_id) + ",\"token\":"@ + json_string(p.token) + "}"@
}

pub open spec fn permit_json(p: CampaignDispatchPermit) -> Seq<char> {
    permit_view_json(p@)
}

fn push_optional_text(out: &mut String, value: &Option<String>)
    ensures
        final(out)@ == old(out)@ + json_optional(*value),
{
    match value {
        Some(v) => push_json_string(out, v.as_str()),
        None => out.append("null"),
    }
}

fn push_bool(out: &mut String, b: bool)
    ensures
        final(out)@ == old(out)@ + json_bool(b),
{
    if b {
        out.append("true");
    } else {
        out.append("false");
    }
}

fn push_optional_number(out: &mut String, n: Option<u64>)
    ensures
        final(out)@ == old(out)@ + json_optional_number(n),
{
    match n {
        Some(v) => push_decimal(out, v),
        None => out.append("null"),
    }
}

fn push_resources(out: &mut String, r: &EpactResourceEnvelope)
    ensures
        final(out)@ == old(out)@ + resources_json(*r),
{
    let ghost start = out@;
    out.append("{\"maximumCostMicrousd\":");
    push_decimal(out, r.maximum_cost_microusd);
    out.append(",\"maximumCpuMillicores\":");
    push_decimal(out, r.maximum_cpu_millicores);
    out.append(",\"maximumDataMovementMilliGb\":");
    push_decimal(out, r.maximum_data_movement_milli_gb);
    out.append(",\"maximumElapsedSeconds\":");
    push_decimal(out, r.maximum_elapsed_seconds);
    out.append(",\"maximumExternalJobs\":");
    push_decimal(out, r.maximum_external_jobs);
    out.append(",\"maximumGpuCount\":");
    push_decimal(out, r.maximum_gpu_count);
    out.append(",\"maximumModelCalls\":");
    push_decimal(out, r.maximum_model_calls);
    out.append(",\"maximumRamMilliGb\":");
    push_decimal(out, r.maximum_ram_milli_gb);
    out.append(",\"maximumStorageMilliGb\":");
    push_decimal(out, r.maximum_storage_milli_gb);
    out.append(",\"maximumToolCalls\":");
    push_decimal(out, r.maximum_tool_calls);
    out.append(",\"maximumVramMilliGb\":");
    push_decimal(out, r.maximum_vram_milli_gb);
    out.append("}");
    assert(out@ =~= start + resources_json(*r));
}

pub(crate) fn push_string_items(out: &mut String, v: &Vec<String>)
    ensures
        final(out)@ == old(out)@ + json_string_items(texts(v@), v@.len()),
{
    let ghost start = out@;
    let mut i: usize = 0;
    while i < v.len()
        invariant
            i <= v.len(),
            out@ == start + json_string_items(texts(v@), i as nat),
        decreases v.len() - i,
    {
        let ghost before = out@;
        if i > 0 {
            out.append(",");
        }
        push_json_string(out, v[i].as_str());
        assert(texts(v@)[i as int] == v@[i as int]@);
        if i == 0 {
            assert(out@ =~= start + json_string_items(texts(v@), 1));
        } else {
            assert(out@ =~= start + json_string_items(texts(v@), (i + 1) as nat));
        }
        i = i + 1;
    }
}

fn push_binding(out: &mut String, b: &EpactDispatchBinding)
    ensures
        final(out)@ == old(out)@ + binding_json(*b),
{
    let ghost start = out@;
    out.append("{\"capabilityId\":");
    push_optional_text(out, &b.capability_id);
    out.append(",\"effects\":[");
    push_string_items(out, &b.effects);
    out.append("],\"obligationId\":");
    push_json_string(out, b.obligation_id.as_str());
    out.append(",\"operation\":");
    push_json_string(out, kernel_operation_str(b.operation));
    out.append(",\"programImageSha256\":");
    push_json_string(out, b.program_image_sha256.as_str());
    out.append(",\"resources\":");
    push_resources(out, &b.resources);
    out.append("}");
    assert(out@ =~= start + binding_json(*b));
}

impl CampaignDispatchPermit {
    /// The canonical JSON of the permit.
    pub fn canonical_json(&self) -> (r: String)
        ensures
            r@ == permit_json(*self),
    {
        let mut out = String::new();
        out.append("{\"actor\":");
        push_json_string(&mut out, self.actor.as_str());
        out.append(",\"actualCostMicrousd\":");
        push_optional_number(&mut out, self.actual_cost_microusd);
        out.append(",\"budgetId\":");
        push_optional_text(&mut out, &self.budget_id);
        out.append(",\"budgetPreReserved\":");
        push_bool(&mut out, self.budget_pre_reserved);
        out.append(",\"campaignId\":");
        push_json_string(&mut out, self.campaign_id.as_str());
        out.append(",\"consumedAt\":");
        push_optional_text(&mut out, &self.consumed_at);
        out.append(",\"contract\":");
        push_json_string(&mut out, self.contract.as_str());
        out.append(",\"deadlineAt\":");
        push_json_string(&mut out, self.deadline_at.as_str());
        out.append(",\"epact\":");
        match &self.epact {
            Some(b) => push_binding(&mut out, b),
            None => out.append("null"),
        }
        out.append(",\"generation\":");
        push_decimal(&mut out, self.generation);
        out.append(",\"idempotencyKey\":");
        push_json_string(&mut out, self.idempotency_key.as_str());
        out.append(",\"interruption\":");
        push_optional_text(&mut out, &self.interruption);
        out.append(",\"issuedAt\":");
        push_json_string(&mut out, self.issued_at.as_str());
        out.append(",\"maximumCostMicrousd\":");
        push_decimal(&mut out, self.maximum_cost_microusd);
        out.append(",\"operation\":");
        push_json_string(&mut out, dispatch_operation_str(self.operation));
        out.append(",\"reconciliationSha256\":");
        push_json_string(&mut out, self.reconciliation_sha256.as_str());
        out.append(",\"releasedAt\":");
        push_optional_text(&mut out, &self.released_at);
        out.append(",\"reserveBudget\":");
        push_bool(&mut out, self.reserve_budget);
        out.append(",\"resolutionEvidenceSha256\":");
        push_optional_text(&mut out, &self.resolution_evidence_sha256);
        out.append(",\"resolvedBy\":");
        push_optional_text(&mut out, &self.resolved_by);
        out.append(",\"settledAt\":");
        push_optional_text(&mut out, &self.settled_at);
        out.append(",\"settlementBasis\":");
        push_optional_text(&mut out, &self.settlement_basis);
        out.append(",\"status\":");
        push_json_string(&mut out, self.status.as_str());
        out.append(",\"targetId\":");
        push_json_string(&mut out, self.target_id.as_str());
        out.append(",\"token\":");
        push_json_string(&mut out, self.token.as_str());
        out.append("}");
        assert(out@ =~= permit_json(*self));
        out
    }
}

/// A copy of an optional text.
pub fn copy_opt_text(o: &Option<String>) -> (r: Option<String>)
    ensures
        opt_text(r) == opt_text(*o),
{
    match o {
        Some(v) => Some(v.clone()),
        None => None,
    }
}

/// Whether two optional texts are equal.
pub fn same_opt_text(a: &Option<String>, b: &Option<String>) -> (r: bool)
    ensures
        r == (opt_text(*a) == opt_text(*b)),
{
    match (a, b) {
        (Some(x), Some(y)) => *x == *y,
        (None, None) => true,
        _ => false,
    }
}

impl EpactDispatchBinding {
    /// A copy of the binding.
    pub fn copy(&self) -> (r: EpactDispatchBinding)
        ensures
            r@ == self@,
    {
        EpactDispatchBinding {
            program_image_sha256: self.program_image_sha256.clone(),
            obligation_id: self.obligation_id.clone(),
            operation: self.operation,
            capability_id: copy_opt_text(&self.capability_id),
            effects: clone_texts(&self.effects),
            resources: self.resources,
        }
    }
}

/// A copy of an optional binding.
pub fn copy_opt_binding(o: &Option<EpactDispatchBinding>) -> (r: Option<EpactDispatchBinding>)
    ensures
        binding_view(r) == binding_view(*o),
{
    match o {
        Some(b) => Some(b.copy()),
        None => None,
    }
}

impl CampaignDispatchPermit {
    /// A copy of the permit.
    pub fn copy(&self) -> (r: CampaignDispatchPermit)
        ensures
            r@ == self@,
    {
        CampaignDispatchPermit {
            contract: self.contract.clone(),
            token: self.token.clone(),
            campaign_id: self.campaign_id.clone(),
            generation: self.generation,
            idempotency_key: self.idempotency_key.clone(),
            actor: self.actor.clone(),
            operation: self.operation,
            target_id: self.target_id.clone(),
            budget_id: copy_opt_text(&self.budget_id),
            maximum_cost_microusd: self.maximum_cost_microusd,
            reserve_budget: self.reserve_budget,
            budget_pre_reserved: self.budget_pre_reserved,
            epact: copy_opt_binding(&self.epact),
            reconciliation_sha256: self.reconciliation_sha256.clone(),
            status: self.status,
            issued_at: self.issued_at.clone(),
            deadline_at: self.deadline_at.clone(),
            consumed_at: copy_opt_text(&self.consumed_at),
            settled_at: copy_opt_text(&self.settled_at),
            actual_cost_microusd: self.actual_cost_microusd,
            settlement_basis: copy_opt_text(&self.settlement_basis),
            interruption: copy_opt_text(&self.interruption),
            released_at: copy_opt_text(&self.released_at),
            resolution_evidence_sha256: copy_opt_text(&self.resolution_evidence_sha256),
            resolved_by: copy_opt_text(&self.resolved_by),
        }
    }
}

} // verus!
