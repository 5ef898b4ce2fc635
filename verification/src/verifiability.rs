//! Why a campaign run through the kernel can always be independently verified: every operation
//! keeps the facts that verification checks, and a campaign with those facts passes verification
//! whenever its image fits its replayed projection.

use vstd::prelude::*;
use crate::dispatch::{permit_view_json, InterruptedDispatchResolution, PermitView, DispatchPermitStatus, AuthorizeCampaignDispatchRequest, CampaignDispatchPermit, ResolveInterruptedDispatchRequest};
use crate::epact::{replay_view, EpactRuntimeEvent, EpactRuntimeState, EpactOperationRequest};
use crate::epact_eval::shape_error;
use crate::kernel::{KernelEventKind, CampaignStatus, CampaignRecord, CampaignView, KernelError, VerificationReport};
use crate::reference::{
    campaign_request_valid, none_interrupted, consumed, interrupted, released, settled, campaign_logged, blocked, reopened,
    budget_settled, budget_released, reservation_lost, reservation_target, overrun_reason,
    interruption_reason, lemma_permit_found, BudgetView,
    accept_event_post, authorize_post, campaign_ids, campaign_index, consume_post,
    create_budget_post, create_campaign_post, epact_decision, interrupt_post, issue_post,
    kernel_well_formed, lemma_campaign_found, lemma_campaign_index_stable, operation_for,
    other_rows_unchanged, permit_index, permit_replaced, permits_bound, reconciliation_digest,
    release_post, resolve_post, settle_post, verify_post, BudgetRecord, CampaignRow,
    CreateBudgetRequest, CreateCampaignRequest, KernelView,
};
use crate::search::lemma_index_of;
use crate::clock::{rfc3339_seconds, rfc3339_utc};
use crate::text::{is_blank, trim};
use crate::epact::opt_text;

verus! {

/// The fields that name a campaign and that its reconciliation digest covers are unchanged.
pub open spec fn identity_kept(c0: CampaignView, c1: CampaignView) -> bool {
    &&& c1.id == c0.id
    &&& c1.name == c0.name
    &&& c1.objective == c0.objective
    &&& c1.generation == c0.generation
    &&& c1.reconciliation_sha256 == c0.reconciliation_sha256
}

/// The permit is bound to the generation and reconciliation digest of the campaign it names.
pub open spec fn permit_bound(k: KernelView, p: CampaignDispatchPermit) -> bool {
    match campaign_index(k, p.campaign_id@) {
        Some(m) => p.generation == k.campaigns[m].record.generation && p.reconciliation_sha256@
            == k.campaigns[m].record.reconciliation_sha256@,
        None => false,
    }
}

/// The campaign's accepted events replay, within the kernel's range, and its reconciliation
/// digest matches its identity and image.
pub open spec fn row_verifiable(row: CampaignRow) -> bool {
    let c = row.record@;
    let n = row.epact_events@.len();
    &&& n < u64::MAX
    &&& replay_view(row.image, row.epact_events@, n) is Ok
    &&& c.reconciliation_sha256 == reconciliation_digest(c.id, c.name, c.objective, c.generation, row.image.image_sha256@)
}

/// Everything independent verification checks holds of every campaign: its log is an unbroken
/// chain headed where it says, its events replay, its digest matches, and every permit is bound
/// to the campaign it names.
pub open spec fn kernel_verifiable(k: KernelView) -> bool {
    &&& kernel_well_formed(k)
    &&& forall|q: int| 0 <= q < k.permits.len() ==> permit_bound(k, #[trigger] k.permits[q])
    &&& forall|i: int| 0 <= i < k.campaigns.len() ==> row_verifiable(#[trigger] k.campaigns[i])
}

/// Every campaign keeps its place and its identity.
pub open spec fn campaigns_kept(k0: KernelView, k1: KernelView) -> bool {
    &&& k1.campaigns.len() == k0.campaigns.len()
    &&& forall|j: int| 0 <= j < k0.campaigns.len() ==> identity_kept(
        #[trigger] k0.campaigns[j].record@,
        k1.campaigns[j].record@,
    )
}

/// A permit keeps the campaign, generation and digest it is bound by.
pub open spec fn binding_fields_kept(p0: CampaignDispatchPermit, p1: CampaignDispatchPermit) -> bool {
    &&& p1.campaign_id@ == p0.campaign_id@
    &&& p1.generation == p0.generation
    &&& p1.reconciliation_sha256@ == p0.reconciliation_sha256@
}

proof fn lemma_kept_index(k0: KernelView, k1: KernelView, id: Seq<char>)
    requires
        campaigns_kept(k0, k1),
    ensures
        campaign_index(k1, id) == campaign_index(k0, id),
{
    assert(campaign_ids(k1.campaigns) =~= campaign_ids(k0.campaigns)) by {
        assert forall|j: int| 0 <= j < k0.campaigns.len() implies campaign_ids(k1.campaigns)[j]
            == campaign_ids(k0.campaigns)[j] by {
            assert(identity_kept(k0.campaigns[j].record@, k1.campaigns[j].record@));
        }
    }
}

proof fn lemma_bound_kept(k0: KernelView, k1: KernelView, p0: CampaignDispatchPermit, p1: CampaignDispatchPermit)
    requires
        campaigns_kept(k0, k1),
        permit_bound(k0, p0),
        binding_fields_kept(p0, p1),
    ensures
        permit_bound(k1, p1),
{
    lemma_kept_index(k0, k1, p0.campaign_id@);
    let m = campaign_index(k0, p0.campaign_id@).unwrap();
    lemma_campaign_found(k0, p0.campaign_id@);
    assert(identity_kept(k0.campaigns[m].record@, k1.campaigns[m].record@));
}

/// One campaign changed, keeping its identity and image; the permits either stayed, or one was
/// replaced keeping its binding, or one bound to the changed campaign was added.
proof fn lemma_row_change_keeps_verifiable(k0: KernelView, k1: KernelView, i: int)
    requires
        kernel_verifiable(k0),
        kernel_well_formed(k1),
        0 <= i < k0.campaigns.len(),
        other_rows_unchanged(k0, k1, i),
        identity_kept(k0.campaigns[i].record@, k1.campaigns[i].record@),
        k1.campaigns[i].image == k0.campaigns[i].image,
        k1.campaigns[i].epact_events@.len() < u64::MAX,
        replay_view(k1.campaigns[i].image, k1.campaigns[i].epact_events@, k1.campaigns[i].epact_events@.len()) is Ok,
        k1.permits.len() >= k0.permits.len(),
        forall|q: int| 0 <= q < k0.permits.len() ==> binding_fields_kept(k0.permits[q], #[trigger] k1.permits[q]),
        forall|q: int| k0.permits.len() <= q < k1.permits.len() ==> permit_bound(k1, #[trigger] k1.permits[q]),
    ensures
        kernel_verifiable(k1),
{
    assert(campaigns_kept(k0, k1)) by {
        assert forall|j: int| 0 <= j < k0.campaigns.len() implies identity_kept(
            #[trigger] k0.campaigns[j].record@,
            k1.campaigns[j].record@,
        ) by {
            if j != i {
                assert(k1.campaigns[j] == k0.campaigns[j]);
            }
        }
    }
    assert forall|q: int| 0 <= q < k1.permits.len() implies permit_bound(k1, #[trigger] k1.permits[q]) by {
        if q < k0.permits.len() {
            assert(permit_bound(k0, k0.permits[q]));
            lemma_bound_kept(k0, k1, k0.permits[q], k1.permits[q]);
        }
    }
    assert forall|j: int| 0 <= j < k1.campaigns.len() implies row_verifiable(#[trigger] k1.campaigns[j]) by {
        if j != i {
            assert(k1.campaigns[j] == k0.campaigns[j]);
            assert(row_verifiable(k0.campaigns[j]));
        } else {
            assert(row_verifiable(k0.campaigns[i]));
        }
    }
}

/// A campaign that keeps the facts verification checks passes independent verification once its
/// image fits its replayed projection.
pub proof fn lemma_verifiable_campaign_verifies(
    k: KernelView,
    campaign_id: Seq<char>,
    r: Result<VerificationReport, KernelError>,
)
    requires
        kernel_verifiable(k),
        verify_post(k, campaign_id, r),
        campaign_index(k, campaign_id) matches Some(i) && replay_view(
            k.campaigns[i].image,
            k.campaigns[i].epact_events@,
            k.campaigns[i].epact_events@.len(),
        ) matches Ok(st) && shape_error(k.campaigns[i].image, st) is None,
    ensures
        r is Ok,
{
    let i = campaign_index(k, campaign_id).unwrap();
    lemma_campaign_found(k, campaign_id);
    let c = k.campaigns[i].record@;
    assert(row_verifiable(k.campaigns[i]));
    assert(permits_bound(k.permits, c)) by {
        assert forall|q: int| 0 <= q < k.permits.len() && #[trigger] k.permits[q].campaign_id@ == c.id implies k.permits[q].generation
            == c.generation && k.permits[q].reconciliation_sha256@ == c.reconciliation_sha256 by {
            assert(permit_bound(k, k.permits[q]));
        }
    }
}

/// A kernel with no campaign and no permit, as a fresh store opens, is verifiable.
pub proof fn lemma_empty_kernel_verifiable(k: KernelView)
    requires
        k.campaigns.len() == 0,
        k.permits.len() == 0,
    ensures
        kernel_verifiable(k),
{
}

/// Opening a campaign keeps the kernel verifiable.
#[verifier::spinoff_prover]
#[verifier::rlimit(60)]
pub proof fn lemma_create_campaign_keeps_verifiable(
    k0: KernelView,
    request: CreateCampaignRequest,
    now: Seq<char>,
    k1: KernelView,
    r: Result<CampaignRecord, KernelError>,
)
    requires
        kernel_verifiable(k0),
        create_campaign_post(k0, request, now, k1, r),
        kernel_well_formed(k0) ==> kernel_well_formed(k1),
    ensures
        kernel_verifiable(k1),
{
    if campaign_request_valid(request) && campaign_index(k0, request.id@) is None {
        let n = k0.campaigns.len();
        let fresh = k1.campaigns[n as int];
        assert(k1.campaigns.last() == fresh);
        assert(campaign_ids(k1.campaigns) =~= campaign_ids(k0.campaigns).push(fresh.record.id@));
        assert forall|q: int| 0 <= q < k1.permits.len() implies permit_bound(k1, #[trigger] k1.permits[q]) by {
            let p = k1.permits[q];
            assert(p == k0.permits[q]);
            assert(permit_bound(k0, p));
            let m = campaign_index(k0, p.campaign_id@).unwrap();
            lemma_index_of(campaign_ids(k0.campaigns), p.campaign_id@);
            lemma_index_of(campaign_ids(k1.campaigns), p.campaign_id@);
            assert(campaign_ids(k1.campaigns)[m] == p.campaign_id@);
            assert(k1.campaigns[m] == k0.campaigns[m]);
        }
        assert forall|j: int| 0 <= j < k1.campaigns.len() implies row_verifiable(#[trigger] k1.campaigns[j]) by {
            if j < n {
                assert(k1.campaigns[j] == k0.campaigns[j]);
                assert(row_verifiable(k0.campaigns[j]));
            } else {
                assert(j == n);
                assert(fresh.epact_events@.len() == 0);
            }
        }
    }
}

/// Creating a budget keeps the kernel verifiable.
#[verifier::spinoff_prover]
pub proof fn lemma_create_budget_keeps_verifiable(
    k0: KernelView,
    campaign_id: Seq<char>,
    request: CreateBudgetRequest,
    now: Seq<char>,
    k1: KernelView,
    r: Result<BudgetRecord, KernelError>,
)
    requires
        kernel_verifiable(k0),
        create_budget_post(k0, campaign_id, request, now, k1, r),
        kernel_well_formed(k0) ==> kernel_well_formed(k1),
    ensures
        kernel_verifiable(k1),
{
    if k1 != k0 {
        let i = campaign_index(k0, campaign_id).unwrap();
        lemma_campaign_found(k0, campaign_id);
        assert(row_verifiable(k0.campaigns[i]));
        lemma_row_change_keeps_verifiable(k0, k1, i);
    }
}

/// Accepting an Epact event keeps the kernel verifiable.
#[verifier::spinoff_prover]
pub proof fn lemma_accept_event_keeps_verifiable(
    k0: KernelView,
    campaign_id: Seq<char>,
    event: EpactRuntimeEvent,
    now: Seq<char>,
    k1: KernelView,
    r: Result<EpactRuntimeState, KernelError>,
)
    requires
        kernel_verifiable(k0),
        accept_event_post(k0, campaign_id, event, now, k1, r),
        kernel_well_formed(k0) ==> kernel_well_formed(k1),
    ensures
        kernel_verifiable(k1),
{
    if k1 != k0 {
        let i = campaign_index(k0, campaign_id).unwrap();
        lemma_campaign_found(k0, campaign_id);
        lemma_row_change_keeps_verifiable(k0, k1, i);
    }
}

/// Authorizing a dispatch keeps the kernel verifiable: a new permit is bound to its campaign.
#[verifier::spinoff_prover]
#[verifier::rlimit(60)]
pub proof fn lemma_authorize_keeps_verifiable(
    k0: KernelView,
    campaign_id: Seq<char>,
    request: AuthorizeCampaignDispatchRequest,
    now: i64,
    token: Seq<char>,
    k1: KernelView,
    r: Result<CampaignDispatchPermit, KernelError>,
)
    requires
        kernel_verifiable(k0),
        authorize_post(k0, campaign_id, request, now, token, k1, r),
        kernel_well_formed(k0) ==> kernel_well_formed(k1),
    ensures
        kernel_verifiable(k1),
{
    if k1 != k0 {
        let i = campaign_index(k0, campaign_id).unwrap();
        lemma_campaign_found(k0, campaign_id);
        let row = k0.campaigns[i];
        let binding = request.epact.unwrap();
        let now_text = crate::clock::rfc3339_utc(now as int).unwrap();
        let deadline = crate::clock::rfc3339_utc(now + request.maximum_elapsed_seconds).unwrap();
        let st = replay_view(row.image, row.epact_events@, row.epact_events@.len())->Ok_0;
        let op = choose|op: EpactOperationRequest|
            #[trigger] operation_for(op, request, binding, now_text) && epact_decision(
                k0,
                i,
                request,
                st,
                op,
                token,
                now_text,
                deadline,
                k1,
                r,
            );
        assert(issue_post(k0, i, request, token, now_text, deadline, k1, r));
        lemma_campaign_index_stable(k0, k1, i, campaign_id);
        assert(k1.permits.last() == k1.permits[k0.permits.len() as int]);
        assert forall|q: int| 0 <= q < k0.permits.len() implies binding_fields_kept(
            k0.permits[q],
            #[trigger] k1.permits[q],
        ) by {
            assert(k1.permits[q] == k0.permits.push(k1.permits.last())[q]);
        }
        lemma_row_change_keeps_verifiable(k0, k1, i);
    }
}

/// A lifecycle step that replaces one permit, keeping its binding, and logs its campaign keeps
/// the kernel verifiable.
proof fn lemma_step_keeps_verifiable(k0: KernelView, k1: KernelView, i: int, k: int)
    requires
        kernel_verifiable(k0),
        kernel_well_formed(k1),
        0 <= i < k0.campaigns.len(),
        0 <= k < k0.permits.len(),
        other_rows_unchanged(k0, k1, i),
        identity_kept(k0.campaigns[i].record@, k1.campaigns[i].record@),
        k1.campaigns[i].image == k0.campaigns[i].image,
        k1.campaigns[i].epact_events == k0.campaigns[i].epact_events,
        k1.permits.len() == k0.permits.len(),
        binding_fields_kept(k0.permits[k], k1.permits[k]),
        forall|j: int| 0 <= j < k0.permits.len() && j != k ==> k1.permits[j] == k0.permits[j],
    ensures
        kernel_verifiable(k1),
{
    assert(row_verifiable(k0.campaigns[i]));
    assert forall|q: int| 0 <= q < k0.permits.len() implies binding_fields_kept(
        k0.permits[q],
        #[trigger] k1.permits[q],
    ) by {
        if q != k {
            assert(k1.permits[q] == k0.permits[q]);
        }
    }
    lemma_row_change_keeps_verifiable(k0, k1, i);
}

/// A lifecycle step that replaced one permit by one with the same binding and logged the
/// permit's campaign, keeping its identity, keeps the kernel verifiable.
proof fn lemma_logged_step(
    k0: KernelView,
    k1: KernelView,
    i: int,
    k: int,
    q: PermitView,
    target: Option<(int, BudgetView)>,
    record: CampaignView,
    kind: KernelEventKind,
    actor: Seq<char>,
    subject: Seq<char>,
    payload: Seq<char>,
    at: Seq<char>,
)
    requires
        kernel_verifiable(k0),
        kernel_well_formed(k1),
        0 <= i < k0.campaigns.len(),
        0 <= k < k0.permits.len(),
        identity_kept(k0.campaigns[i].record@, record),
        q.campaign_id == k0.permits[k]@.campaign_id,
        q.generation == k0.permits[k]@.generation,
        q.reconciliation_sha256 == k0.permits[k]@.reconciliation_sha256,
        permit_replaced(k0.permits, k1.permits, k, q),
        campaign_logged(k0, k1, i, target, record, kind, actor, subject, payload, at),
    ensures
        kernel_verifiable(k1),
{
    assert(identity_kept(record, k1.campaigns[i].record@));
    assert(binding_fields_kept(k0.permits[k], k1.permits[k]));
    lemma_step_keeps_verifiable(k0, k1, i, k);
}

/// Consuming a permit keeps the kernel verifiable.
#[verifier::spinoff_prover]
#[verifier::rlimit(50)]
pub proof fn lemma_consume_keeps_verifiable(
    k0: KernelView,
    token: Seq<char>,
    now: i64,
    k1: KernelView,
    r: Result<CampaignDispatchPermit, KernelError>,
)
    requires
        kernel_verifiable(k0),
        consume_post(k0, token, now, k1, r),
        kernel_well_formed(k0) ==> kernel_well_formed(k1),
    ensures
        kernel_verifiable(k1),
{
    if rfc3339_utc(now as int) is Some && permit_index(k0, token) is Some {
        lemma_permit_found(k0, token);
        let k = permit_index(k0, token).unwrap();
        let p = k0.permits[k]@;
        if p.status == DispatchPermitStatus::Authorized && rfc3339_seconds(p.deadline_at) is Some
            && rfc3339_seconds(p.deadline_at).unwrap() > now && campaign_index(k0, p.campaign_id) is Some {
            lemma_campaign_found(k0, p.campaign_id);
            let i = campaign_index(k0, p.campaign_id).unwrap();
            let c = k0.campaigns[i].record@;
            if c.status == CampaignStatus::Open && c.generation == p.generation
                && c.reconciliation_sha256 == p.reconciliation_sha256 {
                let now_text = rfc3339_utc(now as int).unwrap();
                let q = consumed(p, now_text);
                lemma_logged_step(k0, k1, i, k, q, None, c, KernelEventKind::DispatchConsumed,
                    trim(p.actor), token, permit_view_json(q), now_text);
            }
        }
    }
}

/// Settling a permit keeps the kernel verifiable.
#[verifier::spinoff_prover]
pub proof fn lemma_settle_keeps_verifiable(
    k0: KernelView,
    token: Seq<char>,
    actual: u64,
    basis: Seq<char>,
    now: Seq<char>,
    k1: KernelView,
    r: Result<CampaignDispatchPermit, KernelError>,
)
    requires
        kernel_verifiable(k0),
        settle_post(k0, token, actual, basis, now, k1, r),
        kernel_well_formed(k0) ==> kernel_well_formed(k1),
    ensures
        kernel_verifiable(k1),
{
    if !(is_blank(basis) || basis.len() > 240) && permit_index(k0, token) is Some {
        lemma_permit_found(k0, token);
        let k = permit_index(k0, token).unwrap();
        let p = k0.permits[k]@;
        if (p.status == DispatchPermitStatus::Consumed || p.status == DispatchPermitStatus::Interrupted)
            && !reservation_lost(k0, p) && campaign_index(k0, p.campaign_id) is Some {
            lemma_campaign_found(k0, p.campaign_id);
            let i = campaign_index(k0, p.campaign_id).unwrap();
            let q = settled(p, actual, Some(trim(basis)), now);
            let c = k0.campaigns[i].record@;
            let record = if actual > p.maximum_cost_microusd {
                blocked(c, overrun_reason(actual, p.maximum_cost_microusd), now)
            } else if p.status == DispatchPermitStatus::Interrupted {
                reopened(c, k1.permits, now)
            } else {
                c
            };
            lemma_logged_step(k0, k1, i, k, q,
                reservation_target(k0, i, p, |b: BudgetView| budget_settled(b, actual, p.maximum_cost_microusd, now)),
                record, KernelEventKind::DispatchSettled, trim(p.actor), token, permit_view_json(q), now);
        }
    }
}

/// Interrupting a permit keeps the kernel verifiable.
#[verifier::spinoff_prover]
pub proof fn lemma_interrupt_keeps_verifiable(
    k0: KernelView,
    token: Seq<char>,
    reason: Seq<char>,
    now: Seq<char>,
    k1: KernelView,
    r: Result<CampaignDispatchPermit, KernelError>,
)
    requires
        kernel_verifiable(k0),
        interrupt_post(k0, token, reason, now, k1, r),
        kernel_well_formed(k0) ==> kernel_well_formed(k1),
    ensures
        kernel_verifiable(k1),
{
    if !(is_blank(reason) || reason.len() > 2000) && permit_index(k0, token) is Some {
        lemma_permit_found(k0, token);
        let k = permit_index(k0, token).unwrap();
        let p = k0.permits[k]@;
        if p.status == DispatchPermitStatus::Consumed && campaign_index(k0, p.campaign_id) is Some {
            lemma_campaign_found(k0, p.campaign_id);
            let i = campaign_index(k0, p.campaign_id).unwrap();
            let q = interrupted(p, trim(reason));
            lemma_logged_step(k0, k1, i, k, q, None,
                blocked(k0.campaigns[i].record@, interruption_reason(token), now),
                KernelEventKind::DispatchInterrupted, trim(p.actor), token, permit_view_json(q), now);
        }
    }
}

/// Releasing a permit keeps the kernel verifiable.
#[verifier::spinoff_prover]
pub proof fn lemma_release_keeps_verifiable(
    k0: KernelView,
    token: Seq<char>,
    now: Seq<char>,
    k1: KernelView,
    r: Result<CampaignDispatchPermit, KernelError>,
)
    requires
        kernel_verifiable(k0),
        release_post(k0, token, now, k1, r),
        kernel_well_formed(k0) ==> kernel_well_formed(k1),
    ensures
        kernel_verifiable(k1),
{
    if permit_index(k0, token) is Some {
        lemma_permit_found(k0, token);
        let k = permit_index(k0, token).unwrap();
        let p = k0.permits[k]@;
        if p.status == DispatchPermitStatus::Authorized && !reservation_lost(k0, p)
            && campaign_index(k0, p.campaign_id) is Some {
            lemma_campaign_found(k0, p.campaign_id);
            let i = campaign_index(k0, p.campaign_id).unwrap();
            let q = released(p, now);
            lemma_logged_step(k0, k1, i, k, q,
                reservation_target(k0, i, p, |b: BudgetView| budget_released(b, p.maximum_cost_microusd, now)),
                k0.campaigns[i].record@, KernelEventKind::DispatchReleased, trim(p.actor), token,
                permit_view_json(q), now);
        }
    }
}

/// Resolving an interrupted permit keeps the kernel verifiable.
#[verifier::spinoff_prover]
pub proof fn lemma_resolve_keeps_verifiable(
    k0: KernelView,
    campaign_id: Seq<char>,
    token: Seq<char>,
    request: ResolveInterruptedDispatchRequest,
    now: Seq<char>,
    k1: KernelView,
    r: Result<CampaignDispatchPermit, KernelError>,
)
    requires
        kernel_verifiable(k0),
        resolve_post(k0, campaign_id, token, request, now, k1, r),
        kernel_well_formed(k0) ==> kernel_well_formed(k1),
    ensures
        kernel_verifiable(k1),
{
    if permit_index(k0, token) is Some {
        lemma_permit_found(k0, token);
        let k = permit_index(k0, token).unwrap();
        let p = k0.permits[k]@;
        let resolved = PermitView {
            resolution_evidence_sha256: Some(request.evidence_sha256@),
            resolved_by: Some(trim(request.actor@)),
            ..p
        };
        if p.campaign_id == campaign_id && p.status == DispatchPermitStatus::Interrupted
            && !(request.resolution == InterruptedDispatchResolution::ProviderSettled
            && request.actual_cost_microusd is None) && !reservation_lost(k0, p)
            && campaign_index(k0, campaign_id) is Some {
            lemma_campaign_found(k0, campaign_id);
            let i = campaign_index(k0, campaign_id).unwrap();
            let c = k0.campaigns[i].record@;
            match request.resolution {
                InterruptedDispatchResolution::NoProviderStart => {
                    let q = PermitView {
                        settlement_basis: Some("verified_no_provider_start"@),
                        ..released(resolved, now)
                    };
                    lemma_logged_step(k0, k1, i, k, q,
                        reservation_target(k0, i, p, |b: BudgetView| budget_released(b, p.maximum_cost_microusd, now)),
                        reopened(c, k1.permits, now), KernelEventKind::DispatchResolved,
                        trim(request.actor@), token, permit_view_json(q), now);
                },
                InterruptedDispatchResolution::ProviderSettled => {
                    let actual = request.actual_cost_microusd.unwrap();
                    let q = settled(resolved, actual, opt_text(request.settlement_basis), now);
                    let charged = if actual > p.maximum_cost_microusd {
                        blocked(c, "resolved dispatch exceeded its authorized ceiling"@, now)
                    } else {
                        c
                    };
                    lemma_logged_step(k0, k1, i, k, q,
                        reservation_target(k0, i, p, |b: BudgetView| budget_settled(b, actual, p.maximum_cost_microusd, now)),
                        reopened(charged, k1.permits, now), KernelEventKind::DispatchResolved,
                        trim(request.actor@), token, permit_view_json(q), now);
                },
            }
        }
    }
}


/// Every interrupted permit names a campaign, and that campaign is blocked.
pub open spec fn interruptions_block(k: KernelView) -> bool {
    forall|q: int|
        0 <= q < k.permits.len() && (#[trigger] k.permits[q]).status == DispatchPermitStatus::Interrupted
            ==> campaign_index(k, k.permits[q].campaign_id@) is Some && k.campaigns[campaign_index(
            k,
            k.permits[q].campaign_id@,
        )->0].record@.status == CampaignStatus::Blocked
}

/// A step that changed campaign `i` alone, keeping its identity, keeps interrupted permits
/// blocking their campaigns when each permit interrupted after it was interrupted before, or
/// names campaign `i` and leaves it blocked, and campaign `i` stays blocked, keeps its status
/// or has no interrupted permit left.
proof fn lemma_row_step_keeps_blocking(k0: KernelView, k1: KernelView, i: int)
    requires
        interruptions_block(k0),
        0 <= i < k0.campaigns.len(),
        other_rows_unchanged(k0, k1, i),
        identity_kept(k0.campaigns[i].record@, k1.campaigns[i].record@),
        forall|q: int|
            0 <= q < k1.permits.len() && (#[trigger] k1.permits[q]).status == DispatchPermitStatus::Interrupted
                ==> (q < k0.permits.len() && k1.permits[q] == k0.permits[q]) || (campaign_index(
                k0,
                k1.permits[q].campaign_id@,
            ) == Some(i) && k1.campaigns[i].record@.status == CampaignStatus::Blocked),
        k1.campaigns[i].record@.status == CampaignStatus::Blocked || k1.campaigns[i].record@.status
            == k0.campaigns[i].record@.status || none_interrupted(k1.permits, k0.campaigns[i].record@.id),
    ensures
        interruptions_block(k1),
{
    assert(campaigns_kept(k0, k1)) by {
        assert forall|j: int| 0 <= j < k0.campaigns.len() implies identity_kept(
            #[trigger] k0.campaigns[j].record@,
            k1.campaigns[j].record@,
        ) by {
            if j != i {
                assert(k1.campaigns[j] == k0.campaigns[j]);
            }
        }
    }
    assert forall|q: int|
        0 <= q < k1.permits.len() && (#[trigger] k1.permits[q]).status
            == DispatchPermitStatus::Interrupted implies campaign_index(k1, k1.permits[q].campaign_id@) is Some
        && k1.campaigns[campaign_index(k1, k1.permits[q].campaign_id@)->0].record@.status == CampaignStatus::Blocked by {
        let id = k1.permits[q].campaign_id@;
        lemma_kept_index(k0, k1, id);
        if q < k0.permits.len() && k1.permits[q] == k0.permits[q] {
            assert(k0.permits[q].status == DispatchPermitStatus::Interrupted);
            let m = campaign_index(k0, id)->0;
            lemma_campaign_found(k0, id);
            if m == i {
                assert(!(k1.permits[q].campaign_id@ == k0.campaigns[i].record@.id
                    && k1.permits[q].status == DispatchPermitStatus::Interrupted) == false);
            } else {
                assert(k1.campaigns[m] == k0.campaigns[m]);
            }
        }
    }
}

/// Creating a campaign keeps interrupted permits blocking their campaigns.
pub proof fn lemma_create_campaign_keeps_blocking(
    k0: KernelView,
    request: CreateCampaignRequest,
    now: Seq<char>,
    k1: KernelView,
    r: Result<CampaignRecord, KernelError>,
)
    requires
        interruptions_block(k0),
        create_campaign_post(k0, request, now, k1, r),
    ensures
        interruptions_block(k1),
{
    if campaign_request_valid(request) && campaign_index(k0, request.id@) is None && k1 != k0 {
        let n = k0.campaigns.len();
        let fresh = k1.campaigns[n as int];
        assert(k1.campaigns.last() == fresh);
        assert(campaign_ids(k1.campaigns) =~= campaign_ids(k0.campaigns).push(fresh.record.id@));
        assert forall|q: int|
            0 <= q < k1.permits.len() && (#[trigger] k1.permits[q]).status
                == DispatchPermitStatus::Interrupted implies campaign_index(k1, k1.permits[q].campaign_id@) is Some
            && k1.campaigns[campaign_index(k1, k1.permits[q].campaign_id@)->0].record@.status == CampaignStatus::Blocked by {
            let p = k1.permits[q];
            assert(p == k0.permits[q]);
            let m = campaign_index(k0, p.campaign_id@).unwrap();
            lemma_index_of(campaign_ids(k0.campaigns), p.campaign_id@);
            lemma_index_of(campaign_ids(k1.campaigns), p.campaign_id@);
            assert(campaign_ids(k1.campaigns)[m] == p.campaign_id@);
            assert(k1.campaigns[m] == k0.campaigns[m]);
        }
    }
}

/// Creating a budget keeps interrupted permits blocking their campaigns.
pub proof fn lemma_create_budget_keeps_blocking(
    k0: KernelView,
    campaign_id: Seq<char>,
    request: CreateBudgetRequest,
    now: Seq<char>,
    k1: KernelView,
    r: Result<BudgetRecord, KernelError>,
)
    requires
        interruptions_block(k0),
        create_budget_post(k0, campaign_id, request, now, k1, r),
    ensures
        interruptions_block(k1),
{
    if k1 != k0 {
        let i = campaign_index(k0, campaign_id).unwrap();
        lemma_campaign_found(k0, campaign_id);
        lemma_row_step_keeps_blocking(k0, k1, i);
    }
}

/// Accepting an Epact event keeps interrupted permits blocking their campaigns.
pub proof fn lemma_accept_event_keeps_blocking(
    k0: KernelView,
    campaign_id: Seq<char>,
    event: EpactRuntimeEvent,
    now: Seq<char>,
    k1: KernelView,
    r: Result<EpactRuntimeState, KernelError>,
)
    requires
        interruptions_block(k0),
        accept_event_post(k0, campaign_id, event, now, k1, r),
    ensures
        interruptions_block(k1),
{
    if k1 != k0 {
        let i = campaign_index(k0, campaign_id).unwrap();
        lemma_campaign_found(k0, campaign_id);
        lemma_row_step_keeps_blocking(k0, k1, i);
    }
}

/// Authorizing a dispatch keeps interrupted permits blocking their campaigns: the new permit is
/// authorized, not interrupted.
#[verifier::spinoff_prover]
#[verifier::rlimit(60)]
pub proof fn lemma_authorize_keeps_blocking(
    k0: KernelView,
    campaign_id: Seq<char>,
    request: AuthorizeCampaignDispatchRequest,
    now: i64,
    token: Seq<char>,
    k1: KernelView,
    r: Result<CampaignDispatchPermit, KernelError>,
)
    requires
        interruptions_block(k0),
        authorize_post(k0, campaign_id, request, now, token, k1, r),
    ensures
        interruptions_block(k1),
{
    if k1 != k0 {
        let i = campaign_index(k0, campaign_id).unwrap();
        lemma_campaign_found(k0, campaign_id);
        let row = k0.campaigns[i];
        let binding = request.epact.unwrap();
        let now_text = crate::clock::rfc3339_utc(now as int).unwrap();
        let deadline = crate::clock::rfc3339_utc(now + request.maximum_elapsed_seconds).unwrap();
        let st = replay_view(row.image, row.epact_events@, row.epact_events@.len())->Ok_0;
        let op = choose|op: EpactOperationRequest|
            #[trigger] operation_for(op, request, binding, now_text) && epact_decision(
                k0,
                i,
                request,
                st,
                op,
                token,
                now_text,
                deadline,
                k1,
                r,
            );
        assert(issue_post(k0, i, request, token, now_text, deadline, k1, r));
        assert(k1.permits.last() == k1.permits[k0.permits.len() as int]);
        assert forall|q: int|
            0 <= q < k1.permits.len() && (#[trigger] k1.permits[q]).status == DispatchPermitStatus::Interrupted
                implies q < k0.permits.len() && k1.permits[q] == k0.permits[q] by {
            if q < k0.permits.len() {
                assert(k1.permits[q] == k0.permits.push(k1.permits.last())[q]);
            }
        }
        lemma_row_step_keeps_blocking(k0, k1, i);
    }
}

/// Consuming a permit keeps interrupted permits blocking their campaigns.
#[verifier::spinoff_prover]
pub proof fn lemma_consume_keeps_blocking(
    k0: KernelView,
    token: Seq<char>,
    now: i64,
    k1: KernelView,
    r: Result<CampaignDispatchPermit, KernelError>,
)
    requires
        interruptions_block(k0),
        consume_post(k0, token, now, k1, r),
    ensures
        interruptions_block(k1),
{
    if rfc3339_utc(now as int) is Some && permit_index(k0, token) is Some {
        lemma_permit_found(k0, token);
        let k = permit_index(k0, token).unwrap();
        let p = k0.permits[k]@;
        if p.status == DispatchPermitStatus::Authorized && rfc3339_seconds(p.deadline_at) is Some
            && rfc3339_seconds(p.deadline_at).unwrap() > now && campaign_index(k0, p.campaign_id) is Some {
            let i = campaign_index(k0, p.campaign_id).unwrap();
            lemma_campaign_found(k0, p.campaign_id);
            lemma_row_step_keeps_blocking(k0, k1, i);
        }
    }
}

/// Interrupting a permit blocks its campaign, so interrupted permits keep blocking their
/// campaigns.
#[verifier::spinoff_prover]
pub proof fn lemma_interrupt_keeps_blocking(
    k0: KernelView,
    token: Seq<char>,
    reason: Seq<char>,
    now: Seq<char>,
    k1: KernelView,
    r: Result<CampaignDispatchPermit, KernelError>,
)
    requires
        interruptions_block(k0),
        interrupt_post(k0, token, reason, now, k1, r),
    ensures
        interruptions_block(k1),
{
    if k1 != k0 {
        lemma_permit_found(k0, token);
        let k = permit_index(k0, token).unwrap();
        let p = k0.permits[k]@;
        let i = campaign_index(k0, p.campaign_id).unwrap();
        lemma_campaign_found(k0, p.campaign_id);
        lemma_row_step_keeps_blocking(k0, k1, i);
    }
}

/// Settling a permit keeps interrupted permits blocking their campaigns: a campaign reopens
/// only when none of its permits is interrupted any more.
#[verifier::spinoff_prover]
pub proof fn lemma_settle_keeps_blocking(
    k0: KernelView,
    token: Seq<char>,
    actual: u64,
    basis: Seq<char>,
    now: Seq<char>,
    k1: KernelView,
    r: Result<CampaignDispatchPermit, KernelError>,
)
    requires
        interruptions_block(k0),
        settle_post(k0, token, actual, basis, now, k1, r),
    ensures
        interruptions_block(k1),
{
    if k1 != k0 {
        lemma_permit_found(k0, token);
        let k = permit_index(k0, token).unwrap();
        let p = k0.permits[k]@;
        let i = campaign_index(k0, p.campaign_id).unwrap();
        lemma_campaign_found(k0, p.campaign_id);
        lemma_row_step_keeps_blocking(k0, k1, i);
    }
}

/// Releasing a permit keeps interrupted permits blocking their campaigns.
#[verifier::spinoff_prover]
pub proof fn lemma_release_keeps_blocking(
    k0: KernelView,
    token: Seq<char>,
    now: Seq<char>,
    k1: KernelView,
    r: Result<CampaignDispatchPermit, KernelError>,
)
    requires
        interruptions_block(k0),
        release_post(k0, token, now, k1, r),
    ensures
        interruptions_block(k1),
{
    if k1 != k0 {
        lemma_permit_found(k0, token);
        let k = permit_index(k0, token).unwrap();
        let p = k0.permits[k]@;
        let i = campaign_index(k0, p.campaign_id).unwrap();
        lemma_campaign_found(k0, p.campaign_id);
        lemma_row_step_keeps_blocking(k0, k1, i);
    }
}

/// Resolving an interrupted permit keeps interrupted permits blocking their campaigns: the
/// campaign reopens only when none of its permits is interrupted any more.
#[verifier::spinoff_prover]
pub proof fn lemma_resolve_keeps_blocking(
    k0: KernelView,
    campaign_id: Seq<char>,
    token: Seq<char>,
    request: ResolveInterruptedDispatchRequest,
    now: Seq<char>,
    k1: KernelView,
    r: Result<CampaignDispatchPermit, KernelError>,
)
    requires
        interruptions_block(k0),
        resolve_post(k0, campaign_id, token, request, now, k1, r),
    ensures
        interruptions_block(k1),
{
    if k1 != k0 {
        lemma_permit_found(k0, token);
        let i = campaign_index(k0, campaign_id).unwrap();
        lemma_campaign_found(k0, campaign_id);
        lemma_row_step_keeps_blocking(k0, k1, i);
    }
}

/// A kernel with no permit has no interruption.
pub proof fn lemma_empty_kernel_blocks(k: KernelView)
    requires
        k.permits.len() == 0,
    ensures
        interruptions_block(k),
{
}


/// While any permit of a campaign stays interrupted, a well-formed authorization request for the
/// campaign is denied and changes nothing.
pub proof fn lemma_interrupted_permit_denies_dispatch(
    k0: KernelView,
    q: int,
    campaign_id: Seq<char>,
    request: AuthorizeCampaignDispatchRequest,
    now: i64,
    token: Seq<char>,
    k1: KernelView,
    r: Result<CampaignDispatchPermit, KernelError>,
)
    requires
        interruptions_block(k0),
        0 <= q < k0.permits.len(),
        k0.permits[q].status == DispatchPermitStatus::Interrupted,
        k0.permits[q].campaign_id@ == campaign_id,
        authorize_post(k0, campaign_id, request, now, token, k1, r),
        !request.budget_pre_reserved,
        request.maximum_elapsed_seconds <= i64::MAX,
        rfc3339_utc(now as int) is Some,
        now + request.maximum_elapsed_seconds <= i64::MAX,
        rfc3339_utc(now + request.maximum_elapsed_seconds) is Some,
    ensures
        r matches Err(e) && e is AuthorityDenied,
        k1 == k0,
{
    assert(k0.permits[q].status == DispatchPermitStatus::Interrupted);
}

} // verus!
