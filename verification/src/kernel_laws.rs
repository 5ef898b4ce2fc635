//! What holds of the reference kernel across calls: its logs stay unbroken chains, repeated
//! requests change nothing, permits are used once, interruptions hold authority until they are
//! reconciled, and reservations come back whole.

use vstd::prelude::*;
use crate::clock::rfc3339_utc;
use crate::dispatch::{
    AuthorizeCampaignDispatchRequest, CampaignDispatchPermit, DispatchPermitStatus,
    InterruptedDispatchResolution, ResolveInterruptedDispatchRequest,
};
use crate::epact::{opt_text, EpactOperationRequest, EpactRuntimeEvent, EpactRuntimeState};
use crate::text::trim;
use crate::kernel::{chain_head, chain_valid, CampaignStatus, KernelError};
use crate::epact::{replay_view, ErrorView, RuntimeView};
use crate::reference::{
    accept_event_post, authorize_post, availability, budget_released, budget_settled,
    campaign_index, consume_post, consumed, epact_decision, interrupt_post, interruption_prefix,
    interruption_reason, issued_index, reopened, kernel_well_formed, key_index, lemma_campaign_found,
    lemma_campaign_index_stable, lemma_interruption_reason_clears, lemma_issued_found_last, lemma_last_interruption_resolved, released, lemma_key_found_last,
    lemma_permit_found, lemma_permit_index_stable, none_interrupted, operation_for,
    permit_index, permit_replaced, reserved, resolve_post, row_well_formed, settle_post, budget_index,
    budget_post, issue_post, snapshot_post, BudgetView, CampaignSnapshot, KernelView,
};

verus! {

/// A well-formed campaign's log is an unbroken hash chain headed where the campaign says, so
/// chain verification accepts it.
pub proof fn lemma_well_formed_chain_verifies(k: KernelView, campaign_id: Seq<char>)
    requires
        kernel_well_formed(k),
        campaign_index(k, campaign_id) is Some,
    ensures
        ({
            let row = k.campaigns[campaign_index(k, campaign_id).unwrap()];
            chain_valid(row.kernel_events@) && opt_text(row.record.event_head_sha256) == chain_head(
                row.kernel_events@,
            )
        }),
{
    let i = campaign_index(k, campaign_id).unwrap();
    lemma_campaign_found(k, campaign_id);
    assert(row_well_formed(k.campaigns[i]));
}

/// Asking again for authority that was granted returns the same permit and changes nothing.
pub proof fn lemma_authorize_is_idempotent(
    k0: KernelView,
    campaign_id: Seq<char>,
    request: AuthorizeCampaignDispatchRequest,
    now1: i64,
    token1: Seq<char>,
    k1: KernelView,
    p1: CampaignDispatchPermit,
    now2: i64,
    token2: Seq<char>,
    k2: KernelView,
    r2: Result<CampaignDispatchPermit, KernelError>,
)
    requires
        authorize_post(k0, campaign_id, request, now1, token1, k1, Ok(p1)),
        authorize_post(k1, campaign_id, request, now2, token2, k2, r2),
        rfc3339_utc(now2 as int) is Some,
        now2 + request.maximum_elapsed_seconds <= i64::MAX,
        rfc3339_utc(now2 + request.maximum_elapsed_seconds) is Some,
    ensures
        r2 matches Ok(p2) && p2@ == p1@,
        k2 == k1,
{
    let i = campaign_index(k0, campaign_id).unwrap();
    lemma_campaign_found(k0, campaign_id);
    match issued_index(k0, campaign_id, request.generation, request.idempotency_key@) {
        Some(k) => {
            assert(k1 == k0);
        },
        None => {
            let binding = request.epact.unwrap();
            let row = k0.campaigns[i];
            let now_text = rfc3339_utc(now1 as int).unwrap();
            let deadline = rfc3339_utc(now1 + request.maximum_elapsed_seconds).unwrap();
            let st = replay_view(row.image, row.epact_events@, row.epact_events@.len())->Ok_0;
            let op = choose|op: crate::epact::EpactOperationRequest|
                #[trigger] operation_for(op, request, binding, now_text) && epact_decision(
                    k0,
                    i,
                    request,
                    st,
                    op,
                    token1,
                    now_text,
                    deadline,
                    k1,
                    Ok(p1),
                );
            assert(operation_for(op, request, binding, now_text));
            let changed = k1.campaigns[i];
            assert(changed.record.id@ == row.record.id@);
            assert(changed.record@.status == row.record@.status);
            assert(changed.record@.generation == row.record@.generation);
            lemma_campaign_index_stable(k0, k1, i, campaign_id);
            lemma_issued_found_last(k0, k1, campaign_id, request.generation, request.idempotency_key@);
        },
    }
}

/// While a campaign is blocked, no dispatch authority is granted and nothing changes.
pub proof fn lemma_blocked_campaign_denies_dispatch(
    k0: KernelView,
    campaign_id: Seq<char>,
    request: AuthorizeCampaignDispatchRequest,
    now: i64,
    token: Seq<char>,
    k1: KernelView,
    r: Result<CampaignDispatchPermit, KernelError>,
)
    requires
        authorize_post(k0, campaign_id, request, now, token, k1, r),
        campaign_index(k0, campaign_id) matches Some(i) && k0.campaigns[i].record.status
            == CampaignStatus::Blocked,
        !request.budget_pre_reserved,
        request.maximum_elapsed_seconds <= i64::MAX,
        rfc3339_utc(now as int) is Some,
        now + request.maximum_elapsed_seconds <= i64::MAX,
        rfc3339_utc(now + request.maximum_elapsed_seconds) is Some,
    ensures
        r matches Err(e) && e is AuthorityDenied,
        k1 == k0,
{
}

/// Interrupting a consumed dispatch blocks its campaign for reconciliation.
pub proof fn lemma_interruption_blocks_campaign(
    k0: KernelView,
    token: Seq<char>,
    reason: Seq<char>,
    now: Seq<char>,
    k1: KernelView,
    p1: CampaignDispatchPermit,
)
    requires
        interrupt_post(k0, token, reason, now, k1, Ok(p1)),
        permit_index(k0, token) matches Some(k) && k0.permits[k].status == DispatchPermitStatus::Consumed,
    ensures
        ({
            let id = k0.permits[permit_index(k0, token).unwrap()].campaign_id@;
            campaign_index(k1, id) matches Some(i) && k1.campaigns[i].record.status
                == CampaignStatus::Blocked && k1.campaigns[i].record@.blocked_reason == Some(
                interruption_reason(token),
            )
        }),
{
    let k = permit_index(k0, token).unwrap();
    let id = k0.permits[k].campaign_id@;
    let i = campaign_index(k0, id).unwrap();
    lemma_campaign_found(k0, id);
    assert(k1.campaigns[i].record@.id == k0.campaigns[i].record@.id);
    lemma_campaign_index_stable(k0, k1, i, id);
}

/// Resolving a campaign's only interrupted dispatch, when the interruption is what blocked the
/// campaign and the provider never started, reopens it.
#[verifier::spinoff_prover]
#[verifier::rlimit(80)]
pub proof fn lemma_resolution_reopens_campaign(
    k0: KernelView,
    campaign_id: Seq<char>,
    token: Seq<char>,
    request: ResolveInterruptedDispatchRequest,
    now: Seq<char>,
    k1: KernelView,
    p1: CampaignDispatchPermit,
)
    requires
        resolve_post(k0, campaign_id, token, request, now, k1, Ok(p1)),
        request.resolution == InterruptedDispatchResolution::NoProviderStart,
        campaign_index(k0, campaign_id) matches Some(i) && k0.campaigns[i].record@.blocked_reason
            == Some(interruption_reason(token)),
        forall|j: int|
            0 <= j < k0.permits.len() && permit_index(k0, token) != Some(j) ==> !(
            #[trigger] k0.permits[j].campaign_id@ == campaign_id && k0.permits[j].status
                == DispatchPermitStatus::Interrupted),
    ensures
        campaign_index(k1, campaign_id) matches Some(i) && k1.campaigns[i].record.status
            == CampaignStatus::Open && k1.campaigns[i].record.blocked_reason is None,
{
    let i = campaign_index(k0, campaign_id).unwrap();
    let k = permit_index(k0, token).unwrap();
    lemma_campaign_found(k0, campaign_id);
    lemma_permit_found(k0, token);
    let p = k0.permits[k]@;
    let resolved = crate::dispatch::PermitView {
        resolution_evidence_sha256: Some(request.evidence_sha256@),
        resolved_by: Some(trim(request.actor@)),
        ..p
    };
    let q = crate::dispatch::PermitView {
        settlement_basis: Some("verified_no_provider_start"@),
        ..released(resolved, now)
    };
    assert(permit_replaced(k0.permits, k1.permits, k, q));
    lemma_last_interruption_resolved(k0, k1, k, q, campaign_id);
    lemma_interruption_reason_clears(token);
    let c = k0.campaigns[i].record@;
    assert(c.id == campaign_id);
    assert(reopened(c, k1.permits, now).status == CampaignStatus::Open);
    assert(k1.campaigns[i].record@.id == k0.campaigns[i].record@.id);
    lemma_campaign_index_stable(k0, k1, i, campaign_id);
}

/// Consuming a permit uses it up: consuming it again is refused and changes nothing.
pub proof fn lemma_permit_is_consumed_once(
    k0: KernelView,
    token: Seq<char>,
    now1: i64,
    k1: KernelView,
    p1: CampaignDispatchPermit,
    now2: i64,
    k2: KernelView,
    r2: Result<CampaignDispatchPermit, KernelError>,
)
    requires
        consume_post(k0, token, now1, k1, Ok(p1)),
        consume_post(k1, token, now2, k2, r2),
        rfc3339_utc(now2 as int) is Some,
    ensures
        r2 matches Err(e) && e is Conflict,
        k2 == k1,
{
    let k = permit_index(k0, token).unwrap();
    let q = consumed(k0.permits[k]@, rfc3339_utc(now1 as int).unwrap());
    lemma_permit_found(k0, token);
    lemma_permit_index_stable(k0, k1, k, q, token);
}

/// Accepting an Epact event a second time returns the same projection and changes nothing.
pub proof fn lemma_epact_event_is_accepted_once(
    k0: KernelView,
    campaign_id: Seq<char>,
    event: EpactRuntimeEvent,
    now1: Seq<char>,
    k1: KernelView,
    s1: EpactRuntimeState,
    now2: Seq<char>,
    k2: KernelView,
    r2: Result<EpactRuntimeState, KernelError>,
)
    requires
        accept_event_post(k0, campaign_id, event, now1, k1, Ok(s1)),
        accept_event_post(k1, campaign_id, event, now2, k2, r2),
        campaign_index(k0, campaign_id) matches Some(i) && k0.campaigns[i].epact_events@.len() + 2 < u64::MAX,
    ensures
        r2 matches Ok(s2) && s2@ == s1@,
        k2 == k1,
{
    let i = campaign_index(k0, campaign_id).unwrap();
    let row = k0.campaigns[i];
    lemma_campaign_found(k0, campaign_id);
    match key_index(row, event.idempotency_key@) {
        Some(j) => {
            assert(k1 == k0);
        },
        None => {
            let changed = k1.campaigns[i];
            assert(changed.record.id@ == row.record.id@);
            lemma_campaign_index_stable(k0, k1, i, campaign_id);
            lemma_key_found_last(row, changed, event.idempotency_key@);
        },
    }
}

/// The projection an accepted Epact event returns is the one a snapshot of the campaign then
/// shows, over the campaign's accepted events.
pub proof fn lemma_accepted_projection_is_snapshot(
    k0: KernelView,
    campaign_id: Seq<char>,
    event: EpactRuntimeEvent,
    now: Seq<char>,
    k1: KernelView,
    s: EpactRuntimeState,
    r: Result<CampaignSnapshot, KernelError>,
)
    requires
        accept_event_post(k0, campaign_id, event, now, k1, Ok(s)),
        snapshot_post(k1, campaign_id, r),
    ensures
        r matches Ok(snap) && snap.epact_state@ == s@ && replay_view(
            *snap.image,
            snap.epact_events@,
            snap.epact_events@.len(),
        ) == Ok::<RuntimeView, ErrorView>(s@),
{
    let i = campaign_index(k0, campaign_id).unwrap();
    let row = k0.campaigns[i];
    lemma_campaign_found(k0, campaign_id);
    match key_index(row, event.idempotency_key@) {
        Some(j) => {
            assert(k1 == k0);
        },
        None => {
            let changed = k1.campaigns[i];
            assert(changed.record.id@ == row.record.id@);
            lemma_campaign_index_stable(k0, k1, i, campaign_id);
        },
    }
}

/// Releasing a reservation gives the budget back exactly what reserving it took.
pub proof fn lemma_release_returns_reservation(b: BudgetView, maximum: u64, reserved_at: Seq<char>, released_at: Seq<char>)
    requires
        b.exposure_microusd + maximum <= u64::MAX,
    ensures
        ({
            let after = budget_released(reserved(b, maximum, reserved_at), maximum, released_at);
            &&& after.exposure_microusd == b.exposure_microusd
            &&& after.spent_microusd == b.spent_microusd
            &&& after.available_microusd == availability(
                b.total_microusd as int,
                b.spent_microusd as int,
                b.exposure_microusd as int,
            )
        }),
{
}

/// Settling a reserved dispatch charges the budget its actual cost and nothing more.
pub proof fn lemma_settlement_charges_actual_cost(
    b: BudgetView,
    maximum: u64,
    actual: u64,
    reserved_at: Seq<char>,
    settled_at: Seq<char>,
)
    requires
        b.exposure_microusd + maximum <= u64::MAX,
        b.spent_microusd + actual <= u64::MAX,
    ensures
        ({
            let after = budget_settled(reserved(b, maximum, reserved_at), actual, maximum, settled_at);
            &&& after.exposure_microusd == b.exposure_microusd
            &&& after.spent_microusd == b.spent_microusd + actual
            &&& after.available_microusd == availability(
                b.total_microusd as int,
                b.spent_microusd + actual,
                b.exposure_microusd as int,
            )
        }),
{
}


/// Settling a dispatch for more than its authorized ceiling blocks its campaign: after the
/// first settlement of a consumed or interrupted permit whose actual cost exceeds the permit's
/// maximum, the permit's campaign is blocked.
pub proof fn lemma_overrun_settlement_blocks_campaign(
    k0: KernelView,
    token: Seq<char>,
    actual: u64,
    basis: Seq<char>,
    now: Seq<char>,
    k1: KernelView,
    p1: CampaignDispatchPermit,
)
    requires
        settle_post(k0, token, actual, basis, now, k1, Ok(p1)),
        permit_index(k0, token) matches Some(k) && k0.permits[k].status != DispatchPermitStatus::Settled
            && actual > k0.permits[k].maximum_cost_microusd,
    ensures
        ({
            let id = k0.permits[permit_index(k0, token).unwrap()].campaign_id@;
            campaign_index(k1, id) matches Some(i) && k1.campaigns[i].record.status == CampaignStatus::Blocked
        }),
{
    let k = permit_index(k0, token).unwrap();
    let id = k0.permits[k].campaign_id@;
    let i = campaign_index(k0, id).unwrap();
    lemma_campaign_found(k0, id);
    assert(k1.campaigns[i].record@.id == k0.campaigns[i].record@.id);
    lemma_campaign_index_stable(k0, k1, i, id);
}

/// A dispatch that names a budget is granted only within what that budget has available: its
/// ceiling is at most the budget's total less what is spent and what is already reserved, so a
/// reserving grant leaves the budget's exposure and spending together within its total.
#[verifier::rlimit(60)]
pub proof fn lemma_authorization_within_budget(
    k0: KernelView,
    campaign_id: Seq<char>,
    request: AuthorizeCampaignDispatchRequest,
    now: i64,
    token: Seq<char>,
    k1: KernelView,
    p: CampaignDispatchPermit,
)
    requires
        authorize_post(k0, campaign_id, request, now, token, k1, Ok(p)),
        k1 != k0,
        request.budget_id is Some,
    ensures
        campaign_index(k0, campaign_id) is Some,
        ({
            let i = campaign_index(k0, campaign_id).unwrap();
            let row = k0.campaigns[i];
            budget_index(row, request.budget_id.unwrap()@) matches Some(j) && {
                let b = row.budgets@[j];
                let b1 = k1.campaigns[i].budgets@[j];
                &&& request.maximum_cost_microusd + b.spent_microusd + b.exposure_microusd <= b.total_microusd
                &&& request.reserve_budget ==> b1.exposure_microusd + b1.spent_microusd <= b1.total_microusd
            }
        }),
{
    let i = campaign_index(k0, campaign_id).unwrap();
    let row = k0.campaigns[i];
    let binding = request.epact.unwrap();
    let now_text = rfc3339_utc(now as int).unwrap();
    let deadline = rfc3339_utc(now + request.maximum_elapsed_seconds).unwrap();
    let st = replay_view(row.image, row.epact_events@, row.epact_events@.len())->Ok_0;
    let op = choose|op: EpactOperationRequest|
        #[trigger] operation_for(op, request, binding, now_text) && epact_decision(
            k0,
            i,
            request,
            st,
            op,
            token,
            now_text,
            deadline,
            k1,
            Ok(p),
        );
    assert(budget_post(k0, i, request, token, now_text, deadline, k1, Ok(p)));
    let j = budget_index(row, request.budget_id.unwrap()@).unwrap();
    assert(issue_post(k0, i, request, token, now_text, deadline, k1, Ok(p)));
}

} // verus!
