//! The reference kernel: campaign identity, one Epact image per campaign, accepted Epact events,
//! budgets, dispatch permits and the hash-chained kernel log. The kernel holds its tables in
//! memory; its host persists them between runs.

use vstd::prelude::*;
use vstd::string::StringExecFns;
use crate::canonical::{decimal, json_string, push_decimal, push_json_string};
use crate::clock::{canonical_now_text, format_rfc3339, fresh_dispatch_token, parse_rfc3339_instant, utc_now_seconds, rfc3339_seconds, rfc3339_utc};
use crate::dispatch::{
    binding_view, copy_opt_binding, EpactDispatchBinding, copy_opt_text, AuthorizeCampaignDispatchRequest, CampaignDispatchPermit, DispatchPermitStatus,
    InterruptedDispatchResolution, PermitView, ResolveInterruptedDispatchRequest,
    permit_json, permit_view_json, CAMPAIGN_DISPATCH_PERMIT_CONTRACT,
};
use crate::epact::{
    ErrorView, RuntimeView, EpactEligibilityBlocker, EpactOperationRequest, replay_view, opt_text, EpactProgramImage,
    EpactRuntimeEvent, EpactRuntimeState,
};
use crate::epact_eval::{epact_program_is_terminal, program_terminal, same_texts, blocker_views, evaluate_epact_operation, expected_blocker, has_blocker, shape_error, BlockerView};
use crate::order::{clone_texts, texts};
use crate::epact_runtime::{lemma_replay_push, replay_epact_events, replay_next};
use crate::kernel::{
    chain_head, chain_valid, event_digest, lemma_append_keeps_chain, sha256_hex, sha256_text, utf8,
    validate_text, verify_chain, CampaignRecord, VerificationReport, CampaignStatus, CampaignView, KernelError, KernelEvent,
    KernelEventKind, KERNEL_EVENT_CONTRACT,
};
use crate::sorting::{permit_rows_ordered, sort_permit_rows, ascending, sort_ascending, SortKey};
use crate::search::{index_of, lemma_index_of, lemma_index_of_absent, lemma_index_of_found, lemma_index_of_push};
use crate::text::{chars_of, is_blank, trim, trim_text};

verus! {

broadcast use vstd::string::group_string_axioms;

/// A campaign budget. Money is in micro-USD; `available_microusd` is what remains once spending
/// and reserved exposure are taken from the total, and may be negative after an overrun.
#[derive(Debug, Clone)]
pub struct BudgetRecord {
    pub id: String,
    pub campaign_id: String,
    pub total_microusd: u64,
    pub spent_microusd: u64,
    pub exposure_microusd: u64,
    pub available_microusd: i128,
    pub updated_at: String,
}

/// A budget as mathematical values.
pub struct BudgetView {
    pub id: Seq<char>,
    pub campaign_id: Seq<char>,
    pub total_microusd: u64,
    pub spent_microusd: u64,
    pub exposure_microusd: u64,
    pub available_microusd: i128,
    pub updated_at: Seq<char>,
}

impl View for BudgetRecord {
    type V = BudgetView;

    open spec fn view(&self) -> BudgetView {
        BudgetView {
            id: self.id@,
            campaign_id: self.campaign_id@,
            total_microusd: self.total_microusd,
            spent_microusd: self.spent_microusd,
            exposure_microusd: self.exposure_microusd,
            available_microusd: self.available_microusd,
            updated_at: self.updated_at@,
        }
    }
}

impl BudgetRecord {
    /// A copy of the budget.
    pub fn copy(&self) -> (r: BudgetRecord)
        ensures
            r@ == self@,
            r == *self,
    {
        BudgetRecord {
            id: self.id.clone(),
            campaign_id: self.campaign_id.clone(),
            total_microusd: self.total_microusd,
            spent_microusd: self.spent_microusd,
            exposure_microusd: self.exposure_microusd,
            available_microusd: self.available_microusd,
            updated_at: self.updated_at.clone(),
        }
    }
}

/// Listings of budgets are ordered by identifier.
impl SortKey for BudgetRecord {
    open spec fn sort_key(&self) -> Seq<char> {
        self.id@
    }

    fn sort_key_exec(&self) -> (r: &String) {
        &self.id
    }
}

/// What is available of a budget: its total less its spending and its reserved exposure.
pub open spec fn availability(total: int, spent: int, exposure: int) -> int {
    total - spent - exposure
}

/// A request to open a campaign under a compiled Epact image.
#[derive(Debug)]
pub struct CreateCampaignRequest {
    pub id: String,
    pub name: String,
    pub objective: String,
    pub image: EpactProgramImage,
}

/// A request to create a campaign budget. Money is in micro-USD.
#[derive(Debug, Clone)]
pub struct CreateBudgetRequest {
    pub id: String,
    pub total_microusd: u64,
}

/// One campaign as the kernel holds it, with its permits and its replayed Epact projection.
#[derive(Debug)]
pub struct CampaignSnapshot<'k> {
    pub campaign: &'k CampaignRecord,
    pub image: &'k EpactProgramImage,
    pub epact_state: EpactRuntimeState,
    pub epact_events: &'k Vec<EpactRuntimeEvent>,
    pub budgets: Vec<BudgetRecord>,
    pub dispatch_permits: Vec<CampaignDispatchPermit>,
    pub kernel_events: &'k Vec<KernelEvent>,
}

/// Everything the kernel holds about one campaign.
#[derive(Debug)]
pub struct CampaignRow {
    pub record: CampaignRecord,
    pub image: EpactProgramImage,
    pub epact_events: Vec<EpactRuntimeEvent>,
    pub budgets: Vec<BudgetRecord>,
    pub kernel_events: Vec<KernelEvent>,
}

/// The durable authority path of Concord campaigns.
#[derive(Debug)]
pub struct ReferenceKernel {
    path: String,
    campaigns: Vec<CampaignRow>,
    permits: Vec<CampaignDispatchPermit>,
    permit_times: Vec<String>,
}

/// The kernel's tables. `permit_times[k]` is when the row of permit `k` last changed.
pub struct KernelView {
    pub path: Seq<char>,
    pub campaigns: Seq<CampaignRow>,
    pub permits: Seq<CampaignDispatchPermit>,
    pub permit_times: Seq<String>,
}

impl View for ReferenceKernel {
    type V = KernelView;

    closed spec fn view(&self) -> KernelView {
        KernelView {
            path: self.path@,
            campaigns: self.campaigns@,
            permits: self.permits@,
            permit_times: self.permit_times@,
        }
    }
}

/// The identifiers of the campaigns, in order.
pub open spec fn campaign_ids(campaigns: Seq<CampaignRow>) -> Seq<Seq<char>> {
    campaigns.map_values(|r: CampaignRow| r.record.id@)
}

/// The tokens of the permits, in order.
pub open spec fn permit_tokens(permits: Seq<CampaignDispatchPermit>) -> Seq<Seq<char>> {
    permits.map_values(|p: CampaignDispatchPermit| p.token@)
}

/// The identifiers of a campaign's budgets, in order.
pub open spec fn budget_ids(budgets: Seq<BudgetRecord>) -> Seq<Seq<char>> {
    budgets.map_values(|b: BudgetRecord| b.id@)
}

/// The campaign, generation and idempotency key of each permit, in order.
pub open spec fn issue_keys(permits: Seq<CampaignDispatchPermit>) -> Seq<(Seq<char>, u64, Seq<char>)> {
    permits.map_values(|p: CampaignDispatchPermit| (p.campaign_id@, p.generation, p.idempotency_key@))
}

/// The idempotency keys of a campaign's accepted Epact events, in order.
pub open spec fn event_keys(events: Seq<EpactRuntimeEvent>) -> Seq<Seq<char>> {
    events.map_values(|e: EpactRuntimeEvent| e.idempotency_key@)
}

/// The campaign with this identifier.
pub open spec fn campaign_index(k: KernelView, id: Seq<char>) -> Option<int> {
    index_of(campaign_ids(k.campaigns), id)
}

/// The permit with this token.
pub open spec fn permit_index(k: KernelView, token: Seq<char>) -> Option<int> {
    index_of(permit_tokens(k.permits), token)
}

/// The budget of a campaign with this identifier.
pub open spec fn budget_index(row: CampaignRow, id: Seq<char>) -> Option<int> {
    index_of(budget_ids(row.budgets@), id)
}

/// The permit issued for this campaign, generation and idempotency key.
pub open spec fn issued_index(k: KernelView, campaign_id: Seq<char>, generation: u64, key: Seq<char>) -> Option<int> {
    index_of(issue_keys(k.permits), (campaign_id, generation, key))
}

/// The budget's availability is its total less spending and exposure.
pub open spec fn budget_balanced(b: BudgetRecord) -> bool {
    b.available_microusd == availability(
        b.total_microusd as int,
        b.spent_microusd as int,
        b.exposure_microusd as int,
    )
}

/// A campaign's kernel log is an unbroken chain whose head the campaign records.
pub open spec fn row_well_formed(row: CampaignRow) -> bool {
    &&& chain_valid(row.kernel_events@)
    &&& opt_text(row.record.event_head_sha256) == chain_head(row.kernel_events@)
    &&& forall|j: int| 0 <= j < row.budgets@.len() ==> budget_balanced(#[trigger] row.budgets@[j])
}

/// Every campaign of the kernel is well formed.
pub open spec fn kernel_well_formed(k: KernelView) -> bool {
    forall|i: int| 0 <= i < k.campaigns.len() ==> row_well_formed(#[trigger] k.campaigns[i])
}

/// `after` is `before` with one more kernel event, sealed over the given fields and linked to the
/// head `before` recorded, which becomes the new head.
pub open spec fn appended(
    before: CampaignRow,
    after: CampaignRow,
    kind: KernelEventKind,
    actor: Seq<char>,
    subject: Seq<char>,
    payload: Seq<char>,
    at: Seq<char>,
) -> bool {
    &&& logged(before.record@, before.kernel_events@, after, kind, actor, subject, payload, at)
    &&& after.image == before.image
    &&& after.epact_events == before.epact_events
    &&& after.budgets == before.budgets
}

/// `after`'s log is `events` and one more event, sealed over the given fields and linked to the
/// head that `record` names; `after`'s record is `record` with that event as its head.
pub open spec fn logged(
    record: CampaignView,
    events: Seq<KernelEvent>,
    after: CampaignRow,
    kind: KernelEventKind,
    actor: Seq<char>,
    subject: Seq<char>,
    payload: Seq<char>,
    at: Seq<char>,
) -> bool {
    let e = after.kernel_events@.last();
    &&& after.kernel_events@ == events.push(e)
    &&& e.contract@ == KERNEL_EVENT_CONTRACT@
    &&& e.campaign_id@ == record.id
    &&& e.sequence == events.len()
    &&& e.kind == kind
    &&& e.actor@ == actor
    &&& e.subject_id@ == subject
    &&& e.payload_sha256@ == sha256_hex(utf8(payload))
    &&& opt_text(e.previous_event_sha256) == record.event_head_sha256
    &&& e.created_at@ == at
    &&& e.event_sha256@ == event_digest(e)
    &&& after.record@ == CampaignView { event_head_sha256: Some(e.event_sha256@), updated_at: at, ..record }
}

/// A campaign whose log is an unbroken chain headed where `record` says stays so once logged.
proof fn lemma_logged_keeps_chain(
    record: CampaignView,
    events: Seq<KernelEvent>,
    after: CampaignRow,
    kind: KernelEventKind,
    actor: Seq<char>,
    subject: Seq<char>,
    payload: Seq<char>,
    at: Seq<char>,
)
    requires
        chain_valid(events),
        record.event_head_sha256 == chain_head(events),
        logged(record, events, after, kind, actor, subject, payload, at),
    ensures
        chain_valid(after.kernel_events@),
        opt_text(after.record.event_head_sha256) == chain_head(after.kernel_events@),
{
    let e = after.kernel_events@.last();
    lemma_append_keeps_chain(events, e);
}

/// Appending a sealed event keeps a campaign well formed.
proof fn lemma_appended_keeps_row(
    before: CampaignRow,
    after: CampaignRow,
    kind: KernelEventKind,
    actor: Seq<char>,
    subject: Seq<char>,
    payload: Seq<char>,
    at: Seq<char>,
)
    requires
        row_well_formed(before),
        appended(before, after, kind, actor, subject, payload, at),
    ensures
        row_well_formed(after),
{
    lemma_logged_keeps_chain(before.record@, before.kernel_events@, after, kind, actor, subject, payload, at);
}

/// No campaign but campaign `i` changed.
pub open spec fn other_rows_unchanged(before: KernelView, after: KernelView, i: int) -> bool {
    &&& after.path == before.path
    &&& after.campaigns.len() == before.campaigns.len()
    &&& forall|j: int| 0 <= j < before.campaigns.len() && j != i ==> after.campaigns[j] == before.campaigns[j]
}

/// Only campaign `i` changed.
pub open spec fn only_campaign_changed(before: KernelView, after: KernelView, i: int) -> bool {
    &&& other_rows_unchanged(before, after, i)
    &&& after.permits == before.permits
    &&& after.permit_times == before.permit_times
}

/// The canonical JSON that a campaign's reconciliation digest is taken over.
pub open spec fn reconciliation_input(
    id: Seq<char>,
    name: Seq<char>,
    objective: Seq<char>,
    generation: u64,
    image_sha256: Seq<char>,
) -> Seq<char> {
    "{\"campaignId\":"@ + json_string(id) + ",\"generation\":"@ + decimal(generation as nat)
        + ",\"name\":"@ + json_string(name) + ",\"objective\":"@ + json_string(objective)
        + ",\"programImageSha256\":"@ + json_string(image_sha256) + "}"@
}

/// The digest that binds a campaign generation to its identity and image.
pub open spec fn reconciliation_digest(
    id: Seq<char>,
    name: Seq<char>,
    objective: Seq<char>,
    generation: u64,
    image_sha256: Seq<char>,
) -> Seq<char> {
    sha256_hex(utf8(reconciliation_input(id, name, objective, generation, image_sha256)))
}

/// The canonical JSON receipt of a campaign's creation.
pub open spec fn campaign_payload(id: Seq<char>, name: Seq<char>, objective: Seq<char>, image_sha256: Seq<char>) -> Seq<char> {
    "{\"id\":"@ + json_string(id) + ",\"imageSha256\":"@ + json_string(image_sha256)
        + ",\"name\":"@ + json_string(name) + ",\"objective\":"@ + json_string(objective) + "}"@
}

/// The request's texts are within their limits.
pub open spec fn campaign_request_valid(request: CreateCampaignRequest) -> bool {
    &&& !is_blank(request.id@) && request.id@.len() <= 240
    &&& !is_blank(request.name@) && request.name@.len() <= 240
    &&& !is_blank(request.objective@) && request.objective@.len() <= 8000
}

/// `row` is a campaign just opened from `request` at `now`, whose log holds its creation receipt.
pub open spec fn opened_from(row: CampaignRow, request: CreateCampaignRequest, now: Seq<char>) -> bool {
    let e = row.kernel_events@[0];
    &&& row.kernel_events@.len() == 1
    &&& row.record@ == CampaignView {
        id: request.id@,
        name: request.name@,
        objective: request.objective@,
        generation: 1,
        status: CampaignStatus::Open,
        blocked_reason: None,
        program_image_sha256: request.image.image_sha256@,
        reconciliation_sha256: reconciliation_digest(
            request.id@,
            request.name@,
            request.objective@,
            1,
            request.image.image_sha256@,
        ),
        event_head_sha256: Some(e.event_sha256@),
        created_at: now,
        updated_at: now,
    }
    &&& row.image == request.image
    &&& row.epact_events@.len() == 0
    &&& row.budgets@.len() == 0
    &&& e.contract@ == KERNEL_EVENT_CONTRACT@
    &&& e.campaign_id@ == request.id@
    &&& e.sequence == 0
    &&& e.kind == KernelEventKind::CampaignCreated
    &&& e.actor@ == trim(request.image.created_by@)
    &&& e.subject_id@ == request.image.image_sha256@
    &&& e.payload_sha256@ == sha256_hex(
        utf8(
            campaign_payload(
                request.id@,
                request.name@,
                request.objective@,
                request.image.image_sha256@,
            ),
        ),
    )
    &&& e.previous_event_sha256 is None
    &&& e.created_at@ == now
    &&& e.event_sha256@ == event_digest(e)
}

/// Every campaign but the added last one is unchanged.
pub open spec fn campaign_added(before: KernelView, after: KernelView) -> bool {
    &&& after.path == before.path
    &&& after.permits == before.permits
    &&& after.permit_times == before.permit_times
    &&& after.campaigns.len() == before.campaigns.len() + 1
    &&& forall|j: int| 0 <= j < before.campaigns.len() ==> after.campaigns[j] == before.campaigns[j]
}

/// What opening a campaign from `request` at `now` does to the kernel and returns.
pub open spec fn create_campaign_post(
    before: KernelView,
    request: CreateCampaignRequest,
    now: Seq<char>,
    after: KernelView,
    r: Result<CampaignRecord, KernelError>,
) -> bool {
    if !campaign_request_valid(request) {
        r matches Err(e) && e is Contract && after == before
    } else {
        match campaign_index(before, request.id@) {
            Some(i) => {
                let existing = before.campaigns[i].record@;
                &&& after == before
                &&& if existing.name == request.name@ && existing.objective == request.objective@
                    && existing.program_image_sha256 == request.image.image_sha256@ {
                    r matches Ok(c) && c@ == existing
                } else {
                    r matches Err(e) && e is Conflict
                }
            },
            None => {
                &&& campaign_added(before, after)
                &&& opened_from(after.campaigns.last(), request, now)
                &&& r matches Ok(c) && c@ == after.campaigns.last().record@
            },
        }
    }
}

fn reconciliation_sha256(
    id: &String,
    name: &String,
    objective: &String,
    generation: u64,
    image_sha256: &String,
) -> (r: String)
    ensures
        r@ == reconciliation_digest(id@, name@, objective@, generation, image_sha256@),
{
    let mut out = String::new();
    out.append("{\"campaignId\":");
    push_json_string(&mut out, id.as_str());
    out.append(",\"generation\":");
    push_decimal(&mut out, generation);
    out.append(",\"name\":");
    push_json_string(&mut out, name.as_str());
    out.append(",\"objective\":");
    push_json_string(&mut out, objective.as_str());
    out.append(",\"programImageSha256\":");
    push_json_string(&mut out, image_sha256.as_str());
    out.append("}");
    assert(out@ =~= reconciliation_input(id@, name@, objective@, generation, image_sha256@));
    sha256_text(&out)
}

fn campaign_payload_json(id: &String, name: &String, objective: &String, image_sha256: &String) -> (r: String)
    ensures
        r@ == campaign_payload(id@, name@, objective@, image_sha256@),
{
    let mut out = String::new();
    out.append("{\"id\":");
    push_json_string(&mut out, id.as_str());
    out.append(",\"imageSha256\":");
    push_json_string(&mut out, image_sha256.as_str());
    out.append(",\"name\":");
    push_json_string(&mut out, name.as_str());
    out.append(",\"objective\":");
    push_json_string(&mut out, objective.as_str());
    out.append("}");
    assert(out@ =~= campaign_payload(id@, name@, objective@, image_sha256@));
    out
}

/// Replacing one campaign by a well-formed one keeps the kernel well formed.
proof fn lemma_row_change_keeps_kernel(before: KernelView, after: KernelView, i: int)
    requires
        kernel_well_formed(before),
        0 <= i < before.campaigns.len(),
        other_rows_unchanged(before, after, i),
        row_well_formed(after.campaigns[i]),
    ensures
        kernel_well_formed(after),
{
    assert forall|j: int| 0 <= j < after.campaigns.len() implies row_well_formed(
        #[trigger] after.campaigns[j],
    ) by {
        if j != i {
            assert(after.campaigns[j] == before.campaigns[j]);
        }
    }
}

/// The canonical JSON receipt of a budget's creation.
pub open spec fn budget_payload(id: Seq<char>, total_microusd: u64) -> Seq<char> {
    "{\"id\":"@ + json_string(id) + ",\"totalMicrousd\":"@ + decimal(total_microusd as nat) + "}"@
}

/// What creating budget `request` for campaign `campaign_id` at `now` does and returns.
pub open spec fn create_budget_post(
    before: KernelView,
    campaign_id: Seq<char>,
    request: CreateBudgetRequest,
    now: Seq<char>,
    after: KernelView,
    r: Result<BudgetRecord, KernelError>,
) -> bool {
    if is_blank(request.id@) || request.id@.len() > 160 {
        r matches Err(e) && e is Contract && after == before
    } else {
        match campaign_index(before, campaign_id) {
            None => r matches Err(e) && e is NotFound && after == before,
            Some(i) => {
                let row = before.campaigns[i];
                match budget_index(row, request.id@) {
                    Some(j) => {
                        &&& after == before
                        &&& if row.budgets@[j].total_microusd == request.total_microusd {
                            r matches Ok(b) && b@ == row.budgets@[j]@
                        } else {
                            r matches Err(e) && e is Conflict
                        }
                    },
                    None => {
                        let changed = after.campaigns[i];
                        let b = changed.budgets@.last();
                        &&& only_campaign_changed(before, after, i)
                        &&& changed.budgets@ == row.budgets@.push(b)
                        &&& b@ == BudgetView {
                            id: request.id@,
                            campaign_id: campaign_id,
                            total_microusd: request.total_microusd,
                            spent_microusd: 0,
                            exposure_microusd: 0,
                            available_microusd: request.total_microusd as i128,
                            updated_at: now,
                        }
                        &&& appended(
                            CampaignRow { budgets: changed.budgets, ..row },
                            changed,
                            KernelEventKind::BudgetCreated,
                            trim("operator"@),
                            request.id@,
                            budget_payload(request.id@, request.total_microusd),
                            now,
                        )
                        &&& r matches Ok(rb) && rb@ == b@
                    },
                }
            },
        }
    }
}

#[verifier::loop_isolation(false)]
fn find_budget(row: &CampaignRow, id: &String) -> (r: Option<usize>)
    ensures
        match r {
            Some(j) => budget_index(*row, id@) == Some(j as int) && j < row.budgets@.len(),
            None => budget_index(*row, id@) == None::<int>,
        },
{
    let mut j: usize = 0;
    while j < row.budgets.len()
        invariant
            j <= row.budgets.len(),
            forall|k: int| 0 <= k < j ==> budget_ids(row.budgets@)[k] != id@,
        decreases row.budgets.len() - j,
    {
        if row.budgets[j].id == *id {
            proof {
                lemma_index_of_found(budget_ids(row.budgets@), id@, j as int);
            }
            return Some(j);
        }
        j = j + 1;
    }
    proof {
        lemma_index_of_absent(budget_ids(row.budgets@), id@);
    }
    None
}

fn budget_payload_json(id: &String, total_microusd: u64) -> (r: String)
    ensures
        r@ == budget_payload(id@, total_microusd),
{
    let mut out = String::new();
    out.append("{\"id\":");
    push_json_string(&mut out, id.as_str());
    out.append(",\"totalMicrousd\":");
    push_decimal(&mut out, total_microusd);
    out.append("}");
    assert(out@ =~= budget_payload(id@, total_microusd));
    out
}

/// The accepted Epact event of a campaign with this idempotency key.
pub open spec fn key_index(row: CampaignRow, key: Seq<char>) -> Option<int> {
    index_of(event_keys(row.epact_events@), key)
}

/// The canonical JSON receipt of an accepted Epact event.
pub open spec fn epact_payload(e: EpactRuntimeEvent) -> Seq<char> {
    "{\"eventSha256\":"@ + json_string(e.event_sha256@) + ",\"id\":"@ + json_string(e.id@)
        + ",\"idempotencyKey\":"@ + json_string(e.idempotency_key@) + ",\"sequence\":"@ + decimal(
        e.sequence as nat,
    ) + "}"@
}

/// What accepting `event` into campaign `campaign_id` at `now` does and returns.
pub open spec fn accept_event_post(
    before: KernelView,
    campaign_id: Seq<char>,
    event: EpactRuntimeEvent,
    now: Seq<char>,
    after: KernelView,
    r: Result<EpactRuntimeState, KernelError>,
) -> bool {
    match campaign_index(before, campaign_id) {
        None => r matches Err(e) && e is NotFound && after == before,
        Some(i) => {
            let row = before.campaigns[i];
            let n = row.epact_events@.len();
            if event.program_image_sha256@ != row.record.program_image_sha256@ {
                r matches Err(e) && e is Conflict && after == before
            } else if n + 1 >= u64::MAX {
                r matches Err(e) && e is Contract && after == before
            } else {
                match key_index(row, event.idempotency_key@) {
                    Some(j) => {
                        &&& after == before
                        &&& if row.epact_events@[j].event_sha256@ != event.event_sha256@ {
                            r matches Err(e) && e is Conflict
                        } else {
                            match replay_view(row.image, row.epact_events@, n) {
                                Ok(st) => r matches Ok(s) && s@ == st,
                                Err(_) => r matches Err(e) && e is Contract,
                            }
                        }
                    },
                    None => {
                        let events = row.epact_events@.push(event);
                        match replay_view(row.image, events, events.len()) {
                            Err(_) => r matches Err(e) && e is AuthorityDenied && after == before,
                            Ok(st) => {
                                let changed = after.campaigns[i];
                                &&& r matches Ok(s) && s@ == st
                                &&& only_campaign_changed(before, after, i)
                                &&& changed.epact_events@ == events
                                &&& appended(
                                    CampaignRow { epact_events: changed.epact_events, ..row },
                                    changed,
                                    KernelEventKind::EpactEventAccepted,
                                    trim(event.actor@),
                                    event.id@,
                                    epact_payload(event),
                                    now,
                                )
                            },
                        }
                    },
                }
            }
        },
    }
}

#[verifier::loop_isolation(false)]
fn find_key(row: &CampaignRow, key: &String) -> (r: Option<usize>)
    ensures
        match r {
            Some(j) => key_index(*row, key@) == Some(j as int) && j < row.epact_events@.len(),
            None => key_index(*row, key@) == None::<int>,
        },
{
    let mut j: usize = 0;
    while j < row.epact_events.len()
        invariant
            j <= row.epact_events.len(),
            forall|k: int| 0 <= k < j ==> event_keys(row.epact_events@)[k] != key@,
        decreases row.epact_events.len() - j,
    {
        if row.epact_events[j].idempotency_key == *key {
            proof {
                lemma_index_of_found(event_keys(row.epact_events@), key@, j as int);
            }
            return Some(j);
        }
        j = j + 1;
    }
    proof {
        lemma_index_of_absent(event_keys(row.epact_events@), key@);
    }
    None
}

fn epact_payload_json(e: &EpactRuntimeEvent) -> (r: String)
    ensures
        r@ == epact_payload(*e),
{
    let mut out = String::new();
    out.append("{\"eventSha256\":");
    push_json_string(&mut out, e.event_sha256.as_str());
    out.append(",\"id\":");
    push_json_string(&mut out, e.id.as_str());
    out.append(",\"idempotencyKey\":");
    push_json_string(&mut out, e.idempotency_key.as_str());
    out.append(",\"sequence\":");
    push_decimal(&mut out, e.sequence);
    out.append("}");
    assert(out@ =~= epact_payload(*e));
    out
}

/// An existing permit carries exactly the authority that `request` asks for.
pub open spec fn permit_matches_request(
    p: PermitView,
    campaign_id: Seq<char>,
    request: AuthorizeCampaignDispatchRequest,
) -> bool {
    &&& p.campaign_id == campaign_id
    &&& p.generation == request.generation
    &&& p.idempotency_key == request.idempotency_key@
    &&& p.actor == trim(request.actor@)
    &&& p.operation == request.operation
    &&& p.target_id == trim(request.target_id@)
    &&& p.budget_id == opt_text(request.budget_id)
    &&& p.maximum_cost_microusd == request.maximum_cost_microusd
    &&& p.reserve_budget == request.reserve_budget
    &&& p.budget_pre_reserved == request.budget_pre_reserved
    &&& p.epact == binding_view(request.epact)
}

/// `op` is the Epact operation that a dispatch under `binding` asks for at `now`.
pub open spec fn operation_for(
    op: EpactOperationRequest,
    request: AuthorizeCampaignDispatchRequest,
    binding: EpactDispatchBinding,
    now: Seq<char>,
) -> bool {
    &&& op.principal_id@ == trim(request.actor@)
    &&& op.operation == binding.operation
    &&& op.requested_at@ == now
    &&& opt_text(op.obligation_id) == Some(binding.obligation_id@)
    &&& opt_text(op.capability_id) == opt_text(binding.capability_id)
    &&& texts(op.effects@) == texts(binding.effects@)
    &&& op.resources == binding.resources
}

/// The permit a successful authorization issues.
pub open spec fn issued_permit(
    campaign: CampaignView,
    request: AuthorizeCampaignDispatchRequest,
    token: Seq<char>,
    now: Seq<char>,
    deadline: Seq<char>,
) -> PermitView {
    PermitView {
        contract: CAMPAIGN_DISPATCH_PERMIT_CONTRACT@,
        token: token,
        campaign_id: campaign.id,
        generation: request.generation,
        idempotency_key: request.idempotency_key@,
        actor: trim(request.actor@),
        operation: request.operation,
        target_id: trim(request.target_id@),
        budget_id: opt_text(request.budget_id),
        maximum_cost_microusd: request.maximum_cost_microusd,
        reserve_budget: request.reserve_budget,
        budget_pre_reserved: false,
        epact: binding_view(request.epact),
        reconciliation_sha256: campaign.reconciliation_sha256,
        status: DispatchPermitStatus::Authorized,
        issued_at: now,
        deadline_at: deadline,
        consumed_at: None,
        settled_at: None,
        actual_cost_microusd: None,
        settlement_basis: None,
        interruption: None,
        released_at: None,
        resolution_evidence_sha256: None,
        resolved_by: None,
    }
}

/// A budget with `amount` more exposure, at `now`.
pub open spec fn reserved(b: BudgetView, amount: u64, now: Seq<char>) -> BudgetView {
    let exposure = saturating_sum(b.exposure_microusd, amount);
    BudgetView {
        exposure_microusd: exposure,
        available_microusd: availability(b.total_microusd as int, b.spent_microusd as int, exposure as int) as i128,
        updated_at: now,
        ..b
    }
}

/// `a + b`, or `u64::MAX` where that overflows.
pub open spec fn saturating_sum(a: u64, b: u64) -> u64 {
    if a + b > u64::MAX { u64::MAX } else { (a + b) as u64 }
}

/// `a - b`, or zero where that would be negative.
pub open spec fn saturating_difference(a: u64, b: u64) -> u64 {
    if a < b { 0 } else { (a - b) as u64 }
}

/// The last step of authorization: reserve what is asked for, issue the permit and record it.
pub open spec fn issue_post(
    before: KernelView,
    i: int,
    request: AuthorizeCampaignDispatchRequest,
    token: Seq<char>,
    now: Seq<char>,
    deadline: Seq<char>,
    after: KernelView,
    r: Result<CampaignDispatchPermit, KernelError>,
) -> bool {
    let row = before.campaigns[i];
    let changed = after.campaigns[i];
    let p = after.permits.last();
    if permit_index(before, token) is Some {
        r matches Err(e) && e is Storage && after == before
    } else {
        &&& other_rows_unchanged(before, after, i)
        &&& after.permits == before.permits.push(p)
        &&& after.permit_times.len() == before.permit_times.len() + 1
        &&& after.permit_times.drop_last() == before.permit_times
        &&& after.permit_times.last()@ == now
        &&& p@ == issued_permit(row.record@, request, token, now, deadline)
        &&& r matches Ok(q) && q@ == p@
        &&& changed.budgets@.len() == row.budgets@.len()
        &&& match request.budget_id {
            Some(id) if request.reserve_budget => {
                let j = budget_index(row, id@).unwrap();
                &&& changed.budgets@[j]@ == reserved(row.budgets@[j]@, request.maximum_cost_microusd, now)
                &&& forall|k: int| 0 <= k < row.budgets@.len() && k != j ==> changed.budgets@[k] == row.budgets@[k]
            },
            _ => changed.budgets == row.budgets,
        }
        &&& appended(
            CampaignRow { budgets: changed.budgets, ..row },
            changed,
            KernelEventKind::DispatchAuthorized,
            trim(p.actor@),
            token,
            permit_json(p),
            now,
        )
    }
}

/// What the budget named by a dispatch allows, and the issuance when it does.
pub open spec fn budget_post(
    before: KernelView,
    i: int,
    request: AuthorizeCampaignDispatchRequest,
    token: Seq<char>,
    now: Seq<char>,
    deadline: Seq<char>,
    after: KernelView,
    r: Result<CampaignDispatchPermit, KernelError>,
) -> bool {
    let row = before.campaigns[i];
    match request.budget_id {
        None => issue_post(before, i, request, token, now, deadline, after, r),
        Some(id) => match budget_index(row, id@) {
            None => r matches Err(e) && e is NotFound && after == before,
            Some(j) => {
                let b = row.budgets@[j];
                if request.maximum_cost_microusd > availability(
                    b.total_microusd as int,
                    b.spent_microusd as int,
                    b.exposure_microusd as int,
                ) {
                    r matches Err(e) && e is AuthorityDenied && after == before
                } else {
                    issue_post(before, i, request, token, now, deadline, after, r)
                }
            },
        },
    }
}

/// What the Epact image decides of the operation `op`, and what follows when it allows it.
pub open spec fn epact_decision(
    before: KernelView,
    i: int,
    request: AuthorizeCampaignDispatchRequest,
    st: RuntimeView,
    op: EpactOperationRequest,
    token: Seq<char>,
    now: Seq<char>,
    deadline: Seq<char>,
    after: KernelView,
    r: Result<CampaignDispatchPermit, KernelError>,
) -> bool {
    let img = before.campaigns[i].image;
    if shape_error(img, st) is Some {
        r matches Err(e) && e is Contract && after == before
    } else if exists|b: BlockerView| #[trigger] expected_blocker(img, st, op, b) {
        r matches Err(e) && e is AuthorityDenied && after == before
    } else {
        budget_post(before, i, request, token, now, deadline, after, r)
    }
}

/// What authorizing `request` for campaign `campaign_id` at UNIX time `now` with the fresh
/// `token` does and returns.
pub open spec fn authorize_post(
    before: KernelView,
    campaign_id: Seq<char>,
    request: AuthorizeCampaignDispatchRequest,
    now: i64,
    token: Seq<char>,
    after: KernelView,
    r: Result<CampaignDispatchPermit, KernelError>,
) -> bool {
    let elapsed = request.maximum_elapsed_seconds;
    if request.budget_pre_reserved {
        r matches Err(e) && e is Contract && after == before
    } else if rfc3339_utc(now as int) is None || elapsed > i64::MAX || now + elapsed > i64::MAX
        || rfc3339_utc(now + elapsed) is None {
        r matches Err(e) && e is Contract && after == before
    } else {
        let now_text = rfc3339_utc(now as int).unwrap();
        let deadline = rfc3339_utc(now + elapsed).unwrap();
        match campaign_index(before, campaign_id) {
            None => r matches Err(e) && e is NotFound && after == before,
            Some(i) => {
                let row = before.campaigns[i];
                let campaign = row.record@;
                if campaign.status != CampaignStatus::Open {
                    r matches Err(e) && e is AuthorityDenied && after == before
                } else if campaign.generation != request.generation {
                    r matches Err(e) && e is Conflict && after == before
                } else {
                    match issued_index(before, campaign_id, request.generation, request.idempotency_key@) {
                        Some(k) => {
                            &&& after == before
                            &&& if permit_matches_request(before.permits[k]@, campaign_id, request) {
                                r matches Ok(p) && p@ == before.permits[k]@
                            } else {
                                r matches Err(e) && e is Conflict
                            }
                        },
                        None => match request.epact {
                            None => r matches Err(e) && e is AuthorityDenied && after == before,
                            Some(binding) => {
                                if binding.program_image_sha256@ != campaign.program_image_sha256 {
                                    r matches Err(e) && e is Conflict && after == before
                                } else if row.epact_events@.len() >= u64::MAX {
                                    r matches Err(e) && e is Integrity && after == before
                                } else {
                                    match replay_view(row.image, row.epact_events@, row.epact_events@.len()) {
                                        Err(_) => r matches Err(e) && e is Integrity && after == before,
                                        Ok(st) => exists|op: EpactOperationRequest|
                                            #[trigger] operation_for(op, request, binding, now_text)
                                                && epact_decision(before, i, request, st, op, token, now_text, deadline, after, r),
                                    }
                                }
                            },
                        },
                    }
                }
            },
        }
    }
}

fn permit_matches(p: &CampaignDispatchPermit, campaign_id: &String, request: &AuthorizeCampaignDispatchRequest) -> (r: bool)
    ensures
        r == permit_matches_request(p@, campaign_id@, *request),
{
    let actor = trim_text(request.actor.as_str());
    let target = trim_text(request.target_id.as_str());
    let budget_same = match (&p.budget_id, &request.budget_id) {
        (Some(a), Some(b)) => *a == *b,
        (None, None) => true,
        _ => false,
    };
    let epact_same = match (&p.epact, &request.epact) {
        (Some(a), Some(b)) => binding_equal(a, b),
        (None, None) => true,
        _ => false,
    };
    p.campaign_id == *campaign_id && p.generation == request.generation && p.idempotency_key
        == request.idempotency_key && p.actor == actor && p.operation == request.operation
        && p.target_id == target && budget_same && p.maximum_cost_microusd
        == request.maximum_cost_microusd && p.reserve_budget == request.reserve_budget
        && p.budget_pre_reserved == request.budget_pre_reserved && epact_same
}

pub(crate) fn binding_equal(a: &EpactDispatchBinding, b: &EpactDispatchBinding) -> (r: bool)
    ensures
        r == (a@ == b@),
{
    let capability_same = match (&a.capability_id, &b.capability_id) {
        (Some(x), Some(y)) => *x == *y,
        (None, None) => true,
        _ => false,
    };
    a.program_image_sha256 == b.program_image_sha256 && a.obligation_id == b.obligation_id
        && a.operation == b.operation && capability_same && same_texts(&a.effects, &b.effects)
        && a.resources == b.resources
}

/// The first `n` blockers written as `code:subject`, joined by `, `.
pub open spec fn blocker_text(blockers: Seq<EpactEligibilityBlocker>, n: nat) -> Seq<char>
    decreases n,
{
    if n == 0 || n > blockers.len() {
        Seq::empty()
    } else {
        let earlier = blocker_text(blockers, (n - 1) as nat);
        let b = blockers[n - 1];
        let joined = if n > 1 {
            earlier + ", "@
        } else {
            earlier
        };
        joined + b.code@ + ":"@ + b.subject_id@
    }
}

fn blocker_message(blockers: &Vec<EpactEligibilityBlocker>) -> (r: String)
    ensures
        r@ == blocker_text(blockers@, blockers@.len()),
{
    let mut out = String::new();
    let mut k: usize = 0;
    while k < blockers.len()
        invariant
            k <= blockers.len(),
            out@ == blocker_text(blockers@, k as nat),
        decreases blockers.len() - k,
    {
        if k > 0 {
            out.append(", ");
        }
        out.append(blockers[k].code.as_str());
        out.append(":");
        out.append(blockers[k].subject_id.as_str());
        k = k + 1;
    }
    out
}

/// `after` is the row times `before` once the row of permit `k` changed at `at`.
pub open spec fn stamped(before: Seq<String>, after: Seq<String>, k: int, at: Seq<char>) -> bool {
    &&& after.len() == before.len()
    &&& forall|j: int| 0 <= j < before.len() && j != k ==> after[j] == before[j]
    &&& 0 <= k < before.len() ==> after[k]@ == at
}

/// Permit `k` now reads `q`; no other permit changed.
pub open spec fn permit_replaced(
    before: Seq<CampaignDispatchPermit>,
    after: Seq<CampaignDispatchPermit>,
    k: int,
    q: PermitView,
) -> bool {
    &&& after.len() == before.len()
    &&& after[k]@ == q
    &&& forall|j: int| 0 <= j < before.len() && j != k ==> after[j] == before[j]
}

/// The permit once consumed at `now`.
pub open spec fn consumed(p: PermitView, now: Seq<char>) -> PermitView {
    PermitView { status: DispatchPermitStatus::Consumed, consumed_at: Some(now), ..p }
}

/// The permit once interrupted for `reason`.
pub open spec fn interrupted(p: PermitView, reason: Seq<char>) -> PermitView {
    PermitView { status: DispatchPermitStatus::Interrupted, interruption: Some(reason), ..p }
}

/// The permit once settled at `now` for `actual` micro-USD on `basis`.
pub open spec fn settled(p: PermitView, actual: u64, basis: Option<Seq<char>>, now: Seq<char>) -> PermitView {
    PermitView {
        status: DispatchPermitStatus::Settled,
        settled_at: Some(now),
        actual_cost_microusd: Some(actual),
        settlement_basis: basis,
        interruption: None,
        ..p
    }
}

/// The permit once released at `now`.
pub open spec fn released(p: PermitView, now: Seq<char>) -> PermitView {
    PermitView { status: DispatchPermitStatus::Released, released_at: Some(now), ..p }
}

/// A budget once a permit reserving `maximum` settles against it for `actual`.
pub open spec fn budget_settled(b: BudgetView, actual: u64, maximum: u64, now: Seq<char>) -> BudgetView {
    let spent = saturating_sum(b.spent_microusd, actual);
    let exposure = saturating_difference(b.exposure_microusd, maximum);
    BudgetView {
        spent_microusd: spent,
        exposure_microusd: exposure,
        available_microusd: availability(b.total_microusd as int, spent as int, exposure as int) as i128,
        updated_at: now,
        ..b
    }
}

/// A budget once the reservation of `maximum` is released.
pub open spec fn budget_released(b: BudgetView, maximum: u64, now: Seq<char>) -> BudgetView {
    let exposure = saturating_difference(b.exposure_microusd, maximum);
    BudgetView {
        exposure_microusd: exposure,
        available_microusd: availability(
            b.total_microusd as int,
            b.spent_microusd as int,
            exposure as int,
        ) as i128,
        updated_at: now,
        ..b
    }
}

/// `after` is `before` with budget `j` reading `v`, where there is a target.
pub open spec fn budgets_after(before: Seq<BudgetRecord>, after: Seq<BudgetRecord>, target: Option<(int, BudgetView)>) -> bool {
    &&& after.len() == before.len()
    &&& match target {
        Some((j, v)) => after[j]@ == v && forall|k: int| 0 <= k < before.len() && k != j ==> after[k] == before[k],
        None => after == before,
    }
}

/// The budget of campaign `i` that a reserving permit holds exposure against.
pub open spec fn reserved_budget(before: KernelView, i: int, p: PermitView) -> Option<int> {
    match p.budget_id {
        Some(b) => budget_index(before.campaigns[i], b),
        None => None,
    }
}

/// A reserving permit whose campaign or budget is gone cannot be settled or released.
pub open spec fn reservation_lost(before: KernelView, p: PermitView) -> bool {
    p.reserve_budget && match campaign_index(before, p.campaign_id) {
        None => true,
        Some(i) => reserved_budget(before, i, p) is None,
    }
}

/// What the reservation of permit `p` becomes in campaign `i`.
pub open spec fn reservation_target(
    before: KernelView,
    i: int,
    p: PermitView,
    change: spec_fn(BudgetView) -> BudgetView,
) -> Option<(int, BudgetView)> {
    if p.reserve_budget {
        let j = reserved_budget(before, i, p).unwrap();
        Some((j, change(before.campaigns[i].budgets@[j]@)))
    } else {
        None
    }
}

/// The prefix of a campaign's blocked reason that reconciliation clears.
pub open spec fn interruption_prefix() -> Seq<char> {
    "interrupted dispatch"@
}

/// Why an interrupted dispatch blocks its campaign.
pub open spec fn interruption_reason(token: Seq<char>) -> Seq<char> {
    "interrupted dispatch "@ + token + " requires reconciliation"@
}

/// Why a settlement over its ceiling blocks its campaign.
pub open spec fn overrun_reason(actual: u64, maximum: u64) -> Seq<char> {
    "dispatch settled at "@ + decimal(actual as nat) + " micro-USD against "@ + decimal(maximum as nat)
        + " micro-USD authority"@
}

/// The campaign, blocked for `reason` at `now`.
pub open spec fn blocked(c: CampaignView, reason: Seq<char>, now: Seq<char>) -> CampaignView {
    CampaignView {
        status: CampaignStatus::Blocked,
        blocked_reason: Some(reason),
        updated_at: now,
        ..c
    }
}

/// No permit of the campaign is still interrupted.
pub open spec fn none_interrupted(permits: Seq<CampaignDispatchPermit>, campaign_id: Seq<char>) -> bool {
    forall|k: int|
        0 <= k < permits.len() ==> !(#[trigger] permits[k].campaign_id@ == campaign_id
            && permits[k].status == DispatchPermitStatus::Interrupted)
}

/// The campaign reopened at `now` when no permit of it is interrupted any more and it was
/// blocked only by an interruption; otherwise unchanged.
pub open spec fn reopened(c: CampaignView, permits: Seq<CampaignDispatchPermit>, now: Seq<char>) -> CampaignView {
    if none_interrupted(permits, c.id) && (c.blocked_reason matches Some(reason)
        && interruption_prefix().is_prefix_of(reason)) {
        CampaignView { status: CampaignStatus::Open, blocked_reason: None, updated_at: now, ..c }
    } else {
        c
    }
}

/// Campaign `i` of `after` is that of `before` with its record reading `record`, its budgets
/// as `target` says, and one more sealed event.
pub open spec fn campaign_logged(
    before: KernelView,
    after: KernelView,
    i: int,
    target: Option<(int, BudgetView)>,
    record: CampaignView,
    kind: KernelEventKind,
    actor: Seq<char>,
    subject: Seq<char>,
    payload: Seq<char>,
    at: Seq<char>,
) -> bool {
    let row = before.campaigns[i];
    let changed = after.campaigns[i];
    &&& other_rows_unchanged(before, after, i)
    &&& changed.image == row.image
    &&& changed.epact_events == row.epact_events
    &&& budgets_after(row.budgets@, changed.budgets@, target)
    &&& logged(record, row.kernel_events@, changed, kind, actor, subject, payload, at)
}

/// What consuming permit `token` at UNIX time `now` does and returns.
pub open spec fn consume_post(
    before: KernelView,
    token: Seq<char>,
    now: i64,
    after: KernelView,
    r: Result<CampaignDispatchPermit, KernelError>,
) -> bool {
    if rfc3339_utc(now as int) is None {
        r matches Err(e) && e is Contract && after == before
    } else {
        let now_text = rfc3339_utc(now as int).unwrap();
        match permit_index(before, token) {
            None => r matches Err(e) && e is NotFound && after == before,
            Some(k) => {
                let p = before.permits[k]@;
                if p.status != DispatchPermitStatus::Authorized {
                    r matches Err(e) && e is Conflict && after == before
                } else {
                    match rfc3339_seconds(p.deadline_at) {
                        None => r matches Err(e) && e is Integrity && after == before,
                        Some(deadline) => if deadline <= now {
                            r matches Err(e) && e is AuthorityDenied && after == before
                        } else {
                            match campaign_index(before, p.campaign_id) {
                                None => r matches Err(e) && e is NotFound && after == before,
                                Some(i) => {
                                    let c = before.campaigns[i].record@;
                                    if c.status != CampaignStatus::Open || c.generation != p.generation
                                        || c.reconciliation_sha256 != p.reconciliation_sha256 {
                                        r matches Err(e) && e is AuthorityDenied && after == before
                                    } else {
                                        let q = consumed(p, now_text);
                                        &&& permit_replaced(before.permits, after.permits, k, q)
                                        &&& stamped(before.permit_times, after.permit_times, k, now_text)
                                        &&& campaign_logged(before, after, i, None, c,
                                            KernelEventKind::DispatchConsumed, trim(p.actor), token,
                                            permit_view_json(q), now_text)
                                        &&& r matches Ok(x) && x@ == q
                                    }
                                },
                            }
                        },
                    }
                }
            },
        }
    }
}

/// What settling permit `token` for `actual` micro-USD on `basis` at `now` does and returns.
pub open spec fn settle_post(
    before: KernelView,
    token: Seq<char>,
    actual: u64,
    basis: Seq<char>,
    now: Seq<char>,
    after: KernelView,
    r: Result<CampaignDispatchPermit, KernelError>,
) -> bool {
    if is_blank(basis) || basis.len() > 240 {
        r matches Err(e) && e is Contract && after == before
    } else {
        match permit_index(before, token) {
            None => r matches Err(e) && e is NotFound && after == before,
            Some(k) => {
                let p = before.permits[k]@;
                if p.status == DispatchPermitStatus::Settled {
                    &&& after == before
                    &&& if p.actual_cost_microusd == Some(actual) && p.settlement_basis == Some(trim(basis)) {
                        r matches Ok(x) && x@ == p
                    } else {
                        r matches Err(e) && e is Conflict
                    }
                } else if p.status != DispatchPermitStatus::Consumed && p.status
                    != DispatchPermitStatus::Interrupted {
                    r matches Err(e) && e is Conflict && after == before
                } else if reservation_lost(before, p) {
                    r matches Err(e) && e is Integrity && after == before
                } else {
                    match campaign_index(before, p.campaign_id) {
                        None => r matches Err(e) && e is NotFound && after == before,
                        Some(i) => {
                            let q = settled(p, actual, Some(trim(basis)), now);
                            let c = before.campaigns[i].record@;
                            let record = if actual > p.maximum_cost_microusd {
                                blocked(c, overrun_reason(actual, p.maximum_cost_microusd), now)
                            } else if p.status == DispatchPermitStatus::Interrupted {
                                reopened(c, after.permits, now)
                            } else {
                                c
                            };
                            &&& permit_replaced(before.permits, after.permits, k, q)
                            &&& stamped(before.permit_times, after.permit_times, k, now)
                            &&& campaign_logged(before, after, i,
                                reservation_target(before, i, p, |b: BudgetView| budget_settled(b, actual, p.maximum_cost_microusd, now)),
                                record, KernelEventKind::DispatchSettled, trim(p.actor), token,
                                permit_view_json(q), now)
                            &&& r matches Ok(x) && x@ == q
                        },
                    }
                }
            },
        }
    }
}

/// What interrupting consumed permit `token` for `reason` at `now` does and returns.
pub open spec fn interrupt_post(
    before: KernelView,
    token: Seq<char>,
    reason: Seq<char>,
    now: Seq<char>,
    after: KernelView,
    r: Result<CampaignDispatchPermit, KernelError>,
) -> bool {
    if is_blank(reason) || reason.len() > 2000 {
        r matches Err(e) && e is Contract && after == before
    } else {
        match permit_index(before, token) {
            None => r matches Err(e) && e is NotFound && after == before,
            Some(k) => {
                let p = before.permits[k]@;
                if p.status == DispatchPermitStatus::Interrupted {
                    (r matches Ok(x) && x@ == p) && after == before
                } else if p.status != DispatchPermitStatus::Consumed {
                    r matches Err(e) && e is Conflict && after == before
                } else {
                    match campaign_index(before, p.campaign_id) {
                        None => r matches Err(e) && e is NotFound && after == before,
                        Some(i) => {
                            let q = interrupted(p, trim(reason));
                            &&& permit_replaced(before.permits, after.permits, k, q)
                            &&& stamped(before.permit_times, after.permit_times, k, now)
                            &&& campaign_logged(before, after, i, None,
                                blocked(before.campaigns[i].record@, interruption_reason(token), now),
                                KernelEventKind::DispatchInterrupted, trim(p.actor), token,
                                permit_view_json(q), now)
                            &&& r matches Ok(x) && x@ == q
                        },
                    }
                }
            },
        }
    }
}

/// What releasing unconsumed permit `token` at `now` does and returns.
pub open spec fn release_post(
    before: KernelView,
    token: Seq<char>,
    now: Seq<char>,
    after: KernelView,
    r: Result<CampaignDispatchPermit, KernelError>,
) -> bool {
    match permit_index(before, token) {
        None => r matches Err(e) && e is NotFound && after == before,
        Some(k) => {
            let p = before.permits[k]@;
            if p.status == DispatchPermitStatus::Released {
                (r matches Ok(x) && x@ == p) && after == before
            } else if p.status != DispatchPermitStatus::Authorized {
                r matches Err(e) && e is Conflict && after == before
            } else if reservation_lost(before, p) {
                r matches Err(e) && e is Integrity && after == before
            } else {
                match campaign_index(before, p.campaign_id) {
                    None => r matches Err(e) && e is NotFound && after == before,
                    Some(i) => {
                        let q = released(p, now);
                        &&& permit_replaced(before.permits, after.permits, k, q)
                        &&& stamped(before.permit_times, after.permit_times, k, now)
                        &&& campaign_logged(before, after, i,
                            reservation_target(before, i, p, |b: BudgetView| budget_released(b, p.maximum_cost_microusd, now)),
                            before.campaigns[i].record@, KernelEventKind::DispatchReleased, trim(p.actor), token,
                            permit_view_json(q), now)
                        &&& r matches Ok(x) && x@ == q
                    },
                }
            }
        },
    }
}

/// What resolving interrupted permit `token` of campaign `campaign_id` at `now` does and returns.
pub open spec fn resolve_post(
    before: KernelView,
    campaign_id: Seq<char>,
    token: Seq<char>,
    request: ResolveInterruptedDispatchRequest,
    now: Seq<char>,
    after: KernelView,
    r: Result<CampaignDispatchPermit, KernelError>,
) -> bool {
    match permit_index(before, token) {
        None => r matches Err(e) && e is NotFound && after == before,
        Some(k) => {
            let p = before.permits[k]@;
            let resolved = PermitView {
                resolution_evidence_sha256: Some(request.evidence_sha256@),
                resolved_by: Some(trim(request.actor@)),
                ..p
            };
            if p.campaign_id != campaign_id || p.status != DispatchPermitStatus::Interrupted {
                r matches Err(e) && e is Conflict && after == before
            } else if request.resolution == InterruptedDispatchResolution::ProviderSettled
                && request.actual_cost_microusd is None {
                r matches Err(e) && e is Contract && after == before
            } else if reservation_lost(before, p) {
                r matches Err(e) && e is Integrity && after == before
            } else {
                match campaign_index(before, campaign_id) {
                    None => r matches Err(e) && e is NotFound && after == before,
                    Some(i) => {
                        let c = before.campaigns[i].record@;
                        match request.resolution {
                            InterruptedDispatchResolution::NoProviderStart => {
                                let q = PermitView {
                                    settlement_basis: Some("verified_no_provider_start"@),
                                    ..released(resolved, now)
                                };
                                &&& permit_replaced(before.permits, after.permits, k, q)
                                &&& stamped(before.permit_times, after.permit_times, k, now)
                                &&& campaign_logged(before, after, i,
                                    reservation_target(before, i, p, |b: BudgetView| budget_released(b, p.maximum_cost_microusd, now)),
                                    reopened(c, after.permits, now), KernelEventKind::DispatchResolved,
                                    trim(request.actor@), token, permit_view_json(q), now)
                                &&& r matches Ok(x) && x@ == q
                            },
                            InterruptedDispatchResolution::ProviderSettled => {
                                let actual = request.actual_cost_microusd.unwrap();
                                let q = settled(resolved, actual, opt_text(request.settlement_basis), now);
                                let charged = if actual > p.maximum_cost_microusd {
                                    blocked(c, "resolved dispatch exceeded its authorized ceiling"@, now)
                                } else {
                                    c
                                };
                                &&& permit_replaced(before.permits, after.permits, k, q)
                                &&& stamped(before.permit_times, after.permit_times, k, now)
                                &&& campaign_logged(before, after, i,
                                    reservation_target(before, i, p, |b: BudgetView| budget_settled(b, actual, p.maximum_cost_microusd, now)),
                                    reopened(charged, after.permits, now), KernelEventKind::DispatchResolved,
                                    trim(request.actor@), token, permit_view_json(q), now)
                                &&& r matches Ok(x) && x@ == q
                            },
                        }
                    },
                }
            }
        },
    }
}

/// A campaign that only gained a balanced budget change, a record with the same head, and one
/// sealed event keeps the kernel well formed.
proof fn lemma_campaign_logged_keeps_kernel(
    before: KernelView,
    after: KernelView,
    i: int,
    target: Option<(int, BudgetView)>,
    record: CampaignView,
    kind: KernelEventKind,
    actor: Seq<char>,
    subject: Seq<char>,
    payload: Seq<char>,
    at: Seq<char>,
)
    requires
        kernel_well_formed(before),
        0 <= i < before.campaigns.len(),
        campaign_logged(before, after, i, target, record, kind, actor, subject, payload, at),
        record.event_head_sha256 == before.campaigns[i].record@.event_head_sha256,
        match target {
            Some((j, v)) => v.available_microusd == availability(
                v.total_microusd as int,
                v.spent_microusd as int,
                v.exposure_microusd as int,
            ),
            None => true,
        },
    ensures
        kernel_well_formed(after),
{
    let row = before.campaigns[i];
    let changed = after.campaigns[i];
    assert(row_well_formed(row));
    lemma_logged_keeps_chain(record, row.kernel_events@, changed, kind, actor, subject, payload, at);
    assert forall|k: int| 0 <= k < changed.budgets@.len() implies budget_balanced(
        #[trigger] changed.budgets@[k],
    ) by {
        match target {
            Some((j, v)) => {
                if k != j {
                    assert(changed.budgets@[k] == row.budgets@[k]);
                }
            },
            None => {
                assert(changed.budgets@[k] == row.budgets@[k]);
            },
        }
    }
    lemma_row_change_keeps_kernel(before, after, i);
}

fn starts_with_interruption(reason: &String) -> (r: bool)
    ensures
        r == interruption_prefix().is_prefix_of(reason@),
{
    let text = chars_of(reason.as_str());
    let prefix = chars_of("interrupted dispatch");
    proof {
        reveal_strlit("interrupted dispatch");
    }
    if text.len() < prefix.len() {
        return false;
    }
    let mut k: usize = 0;
    while k < prefix.len()
        invariant
            k <= prefix@.len(),
            prefix@.len() <= text@.len(),
            prefix@ == interruption_prefix(),
            text@ == reason@,
            forall|m: int| 0 <= m < k ==> text@[m] == prefix@[m],
        decreases prefix.len() - k,
    {
        if text[k] != prefix[k] {
            return false;
        }
        k = k + 1;
    }
    assert(text@.subrange(0, prefix@.len() as int) =~= prefix@);
    true
}

/// Every permit of the campaign is bound to its generation and reconciliation digest.
pub open spec fn permits_bound(permits: Seq<CampaignDispatchPermit>, c: CampaignView) -> bool {
    forall|k: int|
        0 <= k < permits.len() && #[trigger] permits[k].campaign_id@ == c.id ==> permits[k].generation
            == c.generation && permits[k].reconciliation_sha256@ == c.reconciliation_sha256
}

/// How many of the first `n` permits belong to the campaign.
pub open spec fn permit_count(permits: Seq<CampaignDispatchPermit>, campaign_id: Seq<char>, n: nat) -> nat
    decreases n,
{
    if n == 0 || n > permits.len() {
        0
    } else {
        permit_count(permits, campaign_id, (n - 1) as nat) + if permits[n - 1].campaign_id@ == campaign_id {
            1nat
        } else {
            0nat
        }
    }
}

/// When the row of permit `j` last changed; a row without a recorded time counts from its issue.
pub open spec fn permit_row_time(k: KernelView, j: int) -> String {
    if j < k.permit_times.len() {
        k.permit_times[j]
    } else {
        k.permits[j].issued_at
    }
}

/// The rows of the campaign's permits among the first `n`, each as the time it last changed,
/// its token and its place.
pub open spec fn campaign_permit_rows(k: KernelView, campaign_id: Seq<char>, n: nat) -> Seq<(String, String, usize)>
    decreases n,
{
    if n == 0 || n > k.permits.len() {
        Seq::empty()
    } else {
        let earlier = campaign_permit_rows(k, campaign_id, (n - 1) as nat);
        let j = n - 1;
        if k.permits[j].campaign_id@ == campaign_id {
            earlier.push((permit_row_time(k, j), k.permits[j].token, j as usize))
        } else {
            earlier
        }
    }
}

/// Every listed permit row names a permit of the kernel.
proof fn lemma_permit_rows_in_range(k: KernelView, campaign_id: Seq<char>, n: nat)
    requires
        k.permits.len() <= usize::MAX,
    ensures
        forall|m: int| 0 <= m < campaign_permit_rows(k, campaign_id, n).len()
            ==> #[trigger] campaign_permit_rows(k, campaign_id, n)[m].2 < k.permits.len(),
    decreases n,
{
    if n > 0 && n <= k.permits.len() {
        lemma_permit_rows_in_range(k, campaign_id, (n - 1) as nat);
        let earlier = campaign_permit_rows(k, campaign_id, (n - 1) as nat);
        let rows = campaign_permit_rows(k, campaign_id, n);
        assert forall|m: int| 0 <= m < rows.len() implies #[trigger] rows[m].2 < k.permits.len() by {
            if m < earlier.len() {
                assert(rows[m] == earlier[m]);
            }
        }
    }
}

/// What a snapshot of campaign `campaign_id` holds: the campaign's own rows (its budgets ordered
/// by identifier, its permits by when their rows last changed, then by token), and the Epact
/// projection that replaying its accepted events gives.
pub open spec fn snapshot_post(k: KernelView, campaign_id: Seq<char>, r: Result<CampaignSnapshot, KernelError>) -> bool {
    match campaign_index(k, campaign_id) {
        None => r matches Err(e) && e is NotFound,
        Some(i) => {
            let row = k.campaigns[i];
            let n = row.epact_events@.len();
            if n >= u64::MAX {
                r matches Err(e) && e is Integrity
            } else {
                match replay_view(row.image, row.epact_events@, n) {
                    Err(_) => r matches Err(e) && e is Integrity,
                    Ok(st) => r matches Ok(s) && *s.campaign == row.record && *s.image == row.image
                        && s.epact_state@ == st && *s.epact_events == row.epact_events
                        && ascending(s.budgets@) && s.budgets@.to_multiset() == row.budgets@.to_multiset()
                        && *s.kernel_events == row.kernel_events
                        && (exists|rows: Seq<(String, String, usize)>|
                            #[trigger] permit_rows_ordered(rows) && rows.to_multiset() == campaign_permit_rows(
                                k,
                                campaign_id,
                                k.permits.len(),
                            ).to_multiset() && s.dispatch_permits@.len() == rows.len() && forall|m: int|
                                0 <= m < rows.len() ==> rows[m].2 < k.permits.len()
                                    && #[trigger] s.dispatch_permits@[m]@ == k.permits[rows[m].2 as int]@),
                }
            }
        },
    }
}

/// What independent verification of campaign `campaign_id` finds.
pub open spec fn verify_post(k: KernelView, campaign_id: Seq<char>, r: Result<VerificationReport, KernelError>) -> bool {
    match campaign_index(k, campaign_id) {
        None => r matches Err(e) && e is NotFound,
        Some(i) => {
            let row = k.campaigns[i];
            let c = row.record@;
            let n = row.epact_events@.len();
            if n >= u64::MAX {
                r matches Err(e) && e is Integrity
            } else {
                match replay_view(row.image, row.epact_events@, n) {
                    Err(_) => r matches Err(e) && e is Integrity,
                    Ok(st) => if c.reconciliation_sha256 != reconciliation_digest(
                        c.id,
                        c.name,
                        c.objective,
                        c.generation,
                        row.image.image_sha256@,
                    ) || !chain_valid(row.kernel_events@) || c.event_head_sha256 != chain_head(
                        row.kernel_events@,
                    ) || !permits_bound(k.permits, c) || shape_error(row.image, st) is Some {
                        r matches Err(e) && e is Integrity
                    } else {
                        r matches Ok(report) && report.campaign_id@ == campaign_id
                            && report.program_image_sha256@ == row.image.image_sha256@
                            && report.epact_event_count == n && report.kernel_event_count
                            == row.kernel_events@.len() && report.dispatch_permit_count == permit_count(
                            k.permits,
                            campaign_id,
                            k.permits.len(),
                        ) && report.budget_count == row.budgets@.len() && report.terminal
                            == program_terminal(row.image, st, row.epact_events@)
                    },
                }
            }
        },
    }
}

/// Where the search finds a campaign, it has that identifier.
pub proof fn lemma_campaign_found(k: KernelView, id: Seq<char>)
    requires
        campaign_index(k, id) is Some,
    ensures
        0 <= campaign_index(k, id).unwrap() < k.campaigns.len(),
        k.campaigns[campaign_index(k, id).unwrap()].record.id@ == id,
{
    lemma_index_of(campaign_ids(k.campaigns), id);
}

/// Where the search finds a permit, it has that token.
pub proof fn lemma_permit_found(k: KernelView, token: Seq<char>)
    requires
        permit_index(k, token) is Some,
    ensures
        0 <= permit_index(k, token).unwrap() < k.permits.len(),
        k.permits[permit_index(k, token).unwrap()].token@ == token,
{
    lemma_index_of(permit_tokens(k.permits), token);
}

/// Changing one campaign but not its identifier leaves every campaign where it was found.
pub proof fn lemma_campaign_index_stable(k0: KernelView, k1: KernelView, i: int, id: Seq<char>)
    requires
        other_rows_unchanged(k0, k1, i),
        0 <= i < k0.campaigns.len(),
        k1.campaigns[i].record.id@ == k0.campaigns[i].record.id@,
    ensures
        campaign_index(k1, id) == campaign_index(k0, id),
{
    assert(campaign_ids(k1.campaigns) =~= campaign_ids(k0.campaigns)) by {
        assert forall|j: int| 0 <= j < k0.campaigns.len() implies campaign_ids(k1.campaigns)[j]
            == campaign_ids(k0.campaigns)[j] by {
            if j != i {
                assert(k1.campaigns[j] == k0.campaigns[j]);
            }
        }
    }
}

/// Replacing one permit by one with the same token leaves every token where it was found.
pub proof fn lemma_permit_index_stable(k0: KernelView, k1: KernelView, k: int, q: PermitView, token: Seq<char>)
    requires
        permit_replaced(k0.permits, k1.permits, k, q),
        0 <= k < k0.permits.len(),
        q.token == k0.permits[k]@.token,
    ensures
        permit_index(k1, token) == permit_index(k0, token),
{
    assert(permit_tokens(k1.permits) =~= permit_tokens(k0.permits)) by {
        assert forall|j: int| 0 <= j < k0.permits.len() implies permit_tokens(k1.permits)[j]
            == permit_tokens(k0.permits)[j] by {
            if j != k {
                assert(k1.permits[j] == k0.permits[j]);
            }
        }
    }
}

/// A permit issued for a key that had none is the one found for it afterwards.
pub proof fn lemma_issued_found_last(
    k0: KernelView,
    k1: KernelView,
    campaign_id: Seq<char>,
    generation: u64,
    key: Seq<char>,
)
    requires
        issued_index(k0, campaign_id, generation, key) is None,
        k1.permits.len() == k0.permits.len() + 1,
        forall|j: int| 0 <= j < k0.permits.len() ==> k1.permits[j] == k0.permits[j],
        k1.permits.last().campaign_id@ == campaign_id,
        k1.permits.last().generation == generation,
        k1.permits.last().idempotency_key@ == key,
    ensures
        issued_index(k1, campaign_id, generation, key) == Some(k0.permits.len() as int),
{
    let x = (campaign_id, generation, key);
    assert(issue_keys(k1.permits) =~= issue_keys(k0.permits).push(x)) by {
        assert forall|j: int| 0 <= j < k0.permits.len() implies issue_keys(k1.permits)[j]
            == issue_keys(k0.permits)[j] by {
            assert(k1.permits[j] == k0.permits[j]);
        }
    }
    lemma_index_of_push(issue_keys(k0.permits), x, x);
}

/// An event accepted under a key that had none is the one found for it afterwards.
pub proof fn lemma_key_found_last(row0: CampaignRow, row1: CampaignRow, key: Seq<char>)
    requires
        key_index(row0, key) is None,
        row1.epact_events@.len() == row0.epact_events@.len() + 1,
        forall|j: int| 0 <= j < row0.epact_events@.len() ==> row1.epact_events@[j] == row0.epact_events@[j],
        row1.epact_events@.last().idempotency_key@ == key,
    ensures
        key_index(row1, key) == Some(row0.epact_events@.len() as int),
{
    assert(event_keys(row1.epact_events@) =~= event_keys(row0.epact_events@).push(key)) by {
        assert forall|j: int| 0 <= j < row0.epact_events@.len() implies event_keys(row1.epact_events@)[j]
            == event_keys(row0.epact_events@)[j] by {
            assert(row1.epact_events@[j] == row0.epact_events@[j]);
        }
    }
    lemma_index_of_push(event_keys(row0.epact_events@), key, key);
}

/// The reason an interruption gives begins with the prefix that reconciliation clears.
pub proof fn lemma_interruption_reason_clears(token: Seq<char>)
    ensures
        interruption_prefix().is_prefix_of(interruption_reason(token)),
{
    reveal_strlit("interrupted dispatch");
    reveal_strlit("interrupted dispatch ");
    assert(interruption_reason(token).subrange(0, 20) =~= interruption_prefix());
}

/// Once the only interrupted permit of a campaign is replaced by one that is not interrupted,
/// none of its permits is interrupted.
pub proof fn lemma_last_interruption_resolved(
    k0: KernelView,
    k1: KernelView,
    k: int,
    q: PermitView,
    campaign_id: Seq<char>,
)
    requires
        permit_replaced(k0.permits, k1.permits, k, q),
        0 <= k < k0.permits.len(),
        q.status != DispatchPermitStatus::Interrupted,
        forall|j: int|
            0 <= j < k0.permits.len() && j != k ==> !(#[trigger] k0.permits[j].campaign_id@ == campaign_id
                && k0.permits[j].status == DispatchPermitStatus::Interrupted),
    ensures
        none_interrupted(k1.permits, campaign_id),
{
    assert forall|j: int| 0 <= j < k1.permits.len() implies !(#[trigger] k1.permits[j].campaign_id@
        == campaign_id && k1.permits[j].status == DispatchPermitStatus::Interrupted) by {
        if j != k {
            assert(k1.permits[j] == k0.permits[j]);
        }
    }
}

impl ReferenceKernel {
    /// Opens an empty kernel that its host persists at `path`.
    pub fn open(path: &str) -> (r: Result<ReferenceKernel, KernelError>)
        ensures
            r matches Ok(k) && k@.path == path@ && k@.campaigns.len() == 0 && k@.permits.len() == 0
                && k@.permit_times.len() == 0,
    {
        Ok(ReferenceKernel {
            path: path.to_string(),
            campaigns: Vec::new(),
            permits: Vec::new(),
            permit_times: Vec::new(),
        })
    }

    /// A kernel over tables read back from storage. Nothing is assumed of them:
    /// `verify_campaign` checks what they claim.
    /// `permit_times[k]` is when the row of permit `k` last changed.
    pub fn restore(
        path: &str,
        campaigns: Vec<CampaignRow>,
        permits: Vec<CampaignDispatchPermit>,
        permit_times: Vec<String>,
    ) -> (r: ReferenceKernel)
        ensures
            r@.path == path@,
            r@.campaigns == campaigns@,
            r@.permits == permits@,
            r@.permit_times == permit_times@,
    {
        ReferenceKernel { path: path.to_string(), campaigns, permits, permit_times }
    }

    /// The kernel's tables, handed back to its host.
    pub fn into_parts(self) -> (r: (String, Vec<CampaignRow>, Vec<CampaignDispatchPermit>, Vec<String>))
        ensures
            r.0@ == self@.path,
            r.1@ == self@.campaigns,
            r.2@ == self@.permits,
            r.3@ == self@.permit_times,
    {
        (self.path, self.campaigns, self.permits, self.permit_times)
    }

    /// Where the host persists the kernel.
    pub fn path(&self) -> (r: &str)
        ensures
            r@ == self@.path,
    {
        self.path.as_str()
    }

    /// The campaign rows, for the host to persist.
    pub fn campaign_rows(&self) -> (r: &Vec<CampaignRow>)
        ensures
            r@ == self@.campaigns,
    {
        &self.campaigns
    }

    /// The dispatch permits, for the host to persist.
    pub fn permits(&self) -> (r: &Vec<CampaignDispatchPermit>)
        ensures
            r@ == self@.permits,
    {
        &self.permits
    }

    /// When each permit's row last changed, by position, for the host to persist.
    pub fn permit_times(&self) -> (r: &Vec<String>)
        ensures
            r@ == self@.permit_times,
    {
        &self.permit_times
    }

    #[verifier::loop_isolation(false)]
    fn find_campaign(&self, id: &String) -> (r: Option<usize>)
        ensures
            match r {
                Some(i) => campaign_index(self@, id@) == Some(i as int) && i < self@.campaigns.len(),
                None => campaign_index(self@, id@) == None::<int>,
            },
    {
        let mut i: usize = 0;
        while i < self.campaigns.len()
            invariant
                i <= self.campaigns.len(),
                forall|j: int| 0 <= j < i ==> campaign_ids(self@.campaigns)[j] != id@,
            decreases self.campaigns.len() - i,
        {
            if self.campaigns[i].record.id == *id {
                proof {
                    lemma_index_of_found(campaign_ids(self@.campaigns), id@, i as int);
                }
                return Some(i);
            }
            i = i + 1;
        }
        proof {
            lemma_index_of_absent(campaign_ids(self@.campaigns), id@);
        }
        None
    }

    #[verifier::loop_isolation(false)]
    fn find_permit(&self, token: &String) -> (r: Option<usize>)
        ensures
            match r {
                Some(i) => permit_index(self@, token@) == Some(i as int) && i < self@.permits.len(),
                None => permit_index(self@, token@) == None::<int>,
            },
    {
        let mut i: usize = 0;
        while i < self.permits.len()
            invariant
                i <= self.permits.len(),
                forall|j: int| 0 <= j < i ==> permit_tokens(self@.permits)[j] != token@,
            decreases self.permits.len() - i,
        {
            if self.permits[i].token == *token {
                proof {
                    lemma_index_of_found(permit_tokens(self@.permits), token@, i as int);
                }
                return Some(i);
            }
            i = i + 1;
        }
        proof {
            lemma_index_of_absent(permit_tokens(self@.permits), token@);
        }
        None
    }

    #[verifier::loop_isolation(false)]
    fn find_issued(&self, campaign_id: &String, generation: u64, key: &String) -> (r: Option<usize>)
        ensures
            match r {
                Some(i) => issued_index(self@, campaign_id@, generation, key@) == Some(i as int)
                    && i < self@.permits.len(),
                None => issued_index(self@, campaign_id@, generation, key@) == None::<int>,
            },
    {
        let mut i: usize = 0;
        while i < self.permits.len()
            invariant
                i <= self.permits.len(),
                forall|j: int| 0 <= j < i ==> issue_keys(self@.permits)[j] != (campaign_id@, generation, key@),
            decreases self.permits.len() - i,
        {
            if self.permits[i].campaign_id == *campaign_id && self.permits[i].generation == generation
                && self.permits[i].idempotency_key == *key {
                proof {
                    lemma_index_of_found(issue_keys(self@.permits), (campaign_id@, generation, key@), i as int);
                }
                return Some(i);
            }
            i = i + 1;
        }
        proof {
            lemma_index_of_absent(issue_keys(self@.permits), (campaign_id@, generation, key@));
        }
        None
    }

    /// The campaign with this identifier.
    pub fn campaign(&self, campaign_id: &str) -> (r: Result<CampaignRecord, KernelError>)
        ensures
            match campaign_index(self@, campaign_id@) {
                Some(i) => r matches Ok(c) && c@ == self@.campaigns[i].record@,
                None => r matches Err(e) && e is NotFound,
            },
    {
        let id = campaign_id.to_string();
        match self.find_campaign(&id) {
            Some(i) => Ok(self.campaigns[i].record.copy()),
            None => {
                let mut message = "campaign ".to_string();
                message.append(campaign_id);
                Err(KernelError::NotFound(message))
            },
        }
    }

    /// The dispatch permit with this token.
    pub fn permit(&self, token: &str) -> (r: Result<CampaignDispatchPermit, KernelError>)
        ensures
            match permit_index(self@, token@) {
                Some(i) => r matches Ok(p) && p@ == self@.permits[i]@,
                None => r matches Err(e) && e is NotFound,
            },
    {
        let t = token.to_string();
        match self.find_permit(&t) {
            Some(i) => Ok(self.permits[i].copy()),
            None => {
                let mut message = "dispatch permit ".to_string();
                message.append(token);
                Err(KernelError::NotFound(message))
            },
        }
    }

    /// Opens a campaign at time `now`; repeating an identical request returns the campaign.
    pub fn create_campaign_at(&mut self, request: CreateCampaignRequest, now: &String) -> (r: Result<
        CampaignRecord,
        KernelError,
    >)
        ensures
            create_campaign_post(old(self)@, request, now@, final(self)@, r),
            kernel_well_formed(old(self)@) ==> kernel_well_formed(final(self)@),
    {
        match validate_text("campaign id", request.id.as_str(), 240) {
            Ok(()) => {},
            Err(e) => {
                return Err(e);
            },
        }
        match validate_text("campaign name", request.name.as_str(), 240) {
            Ok(()) => {},
            Err(e) => {
                return Err(e);
            },
        }
        match validate_text("campaign objective", request.objective.as_str(), 8000) {
            Ok(()) => {},
            Err(e) => {
                return Err(e);
            },
        }
        match self.find_campaign(&request.id) {
            Some(i) => {
                let existing = &self.campaigns[i].record;
                if existing.name == request.name && existing.objective == request.objective
                    && existing.program_image_sha256 == request.image.image_sha256 {
                    return Ok(existing.copy());
                }
                let mut message = "campaign ".to_string();
                message.append(request.id.as_str());
                message.append(" already exists with different content");
                return Err(KernelError::Conflict(message));
            },
            None => {},
        }
        let reconciliation = reconciliation_sha256(
            &request.id,
            &request.name,
            &request.objective,
            1,
            &request.image.image_sha256,
        );
        let payload = campaign_payload_json(
            &request.id,
            &request.name,
            &request.objective,
            &request.image.image_sha256,
        );
        let actor = request.image.created_by.clone();
        let subject = request.image.image_sha256.clone();
        let ghost req = request;
        let CreateCampaignRequest { id, name, objective, image } = request;
        let record = CampaignRecord {
            id,
            name,
            objective,
            generation: 1,
            status: CampaignStatus::Open,
            blocked_reason: None,
            program_image_sha256: subject.clone(),
            reconciliation_sha256: reconciliation,
            event_head_sha256: None,
            created_at: now.clone(),
            updated_at: now.clone(),
        };
        let row = CampaignRow {
            record,
            image,
            epact_events: Vec::new(),
            budgets: Vec::new(),
            kernel_events: Vec::new(),
        };
        let ghost fresh = row;
        self.campaigns.push(row);
        let i = self.campaigns.len() - 1;
        proof {
            assert(self@.campaigns[i as int] == fresh);
        }
        self.append_kernel_event(
            i,
            KernelEventKind::CampaignCreated,
            actor.as_str(),
            subject.as_str(),
            &payload,
            now,
        );
        proof {
            let after = self@.campaigns[i as int];
            assert(after.kernel_events@.len() == 1);
            assert(after.kernel_events@[0] == after.kernel_events@.last());
            if kernel_well_formed(old(self)@) {
                assert(row_well_formed(fresh)) by {
                    assert(fresh.kernel_events@ =~= Seq::<KernelEvent>::empty());
                }
                lemma_appended_keeps_row(
                    fresh,
                    after,
                    KernelEventKind::CampaignCreated,
                    trim(actor@),
                    subject@,
                    payload@,
                    now@,
                );
                assert forall|j: int| 0 <= j < self@.campaigns.len() implies row_well_formed(
                    #[trigger] self@.campaigns[j],
                ) by {
                    if j < i {
                        assert(self@.campaigns[j] == old(self)@.campaigns[j]);
                    }
                }
            }
        }
        Ok(self.campaigns[i].record.copy())
    }

    /// Opens a campaign at the current time.
    pub fn create_campaign(&mut self, request: CreateCampaignRequest) -> (r: Result<
        CampaignRecord,
        KernelError,
    >)
        ensures
            exists|now: Seq<char>| create_campaign_post(old(self)@, request, now, final(self)@, r),
    {
        let now = canonical_now_text();
        self.create_campaign_at(request, &now)
    }

    /// Creates a budget for a campaign at time `now`; repeating it with the same total returns it.
    pub fn create_budget_at(&mut self, campaign_id: &str, request: &CreateBudgetRequest, now: &String) -> (r: Result<
        BudgetRecord,
        KernelError,
    >)
        ensures
            create_budget_post(old(self)@, campaign_id@, *request, now@, final(self)@, r),
            kernel_well_formed(old(self)@) ==> kernel_well_formed(final(self)@),
    {
        match validate_text("budget id", request.id.as_str(), 160) {
            Ok(()) => {},
            Err(e) => {
                return Err(e);
            },
        }
        let id = campaign_id.to_string();
        let i = match self.find_campaign(&id) {
            Some(i) => i,
            None => {
                let mut message = "campaign ".to_string();
                message.append(campaign_id);
                return Err(KernelError::NotFound(message));
            },
        };
        match find_budget(&self.campaigns[i], &request.id) {
            Some(j) => {
                let existing = &self.campaigns[i].budgets[j];
                if existing.total_microusd == request.total_microusd {
                    return Ok(existing.copy());
                }
                let mut message = "budget ".to_string();
                message.append(request.id.as_str());
                message.append(" already exists with a different total");
                return Err(KernelError::Conflict(message));
            },
            None => {},
        }
        let budget = BudgetRecord {
            id: request.id.clone(),
            campaign_id: id,
            total_microusd: request.total_microusd,
            spent_microusd: 0,
            exposure_microusd: 0,
            available_microusd: request.total_microusd as i128,
            updated_at: now.clone(),
        };
        let result = budget.copy();
        let ghost before = self@;
        self.campaigns[i].budgets.push(budget);
        let ghost mid = self@;
        let payload = budget_payload_json(&request.id, request.total_microusd);
        self.append_kernel_event(
            i,
            KernelEventKind::BudgetCreated,
            "operator",
            request.id.as_str(),
            &payload,
            now,
        );
        proof {
            let row = before.campaigns[i as int];
            let changed = self@.campaigns[i as int];
            assert(mid.campaigns[i as int] == CampaignRow { budgets: changed.budgets, ..row });
            assert(changed.budgets@.last() == mid.campaigns[i as int].budgets@.last());
            assert forall|j: int| 0 <= j < before.campaigns.len() && j != i implies self@.campaigns[j]
                == before.campaigns[j] by {
                assert(mid.campaigns[j] == before.campaigns[j]);
            }
            if kernel_well_formed(before) {
                assert(row_well_formed(mid.campaigns[i as int])) by {
                    let m = mid.campaigns[i as int];
                    assert(row_well_formed(row));
                    assert forall|k: int| 0 <= k < m.budgets@.len() implies budget_balanced(
                        #[trigger] m.budgets@[k],
                    ) by {
                        if k < row.budgets@.len() {
                            assert(m.budgets@[k] == row.budgets@[k]);
                        }
                    }
                }
                lemma_appended_keeps_row(
                    mid.campaigns[i as int],
                    changed,
                    KernelEventKind::BudgetCreated,
                    trim("operator"@),
                    request.id@,
                    payload@,
                    now@,
                );
                lemma_row_change_keeps_kernel(before, self@, i as int);
            }
        }
        Ok(result)
    }

    /// Creates a budget for a campaign at the current time.
    pub fn create_budget(&mut self, campaign_id: &str, request: &CreateBudgetRequest) -> (r: Result<
        BudgetRecord,
        KernelError,
    >)
        ensures
            exists|now: Seq<char>| create_budget_post(old(self)@, campaign_id@, *request, now, final(self)@, r),
    {
        let now = canonical_now_text();
        self.create_budget_at(campaign_id, request, &now)
    }

    /// Accepts one Epact event into a campaign's history at time `now`, if replay accepts it;
    /// repeating an accepted event returns the projection unchanged.
    #[verifier::spinoff_prover]
    #[verifier::rlimit(40)]
    pub fn accept_epact_event_at(&mut self, campaign_id: &str, event: EpactRuntimeEvent, now: &String) -> (r: Result<
        EpactRuntimeState,
        KernelError,
    >)
        ensures
            accept_event_post(old(self)@, campaign_id@, event, now@, final(self)@, r),
            kernel_well_formed(old(self)@) ==> kernel_well_formed(final(self)@),
    {
        let id = campaign_id.to_string();
        let i = match self.find_campaign(&id) {
            Some(i) => i,
            None => {
                let mut message = "campaign ".to_string();
                message.append(campaign_id);
                return Err(KernelError::NotFound(message));
            },
        };
        if !(event.program_image_sha256 == self.campaigns[i].record.program_image_sha256) {
            return Err(
                KernelError::Conflict("Epact event targets a different active image".to_string()),
            );
        }
        let n = self.campaigns[i].epact_events.len();
        if n as u64 >= u64::MAX - 1 {
            return Err(KernelError::Contract("Epact sequence exceeds the kernel's range".to_string()));
        }
        match find_key(&self.campaigns[i], &event.idempotency_key) {
            Some(j) => {
                if !(self.campaigns[i].epact_events[j].event_sha256 == event.event_sha256) {
                    return Err(
                        KernelError::Conflict(
                            "Epact idempotency key was reused for a different event".to_string(),
                        ),
                    );
                }
                return match replay_epact_events(&self.campaigns[i].image, &self.campaigns[i].epact_events) {
                    Ok(state) => Ok(state),
                    Err(_) => Err(KernelError::Contract("Epact replay refused the recorded history".to_string())),
                };
            },
            None => {},
        }
        let ghost before = self@;
        let ghost row = self@.campaigns[i as int];
        proof {
            lemma_replay_push(row.image, row.epact_events@, event);
        }
        let mut state = match replay_epact_events(&self.campaigns[i].image, &self.campaigns[i].epact_events) {
            Ok(state) => state,
            Err(_) => {
                return Err(KernelError::AuthorityDenied("Epact replay refused the event".to_string()));
            },
        };
        match replay_next(&self.campaigns[i].image, &mut state, &self.campaigns[i].epact_events, &event) {
            Ok(()) => {},
            Err(_) => {
                return Err(KernelError::AuthorityDenied("Epact replay refused the event".to_string()));
            },
        }
        let payload = epact_payload_json(&event);
        let actor = event.actor.clone();
        let subject = event.id.clone();
        self.campaigns[i].epact_events.push(event);
        let ghost mid = self@;
        self.append_kernel_event(
            i,
            KernelEventKind::EpactEventAccepted,
            actor.as_str(),
            subject.as_str(),
            &payload,
            now,
        );
        proof {
            let changed = self@.campaigns[i as int];
            assert(mid.campaigns[i as int] == CampaignRow { epact_events: changed.epact_events, ..row });
            assert forall|j: int| 0 <= j < before.campaigns.len() && j != i implies self@.campaigns[j]
                == before.campaigns[j] by {
                assert(mid.campaigns[j] == before.campaigns[j]);
            }
            if kernel_well_formed(before) {
                assert(row_well_formed(row));
                lemma_appended_keeps_row(
                    mid.campaigns[i as int],
                    changed,
                    KernelEventKind::EpactEventAccepted,
                    trim(actor@),
                    subject@,
                    payload@,
                    now@,
                );
                lemma_row_change_keeps_kernel(before, self@, i as int);
            }
        }
        Ok(state)
    }

    /// Accepts one Epact event into a campaign's history at the current time.
    pub fn accept_epact_event(&mut self, campaign_id: &str, event: EpactRuntimeEvent) -> (r: Result<
        EpactRuntimeState,
        KernelError,
    >)
        ensures
            exists|now: Seq<char>| accept_event_post(old(self)@, campaign_id@, event, now, final(self)@, r),
    {
        let now = canonical_now_text();
        self.accept_epact_event_at(campaign_id, event, &now)
    }

    #[verifier::spinoff_prover]
    #[verifier::rlimit(40)]
    /// Issues single-use dispatch authority for campaign `campaign_id` at UNIX time `now`, under
    /// the fresh `token`. The campaign must be open at the requested generation, the dispatch
    /// must be bound to an Epact obligation the image allows now, and a named budget must have
    /// the ceiling available, which is reserved when asked. Repeating a request returns the
    /// permit it issued. The request is taken as given beyond these checks: the model-protocol
    /// validation of request fields is not part of this kernel.
    pub fn authorize_campaign_dispatch_at(
        &mut self,
        campaign_id: &str,
        request: &AuthorizeCampaignDispatchRequest,
        now: i64,
        token: String,
    ) -> (r: Result<CampaignDispatchPermit, KernelError>)
        ensures
            authorize_post(old(self)@, campaign_id@, *request, now, token@, final(self)@, r),
            kernel_well_formed(old(self)@) ==> kernel_well_formed(final(self)@),
    {
        if request.budget_pre_reserved {
            return Err(
                KernelError::Contract(
                    "the reference kernel does not accept opaque pre-reservations".to_string(),
                ),
            );
        }
        let now_text = match format_rfc3339(now) {
            Some(text) => text,
            None => {
                return Err(KernelError::Contract("elapsed limit is too large".to_string()));
            },
        };
        if request.maximum_elapsed_seconds > i64::MAX as u64 {
            return Err(KernelError::Contract("elapsed limit is too large".to_string()));
        }
        let deadline_seconds = match now.checked_add(request.maximum_elapsed_seconds as i64) {
            Some(d) => d,
            None => {
                return Err(KernelError::Contract("elapsed limit is too large".to_string()));
            },
        };
        let deadline = match format_rfc3339(deadline_seconds) {
            Some(text) => text,
            None => {
                return Err(KernelError::Contract("elapsed limit is too large".to_string()));
            },
        };
        let id = campaign_id.to_string();
        let i = match self.find_campaign(&id) {
            Some(i) => i,
            None => {
                let mut message = "campaign ".to_string();
                message.append(campaign_id);
                return Err(KernelError::NotFound(message));
            },
        };
        if self.campaigns[i].record.status == CampaignStatus::Blocked {
            let reason = match &self.campaigns[i].record.blocked_reason {
                Some(reason) => reason.clone(),
                None => "campaign is blocked".to_string(),
            };
            return Err(KernelError::AuthorityDenied(reason));
        }
        if self.campaigns[i].record.generation != request.generation {
            let mut message = "campaign generation is ".to_string();
            push_decimal(&mut message, self.campaigns[i].record.generation);
            message.append(", request uses ");
            push_decimal(&mut message, request.generation);
            return Err(KernelError::Conflict(message));
        }
        match self.find_issued(&id, request.generation, &request.idempotency_key) {
            Some(k) => {
                if permit_matches(&self.permits[k], &id, request) {
                    return Ok(self.permits[k].copy());
                }
                return Err(
                    KernelError::Conflict(
                        "dispatch idempotency key was reused for different authority".to_string(),
                    ),
                );
            },
            None => {},
        }
        let binding = match &request.epact {
            Some(b) => b,
            None => {
                return Err(
                    KernelError::AuthorityDenied(
                        "the public kernel requires every dispatch to bind an Epact obligation".to_string(),
                    ),
                );
            },
        };
        if !(binding.program_image_sha256 == self.campaigns[i].record.program_image_sha256) {
            return Err(
                KernelError::Conflict(
                    "dispatch binding targets a different active Epact image".to_string(),
                ),
            );
        }
        if self.campaigns[i].epact_events.len() as u64 == u64::MAX {
            return Err(KernelError::Integrity("Epact history exceeds the kernel's range".to_string()));
        }
        let state = match replay_epact_events(&self.campaigns[i].image, &self.campaigns[i].epact_events) {
            Ok(state) => state,
            Err(_) => {
                return Err(KernelError::Integrity("Epact replay refused the recorded history".to_string()));
            },
        };
        let ghost before = self@;
        let ghost (now_v, deadline_v, token_v) = (now_text@, deadline@, token@);
        let result = self.authorize_with_epact(i, request, binding, &state, now_text, deadline, token);
        proof {
            let row = before.campaigns[i as int];
            assert(request.epact == Some(*binding));
            assert(replay_view(row.image, row.epact_events@, row.epact_events@.len()) == Ok::<RuntimeView, ErrorView>(state@));
            let op = choose|op: EpactOperationRequest|
                #[trigger] operation_for(op, *request, *binding, now_v) && epact_decision(before, i as int, *request, state@, op, token_v, now_v, deadline_v, self@, result);
            assert(operation_for(op, *request, *binding, now_v));
            let b2 = request.epact->Some_0;
            assert(b2 == *binding);
            let nt = rfc3339_utc(now as int).unwrap();
            assert(nt == now_v);
            let dl = rfc3339_utc(now + request.maximum_elapsed_seconds).unwrap();
            assert(dl == deadline_v);
            let i2 = campaign_index(old(self)@, campaign_id@).unwrap();
            assert(i2 == i);
            let st2 = replay_view(old(self)@.campaigns[i2].image, old(self)@.campaigns[i2].epact_events@, old(self)@.campaigns[i2].epact_events@.len())->Ok_0;
            assert(st2 == state@);
            assert(operation_for(op, *request, b2, nt));
            assert(epact_decision(old(self)@, i2, *request, st2, op, token_v, nt, dl, self@, result));
            assert(exists|o: EpactOperationRequest| #[trigger] operation_for(o, *request, b2, nt) && epact_decision(old(self)@, i2, *request, st2, o, token_v, nt, dl, self@, result));
            assert(authorize_post(old(self)@, campaign_id@, *request, now, token_v, self@, result));
        }
        result
    }

    /// Issues single-use dispatch authority at the current time under a fresh random token.
    pub fn authorize_campaign_dispatch(
        &mut self,
        campaign_id: &str,
        request: &AuthorizeCampaignDispatchRequest,
    ) -> (r: Result<CampaignDispatchPermit, KernelError>)
        ensures
            exists|now: i64, token: Seq<char>|
                rfc3339_utc(now as int) is Some && token.len() == 41 && token.subrange(0, 9) == "dispatch_"@
                    && #[trigger] authorize_post(old(self)@, campaign_id@, *request, now, token, final(self)@, r),
    {
        let now = utc_now_seconds();
        let token = fresh_dispatch_token();
        self.authorize_campaign_dispatch_at(campaign_id, request, now, token)
    }

    /// Evaluates the dispatch's Epact operation and budget, then issues the permit.
    fn authorize_with_epact(
        &mut self,
        i: usize,
        request: &AuthorizeCampaignDispatchRequest,
        binding: &EpactDispatchBinding,
        state: &EpactRuntimeState,
        now_text: String,
        deadline: String,
        token: String,
    ) -> (r: Result<CampaignDispatchPermit, KernelError>)
        requires
            i < old(self)@.campaigns.len(),
            request.epact == Some(*binding),
        ensures
            exists|op: EpactOperationRequest|
                #[trigger] operation_for(op, *request, *binding, now_text@) && epact_decision(
                    old(self)@,
                    i as int,
                    *request,
                    state@,
                    op,
                    token@,
                    now_text@,
                    deadline@,
                    final(self)@,
                    r,
                ),
            kernel_well_formed(old(self)@) ==> kernel_well_formed(final(self)@),
    {
        let op = EpactOperationRequest {
            principal_id: trim_text(request.actor.as_str()),
            operation: binding.operation,
            requested_at: now_text.clone(),
            obligation_id: Some(binding.obligation_id.clone()),
            capability_id: copy_opt_text(&binding.capability_id),
            effects: clone_texts(&binding.effects),
            resources: binding.resources,
        };
        assert(operation_for(op, *request, *binding, now_text@));
        let ghost before = self@;
        let ghost (token_v, now_v, deadline_v) = (token@, now_text@, deadline@);
        let eligibility = match evaluate_epact_operation(&self.campaigns[i].image, state, &op) {
            Ok(eligibility) => eligibility,
            Err(_) => {
                let refused = Err(KernelError::Contract("Epact evaluation refused the projection".to_string()));
                proof {
                    assert(epact_decision(before, i as int, *request, state@, op, token_v, now_v, deadline_v, self@, refused));
                }
                return refused;
            },
        };
        if !eligibility.allowed {
            let denied = Err(KernelError::AuthorityDenied(blocker_message(&eligibility.blockers)));
            proof {
                let b0 = eligibility.blockers@[0]@;
                assert(blocker_views(eligibility.blockers@)[0] == b0);
                assert(has_blocker(eligibility.blockers@, b0));
                assert(expected_blocker(before.campaigns[i as int].image, state@, op, b0));
                assert(epact_decision(before, i as int, *request, state@, op, token_v, now_v, deadline_v, self@, denied));
            }
            return denied;
        }
        proof {
            assert forall|b: BlockerView| !#[trigger] expected_blocker(before.campaigns[i as int].image, state@, op, b) by {
                if expected_blocker(before.campaigns[i as int].image, state@, op, b) {
                    assert(has_blocker(eligibility.blockers@, b));
                    assert(blocker_views(eligibility.blockers@).len() == 0);
                }
            }
        }
        let reserve_index: Option<usize> = match &request.budget_id {
            None => None,
            Some(budget_id) => {
                let j = match find_budget(&self.campaigns[i], budget_id) {
                    Some(j) => j,
                    None => {
                        let mut message = "budget ".to_string();
                        message.append(budget_id.as_str());
                        let missing = Err(KernelError::NotFound(message));
                        proof {
                            assert(epact_decision(before, i as int, *request, state@, op, token_v, now_v, deadline_v, self@, missing));
                        }
                        return missing;
                    },
                };
                let b = &self.campaigns[i].budgets[j];
                let available: i128 = b.total_microusd as i128 - b.spent_microusd as i128
                    - b.exposure_microusd as i128;
                if request.maximum_cost_microusd as i128 > available {
                    let denied = Err(
                        KernelError::AuthorityDenied(
                            "dispatch ceiling exceeds budget availability".to_string(),
                        ),
                    );
                    proof {
                        assert(epact_decision(before, i as int, *request, state@, op, token_v, now_v, deadline_v, self@, denied));
                    }
                    return denied;
                }
                if request.reserve_budget {
                    Some(j)
                } else {
                    None
                }
            },
        };
        let issued = self.issue_permit(i, request, reserve_index, now_text, deadline, token);
        proof {
            assert(epact_decision(before, i as int, *request, state@, op, token_v, now_v, deadline_v, self@, issued));
        }
        issued
    }

    /// Reserves the budget at `reserve`, issues the permit and records it.
    #[verifier::spinoff_prover]
    #[verifier::rlimit(40)]
    fn issue_permit(
        &mut self,
        i: usize,
        request: &AuthorizeCampaignDispatchRequest,
        reserve: Option<usize>,
        now_text: String,
        deadline: String,
        token: String,
    ) -> (r: Result<CampaignDispatchPermit, KernelError>)
        requires
            i < old(self)@.campaigns.len(),
            match request.budget_id {
                Some(id) if request.reserve_budget => reserve matches Some(j) && budget_index(
                    old(self)@.campaigns[i as int],
                    id@,
                ) == Some(j as int) && j < old(self)@.campaigns[i as int].budgets@.len(),
                _ => reserve is None,
            },
        ensures
            issue_post(old(self)@, i as int, *request, token@, now_text@, deadline@, final(self)@, r),
            kernel_well_formed(old(self)@) ==> kernel_well_formed(final(self)@),
    {
        if self.find_permit(&token).is_some() {
            return Err(KernelError::Storage("dispatch permit token already exists".to_string()));
        }
        let ghost before = self@;
        match reserve {
            Some(j) => {
                let budget = &mut self.campaigns[i].budgets[j];
                let exposure = budget.exposure_microusd.saturating_add(request.maximum_cost_microusd);
                budget.exposure_microusd = exposure;
                budget.available_microusd = budget.total_microusd as i128 - budget.spent_microusd as i128
                    - exposure as i128;
                budget.updated_at = now_text.clone();
            },
            None => {},
        }
        let ghost mid = self@;
        let subject = token.clone();
        let permit = CampaignDispatchPermit {
            contract: CAMPAIGN_DISPATCH_PERMIT_CONTRACT.to_string(),
            token,
            campaign_id: self.campaigns[i].record.id.clone(),
            generation: request.generation,
            idempotency_key: request.idempotency_key.clone(),
            actor: trim_text(request.actor.as_str()),
            operation: request.operation,
            target_id: trim_text(request.target_id.as_str()),
            budget_id: copy_opt_text(&request.budget_id),
            maximum_cost_microusd: request.maximum_cost_microusd,
            reserve_budget: request.reserve_budget,
            budget_pre_reserved: false,
            epact: copy_opt_binding(&request.epact),
            reconciliation_sha256: self.campaigns[i].record.reconciliation_sha256.clone(),
            status: DispatchPermitStatus::Authorized,
            issued_at: now_text.clone(),
            deadline_at: deadline,
            consumed_at: None,
            settled_at: None,
            actual_cost_microusd: None,
            settlement_basis: None,
            interruption: None,
            released_at: None,
            resolution_evidence_sha256: None,
            resolved_by: None,
        };
        let payload = permit.canonical_json();
        let actor = permit.actor.clone();
        let result = permit.copy();
        self.permits.push(permit);
        self.permit_times.push(now_text.clone());
        let ghost pushed = self@;
        self.append_kernel_event(
            i,
            KernelEventKind::DispatchAuthorized,
            actor.as_str(),
            subject.as_str(),
            &payload,
            &now_text,
        );
        proof {
            let row = before.campaigns[i as int];
            let changed = self@.campaigns[i as int];
            assert(self@.permits == pushed.permits);
            assert(self@.permit_times.drop_last() =~= before.permit_times);
            assert(self@.permits.last() == pushed.permits.last());
            assert(mid.campaigns[i as int] == CampaignRow { budgets: changed.budgets, ..row });
            assert forall|j: int| 0 <= j < before.campaigns.len() && j != i implies self@.campaigns[j]
                == before.campaigns[j] by {
                assert(mid.campaigns[j] == before.campaigns[j]);
                assert(pushed.campaigns[j] == mid.campaigns[j]);
            }
            if kernel_well_formed(before) {
                assert(row_well_formed(row));
                let m = mid.campaigns[i as int];
                assert forall|k: int| 0 <= k < m.budgets@.len() implies budget_balanced(
                    #[trigger] m.budgets@[k],
                ) by {
                    if reserve != Some(k as usize) {
                        assert(m.budgets@[k] == row.budgets@[k]);
                    }
                }
                lemma_appended_keeps_row(
                    m,
                    changed,
                    KernelEventKind::DispatchAuthorized,
                    trim(actor@),
                    subject@,
                    payload@,
                    now_text@,
                );
                lemma_row_change_keeps_kernel(before, self@, i as int);
            }
        }
        Ok(result)
    }

    /// Consumes an authorized permit at UNIX time `now`, before its deadline, while its campaign
    /// is open at the permit's generation and reconciliation.
    #[verifier::spinoff_prover]
    #[verifier::rlimit(40)]
    pub fn consume_campaign_dispatch_at(&mut self, token: &str, now: i64) -> (r: Result<
        CampaignDispatchPermit,
        KernelError,
    >)
        ensures
            consume_post(old(self)@, token@, now, final(self)@, r),
            kernel_well_formed(old(self)@) ==> kernel_well_formed(final(self)@),
    {
        let now_text = match format_rfc3339(now) {
            Some(text) => text,
            None => {
                return Err(KernelError::Contract("the clock is outside the representable range".to_string()));
            },
        };
        let t = token.to_string();
        let k = match self.find_permit(&t) {
            Some(k) => k,
            None => {
                let mut message = "dispatch permit ".to_string();
                message.append(token);
                return Err(KernelError::NotFound(message));
            },
        };
        if self.permits[k].status != DispatchPermitStatus::Authorized {
            return Err(KernelError::Conflict("dispatch permit is not awaiting consumption".to_string()));
        }
        let deadline = match parse_rfc3339_instant(self.permits[k].deadline_at.as_str()) {
            Some((seconds, _)) => seconds,
            None => {
                return Err(KernelError::Integrity("dispatch permit deadline is not RFC 3339".to_string()));
            },
        };
        if deadline <= now {
            return Err(KernelError::AuthorityDenied("dispatch permit expired before consumption".to_string()));
        }
        let campaign_id = self.permits[k].campaign_id.clone();
        let i = match self.find_campaign(&campaign_id) {
            Some(i) => i,
            None => {
                let mut message = "campaign ".to_string();
                message.append(campaign_id.as_str());
                return Err(KernelError::NotFound(message));
            },
        };
        if self.campaigns[i].record.status == CampaignStatus::Blocked || self.campaigns[i].record.generation
            != self.permits[k].generation || !(self.campaigns[i].record.reconciliation_sha256
            == self.permits[k].reconciliation_sha256) {
            return Err(
                KernelError::AuthorityDenied(
                    "dispatch permit is no longer bound to an open campaign generation".to_string(),
                ),
            );
        }
        let ghost before = self@;
        self.permits[k].status = DispatchPermitStatus::Consumed;
        self.permits[k].consumed_at = Some(now_text.clone());
        self.stamp_permit(k, &now_text);
        let ghost mid = self@;
        let payload = self.permits[k].canonical_json();
        let actor = self.permits[k].actor.clone();
        self.append_kernel_event(i, KernelEventKind::DispatchConsumed, actor.as_str(), token, &payload, &now_text);
        proof {
            assert(mid.campaigns == before.campaigns);
            if kernel_well_formed(before) {
                lemma_campaign_logged_keeps_kernel(
                    before,
                    self@,
                    i as int,
                    None,
                    before.campaigns[i as int].record@,
                    KernelEventKind::DispatchConsumed,
                    trim(actor@),
                    token@,
                    payload@,
                    now_text@,
                );
            }
        }
        Ok(self.permits[k].copy())
    }

    /// Consumes an authorized permit at the current time.
    pub fn consume_campaign_dispatch(&mut self, token: &str) -> (r: Result<CampaignDispatchPermit, KernelError>)
        ensures
            exists|now: i64| rfc3339_utc(now as int) is Some && #[trigger] consume_post(old(self)@, token@, now, final(self)@, r),
    {
        let now = utc_now_seconds();
        self.consume_campaign_dispatch_at(token, now)
    }

    /// Interrupts a consumed permit at `now`, blocking its campaign until the interruption is
    /// reconciled; repeating it returns the interrupted permit.
    #[verifier::spinoff_prover]
    #[verifier::rlimit(40)]
    pub fn interrupt_campaign_dispatch_at(&mut self, token: &str, reason: &str, now: &String) -> (r: Result<
        CampaignDispatchPermit,
        KernelError,
    >)
        ensures
            interrupt_post(old(self)@, token@, reason@, now@, final(self)@, r),
            kernel_well_formed(old(self)@) ==> kernel_well_formed(final(self)@),
    {
        match validate_text("interruption reason", reason, 2000) {
            Ok(()) => {},
            Err(e) => {
                return Err(e);
            },
        }
        let t = token.to_string();
        let k = match self.find_permit(&t) {
            Some(k) => k,
            None => {
                let mut message = "dispatch permit ".to_string();
                message.append(token);
                return Err(KernelError::NotFound(message));
            },
        };
        if self.permits[k].status == DispatchPermitStatus::Interrupted {
            return Ok(self.permits[k].copy());
        }
        if self.permits[k].status != DispatchPermitStatus::Consumed {
            return Err(
                KernelError::Conflict("only a consumed dispatch can become interrupted".to_string()),
            );
        }
        let campaign_id = self.permits[k].campaign_id.clone();
        let i = match self.find_campaign(&campaign_id) {
            Some(i) => i,
            None => {
                let mut message = "campaign ".to_string();
                message.append(campaign_id.as_str());
                return Err(KernelError::NotFound(message));
            },
        };
        let ghost before = self@;
        self.permits[k].status = DispatchPermitStatus::Interrupted;
        self.permits[k].interruption = Some(trim_text(reason));
        self.stamp_permit(k, now);
        let mut block_reason = "interrupted dispatch ".to_string();
        block_reason.append(token);
        block_reason.append(" requires reconciliation");
        proof {
            reveal_strlit("interrupted dispatch ");
            reveal_strlit(" requires reconciliation");
        }
        assert(block_reason@ == interruption_reason(token@));
        self.block_campaign(i, block_reason, now);
        let ghost mid = self@;
        let payload = self.permits[k].canonical_json();
        let actor = self.permits[k].actor.clone();
        self.append_kernel_event(i, KernelEventKind::DispatchInterrupted, actor.as_str(), token, &payload, now);
        proof {
            let changed = self@.campaigns[i as int];
            assert(changed.budgets == before.campaigns[i as int].budgets);
            if kernel_well_formed(before) {
                lemma_campaign_logged_keeps_kernel(
                    before,
                    self@,
                    i as int,
                    None,
                    blocked(before.campaigns[i as int].record@, interruption_reason(token@), now@),
                    KernelEventKind::DispatchInterrupted,
                    trim(actor@),
                    token@,
                    payload@,
                    now@,
                );
            }
        }
        Ok(self.permits[k].copy())
    }

    /// Interrupts a consumed permit at the current time.
    pub fn interrupt_campaign_dispatch(&mut self, token: &str, reason: &str) -> (r: Result<
        CampaignDispatchPermit,
        KernelError,
    >)
        ensures
            exists|now: Seq<char>| interrupt_post(old(self)@, token@, reason@, now, final(self)@, r),
    {
        let now = canonical_now_text();
        self.interrupt_campaign_dispatch_at(token, reason, &now)
    }


    /// Finds the budget a reserving permit `k` holds exposure against in campaign `found`.
    fn locate_reservation(&self, k: usize, found: Option<usize>) -> (r: Result<Option<usize>, KernelError>)
        requires
            k < self@.permits.len(),
            match found {
                Some(i) => campaign_index(self@, self@.permits[k as int].campaign_id@) == Some(i as int)
                    && i < self@.campaigns.len(),
                None => campaign_index(self@, self@.permits[k as int].campaign_id@) is None,
            },
        ensures
            match r {
                Err(e) => e is Integrity && reservation_lost(self@, self@.permits[k as int]@),
                Ok(target) => !reservation_lost(self@, self@.permits[k as int]@) && match target {
                    Some(j) => self@.permits[k as int].reserve_budget && (found matches Some(i)
                        && reserved_budget(self@, i as int, self@.permits[k as int]@) == Some(j as int)
                        && j < self@.campaigns[i as int].budgets@.len()),
                    None => !self@.permits[k as int].reserve_budget,
                },
            },
    {
        if !self.permits[k].reserve_budget {
            return Ok(None);
        }
        let lost = Err(KernelError::Integrity("reserved permit references a missing budget".to_string()));
        match found {
            None => lost,
            Some(i) => match &self.permits[k].budget_id {
                None => lost,
                Some(budget_id) => match find_budget(&self.campaigns[i], budget_id) {
                    Some(j) => Ok(Some(j)),
                    None => lost,
                },
            },
        }
    }

    /// Settles a consumed or interrupted permit for `actual` micro-USD at `now`: the reserved
    /// budget is charged and its reservation released, a settlement over the ceiling blocks the
    /// campaign, and settling an interruption may reopen it. Repeating the settlement returns it.
    #[verifier::spinoff_prover]
    #[verifier::rlimit(40)]
    pub fn settle_campaign_dispatch_at(
        &mut self,
        token: &str,
        actual_cost_microusd: u64,
        settlement_basis: &str,
        now: &String,
    ) -> (r: Result<CampaignDispatchPermit, KernelError>)
        ensures
            settle_post(old(self)@, token@, actual_cost_microusd, settlement_basis@, now@, final(self)@, r),
            kernel_well_formed(old(self)@) ==> kernel_well_formed(final(self)@),
    {
        match validate_text("settlement basis", settlement_basis, 240) {
            Ok(()) => {},
            Err(e) => {
                return Err(e);
            },
        }
        let t = token.to_string();
        let k = match self.find_permit(&t) {
            Some(k) => k,
            None => {
                let mut message = "dispatch permit ".to_string();
                message.append(token);
                return Err(KernelError::NotFound(message));
            },
        };
        let basis = trim_text(settlement_basis);
        let previous = self.permits[k].status;
        if previous == DispatchPermitStatus::Settled {
            let same_cost = match self.permits[k].actual_cost_microusd {
                Some(cost) => cost == actual_cost_microusd,
                None => false,
            };
            let same_basis = match &self.permits[k].settlement_basis {
                Some(b) => *b == basis,
                None => false,
            };
            if same_cost && same_basis {
                return Ok(self.permits[k].copy());
            }
            return Err(
                KernelError::Conflict("settlement was repeated with different accounting".to_string()),
            );
        }
        if previous != DispatchPermitStatus::Consumed && previous != DispatchPermitStatus::Interrupted {
            return Err(KernelError::Conflict("dispatch permit is not in a settleable state".to_string()));
        }
        let campaign_id = self.permits[k].campaign_id.clone();
        let found = self.find_campaign(&campaign_id);
        let target = match self.locate_reservation(k, found) {
            Ok(target) => target,
            Err(e) => {
                return Err(e);
            },
        };
        let i = match found {
            Some(i) => i,
            None => {
                let mut message = "campaign ".to_string();
                message.append(campaign_id.as_str());
                return Err(KernelError::NotFound(message));
            },
        };
        let ghost before = self@;
        let ghost p = self@.permits[k as int]@;
        let maximum = self.permits[k].maximum_cost_microusd;
        match target {
            Some(j) => self.settle_budget(i, j, actual_cost_microusd, maximum, now),
            None => {},
        }
        let ghost budgeted = self@;
        self.permits[k].status = DispatchPermitStatus::Settled;
        self.permits[k].settled_at = Some(now.clone());
        self.permits[k].actual_cost_microusd = Some(actual_cost_microusd);
        self.permits[k].settlement_basis = Some(basis);
        self.permits[k].interruption = None;
        self.stamp_permit(k, now);
        let ghost updated = self@;
        if actual_cost_microusd > maximum {
            let mut reason = "dispatch settled at ".to_string();
            push_decimal(&mut reason, actual_cost_microusd);
            reason.append(" micro-USD against ");
            push_decimal(&mut reason, maximum);
            reason.append(" micro-USD authority");
            assert(reason@ =~= overrun_reason(actual_cost_microusd, maximum));
            self.block_campaign(i, reason, now);
        } else if previous == DispatchPermitStatus::Interrupted {
            self.reopen_if_reconciled(i, now);
        }
        let ghost recorded = self@;
        let payload = self.permits[k].canonical_json();
        let actor = self.permits[k].actor.clone();
        self.append_kernel_event(i, KernelEventKind::DispatchSettled, actor.as_str(), token, &payload, now);
        proof {
            let q = settled(p, actual_cost_microusd, Some(trim(settlement_basis@)), now@);
            let row = before.campaigns[i as int];
            let c = row.record@;
            let record = if actual_cost_microusd > p.maximum_cost_microusd {
                blocked(c, overrun_reason(actual_cost_microusd, p.maximum_cost_microusd), now@)
            } else if p.status == DispatchPermitStatus::Interrupted {
                reopened(c, self@.permits, now@)
            } else {
                c
            };
            let tgt = reservation_target(before, i as int, p, |b: BudgetView| budget_settled(b, actual_cost_microusd, p.maximum_cost_microusd, now@));
            assert(updated.campaigns == budgeted.campaigns);
            assert(self@.permits == updated.permits);
            assert(recorded.campaigns[i as int].record@ == record);
            assert(recorded.campaigns[i as int].kernel_events == row.kernel_events);
            assert(budgets_after(row.budgets@, self@.campaigns[i as int].budgets@, tgt));
            assert(permit_replaced(before.permits, self@.permits, k as int, q));
            assert(campaign_logged(before, self@, i as int, tgt, record, KernelEventKind::DispatchSettled,
                trim(actor@), token@, payload@, now@));
            if kernel_well_formed(before) {
                lemma_campaign_logged_keeps_kernel(before, self@, i as int, tgt, record,
                    KernelEventKind::DispatchSettled, trim(actor@), token@, payload@, now@);
            }
        }
        Ok(self.permits[k].copy())
    }

    /// Settles a permit at the current time.
    pub fn settle_campaign_dispatch(
        &mut self,
        token: &str,
        actual_cost_microusd: u64,
        settlement_basis: &str,
    ) -> (r: Result<CampaignDispatchPermit, KernelError>)
        ensures
            exists|now: Seq<char>|
                settle_post(old(self)@, token@, actual_cost_microusd, settlement_basis@, now, final(self)@, r),
    {
        let now = canonical_now_text();
        self.settle_campaign_dispatch_at(token, actual_cost_microusd, settlement_basis, &now)
    }


    /// Releases an unconsumed permit at `now`, returning its reservation to the budget;
    /// repeating the release returns the released permit.
    #[verifier::spinoff_prover]
    #[verifier::rlimit(40)]
    pub fn release_campaign_dispatch_at(&mut self, token: &str, now: &String) -> (r: Result<
        CampaignDispatchPermit,
        KernelError,
    >)
        ensures
            release_post(old(self)@, token@, now@, final(self)@, r),
            kernel_well_formed(old(self)@) ==> kernel_well_formed(final(self)@),
    {
        let t = token.to_string();
        let k = match self.find_permit(&t) {
            Some(k) => k,
            None => {
                let mut message = "dispatch permit ".to_string();
                message.append(token);
                return Err(KernelError::NotFound(message));
            },
        };
        if self.permits[k].status == DispatchPermitStatus::Released {
            return Ok(self.permits[k].copy());
        }
        if self.permits[k].status != DispatchPermitStatus::Authorized {
            return Err(KernelError::Conflict("only an unconsumed dispatch can be released".to_string()));
        }
        let campaign_id = self.permits[k].campaign_id.clone();
        let found = self.find_campaign(&campaign_id);
        let target = match self.locate_reservation(k, found) {
            Ok(target) => target,
            Err(e) => {
                return Err(e);
            },
        };
        let i = match found {
            Some(i) => i,
            None => {
                let mut message = "campaign ".to_string();
                message.append(campaign_id.as_str());
                return Err(KernelError::NotFound(message));
            },
        };
        let ghost before = self@;
        let ghost p = self@.permits[k as int]@;
        let maximum = self.permits[k].maximum_cost_microusd;
        match target {
            Some(j) => self.release_budget(i, j, maximum, now),
            None => {},
        }
        let ghost budgeted = self@;
        self.permits[k].status = DispatchPermitStatus::Released;
        self.permits[k].released_at = Some(now.clone());
        self.stamp_permit(k, now);
        let ghost updated = self@;
        let payload = self.permits[k].canonical_json();
        let actor = self.permits[k].actor.clone();
        self.append_kernel_event(i, KernelEventKind::DispatchReleased, actor.as_str(), token, &payload, now);
        proof {
            let q = released(p, now@);
            let row = before.campaigns[i as int];
            let tgt = reservation_target(before, i as int, p, |b: BudgetView| budget_released(b, p.maximum_cost_microusd, now@));
            assert(updated.campaigns == budgeted.campaigns);
            assert(budgets_after(row.budgets@, self@.campaigns[i as int].budgets@, tgt));
            assert(permit_replaced(before.permits, self@.permits, k as int, q));
            assert(campaign_logged(before, self@, i as int, tgt, row.record@, KernelEventKind::DispatchReleased,
                trim(actor@), token@, payload@, now@));
            if kernel_well_formed(before) {
                lemma_campaign_logged_keeps_kernel(before, self@, i as int, tgt, row.record@,
                    KernelEventKind::DispatchReleased, trim(actor@), token@, payload@, now@);
            }
        }
        Ok(self.permits[k].copy())
    }

    /// Releases an unconsumed permit at the current time.
    pub fn release_campaign_dispatch(&mut self, token: &str) -> (r: Result<CampaignDispatchPermit, KernelError>)
        ensures
            exists|now: Seq<char>| release_post(old(self)@, token@, now, final(self)@, r),
    {
        let now = canonical_now_text();
        self.release_campaign_dispatch_at(token, &now)
    }

    /// Resolves an interrupted permit of campaign `campaign_id` at `now` on the operator's
    /// evidence: either the provider never started, and the reservation is released, or it
    /// settled, and the budget is charged. The campaign reopens once nothing of it remains
    /// interrupted, unless the settlement exceeded the ceiling.
    #[verifier::spinoff_prover]
    #[verifier::rlimit(60)]
    pub fn resolve_interrupted_dispatch_at(
        &mut self,
        campaign_id: &str,
        token: &str,
        request: &ResolveInterruptedDispatchRequest,
        now: &String,
    ) -> (r: Result<CampaignDispatchPermit, KernelError>)
        ensures
            resolve_post(old(self)@, campaign_id@, token@, *request, now@, final(self)@, r),
            kernel_well_formed(old(self)@) ==> kernel_well_formed(final(self)@),
    {
        let t = token.to_string();
        let k = match self.find_permit(&t) {
            Some(k) => k,
            None => {
                let mut message = "dispatch permit ".to_string();
                message.append(token);
                return Err(KernelError::NotFound(message));
            },
        };
        let id = campaign_id.to_string();
        if !(self.permits[k].campaign_id == id) || self.permits[k].status
            != DispatchPermitStatus::Interrupted {
            return Err(
                KernelError::Conflict(
                    "dispatch is not an interrupted permit for this campaign".to_string(),
                ),
            );
        }
        let settled_cost: Option<u64> = match request.resolution {
            InterruptedDispatchResolution::NoProviderStart => None,
            InterruptedDispatchResolution::ProviderSettled => match request.actual_cost_microusd {
                Some(cost) => Some(cost),
                None => {
                    return Err(KernelError::Contract("provider settlement lost its cost".to_string()));
                },
            },
        };
        let found = self.find_campaign(&id);
        let target = match self.locate_reservation(k, found) {
            Ok(target) => target,
            Err(e) => {
                return Err(e);
            },
        };
        let i = match found {
            Some(i) => i,
            None => {
                let mut message = "campaign ".to_string();
                message.append(campaign_id);
                return Err(KernelError::NotFound(message));
            },
        };
        let ghost before = self@;
        let ghost p = self@.permits[k as int]@;
        let maximum = self.permits[k].maximum_cost_microusd;
        match settled_cost {
            None => match target {
                Some(j) => self.release_budget(i, j, maximum, now),
                None => {},
            },
            Some(cost) => match target {
                Some(j) => self.settle_budget(i, j, cost, maximum, now),
                None => {},
            },
        }
        let ghost budgeted = self@;
        self.permits[k].resolution_evidence_sha256 = Some(request.evidence_sha256.clone());
        self.permits[k].resolved_by = Some(trim_text(request.actor.as_str()));
        match settled_cost {
            None => {
                self.permits[k].status = DispatchPermitStatus::Released;
                self.permits[k].released_at = Some(now.clone());
                self.permits[k].settlement_basis = Some("verified_no_provider_start".to_string());
            },
            Some(cost) => {
                self.permits[k].status = DispatchPermitStatus::Settled;
                self.permits[k].settled_at = Some(now.clone());
                self.permits[k].actual_cost_microusd = Some(cost);
                self.permits[k].settlement_basis = copy_opt_text(&request.settlement_basis);
                self.permits[k].interruption = None;
            },
        }
        self.stamp_permit(k, now);
        let ghost updated = self@;
        match settled_cost {
            Some(cost) => {
                if cost > maximum {
                    self.block_campaign(
                        i,
                        "resolved dispatch exceeded its authorized ceiling".to_string(),
                        now,
                    );
                }
            },
            None => {},
        }
        let ghost charged = self@;
        self.reopen_if_reconciled(i, now);
        let ghost recorded = self@;
        let payload = self.permits[k].canonical_json();
        self.append_kernel_event(
            i,
            KernelEventKind::DispatchResolved,
            request.actor.as_str(),
            token,
            &payload,
            now,
        );
        proof {
            let row = before.campaigns[i as int];
            let c = row.record@;
            assert(updated.campaigns == budgeted.campaigns);
            assert(self@.permits == updated.permits);
            let resolved = PermitView {
                resolution_evidence_sha256: Some(request.evidence_sha256@),
                resolved_by: Some(trim(request.actor@)),
                ..p
            };
            match request.resolution {
                InterruptedDispatchResolution::NoProviderStart => {
                    let q = PermitView {
                        settlement_basis: Some("verified_no_provider_start"@),
                        ..released(resolved, now@)
                    };
                    let tgt = reservation_target(before, i as int, p, |b: BudgetView| budget_released(b, p.maximum_cost_microusd, now@));
                    let record = reopened(c, self@.permits, now@);
                    assert(charged == updated);
                    assert(recorded.campaigns[i as int].record@ == record);
                    assert(budgets_after(row.budgets@, self@.campaigns[i as int].budgets@, tgt));
                    assert(permit_replaced(before.permits, self@.permits, k as int, q));
                    assert(campaign_logged(before, self@, i as int, tgt, record, KernelEventKind::DispatchResolved,
                        trim(request.actor@), token@, payload@, now@));
                    if kernel_well_formed(before) {
                        lemma_campaign_logged_keeps_kernel(before, self@, i as int, tgt, record,
                            KernelEventKind::DispatchResolved, trim(request.actor@), token@, payload@, now@);
                    }
                },
                InterruptedDispatchResolution::ProviderSettled => {
                    let actual = request.actual_cost_microusd.unwrap();
                    let q = settled(resolved, actual, opt_text(request.settlement_basis), now@);
                    let tgt = reservation_target(before, i as int, p, |b: BudgetView| budget_settled(b, actual, p.maximum_cost_microusd, now@));
                    let blocked_first = if actual > p.maximum_cost_microusd {
                        blocked(c, "resolved dispatch exceeded its authorized ceiling"@, now@)
                    } else {
                        c
                    };
                    let record = reopened(blocked_first, self@.permits, now@);
                    assert(charged.campaigns[i as int].record@ == blocked_first);
                    assert(recorded.campaigns[i as int].record@ == record);
                    assert(budgets_after(row.budgets@, self@.campaigns[i as int].budgets@, tgt));
                    assert(permit_replaced(before.permits, self@.permits, k as int, q));
                    assert(campaign_logged(before, self@, i as int, tgt, record, KernelEventKind::DispatchResolved,
                        trim(request.actor@), token@, payload@, now@));
                    if kernel_well_formed(before) {
                        lemma_campaign_logged_keeps_kernel(before, self@, i as int, tgt, record,
                            KernelEventKind::DispatchResolved, trim(request.actor@), token@, payload@, now@);
                    }
                },
            }
        }
        Ok(self.permits[k].copy())
    }

    /// Resolves an interrupted permit at the current time.
    pub fn resolve_interrupted_dispatch(
        &mut self,
        campaign_id: &str,
        token: &str,
        request: &ResolveInterruptedDispatchRequest,
    ) -> (r: Result<CampaignDispatchPermit, KernelError>)
        ensures
            exists|now: Seq<char>| resolve_post(old(self)@, campaign_id@, token@, *request, now, final(self)@, r),
    {
        let now = canonical_now_text();
        self.resolve_interrupted_dispatch_at(campaign_id, token, request, &now)
    }


    /// The permits of campaign `c`: how many there are, and whether all are bound to its
    /// generation and reconciliation digest.
    #[verifier::loop_isolation(false)]
    fn check_permits(&self, c: &CampaignRecord) -> (r: (usize, bool))
        ensures
            r.0 == permit_count(self@.permits, c.id@, self@.permits.len()),
            r.1 == permits_bound(self@.permits, c@),
    {
        let mut count: usize = 0;
        let mut bound = true;
        let mut k: usize = 0;
        while k < self.permits.len()
            invariant
                k <= self.permits.len(),
                count == permit_count(self@.permits, c.id@, k as nat),
                count <= k,
                bound == forall|m: int|
                    0 <= m < k && #[trigger] self@.permits[m].campaign_id@ == c.id@ ==> self@.permits[m].generation
                        == c.generation && self@.permits[m].reconciliation_sha256@ == c.reconciliation_sha256@,
            decreases self.permits.len() - k,
        {
            if self.permits[k].campaign_id == c.id {
                count = count + 1;
                if self.permits[k].generation != c.generation || !(self.permits[k].reconciliation_sha256
                    == c.reconciliation_sha256) {
                    bound = false;
                }
            }
            k = k + 1;
        }
        (count, bound)
    }

    /// A read-only view of one campaign: its record, image, accepted events and their replayed
    /// projection, budgets, permits and kernel receipts.
    pub fn snapshot(&self, campaign_id: &str) -> (r: Result<CampaignSnapshot<'_>, KernelError>)
        ensures
            snapshot_post(self@, campaign_id@, r),
    {
        let id = campaign_id.to_string();
        let i = match self.find_campaign(&id) {
            Some(i) => i,
            None => {
                let mut message = "campaign ".to_string();
                message.append(campaign_id);
                return Err(KernelError::NotFound(message));
            },
        };
        let row = &self.campaigns[i];
        if row.epact_events.len() as u64 == u64::MAX {
            return Err(KernelError::Integrity("Epact history exceeds the kernel's range".to_string()));
        }
        let state = match replay_epact_events(&row.image, &row.epact_events) {
            Ok(state) => state,
            Err(_) => {
                return Err(KernelError::Integrity("Epact replay refused the recorded history".to_string()));
            },
        };
        let mut rows: Vec<(String, String, usize)> = Vec::new();
        let mut k: usize = 0;
        while k < self.permits.len()
            invariant
                k <= self.permits.len(),
                rows@ == campaign_permit_rows(self@, id@, k as nat),
            decreases self.permits.len() - k,
        {
            if self.permits[k].campaign_id == id {
                let time = if k < self.permit_times.len() {
                    self.permit_times[k].clone()
                } else {
                    self.permits[k].issued_at.clone()
                };
                rows.push((time, self.permits[k].token.clone(), k));
            }
            k = k + 1;
        }
        proof {
            assert(self@.permits.len() == self.permits.len());
            lemma_permit_rows_in_range(self@, id@, self@.permits.len());
        }
        let ghost listed = rows@;
        let sorted = sort_permit_rows(rows);
        proof {
            assert forall|m: int| 0 <= m < sorted@.len() implies #[trigger] sorted@[m].2 < self@.permits.len() by {
                broadcast use vstd::seq_lib::group_to_multiset_ensures;
                assert(sorted@.to_multiset().count(sorted@[m]) > 0);
                assert(listed.contains(sorted@[m]));
            }
        }
        let mut permits: Vec<CampaignDispatchPermit> = Vec::new();
        let mut m: usize = 0;
        while m < sorted.len()
            invariant
                m <= sorted.len(),
                permits@.len() == m,
                forall|q: int| 0 <= q < sorted@.len() ==> #[trigger] sorted@[q].2 < self@.permits.len(),
                forall|q: int| 0 <= q < m ==> #[trigger] permits@[q]@ == self@.permits[sorted@[q].2 as int]@,
            decreases sorted.len() - m,
        {
            let place = sorted[m].2;
            permits.push(self.permits[place].copy());
            m = m + 1;
        }
        let mut budgets: Vec<BudgetRecord> = Vec::new();
        let mut j: usize = 0;
        while j < row.budgets.len()
            invariant
                j <= row.budgets.len(),
                budgets@ == row.budgets@.subrange(0, j as int),
            decreases row.budgets.len() - j,
        {
            budgets.push(row.budgets[j].copy());
            assert(budgets@ =~= row.budgets@.subrange(0, j + 1));
            j = j + 1;
        }
        assert(budgets@ =~= row.budgets@);
        Ok(
            CampaignSnapshot {
                campaign: &row.record,
                image: &row.image,
                epact_state: state,
                epact_events: &row.epact_events,
                budgets: sort_ascending(budgets),
                dispatch_permits: permits,
                kernel_events: &row.kernel_events,
            },
        )
    }

    /// Independently re-derives everything a campaign claims: its Epact projection, its
    /// reconciliation digest, its kernel chain and head, and the binding of its permits.
    #[verifier::spinoff_prover]
    #[verifier::rlimit(40)]
    pub fn verify_campaign(&self, campaign_id: &str) -> (r: Result<VerificationReport, KernelError>)
        ensures
            verify_post(self@, campaign_id@, r),
    {
        let id = campaign_id.to_string();
        let i = match self.find_campaign(&id) {
            Some(i) => i,
            None => {
                let mut message = "campaign ".to_string();
                message.append(campaign_id);
                return Err(KernelError::NotFound(message));
            },
        };
        let row = &self.campaigns[i];
        if row.epact_events.len() as u64 == u64::MAX {
            return Err(KernelError::Integrity("Epact history exceeds the kernel's range".to_string()));
        }
        let state = match replay_epact_events(&row.image, &row.epact_events) {
            Ok(state) => state,
            Err(_) => {
                return Err(KernelError::Integrity("Epact replay refused the recorded history".to_string()));
            },
        };
        let expected = reconciliation_sha256(
            &row.record.id,
            &row.record.name,
            &row.record.objective,
            row.record.generation,
            &row.image.image_sha256,
        );
        if !(row.record.reconciliation_sha256 == expected) {
            return Err(
                KernelError::Integrity(
                    "campaign reconciliation digest does not match its canonical identity".to_string(),
                ),
            );
        }
        let head = match verify_chain(&row.kernel_events) {
            Ok(head) => head,
            Err(e) => {
                return Err(e);
            },
        };
        let head_matches = match (&head, &row.record.event_head_sha256) {
            (Some(a), Some(b)) => *a == *b,
            (None, None) => true,
            _ => false,
        };
        if !head_matches {
            return Err(
                KernelError::Integrity(
                    "campaign event head does not match the verified kernel chain".to_string(),
                ),
            );
        }
        proof {
            lemma_campaign_found(self@, campaign_id@);
            assert(row.record.id@ == campaign_id@);
        }
        let (permit_count, bound) = self.check_permits(&row.record);
        if !bound {
            return Err(
                KernelError::Integrity(
                    "a dispatch permit is not bound to this campaign generation".to_string(),
                ),
            );
        }
        let terminal = match epact_program_is_terminal(&row.image, &state, &row.epact_events) {
            Ok(t) => t,
            Err(_) => {
                return Err(KernelError::Integrity("Epact projection does not fit its image".to_string()));
            },
        };
        Ok(
            VerificationReport {
                campaign_id: id,
                program_image_sha256: row.image.image_sha256.clone(),
                epact_event_count: row.epact_events.len(),
                kernel_event_count: row.kernel_events.len(),
                dispatch_permit_count: permit_count,
                budget_count: row.budgets.len(),
                terminal,
            },
        )
    }


    /// Spends `actual` of budget `j` of campaign `i` and releases `maximum` of its exposure.
    fn settle_budget(&mut self, i: usize, j: usize, actual: u64, maximum: u64, now: &String)
        requires
            i < old(self)@.campaigns.len(),
            j < old(self)@.campaigns[i as int].budgets@.len(),
        ensures
            final(self)@.permits == old(self)@.permits,
            final(self)@.permit_times == old(self)@.permit_times,
            other_rows_unchanged(old(self)@, final(self)@, i as int),
            final(self)@.campaigns[i as int] == (CampaignRow {
                budgets: final(self)@.campaigns[i as int].budgets,
                ..old(self)@.campaigns[i as int]
            }),
            budgets_after(
                old(self)@.campaigns[i as int].budgets@,
                final(self)@.campaigns[i as int].budgets@,
                Some((j as int, budget_settled(old(self)@.campaigns[i as int].budgets@[j as int]@, actual, maximum, now@))),
            ),
    {
        let b = &mut self.campaigns[i].budgets[j];
        let spent = b.spent_microusd.saturating_add(actual);
        let exposure = b.exposure_microusd.saturating_sub(maximum);
        b.spent_microusd = spent;
        b.exposure_microusd = exposure;
        b.available_microusd = b.total_microusd as i128 - spent as i128 - exposure as i128;
        b.updated_at = now.clone();
    }

    /// Releases `maximum` of the exposure of budget `j` of campaign `i`.
    fn release_budget(&mut self, i: usize, j: usize, maximum: u64, now: &String)
        requires
            i < old(self)@.campaigns.len(),
            j < old(self)@.campaigns[i as int].budgets@.len(),
        ensures
            final(self)@.permits == old(self)@.permits,
            final(self)@.permit_times == old(self)@.permit_times,
            other_rows_unchanged(old(self)@, final(self)@, i as int),
            final(self)@.campaigns[i as int] == (CampaignRow {
                budgets: final(self)@.campaigns[i as int].budgets,
                ..old(self)@.campaigns[i as int]
            }),
            budgets_after(
                old(self)@.campaigns[i as int].budgets@,
                final(self)@.campaigns[i as int].budgets@,
                Some((j as int, budget_released(old(self)@.campaigns[i as int].budgets@[j as int]@, maximum, now@))),
            ),
    {
        let b = &mut self.campaigns[i].budgets[j];
        let exposure = b.exposure_microusd.saturating_sub(maximum);
        b.exposure_microusd = exposure;
        b.available_microusd = b.total_microusd as i128 - b.spent_microusd as i128 - exposure as i128;
        b.updated_at = now.clone();
    }

    /// Blocks campaign `i` for `reason`.
    fn block_campaign(&mut self, i: usize, reason: String, now: &String)
        requires
            i < old(self)@.campaigns.len(),
        ensures
            final(self)@.permits == old(self)@.permits,
            final(self)@.permit_times == old(self)@.permit_times,
            other_rows_unchanged(old(self)@, final(self)@, i as int),
            final(self)@.campaigns[i as int] == (CampaignRow {
                record: final(self)@.campaigns[i as int].record,
                ..old(self)@.campaigns[i as int]
            }),
            final(self)@.campaigns[i as int].record@ == blocked(old(self)@.campaigns[i as int].record@, reason@, now@),
    {
        let record = &mut self.campaigns[i].record;
        record.status = CampaignStatus::Blocked;
        record.blocked_reason = Some(reason);
        record.updated_at = now.clone();
    }

    #[verifier::loop_isolation(false)]
    fn none_interrupted_for(&self, campaign_id: &String) -> (r: bool)
        ensures
            r == none_interrupted(self@.permits, campaign_id@),
    {
        let mut k: usize = 0;
        while k < self.permits.len()
            invariant
                k <= self.permits.len(),
                forall|m: int| 0 <= m < k ==> !(#[trigger] self@.permits[m].campaign_id@ == campaign_id@
                    && self@.permits[m].status == DispatchPermitStatus::Interrupted),
            decreases self.permits.len() - k,
        {
            if self.permits[k].campaign_id == *campaign_id && self.permits[k].status
                == DispatchPermitStatus::Interrupted {
                return false;
            }
            k = k + 1;
        }
        true
    }

    /// Reopens campaign `i` when nothing of it is interrupted and it was blocked only by an
    /// interruption.
    fn reopen_if_reconciled(&mut self, i: usize, now: &String)
        requires
            i < old(self)@.campaigns.len(),
        ensures
            final(self)@.permits == old(self)@.permits,
            final(self)@.permit_times == old(self)@.permit_times,
            other_rows_unchanged(old(self)@, final(self)@, i as int),
            final(self)@.campaigns[i as int] == (CampaignRow {
                record: final(self)@.campaigns[i as int].record,
                ..old(self)@.campaigns[i as int]
            }),
            final(self)@.campaigns[i as int].record@ == reopened(old(self)@.campaigns[i as int].record@, old(self)@.permits, now@),
    {
        let id = self.campaigns[i].record.id.clone();
        if !self.none_interrupted_for(&id) {
            return;
        }
        let clears = match &self.campaigns[i].record.blocked_reason {
            Some(reason) => starts_with_interruption(reason),
            None => false,
        };
        if clears {
            let record = &mut self.campaigns[i].record;
            record.status = CampaignStatus::Open;
            record.blocked_reason = None;
            record.updated_at = now.clone();
        }
    }


    /// Records that the row of permit `k` changed at `at`.
    fn stamp_permit(&mut self, k: usize, at: &String)
        ensures
            final(self)@.path == old(self)@.path,
            final(self)@.campaigns == old(self)@.campaigns,
            final(self)@.permits == old(self)@.permits,
            stamped(old(self)@.permit_times, final(self)@.permit_times, k as int, at@),
    {
        if k < self.permit_times.len() {
            self.permit_times.set(k, at.clone());
        }
    }

    /// Appends a sealed kernel event to campaign `i` and makes it the campaign's head.
    fn append_kernel_event(
        &mut self,
        i: usize,
        kind: KernelEventKind,
        actor: &str,
        subject_id: &str,
        payload_json: &String,
        created_at: &String,
    )
        requires
            i < old(self)@.campaigns.len(),
        ensures
            only_campaign_changed(old(self)@, final(self)@, i as int),
            appended(
                old(self)@.campaigns[i as int],
                final(self)@.campaigns[i as int],
                kind,
                trim(actor@),
                subject_id@,
                payload_json@,
                created_at@,
            ),
    {
        let previous = copy_opt_text(&self.campaigns[i].record.event_head_sha256);
        let sequence = self.campaigns[i].kernel_events.len() as u64;
        let campaign_id = self.campaigns[i].record.id.clone();
        let event = KernelEvent::build(
            campaign_id,
            sequence,
            kind,
            trim_text(actor),
            subject_id.to_string(),
            payload_json,
            previous,
            created_at.clone(),
        );
        let head = event.event_sha256.clone();
        let row = &mut self.campaigns[i];
        row.kernel_events.push(event);
        row.record.event_head_sha256 = Some(head);
        row.record.updated_at = created_at.clone();
    }
}

} // verus!
