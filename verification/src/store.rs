//! The campaign workspace store: tables of campaigns, capabilities, runs, metrics, semantic
//! objects and relations, actions, external jobs, providers, projections, artifacts, project
//! inputs, agent progressions, workspace records and the capability-package registry, with the
//! rules the workspace keeps when rows are written.
//! The store holds its tables in memory; its host persists them between runs.

use vstd::prelude::*;
use vstd::string::StringExecFns;
use crate::epact::opt_text;
use crate::order::{contains_str, insert_sorted, insert_sorted_unique, names, remove_name, sorted_unique, texts, without};
use crate::records::{
    ActionRecord, AgentProgressionRecord, Artifact, Campaign, CampaignCapabilityUpdate, Capability, ExternalJob, Keyed, LedgerEvent,
    MetricPoint, ObjectProjection, ProgressionRow, ProjectInputRow, ProjectInputVersion,
    ProviderProfile, Run, SemanticObject, SemanticRelation, same_campaign, same_input,
    same_progression, same_run,
};
use crate::search::{index_of, lemma_index_of, lemma_index_of_absent, lemma_index_of_found};
use crate::clock::{fresh_uuid_simple, now_rfc3339};
use crate::notes::{
    ascii_lowercase, note_refusal,
    canonical_category, canonical_severity, is_note, is_note_action, is_note_event,
    is_note_relation, normalize_labels, note_action_payload_json, note_event_payload_json, note_id,
    note_payload_json, note_request_valid, note_target, opt_trimmed, starts_object,
    trimmed_option, CreateNoteRequest, NoteResponse, NOTE_CONTRACT,
};
use crate::text::{measure_text, trim, trim_text};
use crate::workspaces::ScienceRow;
use crate::operational::{
    artifacts_written, campaign_model, campaigns_written, envelope_refusal, envelope_refusal_exec,
    is_import_record, is_source_status, job_written, jobs_written, objects_written,
    operational_record_count, record_total, rows_written, staleness_refusal, staleness_refusal_exec,
    with_source, write_source, find_source, bound_all, Budget, OperationalImportEnvelope,
    OperationalImportRecord, OperationalImportResponse, OperationalSourceStatus,
};
use crate::kernel::{sha256_hex, sha256_text, utf8};
use crate::dispatch::copy_opt_text;
use crate::records::Duplicate;
use crate::store_laws::lemma_input_listing_is_determined;
use crate::openai_compatible::reencode_json;
use crate::capabilities::{CapabilityQualification, McpDiscoveryRecord, RegisteredCapabilityPackage};
use crate::sorting::{descending, inputs_ordered, metrics_ordered, sort_descending, sort_inputs, sort_metrics};

verus! {

broadcast use vstd::string::group_string_axioms;

/// The contract of accepted project input records.
pub const PROJECT_INPUT_CONTRACT: &'static str = "concord.project-input/1";

/// Why the store refused a write or a read.
#[derive(Debug, Clone)]
pub enum StoreError {
    Invalid(String),
    Constraint(String),
}

/// The tables of the store.
#[derive(Debug, Clone)]
pub struct DatabaseTables {
    pub campaigns: Vec<Campaign>,
    pub capabilities: Vec<Capability>,
    pub runs: Vec<Run>,
    pub run_supervision: Vec<String>,
    pub metrics: Vec<MetricPoint>,
    pub semantic_objects: Vec<SemanticObject>,
    pub semantic_relations: Vec<SemanticRelation>,
    pub actions: Vec<ActionRecord>,
    pub events: Vec<LedgerEvent>,
    pub external_jobs: Vec<ExternalJob>,
    pub providers: Vec<ProviderProfile>,
    pub projections: Vec<ObjectProjection>,
    pub artifacts: Vec<Artifact>,
    pub project_inputs: Vec<ProjectInputRow>,
    pub agent_progressions: Vec<ProgressionRow>,
    pub science_records: Vec<ScienceRow>,
    pub capability_packages: Vec<RegisteredCapabilityPackage>,
    pub mcp_discoveries: Vec<McpDiscoveryRecord>,
    pub capability_qualifications: Vec<CapabilityQualification>,
    pub budgets: Vec<Budget>,
    pub operational_imports: Vec<OperationalImportRecord>,
    pub operational_sources: Vec<OperationalSourceStatus>,
}

/// Every table of the store is empty.
pub open spec fn tables_empty(t: DatabaseTables) -> bool {
    &&& t.campaigns@.len() == 0
    &&& t.capabilities@.len() == 0
    &&& t.runs@.len() == 0
    &&& t.run_supervision@.len() == 0
    &&& t.metrics@.len() == 0
    &&& t.semantic_objects@.len() == 0
    &&& t.semantic_relations@.len() == 0
    &&& t.actions@.len() == 0
    &&& t.events@.len() == 0
    &&& t.external_jobs@.len() == 0
    &&& t.providers@.len() == 0
    &&& t.projections@.len() == 0
    &&& t.artifacts@.len() == 0
    &&& t.project_inputs@.len() == 0
    &&& t.agent_progressions@.len() == 0
    &&& t.science_records@.len() == 0
    &&& t.capability_packages@.len() == 0
    &&& t.mcp_discoveries@.len() == 0
    &&& t.capability_qualifications@.len() == 0
    &&& t.budgets@.len() == 0
    &&& t.operational_imports@.len() == 0
    &&& t.operational_sources@.len() == 0
}

/// The workspace store.
#[derive(Debug, Clone)]
pub struct Database {
    path: String,
    tables: DatabaseTables,
}

/// The store as its path and tables.
pub struct StoreView {
    pub path: Seq<char>,
    pub tables: DatabaseTables,
}

impl View for Database {
    type V = StoreView;

    closed spec fn view(&self) -> StoreView {
        StoreView { path: self.path@, tables: self.tables }
    }
}

/// The keys of the rows, in order.
pub open spec fn keys_of<T: Keyed>(rows: Seq<T>) -> Seq<Seq<char>> {
    rows.map_values(|r: T| r.key_view())
}

/// The row with this key.
pub open spec fn row_index<T: Keyed>(rows: Seq<T>, key: Seq<char>) -> Option<int> {
    index_of(keys_of(rows), key)
}

/// `after` is `before` with `row` in place of the row with its key, or added when there was none.
pub open spec fn upserted<T: Keyed>(before: Seq<T>, after: Seq<T>, row: T) -> bool {
    after == with_row(before, row)
}

/// The row with this key.
#[verifier::loop_isolation(false)]
pub fn find_row<T: Keyed>(rows: &Vec<T>, key: &String) -> (r: Option<usize>)
    ensures
        match r {
            Some(i) => row_index(rows@, key@) == Some(i as int) && i < rows@.len(),
            None => row_index(rows@, key@) is None,
        },
{
    let mut i: usize = 0;
    while i < rows.len()
        invariant
            i <= rows.len(),
            forall|j: int| 0 <= j < i ==> keys_of(rows@)[j] != key@,
        decreases rows.len() - i,
    {
        if *rows[i].key() == *key {
            proof {
                lemma_index_of_found(keys_of(rows@), key@, i as int);
            }
            return Some(i);
        }
        i = i + 1;
    }
    proof {
        lemma_index_of_absent(keys_of(rows@), key@);
    }
    None
}

/// Puts `row` in place of the row with its key, or adds it.
fn upsert_row<T: Keyed>(rows: &mut Vec<T>, row: T)
    ensures
        upserted(old(rows)@, final(rows)@, row),
{
    let found = find_row(rows, row.key());
    match found {
        Some(i) => {
            rows.set(i, row);
        },
        None => {
            rows.push(row);
        },
    }
}

/// What an upsert of a semantic object must respect: an object that projects an accepted
/// project input repeats it exactly, and no other object may claim the project input contract.
pub open spec fn object_admissible(tables: DatabaseTables, object: SemanticObject) -> bool {
    match row_index(tables.project_inputs@, object.id@) {
        Some(i) => {
            let row = tables.project_inputs@[i];
            let record = row.record;
            &&& object.payload_json@ == row.record_json@
            &&& object.semantic_type@ == PROJECT_INPUT_CONTRACT@
            &&& object.kind@ == "input"@
            &&& opt_text(object.campaign_id) == Some(record.campaign_id@)
            &&& object.run_id is None
            &&& object.state@ == "attached"@
            &&& opt_text(object.label) == Some(record.logical_path@)
            &&& object.created_at@ == record.created_at@
            &&& object.updated_at@ == record.created_at@
        },
        None => object.semantic_type@ != PROJECT_INPUT_CONTRACT@,
    }
}

/// The objects with `object` written over the one with its identifier, whose creation time it
/// keeps, or added.
pub open spec fn with_object(objects: Seq<SemanticObject>, object: SemanticObject) -> Seq<SemanticObject> {
    match row_index(objects, object.id@) {
        Some(i) => objects.update(i, SemanticObject { created_at: objects[i].created_at, ..object }),
        None => objects.push(object),
    }
}

/// `after` is `before` with `object` written.
pub open spec fn object_stored(before: Seq<SemanticObject>, after: Seq<SemanticObject>, object: SemanticObject) -> bool {
    after == with_object(before, object)
}

/// The rows with `row` in place of the row with its key, or added.
pub open spec fn with_row<T: Keyed>(rows: Seq<T>, row: T) -> Seq<T> {
    match row_index(rows, row.key_view()) {
        Some(i) => rows.update(i, row),
        None => rows.push(row),
    }
}

/// `a`, or `b` where `a` is absent (SQL `COALESCE`).
pub open spec fn coalesce<T>(a: Option<T>, b: Option<T>) -> Option<T> {
    match a {
        Some(x) => Some(x),
        None => b,
    }
}

/// The provider and external identifier of each job, in order.
pub open spec fn job_keys(jobs: Seq<ExternalJob>) -> Seq<(Seq<char>, Seq<char>)> {
    jobs.map_values(|j: ExternalJob| (j.provider@, j.external_id@))
}

/// A reported job merged over the stored one: the stored identity is kept, the optional facts
/// the report leaves out are kept, and the rest is the report's.
pub open spec fn merged_job(existing: ExternalJob, job: ExternalJob) -> ExternalJob {
    ExternalJob {
        id: existing.id,
        campaign_id: coalesce(job.campaign_id, existing.campaign_id),
        run_id: coalesce(job.run_id, existing.run_id),
        provider: existing.provider,
        external_id: existing.external_id,
        chip: coalesce(job.chip, existing.chip),
        submitted_at: coalesce(job.submitted_at, existing.submitted_at),
        started_at: coalesce(job.started_at, existing.started_at),
        finished_at: coalesce(job.finished_at, existing.finished_at),
        rate_per_min_usd_bits: coalesce(job.rate_per_min_usd_bits, existing.rate_per_min_usd_bits),
        max_cost_usd_bits: coalesce(job.max_cost_usd_bits, existing.max_cost_usd_bits),
        cost_usd_bits: coalesce(job.cost_usd_bits, existing.cost_usd_bits),
        ..job
    }
}

/// The campaign, object and space of each projection, in order.
pub open spec fn projection_keys(projections: Seq<ObjectProjection>) -> Seq<(Seq<char>, Seq<char>, Seq<char>)> {
    projections.map_values(|p: ObjectProjection| (p.campaign_id@, p.object_id@, p.space@))
}

/// The run, name and step of each metric point, in order.
pub open spec fn metric_keys(metrics: Seq<MetricPoint>) -> Seq<(Seq<char>, Seq<char>, i64)> {
    metrics.map_values(|m: MetricPoint| (m.run_id@, m.name@, m.step))
}

/// An IEEE-754 double with these bits is finite: its exponent is not all ones.
pub open spec fn finite_bits(bits: u64) -> bool {
    (bits >> 52u64) & 0x7ffu64 != 0x7ffu64
}

/// A run the runtime supervises locally and may reattach after a restart.
pub open spec fn recoverable(tables: DatabaseTables, run: Run) -> bool {
    &&& (run.status@ == "queued"@ || run.status@ == "running"@ || run.status@ == "recovering"@)
    &&& exists|j: int| 0 <= j < tables.run_supervision@.len() && #[trigger] tables.run_supervision@[j]@ == run.id@
}

/// The artifact each project input owns, in order.
pub open spec fn input_artifacts(rows: Seq<ProjectInputRow>) -> Seq<Seq<char>> {
    rows.map_values(|r: ProjectInputRow| r.record.artifact_id@)
}

/// Two artifact records say the same.
pub open spec fn same_artifact(a: Artifact, b: Artifact) -> bool {
    &&& a.id@ == b.id@
    &&& opt_text(a.run_id) == opt_text(b.run_id)
    &&& a.kind@ == b.kind@
    &&& a.media_type@ == b.media_type@
    &&& a.byte_size == b.byte_size
    &&& a.path@ == b.path@
    &&& opt_text(a.source_path) == opt_text(b.source_path)
    &&& a.created_at@ == b.created_at@
}

/// What writing `metric` does to the tables.
pub open spec fn metric_post(before: DatabaseTables, metric: MetricPoint, after: DatabaseTables, r: Result<(), StoreError>) -> bool {
    if row_index(before.runs@, metric.run_id@) is None {
        r matches Err(e) && e is Constraint && after == before
    } else {
        &&& r is Ok
        &&& after == (DatabaseTables { metrics: after.metrics, ..before })
        &&& match index_of(metric_keys(before.metrics@), (metric.run_id@, metric.name@, metric.step)) {
            Some(i) => after.metrics@ == before.metrics@.update(i, metric),
            None => after.metrics@ == before.metrics@.push(metric),
        }
    }
}

/// Why only the input attachment boundary may record project inputs.
pub open spec fn input_boundary_refusal() -> Seq<char> {
    "project input records must use the input attachment boundary"@
}

/// Why an object is refused: it changes an accepted input's projection, or it claims to be a
/// project input without one.
pub open spec fn object_refusal(tables: DatabaseTables, object: SemanticObject) -> Seq<char> {
    if row_index(tables.project_inputs@, object.id@) is Some {
        "accepted project input projection is immutable"@
    } else {
        input_boundary_refusal()
    }
}

/// What upserting `object` does to the tables.
pub open spec fn object_post(before: DatabaseTables, object: SemanticObject, after: DatabaseTables, r: Result<(), StoreError>) -> bool {
    if !object_admissible(before, object) {
        r matches Err(StoreError::Invalid(m)) && m@ == object_refusal(before, object) && after == before
    } else {
        &&& r is Ok
        &&& after == (DatabaseTables { semantic_objects: after.semantic_objects, ..before })
        &&& object_stored(before.semantic_objects@, after.semantic_objects@, object)
    }
}

/// What reporting `job` does to the tables.
pub open spec fn job_post(before: DatabaseTables, job: ExternalJob, after: DatabaseTables, r: Result<(), StoreError>) -> bool {
    match index_of(job_keys(before.external_jobs@), (job.provider@, job.external_id@)) {
        Some(i) => {
            &&& r is Ok
            &&& after == (DatabaseTables { external_jobs: after.external_jobs, ..before })
            &&& after.external_jobs@ == before.external_jobs@.update(i, merged_job(before.external_jobs@[i], job))
        },
        None => if row_index(before.external_jobs@, job.id@) is Some {
            r matches Err(e) && e is Constraint && after == before
        } else {
            &&& r is Ok
            &&& after == (DatabaseTables { external_jobs: after.external_jobs, ..before })
            &&& after.external_jobs@ == before.external_jobs@.push(job)
        },
    }
}

/// What placing `projection` does to the tables.
pub open spec fn projection_post(
    before: DatabaseTables,
    projection: ObjectProjection,
    after: DatabaseTables,
    r: Result<(), StoreError>,
) -> bool {
    if !finite_bits(projection.x_bits) || !finite_bits(projection.y_bits) || (projection.z_bits matches Some(z) && !finite_bits(z)) {
        r matches Err(e) && e is Invalid && after == before
    } else if row_index(before.campaigns@, projection.campaign_id@) is None {
        r matches Err(e) && e is Constraint && after == before
    } else {
        match index_of(projection_keys(before.projections@), (projection.campaign_id@, projection.object_id@, projection.space@)) {
            Some(i) => {
                &&& r is Ok
                &&& after == (DatabaseTables { projections: after.projections, ..before })
                &&& after.projections@ == before.projections@.update(
                    i,
                    ObjectProjection { id: before.projections@[i].id, ..projection },
                )
            },
            None => if row_index(before.projections@, projection.id@) is Some {
                r matches Err(e) && e is Constraint && after == before
            } else {
                &&& r is Ok
                &&& after == (DatabaseTables { projections: after.projections, ..before })
                &&& after.projections@ == before.projections@.push(projection)
            },
        }
    }
}

/// What recording `artifact` does to the tables: an artifact that a project input owns is
/// immutable, and only an identical record of it is accepted, changing nothing.
pub open spec fn artifact_post(before: DatabaseTables, artifact: Artifact, after: DatabaseTables, r: Result<(), StoreError>) -> bool {
    if index_of(input_artifacts(before.project_inputs@), artifact.id@) is Some {
        &&& after == before
        &&& if (row_index(before.artifacts@, artifact.id@) matches Some(i) && same_artifact(before.artifacts@[i], artifact)) {
            r is Ok
        } else {
            r matches Err(e) && e is Invalid
        }
    } else {
        &&& r is Ok
        &&& after == (DatabaseTables { artifacts: after.artifacts, ..before })
        &&& upserted(before.artifacts@, after.artifacts@, artifact)
    }
}

/// The runs the runtime supervises among the first `n`, in order.
pub open spec fn recoverable_runs(tables: DatabaseTables, n: nat) -> Seq<Run>
    decreases n,
{
    if n == 0 || n > tables.runs@.len() {
        Seq::empty()
    } else {
        let earlier = recoverable_runs(tables, (n - 1) as nat);
        if recoverable(tables, tables.runs@[n - 1]) {
            earlier.push(tables.runs@[n - 1])
        } else {
            earlier
        }
    }
}

/// What recording one research exchange does: both messages, their relation and the action are
/// written together, or nothing is.
pub open spec fn exchange_post(
    before: DatabaseTables,
    user: SemanticObject,
    assistant: SemanticObject,
    relation: SemanticRelation,
    action: ActionRecord,
    after: DatabaseTables,
    r: Result<(), StoreError>,
) -> bool {
    if !object_admissible(before, user) || !object_admissible(before, assistant) {
        r matches Err(e) && e is Invalid && after == before
    } else {
        &&& r is Ok
        &&& after == (DatabaseTables {
            semantic_objects: after.semantic_objects,
            semantic_relations: after.semantic_relations,
            actions: after.actions,
            ..before
        })
        &&& after.semantic_objects@ == with_object(with_object(before.semantic_objects@, user), assistant)
        &&& after.semantic_relations@ == with_row(before.semantic_relations@, relation)
        &&& after.actions@ == with_row(before.actions@, action)
    }
}

/// The campaign that the run with this identifier belongs to.
pub open spec fn run_campaign(tables: DatabaseTables, id: Seq<char>) -> Option<Seq<char>> {
    match row_index(tables.runs@, id) {
        Some(i) => Some(tables.runs@[i].campaign_id@),
        None => None,
    }
}

/// The campaign of the semantic object with this identifier, where there is one.
pub open spec fn object_campaign(tables: DatabaseTables, id: Seq<char>) -> Option<Option<Seq<char>>> {
    match row_index(tables.semantic_objects@, id) {
        Some(j) => Some(opt_text(tables.semantic_objects@[j].campaign_id)),
        None => None,
    }
}

/// The note's campaign exists, its run belongs to the campaign, and its target is the campaign,
/// its run, or a run or object of the campaign.
pub open spec fn note_references_hold(tables: DatabaseTables, request: CreateNoteRequest) -> bool {
    let cid = trim(request.campaign_id@);
    let run = opt_trimmed(request.run_id);
    let target = note_target(request);
    &&& row_index(tables.campaigns@, cid) is Some
    &&& (run matches Some(r) ==> run_campaign(tables, r) == Some(cid))
    &&& (target != cid && run != Some(target) ==> (run_campaign(tables, target) == Some(cid)
        || object_campaign(tables, target) == Some(Some(cid))))
}

/// Why a note's references are refused: the first of them that does not hold.
pub open spec fn reference_refusal(tables: DatabaseTables, request: CreateNoteRequest) -> Seq<char> {
    let cid = trim(request.campaign_id@);
    let run = opt_trimmed(request.run_id);
    if row_index(tables.campaigns@, cid) is None {
        "unknown campaign "@ + cid
    } else if run matches Some(x) && run_campaign(tables, x) is None {
        "unknown run "@ + run.unwrap()
    } else if run matches Some(x) && run_campaign(tables, x) != Some(cid) {
        "run "@ + run.unwrap() + " does not belong to campaign "@ + cid
    } else {
        "note target "@ + note_target(request) + " is not part of campaign "@ + cid
    }
}

/// What recording a note at `now` under the identifier suffix `suffix` does: a refused request
/// changes nothing; an accepted one writes the note, its relation, its action and its ledger
/// entry together.
pub open spec fn note_post(
    before: DatabaseTables,
    request: CreateNoteRequest,
    now: Seq<char>,
    suffix: Seq<char>,
    after: DatabaseTables,
    r: Result<NoteResponse, StoreError>,
) -> bool {
    if !note_request_valid(request) {
        r matches Err(StoreError::Invalid(m)) && m@ == note_refusal(request) && after == before
    } else if !note_references_hold(before, request) {
        r matches Err(StoreError::Constraint(m)) && m@ == reference_refusal(before, request) && after == before
    } else if row_index(before.project_inputs@, note_id(suffix)) is Some {
        r matches Err(StoreError::Invalid(m)) && m@ == input_boundary_refusal() && after == before
    } else {
        &&& r matches Ok(response)
        &&& is_note(response.note, request, now, suffix)
        &&& is_note_relation(response.relation, request, now, suffix)
        &&& is_note_action(response.action, request, now, suffix)
        &&& after == (DatabaseTables {
            semantic_objects: after.semantic_objects,
            semantic_relations: after.semantic_relations,
            actions: after.actions,
            events: after.events,
            ..before
        })
        &&& after.semantic_objects@ == with_object(before.semantic_objects@, response.note)
        &&& after.semantic_relations@ == with_row(before.semantic_relations@, response.relation)
        &&& after.actions@ == with_row(before.actions@, response.action)
        &&& exists|e: LedgerEvent| #[trigger] is_note_event(e, request, now, suffix) && after.events@ == with_row(before.events@, e)
    }
}

/// The campaign's notes among the first `n` objects, in table order.
pub open spec fn campaign_notes(objects: Seq<SemanticObject>, campaign_id: Seq<char>, n: nat) -> Seq<SemanticObject>
    decreases n,
{
    if n == 0 || n > objects.len() {
        Seq::empty()
    } else {
        let earlier = campaign_notes(objects, campaign_id, (n - 1) as nat);
        let o = objects[n - 1];
        if opt_text(o.campaign_id) == Some(campaign_id) && o.semantic_type@ == NOTE_CONTRACT@ {
            earlier.push(o)
        } else {
            earlier
        }
    }
}

/// `e` is the ledger entry `"evt_" + suffix` with these fields, stamped `now`.
pub open spec fn is_ledger_event(
    e: LedgerEvent,
    campaign_id: Option<Seq<char>>,
    run_id: Option<Seq<char>>,
    object_type: Seq<char>,
    object_id: Seq<char>,
    verb: Seq<char>,
    payload_json: Seq<char>,
    now: Seq<char>,
    suffix: Seq<char>,
) -> bool {
    &&& e.id@ == "evt_"@ + suffix
    &&& opt_text(e.campaign_id) == campaign_id
    &&& opt_text(e.run_id) == run_id
    &&& e.object_type@ == object_type
    &&& e.object_id@ == object_id
    &&& e.verb@ == verb
    &&& e.timestamp@ == now
    &&& e.payload_json@ == payload_json
}

/// The ledger verb of a binding change.
pub open spec fn binding_verb(enabled: bool) -> Seq<char> {
    if enabled {
        "bound"@
    } else {
        "unbound"@
    }
}

/// The capability bindings a campaign has once the update applies.
pub open spec fn updated_bindings(ids: Seq<Seq<char>>, update: CampaignCapabilityUpdate) -> Seq<Seq<char>> {
    if update.enabled {
        insert_sorted(ids, update.capability_id@)
    } else {
        without(ids, update.capability_id@, ids.len())
    }
}

/// What binding or unbinding a capability does: the campaign and capability must exist; the
/// campaign's bindings change and the change is entered in the ledger.
pub open spec fn binding_post(
    before: DatabaseTables,
    campaign_id: Seq<char>,
    update: CampaignCapabilityUpdate,
    now: Seq<char>,
    suffix: Seq<char>,
    after: DatabaseTables,
    r: Result<(), StoreError>,
) -> bool {
    match row_index(before.campaigns@, campaign_id) {
        None => r matches Err(e) && e is Constraint && after == before,
        Some(i) => if row_index(before.capabilities@, update.capability_id@) is None {
            r matches Err(e) && e is Constraint && after == before
        } else {
            let c = before.campaigns@[i];
            &&& r is Ok
            &&& after == (DatabaseTables { campaigns: after.campaigns, events: after.events, ..before })
            &&& after.campaigns@.len() == before.campaigns@.len()
            &&& forall|j: int| 0 <= j < before.campaigns@.len() && j != i ==> after.campaigns@[j] == before.campaigns@[j]
            &&& after.campaigns@[i] == (Campaign { capability_ids: after.campaigns@[i].capability_ids, ..c })
            &&& texts(after.campaigns@[i].capability_ids@) == updated_bindings(texts(c.capability_ids@), update)
            &&& exists|e: LedgerEvent| #[trigger] is_ledger_event(
                e,
                Some(campaign_id),
                None,
                "capability_binding"@,
                update.capability_id@,
                binding_verb(update.enabled),
                "{}"@,
                now,
                suffix,
            ) && after.events@ == with_row(before.events@, e)
        },
    }
}

/// The run's points among the first `n`, those after `after_step` where one is given, in table
/// order.
pub open spec fn run_metrics(metrics: Seq<MetricPoint>, run_id: Seq<char>, after_step: Option<i64>, n: nat) -> Seq<MetricPoint>
    decreases n,
{
    if n == 0 || n > metrics.len() {
        Seq::empty()
    } else {
        let earlier = run_metrics(metrics, run_id, after_step, (n - 1) as nat);
        let m = metrics[n - 1];
        if m.run_id@ == run_id && (after_step matches Some(s) ==> m.step > s) {
            earlier.push(m)
        } else {
            earlier
        }
    }
}

/// How many points a listing returns at most: the requested limit, kept between 1 and 20000.
pub open spec fn metric_limit(limit: i64) -> int {
    if limit < 1 {
        1
    } else if limit > 20000 {
        20000
    } else {
        limit as int
    }
}

/// The largest step among the first `n` points of a run's series.
pub open spec fn max_step(metrics: Seq<MetricPoint>, run_id: Seq<char>, name: Seq<char>, n: nat) -> Option<i64>
    decreases n,
{
    if n == 0 || n > metrics.len() {
        None
    } else {
        let earlier = max_step(metrics, run_id, name, (n - 1) as nat);
        let m = metrics[n - 1];
        if m.run_id@ == run_id && m.name@ == name {
            match earlier {
                Some(s) => Some(if m.step > s { m.step } else { s }),
                None => Some(m.step),
            }
        } else {
            earlier
        }
    }
}

/// The first `n` points without those of the series at or below `threshold`, in order.
pub open spec fn retained(metrics: Seq<MetricPoint>, run_id: Seq<char>, name: Seq<char>, threshold: int, n: nat) -> Seq<MetricPoint>
    decreases n,
{
    if n == 0 || n > metrics.len() {
        Seq::empty()
    } else {
        let earlier = retained(metrics, run_id, name, threshold, (n - 1) as nat);
        let m = metrics[n - 1];
        if m.run_id@ == run_id && m.name@ == name && m.step <= threshold {
            earlier
        } else {
            earlier.push(m)
        }
    }
}

/// After a point is recorded, its series has a largest step.
proof fn lemma_series_has_inserted(before: Seq<MetricPoint>, after: Seq<MetricPoint>, metric: MetricPoint)
    requires
        match index_of(metric_keys(before), (metric.run_id@, metric.name@, metric.step)) {
            Some(i) => after == before.update(i, metric),
            None => after == before.push(metric),
        },
    ensures
        max_step(after, metric.run_id@, metric.name@, after.len()) is Some,
{
    let key = (metric.run_id@, metric.name@, metric.step);
    lemma_index_of(metric_keys(before), key);
    let at = match index_of(metric_keys(before), key) {
        Some(i) => i,
        None => before.len() as int,
    };
    assert(after[at] == metric);
    lemma_max_step_present(after, metric.run_id@, metric.name@, after.len(), at);
}

/// A series with a point among the first `n` has a largest step there.
proof fn lemma_max_step_present(metrics: Seq<MetricPoint>, run_id: Seq<char>, name: Seq<char>, n: nat, at: int)
    requires
        n <= metrics.len(),
        0 <= at < n,
        metrics[at].run_id@ == run_id,
        metrics[at].name@ == name,
    ensures
        max_step(metrics, run_id, name, n) is Some,
    decreases n,
{
    if at < n - 1 {
        lemma_max_step_present(metrics, run_id, name, (n - 1) as nat, at);
    }
}

/// The campaign's input versions among the first `n` rows, in table order.
pub open spec fn campaign_inputs(rows: Seq<ProjectInputRow>, campaign_id: Seq<char>, n: nat) -> Seq<ProjectInputVersion>
    decreases n,
{
    if n == 0 || n > rows.len() {
        Seq::empty()
    } else {
        let earlier = campaign_inputs(rows, campaign_id, (n - 1) as nat);
        if rows[n - 1].record.campaign_id@ == campaign_id {
            earlier.push(rows[n - 1].record)
        } else {
            earlier
        }
    }
}

/// In a listing ordered by path and version, version `k` continues its file's lineage: the
/// first version of a path is version 1 and names no predecessor; a later one is one version
/// past the entry before it and names that entry by identifier and record digest.
pub open spec fn lineage_link(s: Seq<ProjectInputVersion>, campaign_id: Seq<char>, k: int) -> bool {
    let r = s[k];
    &&& r.campaign_id@ == campaign_id
    &&& if k > 0 && s[k - 1].logical_path@ == r.logical_path@ {
        let p = s[k - 1];
        &&& opt_text(r.previous_version_id) == Some(p.id@)
        &&& opt_text(r.previous_version_sha256) == Some(p.record_sha256@)
        &&& r.version == p.version + 1
    } else {
        &&& r.previous_version_id is None
        &&& r.previous_version_sha256 is None
        &&& r.version == 1
    }
}

/// Every version of the listing continues its file's lineage.
pub open spec fn lineage_chain(s: Seq<ProjectInputVersion>, campaign_id: Seq<char>) -> bool {
    forall|k: int| 0 <= k < s.len() ==> #[trigger] lineage_link(s, campaign_id, k)
}

/// `s` lists the campaign's input versions by path and version.
pub open spec fn input_listing(rows: Seq<ProjectInputRow>, campaign_id: Seq<char>, s: Seq<ProjectInputVersion>) -> bool {
    &&& inputs_ordered(s)
    &&& s.to_multiset() == campaign_inputs(rows, campaign_id, rows.len()).to_multiset()
}

/// The first version in `s` with this identifier.
pub open spec fn first_with_id(s: Seq<ProjectInputVersion>, id: Seq<char>, n: nat) -> Option<ProjectInputVersion>
    decreases n,
{
    if n == 0 || n > s.len() {
        None
    } else {
        match first_with_id(s, id, (n - 1) as nat) {
            Some(v) => Some(v),
            None => if s[n - 1].id@ == id {
                Some(s[n - 1])
            } else {
                None
            },
        }
    }
}

/// Once found among the first `n`, the first version with an identifier stays found.
proof fn lemma_first_with_id_stays(s: Seq<ProjectInputVersion>, id: Seq<char>, n: nat, m: nat)
    requires
        n <= m <= s.len(),
        first_with_id(s, id, n) is Some,
    ensures
        first_with_id(s, id, m) == first_with_id(s, id, n),
    decreases m - n,
{
    if n < m {
        lemma_first_with_id_stays(s, id, n, (m - 1) as nat);
    }
}

/// The agent run and sequence each progression row is filed under, in order.
pub open spec fn progression_keys(rows: Seq<ProgressionRow>) -> Seq<(Seq<char>, u64)> {
    rows.map_values(|r: ProgressionRow| (r.agent_run_id@, r.sequence))
}

/// How many of the first `n` progression rows belong to the agent run.
pub open spec fn progression_count(rows: Seq<ProgressionRow>, agent_run_id: Seq<char>, n: nat) -> nat
    decreases n,
{
    if n == 0 || n > rows.len() {
        0
    } else {
        progression_count(rows, agent_run_id, (n - 1) as nat) + if rows[n - 1].agent_run_id@ == agent_run_id {
            1nat
        } else {
            0nat
        }
    }
}

/// The progression row of the agent run filed at sequence `k`.
pub open spec fn progression_at(rows: Seq<ProgressionRow>, agent_run_id: Seq<char>, k: int) -> Option<int> {
    index_of(progression_keys(rows), (agent_run_id, k as u64))
}

/// The `k`-th record of the agent run is filed where it says, and names the record before it.
pub open spec fn progression_link(rows: Seq<ProgressionRow>, agent_run_id: Seq<char>, k: int) -> bool {
    match progression_at(rows, agent_run_id, k) {
        None => false,
        Some(i) => {
            let record = rows[i].record;
            &&& record.agent_run_id@ == agent_run_id
            &&& record.sequence == k
            &&& if k == 0 {
                record.previous_record_sha256 is None
            } else {
                match progression_at(rows, agent_run_id, k - 1) {
                    Some(p) => opt_text(record.previous_record_sha256) == Some(rows[p].record.record_sha256@),
                    None => false,
                }
            }
        },
    }
}

#[verifier::loop_isolation(false)]
fn find_metric(metrics: &Vec<MetricPoint>, metric: &MetricPoint) -> (r: Option<usize>)
    ensures
        match r {
            Some(i) => index_of(metric_keys(metrics@), (metric.run_id@, metric.name@, metric.step))
                == Some(i as int) && i < metrics@.len(),
            None => index_of(metric_keys(metrics@), (metric.run_id@, metric.name@, metric.step)) is None,
        },
{
    let ghost key = (metric.run_id@, metric.name@, metric.step);
    let mut i: usize = 0;
    while i < metrics.len()
        invariant
            i <= metrics.len(),
            forall|j: int| 0 <= j < i ==> metric_keys(metrics@)[j] != key,
        decreases metrics.len() - i,
    {
        assert(metric_keys(metrics@)[i as int] == (metrics@[i as int].run_id@, metrics@[i as int].name@, metrics@[i as int].step));
        if metrics[i].run_id == metric.run_id && metrics[i].name == metric.name && metrics[i].step
            == metric.step {
            proof {
                lemma_index_of_found(metric_keys(metrics@), key, i as int);
            }
            return Some(i);
        }
        i = i + 1;
    }
    proof {
        lemma_index_of_absent(metric_keys(metrics@), key);
    }
    None
}

#[verifier::loop_isolation(false)]
fn find_job(jobs: &Vec<ExternalJob>, job: &ExternalJob) -> (r: Option<usize>)
    ensures
        match r {
            Some(i) => index_of(job_keys(jobs@), (job.provider@, job.external_id@)) == Some(i as int)
                && i < jobs@.len(),
            None => index_of(job_keys(jobs@), (job.provider@, job.external_id@)) is None,
        },
{
    let ghost key = (job.provider@, job.external_id@);
    let mut i: usize = 0;
    while i < jobs.len()
        invariant
            i <= jobs.len(),
            forall|j: int| 0 <= j < i ==> job_keys(jobs@)[j] != key,
        decreases jobs.len() - i,
    {
        assert(job_keys(jobs@)[i as int] == (jobs@[i as int].provider@, jobs@[i as int].external_id@));
        if jobs[i].provider == job.provider && jobs[i].external_id == job.external_id {
            proof {
                lemma_index_of_found(job_keys(jobs@), key, i as int);
            }
            return Some(i);
        }
        i = i + 1;
    }
    proof {
        lemma_index_of_absent(job_keys(jobs@), key);
    }
    None
}

#[verifier::loop_isolation(false)]
fn find_projection(projections: &Vec<ObjectProjection>, p: &ObjectProjection) -> (r: Option<usize>)
    ensures
        match r {
            Some(i) => index_of(projection_keys(projections@), (p.campaign_id@, p.object_id@, p.space@))
                == Some(i as int) && i < projections@.len(),
            None => index_of(projection_keys(projections@), (p.campaign_id@, p.object_id@, p.space@)) is None,
        },
{
    let ghost key = (p.campaign_id@, p.object_id@, p.space@);
    let mut i: usize = 0;
    while i < projections.len()
        invariant
            i <= projections.len(),
            forall|j: int| 0 <= j < i ==> projection_keys(projections@)[j] != key,
        decreases projections.len() - i,
    {
        assert(projection_keys(projections@)[i as int] == (
            projections@[i as int].campaign_id@,
            projections@[i as int].object_id@,
            projections@[i as int].space@,
        ));
        if projections[i].campaign_id == p.campaign_id && projections[i].object_id == p.object_id
            && projections[i].space == p.space {
            proof {
                lemma_index_of_found(projection_keys(projections@), key, i as int);
            }
            return Some(i);
        }
        i = i + 1;
    }
    proof {
        lemma_index_of_absent(projection_keys(projections@), key);
    }
    None
}

#[verifier::loop_isolation(false)]
fn owned_by_input(rows: &Vec<ProjectInputRow>, artifact_id: &String) -> (r: bool)
    ensures
        r == (index_of(input_artifacts(rows@), artifact_id@) is Some),
{
    let mut k: usize = 0;
    while k < rows.len()
        invariant
            k <= rows.len(),
            forall|j: int| 0 <= j < k ==> input_artifacts(rows@)[j] != artifact_id@,
        decreases rows.len() - k,
    {
        if rows[k].record.artifact_id == *artifact_id {
            proof {
                lemma_index_of_found(input_artifacts(rows@), artifact_id@, k as int);
            }
            return true;
        }
        k = k + 1;
    }
    proof {
        lemma_index_of_absent(input_artifacts(rows@), artifact_id@);
    }
    false
}

fn is_finite_bits(bits: u64) -> (r: bool)
    ensures
        r == finite_bits(bits),
{
    (bits >> 52u64) & 0x7ffu64 != 0x7ffu64
}

fn same_opt(a: &Option<String>, b: &Option<String>) -> (r: bool)
    ensures
        r == (opt_text(*a) == opt_text(*b)),
{
    match (a, b) {
        (Some(x), Some(y)) => *x == *y,
        (None, None) => true,
        _ => false,
    }
}

fn coalesce_text(a: Option<String>, b: Option<String>) -> (r: Option<String>)
    ensures
        r == coalesce(a, b),
{
    match a {
        Some(x) => Some(x),
        None => b,
    }
}

fn coalesce_bits(a: Option<u64>, b: Option<u64>) -> (r: Option<u64>)
    ensures
        r == coalesce(a, b),
{
    match a {
        Some(x) => Some(x),
        None => b,
    }
}

impl Database {
    /// An empty store that its host persists at `path`.
    pub fn new(path: &str) -> (r: Result<Database, StoreError>)
        ensures
            r matches Ok(d) && d@.path == path@ && tables_empty(d@.tables),
    {
        Ok(
            Database {
                path: path.to_string(),
                tables: DatabaseTables {
                    campaigns: Vec::new(),
                    capabilities: Vec::new(),
                    runs: Vec::new(),
                    run_supervision: Vec::new(),
                    metrics: Vec::new(),
                    semantic_objects: Vec::new(),
                    semantic_relations: Vec::new(),
                    actions: Vec::new(),
                    events: Vec::new(),
                    external_jobs: Vec::new(),
                    providers: Vec::new(),
                    projections: Vec::new(),
                    artifacts: Vec::new(),
                    project_inputs: Vec::new(),
                    agent_progressions: Vec::new(),
                    science_records: Vec::new(),
                    capability_packages: Vec::new(),
                    mcp_discoveries: Vec::new(),
                    capability_qualifications: Vec::new(),
                    budgets: Vec::new(),
                    operational_imports: Vec::new(),
                    operational_sources: Vec::new(),
                },
            },
        )
    }

    /// A store over tables read back from storage.
    pub fn restore(path: &str, tables: DatabaseTables) -> (r: Database)
        ensures
            r@.path == path@,
            r@.tables == tables,
    {
        Database { path: path.to_string(), tables }
    }

    /// The store's tables, handed back to its host.
    pub fn into_tables(self) -> (r: (String, DatabaseTables))
        ensures
            r.0@ == self@.path,
            r.1 == self@.tables,
    {
        (self.path, self.tables)
    }

    /// The store's tables.
    pub fn tables(&self) -> (r: &DatabaseTables)
        ensures
            *r == self@.tables,
    {
        &self.tables
    }

    /// Where the host persists the store.
    pub fn path(&self) -> (r: &str)
        ensures
            r@ == self@.path,
    {
        self.path.as_str()
    }

    /// Whether the store holds no campaign.
    pub fn is_empty(&self) -> (r: Result<bool, StoreError>)
        ensures
            r matches Ok(empty) && empty == (self@.tables.campaigns@.len() == 0),
    {
        Ok(self.tables.campaigns.len() == 0)
    }

    /// The identifiers of the campaigns, in increasing order, each once.
    pub fn campaign_ids(&self) -> (r: Result<Vec<String>, StoreError>)
        ensures
            r matches Ok(ids) && sorted_unique(texts(ids@)) && forall|x: Seq<char>|
                names(ids@, x) <==> keys_of(self@.tables.campaigns@).contains(x),
    {
        let campaigns = &self.tables.campaigns;
        let mut ids: Vec<String> = Vec::new();
        let mut i: usize = 0;
        while i < campaigns.len()
            invariant
                i <= campaigns.len(),
                sorted_unique(texts(ids@)),
                forall|x: Seq<char>| names(ids@, x) <==> keys_of(campaigns@).take(i as int).contains(x),
            decreases campaigns.len() - i,
        {
            let ghost before = ids@;
            insert_sorted_unique(&mut ids, campaigns[i].id.clone());
            proof {
                let t = keys_of(campaigns@).take(i as int);
                let id = campaigns@[i as int].id@;
                assert(keys_of(campaigns@).take(i + 1) =~= t.push(id));
                assert forall|x: Seq<char>| t.push(id).contains(x) <==> (t.contains(x) || x == id) by {
                    if t.push(id).contains(x) {
                        let k = choose|k: int| 0 <= k < t.push(id).len() && t.push(id)[k] == x;
                        if k < t.len() {
                            assert(t[k] == x);
                        }
                    }
                    if t.contains(x) {
                        let k = choose|k: int| 0 <= k < t.len() && t[k] == x;
                        assert(t.push(id)[k] == x);
                    }
                    if x == id {
                        assert(t.push(id)[t.len() as int] == x);
                    }
                }
            }
            i = i + 1;
        }
        proof {
            assert(keys_of(campaigns@).take(campaigns@.len() as int) =~= keys_of(campaigns@));
        }
        Ok(ids)
    }

    /// The campaign with this identifier, if there is one.
    pub fn campaign(&self, campaign_id: &str) -> (r: Result<Option<Campaign>, StoreError>)
        ensures
            r matches Ok(found) && match row_index(self@.tables.campaigns@, campaign_id@) {
                Some(i) => found matches Some(c) && same_campaign(c, self@.tables.campaigns@[i]),
                None => found is None,
            },
    {
        let id = campaign_id.to_string();
        match find_row(&self.tables.campaigns, &id) {
            Some(i) => {
                Ok(Some(self.tables.campaigns[i].copy()))
            },
            None => Ok(None),
        }
    }

    /// The capability with this identifier.
    pub fn capability(&self, id: &str) -> (r: Result<Option<Capability>, StoreError>)
        ensures
            r matches Ok(found) && found == match row_index(self@.tables.capabilities@, id@) {
                Some(i) => Some(self@.tables.capabilities@[i]),
                None => None::<Capability>,
            },
    {
        let key = id.to_string();
        match find_row(&self.tables.capabilities, &key) {
            Some(i) => Ok(Some(self.tables.capabilities[i].copy())),
            None => Ok(None),
        }
    }

    /// The run with this identifier.
    pub fn run(&self, run_id: &str) -> (r: Result<Option<Run>, StoreError>)
        ensures
            r matches Ok(found) && match row_index(self@.tables.runs@, run_id@) {
                Some(i) => found matches Some(run) && same_run(run, self@.tables.runs@[i]),
                None => found is None,
            },
    {
        let key = run_id.to_string();
        match find_row(&self.tables.runs, &key) {
            Some(i) => Ok(Some(self.tables.runs[i].copy())),
            None => Ok(None),
        }
    }

    /// The provider profile with this identifier.
    pub fn provider(&self, provider_id: &str) -> (r: Result<Option<ProviderProfile>, StoreError>)
        ensures
            r matches Ok(found) && found == match row_index(self@.tables.providers@, provider_id@) {
                Some(i) => Some(self@.tables.providers@[i]),
                None => None::<ProviderProfile>,
            },
    {
        let key = provider_id.to_string();
        match find_row(&self.tables.providers, &key) {
            Some(i) => Ok(Some(self.tables.providers[i].copy())),
            None => Ok(None),
        }
    }

    /// The artifact record with this identifier.
    pub fn artifact(&self, artifact_id: &str) -> (r: Result<Option<Artifact>, StoreError>)
        ensures
            r matches Ok(found) && found == match row_index(self@.tables.artifacts@, artifact_id@) {
                Some(i) => Some(self@.tables.artifacts@[i]),
                None => None::<Artifact>,
            },
    {
        let key = artifact_id.to_string();
        match find_row(&self.tables.artifacts, &key) {
            Some(i) => Ok(Some(self.tables.artifacts[i].copy())),
            None => Ok(None),
        }
    }

    /// Registers a capability, replacing the one with its identifier.
    pub fn upsert_capability(&mut self, capability: Capability) -> (r: Result<(), StoreError>)
        ensures
            r is Ok,
            final(self)@.path == old(self)@.path,
            final(self)@.tables == (DatabaseTables { capabilities: final(self)@.tables.capabilities, ..old(self)@.tables }),
            upserted(old(self)@.tables.capabilities@, final(self)@.tables.capabilities@, capability),
    {
        upsert_row(&mut self.tables.capabilities, capability);
        Ok(())
    }

    /// Records one metric point of an existing run, replacing the point at its step.
    pub fn insert_metric(&mut self, metric: MetricPoint) -> (r: Result<(), StoreError>)
        ensures
            final(self)@.path == old(self)@.path,
            metric_post(old(self)@.tables, metric, final(self)@.tables, r),
    {
        if find_row(&self.tables.runs, &metric.run_id).is_none() {
            return Err(StoreError::Constraint("metric references an unknown run".to_string()));
        }
        match find_metric(&self.tables.metrics, &metric) {
            Some(i) => {
                self.tables.metrics.set(i, metric);
            },
            None => {
                self.tables.metrics.push(metric);
            },
        }
        Ok(())
    }

    /// The largest step of a series, where the series has points.
    #[verifier::loop_isolation(false)]
    fn max_step_exec(&self, run_id: &String, name: &String) -> (r: Option<i64>)
        ensures
            r == max_step(self@.tables.metrics@, run_id@, name@, self@.tables.metrics@.len()),
    {
        let metrics = &self.tables.metrics;
        let mut best: Option<i64> = None;
        let mut k: usize = 0;
        while k < metrics.len()
            invariant
                k <= metrics.len(),
                best == max_step(metrics@, run_id@, name@, k as nat),
            decreases metrics.len() - k,
        {
            if metrics[k].run_id == *run_id && metrics[k].name == *name {
                let step = metrics[k].step;
                best = match best {
                    Some(s) => Some(if step > s {
                        step
                    } else {
                        s
                    }),
                    None => Some(step),
                };
            }
            k = k + 1;
        }
        best
    }

    /// The step that follows the last point of a series: one past its largest step, or 0 for an
    /// empty series.
    pub fn next_metric_step(&self, run_id: &str, name: &str) -> (r: Result<i64, StoreError>)
        ensures
            match max_step(self@.tables.metrics@, run_id@, name@, self@.tables.metrics@.len()) {
                None => r matches Ok(step) && step == 0,
                Some(last) => if last < i64::MAX {
                    r matches Ok(step) && step == last + 1
                } else {
                    r matches Err(e) && e is Invalid
                },
            },
    {
        let id = run_id.to_string();
        let series = name.to_string();
        match self.max_step_exec(&id, &series) {
            None => Ok(0),
            Some(last) => if last < i64::MAX {
                Ok(last + 1)
            } else {
                Err(StoreError::Invalid("metric step sequence is exhausted".to_string()))
            },
        }
    }

    /// Records one metric point and, for a positive retention, drops the points of its series
    /// that lie `retention_points` or more steps behind the series' largest step.
    pub fn insert_metric_bounded(&mut self, metric: MetricPoint, retention_points: i64) -> (r: Result<(), StoreError>)
        ensures
            final(self)@.path == old(self)@.path,
            ({
                let run_id = metric.run_id@;
                let name = metric.name@;
                exists|mid: DatabaseTables|
                    #[trigger] metric_post(old(self)@.tables, metric, mid, r) && if r is Ok && retention_points > 0 {
                        let last = max_step(mid.metrics@, run_id, name, mid.metrics@.len()).unwrap();
                        &&& final(self)@.tables == (DatabaseTables { metrics: final(self)@.tables.metrics, ..mid })
                        &&& final(self)@.tables.metrics@ == retained(
                            mid.metrics@,
                            run_id,
                            name,
                            last - retention_points,
                            mid.metrics@.len(),
                        )
                    } else {
                        final(self)@.tables == mid
                    }
            }),
    {
        let run_id = metric.run_id.clone();
        let name = metric.name.clone();
        let ghost inserted = metric;
        let result = self.insert_metric(metric);
        let ghost mid = self@.tables;
        if result.is_err() || retention_points <= 0 {
            assert(metric_post(old(self)@.tables, inserted, mid, result));
            return result;
        }
        proof {
            let key = (run_id@, name@, inserted.step);
            lemma_index_of(metric_keys(old(self)@.tables.metrics@), key);
        }
        let last = match self.max_step_exec(&run_id, &name) {
            Some(last) => last,
            None => {
                proof {
                    lemma_series_has_inserted(old(self)@.tables.metrics@, mid.metrics@, inserted);
                }
                return result;
            },
        };
        let threshold: i128 = last as i128 - retention_points as i128;
        let metrics = &self.tables.metrics;
        let mut kept: Vec<MetricPoint> = Vec::new();
        let mut k: usize = 0;
        while k < metrics.len()
            invariant
                k <= metrics.len(),
                kept@ == retained(metrics@, run_id@, name@, threshold as int, k as nat),
            decreases metrics.len() - k,
        {
            let drop = metrics[k].run_id == run_id && metrics[k].name == name && metrics[k].step as i128
                <= threshold;
            if !drop {
                kept.push(metrics[k].copy());
            }
            k = k + 1;
        }
        self.tables.metrics = kept;
        result
    }

    /// Whether `object` may be written: it repeats the project input it projects, or claims no
    /// project input contract.
    fn object_admissible_exec(&self, object: &SemanticObject) -> (r: bool)
        ensures
            r == object_admissible(self@.tables, *object),
    {
        match find_row(&self.tables.project_inputs, &object.id) {
            Some(i) => {
                let row = &self.tables.project_inputs[i];
                let record = &row.record;
                let campaign_matches = match &object.campaign_id {
                    Some(c) => *c == record.campaign_id,
                    None => false,
                };
                let label_matches = match &object.label {
                    Some(l) => *l == record.logical_path,
                    None => false,
                };
                object.payload_json == row.record_json && object.semantic_type
                    == PROJECT_INPUT_CONTRACT.to_string() && object.kind == "input".to_string()
                    && campaign_matches && object.run_id.is_none() && object.state
                    == "attached".to_string() && label_matches && object.created_at
                    == record.created_at && object.updated_at == record.created_at
            },
            None => !(object.semantic_type == PROJECT_INPUT_CONTRACT.to_string()),
        }
    }

    /// Writes an admissible object over the one with its identifier, keeping its creation time.
    fn store_object(&mut self, object: SemanticObject)
        ensures
            final(self)@.path == old(self)@.path,
            final(self)@.tables == (DatabaseTables {
                semantic_objects: final(self)@.tables.semantic_objects,
                ..old(self)@.tables
            }),
            object_stored(old(self)@.tables.semantic_objects@, final(self)@.tables.semantic_objects@, object),
    {
        match find_row(&self.tables.semantic_objects, &object.id) {
            Some(i) => {
                let created_at = self.tables.semantic_objects[i].created_at.clone();
                let ghost kept = self.tables.semantic_objects@[i as int].created_at;
                let stored = SemanticObject { created_at, ..object };
                assert(stored.created_at@ == kept@);
                self.tables.semantic_objects.set(i, stored);
            },
            None => {
                self.tables.semantic_objects.push(object);
            },
        }
    }

    /// Writes a semantic object, keeping the creation time of the one it replaces. An object that
    /// projects an accepted project input must repeat it exactly.
    pub fn upsert_semantic_object(&mut self, object: SemanticObject) -> (r: Result<(), StoreError>)
        ensures
            final(self)@.path == old(self)@.path,
            object_post(old(self)@.tables, object, final(self)@.tables, r),
    {
        if !self.object_admissible_exec(&object) {
            if find_row(&self.tables.project_inputs, &object.id).is_some() {
                return Err(StoreError::Invalid("accepted project input projection is immutable".to_string()));
            }
            return Err(StoreError::Invalid("project input records must use the input attachment boundary".to_string()));
        }
        self.store_object(object);
        Ok(())
    }

    /// The request's references checked against the store: `None` where they hold, else why
    /// the first of them that does not hold is refused.
    #[verifier::loop_isolation(false)]
    fn note_reference_refusal(&self, campaign_id: &String, run_id: &Option<String>, target: &String) -> (r: Option<String>)
        ensures
            ({
                let cid = campaign_id@;
                let run = opt_text(*run_id);
                let tables = self@.tables;
                let hold = {
                    &&& row_index(tables.campaigns@, cid) is Some
                    &&& (run matches Some(x) ==> run_campaign(tables, x) == Some(cid))
                    &&& (target@ != cid && run != Some(target@) ==> (run_campaign(tables, target@) == Some(cid)
                        || object_campaign(tables, target@) == Some(Some(cid))))
                };
                match r {
                    None => hold,
                    Some(m) => !hold && m@ == if row_index(tables.campaigns@, cid) is None {
                        "unknown campaign "@ + cid
                    } else if run matches Some(x) && run_campaign(tables, x) is None {
                        "unknown run "@ + run.unwrap()
                    } else if run matches Some(x) && run_campaign(tables, x) != Some(cid) {
                        "run "@ + run.unwrap() + " does not belong to campaign "@ + cid
                    } else {
                        "note target "@ + target@ + " is not part of campaign "@ + cid
                    },
                }
            }),
    {
        if find_row(&self.tables.campaigns, campaign_id).is_none() {
            let mut message = "unknown campaign ".to_string();
            message.append(campaign_id.as_str());
            return Some(message);
        }
        match run_id {
            Some(run) => match find_row(&self.tables.runs, run) {
                Some(i) => {
                    if !(self.tables.runs[i].campaign_id == *campaign_id) {
                        let mut message = "run ".to_string();
                        message.append(run.as_str());
                        message.append(" does not belong to campaign ");
                        message.append(campaign_id.as_str());
                        return Some(message);
                    }
                },
                None => {
                    let mut message = "unknown run ".to_string();
                    message.append(run.as_str());
                    return Some(message);
                },
            },
            None => {},
        }
        let target_is_run = match run_id {
            Some(run) => *run == *target,
            None => false,
        };
        if *target == *campaign_id || target_is_run {
            return None;
        }
        let run_owned = match find_row(&self.tables.runs, target) {
            Some(i) => self.tables.runs[i].campaign_id == *campaign_id,
            None => false,
        };
        let object_owned = match find_row(&self.tables.semantic_objects, target) {
            Some(j) => match &self.tables.semantic_objects[j].campaign_id {
                Some(c) => *c == *campaign_id,
                None => false,
            },
            None => false,
        };
        if run_owned || object_owned {
            None
        } else {
            let mut message = "note target ".to_string();
            message.append(target.as_str());
            message.append(" is not part of campaign ");
            message.append(campaign_id.as_str());
            Some(message)
        }
    }

    /// Records a campaign note at `now` under identifiers ending in `suffix`: the note object,
    /// the relation attaching it to its target, its creation action and its ledger entry are
    /// written together, or nothing is.
    #[verifier::spinoff_prover]
    #[verifier::rlimit(40)]
    pub fn create_note_at(&mut self, request: &CreateNoteRequest, now: &String, suffix: &String) -> (r: Result<NoteResponse, StoreError>)
        ensures
            final(self)@.path == old(self)@.path,
            note_post(old(self)@.tables, *request, now@, suffix@, final(self)@.tables, r),
    {
        let campaign_id = trim_text(request.campaign_id.as_str());
        let (cid_length, _) = measure_text(campaign_id.as_str());
        if cid_length == 0 {
            return Err(StoreError::Invalid("campaignId is required".to_string()));
        }
        let category = match canonical_category(request.category.as_str()) {
            Some(c) => c,
            None => {
                let mut message = "unsupported note category ".to_string();
                let lowered = ascii_lowercase(trim_text(request.category.as_str()).as_str());
                message.append(lowered.as_str());
                return Err(StoreError::Invalid(message));
            },
        };
        let severity = match canonical_severity(request.severity.as_str()) {
            Some(c) => c,
            None => {
                let mut message = "unsupported note severity ".to_string();
                let lowered = ascii_lowercase(trim_text(request.severity.as_str()).as_str());
                message.append(lowered.as_str());
                return Err(StoreError::Invalid(message));
            },
        };
        let title = trim_text(request.title.as_str());
        let (title_length, _) = measure_text(title.as_str());
        if title_length == 0 || title_length > 240 {
            return Err(StoreError::Invalid("note title must contain between 1 and 240 characters".to_string()));
        }
        let body = trim_text(request.body.as_str());
        let (body_length, _) = measure_text(body.as_str());
        if body_length == 0 || body_length > 32000 {
            return Err(StoreError::Invalid("note body must contain between 1 and 32000 characters".to_string()));
        }
        let actor = trim_text(request.actor.as_str());
        let (actor_length, _) = measure_text(actor.as_str());
        if actor_length == 0 || actor_length > 160 {
            return Err(StoreError::Invalid("note actor must contain between 1 and 160 characters".to_string()));
        }
        if request.labels.len() > 32 {
            return Err(StoreError::Invalid("notes support at most 32 labels".to_string()));
        }
        let labels = match normalize_labels(&request.labels) {
            Some(labels) => labels,
            None => {
                return Err(StoreError::Invalid("note labels may not exceed 80 characters".to_string()));
            },
        };
        let provenance = match reencode_json(request.provenance_json.as_str()) {
            Ok(text) => {
                if !starts_object(text.as_str()) {
                    return Err(StoreError::Invalid("note provenance must be a JSON object".to_string()));
                }
                text
            },
            Err(_) => {
                return Err(StoreError::Invalid("note provenance must be a JSON object".to_string()));
            },
        };
        proof {
            assert(note_request_valid(*request));
        }
        let run_id = trimmed_option(&request.run_id);
        let target = match trimmed_option(&request.target_id) {
            Some(t) => t,
            None => match &run_id {
                Some(r) => r.clone(),
                None => campaign_id.clone(),
            },
        };
        assert(target@ == note_target(*request));
        match self.note_reference_refusal(&campaign_id, &run_id, &target) {
            Some(message) => {
                return Err(StoreError::Constraint(message));
            },
            None => {},
        }
        let mut id = "note:".to_string();
        id.append(suffix.as_str());
        assert(id@ =~= note_id(suffix@));
        if find_row(&self.tables.project_inputs, &id).is_some() {
            return Err(StoreError::Invalid("project input records must use the input attachment boundary".to_string()));
        }
        let payload = note_payload_json(
            category,
            severity,
            body.as_str(),
            actor.as_str(),
            &labels,
            target.as_str(),
            provenance.as_str(),
        );
        let note = SemanticObject {
            id: id.clone(),
            campaign_id: Some(campaign_id.clone()),
            run_id: run_id.clone(),
            kind: "note".to_string(),
            semantic_type: NOTE_CONTRACT.to_string(),
            state: category.to_string(),
            label: Some(title),
            payload_json: payload,
            created_at: now.clone(),
            updated_at: now.clone(),
        };
        let mut relation_id = "relation:note:".to_string();
        relation_id.append(suffix.as_str());
        relation_id.append(":annotates");
        let relation = SemanticRelation {
            id: relation_id,
            campaign_id: Some(campaign_id.clone()),
            run_id: run_id.clone(),
            subject_id: id.clone(),
            predicate: "annotates".to_string(),
            object_id: target.clone(),
            payload_json: "{\"internal\":true}".to_string(),
            timestamp: now.clone(),
        };
        let mut action_id = "action:note:".to_string();
        action_id.append(suffix.as_str());
        action_id.append(":created");
        let action = ActionRecord {
            id: action_id,
            campaign_id: Some(campaign_id.clone()),
            run_id: run_id.clone(),
            action_type: "note_created".to_string(),
            actor,
            target_id: Some(id.clone()),
            status: "completed".to_string(),
            payload_json: note_action_payload_json(category, severity),
            timestamp: now.clone(),
        };
        let mut event_id = "event:note:".to_string();
        event_id.append(suffix.as_str());
        event_id.append(":recorded");
        let event = LedgerEvent {
            id: event_id,
            campaign_id: Some(campaign_id),
            run_id,
            object_type: "campaign_note".to_string(),
            object_id: id,
            verb: "note_recorded".to_string(),
            timestamp: now.clone(),
            payload_json: note_event_payload_json(category, severity, target.as_str()),
        };
        proof {
            reveal_strlit("concord.campaign_note/1");
            reveal_strlit("concord.project-input/1");
            assert(note.semantic_type@[8] != PROJECT_INPUT_CONTRACT@[8]);
            assert(object_admissible(self@.tables, note));
            assert(is_note(note, *request, now@, suffix@));
            assert(is_note_relation(relation, *request, now@, suffix@));
            assert(is_note_action(action, *request, now@, suffix@));
            assert(is_note_event(event, *request, now@, suffix@));
        }
        let ghost stored_event = event;
        let ghost before = self@.tables;
        self.store_object(note.copy());
        upsert_row(&mut self.tables.semantic_relations, relation.copy());
        upsert_row(&mut self.tables.actions, action.copy());
        upsert_row(&mut self.tables.events, event);
        proof {
            assert(is_note_event(stored_event, *request, now@, suffix@) && self@.tables.events@ == with_row(
                before.events@,
                stored_event,
            ));
        }
        Ok(NoteResponse { note, action, relation })
    }

    /// Records a campaign note now, under fresh random identifiers.
    pub fn create_note(&mut self, request: &CreateNoteRequest) -> (r: Result<NoteResponse, StoreError>)
        ensures
            final(self)@.path == old(self)@.path,
            exists|now: Seq<char>, suffix: Seq<char>|
                note_post(old(self)@.tables, *request, now, suffix, final(self)@.tables, r),
    {
        let now = now_rfc3339();
        let suffix = fresh_uuid_simple();
        self.create_note_at(request, &now, &suffix)
    }

    /// The notes of a campaign, most recently updated first.
    pub fn notes_for_campaign(&self, campaign_id: &str) -> (r: Result<Vec<SemanticObject>, StoreError>)
        ensures
            row_index(self@.tables.campaigns@, campaign_id@) is None ==> (r matches Err(e) && e is Constraint),
            row_index(self@.tables.campaigns@, campaign_id@) is Some ==> (r matches Ok(notes) && descending(notes@)
                && notes@.to_multiset() == campaign_notes(
                self@.tables.semantic_objects@,
                campaign_id@,
                self@.tables.semantic_objects@.len(),
            ).to_multiset()),
    {
        let cid = campaign_id.to_string();
        if find_row(&self.tables.campaigns, &cid).is_none() {
            return Err(StoreError::Constraint("unknown campaign".to_string()));
        }
        let objects = &self.tables.semantic_objects;
        let contract = NOTE_CONTRACT.to_string();
        let mut notes: Vec<SemanticObject> = Vec::new();
        let mut k: usize = 0;
        while k < objects.len()
            invariant
                k <= objects.len(),
                contract@ == NOTE_CONTRACT@,
                notes@ == campaign_notes(objects@, cid@, k as nat),
            decreases objects.len() - k,
        {
            let belongs = match &objects[k].campaign_id {
                Some(c) => *c == cid,
                None => false,
            };
            if belongs && objects[k].semantic_type == contract {
                notes.push(objects[k].copy());
            }
            k = k + 1;
        }
        Ok(sort_descending(notes))
    }

    /// Enters an event in the ledger at `now` under the identifier `"evt_" + suffix`, replacing
    /// an entry with that identifier.
    pub fn record_event_at(
        &mut self,
        campaign_id: Option<String>,
        run_id: Option<String>,
        object_type: &str,
        object_id: &str,
        verb: &str,
        payload_json: &str,
        now: &String,
        suffix: &String,
    ) -> (r: LedgerEvent)
        ensures
            final(self)@.path == old(self)@.path,
            is_ledger_event(r, opt_text(campaign_id), opt_text(run_id), object_type@, object_id@, verb@, payload_json@, now@, suffix@),
            final(self)@.tables == (DatabaseTables { events: final(self)@.tables.events, ..old(self)@.tables }),
            final(self)@.tables.events@ == with_row(old(self)@.tables.events@, r),
    {
        let mut id = "evt_".to_string();
        id.append(suffix.as_str());
        let event = LedgerEvent {
            id,
            campaign_id,
            run_id,
            object_type: object_type.to_string(),
            object_id: object_id.to_string(),
            verb: verb.to_string(),
            timestamp: now.clone(),
            payload_json: payload_json.to_string(),
        };
        let stored = LedgerEvent {
            id: event.id.clone(),
            campaign_id: match &event.campaign_id {
                Some(c) => Some(c.clone()),
                None => None,
            },
            run_id: match &event.run_id {
                Some(c) => Some(c.clone()),
                None => None,
            },
            object_type: event.object_type.clone(),
            object_id: event.object_id.clone(),
            verb: event.verb.clone(),
            timestamp: event.timestamp.clone(),
            payload_json: event.payload_json.clone(),
        };
        assert(stored == event);
        upsert_row(&mut self.tables.events, stored);
        event
    }

    /// Enters an event in the ledger now, under a fresh random identifier.
    pub fn record_event(
        &mut self,
        campaign_id: Option<String>,
        run_id: Option<String>,
        object_type: &str,
        object_id: &str,
        verb: &str,
        payload_json: &str,
    ) -> (r: LedgerEvent)
        ensures
            final(self)@.path == old(self)@.path,
            exists|now: Seq<char>, suffix: Seq<char>|
                is_ledger_event(r, opt_text(campaign_id), opt_text(run_id), object_type@, object_id@, verb@, payload_json@, now, suffix),
            final(self)@.tables == (DatabaseTables { events: final(self)@.tables.events, ..old(self)@.tables }),
            final(self)@.tables.events@ == with_row(old(self)@.tables.events@, r),
    {
        let now = now_rfc3339();
        let suffix = fresh_uuid_simple();
        self.record_event_at(campaign_id, run_id, object_type, object_id, verb, payload_json, &now, &suffix)
    }

    /// Binds a capability to a campaign or unbinds it at `now`, entering the change in the ledger
    /// under the identifier `"evt_" + suffix`.
    pub fn set_campaign_capability_at(
        &mut self,
        campaign_id: &str,
        update: &CampaignCapabilityUpdate,
        now: &String,
        suffix: &String,
    ) -> (r: Result<(), StoreError>)
        ensures
            final(self)@.path == old(self)@.path,
            binding_post(old(self)@.tables, campaign_id@, *update, now@, suffix@, final(self)@.tables, r),
    {
        let cid = campaign_id.to_string();
        let i = match find_row(&self.tables.campaigns, &cid) {
            Some(i) => i,
            None => {
                return Err(StoreError::Constraint("unknown campaign".to_string()));
            },
        };
        if find_row(&self.tables.capabilities, &update.capability_id).is_none() {
            return Err(StoreError::Constraint("unknown capability".to_string()));
        }
        let ghost before = self@.tables;
        let mut campaign = self.tables.campaigns.remove(i);
        let ghost original = campaign;
        if update.enabled {
            insert_sorted_unique(&mut campaign.capability_ids, update.capability_id.clone());
        } else {
            let kept = remove_name(&campaign.capability_ids, &update.capability_id);
            campaign.capability_ids = kept;
        }
        self.tables.campaigns.insert(i, campaign);
        proof {
            assert(self@.tables.campaigns@ =~= before.campaigns@.update(i as int, self@.tables.campaigns@[i as int]));
        }
        let verb = if update.enabled {
            "bound"
        } else {
            "unbound"
        };
        let ghost mid = self@.tables;
        let event = self.record_event_at(
            Some(cid),
            None,
            "capability_binding",
            update.capability_id.as_str(),
            verb,
            "{}",
            now,
            suffix,
        );
        proof {
            let c = before.campaigns@[i as int];
            let updated = self@.tables.campaigns@[i as int];
            assert(original == c);
            assert(updated == (Campaign { capability_ids: updated.capability_ids, ..c }));
            assert(texts(updated.capability_ids@) == updated_bindings(texts(c.capability_ids@), *update));
            assert(is_ledger_event(
                event,
                Some(campaign_id@),
                None,
                "capability_binding"@,
                update.capability_id@,
                binding_verb(update.enabled),
                "{}"@,
                now@,
                suffix@,
            ));
            assert forall|j: int| 0 <= j < before.campaigns@.len() && j != i implies self@.tables.campaigns@[j]
                == before.campaigns@[j] by {
                assert(mid.campaigns@[j] == before.campaigns@.update(i as int, updated)[j]);
            }
        }
        Ok(())
    }

    /// Binds a capability to a campaign or unbinds it now, under a fresh ledger identifier.
    pub fn set_campaign_capability(&mut self, campaign_id: &str, update: &CampaignCapabilityUpdate) -> (r: Result<(), StoreError>)
        ensures
            final(self)@.path == old(self)@.path,
            exists|now: Seq<char>, suffix: Seq<char>|
                binding_post(old(self)@.tables, campaign_id@, *update, now, suffix, final(self)@.tables, r),
    {
        let now = now_rfc3339();
        let suffix = fresh_uuid_simple();
        self.set_campaign_capability_at(campaign_id, update, &now, &suffix)
    }

    /// The run's metric points after `after_step` (all of them where none is given), ordered by
    /// step and then name, at most `limit` of them (kept between 1 and 20000).
    pub fn metrics_for_run(&self, run_id: &str, after_step: Option<i64>, limit: i64) -> (r: Result<
        Vec<MetricPoint>,
        StoreError,
    >)
        ensures
            r matches Ok(points) && exists|all: Seq<MetricPoint>|
                metrics_ordered(all) && all.to_multiset() == run_metrics(
                    self@.tables.metrics@,
                    run_id@,
                    after_step,
                    self@.tables.metrics@.len(),
                ).to_multiset() && points@ == (if all.len() <= metric_limit(limit) {
                    all
                } else {
                    all.subrange(0, metric_limit(limit))
                }),
    {
        let id = run_id.to_string();
        let metrics = &self.tables.metrics;
        let mut selected: Vec<MetricPoint> = Vec::new();
        let mut k: usize = 0;
        while k < metrics.len()
            invariant
                k <= metrics.len(),
                selected@ == run_metrics(metrics@, id@, after_step, k as nat),
            decreases metrics.len() - k,
        {
            let after = match after_step {
                Some(s) => metrics[k].step > s,
                None => true,
            };
            if metrics[k].run_id == id && after {
                selected.push(metrics[k].copy());
            }
            k = k + 1;
        }
        let mut sorted = sort_metrics(selected);
        let ghost all = sorted@;
        let bound: usize = if limit < 1 {
            1
        } else if limit > 20000 {
            20000
        } else {
            limit as usize
        };
        sorted.truncate(bound);
        Ok(sorted)
    }

    /// Writes a semantic relation over the one with its identifier.
    pub fn upsert_semantic_relation(&mut self, relation: SemanticRelation) -> (r: Result<(), StoreError>)
        ensures
            r is Ok,
            final(self)@.path == old(self)@.path,
            final(self)@.tables == (DatabaseTables { semantic_relations: final(self)@.tables.semantic_relations, ..old(self)@.tables }),
            upserted(old(self)@.tables.semantic_relations@, final(self)@.tables.semantic_relations@, relation),
    {
        upsert_row(&mut self.tables.semantic_relations, relation);
        Ok(())
    }

    /// Writes an action over the one with its identifier.
    pub fn upsert_action(&mut self, action: ActionRecord) -> (r: Result<(), StoreError>)
        ensures
            r is Ok,
            final(self)@.path == old(self)@.path,
            final(self)@.tables == (DatabaseTables { actions: final(self)@.tables.actions, ..old(self)@.tables }),
            upserted(old(self)@.tables.actions@, final(self)@.tables.actions@, action),
    {
        upsert_row(&mut self.tables.actions, action);
        Ok(())
    }

    /// Writes a provider profile over the one with its identifier.
    pub fn upsert_provider(&mut self, provider: ProviderProfile) -> (r: Result<(), StoreError>)
        ensures
            r is Ok,
            final(self)@.path == old(self)@.path,
            final(self)@.tables == (DatabaseTables { providers: final(self)@.tables.providers, ..old(self)@.tables }),
            upserted(old(self)@.tables.providers@, final(self)@.tables.providers@, provider),
    {
        upsert_row(&mut self.tables.providers, provider);
        Ok(())
    }

    /// Records a provider's report of a job: a job already known by provider and external
    /// identifier keeps its identity and every optional fact the report leaves out.
    pub fn upsert_external_job(&mut self, job: ExternalJob) -> (r: Result<(), StoreError>)
        ensures
            final(self)@.path == old(self)@.path,
            job_post(old(self)@.tables, job, final(self)@.tables, r),
    {
        if write_job(&mut self.tables.external_jobs, job) {
            Ok(())
        } else {
            Err(StoreError::Constraint("external job identifier is already taken".to_string()))
        }
    }

    /// Places an object in a projection space of an existing campaign. Coordinates must be
    /// finite; a placement already known for the campaign, object and space keeps its identity.
    pub fn upsert_projection(&mut self, projection: ObjectProjection) -> (r: Result<(), StoreError>)
        ensures
            final(self)@.path == old(self)@.path,
            projection_post(old(self)@.tables, projection, final(self)@.tables, r),
    {
        let z_finite = match projection.z_bits {
            Some(z) => is_finite_bits(z),
            None => true,
        };
        if !is_finite_bits(projection.x_bits) || !is_finite_bits(projection.y_bits) || !z_finite {
            return Err(StoreError::Invalid("projection coordinates must be finite".to_string()));
        }
        if find_row(&self.tables.campaigns, &projection.campaign_id).is_none() {
            return Err(StoreError::Constraint("projection references an unknown campaign".to_string()));
        }
        match find_projection(&self.tables.projections, &projection) {
            Some(i) => {
                let existing = self.tables.projections.remove(i);
                let placed = ObjectProjection { id: existing.id, ..projection };
                self.tables.projections.insert(i, placed);
                proof {
                    assert(self@.tables.projections@ =~= old(self)@.tables.projections@.update(
                        i as int,
                        ObjectProjection { id: old(self)@.tables.projections@[i as int].id, ..projection },
                    ));
                }
                Ok(())
            },
            None => {
                if find_row(&self.tables.projections, &projection.id).is_some() {
                    return Err(StoreError::Constraint("projection identifier is already taken".to_string()));
                }
                self.tables.projections.push(projection);
                Ok(())
            },
        }
    }

    /// Records an artifact's metadata; the metadata of an artifact a project input owns is
    /// immutable.
    pub fn insert_artifact(&mut self, artifact: Artifact) -> (r: Result<(), StoreError>)
        ensures
            final(self)@.path == old(self)@.path,
            artifact_post(old(self)@.tables, artifact, final(self)@.tables, r),
    {
        let owned = owned_by_input(&self.tables.project_inputs, &artifact.id);
        if owned {
            let identical = match find_row(&self.tables.artifacts, &artifact.id) {
                Some(i) => {
                    proof {
                        lemma_index_of(keys_of(self@.tables.artifacts@), artifact.id@);
                    }
                    let a = &self.tables.artifacts[i];
                    same_opt(&a.run_id, &artifact.run_id) && a.kind == artifact.kind && a.media_type
                        == artifact.media_type && a.byte_size == artifact.byte_size && a.path
                        == artifact.path && same_opt(&a.source_path, &artifact.source_path)
                        && a.created_at == artifact.created_at
                },
                None => false,
            };
            if identical {
                return Ok(());
            }
            return Err(
                StoreError::Invalid("accepted project input artifact metadata is immutable".to_string()),
            );
        }
        upsert_row(&mut self.tables.artifacts, artifact);
        Ok(())
    }

    /// The runs this runtime supervises that are queued, running or recovering: those it may
    /// safely reattach after a restart.
    pub fn recoverable_local_runs(&self) -> (r: Result<Vec<Run>, StoreError>)
        ensures
            r matches Ok(runs) && runs@.len() == recoverable_runs(self@.tables, self@.tables.runs@.len()).len()
                && forall|k: int|
                0 <= k < runs@.len() ==> same_run(
                    #[trigger] runs@[k],
                    recoverable_runs(self@.tables, self@.tables.runs@.len())[k],
                ),
    {
        let runs = &self.tables.runs;
        let mut out: Vec<Run> = Vec::new();
        let mut i: usize = 0;
        while i < runs.len()
            invariant
                i <= runs.len(),
                runs == &self.tables.runs,
                out@.len() == recoverable_runs(self@.tables, i as nat).len(),
                forall|k: int|
                    0 <= k < out@.len() ==> same_run(#[trigger] out@[k], recoverable_runs(self@.tables, i as nat)[k]),
            decreases runs.len() - i,
        {
            let run = &runs[i];
            let active = run.status == "queued".to_string() || run.status == "running".to_string()
                || run.status == "recovering".to_string();
            let supervised = contains_str(&self.tables.run_supervision, &run.id);
            proof {
                assert(names(self@.tables.run_supervision@, run.id@) == exists|j: int|
                    0 <= j < self@.tables.run_supervision@.len() && #[trigger] self@.tables.run_supervision@[j]@
                        == run.id@);
            }
            if active && supervised {
                out.push(run.copy());
            }
            i = i + 1;
        }
        Ok(out)
    }

    /// Records a research exchange atomically: both messages, their relation and the action, or
    /// nothing when either message may not be written.
    pub fn record_research_exchange(
        &mut self,
        user_message: SemanticObject,
        assistant_message: SemanticObject,
        relation: SemanticRelation,
        action: ActionRecord,
    ) -> (r: Result<(), StoreError>)
        ensures
            final(self)@.path == old(self)@.path,
            exchange_post(old(self)@.tables, user_message, assistant_message, relation, action, final(self)@.tables, r),
    {
        if !self.object_admissible_exec(&user_message) || !self.object_admissible_exec(&assistant_message) {
            return Err(
                StoreError::Invalid(
                    "accepted project input projection is immutable, and only the input attachment boundary records project inputs".to_string(),
                ),
            );
        }
        self.store_object(user_message);
        self.store_object(assistant_message);
        upsert_row(&mut self.tables.semantic_relations, relation);
        upsert_row(&mut self.tables.actions, action);
        Ok(())
    }

    /// The input versions of a campaign by logical path and version, once each is found to
    /// continue its file's lineage.
    #[verifier::loop_isolation(false)]
    pub fn project_inputs(&self, campaign_id: &str) -> (r: Result<Vec<ProjectInputVersion>, StoreError>)
        ensures
            match r {
                Ok(records) => {
                    &&& input_listing(self@.tables.project_inputs@, campaign_id@, records@)
                    &&& lineage_chain(records@, campaign_id@)
                    &&& forall|s: Seq<ProjectInputVersion>|
                        #[trigger] input_listing(self@.tables.project_inputs@, campaign_id@, s) ==> s == records@
                },
                Err(e) => {
                    &&& e is Invalid
                    &&& exists|s: Seq<ProjectInputVersion>|
                        input_listing(self@.tables.project_inputs@, campaign_id@, s) && !lineage_chain(s, campaign_id@)
                    &&& forall|s: Seq<ProjectInputVersion>|
                        #[trigger] input_listing(self@.tables.project_inputs@, campaign_id@, s) ==> !lineage_chain(s, campaign_id@)
                },
            },
    {
        let cid = campaign_id.to_string();
        let rows = &self.tables.project_inputs;
        let mut selected: Vec<ProjectInputVersion> = Vec::new();
        let mut k: usize = 0;
        while k < rows.len()
            invariant
                k <= rows.len(),
                selected@ == campaign_inputs(rows@, cid@, k as nat),
            decreases rows.len() - k,
        {
            if rows[k].record.campaign_id == cid {
                selected.push(rows[k].record.copy());
            }
            k = k + 1;
        }
        let records = sort_inputs(selected);
        let mut i: usize = 0;
        while i < records.len()
            invariant
                i <= records.len(),
                forall|m: int| 0 <= m < i ==> #[trigger] lineage_link(records@, cid@, m),
            decreases records.len() - i,
        {
            let r = &records[i];
            let linked = if i > 0 && records[i - 1].logical_path == r.logical_path {
                let p = &records[i - 1];
                let names_parent = match (&r.previous_version_id, &r.previous_version_sha256) {
                    (Some(id), Some(sha)) => *id == p.id && *sha == p.record_sha256,
                    _ => false,
                };
                names_parent && p.version < u64::MAX && r.version == p.version + 1
            } else {
                r.previous_version_id.is_none() && r.previous_version_sha256.is_none() && r.version == 1
            };
            if !(r.campaign_id == cid) || !linked {
                proof {
                    assert(!lineage_link(records@, cid@, i as int));
                    assert(input_listing(self@.tables.project_inputs@, campaign_id@, records@));
                    assert(!lineage_chain(records@, campaign_id@));
                    assert forall|s: Seq<ProjectInputVersion>|
                        #[trigger] input_listing(self@.tables.project_inputs@, campaign_id@, s) implies !lineage_chain(s, campaign_id@) by {
                        if lineage_chain(s, campaign_id@) {
                            lemma_input_listing_is_determined(self@.tables.project_inputs@, campaign_id@, s, records@);
                        }
                    }
                }
                return Err(StoreError::Invalid("project input lineage mismatch".to_string()));
            }
            i = i + 1;
        }
        proof {
            assert forall|s: Seq<ProjectInputVersion>|
                #[trigger] input_listing(self@.tables.project_inputs@, campaign_id@, s) implies s == records@ by {
                lemma_input_listing_is_determined(self@.tables.project_inputs@, campaign_id@, records@, s);
            }
        }
        Ok(records)
    }

    /// The input version that owns an artifact.
    #[verifier::loop_isolation(false)]
    pub fn project_input_for_artifact(&self, artifact_id: &str) -> (r: Result<Option<ProjectInputVersion>, StoreError>)
        ensures
            r matches Ok(found) && found == match index_of(input_artifacts(self@.tables.project_inputs@), artifact_id@) {
                Some(i) => Some(self@.tables.project_inputs@[i].record),
                None => None::<ProjectInputVersion>,
            },
    {
        let wanted = artifact_id.to_string();
        let rows = &self.tables.project_inputs;
        let mut k: usize = 0;
        while k < rows.len()
            invariant
                k <= rows.len(),
                forall|j: int| 0 <= j < k ==> input_artifacts(rows@)[j] != wanted@,
            decreases rows.len() - k,
        {
            assert(input_artifacts(rows@)[k as int] == rows@[k as int].record.artifact_id@);
            if rows[k].record.artifact_id == wanted {
                proof {
                    lemma_index_of_found(input_artifacts(rows@), wanted@, k as int);
                }
                return Ok(Some(rows[k].record.copy()));
            }
            k = k + 1;
        }
        proof {
            lemma_index_of_absent(input_artifacts(rows@), wanted@);
        }
        Ok(None)
    }

    /// One version of a campaign's project input, found in the campaign's checked listing.
    #[verifier::loop_isolation(false)]
    pub fn project_input(&self, campaign_id: &str, id: &str) -> (r: Result<Option<ProjectInputVersion>, StoreError>)
        ensures
            match r {
                Ok(found) => {
                    &&& exists|s: Seq<ProjectInputVersion>|
                        input_listing(self@.tables.project_inputs@, campaign_id@, s) && lineage_chain(s, campaign_id@)
                            && found == first_with_id(s, id@, s.len())
                    &&& forall|s: Seq<ProjectInputVersion>|
                        #[trigger] input_listing(self@.tables.project_inputs@, campaign_id@, s) ==> found == first_with_id(
                            s,
                            id@,
                            s.len(),
                        )
                },
                Err(e) => {
                    &&& e is Invalid
                    &&& exists|s: Seq<ProjectInputVersion>|
                        input_listing(self@.tables.project_inputs@, campaign_id@, s) && !lineage_chain(s, campaign_id@)
                    &&& forall|s: Seq<ProjectInputVersion>|
                        #[trigger] input_listing(self@.tables.project_inputs@, campaign_id@, s) ==> !lineage_chain(s, campaign_id@)
                },
            },
    {
        let records = match self.project_inputs(campaign_id) {
            Ok(records) => records,
            Err(e) => {
                return Err(e);
            },
        };
        let wanted = id.to_string();
        let mut i: usize = 0;
        while i < records.len()
            invariant
                i <= records.len(),
                first_with_id(records@, wanted@, i as nat) is None,
            decreases records.len() - i,
        {
            if records[i].id == wanted {
                assert(first_with_id(records@, wanted@, (i + 1) as nat) == Some(records@[i as int]));
                proof {
                    lemma_first_with_id_stays(records@, wanted@, (i + 1) as nat, records@.len());
                }
                let found = records[i].copy();
                assert(input_listing(self@.tables.project_inputs@, campaign_id@, records@) && lineage_chain(
                    records@,
                    campaign_id@,
                ) && Some(found) == first_with_id(records@, id@, records@.len()));
                return Ok(Some(found));
            }
            i = i + 1;
        }
        assert(input_listing(self@.tables.project_inputs@, campaign_id@, records@) && lineage_chain(
            records@,
            campaign_id@,
        ) && None::<ProjectInputVersion> == first_with_id(records@, id@, records@.len()));
        Ok(None)
    }

    /// The progression row of an agent run filed at sequence `k`.
    #[verifier::loop_isolation(false)]
    fn find_progression(&self, agent_run_id: &String, k: u64) -> (r: Option<usize>)
        ensures
            match r {
                Some(i) => progression_at(self@.tables.agent_progressions@, agent_run_id@, k as int) == Some(i as int)
                    && i < self@.tables.agent_progressions@.len(),
                None => progression_at(self@.tables.agent_progressions@, agent_run_id@, k as int) is None,
            },
    {
        let rows = &self.tables.agent_progressions;
        let ghost key = (agent_run_id@, k);
        let mut i: usize = 0;
        while i < rows.len()
            invariant
                i <= rows.len(),
                forall|j: int| 0 <= j < i ==> progression_keys(rows@)[j] != key,
            decreases rows.len() - i,
        {
            assert(progression_keys(rows@)[i as int] == (rows@[i as int].agent_run_id@, rows@[i as int].sequence));
            if rows[i].agent_run_id == *agent_run_id && rows[i].sequence == k {
                proof {
                    lemma_index_of_found(progression_keys(rows@), key, i as int);
                }
                return Some(i);
            }
            i = i + 1;
        }
        proof {
            lemma_index_of_absent(progression_keys(rows@), key);
        }
        None
    }

    /// The progression records of an agent run in sequence order, once they are found complete
    /// from the first and each is found to name the record before it.
    #[verifier::loop_isolation(false)]
    #[verifier::spinoff_prover]
    pub fn agent_progressions(&self, agent_run_id: &str) -> (r: Result<Vec<AgentProgressionRecord>, StoreError>)
        ensures
            ({
                let rows = self@.tables.agent_progressions@;
                let n = progression_count(rows, agent_run_id@, rows.len());
                match r {
                    Ok(records) => records@.len() == n && forall|k: int|
                        0 <= k < n ==> #[trigger] progression_link(rows, agent_run_id@, k) && same_progression(
                            records@[k],
                            rows[progression_at(rows, agent_run_id@, k).unwrap()].record,
                        ),
                    Err(e) => e is Invalid && exists|k: int| 0 <= k < n && !#[trigger] progression_link(rows, agent_run_id@, k),
                }
            }),
    {
        let id = agent_run_id.to_string();
        let rows = &self.tables.agent_progressions;
        let mut n: usize = 0;
        let mut i: usize = 0;
        while i < rows.len()
            invariant
                i <= rows.len(),
                n <= i,
                n == progression_count(rows@, id@, i as nat),
            decreases rows.len() - i,
        {
            if rows[i].agent_run_id == id {
                n = n + 1;
            }
            i = i + 1;
        }
        let mut records: Vec<AgentProgressionRecord> = Vec::new();
        let mut previous: Option<String> = None;
        let mut k: usize = 0;
        while k < n
            invariant
                k <= n,
                n == progression_count(rows@, id@, rows@.len()),
                n <= rows@.len(),
                rows == &self.tables.agent_progressions,
                records@.len() == k,
                forall|m: int|
                    0 <= m < k ==> #[trigger] progression_link(rows@, id@, m) && same_progression(
                        records@[m],
                        rows@[progression_at(rows@, id@, m).unwrap()].record,
                    ),
                k == 0 ==> previous is None,
                k > 0 ==> (progression_at(rows@, id@, k - 1) matches Some(p) && opt_text(previous) == Some(
                    rows@[p].record.record_sha256@,
                )),
            decreases n - k,
        {
            let found = self.find_progression(&id, k as u64);
            let at = match found {
                Some(at) => at,
                None => {
                    proof {
                        assert(!progression_link(rows@, id@, k as int));
                    }
                    return Err(StoreError::Invalid("progression sequence is incomplete".to_string()));
                },
            };
            let record = &rows[at].record;
            let linked = match (&record.previous_record_sha256, &previous) {
                (Some(a), Some(b)) => *a == *b,
                (None, None) => true,
                _ => false,
            };
            if !(record.agent_run_id == id) || record.sequence != k as u64 || !linked {
                proof {
                    assert(!progression_link(rows@, id@, k as int));
                }
                return Err(StoreError::Invalid("progression chain is incomplete".to_string()));
            }
            previous = Some(record.record_sha256.clone());
            records.push(record.copy());
            k = k + 1;
        }
        proof {
            assert(id@ == agent_run_id@);
            assert(rows@ == self@.tables.agent_progressions@);
        }
        Ok(records)
    }
}

/// An artifact a project input owns may be imported only as an identical record of it.
pub open spec fn artifact_importable(tables: DatabaseTables, artifact: Artifact) -> bool {
    index_of(input_artifacts(tables.project_inputs@), artifact.id@) is Some ==> (row_index(
        tables.artifacts@,
        artifact.id@,
    ) matches Some(i) && same_artifact(tables.artifacts@[i], artifact))
}

/// Every imported artifact may be written.
pub open spec fn artifacts_importable(tables: DatabaseTables, artifacts: Seq<Artifact>) -> bool {
    forall|k: int| 0 <= k < artifacts.len() ==> artifact_importable(tables, #[trigger] artifacts[k])
}

/// The first of the first `n` objects that may not be written, if any.
pub open spec fn first_refused_object(tables: DatabaseTables, objects: Seq<SemanticObject>, n: nat) -> Option<int>
    decreases n,
{
    if n == 0 || n > objects.len() {
        None
    } else {
        match first_refused_object(tables, objects, (n - 1) as nat) {
            Some(k) => Some(k),
            None => if !object_admissible(tables, objects[n - 1]) {
                Some(n - 1)
            } else {
                None
            },
        }
    }
}

/// The import is refused with message `m`, and the store is unchanged.
pub open spec fn import_refused(
    before: DatabaseTables,
    after: DatabaseTables,
    r: Result<OperationalImportResponse, StoreError>,
    m: Seq<char>,
) -> bool {
    r matches Err(StoreError::Invalid(e)) && e@ == m && after == before
}

/// What an accepted new import writes: each bundle's rows in their tables, the import's record
/// and its stream's status; nothing else changes.
pub open spec fn import_written(
    before: DatabaseTables,
    e: OperationalImportEnvelope,
    digest: Seq<char>,
    now: Seq<char>,
    after: DatabaseTables,
    resp: OperationalImportResponse,
) -> bool {
    let b = e.bundle;
    &&& resp.imported
    &&& is_import_record(resp.record, e, digest, now)
    &&& is_source_status(resp.source, e, resp.record, now, true, before.operational_sources@)
    &&& after == (DatabaseTables {
        campaigns: after.campaigns,
        capabilities: after.capabilities,
        runs: after.runs,
        events: after.events,
        artifacts: after.artifacts,
        budgets: after.budgets,
        semantic_objects: after.semantic_objects,
        semantic_relations: after.semantic_relations,
        actions: after.actions,
        external_jobs: after.external_jobs,
        providers: after.providers,
        operational_imports: after.operational_imports,
        operational_sources: after.operational_sources,
        ..before
    })
    &&& after.capabilities@ == rows_written(before.capabilities@, b.capabilities@)
    &&& after.campaigns@.map_values(|c: Campaign| campaign_model(c)) == campaigns_written(
        before.campaigns@.map_values(|c: Campaign| campaign_model(c)),
        b.campaigns@.map_values(|c: Campaign| campaign_model(c)),
    )
    &&& after.runs@ == rows_written(before.runs@, b.runs@)
    &&& after.events@ == rows_written(before.events@, b.events@)
    &&& after.artifacts@ == artifacts_written(input_artifacts(before.project_inputs@), before.artifacts@, b.artifacts@)
    &&& after.budgets@ == rows_written(before.budgets@, b.budgets@)
    &&& after.semantic_objects@ == objects_written(before.semantic_objects@, b.objects@)
    &&& after.semantic_relations@ == rows_written(before.semantic_relations@, b.relations@)
    &&& after.actions@ == rows_written(before.actions@, b.actions@)
    &&& jobs_written(before.external_jobs@, b.external_jobs@) == Some(after.external_jobs@)
    &&& after.providers@ == rows_written(before.providers@, b.providers@)
    &&& after.operational_imports@ == before.operational_imports@.push(resp.record)
    &&& after.operational_sources@ == with_source(before.operational_sources@, resp.source)
}

/// What importing `e`, whose bundle has content digest `digest`, does at `now`. The envelope is
/// checked first; an import identifier already recorded with the same content is answered with
/// its record and refreshes its stream's status; a new import must be later than its stream's
/// latest, and is written whole or not at all.
pub open spec fn import_post(
    before: DatabaseTables,
    e: OperationalImportEnvelope,
    digest: Seq<char>,
    now: Seq<char>,
    after: DatabaseTables,
    r: Result<OperationalImportResponse, StoreError>,
) -> bool {
    match envelope_refusal(e) {
        Some(m) => import_refused(before, after, r, m),
        None => match row_index(before.operational_imports@, e.import_id@) {
            Some(i) => {
                let record = before.operational_imports@[i];
                if record.content_sha256@ != digest {
                    import_refused(before, after, r, "operational import id was reused with different content"@)
                } else {
                    &&& r matches Ok(resp)
                    &&& !resp.imported
                    &&& resp.record == record
                    &&& is_source_status(resp.source, e, record, now, false, before.operational_sources@)
                    &&& after == (DatabaseTables { operational_sources: after.operational_sources, ..before })
                    &&& after.operational_sources@ == with_source(before.operational_sources@, resp.source)
                }
            },
            None => match staleness_refusal(before.operational_imports@, e) {
                Some(m) => import_refused(before, after, r, m),
                None => if !artifacts_importable(before, e.bundle.artifacts@) {
                    import_refused(before, after, r, "accepted project input artifact metadata is immutable"@)
                } else if first_refused_object(before, e.bundle.objects@, e.bundle.objects@.len()) is Some {
                    import_refused(
                        before,
                        after,
                        r,
                        object_refusal(before, e.bundle.objects@[first_refused_object(before, e.bundle.objects@, e.bundle.objects@.len())->0]),
                    )
                } else if jobs_written(before.external_jobs@, e.bundle.external_jobs@) is None {
                    r matches Err(StoreError::Constraint(_)) && after == before
                } else {
                    r matches Ok(resp) && import_written(before, e, digest, now, after, resp)
                },
            },
        },
    }
}

/// Writes each row in turn over the one with its key.
#[verifier::loop_isolation(false)]
fn write_rows<T: Keyed + Duplicate>(rows: &mut Vec<T>, new: &Vec<T>)
    ensures
        final(rows)@ == rows_written(old(rows)@, new@),
{
    let ghost start = rows@;
    let mut k: usize = 0;
    while k < new.len()
        invariant
            k <= new.len(),
            rows@ == rows_written(start, new@.take(k as int)),
        decreases new.len() - k,
    {
        proof {
            assert(new@.take(k + 1).drop_last() =~= new@.take(k as int));
        }
        upsert_row(rows, new[k].duplicate());
        k = k + 1;
    }
    proof {
        assert(new@.take(new@.len() as int) =~= new@);
    }
}

/// Binds each capability in turn.
#[verifier::loop_isolation(false)]
fn bind_each(ids: &mut Vec<String>, new: &Vec<String>)
    ensures
        texts(final(ids)@) == bound_all(texts(old(ids)@), texts(new@)),
{
    let ghost start = texts(ids@);
    let mut k: usize = 0;
    while k < new.len()
        invariant
            k <= new.len(),
            texts(ids@) == bound_all(start, texts(new@.take(k as int))),
        decreases new.len() - k,
    {
        proof {
            assert(texts(new@.take(k + 1)).drop_last() =~= texts(new@.take(k as int)));
            assert(texts(new@.take(k + 1)).last() == new@[k as int]@);
        }
        insert_sorted_unique(ids, new[k].clone());
        k = k + 1;
    }
    proof {
        assert(new@.take(new@.len() as int) =~= new@);
    }
}

/// Writes each imported campaign in turn.
#[verifier::loop_isolation(false)]
#[verifier::rlimit(40)]
fn write_campaigns(campaigns: &mut Vec<Campaign>, new: &Vec<Campaign>)
    ensures
        final(campaigns)@.map_values(|c: Campaign| campaign_model(c)) == campaigns_written(
            old(campaigns)@.map_values(|c: Campaign| campaign_model(c)),
            new@.map_values(|c: Campaign| campaign_model(c)),
        ),
{
    let ghost start = campaigns@.map_values(|c: Campaign| campaign_model(c));
    let mut k: usize = 0;
    while k < new.len()
        invariant
            k <= new.len(),
            campaigns@.map_values(|c: Campaign| campaign_model(c)) == campaigns_written(
                start,
                new@.take(k as int).map_values(|c: Campaign| campaign_model(c)),
            ),
        decreases new.len() - k,
    {
        let ghost models = campaigns@.map_values(|c: Campaign| campaign_model(c));
        let c = &new[k];
        let ghost model = campaign_model(*c);
        proof {
            assert(new@.take(k + 1).map_values(|c: Campaign| campaign_model(c)).drop_last()
                =~= new@.take(k as int).map_values(|c: Campaign| campaign_model(c)));
            assert(new@.take(k + 1).map_values(|c: Campaign| campaign_model(c)).last() == model);
            assert(models.map_values(|m: (Campaign, Seq<Seq<char>>)| m.0.id@) =~= keys_of(campaigns@));
        }
        let program = c.program.copy();
        match find_row(campaigns, &c.id) {
            Some(i) => {
                let existing = campaigns.remove(i);
                let ghost old_model = models[i as int];
                let mut ids = existing.capability_ids;
                bind_each(&mut ids, &c.capability_ids);
                let merged = Campaign {
                    id: c.id.clone(),
                    name: c.name.clone(),
                    domain: c.domain.clone(),
                    objective: c.objective.clone(),
                    status: c.status.clone(),
                    created_at: existing.created_at,
                    program,
                    capability_ids: ids,
                };
                campaigns.insert(i, merged);
                proof {
                    assert(campaign_model(merged) == (
                        Campaign { created_at: old_model.0.created_at, ..model.0 },
                        bound_all(old_model.1, model.1),
                    ));
                    assert(campaigns@.map_values(|c: Campaign| campaign_model(c)) =~= models.update(
                        i as int,
                        campaign_model(merged),
                    ));
                }
            },
            None => {
                let mut ids: Vec<String> = Vec::new();
                proof {
                    assert(texts(ids@) =~= Seq::<Seq<char>>::empty());
                }
                bind_each(&mut ids, &c.capability_ids);
                let added = Campaign {
                    id: c.id.clone(),
                    name: c.name.clone(),
                    domain: c.domain.clone(),
                    objective: c.objective.clone(),
                    status: c.status.clone(),
                    created_at: c.created_at.clone(),
                    program,
                    capability_ids: ids,
                };
                campaigns.push(added);
                proof {
                    assert(campaign_model(added) == (model.0, bound_all(Seq::empty(), model.1)));
                    assert(campaigns@.map_values(|c: Campaign| campaign_model(c)) =~= models.push(campaign_model(added)));
                }
            },
        }
        k = k + 1;
    }
    proof {
        assert(new@.take(new@.len() as int) =~= new@);
    }
}

/// Writes one reported job: merged over the job with its provider and external identifier, or
/// added where its identifier is free; `false`, with nothing written, where it is taken.
fn write_job(jobs: &mut Vec<ExternalJob>, job: ExternalJob) -> (ok: bool)
    ensures
        match job_written(old(jobs)@, job) {
            Some(v) => ok && final(jobs)@ == v,
            None => !ok && *final(jobs) == *old(jobs),
        },
{
    match find_job(jobs, &job) {
        Some(i) => {
            let existing = jobs.remove(i);
            let ExternalJob {
                id: _,
                campaign_id,
                run_id,
                provider: _,
                external_id: _,
                label,
                status,
                chip,
                submitted_at,
                started_at,
                finished_at,
                rate_per_min_usd_bits,
                max_cost_usd_bits,
                cost_usd_bits,
                queue_position,
                estimated_wait_seconds,
                payload_json,
                updated_at,
            } = job;
            let merged = ExternalJob {
                id: existing.id,
                campaign_id: coalesce_text(campaign_id, existing.campaign_id),
                run_id: coalesce_text(run_id, existing.run_id),
                provider: existing.provider,
                external_id: existing.external_id,
                label,
                status,
                chip: coalesce_text(chip, existing.chip),
                submitted_at: coalesce_text(submitted_at, existing.submitted_at),
                started_at: coalesce_text(started_at, existing.started_at),
                finished_at: coalesce_text(finished_at, existing.finished_at),
                rate_per_min_usd_bits: coalesce_bits(rate_per_min_usd_bits, existing.rate_per_min_usd_bits),
                max_cost_usd_bits: coalesce_bits(max_cost_usd_bits, existing.max_cost_usd_bits),
                cost_usd_bits: coalesce_bits(cost_usd_bits, existing.cost_usd_bits),
                queue_position,
                estimated_wait_seconds,
                payload_json,
                updated_at,
            };
            jobs.insert(i, merged);
            proof {
                assert(jobs@ =~= old(jobs)@.update(i as int, merged_job(old(jobs)@[i as int], job)));
            }
            true
        },
        None => {
            if find_row(jobs, &job.id).is_some() {
                return false;
            }
            jobs.push(job);
            true
        },
    }
}

/// The jobs once each reported job is written in turn, or `None` where one is refused; the
/// table itself is left as it is.
#[verifier::loop_isolation(false)]
fn jobs_after(jobs: &Vec<ExternalJob>, new: &Vec<ExternalJob>) -> (r: Option<Vec<ExternalJob>>)
    ensures
        match r {
            Some(v) => jobs_written(jobs@, new@) == Some(v@),
            None => jobs_written(jobs@, new@) is None,
        },
{
    let mut out: Vec<ExternalJob> = Vec::new();
    let mut k: usize = 0;
    while k < jobs.len()
        invariant
            k <= jobs.len(),
            out@ == jobs@.take(k as int),
        decreases jobs.len() - k,
    {
        out.push(jobs[k].copy());
        proof {
            assert(out@ =~= jobs@.take(k + 1));
        }
        k = k + 1;
    }
    proof {
        assert(jobs@.take(jobs@.len() as int) =~= jobs@);
    }
    let mut k: usize = 0;
    while k < new.len()
        invariant
            k <= new.len(),
            jobs_written(jobs@, new@.take(k as int)) == Some(out@),
        decreases new.len() - k,
    {
        proof {
            assert(new@.take(k + 1).drop_last() =~= new@.take(k as int));
        }
        if !write_job(&mut out, new[k].copy()) {
            proof {
                lemma_jobs_refused_stay_refused(jobs@, new@, k + 1);
                assert(new@.take(new@.len() as int) =~= new@);
            }
            return None;
        }
        k = k + 1;
    }
    proof {
        assert(new@.take(new@.len() as int) =~= new@);
    }
    Some(out)
}

/// A refused job refuses the whole series of reports.
proof fn lemma_jobs_refused_stay_refused(jobs: Seq<ExternalJob>, new: Seq<ExternalJob>, n: int)
    requires
        0 <= n <= new.len(),
        jobs_written(jobs, new.take(n)) is None,
    ensures
        jobs_written(jobs, new) is None,
    decreases new.len() - n,
{
    if n < new.len() {
        assert(new.take(n + 1).drop_last() =~= new.take(n));
        lemma_jobs_refused_stay_refused(jobs, new, n + 1);
    } else {
        assert(new.take(n) =~= new);
    }
}

impl Database {
    /// Writes each imported artifact in turn, leaving those a project input owns as they are.
    #[verifier::loop_isolation(false)]
    fn write_artifacts(&mut self, new: &Vec<Artifact>)
        ensures
            final(self)@.path == old(self)@.path,
            final(self)@.tables == (DatabaseTables { artifacts: final(self)@.tables.artifacts, ..old(self)@.tables }),
            final(self)@.tables.artifacts@ == artifacts_written(
                input_artifacts(old(self)@.tables.project_inputs@),
                old(self)@.tables.artifacts@,
                new@,
            ),
    {
        let ghost before = self@.tables;
        let mut k: usize = 0;
        while k < new.len()
            invariant
                k <= new.len(),
                self@.path == old(self)@.path,
                self@.tables == (DatabaseTables { artifacts: self@.tables.artifacts, ..before }),
                self@.tables.artifacts@ == artifacts_written(
                    input_artifacts(before.project_inputs@),
                    before.artifacts@,
                    new@.take(k as int),
                ),
            decreases new.len() - k,
        {
            proof {
                assert(new@.take(k + 1).drop_last() =~= new@.take(k as int));
            }
            if !owned_by_input(&self.tables.project_inputs, &new[k].id) {
                upsert_row(&mut self.tables.artifacts, new[k].copy());
            }
            k = k + 1;
        }
        proof {
            assert(new@.take(new@.len() as int) =~= new@);
        }
    }

    /// Writes each imported object in turn.
    #[verifier::loop_isolation(false)]
    fn write_objects(&mut self, new: &Vec<SemanticObject>)
        ensures
            final(self)@.path == old(self)@.path,
            final(self)@.tables == (DatabaseTables {
                semantic_objects: final(self)@.tables.semantic_objects,
                ..old(self)@.tables
            }),
            final(self)@.tables.semantic_objects@ == objects_written(old(self)@.tables.semantic_objects@, new@),
    {
        let ghost before = self@.tables;
        let mut k: usize = 0;
        while k < new.len()
            invariant
                k <= new.len(),
                self@.path == old(self)@.path,
                self@.tables == (DatabaseTables { semantic_objects: self@.tables.semantic_objects, ..before }),
                self@.tables.semantic_objects@ == objects_written(before.semantic_objects@, new@.take(k as int)),
            decreases new.len() - k,
        {
            proof {
                assert(new@.take(k + 1).drop_last() =~= new@.take(k as int));
            }
            self.store_object(new[k].copy());
            k = k + 1;
        }
        proof {
            assert(new@.take(new@.len() as int) =~= new@);
        }
    }

    /// Whether every imported artifact may be written.
    #[verifier::loop_isolation(false)]
    fn artifacts_importable_exec(&self, new: &Vec<Artifact>) -> (r: bool)
        ensures
            r == artifacts_importable(self@.tables, new@),
    {
        let mut k: usize = 0;
        while k < new.len()
            invariant
                k <= new.len(),
                forall|j: int| 0 <= j < k ==> artifact_importable(self@.tables, #[trigger] new@[j]),
            decreases new.len() - k,
        {
            let artifact = &new[k];
            if owned_by_input(&self.tables.project_inputs, &artifact.id) {
                let identical = match find_row(&self.tables.artifacts, &artifact.id) {
                    Some(i) => {
                        proof {
                            lemma_index_of(keys_of(self@.tables.artifacts@), artifact.id@);
                        }
                        let a = &self.tables.artifacts[i];
                        same_opt(&a.run_id, &artifact.run_id) && a.kind == artifact.kind && a.media_type
                            == artifact.media_type && a.byte_size == artifact.byte_size && a.path
                            == artifact.path && same_opt(&a.source_path, &artifact.source_path)
                            && a.created_at == artifact.created_at
                    },
                    None => false,
                };
                assert(identical == (row_index(self@.tables.artifacts@, artifact.id@) matches Some(i) && same_artifact(
                    self@.tables.artifacts@[i],
                    *artifact,
                )));
                if !identical {
                    assert(!artifact_importable(self@.tables, new@[k as int]));
                    return false;
                }
            }
            k = k + 1;
        }
        true
    }

    /// The first imported object that may not be written, if any.
    #[verifier::loop_isolation(false)]
    fn first_refused_object_exec(&self, new: &Vec<SemanticObject>) -> (r: Option<usize>)
        ensures
            match r {
                Some(k) => first_refused_object(self@.tables, new@, new@.len()) == Some(k as int) && k < new@.len(),
                None => first_refused_object(self@.tables, new@, new@.len()) is None,
            },
    {
        let mut k: usize = 0;
        while k < new.len()
            invariant
                k <= new.len(),
                first_refused_object(self@.tables, new@, k as nat) is None,
            decreases new.len() - k,
        {
            if !self.object_admissible_exec(&new[k]) {
                proof {
                    lemma_first_refused_object_kept(self@.tables, new@, (k + 1) as nat, new@.len());
                }
                return Some(k);
            }
            k = k + 1;
        }
        None
    }

    /// The status of `envelope`'s stream once `record` was checked at `now`.
    fn source_status(
        &self,
        envelope: &OperationalImportEnvelope,
        record: &OperationalImportRecord,
        now: &String,
        changed: bool,
    ) -> (s: OperationalSourceStatus)
        ensures
            is_source_status(s, *envelope, *record, now@, changed, self@.tables.operational_sources@),
    {
        let previous = find_source(&self.tables.operational_sources, &envelope.source.system, &envelope.source.stream);
        let last_changed_at = match previous {
            Some(i) => if changed {
                record.imported_at.clone()
            } else {
                self.tables.operational_sources[i].last_changed_at.clone()
            },
            None => record.imported_at.clone(),
        };
        OperationalSourceStatus {
            source_system: envelope.source.system.clone(),
            source_stream: envelope.source.stream.clone(),
            source_repository: envelope.source.repository.clone(),
            source_revision: envelope.source.revision.clone(),
            source_url: copy_opt_text(&envelope.source.url),
            last_generated_at: envelope.generated_at.clone(),
            last_checked_at: now.clone(),
            last_changed_at,
            latest_import_id: record.import_id.clone(),
            content_sha256: record.content_sha256.clone(),
            status: "fresh".to_string(),
        }
    }

    /// Imports an operational bundle at `now`. `bundle_json` is the bundle as published, whose
    /// SHA-256 digest identifies the import's content.
    #[verifier::rlimit(60)]
    pub fn import_operational_at(
        &mut self,
        envelope: &OperationalImportEnvelope,
        bundle_json: &String,
        now: &String,
    ) -> (r: Result<OperationalImportResponse, StoreError>)
        requires
            record_total(envelope.bundle) <= u64::MAX,
        ensures
            final(self)@.path == old(self)@.path,
            import_post(old(self)@.tables, *envelope, sha256_hex(utf8(bundle_json@)), now@, final(self)@.tables, r),
    {
        match envelope_refusal_exec(envelope) {
            Some(m) => {
                return Err(StoreError::Invalid(m));
            },
            None => {},
        }
        let digest = sha256_text(bundle_json);
        match find_row(&self.tables.operational_imports, &envelope.import_id) {
            Some(i) => {
                let record = self.tables.operational_imports[i].copy();
                if !(record.content_sha256 == digest) {
                    return Err(StoreError::Invalid("operational import id was reused with different content".to_string()));
                }
                let source = self.source_status(envelope, &record, now, false);
                write_source(&mut self.tables.operational_sources, source.copy());
                return Ok(OperationalImportResponse { imported: false, record, source });
            },
            None => {},
        }
        match staleness_refusal_exec(&self.tables.operational_imports, envelope) {
            Some(m) => {
                return Err(StoreError::Invalid(m));
            },
            None => {},
        }
        let b = &envelope.bundle;
        if !self.artifacts_importable_exec(&b.artifacts) {
            return Err(StoreError::Invalid("accepted project input artifact metadata is immutable".to_string()));
        }
        match self.first_refused_object_exec(&b.objects) {
            Some(k) => {
                if find_row(&self.tables.project_inputs, &b.objects[k].id).is_some() {
                    return Err(StoreError::Invalid("accepted project input projection is immutable".to_string()));
                }
                return Err(StoreError::Invalid("project input records must use the input attachment boundary".to_string()));
            },
            None => {},
        }
        let jobs = match jobs_after(&self.tables.external_jobs, &b.external_jobs) {
            Some(jobs) => jobs,
            None => {
                return Err(StoreError::Constraint("external job identifier is already taken".to_string()));
            },
        };
        let record = OperationalImportRecord {
            import_id: envelope.import_id.clone(),
            contract: envelope.contract.clone(),
            source_system: envelope.source.system.clone(),
            source_stream: envelope.source.stream.clone(),
            source_repository: envelope.source.repository.clone(),
            source_revision: envelope.source.revision.clone(),
            source_url: copy_opt_text(&envelope.source.url),
            generated_at: envelope.generated_at.clone(),
            content_sha256: digest,
            imported_at: now.clone(),
            record_count: operational_record_count(b),
        };
        let source = self.source_status(envelope, &record, now, true);
        let ghost before = self@.tables;
        write_rows(&mut self.tables.capabilities, &b.capabilities);
        write_campaigns(&mut self.tables.campaigns, &b.campaigns);
        write_rows(&mut self.tables.runs, &b.runs);
        write_rows(&mut self.tables.events, &b.events);
        self.write_artifacts(&b.artifacts);
        write_rows(&mut self.tables.budgets, &b.budgets);
        self.write_objects(&b.objects);
        write_rows(&mut self.tables.semantic_relations, &b.relations);
        write_rows(&mut self.tables.actions, &b.actions);
        self.tables.external_jobs = jobs;
        write_rows(&mut self.tables.providers, &b.providers);
        self.tables.operational_imports.push(record.copy());
        write_source(&mut self.tables.operational_sources, source.copy());
        Ok(OperationalImportResponse { imported: true, record, source })
    }

    /// Imports an operational bundle now.
    pub fn import_operational(
        &mut self,
        envelope: &OperationalImportEnvelope,
        bundle_json: &String,
    ) -> (r: Result<OperationalImportResponse, StoreError>)
        requires
            record_total(envelope.bundle) <= u64::MAX,
        ensures
            final(self)@.path == old(self)@.path,
            exists|now: Seq<char>| import_post(old(self)@.tables, *envelope, sha256_hex(utf8(bundle_json@)), now, final(self)@.tables, r),
    {
        let now = now_rfc3339();
        self.import_operational_at(envelope, bundle_json, &now)
    }
}

/// Once an object among the first `n` is refused, the first refused object stays the same.
proof fn lemma_first_refused_object_kept(tables: DatabaseTables, objects: Seq<SemanticObject>, n: nat, m: nat)
    requires
        n <= m <= objects.len(),
        first_refused_object(tables, objects, n) is Some,
    ensures
        first_refused_object(tables, objects, m) == first_refused_object(tables, objects, n),
    decreases m - n,
{
    if n < m {
        lemma_first_refused_object_kept(tables, objects, n, (m - 1) as nat);
    }
}

} // verus!
