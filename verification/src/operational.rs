//! Operational imports: bundles of operational metadata that another system publishes for a
//! source stream. An import is refused when it carries scientific endpoint material, executable
//! capabilities or secrets, when it repeats an import identifier with other content, or when it
//! is not newer than the stream's latest import; an accepted import writes its rows and records
//! where it came from.

use vstd::prelude::*;
use crate::clock::{instant_after, rfc3339_instant};
use crate::epact::opt_text;
use crate::order::{chars_lt, insert_sorted};
use crate::records::{
    ActionRecord, Artifact, Campaign, Capability, ExternalJob, Keyed, LedgerEvent, MetricPoint,
    ObjectProjection, ProviderProfile, Run, SemanticObject, SemanticRelation,
};
use crate::records::clone_opt;
use crate::search::{index_of, lemma_index_of_absent, lemma_index_of_found};
use crate::text::{is_blank, measure_text};
use crate::clock::parse_rfc3339_instant;
use crate::order::str_lt;

verus! {

broadcast use vstd::string::group_string_axioms;

/// The contract of operational import envelopes.
pub const OPERATIONAL_IMPORT_CONTRACT: &'static str = "concord.operational-import/1";

/// The only information classification an operational import may carry.
pub const OPERATIONAL_CLASSIFICATION: &'static str = "operational_metadata";

/// A budget of a funding source; amounts are held as the bits of the IEEE-754 numbers.
#[derive(Debug, Clone)]
pub struct Budget {
    pub id: String,
    pub name: String,
    pub source: String,
    pub currency: String,
    pub total_bits: u64,
    pub spent_bits: u64,
    pub exposure_bits: u64,
    pub remaining_floor_bits: u64,
    pub updated_at: String,
}

/// Where an operational import comes from.
#[derive(Debug, Clone)]
pub struct OperationalSource {
    pub system: String,
    pub stream: String,
    pub repository: String,
    pub revision: String,
    pub url: Option<String>,
}

/// The rows an operational import carries. Candidates and basins are held as their JSON text:
/// an import may carry none of them.
#[derive(Debug, Clone)]
pub struct OperationalBundle {
    pub campaigns: Vec<Campaign>,
    pub capabilities: Vec<Capability>,
    pub runs: Vec<Run>,
    pub events: Vec<LedgerEvent>,
    pub artifacts: Vec<Artifact>,
    pub budgets: Vec<Budget>,
    pub objects: Vec<SemanticObject>,
    pub relations: Vec<SemanticRelation>,
    pub actions: Vec<ActionRecord>,
    pub external_jobs: Vec<ExternalJob>,
    pub providers: Vec<ProviderProfile>,
    pub metrics: Vec<MetricPoint>,
    pub candidates: Vec<String>,
    pub basins: Vec<String>,
    pub projections: Vec<ObjectProjection>,
}

/// An operational import as published by its source.
#[derive(Debug, Clone)]
pub struct OperationalImportEnvelope {
    pub contract: String,
    pub import_id: String,
    pub generated_at: String,
    pub classification: String,
    pub contains_scientific_endpoints: bool,
    pub source: OperationalSource,
    pub bundle: OperationalBundle,
}

/// An accepted operational import.
#[derive(Debug, Clone)]
pub struct OperationalImportRecord {
    pub import_id: String,
    pub contract: String,
    pub source_system: String,
    pub source_stream: String,
    pub source_repository: String,
    pub source_revision: String,
    pub source_url: Option<String>,
    pub generated_at: String,
    pub content_sha256: String,
    pub imported_at: String,
    pub record_count: u64,
}

/// What the store knows of a source stream.
#[derive(Debug, Clone)]
pub struct OperationalSourceStatus {
    pub source_system: String,
    pub source_stream: String,
    pub source_repository: String,
    pub source_revision: String,
    pub source_url: Option<String>,
    pub last_generated_at: String,
    pub last_checked_at: String,
    pub last_changed_at: String,
    pub latest_import_id: String,
    pub content_sha256: String,
    pub status: String,
}

/// The answer to an operational import: whether it was new, its record and its stream's status.
#[derive(Debug, Clone)]
pub struct OperationalImportResponse {
    pub imported: bool,
    pub record: OperationalImportRecord,
    pub source: OperationalSourceStatus,
}

impl Keyed for Budget {
    open spec fn key_view(&self) -> Seq<char> {
        self.id@
    }

    fn key(&self) -> (r: &String) {
        &self.id
    }
}

impl Keyed for OperationalImportRecord {
    open spec fn key_view(&self) -> Seq<char> {
        self.import_id@
    }

    fn key(&self) -> (r: &String) {
        &self.import_id
    }
}

/// How many rows a bundle writes: campaigns, capabilities, runs, events, artifacts, budgets,
/// objects, relations, actions, external jobs and providers.
pub open spec fn record_total(b: OperationalBundle) -> nat {
    b.campaigns@.len() + b.capabilities@.len() + b.runs@.len() + b.events@.len() + b.artifacts@.len()
        + b.budgets@.len() + b.objects@.len() + b.relations@.len() + b.actions@.len()
        + b.external_jobs@.len() + b.providers@.len()
}

/// The bundle carries scientific metrics, candidates, basins or projections.
pub open spec fn carries_science(b: OperationalBundle) -> bool {
    b.metrics@.len() > 0 || b.candidates@.len() > 0 || b.basins@.len() > 0 || b.projections@.len() > 0
}

/// A capability with a command to run; an imported capability's command is the empty list.
pub open spec fn executable_capability(c: Capability) -> bool {
    c.command_json@ != "[]"@
}

/// Some imported capability could be run.
pub open spec fn carries_executable(b: OperationalBundle) -> bool {
    exists|k: int| 0 <= k < b.capabilities@.len() && executable_capability(#[trigger] b.capabilities@[k])
}

/// Some imported provider names a secret.
pub open spec fn carries_secret(b: OperationalBundle) -> bool {
    exists|k: int| 0 <= k < b.providers@.len() && (#[trigger] b.providers@[k]).secret_ref is Some
}

/// The first of the envelope's source fields, in the order they are checked, that is blank.
pub open spec fn blank_field(e: OperationalImportEnvelope) -> Option<Seq<char>> {
    if is_blank(e.import_id@) {
        Some("import id"@)
    } else if is_blank(e.generated_at@) {
        Some("generated at"@)
    } else if is_blank(e.source.system@) {
        Some("source system"@)
    } else if is_blank(e.source.stream@) {
        Some("source stream"@)
    } else if is_blank(e.source.repository@) {
        Some("source repository"@)
    } else if is_blank(e.source.revision@) {
        Some("source revision"@)
    } else {
        None
    }
}

/// Why the envelope itself is refused, before the store is consulted.
pub open spec fn envelope_refusal(e: OperationalImportEnvelope) -> Option<Seq<char>> {
    if e.contract@ != OPERATIONAL_IMPORT_CONTRACT@ {
        Some("unsupported operational import contract"@)
    } else if e.classification@ != OPERATIONAL_CLASSIFICATION@ {
        Some("operational import has the wrong information classification"@)
    } else if e.contains_scientific_endpoints {
        Some("scientific endpoint material cannot enter the operational import boundary"@)
    } else if blank_field(e) is Some {
        Some(blank_field(e)->0 + " must not be empty"@)
    } else if carries_science(e.bundle) {
        Some("operational imports cannot contain scientific metrics, candidates, basins, or projections"@)
    } else if carries_executable(e.bundle) {
        Some("imported capabilities must be descriptive and non-executable"@)
    } else if carries_secret(e.bundle) {
        Some("operational imports cannot contain secret references"@)
    } else {
        None
    }
}

/// The greatest `generated_at`, in text order, among the first `n` imports of a source stream.
pub open spec fn latest_generated(
    rows: Seq<OperationalImportRecord>,
    system: Seq<char>,
    stream: Seq<char>,
    n: nat,
) -> Option<Seq<char>>
    decreases n,
{
    if n == 0 || n > rows.len() {
        None
    } else {
        let earlier = latest_generated(rows, system, stream, (n - 1) as nat);
        let row = rows[n - 1];
        if row.source_system@ == system && row.source_stream@ == stream && match earlier {
            Some(l) => chars_lt(l, row.generated_at@),
            None => true,
        } {
            Some(row.generated_at@)
        } else {
            earlier
        }
    }
}

/// Why a new import is refused by the stream's history: its time does not parse, the stream's
/// latest stored time does not parse, or it is not strictly later than that time.
pub open spec fn staleness_refusal(rows: Seq<OperationalImportRecord>, e: OperationalImportEnvelope) -> Option<Seq<char>> {
    match rfc3339_instant(e.generated_at@) {
        None => Some("operational import generated_at is not RFC3339"@),
        Some(incoming) => match latest_generated(rows, e.source.system@, e.source.stream@, rows.len()) {
            None => None,
            Some(latest) => match rfc3339_instant(latest) {
                None => Some("stored operational import generated_at is not RFC3339"@),
                Some(l) => if instant_after(incoming, l) {
                    None
                } else {
                    Some("operational import is stale or reuses a source-stream timestamp"@)
                },
            },
        },
    }
}

/// The rows with each new row written in turn over the one with its key, or added.
pub open spec fn rows_written<T: Keyed>(rows: Seq<T>, new: Seq<T>) -> Seq<T>
    decreases new.len(),
{
    if new.len() == 0 {
        rows
    } else {
        crate::store::with_row(rows_written(rows, new.drop_last()), new.last())
    }
}

/// The objects with each new object written in turn.
pub open spec fn objects_written(objects: Seq<SemanticObject>, new: Seq<SemanticObject>) -> Seq<SemanticObject>
    decreases new.len(),
{
    if new.len() == 0 {
        objects
    } else {
        crate::store::with_object(objects_written(objects, new.drop_last()), new.last())
    }
}

/// The artifacts with each new artifact written in turn, except those a project input owns,
/// which stay as they are.
pub open spec fn artifacts_written(owned: Seq<Seq<char>>, artifacts: Seq<Artifact>, new: Seq<Artifact>) -> Seq<Artifact>
    decreases new.len(),
{
    if new.len() == 0 {
        artifacts
    } else {
        let earlier = artifacts_written(owned, artifacts, new.drop_last());
        if index_of(owned, new.last().id@) is Some {
            earlier
        } else {
            crate::store::with_row(earlier, new.last())
        }
    }
}

/// One reported job written: merged over the job with its provider and external identifier, or
/// added where its identifier is free; `None` where it is taken.
pub open spec fn job_written(jobs: Seq<ExternalJob>, job: ExternalJob) -> Option<Seq<ExternalJob>> {
    match index_of(crate::store::job_keys(jobs), (job.provider@, job.external_id@)) {
        Some(i) => Some(jobs.update(i, crate::store::merged_job(jobs[i], job))),
        None => if crate::store::row_index(jobs, job.id@) is Some {
            None
        } else {
            Some(jobs.push(job))
        },
    }
}

/// The jobs with each reported job written in turn; `None` where one of them is refused.
pub open spec fn jobs_written(jobs: Seq<ExternalJob>, new: Seq<ExternalJob>) -> Option<Seq<ExternalJob>>
    decreases new.len(),
{
    if new.len() == 0 {
        Some(jobs)
    } else {
        match jobs_written(jobs, new.drop_last()) {
            Some(earlier) => job_written(earlier, new.last()),
            None => None,
        }
    }
}

/// A campaign as the store compares it: its fields but the bindings, and its bound capabilities.
pub open spec fn campaign_model(c: Campaign) -> (Campaign, Seq<Seq<char>>) {
    (Campaign { capability_ids: vstd::pervasive::arbitrary(), ..c }, crate::order::texts(c.capability_ids@))
}

/// Capabilities bound in turn to a sorted set of bindings.
pub open spec fn bound_all(ids: Seq<Seq<char>>, new: Seq<Seq<char>>) -> Seq<Seq<char>>
    decreases new.len(),
{
    if new.len() == 0 {
        ids
    } else {
        insert_sorted(bound_all(ids, new.drop_last()), new.last())
    }
}

/// One imported campaign written: a known campaign keeps its creation time and its bindings,
/// to which the imported ones are added; a new one is bound to its own.
pub open spec fn campaign_written(
    models: Seq<(Campaign, Seq<Seq<char>>)>,
    c: (Campaign, Seq<Seq<char>>),
) -> Seq<(Campaign, Seq<Seq<char>>)> {
    match index_of(models.map_values(|m: (Campaign, Seq<Seq<char>>)| m.0.id@), c.0.id@) {
        Some(i) => models.update(i, (Campaign { created_at: models[i].0.created_at, ..c.0 }, bound_all(models[i].1, c.1))),
        None => models.push((c.0, bound_all(Seq::empty(), c.1))),
    }
}

/// The campaigns with each imported campaign written in turn.
pub open spec fn campaigns_written(
    models: Seq<(Campaign, Seq<Seq<char>>)>,
    new: Seq<(Campaign, Seq<Seq<char>>)>,
) -> Seq<(Campaign, Seq<Seq<char>>)>
    decreases new.len(),
{
    if new.len() == 0 {
        models
    } else {
        campaign_written(campaigns_written(models, new.drop_last()), new.last())
    }
}

/// The source stream of each status, in order.
pub open spec fn source_keys(sources: Seq<OperationalSourceStatus>) -> Seq<(Seq<char>, Seq<char>)> {
    sources.map_values(|s: OperationalSourceStatus| (s.source_system@, s.source_stream@))
}

/// The statuses with `status` in place of its stream's, or added.
pub open spec fn with_source(sources: Seq<OperationalSourceStatus>, status: OperationalSourceStatus) -> Seq<OperationalSourceStatus> {
    match index_of(source_keys(sources), (status.source_system@, status.source_stream@)) {
        Some(i) => sources.update(i, status),
        None => sources.push(status),
    }
}

/// The record of an accepted import of `e` with content digest `digest`, made at `now`.
pub open spec fn is_import_record(r: OperationalImportRecord, e: OperationalImportEnvelope, digest: Seq<char>, now: Seq<char>) -> bool {
    &&& r.import_id@ == e.import_id@
    &&& r.contract@ == e.contract@
    &&& r.source_system@ == e.source.system@
    &&& r.source_stream@ == e.source.stream@
    &&& r.source_repository@ == e.source.repository@
    &&& r.source_revision@ == e.source.revision@
    &&& opt_text(r.source_url) == opt_text(e.source.url)
    &&& r.generated_at@ == e.generated_at@
    &&& r.content_sha256@ == digest
    &&& r.imported_at@ == now
    &&& r.record_count == record_total(e.bundle)
}

/// The status of `e`'s stream once `record` was checked at `now`: it last changed now when the
/// import was new, and otherwise when it last changed before (or when the record was made, where
/// the stream had no status).
pub open spec fn is_source_status(
    s: OperationalSourceStatus,
    e: OperationalImportEnvelope,
    record: OperationalImportRecord,
    now: Seq<char>,
    changed: bool,
    sources: Seq<OperationalSourceStatus>,
) -> bool {
    let previous = index_of(source_keys(sources), (e.source.system@, e.source.stream@));
    &&& s.source_system@ == e.source.system@
    &&& s.source_stream@ == e.source.stream@
    &&& s.source_repository@ == e.source.repository@
    &&& s.source_revision@ == e.source.revision@
    &&& opt_text(s.source_url) == opt_text(e.source.url)
    &&& s.last_generated_at@ == e.generated_at@
    &&& s.last_checked_at@ == now
    &&& s.last_changed_at@ == (if changed || previous is None {
        record.imported_at@
    } else {
        sources[previous->0].last_changed_at@
    })
    &&& s.latest_import_id@ == record.import_id@
    &&& s.content_sha256@ == record.content_sha256@
    &&& s.status@ == "fresh"@
}

impl Budget {
    /// An equal budget.
    pub fn copy(&self) -> (r: Budget)
        ensures
            r == *self,
    {
        Budget {
            id: self.id.clone(),
            name: self.name.clone(),
            source: self.source.clone(),
            currency: self.currency.clone(),
            total_bits: self.total_bits,
            spent_bits: self.spent_bits,
            exposure_bits: self.exposure_bits,
            remaining_floor_bits: self.remaining_floor_bits,
            updated_at: self.updated_at.clone(),
        }
    }
}

impl crate::records::Duplicate for Budget {
    fn duplicate(&self) -> (r: Self) {
        self.copy()
    }
}

impl OperationalSourceStatus {
    /// An equal status.
    pub fn copy(&self) -> (r: OperationalSourceStatus)
        ensures
            r == *self,
    {
        OperationalSourceStatus {
            source_system: self.source_system.clone(),
            source_stream: self.source_stream.clone(),
            source_repository: self.source_repository.clone(),
            source_revision: self.source_revision.clone(),
            source_url: clone_opt(&self.source_url),
            last_generated_at: self.last_generated_at.clone(),
            last_checked_at: self.last_checked_at.clone(),
            last_changed_at: self.last_changed_at.clone(),
            latest_import_id: self.latest_import_id.clone(),
            content_sha256: self.content_sha256.clone(),
            status: self.status.clone(),
        }
    }
}

impl OperationalImportRecord {
    /// An equal record.
    pub fn copy(&self) -> (r: OperationalImportRecord)
        ensures
            r == *self,
    {
        OperationalImportRecord {
            import_id: self.import_id.clone(),
            contract: self.contract.clone(),
            source_system: self.source_system.clone(),
            source_stream: self.source_stream.clone(),
            source_repository: self.source_repository.clone(),
            source_revision: self.source_revision.clone(),
            source_url: clone_opt(&self.source_url),
            generated_at: self.generated_at.clone(),
            content_sha256: self.content_sha256.clone(),
            imported_at: self.imported_at.clone(),
            record_count: self.record_count,
        }
    }
}

/// The number of rows the bundle writes.
pub fn operational_record_count(b: &OperationalBundle) -> (r: u64)
    requires
        record_total(*b) <= u64::MAX,
    ensures
        r == record_total(*b),
{
    let total: u128 = b.campaigns.len() as u128 + b.capabilities.len() as u128 + b.runs.len() as u128
        + b.events.len() as u128 + b.artifacts.len() as u128 + b.budgets.len() as u128
        + b.objects.len() as u128 + b.relations.len() as u128 + b.actions.len() as u128
        + b.external_jobs.len() as u128 + b.providers.len() as u128;
    total as u64
}

/// Whether some capability could be run.
fn any_executable(capabilities: &Vec<Capability>) -> (r: bool)
    ensures
        r == exists|k: int| 0 <= k < capabilities@.len() && executable_capability(#[trigger] capabilities@[k]),
{
    let mut k: usize = 0;
    while k < capabilities.len()
        invariant
            k <= capabilities.len(),
            forall|j: int| 0 <= j < k ==> !executable_capability(#[trigger] capabilities@[j]),
        decreases capabilities.len() - k,
    {
        let empty = "[]".to_string();
        proof {
            reveal_strlit("[]");
        }
        if !(capabilities[k].command_json == empty) {
            assert(executable_capability(capabilities@[k as int]));
            return true;
        }
        k = k + 1;
    }
    false
}

/// Whether some provider names a secret.
fn any_secret(providers: &Vec<ProviderProfile>) -> (r: bool)
    ensures
        r == exists|k: int| 0 <= k < providers@.len() && (#[trigger] providers@[k]).secret_ref is Some,
{
    let mut k: usize = 0;
    while k < providers.len()
        invariant
            k <= providers.len(),
            forall|j: int| 0 <= j < k ==> (#[trigger] providers@[j]).secret_ref is None,
        decreases providers.len() - k,
    {
        if providers[k].secret_ref.is_some() {
            return true;
        }
        k = k + 1;
    }
    false
}

/// The first blank source field of the envelope, by name.
fn blank_field_exec(e: &OperationalImportEnvelope) -> (r: Option<&'static str>)
    ensures
        match r {
            Some(label) => blank_field(*e) == Some(label@),
            None => blank_field(*e) is None,
        },
{
    if measure_text(e.import_id.as_str()).1 {
        Some("import id")
    } else if measure_text(e.generated_at.as_str()).1 {
        Some("generated at")
    } else if measure_text(e.source.system.as_str()).1 {
        Some("source system")
    } else if measure_text(e.source.stream.as_str()).1 {
        Some("source stream")
    } else if measure_text(e.source.repository.as_str()).1 {
        Some("source repository")
    } else if measure_text(e.source.revision.as_str()).1 {
        Some("source revision")
    } else {
        None
    }
}

/// Why the envelope is refused, if it is.
pub fn envelope_refusal_exec(e: &OperationalImportEnvelope) -> (r: Option<String>)
    ensures
        opt_text(r) == envelope_refusal(*e),
{
    if !(e.contract == OPERATIONAL_IMPORT_CONTRACT.to_string()) {
        return Some("unsupported operational import contract".to_string());
    }
    if !(e.classification == OPERATIONAL_CLASSIFICATION.to_string()) {
        return Some("operational import has the wrong information classification".to_string());
    }
    if e.contains_scientific_endpoints {
        return Some("scientific endpoint material cannot enter the operational import boundary".to_string());
    }
    match blank_field_exec(e) {
        Some(label) => {
            let mut message = label.to_string();
            message.append(" must not be empty");
            return Some(message);
        },
        None => {},
    }
    let b = &e.bundle;
    if b.metrics.len() > 0 || b.candidates.len() > 0 || b.basins.len() > 0 || b.projections.len() > 0 {
        return Some(
            "operational imports cannot contain scientific metrics, candidates, basins, or projections".to_string(),
        );
    }
    if any_executable(&b.capabilities) {
        return Some("imported capabilities must be descriptive and non-executable".to_string());
    }
    if any_secret(&b.providers) {
        return Some("operational imports cannot contain secret references".to_string());
    }
    None
}

/// The greatest `generated_at`, in text order, among the imports of a source stream.
pub fn latest_generated_exec(rows: &Vec<OperationalImportRecord>, system: &String, stream: &String) -> (r: Option<String>)
    ensures
        opt_text(r) == latest_generated(rows@, system@, stream@, rows@.len()),
{
    let mut latest: Option<String> = None;
    let mut k: usize = 0;
    while k < rows.len()
        invariant
            k <= rows.len(),
            opt_text(latest) == latest_generated(rows@, system@, stream@, k as nat),
        decreases rows.len() - k,
    {
        let row = &rows[k];
        if row.source_system == *system && row.source_stream == *stream {
            let later = match &latest {
                Some(l) => str_lt(l.as_str(), row.generated_at.as_str()),
                None => true,
            };
            if later {
                latest = Some(row.generated_at.clone());
            }
        }
        k = k + 1;
    }
    latest
}

/// Why the stream's history refuses a new import of `e`, if it does.
pub fn staleness_refusal_exec(rows: &Vec<OperationalImportRecord>, e: &OperationalImportEnvelope) -> (r: Option<String>)
    ensures
        opt_text(r) == staleness_refusal(rows@, *e),
{
    let incoming = match parse_rfc3339_instant(e.generated_at.as_str()) {
        Some(instant) => instant,
        None => {
            return Some("operational import generated_at is not RFC3339".to_string());
        },
    };
    match latest_generated_exec(rows, &e.source.system, &e.source.stream) {
        None => None,
        Some(latest) => match parse_rfc3339_instant(latest.as_str()) {
            None => Some("stored operational import generated_at is not RFC3339".to_string()),
            Some(l) => {
                if incoming.0 > l.0 || (incoming.0 == l.0 && incoming.1 > l.1) {
                    None
                } else {
                    Some("operational import is stale or reuses a source-stream timestamp".to_string())
                }
            },
        },
    }
}

/// Puts `status` in place of its stream's status, or adds it.
pub fn write_source(sources: &mut Vec<OperationalSourceStatus>, status: OperationalSourceStatus)
    ensures
        final(sources)@ == with_source(old(sources)@, status),
{
    match find_source(sources, &status.source_system, &status.source_stream) {
        Some(i) => {
            sources.set(i, status);
        },
        None => {
            sources.push(status);
        },
    }
}

/// Where the status of a source stream stands.
#[verifier::loop_isolation(false)]
pub fn find_source(sources: &Vec<OperationalSourceStatus>, system: &String, stream: &String) -> (r: Option<usize>)
    ensures
        match r {
            Some(i) => index_of(source_keys(sources@), (system@, stream@)) == Some(i as int) && i < sources@.len(),
            None => index_of(source_keys(sources@), (system@, stream@)) is None,
        },
{
    let ghost key = (system@, stream@);
    let mut i: usize = 0;
    while i < sources.len()
        invariant
            i <= sources.len(),
            forall|j: int| 0 <= j < i ==> source_keys(sources@)[j] != key,
        decreases sources.len() - i,
    {
        assert(source_keys(sources@)[i as int] == (sources@[i as int].source_system@, sources@[i as int].source_stream@));
        if sources[i].source_system == *system && sources[i].source_stream == *stream {
            proof {
                lemma_index_of_found(source_keys(sources@), key, i as int);
            }
            return Some(i);
        }
        i = i + 1;
    }
    proof {
        lemma_index_of_absent(source_keys(sources@), key);
    }
    None
}

} // verus!
