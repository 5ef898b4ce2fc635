//! The records of the campaign workspace store. JSON documents are held as their canonical
//! text; measurements, coordinates and money that the workspace records as IEEE-754 numbers are
//! held as the bits of those numbers, which the store never interprets except to reject
//! non-finite coordinates.

use vstd::prelude::*;
use crate::order::{clone_texts, texts};
use crate::sorting::SortKey;

verus! {

/// A row that a table finds by one text key.
pub trait Keyed {
    spec fn key_view(&self) -> Seq<char>;

    fn key(&self) -> (r: &String)
        ensures
            r@ == self.key_view(),
    ;
}

/// The program a campaign designs with.
#[derive(Debug, Clone)]
pub struct DesignProgram {
    pub id: String,
    pub name: String,
    pub language: String,
    pub language_version: String,
    pub source: String,
}

/// A campaign of the workspace.
#[derive(Debug, Clone)]
pub struct Campaign {
    pub id: String,
    pub name: String,
    pub domain: String,
    pub objective: String,
    pub status: String,
    pub created_at: String,
    pub program: DesignProgram,
    pub capability_ids: Vec<String>,
}

/// A registered capability.
#[derive(Debug, Clone)]
pub struct Capability {
    pub id: String,
    pub name: String,
    pub kind: String,
    pub version: String,
    pub provider: String,
    pub description: String,
    pub trust_status: String,
    pub lifecycle_json: String,
    pub command_json: String,
    pub resources_json: String,
}

/// An execution run.
#[derive(Debug, Clone)]
pub struct Run {
    pub id: String,
    pub campaign_id: String,
    pub capability_id: String,
    pub name: String,
    pub status: String,
    pub phase: String,
    pub progress_bits: u64,
    pub started_at: Option<String>,
    pub finished_at: Option<String>,
    pub external_url: Option<String>,
    pub pid: Option<i64>,
    pub budget_ceiling_usd_bits: Option<u64>,
    pub cost_usd_bits: Option<u64>,
    pub parameters_json: String,
    pub resources_json: String,
}

/// One point of a run's metric series.
#[derive(Debug, Clone)]
pub struct MetricPoint {
    pub run_id: String,
    pub name: String,
    pub step: i64,
    pub value_bits: u64,
    pub timestamp: String,
}

/// A typed object of the campaign's semantic record.
#[derive(Debug, Clone)]
pub struct SemanticObject {
    pub id: String,
    pub campaign_id: Option<String>,
    pub run_id: Option<String>,
    pub kind: String,
    pub semantic_type: String,
    pub state: String,
    pub label: Option<String>,
    pub payload_json: String,
    pub created_at: String,
    pub updated_at: String,
}

/// A typed relation between semantic objects.
#[derive(Debug, Clone)]
pub struct SemanticRelation {
    pub id: String,
    pub campaign_id: Option<String>,
    pub run_id: Option<String>,
    pub subject_id: String,
    pub predicate: String,
    pub object_id: String,
    pub payload_json: String,
    pub timestamp: String,
}

/// An action taken in a campaign.
#[derive(Debug, Clone)]
pub struct ActionRecord {
    pub id: String,
    pub campaign_id: Option<String>,
    pub run_id: Option<String>,
    pub action_type: String,
    pub actor: String,
    pub target_id: Option<String>,
    pub status: String,
    pub payload_json: String,
    pub timestamp: String,
}

/// Binds a capability to a campaign, or unbinds it.
#[derive(Debug, Clone)]
pub struct CampaignCapabilityUpdate {
    pub capability_id: String,
    pub enabled: bool,
}

/// An entry of the workspace's audit ledger.
#[derive(Debug, Clone)]
pub struct LedgerEvent {
    pub id: String,
    pub campaign_id: Option<String>,
    pub run_id: Option<String>,
    pub object_type: String,
    pub object_id: String,
    pub verb: String,
    pub timestamp: String,
    pub payload_json: String,
}

/// A job at an external provider, found by provider and external identifier.
#[derive(Debug, Clone)]
pub struct ExternalJob {
    pub id: String,
    pub campaign_id: Option<String>,
    pub run_id: Option<String>,
    pub provider: String,
    pub external_id: String,
    pub label: String,
    pub status: String,
    pub chip: Option<String>,
    pub submitted_at: Option<String>,
    pub started_at: Option<String>,
    pub finished_at: Option<String>,
    pub rate_per_min_usd_bits: Option<u64>,
    pub max_cost_usd_bits: Option<u64>,
    pub cost_usd_bits: Option<u64>,
    pub queue_position: Option<i64>,
    pub estimated_wait_seconds: Option<i64>,
    pub payload_json: String,
    pub updated_at: String,
}

/// A configured model or compute provider.
#[derive(Debug, Clone)]
pub struct ProviderProfile {
    pub id: String,
    pub name: String,
    pub kind: String,
    pub base_url: Option<String>,
    pub secret_ref: Option<String>,
    pub status: String,
    pub metadata_json: String,
    pub updated_at: String,
}

/// Where an object sits in one projection space of a campaign.
#[derive(Debug, Clone)]
pub struct ObjectProjection {
    pub id: String,
    pub campaign_id: String,
    pub run_id: Option<String>,
    pub object_id: String,
    pub space: String,
    pub x_bits: u64,
    pub y_bits: u64,
    pub z_bits: Option<u64>,
    pub group_id: Option<String>,
    pub signals_json: String,
    pub selected: bool,
    pub label: Option<String>,
    pub updated_at: String,
}

/// A stored artifact's metadata.
#[derive(Debug, Clone)]
pub struct Artifact {
    pub id: String,
    pub run_id: Option<String>,
    pub kind: String,
    pub media_type: String,
    pub byte_size: u64,
    pub path: String,
    pub source_path: Option<String>,
    pub created_at: String,
}

/// One accepted version of a project input file.
#[derive(Debug, Clone)]
pub struct ProjectInputVersion {
    pub contract: String,
    pub id: String,
    pub campaign_id: String,
    pub logical_path: String,
    pub version: u64,
    pub artifact_id: String,
    pub content_sha256: String,
    pub byte_size: u64,
    pub media_type: String,
    pub previous_version_id: Option<String>,
    pub previous_version_sha256: Option<String>,
    pub actor: String,
    pub idempotency_key: String,
    pub created_at: String,
    pub record_sha256: String,
}

/// A stored project input version with the canonical JSON it was recorded as.
#[derive(Debug, Clone)]
pub struct ProjectInputRow {
    pub record: ProjectInputVersion,
    pub record_json: String,
}

/// Whether an agent run should progress or pause.
#[derive(Clone, Copy, PartialEq, Eq, Debug, Structural)]
pub enum AgentProgressionAction {
    Run,
    Pause,
}

/// A request to change an agent run's progression.
#[derive(Debug, Clone)]
pub struct SetAgentProgressionRequest {
    pub action: AgentProgressionAction,
    pub actor: String,
    pub reason: String,
    pub idempotency_key: String,
    pub expected_record_sha256: Option<String>,
    pub expected_agent_revision: Option<u64>,
}

/// One hash-chained record of an agent run's progression.
#[derive(Debug, Clone)]
pub struct AgentProgressionRecord {
    pub contract: String,
    pub agent_run_id: String,
    pub sequence: u64,
    pub agent_revision: u64,
    pub agent_event_sha256: String,
    pub request: SetAgentProgressionRequest,
    pub previous_record_sha256: Option<String>,
    pub created_at: String,
    pub record_sha256: String,
}

/// A stored progression record under the agent run and sequence it was filed under.
#[derive(Debug, Clone)]
pub struct ProgressionRow {
    pub agent_run_id: String,
    pub sequence: u64,
    pub record: AgentProgressionRecord,
}

impl Keyed for Campaign {
    open spec fn key_view(&self) -> Seq<char> {
        self.id@
    }

    fn key(&self) -> (r: &String) {
        &self.id
    }
}

impl Keyed for Capability {
    open spec fn key_view(&self) -> Seq<char> {
        self.id@
    }

    fn key(&self) -> (r: &String) {
        &self.id
    }
}

impl Keyed for Run {
    open spec fn key_view(&self) -> Seq<char> {
        self.id@
    }

    fn key(&self) -> (r: &String) {
        &self.id
    }
}

impl Keyed for SemanticObject {
    open spec fn key_view(&self) -> Seq<char> {
        self.id@
    }

    fn key(&self) -> (r: &String) {
        &self.id
    }
}

impl Keyed for SemanticRelation {
    open spec fn key_view(&self) -> Seq<char> {
        self.id@
    }

    fn key(&self) -> (r: &String) {
        &self.id
    }
}

impl Keyed for ActionRecord {
    open spec fn key_view(&self) -> Seq<char> {
        self.id@
    }

    fn key(&self) -> (r: &String) {
        &self.id
    }
}

impl Keyed for ExternalJob {
    open spec fn key_view(&self) -> Seq<char> {
        self.id@
    }

    fn key(&self) -> (r: &String) {
        &self.id
    }
}

impl Keyed for LedgerEvent {
    open spec fn key_view(&self) -> Seq<char> {
        self.id@
    }

    fn key(&self) -> (r: &String) {
        &self.id
    }
}

/// Listings of semantic objects put the most recently updated first.
impl SortKey for SemanticObject {
    open spec fn sort_key(&self) -> Seq<char> {
        self.updated_at@
    }

    fn sort_key_exec(&self) -> (r: &String) {
        &self.updated_at
    }
}

impl Keyed for ProviderProfile {
    open spec fn key_view(&self) -> Seq<char> {
        self.id@
    }

    fn key(&self) -> (r: &String) {
        &self.id
    }
}

impl Keyed for ObjectProjection {
    open spec fn key_view(&self) -> Seq<char> {
        self.id@
    }

    fn key(&self) -> (r: &String) {
        &self.id
    }
}

impl Keyed for Artifact {
    open spec fn key_view(&self) -> Seq<char> {
        self.id@
    }

    fn key(&self) -> (r: &String) {
        &self.id
    }
}

impl Keyed for ProjectInputRow {
    open spec fn key_view(&self) -> Seq<char> {
        self.record.id@
    }

    fn key(&self) -> (r: &String) {
        &self.record.id
    }
}

/// Two campaign records say the same.
pub open spec fn same_campaign(a: Campaign, b: Campaign) -> bool {
    &&& a.id@ == b.id@
    &&& a.name@ == b.name@
    &&& a.domain@ == b.domain@
    &&& a.objective@ == b.objective@
    &&& a.status@ == b.status@
    &&& a.created_at@ == b.created_at@
    &&& a.program.id@ == b.program.id@
    &&& a.program.name@ == b.program.name@
    &&& a.program.language@ == b.program.language@
    &&& a.program.language_version@ == b.program.language_version@
    &&& a.program.source@ == b.program.source@
    &&& texts(a.capability_ids@) == texts(b.capability_ids@)
}

impl Campaign {
    /// A copy of the campaign.
    pub fn copy(&self) -> (r: Campaign)
        ensures
            same_campaign(r, *self),
            crate::operational::campaign_model(r) == crate::operational::campaign_model(*self),
    {
        Campaign {
            id: self.id.clone(),
            name: self.name.clone(),
            domain: self.domain.clone(),
            objective: self.objective.clone(),
            status: self.status.clone(),
            created_at: self.created_at.clone(),
            program: DesignProgram {
                id: self.program.id.clone(),
                name: self.program.name.clone(),
                language: self.program.language.clone(),
                language_version: self.program.language_version.clone(),
                source: self.program.source.clone(),
            },
            capability_ids: clone_texts(&self.capability_ids),
        }
    }
}

fn copy_opt(o: &Option<String>) -> (r: Option<String>)
    ensures
        crate::epact::opt_text(r) == crate::epact::opt_text(*o),
{
    match o {
        Some(v) => Some(v.clone()),
        None => None,
    }
}

/// An equal optional text.
pub(crate) fn clone_opt(o: &Option<String>) -> (r: Option<String>)
    ensures
        r == *o,
{
    match o {
        Some(v) => Some(v.clone()),
        None => None,
    }
}

impl SemanticObject {
    /// An equal object.
    pub fn copy(&self) -> (r: SemanticObject)
        ensures
            r == *self,
    {
        SemanticObject {
            id: self.id.clone(),
            campaign_id: clone_opt(&self.campaign_id),
            run_id: clone_opt(&self.run_id),
            kind: self.kind.clone(),
            semantic_type: self.semantic_type.clone(),
            state: self.state.clone(),
            label: clone_opt(&self.label),
            payload_json: self.payload_json.clone(),
            created_at: self.created_at.clone(),
            updated_at: self.updated_at.clone(),
        }
    }
}

impl SemanticRelation {
    /// An equal relation.
    pub fn copy(&self) -> (r: SemanticRelation)
        ensures
            r == *self,
    {
        SemanticRelation {
            id: self.id.clone(),
            campaign_id: clone_opt(&self.campaign_id),
            run_id: clone_opt(&self.run_id),
            subject_id: self.subject_id.clone(),
            predicate: self.predicate.clone(),
            object_id: self.object_id.clone(),
            payload_json: self.payload_json.clone(),
            timestamp: self.timestamp.clone(),
        }
    }
}

impl ObjectProjection {
    /// An equal projection.
    pub fn copy(&self) -> (r: ObjectProjection)
        ensures
            r == *self,
    {
        ObjectProjection {
            id: self.id.clone(),
            campaign_id: self.campaign_id.clone(),
            run_id: clone_opt(&self.run_id),
            object_id: self.object_id.clone(),
            space: self.space.clone(),
            x_bits: self.x_bits,
            y_bits: self.y_bits,
            z_bits: self.z_bits,
            group_id: clone_opt(&self.group_id),
            signals_json: self.signals_json.clone(),
            selected: self.selected,
            label: clone_opt(&self.label),
            updated_at: self.updated_at.clone(),
        }
    }
}

impl DesignProgram {
    /// An equal program.
    pub fn copy(&self) -> (r: DesignProgram)
        ensures
            r == *self,
    {
        DesignProgram {
            id: self.id.clone(),
            name: self.name.clone(),
            language: self.language.clone(),
            language_version: self.language_version.clone(),
            source: self.source.clone(),
        }
    }
}

impl LedgerEvent {
    /// An equal ledger entry.
    pub fn copy(&self) -> (r: LedgerEvent)
        ensures
            r == *self,
    {
        LedgerEvent {
            id: self.id.clone(),
            campaign_id: clone_opt(&self.campaign_id),
            run_id: clone_opt(&self.run_id),
            object_type: self.object_type.clone(),
            object_id: self.object_id.clone(),
            verb: self.verb.clone(),
            timestamp: self.timestamp.clone(),
            payload_json: self.payload_json.clone(),
        }
    }
}

impl ExternalJob {
    /// An equal job.
    pub fn copy(&self) -> (r: ExternalJob)
        ensures
            r == *self,
    {
        ExternalJob {
            id: self.id.clone(),
            campaign_id: clone_opt(&self.campaign_id),
            run_id: clone_opt(&self.run_id),
            provider: self.provider.clone(),
            external_id: self.external_id.clone(),
            label: self.label.clone(),
            status: self.status.clone(),
            chip: clone_opt(&self.chip),
            submitted_at: clone_opt(&self.submitted_at),
            started_at: clone_opt(&self.started_at),
            finished_at: clone_opt(&self.finished_at),
            rate_per_min_usd_bits: self.rate_per_min_usd_bits,
            max_cost_usd_bits: self.max_cost_usd_bits,
            cost_usd_bits: self.cost_usd_bits,
            queue_position: self.queue_position,
            estimated_wait_seconds: self.estimated_wait_seconds,
            payload_json: self.payload_json.clone(),
            updated_at: self.updated_at.clone(),
        }
    }
}

/// A row the store can copy exactly, to write it into a table it does not own.
pub trait Duplicate: Sized {
    fn duplicate(&self) -> (r: Self)
        ensures
            r == *self,
    ;
}

impl Duplicate for Capability {
    fn duplicate(&self) -> (r: Self) {
        self.copy()
    }
}

impl Duplicate for Run {
    fn duplicate(&self) -> (r: Self) {
        self.copy()
    }
}

impl Duplicate for LedgerEvent {
    fn duplicate(&self) -> (r: Self) {
        self.copy()
    }
}

impl Duplicate for SemanticRelation {
    fn duplicate(&self) -> (r: Self) {
        self.copy()
    }
}

impl Duplicate for ActionRecord {
    fn duplicate(&self) -> (r: Self) {
        self.copy()
    }
}

impl Duplicate for ProviderProfile {
    fn duplicate(&self) -> (r: Self) {
        self.copy()
    }
}

impl ActionRecord {
    /// An equal action.
    pub fn copy(&self) -> (r: ActionRecord)
        ensures
            r == *self,
    {
        ActionRecord {
            id: self.id.clone(),
            campaign_id: clone_opt(&self.campaign_id),
            run_id: clone_opt(&self.run_id),
            action_type: self.action_type.clone(),
            actor: self.actor.clone(),
            target_id: clone_opt(&self.target_id),
            status: self.status.clone(),
            payload_json: self.payload_json.clone(),
            timestamp: self.timestamp.clone(),
        }
    }
}

impl MetricPoint {
    /// An equal metric point.
    pub fn copy(&self) -> (r: MetricPoint)
        ensures
            r == *self,
    {
        MetricPoint {
            run_id: self.run_id.clone(),
            name: self.name.clone(),
            step: self.step,
            value_bits: self.value_bits,
            timestamp: self.timestamp.clone(),
        }
    }
}

impl Capability {
    /// An equal capability.
    pub fn copy(&self) -> (r: Capability)
        ensures
            r == *self,
    {
        Capability {
            id: self.id.clone(),
            name: self.name.clone(),
            kind: self.kind.clone(),
            version: self.version.clone(),
            provider: self.provider.clone(),
            description: self.description.clone(),
            trust_status: self.trust_status.clone(),
            lifecycle_json: self.lifecycle_json.clone(),
            command_json: self.command_json.clone(),
            resources_json: self.resources_json.clone(),
        }
    }
}

impl ProviderProfile {
    /// An equal provider profile.
    pub fn copy(&self) -> (r: ProviderProfile)
        ensures
            r == *self,
    {
        ProviderProfile {
            id: self.id.clone(),
            name: self.name.clone(),
            kind: self.kind.clone(),
            base_url: clone_opt(&self.base_url),
            secret_ref: clone_opt(&self.secret_ref),
            status: self.status.clone(),
            metadata_json: self.metadata_json.clone(),
            updated_at: self.updated_at.clone(),
        }
    }
}

impl Artifact {
    /// An equal artifact record.
    pub fn copy(&self) -> (r: Artifact)
        ensures
            r == *self,
    {
        Artifact {
            id: self.id.clone(),
            run_id: clone_opt(&self.run_id),
            kind: self.kind.clone(),
            media_type: self.media_type.clone(),
            byte_size: self.byte_size,
            path: self.path.clone(),
            source_path: clone_opt(&self.source_path),
            created_at: self.created_at.clone(),
        }
    }
}

/// Two run records say the same.
pub open spec fn same_run(a: Run, b: Run) -> bool {
    &&& a.id@ == b.id@
    &&& a.campaign_id@ == b.campaign_id@
    &&& a.capability_id@ == b.capability_id@
    &&& a.name@ == b.name@
    &&& a.status@ == b.status@
    &&& a.phase@ == b.phase@
    &&& a.progress_bits == b.progress_bits
    &&& crate::epact::opt_text(a.started_at) == crate::epact::opt_text(b.started_at)
    &&& crate::epact::opt_text(a.finished_at) == crate::epact::opt_text(b.finished_at)
    &&& crate::epact::opt_text(a.external_url) == crate::epact::opt_text(b.external_url)
    &&& a.pid == b.pid
    &&& a.budget_ceiling_usd_bits == b.budget_ceiling_usd_bits
    &&& a.cost_usd_bits == b.cost_usd_bits
    &&& a.parameters_json@ == b.parameters_json@
    &&& a.resources_json@ == b.resources_json@
}

impl Run {
    /// A copy of the run.
    pub fn copy(&self) -> (r: Run)
        ensures
            r == *self,
            same_run(r, *self),
    {
        Run {
            id: self.id.clone(),
            campaign_id: self.campaign_id.clone(),
            capability_id: self.capability_id.clone(),
            name: self.name.clone(),
            status: self.status.clone(),
            phase: self.phase.clone(),
            progress_bits: self.progress_bits,
            started_at: clone_opt(&self.started_at),
            finished_at: clone_opt(&self.finished_at),
            external_url: clone_opt(&self.external_url),
            pid: self.pid,
            budget_ceiling_usd_bits: self.budget_ceiling_usd_bits,
            cost_usd_bits: self.cost_usd_bits,
            parameters_json: self.parameters_json.clone(),
            resources_json: self.resources_json.clone(),
        }
    }
}

/// Two project input records say the same.
pub open spec fn same_input(a: ProjectInputVersion, b: ProjectInputVersion) -> bool {
    &&& a.contract@ == b.contract@
    &&& a.id@ == b.id@
    &&& a.campaign_id@ == b.campaign_id@
    &&& a.logical_path@ == b.logical_path@
    &&& a.version == b.version
    &&& a.artifact_id@ == b.artifact_id@
    &&& a.content_sha256@ == b.content_sha256@
    &&& a.byte_size == b.byte_size
    &&& a.media_type@ == b.media_type@
    &&& crate::epact::opt_text(a.previous_version_id) == crate::epact::opt_text(b.previous_version_id)
    &&& crate::epact::opt_text(a.previous_version_sha256) == crate::epact::opt_text(b.previous_version_sha256)
    &&& a.actor@ == b.actor@
    &&& a.idempotency_key@ == b.idempotency_key@
    &&& a.created_at@ == b.created_at@
    &&& a.record_sha256@ == b.record_sha256@
}

impl ProjectInputVersion {
    /// A copy of the record.
    pub fn copy(&self) -> (r: ProjectInputVersion)
        ensures
            same_input(r, *self),
            r == *self,
    {
        ProjectInputVersion {
            contract: self.contract.clone(),
            id: self.id.clone(),
            campaign_id: self.campaign_id.clone(),
            logical_path: self.logical_path.clone(),
            version: self.version,
            artifact_id: self.artifact_id.clone(),
            content_sha256: self.content_sha256.clone(),
            byte_size: self.byte_size,
            media_type: self.media_type.clone(),
            previous_version_id: clone_opt(&self.previous_version_id),
            previous_version_sha256: clone_opt(&self.previous_version_sha256),
            actor: self.actor.clone(),
            idempotency_key: self.idempotency_key.clone(),
            created_at: self.created_at.clone(),
            record_sha256: self.record_sha256.clone(),
        }
    }
}

/// Two progression records say the same.
pub open spec fn same_progression(a: AgentProgressionRecord, b: AgentProgressionRecord) -> bool {
    &&& a.contract@ == b.contract@
    &&& a.agent_run_id@ == b.agent_run_id@
    &&& a.sequence == b.sequence
    &&& a.agent_revision == b.agent_revision
    &&& a.agent_event_sha256@ == b.agent_event_sha256@
    &&& a.request.action == b.request.action
    &&& a.request.actor@ == b.request.actor@
    &&& a.request.reason@ == b.request.reason@
    &&& a.request.idempotency_key@ == b.request.idempotency_key@
    &&& crate::epact::opt_text(a.request.expected_record_sha256) == crate::epact::opt_text(
        b.request.expected_record_sha256,
    )
    &&& a.request.expected_agent_revision == b.request.expected_agent_revision
    &&& crate::epact::opt_text(a.previous_record_sha256) == crate::epact::opt_text(b.previous_record_sha256)
    &&& a.created_at@ == b.created_at@
    &&& a.record_sha256@ == b.record_sha256@
}

impl AgentProgressionRecord {
    /// A copy of the record.
    pub fn copy(&self) -> (r: AgentProgressionRecord)
        ensures
            same_progression(r, *self),
    {
        AgentProgressionRecord {
            contract: self.contract.clone(),
            agent_run_id: self.agent_run_id.clone(),
            sequence: self.sequence,
            agent_revision: self.agent_revision,
            agent_event_sha256: self.agent_event_sha256.clone(),
            request: SetAgentProgressionRequest {
                action: self.request.action,
                actor: self.request.actor.clone(),
                reason: self.request.reason.clone(),
                idempotency_key: self.request.idempotency_key.clone(),
                expected_record_sha256: copy_opt(&self.request.expected_record_sha256),
                expected_agent_revision: self.request.expected_agent_revision,
            },
            previous_record_sha256: copy_opt(&self.previous_record_sha256),
            created_at: self.created_at.clone(),
            record_sha256: self.record_sha256.clone(),
        }
    }
}

} // verus!
