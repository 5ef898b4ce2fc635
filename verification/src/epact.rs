//! The compiled Epact program image, its runtime projection, and its runtime events.
//!
//! Identifiers are held as text and ordered as `str` orders them. Money is held in whole
//! micro-USD and fractional resources in thousandths of their unit, so every resource
//! envelope is a set of non-negative integers.

use vstd::prelude::*;
use crate::order::{insert_sorted, names, texts};

verus! {

/// The operations that compiled authority may grant.
#[derive(Clone, Copy, PartialEq, Eq, Debug, Structural)]
pub enum KernelOperation {
    Freeze,
    Authorize,
    Propose,
    Reserve,
    Dispatch,
    Amend,
    Attest,
    Evaluate,
    Decide,
    Publish,
    Retract,
}

/// Where an obligation stands in the runtime projection.
#[derive(Clone, Copy, PartialEq, Eq, Debug, Structural)]
pub enum EpactObligationState {
    Pending,
    Satisfied,
    Failed,
    Cancelled,
}

/// Resource ceilings: cost in micro-USD, time in seconds, fractional capacities in thousandths.
#[derive(Clone, Copy, PartialEq, Eq, Debug, Structural)]
pub struct EpactResourceEnvelope {
    pub maximum_cost_microusd: u64,
    pub maximum_elapsed_seconds: u64,
    pub maximum_model_calls: u64,
    pub maximum_tool_calls: u64,
    pub maximum_external_jobs: u64,
    pub maximum_cpu_millicores: u64,
    pub maximum_ram_milli_gb: u64,
    pub maximum_gpu_count: u64,
    pub maximum_vram_milli_gb: u64,
    pub maximum_storage_milli_gb: u64,
    pub maximum_data_movement_milli_gb: u64,
}

/// Every requested quantity is within the ceiling.
pub open spec fn fits_within(r: EpactResourceEnvelope, ceiling: EpactResourceEnvelope) -> bool {
    &&& r.maximum_cost_microusd <= ceiling.maximum_cost_microusd
    &&& r.maximum_elapsed_seconds <= ceiling.maximum_elapsed_seconds
    &&& r.maximum_model_calls <= ceiling.maximum_model_calls
    &&& r.maximum_tool_calls <= ceiling.maximum_tool_calls
    &&& r.maximum_external_jobs <= ceiling.maximum_external_jobs
    &&& r.maximum_cpu_millicores <= ceiling.maximum_cpu_millicores
    &&& r.maximum_ram_milli_gb <= ceiling.maximum_ram_milli_gb
    &&& r.maximum_gpu_count <= ceiling.maximum_gpu_count
    &&& r.maximum_vram_milli_gb <= ceiling.maximum_vram_milli_gb
    &&& r.maximum_storage_milli_gb <= ceiling.maximum_storage_milli_gb
    &&& r.maximum_data_movement_milli_gb <= ceiling.maximum_data_movement_milli_gb
}

impl EpactResourceEnvelope {
    pub fn fits_within(&self, ceiling: &EpactResourceEnvelope) -> (r: bool)
        ensures
            r == fits_within(*self, *ceiling),
    {
        self.maximum_cost_microusd <= ceiling.maximum_cost_microusd
            && self.maximum_elapsed_seconds <= ceiling.maximum_elapsed_seconds
            && self.maximum_model_calls <= ceiling.maximum_model_calls
            && self.maximum_tool_calls <= ceiling.maximum_tool_calls
            && self.maximum_external_jobs <= ceiling.maximum_external_jobs
            && self.maximum_cpu_millicores <= ceiling.maximum_cpu_millicores
            && self.maximum_ram_milli_gb <= ceiling.maximum_ram_milli_gb
            && self.maximum_gpu_count <= ceiling.maximum_gpu_count
            && self.maximum_vram_milli_gb <= ceiling.maximum_vram_milli_gb
            && self.maximum_storage_milli_gb <= ceiling.maximum_storage_milli_gb
            && self.maximum_data_movement_milli_gb <= ceiling.maximum_data_movement_milli_gb
    }
}

/// One grant of authority compiled from the program.
#[derive(Debug, Clone)]
pub struct CompiledAuthority {
    pub principal_id: String,
    pub operation: KernelOperation,
    pub whole_program: bool,
    pub obligation_ids: Vec<String>,
    pub capability_ids: Vec<String>,
    pub maximum_cost_microusd: Option<u64>,
    pub valid_after: Option<String>,
    pub valid_before: Option<String>,
}

/// How an obligation is discharged.
#[derive(Debug, Clone)]
pub enum EpactDischarge {
    Capability { capability_id: String },
    Review { capability_id: String, review_object_id: String },
    Decision { decision_object_id: String },
    Publication { artifact_object_ids: Vec<String> },
    Evidence { evidence_rule_ids: Vec<String> },
}

/// A gate predicate over the runtime projection.
#[derive(Debug)]
pub enum EpactPredicate {
    All { predicates: Vec<EpactPredicate> },
    Any { predicates: Vec<EpactPredicate> },
    Not { predicate: Box<EpactPredicate> },
    ObligationSatisfied { obligation_id: String },
    EvidenceSatisfied { evidence_rule_id: String },
    ObjectPresent { object_id: String },
}

#[derive(Debug)]
pub struct EpactGate {
    pub id: String,
    pub predicate: EpactPredicate,
}

#[derive(Debug, Clone)]
pub struct EpactEvidenceRule {
    pub id: String,
    pub evidence_object_ids: Vec<String>,
    pub minimum_observations: u64,
    pub independent_review_required: bool,
}

#[derive(Debug, Clone)]
pub struct EpactObligation {
    pub id: String,
    pub dependency_ids: Vec<String>,
    pub gate_ids: Vec<String>,
    pub discharge: EpactDischarge,
    pub output_object_ids: Vec<String>,
    pub effects: Vec<String>,
    pub resources: EpactResourceEnvelope,
    pub terminal_receipt_contract: String,
}

#[derive(Debug, Clone)]
pub struct EpactTerminalRule {
    pub required_obligation_ids: Vec<String>,
    pub required_object_ids: Vec<String>,
    pub required_receipt_contracts: Vec<String>,
}

/// The frozen, compiled program that a campaign runs under.
#[derive(Debug)]
pub struct EpactProgramImage {
    pub image_sha256: String,
    pub program_id: String,
    pub created_by: String,
    pub principal_ids: Vec<String>,
    pub object_ids: Vec<String>,
    pub capability_ids: Vec<String>,
    pub authorities: Vec<CompiledAuthority>,
    pub resources: EpactResourceEnvelope,
    pub obligations: Vec<EpactObligation>,
    pub gates: Vec<EpactGate>,
    pub evidence_rules: Vec<EpactEvidenceRule>,
    pub terminal: EpactTerminalRule,
    pub obligation_order: Vec<String>,
}

#[derive(Debug, Clone)]
pub struct EpactObligationProjection {
    pub obligation_id: String,
    pub state: EpactObligationState,
    pub terminal_event_sha256: Option<String>,
}

/// Everything replay derives from an image and its accepted events.
#[derive(Debug, Clone)]
pub struct EpactRuntimeState {
    pub program_image_sha256: String,
    pub next_sequence: u64,
    pub event_head_sha256: Option<String>,
    pub obligations: Vec<EpactObligationProjection>,
    pub present_object_ids: Vec<String>,
    pub satisfied_evidence_rule_ids: Vec<String>,
}

#[derive(Debug, Clone)]
pub enum EpactRuntimeEventKind {
    ObjectRecorded { object_id: String },
    EvidenceAccepted { evidence_rule_id: String, independent_review_receipt_sha256: Option<String> },
    ObligationSatisfied { obligation_id: String, receipt_contract: String },
    ObligationFailed { obligation_id: String, reason: String },
    ObligationCancelled { obligation_id: String, reason: String },
}

/// One accepted fact in a campaign's Epact history.
#[derive(Debug, Clone)]
pub struct EpactRuntimeEvent {
    pub id: String,
    pub program_image_sha256: String,
    pub sequence: u64,
    pub actor: String,
    pub idempotency_key: String,
    pub kind: EpactRuntimeEventKind,
    pub previous_event_sha256: Option<String>,
    pub event_sha256: String,
    pub created_at: String,
}

/// A requested transition, checked against the image and the projection.
#[derive(Debug, Clone)]
pub struct EpactOperationRequest {
    pub principal_id: String,
    pub operation: KernelOperation,
    pub requested_at: String,
    pub obligation_id: Option<String>,
    pub capability_id: Option<String>,
    pub effects: Vec<String>,
    pub resources: EpactResourceEnvelope,
}

#[derive(Debug, Clone)]
pub struct EpactEligibilityBlocker {
    pub code: String,
    pub subject_id: String,
    pub message: String,
}

#[derive(Debug, Clone)]
pub struct EpactEligibility {
    pub allowed: bool,
    pub blockers: Vec<EpactEligibilityBlocker>,
}

/// Why replay or evaluation refused.
#[allow(inconsistent_fields)]
#[derive(Debug, Clone)]
pub enum EpactRuntimeError {
    InvalidImage(String),
    InvalidEvent(String),
    ImageBindingMismatch,
    UnexpectedSequence { expected: u64, actual: u64 },
    BrokenEventChain(String),
    DuplicateEventId(String),
    DuplicateIdempotencyKey(String),
    UnknownPrincipal(String),
    UnknownObject(String),
    UnknownEvidenceRule(String),
    UnknownObligation(String),
    InsufficientEvidence(String),
    IndependentReviewRequired(String),
    ObligationAlreadyTerminal(String),
    UnsatisfiedDependency { obligation_id: String, dependency_id: String },
    UnsatisfiedGate { obligation_id: String, gate_id: String },
    MissingDischargeObject { obligation_id: String, object_id: String },
    UnsatisfiedEvidence { obligation_id: String, evidence_rule_id: String },
    ReceiptContractMismatch { obligation_id: String, expected: String, actual: String },
    InvalidState(String),
}

/// `Some(i)` for the first index below `n` where `p` holds.
pub open spec fn first_where(n: int, p: spec_fn(int) -> bool) -> Option<int> {
    if exists|i: int| 0 <= i < n && #[trigger] p(i) {
        Some(choose|i: int| 0 <= i < n && #[trigger] p(i) && forall|j: int| 0 <= j < i ==> !#[trigger] p(j))
    } else {
        None
    }
}

pub proof fn lemma_first_where_found(n: int, p: spec_fn(int) -> bool, i: int)
    requires
        0 <= i < n,
        p(i),
        forall|j: int| 0 <= j < i ==> !#[trigger] p(j),
    ensures
        first_where(n, p) == Some(i),
{
    let m = choose|m: int| 0 <= m < n && #[trigger] p(m) && forall|j: int| 0 <= j < m ==> !#[trigger] p(j);
    assert(0 <= i < n && p(i));
    if m < i {
        assert(!p(m));
    }
    if i < m {
        assert(!p(i));
    }
}

pub proof fn lemma_first_where_none(n: int, p: spec_fn(int) -> bool)
    requires
        forall|j: int| 0 <= j < n ==> !#[trigger] p(j),
    ensures
        first_where(n, p) == None::<int>,
{
}

/// The first obligation of the image with this identifier.
pub open spec fn obligation_index(img: EpactProgramImage, id: Seq<char>) -> Option<int> {
    first_where(img.obligations@.len() as int, |i: int| img.obligations@[i].id@ == id)
}

/// The first gate of the image with this identifier.
pub open spec fn gate_index(img: EpactProgramImage, id: Seq<char>) -> Option<int> {
    first_where(img.gates@.len() as int, |i: int| img.gates@[i].id@ == id)
}

/// The first evidence rule of the image with this identifier.
pub open spec fn rule_index(img: EpactProgramImage, id: Seq<char>) -> Option<int> {
    first_where(img.evidence_rules@.len() as int, |i: int| img.evidence_rules@[i].id@ == id)
}

/// What a projection of one obligation says.
pub struct ProjectionView {
    pub obligation_id: Seq<char>,
    pub state: EpactObligationState,
    pub terminal_event_sha256: Option<Seq<char>>,
}

/// The runtime projection as mathematical values.
pub struct RuntimeView {
    pub program_image_sha256: Seq<char>,
    pub next_sequence: int,
    pub event_head_sha256: Option<Seq<char>>,
    pub obligations: Seq<ProjectionView>,
    pub present_object_ids: Seq<Seq<char>>,
    pub satisfied_evidence_rule_ids: Seq<Seq<char>>,
}

impl View for EpactObligationProjection {
    type V = ProjectionView;

    open spec fn view(&self) -> ProjectionView {
        ProjectionView {
            obligation_id: self.obligation_id@,
            state: self.state,
            terminal_event_sha256: opt_text(self.terminal_event_sha256),
        }
    }
}

impl View for EpactRuntimeState {
    type V = RuntimeView;

    open spec fn view(&self) -> RuntimeView {
        RuntimeView {
            program_image_sha256: self.program_image_sha256@,
            next_sequence: self.next_sequence as int,
            event_head_sha256: opt_text(self.event_head_sha256),
            obligations: self.obligations@.map_values(|p: EpactObligationProjection| p@),
            present_object_ids: texts(self.present_object_ids@),
            satisfied_evidence_rule_ids: texts(self.satisfied_evidence_rule_ids@),
        }
    }
}

/// The first projection of the state for this obligation.
pub open spec fn projection_index(st: RuntimeView, id: Seq<char>) -> Option<int> {
    first_where(st.obligations.len() as int, |i: int| st.obligations[i].obligation_id == id)
}

/// Where the projection says an obligation stands.
pub open spec fn obligation_state(st: RuntimeView, id: Seq<char>) -> Option<EpactObligationState> {
    match projection_index(st, id) {
        Some(i) => Some(st.obligations[i].state),
        None => None,
    }
}

/// Whether a gate predicate holds of the projection.
pub open spec fn predicate_holds(p: EpactPredicate, st: RuntimeView) -> bool
    decreases p, 0nat,
{
    match p {
        EpactPredicate::All { predicates } => all_hold(predicates@, predicates@.len(), st),
        EpactPredicate::Any { predicates } => any_holds(predicates@, predicates@.len(), st),
        EpactPredicate::Not { predicate } => !predicate_holds(*predicate, st),
        EpactPredicate::ObligationSatisfied { obligation_id } => obligation_state(
            st,
            obligation_id@,
        ) == Some(EpactObligationState::Satisfied),
        EpactPredicate::EvidenceSatisfied { evidence_rule_id } => st.satisfied_evidence_rule_ids.contains(
            evidence_rule_id@,
        ),
        EpactPredicate::ObjectPresent { object_id } => st.present_object_ids.contains(object_id@),
    }
}

/// A negated predicate holds of a projection exactly when the predicate does not.
pub proof fn lemma_negation_holds_exactly_when_not(p: EpactPredicate, st: RuntimeView)
    ensures
        predicate_holds(EpactPredicate::Not { predicate: Box::new(p) }, st) == !predicate_holds(p, st),
{
}

/// An object's presence and its absence never both hold, and one of them always does.
pub proof fn lemma_presence_and_absence_exclude(object_id: String, st: RuntimeView)
    ensures
        predicate_holds(EpactPredicate::ObjectPresent { object_id }, st) == st.present_object_ids.contains(
            object_id@,
        ),
        predicate_holds(
            EpactPredicate::Not { predicate: Box::new(EpactPredicate::ObjectPresent { object_id }) },
            st,
        ) == !st.present_object_ids.contains(object_id@),
{
    lemma_negation_holds_exactly_when_not(EpactPredicate::ObjectPresent { object_id }, st);
}

/// The first `n` predicates all hold.
pub open spec fn all_hold(s: Seq<EpactPredicate>, n: nat, st: RuntimeView) -> bool
    decreases s, n,
{
    if n == 0 || n > s.len() {
        n == 0
    } else {
        all_hold(s, (n - 1) as nat, st) && predicate_holds(s[n - 1], st)
    }
}

/// One of the first `n` predicates holds.
pub open spec fn any_holds(s: Seq<EpactPredicate>, n: nat, st: RuntimeView) -> bool
    decreases s, n,
{
    if n == 0 || n > s.len() {
        false
    } else {
        any_holds(s, (n - 1) as nat, st) || predicate_holds(s[n - 1], st)
    }
}

/// A gate is satisfied when the image declares it and its predicate holds.
pub open spec fn gate_satisfied(img: EpactProgramImage, st: RuntimeView, id: Seq<char>) -> bool {
    match gate_index(img, id) {
        Some(i) => predicate_holds(img.gates@[i].predicate, st),
        None => false,
    }
}

/// The text of an optional identifier.
pub open spec fn opt_text(o: Option<String>) -> Option<Seq<char>> {
    match o {
        Some(s) => Some(s@),
        None => None,
    }
}


/// The refusal as mathematical values.
#[allow(inconsistent_fields)]
pub enum ErrorView {
    InvalidImage(Seq<char>),
    InvalidEvent(Seq<char>),
    ImageBindingMismatch,
    UnexpectedSequence { expected: u64, actual: u64 },
    BrokenEventChain(Seq<char>),
    DuplicateEventId(Seq<char>),
    DuplicateIdempotencyKey(Seq<char>),
    UnknownPrincipal(Seq<char>),
    UnknownObject(Seq<char>),
    UnknownEvidenceRule(Seq<char>),
    UnknownObligation(Seq<char>),
    InsufficientEvidence(Seq<char>),
    IndependentReviewRequired(Seq<char>),
    ObligationAlreadyTerminal(Seq<char>),
    UnsatisfiedDependency { obligation_id: Seq<char>, dependency_id: Seq<char> },
    UnsatisfiedGate { obligation_id: Seq<char>, gate_id: Seq<char> },
    MissingDischargeObject { obligation_id: Seq<char>, object_id: Seq<char> },
    UnsatisfiedEvidence { obligation_id: Seq<char>, evidence_rule_id: Seq<char> },
    ReceiptContractMismatch { obligation_id: Seq<char>, expected: Seq<char>, actual: Seq<char> },
    InvalidState(Seq<char>),
}

impl View for EpactRuntimeError {
    type V = ErrorView;

    open spec fn view(&self) -> ErrorView {
        match self {
            EpactRuntimeError::InvalidImage(m) => ErrorView::InvalidImage(m@),
            EpactRuntimeError::InvalidEvent(m) => ErrorView::InvalidEvent(m@),
            EpactRuntimeError::ImageBindingMismatch => ErrorView::ImageBindingMismatch,
            EpactRuntimeError::UnexpectedSequence { expected, actual } => ErrorView::UnexpectedSequence {
                expected: *expected,
                actual: *actual,
            },
            EpactRuntimeError::BrokenEventChain(m) => ErrorView::BrokenEventChain(m@),
            EpactRuntimeError::DuplicateEventId(m) => ErrorView::DuplicateEventId(m@),
            EpactRuntimeError::DuplicateIdempotencyKey(m) => ErrorView::DuplicateIdempotencyKey(m@),
            EpactRuntimeError::UnknownPrincipal(m) => ErrorView::UnknownPrincipal(m@),
            EpactRuntimeError::UnknownObject(m) => ErrorView::UnknownObject(m@),
            EpactRuntimeError::UnknownEvidenceRule(m) => ErrorView::UnknownEvidenceRule(m@),
            EpactRuntimeError::UnknownObligation(m) => ErrorView::UnknownObligation(m@),
            EpactRuntimeError::InsufficientEvidence(m) => ErrorView::InsufficientEvidence(m@),
            EpactRuntimeError::IndependentReviewRequired(m) => ErrorView::IndependentReviewRequired(
                m@,
            ),
            EpactRuntimeError::ObligationAlreadyTerminal(m) => ErrorView::ObligationAlreadyTerminal(
                m@,
            ),
            EpactRuntimeError::UnsatisfiedDependency { obligation_id, dependency_id } =>
                ErrorView::UnsatisfiedDependency {
                obligation_id: obligation_id@,
                dependency_id: dependency_id@,
            },
            EpactRuntimeError::UnsatisfiedGate { obligation_id, gate_id } =>
                ErrorView::UnsatisfiedGate { obligation_id: obligation_id@, gate_id: gate_id@ },
            EpactRuntimeError::MissingDischargeObject { obligation_id, object_id } =>
                ErrorView::MissingDischargeObject {
                obligation_id: obligation_id@,
                object_id: object_id@,
            },
            EpactRuntimeError::UnsatisfiedEvidence { obligation_id, evidence_rule_id } =>
                ErrorView::UnsatisfiedEvidence {
                obligation_id: obligation_id@,
                evidence_rule_id: evidence_rule_id@,
            },
            EpactRuntimeError::ReceiptContractMismatch { obligation_id, expected, actual } =>
                ErrorView::ReceiptContractMismatch {
                obligation_id: obligation_id@,
                expected: expected@,
                actual: actual@,
            },
            EpactRuntimeError::InvalidState(m) => ErrorView::InvalidState(m@),
        }
    }
}

/// The projection of an empty history: every obligation of the image, in order, pending.
pub open spec fn initial_view(img: EpactProgramImage) -> RuntimeView {
    RuntimeView {
        program_image_sha256: img.image_sha256@,
        next_sequence: 0,
        event_head_sha256: None,
        obligations: img.obligation_order@.map_values(
            |id: String|
                ProjectionView {
                    obligation_id: id@,
                    state: EpactObligationState::Pending,
                    terminal_event_sha256: None,
                },
        ),
        present_object_ids: Seq::empty(),
        satisfied_evidence_rule_ids: Seq::empty(),
    }
}

/// How many of the first `n` listed objects are present (repeats count again).
pub open spec fn count_present(ids: Seq<String>, present: Seq<Seq<char>>, n: nat) -> nat
    decreases n,
{
    if n == 0 || n > ids.len() {
        0
    } else {
        count_present(ids, present, (n - 1) as nat) + (if present.contains(ids[n - 1]@) {
            1nat
        } else {
            0nat
        })
    }
}

/// The texts of `v` sorted and without repeats, as the first `n` of them fold into a set.
pub open spec fn sorted_set(v: Seq<Seq<char>>, n: nat) -> Seq<Seq<char>>
    decreases n,
{
    if n == 0 || n > v.len() {
        Seq::empty()
    } else {
        insert_sorted(sorted_set(v, (n - 1) as nat), v[n - 1])
    }
}

/// The objects that must be present before an obligation is satisfied: its outputs and the
/// objects its discharge names.
pub open spec fn discharge_object_list(o: EpactObligation) -> Seq<Seq<char>> {
    texts(o.output_object_ids@) + match o.discharge {
        EpactDischarge::Decision { decision_object_id } => seq![decision_object_id@],
        EpactDischarge::Review { review_object_id, .. } => seq![review_object_id@],
        EpactDischarge::Publication { artifact_object_ids } => texts(artifact_object_ids@),
        _ => Seq::empty(),
    }
}

/// The discharge objects, sorted and without repeats.
pub open spec fn discharge_objects(o: EpactObligation) -> Seq<Seq<char>> {
    sorted_set(discharge_object_list(o), discharge_object_list(o).len())
}

pub open spec fn first_unsatisfied_dependency(st: RuntimeView, o: EpactObligation) -> Option<int> {
    first_where(
        o.dependency_ids@.len() as int,
        |i: int|
            obligation_state(st, o.dependency_ids@[i]@) != Some(EpactObligationState::Satisfied),
    )
}

pub open spec fn first_unsatisfied_gate(
    img: EpactProgramImage,
    st: RuntimeView,
    o: EpactObligation,
) -> Option<int> {
    first_where(o.gate_ids@.len() as int, |i: int| !gate_satisfied(img, st, o.gate_ids@[i]@))
}

pub open spec fn first_missing_object(st: RuntimeView, o: EpactObligation) -> Option<int> {
    first_where(
        discharge_objects(o).len() as int,
        |i: int| !st.present_object_ids.contains(discharge_objects(o)[i]),
    )
}

pub open spec fn first_unsatisfied_evidence(st: RuntimeView, o: EpactObligation) -> Option<int> {
    match o.discharge {
        EpactDischarge::Evidence { evidence_rule_ids } => first_where(
            evidence_rule_ids@.len() as int,
            |i: int| !st.satisfied_evidence_rule_ids.contains(evidence_rule_ids@[i]@),
        ),
        _ => None,
    }
}

/// The projection with one obligation moved to a terminal state by an event.
pub open spec fn with_terminal(
    st: RuntimeView,
    id: Seq<char>,
    state: EpactObligationState,
    event_sha256: Seq<char>,
) -> RuntimeView {
    match projection_index(st, id) {
        Some(i) => RuntimeView {
            obligations: st.obligations.update(
                i,
                ProjectionView {
                    obligation_id: st.obligations[i].obligation_id,
                    state,
                    terminal_event_sha256: Some(event_sha256),
                },
            ),
            ..st
        },
        None => st,
    }
}

/// What applying one event does to the projection, or why it is refused.
pub open spec fn apply_view(
    img: EpactProgramImage,
    st: RuntimeView,
    event: EpactRuntimeEvent,
) -> Result<RuntimeView, ErrorView> {
    match event.kind {
        EpactRuntimeEventKind::ObjectRecorded { object_id } => {
            if !names(img.object_ids@, object_id@) {
                Err(ErrorView::UnknownObject(object_id@))
            } else {
                Ok(
                    RuntimeView {
                        present_object_ids: insert_sorted(st.present_object_ids, object_id@),
                        ..st
                    },
                )
            }
        },
        EpactRuntimeEventKind::EvidenceAccepted {
            evidence_rule_id,
            independent_review_receipt_sha256,
        } => match rule_index(img, evidence_rule_id@) {
            None => Err(ErrorView::UnknownEvidenceRule(evidence_rule_id@)),
            Some(r) => {
                let rule = img.evidence_rules@[r];
                if count_present(
                    rule.evidence_object_ids@,
                    st.present_object_ids,
                    rule.evidence_object_ids@.len(),
                ) < rule.minimum_observations {
                    Err(ErrorView::InsufficientEvidence(evidence_rule_id@))
                } else if rule.independent_review_required
                    && independent_review_receipt_sha256 is None {
                    Err(ErrorView::IndependentReviewRequired(evidence_rule_id@))
                } else {
                    Ok(
                        RuntimeView {
                            satisfied_evidence_rule_ids: insert_sorted(
                                st.satisfied_evidence_rule_ids,
                                evidence_rule_id@,
                            ),
                            ..st
                        },
                    )
                }
            },
        },
        EpactRuntimeEventKind::ObligationSatisfied { obligation_id, receipt_contract } => {
            match obligation_index(img, obligation_id@) {
                None => Err(ErrorView::UnknownObligation(obligation_id@)),
                Some(k) => {
                    let o = img.obligations@[k];
                    if obligation_state(st, obligation_id@) != Some(EpactObligationState::Pending) {
                        Err(ErrorView::ObligationAlreadyTerminal(obligation_id@))
                    } else if first_unsatisfied_dependency(st, o) is Some {
                        Err(
                            ErrorView::UnsatisfiedDependency {
                                obligation_id: o.id@,
                                dependency_id: o.dependency_ids@[first_unsatisfied_dependency(
                                    st,
                                    o,
                                )->0]@,
                            },
                        )
                    } else if first_unsatisfied_gate(img, st, o) is Some {
                        Err(
                            ErrorView::UnsatisfiedGate {
                                obligation_id: o.id@,
                                gate_id: o.gate_ids@[first_unsatisfied_gate(img, st, o)->0]@,
                            },
                        )
                    } else if first_missing_object(st, o) is Some {
                        Err(
                            ErrorView::MissingDischargeObject {
                                obligation_id: o.id@,
                                object_id: discharge_objects(o)[first_missing_object(st, o)->0],
                            },
                        )
                    } else if first_unsatisfied_evidence(st, o) is Some {
                        Err(
                            ErrorView::UnsatisfiedEvidence {
                                obligation_id: o.id@,
                                evidence_rule_id: match o.discharge {
                                    EpactDischarge::Evidence { evidence_rule_ids } =>
                                        evidence_rule_ids@[first_unsatisfied_evidence(st, o)->0]@,
                                    _ => Seq::empty(),
                                },
                            },
                        )
                    } else if receipt_contract@ != o.terminal_receipt_contract@ {
                        Err(
                            ErrorView::ReceiptContractMismatch {
                                obligation_id: obligation_id@,
                                expected: o.terminal_receipt_contract@,
                                actual: receipt_contract@,
                            },
                        )
                    } else {
                        Ok(
                            with_terminal(
                                st,
                                obligation_id@,
                                EpactObligationState::Satisfied,
                                event.event_sha256@,
                            ),
                        )
                    }
                },
            }
        },
        EpactRuntimeEventKind::ObligationFailed { obligation_id, .. } => terminal_view(
            img,
            st,
            obligation_id@,
            EpactObligationState::Failed,
            event.event_sha256@,
        ),
        EpactRuntimeEventKind::ObligationCancelled { obligation_id, .. } => terminal_view(
            img,
            st,
            obligation_id@,
            EpactObligationState::Cancelled,
            event.event_sha256@,
        ),
    }
}

/// A failure or cancellation: the obligation must be declared and still pending.
pub open spec fn terminal_view(
    img: EpactProgramImage,
    st: RuntimeView,
    obligation_id: Seq<char>,
    state: EpactObligationState,
    event_sha256: Seq<char>,
) -> Result<RuntimeView, ErrorView> {
    if obligation_index(img, obligation_id) is None {
        Err(ErrorView::UnknownObligation(obligation_id))
    } else if obligation_state(st, obligation_id) != Some(EpactObligationState::Pending) {
        Err(ErrorView::ObligationAlreadyTerminal(obligation_id))
    } else {
        Ok(with_terminal(st, obligation_id, state, event_sha256))
    }
}

/// One step of replay: the event must extend the projection's chain, be new, come from a
/// declared principal, and apply.
pub open spec fn replay_step(
    img: EpactProgramImage,
    st: RuntimeView,
    prior: Seq<EpactRuntimeEvent>,
    event: EpactRuntimeEvent,
) -> Result<RuntimeView, ErrorView> {
    if event.program_image_sha256@ != img.image_sha256@ {
        Err(ErrorView::ImageBindingMismatch)
    } else if event.sequence != st.next_sequence {
        Err(ErrorView::UnexpectedSequence { expected: st.next_sequence as u64, actual: event.sequence })
    } else if opt_text(event.previous_event_sha256) != st.event_head_sha256 {
        Err(ErrorView::BrokenEventChain(event.id@))
    } else if exists|j: int| 0 <= j < prior.len() && #[trigger] prior[j].id@ == event.id@ {
        Err(ErrorView::DuplicateEventId(event.id@))
    } else if exists|j: int|
        0 <= j < prior.len() && #[trigger] prior[j].idempotency_key@ == event.idempotency_key@ {
        Err(ErrorView::DuplicateIdempotencyKey(event.idempotency_key@))
    } else if !names(img.principal_ids@, event.actor@) {
        Err(ErrorView::UnknownPrincipal(event.actor@))
    } else {
        match apply_view(img, st, event) {
            Err(e) => Err(e),
            Ok(next) => Ok(
                RuntimeView {
                    next_sequence: next.next_sequence + 1,
                    event_head_sha256: Some(event.event_sha256@),
                    ..next
                },
            ),
        }
    }
}

/// The projection after replaying the first `n` events, or the first refusal.
pub open spec fn replay_view(img: EpactProgramImage, events: Seq<EpactRuntimeEvent>, n: nat) -> Result<
    RuntimeView,
    ErrorView,
>
    decreases n,
{
    if n == 0 || n > events.len() {
        Ok(initial_view(img))
    } else {
        match replay_view(img, events, (n - 1) as nat) {
            Err(e) => Err(e),
            Ok(st) => replay_step(img, st, events.take(n - 1), events[n - 1]),
        }
    }
}

} // verus!
