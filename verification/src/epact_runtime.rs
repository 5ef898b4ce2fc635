//! Replay, eligibility and terminal checks over an Epact program image.

use vstd::prelude::*;
use crate::epact::opt_text;
use crate::epact::{
    all_hold, any_holds, apply_view, count_present, discharge_object_list, discharge_objects,
    first_missing_object, first_unsatisfied_dependency, first_unsatisfied_evidence,
    first_unsatisfied_gate, first_where, gate_index, gate_satisfied, initial_view,
    lemma_first_where_found, lemma_first_where_none, obligation_index, obligation_state,
    predicate_holds, projection_index, replay_step, replay_view, rule_index, sorted_set,
    terminal_view, with_terminal, EpactDischarge, EpactObligation, EpactObligationProjection,
    EpactObligationState, EpactPredicate, EpactProgramImage, EpactRuntimeError, EpactRuntimeEvent,
    EpactRuntimeEventKind, EpactRuntimeState, ErrorView, ProjectionView, RuntimeView,
};
use crate::order::{contains_str, insert_sorted, insert_sorted_unique, lemma_names_contains, names, texts};

verus! {

#[verifier::loop_isolation(false)]
pub(crate) fn find_obligation(img: &EpactProgramImage, id: &String) -> (r: Option<usize>)
    ensures
        match r {
            Some(i) => obligation_index(*img, id@) == Some(i as int) && i < img.obligations@.len(),
            None => obligation_index(*img, id@) == None::<int>,
        },
{
    let ghost p = |i: int| img.obligations@[i].id@ == id@;
    let mut i: usize = 0;
    while i < img.obligations.len()
        invariant
            i <= img.obligations.len(),
            forall|j: int| 0 <= j < i ==> !#[trigger] p(j),
        decreases img.obligations.len() - i,
    {
        if img.obligations[i].id == *id {
            proof {
                lemma_first_where_found(img.obligations@.len() as int, p, i as int);
            }
            return Some(i);
        }
        i = i + 1;
    }
    proof {
        lemma_first_where_none(img.obligations@.len() as int, p);
    }
    None
}

#[verifier::loop_isolation(false)]
fn find_gate(img: &EpactProgramImage, id: &String) -> (r: Option<usize>)
    ensures
        match r {
            Some(i) => gate_index(*img, id@) == Some(i as int) && i < img.gates@.len(),
            None => gate_index(*img, id@) == None::<int>,
        },
{
    let ghost p = |i: int| img.gates@[i].id@ == id@;
    let mut i: usize = 0;
    while i < img.gates.len()
        invariant
            i <= img.gates.len(),
            forall|j: int| 0 <= j < i ==> !#[trigger] p(j),
        decreases img.gates.len() - i,
    {
        if img.gates[i].id == *id {
            proof {
                lemma_first_where_found(img.gates@.len() as int, p, i as int);
            }
            return Some(i);
        }
        i = i + 1;
    }
    proof {
        lemma_first_where_none(img.gates@.len() as int, p);
    }
    None
}

#[verifier::loop_isolation(false)]
fn find_rule(img: &EpactProgramImage, id: &String) -> (r: Option<usize>)
    ensures
        match r {
            Some(i) => rule_index(*img, id@) == Some(i as int) && i < img.evidence_rules@.len(),
            None => rule_index(*img, id@) == None::<int>,
        },
{
    let ghost p = |i: int| img.evidence_rules@[i].id@ == id@;
    let mut i: usize = 0;
    while i < img.evidence_rules.len()
        invariant
            i <= img.evidence_rules.len(),
            forall|j: int| 0 <= j < i ==> !#[trigger] p(j),
        decreases img.evidence_rules.len() - i,
    {
        if img.evidence_rules[i].id == *id {
            proof {
                lemma_first_where_found(img.evidence_rules@.len() as int, p, i as int);
            }
            return Some(i);
        }
        i = i + 1;
    }
    proof {
        lemma_first_where_none(img.evidence_rules@.len() as int, p);
    }
    None
}

#[verifier::loop_isolation(false)]
pub(crate) fn find_projection(state: &EpactRuntimeState, id: &String) -> (r: Option<usize>)
    ensures
        match r {
            Some(i) => projection_index(state@, id@) == Some(i as int) && i
                < state.obligations@.len(),
            None => projection_index(state@, id@) == None::<int>,
        },
{
    let ghost p = |i: int| state@.obligations[i].obligation_id == id@;
    let mut i: usize = 0;
    while i < state.obligations.len()
        invariant
            i <= state.obligations.len(),
            forall|j: int| 0 <= j < i ==> !#[trigger] p(j),
        decreases state.obligations.len() - i,
    {
        if state.obligations[i].obligation_id == *id {
            proof {
                lemma_first_where_found(state.obligations@.len() as int, p, i as int);
            }
            return Some(i);
        }
        i = i + 1;
    }
    proof {
        lemma_first_where_none(state.obligations@.len() as int, p);
    }
    None
}

/// Where the projection says an obligation stands.
pub fn obligation_state_of(state: &EpactRuntimeState, id: &String) -> (r: Option<
    EpactObligationState,
>)
    ensures
        r == obligation_state(state@, id@),
{
    match find_projection(state, id) {
        Some(i) => Some(state.obligations[i].state),
        None => None,
    }
}

/// Whether a gate predicate holds of the projection.
#[verifier::loop_isolation(false)]
pub fn predicate_satisfied(predicate: &EpactPredicate, state: &EpactRuntimeState) -> (r: bool)
    ensures
        r == predicate_holds(*predicate, state@),
    decreases predicate,
{
    match predicate {
        EpactPredicate::All { predicates } => {
            let mut i: usize = 0;
            while i < predicates.len()
                invariant
                    i <= predicates.len(),
                    all_hold(predicates@, i as nat, state@),
                decreases predicates.len() - i,
            {
                proof {
                    assert(decreases_to!(*predicate => predicates@[i as int]));
                }
                if !predicate_satisfied(&predicates[i], state) {
                    proof {
                        if all_hold(predicates@, predicates@.len(), state@) {
                            lemma_all_hold_prefix(
                                predicates@,
                                (i + 1) as nat,
                                predicates@.len(),
                                state@,
                            );
                        }
                    }
                    return false;
                }
                i = i + 1;
            }
            true
        },
        EpactPredicate::Any { predicates } => {
            let mut i: usize = 0;
            while i < predicates.len()
                invariant
                    i <= predicates.len(),
                    !any_holds(predicates@, i as nat, state@),
                decreases predicates.len() - i,
            {
                proof {
                    assert(decreases_to!(*predicate => predicates@[i as int]));
                }
                if predicate_satisfied(&predicates[i], state) {
                    proof {
                        lemma_any_holds_extends(
                            predicates@,
                            (i + 1) as nat,
                            predicates@.len(),
                            state@,
                        );
                    }
                    return true;
                }
                i = i + 1;
            }
            false
        },
        EpactPredicate::Not { predicate: inner } => !predicate_satisfied(inner, state),
        EpactPredicate::ObligationSatisfied { obligation_id } => {
            obligation_state_of(state, obligation_id) == Some(EpactObligationState::Satisfied)
        },
        EpactPredicate::EvidenceSatisfied { evidence_rule_id } => {
            proof {
                lemma_names_contains(state.satisfied_evidence_rule_ids@, evidence_rule_id@);
            }
            contains_str(&state.satisfied_evidence_rule_ids, evidence_rule_id)
        },
        EpactPredicate::ObjectPresent { object_id } => {
            proof {
                lemma_names_contains(state.present_object_ids@, object_id@);
            }
            contains_str(&state.present_object_ids, object_id)
        },
    }
}

proof fn lemma_all_hold_prefix(s: Seq<EpactPredicate>, m: nat, n: nat, st: RuntimeView)
    requires
        m <= n <= s.len(),
        all_hold(s, n, st),
    ensures
        all_hold(s, m, st),
    decreases n,
{
    if m < n {
        lemma_all_hold_prefix(s, m, (n - 1) as nat, st);
    }
}

proof fn lemma_any_holds_extends(s: Seq<EpactPredicate>, m: nat, n: nat, st: RuntimeView)
    requires
        m <= n <= s.len(),
        any_holds(s, m, st),
    ensures
        any_holds(s, n, st),
    decreases n,
{
    if m < n {
        lemma_any_holds_extends(s, m, (n - 1) as nat, st);
    }
}

/// A gate is satisfied when the image declares it and its predicate holds.
pub fn gate_is_satisfied(img: &EpactProgramImage, state: &EpactRuntimeState, gate_id: &String) -> (r:
    bool)
    ensures
        r == gate_satisfied(*img, state@, gate_id@),
{
    match find_gate(img, gate_id) {
        Some(i) => predicate_satisfied(&img.gates[i].predicate, state),
        None => false,
    }
}

} // verus!

verus! {

/// How many of the listed objects are present (repeats count again).
fn count_present_objects(ids: &Vec<String>, present: &Vec<String>) -> (r: usize)
    ensures
        r as nat == count_present(ids@, texts(present@), ids@.len()),
{
    let mut count: usize = 0;
    let mut i: usize = 0;
    while i < ids.len()
        invariant
            i <= ids.len(),
            count <= i,
            count as nat == count_present(ids@, texts(present@), i as nat),
        decreases ids.len() - i,
    {
        proof {
            lemma_names_contains(present@, ids@[i as int]@);
        }
        if contains_str(present, &ids[i]) {
            count = count + 1;
        }
        i = i + 1;
    }
    count
}

/// The objects an obligation's discharge requires, sorted and without repeats.
fn discharge_object_set(o: &EpactObligation) -> (r: Vec<String>)
    ensures
        texts(r@) == discharge_objects(*o),
{
    let mut list = crate::order::clone_texts(&o.output_object_ids);
    match &o.discharge {
        EpactDischarge::Decision { decision_object_id } => {
            list.push(decision_object_id.clone());
        },
        EpactDischarge::Review { review_object_id, .. } => {
            list.push(review_object_id.clone());
        },
        EpactDischarge::Publication { artifact_object_ids } => {
            let mut k: usize = 0;
            let ghost start = texts(list@);
            while k < artifact_object_ids.len()
                invariant
                    k <= artifact_object_ids.len(),
                    texts(list@) == start + texts(artifact_object_ids@).take(k as int),
                decreases artifact_object_ids.len() - k,
            {
                let ghost before = texts(list@);
                list.push(artifact_object_ids[k].clone());
                assert(texts(list@) =~= before.push(artifact_object_ids@[k as int]@));
                assert(texts(artifact_object_ids@).take(k + 1) =~= texts(
                    artifact_object_ids@,
                ).take(k as int).push(artifact_object_ids@[k as int]@));
                k = k + 1;
            }
            assert(texts(artifact_object_ids@).take(artifact_object_ids@.len() as int)
                =~= texts(artifact_object_ids@));
        },
        _ => {},
    }
    assert(texts(list@) =~= discharge_object_list(*o));
    let ghost all = texts(list@);
    let mut out: Vec<String> = Vec::new();
    let mut i: usize = 0;
    while i < list.len()
        invariant
            i <= list.len(),
            texts(list@) == all,
            texts(out@) == sorted_set(all, i as nat),
        decreases list.len() - i,
    {
        insert_sorted_unique(&mut out, list[i].clone());
        i = i + 1;
    }
    out
}

/// Moves one obligation's projection to a terminal state.
fn set_terminal_state(
    state: &mut EpactRuntimeState,
    index: usize,
    obligation_id: &String,
    terminal: EpactObligationState,
    event_sha256: &String,
)
    requires
        projection_index(old(state)@, obligation_id@) == Some(index as int),
        index < old(state).obligations@.len(),
    ensures
        final(state)@ == with_terminal(old(state)@, obligation_id@, terminal, event_sha256@),
{
    let id = state.obligations[index].obligation_id.clone();
    let projection = EpactObligationProjection {
        obligation_id: id,
        state: terminal,
        terminal_event_sha256: Some(event_sha256.clone()),
    };
    let ghost before = state.obligations@;
    state.obligations.set(index, projection);
    assert(state.obligations@.map_values(|p: EpactObligationProjection| p@) =~= before.map_values(
        |p: EpactObligationProjection| p@,
    ).update(
        index as int,
        ProjectionView {
            obligation_id: before[index as int].obligation_id@,
            state: terminal,
            terminal_event_sha256: Some(event_sha256@),
        },
    ));
}

} // verus!

verus! {

/// Checks that an obligation may be satisfied now, in the order replay reports refusals.
#[verifier::loop_isolation(false)]
fn require_discharge(
    img: &EpactProgramImage,
    state: &EpactRuntimeState,
    o: &EpactObligation,
) -> (r: Result<(), EpactRuntimeError>)
    ensures
        match r {
            Ok(()) => {
                &&& first_unsatisfied_dependency(state@, *o) is None
                &&& first_unsatisfied_gate(*img, state@, *o) is None
                &&& first_missing_object(state@, *o) is None
                &&& first_unsatisfied_evidence(state@, *o) is None
            },
            Err(e) => {
                let st = state@;
                &&& e@ == (if first_unsatisfied_dependency(st, *o) is Some {
                    ErrorView::UnsatisfiedDependency {
                        obligation_id: o.id@,
                        dependency_id: o.dependency_ids@[first_unsatisfied_dependency(st, *o)->0]@,
                    }
                } else if first_unsatisfied_gate(*img, st, *o) is Some {
                    ErrorView::UnsatisfiedGate {
                        obligation_id: o.id@,
                        gate_id: o.gate_ids@[first_unsatisfied_gate(*img, st, *o)->0]@,
                    }
                } else if first_missing_object(st, *o) is Some {
                    ErrorView::MissingDischargeObject {
                        obligation_id: o.id@,
                        object_id: discharge_objects(*o)[first_missing_object(st, *o)->0],
                    }
                } else {
                    ErrorView::UnsatisfiedEvidence {
                        obligation_id: o.id@,
                        evidence_rule_id: match o.discharge {
                            EpactDischarge::Evidence { evidence_rule_ids } =>
                                evidence_rule_ids@[first_unsatisfied_evidence(st, *o)->0]@,
                            _ => Seq::empty(),
                        },
                    }
                })
                &&& (first_unsatisfied_dependency(st, *o) is Some || first_unsatisfied_gate(*img, st, *o) is Some
                    || first_missing_object(st, *o) is Some || first_unsatisfied_evidence(st, *o) is Some)
            },
        },
{
    let ghost st = state@;
    let ghost pd = |i: int|
        obligation_state(st, o.dependency_ids@[i]@) != Some(EpactObligationState::Satisfied);
    let mut i: usize = 0;
    while i < o.dependency_ids.len()
        invariant
            i <= o.dependency_ids.len(),
            forall|j: int| 0 <= j < i ==> !#[trigger] pd(j),
        decreases o.dependency_ids.len() - i,
    {
        if obligation_state_of(state, &o.dependency_ids[i]) != Some(EpactObligationState::Satisfied) {
            proof {
                lemma_first_where_found(o.dependency_ids@.len() as int, pd, i as int);
            }
            return Err(
                EpactRuntimeError::UnsatisfiedDependency {
                    obligation_id: o.id.clone(),
                    dependency_id: o.dependency_ids[i].clone(),
                },
            );
        }
        i = i + 1;
    }
    proof {
        lemma_first_where_none(o.dependency_ids@.len() as int, pd);
    }
    let ghost pg = |i: int| !gate_satisfied(*img, st, o.gate_ids@[i]@);
    let mut i: usize = 0;
    while i < o.gate_ids.len()
        invariant
            i <= o.gate_ids.len(),
            forall|j: int| 0 <= j < i ==> !#[trigger] pg(j),
        decreases o.gate_ids.len() - i,
    {
        if !gate_is_satisfied(img, state, &o.gate_ids[i]) {
            proof {
                lemma_first_where_found(o.gate_ids@.len() as int, pg, i as int);
            }
            return Err(
                EpactRuntimeError::UnsatisfiedGate {
                    obligation_id: o.id.clone(),
                    gate_id: o.gate_ids[i].clone(),
                },
            );
        }
        i = i + 1;
    }
    proof {
        lemma_first_where_none(o.gate_ids@.len() as int, pg);
    }
    let required = discharge_object_set(o);
    let ghost pm = |i: int| !st.present_object_ids.contains(discharge_objects(*o)[i]);
    let mut i: usize = 0;
    while i < required.len()
        invariant
            i <= required.len(),
            texts(required@) == discharge_objects(*o),
            forall|j: int| 0 <= j < i ==> !#[trigger] pm(j),
        decreases required.len() - i,
    {
        proof {
            lemma_names_contains(state.present_object_ids@, required@[i as int]@);
            assert(texts(required@)[i as int] == required@[i as int]@);
        }
        if !contains_str(&state.present_object_ids, &required[i]) {
            proof {
                lemma_first_where_found(required@.len() as int, pm, i as int);
            }
            return Err(
                EpactRuntimeError::MissingDischargeObject {
                    obligation_id: o.id.clone(),
                    object_id: required[i].clone(),
                },
            );
        }
        i = i + 1;
    }
    proof {
        lemma_first_where_none(required@.len() as int, pm);
    }
    match &o.discharge {
        EpactDischarge::Evidence { evidence_rule_ids } => {
            let ghost pe = |i: int| !st.satisfied_evidence_rule_ids.contains(evidence_rule_ids@[i]@);
            let mut i: usize = 0;
            while i < evidence_rule_ids.len()
                invariant
                    i <= evidence_rule_ids.len(),
                    forall|j: int| 0 <= j < i ==> !#[trigger] pe(j),
                decreases evidence_rule_ids.len() - i,
            {
                proof {
                    lemma_names_contains(
                        state.satisfied_evidence_rule_ids@,
                        evidence_rule_ids@[i as int]@,
                    );
                }
                if !contains_str(&state.satisfied_evidence_rule_ids, &evidence_rule_ids[i]) {
                    proof {
                        lemma_first_where_found(evidence_rule_ids@.len() as int, pe, i as int);
                    }
                    return Err(
                        EpactRuntimeError::UnsatisfiedEvidence {
                            obligation_id: o.id.clone(),
                            evidence_rule_id: evidence_rule_ids[i].clone(),
                        },
                    );
                }
                i = i + 1;
            }
            proof {
                lemma_first_where_none(evidence_rule_ids@.len() as int, pe);
            }
        },
        _ => {},
    }
    Ok(())
}

} // verus!

verus! {

/// A failure or cancellation: the obligation must be declared and still pending.
#[verifier::spinoff_prover]
fn apply_terminal(
    img: &EpactProgramImage,
    state: &mut EpactRuntimeState,
    obligation_id: &String,
    terminal: EpactObligationState,
    event_sha256: &String,
) -> (r: Result<(), EpactRuntimeError>)
    ensures
        match r {
            Ok(()) => terminal_view(*img, old(state)@, obligation_id@, terminal, event_sha256@)
                == Ok::<RuntimeView, ErrorView>(final(state)@),
            Err(e) => terminal_view(*img, old(state)@, obligation_id@, terminal, event_sha256@)
                == Err::<RuntimeView, ErrorView>(e@),
        },
{
    if find_obligation(img, obligation_id).is_none() {
        return Err(EpactRuntimeError::UnknownObligation(obligation_id.clone()));
    }
    let ghost st = state@;
    match find_projection(state, obligation_id) {
        Some(index) => {
            assert(obligation_state(st, obligation_id@) == Some(st.obligations[index as int].state));
            if state.obligations[index].state != EpactObligationState::Pending {
                return Err(EpactRuntimeError::ObligationAlreadyTerminal(obligation_id.clone()));
            }
            set_terminal_state(state, index, obligation_id, terminal, event_sha256);
            Ok(())
        },
        None => {
            assert(obligation_state(st, obligation_id@) == None::<EpactObligationState>);
            Err(EpactRuntimeError::ObligationAlreadyTerminal(obligation_id.clone()))
        },
    }
}

/// Applies one event's effect to the projection, or says why the image refuses it.
#[verifier::spinoff_prover]
#[verifier::rlimit(40)]
pub fn apply_event(
    img: &EpactProgramImage,
    state: &mut EpactRuntimeState,
    event: &EpactRuntimeEvent,
) -> (r: Result<(), EpactRuntimeError>)
    ensures
        match r {
            Ok(()) => apply_view(*img, old(state)@, *event) == Ok::<RuntimeView, ErrorView>(
                final(state)@,
            ),
            Err(e) => apply_view(*img, old(state)@, *event) == Err::<RuntimeView, ErrorView>(e@),
        },
{
    match &event.kind {
        EpactRuntimeEventKind::ObjectRecorded { object_id } => {
            if !contains_str(&img.object_ids, object_id) {
                return Err(EpactRuntimeError::UnknownObject(object_id.clone()));
            }
            let ghost before = state@;
            insert_sorted_unique(&mut state.present_object_ids, object_id.clone());
            assert(state@ == RuntimeView {
                present_object_ids: insert_sorted(before.present_object_ids, object_id@),
                ..before
            });
            Ok(())
        },
        EpactRuntimeEventKind::EvidenceAccepted {
            evidence_rule_id,
            independent_review_receipt_sha256,
        } => {
            let r = match find_rule(img, evidence_rule_id) {
                Some(r) => r,
                None => {
                    return Err(EpactRuntimeError::UnknownEvidenceRule(evidence_rule_id.clone()));
                },
            };
            let rule = &img.evidence_rules[r];
            let count = count_present_objects(&rule.evidence_object_ids, &state.present_object_ids);
            if (count as u64) < rule.minimum_observations {
                return Err(EpactRuntimeError::InsufficientEvidence(evidence_rule_id.clone()));
            }
            if rule.independent_review_required && independent_review_receipt_sha256.is_none() {
                return Err(EpactRuntimeError::IndependentReviewRequired(evidence_rule_id.clone()));
            }
            let ghost before = state@;
            insert_sorted_unique(&mut state.satisfied_evidence_rule_ids, evidence_rule_id.clone());
            assert(state@ == RuntimeView {
                satisfied_evidence_rule_ids: insert_sorted(
                    before.satisfied_evidence_rule_ids,
                    evidence_rule_id@,
                ),
                ..before
            });
            Ok(())
        },
        EpactRuntimeEventKind::ObligationSatisfied { obligation_id, receipt_contract } => {
            let k = match find_obligation(img, obligation_id) {
                Some(k) => k,
                None => {
                    return Err(EpactRuntimeError::UnknownObligation(obligation_id.clone()));
                },
            };
            let o = &img.obligations[k];
            let index = match find_projection(state, obligation_id) {
                Some(index) => index,
                None => {
                    return Err(EpactRuntimeError::ObligationAlreadyTerminal(obligation_id.clone()));
                },
            };
            if state.obligations[index].state != EpactObligationState::Pending {
                return Err(EpactRuntimeError::ObligationAlreadyTerminal(obligation_id.clone()));
            }
            match require_discharge(img, state, o) {
                Ok(()) => {},
                Err(e) => {
                    return Err(e);
                },
            }
            if !(*receipt_contract == o.terminal_receipt_contract) {
                return Err(
                    EpactRuntimeError::ReceiptContractMismatch {
                        obligation_id: obligation_id.clone(),
                        expected: o.terminal_receipt_contract.clone(),
                        actual: receipt_contract.clone(),
                    },
                );
            }
            set_terminal_state(
                state,
                index,
                obligation_id,
                EpactObligationState::Satisfied,
                &event.event_sha256,
            );
            Ok(())
        },
        EpactRuntimeEventKind::ObligationFailed { obligation_id, .. } => {
            apply_terminal(
                img,
                state,
                obligation_id,
                EpactObligationState::Failed,
                &event.event_sha256,
            )
        },
        EpactRuntimeEventKind::ObligationCancelled { obligation_id, .. } => {
            apply_terminal(
                img,
                state,
                obligation_id,
                EpactObligationState::Cancelled,
                &event.event_sha256,
            )
        },
    }
}

} // verus!

verus! {

/// The projection of an empty history under one image. The image is taken as compiled: the
/// Epact compiler's own image verification is not part of this runtime, so this cannot fail.
pub fn initial_epact_state(img: &EpactProgramImage) -> (r: EpactRuntimeState)
    ensures
        r@ == initial_view(*img),
{
    let mut obligations: Vec<EpactObligationProjection> = Vec::new();
    let mut i: usize = 0;
    while i < img.obligation_order.len()
        invariant
            i <= img.obligation_order.len(),
            obligations@.len() == i,
            forall|k: int|
                0 <= k < i ==> #[trigger] obligations@[k]@ == (ProjectionView {
                    obligation_id: img.obligation_order@[k]@,
                    state: EpactObligationState::Pending,
                    terminal_event_sha256: None,
                }),
        decreases img.obligation_order.len() - i,
    {
        obligations.push(
            EpactObligationProjection {
                obligation_id: img.obligation_order[i].clone(),
                state: EpactObligationState::Pending,
                terminal_event_sha256: None,
            },
        );
        i = i + 1;
    }
    let state = EpactRuntimeState {
        program_image_sha256: img.image_sha256.clone(),
        next_sequence: 0,
        event_head_sha256: None,
        obligations,
        present_object_ids: Vec::new(),
        satisfied_evidence_rule_ids: Vec::new(),
    };
    assert(state@.obligations =~= initial_view(*img).obligations);
    assert(state@.present_object_ids =~= Seq::<Seq<char>>::empty());
    assert(state@.satisfied_evidence_rule_ids =~= Seq::<Seq<char>>::empty());
    state
}

fn event_id_seen(events: &Vec<EpactRuntimeEvent>, n: usize) -> (r: bool)
    requires
        n < events@.len(),
    ensures
        r == exists|j: int| 0 <= j < n && #[trigger] events@.take(n as int)[j].id@ == events@[n as int].id@,
{
    let mut j: usize = 0;
    while j < n
        invariant
            n < events@.len(),
            j <= n,
            forall|k: int| 0 <= k < j ==> #[trigger] events@[k].id@ != events@[n as int].id@,
        decreases n - j,
    {
        if events[j].id == events[n].id {
            assert(events@.take(n as int)[j as int].id@ == events@[n as int].id@);
            return true;
        }
        j = j + 1;
    }
    assert forall|k: int| 0 <= k < n implies #[trigger] events@.take(n as int)[k].id@ != events@[n as int].id@ by {
        assert(events@.take(n as int)[k] == events@[k]);
    }
    false
}

fn event_key_seen(events: &Vec<EpactRuntimeEvent>, n: usize) -> (r: bool)
    requires
        n < events@.len(),
    ensures
        r == exists|j: int|
            0 <= j < n && #[trigger] events@.take(n as int)[j].idempotency_key@
                == events@[n as int].idempotency_key@,
{
    let mut j: usize = 0;
    while j < n
        invariant
            n < events@.len(),
            j <= n,
            forall|k: int|
                0 <= k < j ==> #[trigger] events@[k].idempotency_key@
                    != events@[n as int].idempotency_key@,
        decreases n - j,
    {
        if events[j].idempotency_key == events[n].idempotency_key {
            assert(events@.take(n as int)[j as int].idempotency_key@
                == events@[n as int].idempotency_key@);
            return true;
        }
        j = j + 1;
    }
    assert forall|k: int| 0 <= k < n implies #[trigger] events@.take(n as int)[k].idempotency_key@
        != events@[n as int].idempotency_key@ by {
        assert(events@.take(n as int)[k] == events@[k]);
    }
    false
}

proof fn lemma_apply_keeps_sequence(
    img: EpactProgramImage,
    st: RuntimeView,
    event: EpactRuntimeEvent,
    next: RuntimeView,
)
    requires
        apply_view(img, st, event) == Ok::<RuntimeView, ErrorView>(next),
    ensures
        next.next_sequence == st.next_sequence,
        next.program_image_sha256 == st.program_image_sha256,
{
}

/// One replay step over the event at position `i`.
#[verifier::spinoff_prover]
fn replay_one(
    img: &EpactProgramImage,
    state: &mut EpactRuntimeState,
    events: &Vec<EpactRuntimeEvent>,
    i: usize,
) -> (r: Result<(), EpactRuntimeError>)
    requires
        i < events@.len(),
        old(state).next_sequence == i,
        events@.len() < u64::MAX,
    ensures
        match r {
            Ok(()) => replay_step(*img, old(state)@, events@.take(i as int), events@[i as int])
                == Ok::<RuntimeView, ErrorView>(final(state)@) && final(state).next_sequence == i
                + 1,
            Err(e) => replay_step(*img, old(state)@, events@.take(i as int), events@[i as int])
                == Err::<RuntimeView, ErrorView>(e@),
        },
{
    let event = &events[i];
    let ghost st = state@;
    if !(event.program_image_sha256 == img.image_sha256) {
        return Err(EpactRuntimeError::ImageBindingMismatch);
    }
    if event.sequence != state.next_sequence {
        return Err(
            EpactRuntimeError::UnexpectedSequence {
                expected: state.next_sequence,
                actual: event.sequence,
            },
        );
    }
    let chained = match (&event.previous_event_sha256, &state.event_head_sha256) {
        (Some(a), Some(b)) => *a == *b,
        (None, None) => true,
        _ => false,
    };
    if !chained {
        return Err(EpactRuntimeError::BrokenEventChain(event.id.clone()));
    }
    if event_id_seen(events, i) {
        return Err(EpactRuntimeError::DuplicateEventId(event.id.clone()));
    }
    if event_key_seen(events, i) {
        return Err(EpactRuntimeError::DuplicateIdempotencyKey(event.idempotency_key.clone()));
    }
    proof {
        lemma_names_contains(img.principal_ids@, event.actor@);
    }
    if !contains_str(&img.principal_ids, &event.actor) {
        return Err(EpactRuntimeError::UnknownPrincipal(event.actor.clone()));
    }
    match apply_event(img, state, event) {
        Ok(()) => {},
        Err(e) => {
            return Err(e);
        },
    }
    proof {
        lemma_apply_keeps_sequence(*img, st, *event, state@);
    }
    state.next_sequence = state.next_sequence + 1;
    state.event_head_sha256 = Some(event.event_sha256.clone());
    Ok(())
}

/// Rebuilds the projection from the image and its accepted events, refusing the first event
/// that does not extend the chain, repeats an identity, names an undeclared principal, or
/// does not apply. Each event's own digest is taken as recorded: the protocol's event
/// validation and digest recomputation are not part of this runtime.
#[verifier::spinoff_prover]
pub fn replay_epact_events(img: &EpactProgramImage, events: &Vec<EpactRuntimeEvent>) -> (r: Result<
    EpactRuntimeState,
    EpactRuntimeError,
>)
    requires
        events@.len() < u64::MAX,
    ensures
        match r {
            Ok(state) => {
                &&& replay_view(*img, events@, events@.len()) == Ok::<RuntimeView, ErrorView>(state@)
                &&& state.next_sequence == events@.len()
                &&& state@.program_image_sha256 == img.image_sha256@
                &&& state@.event_head_sha256 == if events@.len() == 0 {
                    None::<Seq<char>>
                } else {
                    Some(events@.last().event_sha256@)
                }
                &&& forall|i: int| 0 <= i < events@.len() ==> #[trigger] event_linked(*img, events@, i)
                &&& forall|i: int, j: int| 0 <= i < j < events@.len() ==> #[trigger] events_distinct(events@, i, j)
                &&& forall|k: nat| k <= events@.len() ==> {
                    &&& #[trigger] replay_view(*img, events@.take(k as int), k) is Ok
                    &&& replay_view(*img, events@.take(k as int), k)->Ok_0.next_sequence == k
                }
            },
            Err(e) => replay_view(*img, events@, events@.len()) == Err::<RuntimeView, ErrorView>(
                e@,
            ),
        },
{
    let mut state = initial_epact_state(img);
    let mut i: usize = 0;
    while i < events.len()
        invariant
            i <= events.len(),
            events@.len() < u64::MAX,
            replay_view(*img, events@, i as nat) == Ok::<RuntimeView, ErrorView>(state@),
            state.next_sequence == i,
        decreases events.len() - i,
    {
        let ghost st = state@;
        assert(replay_view(*img, events@, (i + 1) as nat) == replay_step(
            *img,
            st,
            events@.take(i as int),
            events@[i as int],
        ));
        match replay_one(img, &mut state, events, i) {
            Ok(()) => {},
            Err(e) => {
                proof {
                    lemma_replay_stays_failed(*img, events@, (i + 1) as nat, events@.len(), e@);
                }
                return Err(e);
            },
        }
        i = i + 1;
    }
    proof {
        lemma_accepted_history(*img, events@);
    }
    Ok(state)
}

/// An accepted history: its projection is bound to the image and headed by its last event,
/// every event extends the chain from a declared principal, no two events share an identity
/// or an idempotency key, and every prefix of it replays to the projection of that many
/// events.
pub proof fn lemma_accepted_history(img: EpactProgramImage, events: Seq<EpactRuntimeEvent>)
    requires
        replay_view(img, events, events.len()) is Ok,
    ensures
        ({
            let st = replay_view(img, events, events.len())->Ok_0;
            &&& st.program_image_sha256 == img.image_sha256@
            &&& st.next_sequence == events.len()
            &&& st.event_head_sha256 == if events.len() == 0 {
                None::<Seq<char>>
            } else {
                Some(events.last().event_sha256@)
            }
        }),
        forall|i: int| 0 <= i < events.len() ==> #[trigger] event_linked(img, events, i),
        forall|i: int, j: int| 0 <= i < j < events.len() ==> #[trigger] events_distinct(events, i, j),
        forall|k: nat| k <= events.len() ==> {
            &&& #[trigger] replay_view(img, events.take(k as int), k) is Ok
            &&& replay_view(img, events.take(k as int), k)->Ok_0.next_sequence == k
        },
{
    lemma_replayed_history_is_chained(img, events, events.len());
    assert forall|k: nat| k <= events.len() implies {
        &&& #[trigger] replay_view(img, events.take(k as int), k) is Ok
        &&& replay_view(img, events.take(k as int), k)->Ok_0.next_sequence == k
    } by {
        lemma_replay_prefixes(img, events, k);
    }
}

proof fn lemma_replay_stays_failed(
    img: EpactProgramImage,
    events: Seq<EpactRuntimeEvent>,
    m: nat,
    n: nat,
    e: ErrorView,
)
    requires
        0 < m <= n <= events.len(),
        replay_view(img, events, m) == Err::<RuntimeView, ErrorView>(e),
    ensures
        replay_view(img, events, n) == Err::<RuntimeView, ErrorView>(e),
    decreases n,
{
    if m < n {
        lemma_replay_stays_failed(img, events, m, (n - 1) as nat, e);
    }
}

fn id_seen(prior: &Vec<EpactRuntimeEvent>, event: &EpactRuntimeEvent) -> (r: bool)
    ensures
        r == exists|j: int| 0 <= j < prior@.len() && #[trigger] prior@[j].id@ == event.id@,
{
    let mut j: usize = 0;
    while j < prior.len()
        invariant
            j <= prior.len(),
            forall|k: int| 0 <= k < j ==> #[trigger] prior@[k].id@ != event.id@,
        decreases prior.len() - j,
    {
        if prior[j].id == event.id {
            return true;
        }
        j = j + 1;
    }
    false
}

fn key_seen(prior: &Vec<EpactRuntimeEvent>, event: &EpactRuntimeEvent) -> (r: bool)
    ensures
        r == exists|j: int|
            0 <= j < prior@.len() && #[trigger] prior@[j].idempotency_key@ == event.idempotency_key@,
{
    let mut j: usize = 0;
    while j < prior.len()
        invariant
            j <= prior.len(),
            forall|k: int| 0 <= k < j ==> #[trigger] prior@[k].idempotency_key@ != event.idempotency_key@,
        decreases prior.len() - j,
    {
        if prior[j].idempotency_key == event.idempotency_key {
            return true;
        }
        j = j + 1;
    }
    false
}

/// Replays one more event after `prior`, from the state their replay reached.
pub fn replay_next(
    img: &EpactProgramImage,
    state: &mut EpactRuntimeState,
    prior: &Vec<EpactRuntimeEvent>,
    event: &EpactRuntimeEvent,
) -> (r: Result<(), EpactRuntimeError>)
    requires
        old(state).next_sequence == prior@.len(),
        prior@.len() + 1 < u64::MAX,
    ensures
        match r {
            Ok(()) => replay_step(*img, old(state)@, prior@, *event) == Ok::<RuntimeView, ErrorView>(
                final(state)@,
            ) && final(state).next_sequence == prior@.len() + 1,
            Err(e) => replay_step(*img, old(state)@, prior@, *event) == Err::<RuntimeView, ErrorView>(
                e@,
            ),
        },
{
    let ghost st = state@;
    if !(event.program_image_sha256 == img.image_sha256) {
        return Err(EpactRuntimeError::ImageBindingMismatch);
    }
    if event.sequence != state.next_sequence {
        return Err(
            EpactRuntimeError::UnexpectedSequence {
                expected: state.next_sequence,
                actual: event.sequence,
            },
        );
    }
    let chained = match (&event.previous_event_sha256, &state.event_head_sha256) {
        (Some(a), Some(b)) => *a == *b,
        (None, None) => true,
        _ => false,
    };
    if !chained {
        return Err(EpactRuntimeError::BrokenEventChain(event.id.clone()));
    }
    if id_seen(prior, event) {
        return Err(EpactRuntimeError::DuplicateEventId(event.id.clone()));
    }
    if key_seen(prior, event) {
        return Err(EpactRuntimeError::DuplicateIdempotencyKey(event.idempotency_key.clone()));
    }
    proof {
        lemma_names_contains(img.principal_ids@, event.actor@);
    }
    if !contains_str(&img.principal_ids, &event.actor) {
        return Err(EpactRuntimeError::UnknownPrincipal(event.actor.clone()));
    }
    match apply_event(img, state, event) {
        Ok(()) => {},
        Err(e) => {
            return Err(e);
        },
    }
    proof {
        lemma_apply_keeps_sequence(*img, st, *event, state@);
    }
    state.next_sequence = state.next_sequence + 1;
    state.event_head_sha256 = Some(event.event_sha256.clone());
    Ok(())
}

/// Replaying one more event extends the replay of the events before it.
pub proof fn lemma_replay_push(img: EpactProgramImage, prior: Seq<EpactRuntimeEvent>, event: EpactRuntimeEvent)
    ensures
        replay_view(img, prior.push(event), prior.len() + 1) == match replay_view(img, prior, prior.len()) {
            Err(e) => Err(e),
            Ok(st) => replay_step(img, st, prior, event),
        },
{
    let events = prior.push(event);
    lemma_replay_prefix(img, prior, event, prior.len());
    assert(events.take(prior.len() as int) =~= prior);
}

/// Replay of a prefix does not look past it.
proof fn lemma_replay_prefix(img: EpactProgramImage, prior: Seq<EpactRuntimeEvent>, event: EpactRuntimeEvent, n: nat)
    requires
        n <= prior.len(),
    ensures
        replay_view(img, prior.push(event), n) == replay_view(img, prior, n),
    decreases n,
{
    if n > 0 {
        lemma_replay_prefix(img, prior, event, (n - 1) as nat);
        let events = prior.push(event);
        assert(events.take(n - 1) =~= prior.take(n - 1));
        assert(events[n - 1] == prior[n - 1]);
    }
}


/// Event `i` extends the chain of the events before it: it names the image, sits at its place
/// in the sequence, links to the digest of the event before it, and comes from a declared
/// principal.
pub open spec fn event_linked(img: EpactProgramImage, events: Seq<EpactRuntimeEvent>, i: int) -> bool {
    &&& events[i].program_image_sha256@ == img.image_sha256@
    &&& events[i].sequence == i
    &&& opt_text(events[i].previous_event_sha256) == if i == 0 {
        None::<Seq<char>>
    } else {
        Some(events[i - 1].event_sha256@)
    }
    &&& names(img.principal_ids@, events[i].actor@)
}

/// Events `i` and `j` carry different identities and idempotency keys.
pub open spec fn events_distinct(events: Seq<EpactRuntimeEvent>, i: int, j: int) -> bool {
    &&& events[i].id@ != events[j].id@
    &&& events[i].idempotency_key@ != events[j].idempotency_key@
}

/// A history whose first `n` events replay is an unbroken chain of distinct events from declared
/// principals, and its projection is bound to the image, counts the events and is headed by the
/// last of them.
#[verifier::spinoff_prover]
#[verifier::rlimit(100)]
pub proof fn lemma_replayed_history_is_chained(img: EpactProgramImage, events: Seq<EpactRuntimeEvent>, n: nat)
    requires
        n <= events.len(),
        replay_view(img, events, n) is Ok,
    ensures
        ({
            let st = replay_view(img, events, n)->Ok_0;
            &&& st.program_image_sha256 == img.image_sha256@
            &&& st.next_sequence == n
            &&& st.event_head_sha256 == if n == 0 {
                None::<Seq<char>>
            } else {
                Some(events[n - 1].event_sha256@)
            }
        }),
        forall|i: int| 0 <= i < n ==> #[trigger] event_linked(img, events, i),
        forall|i: int, j: int| 0 <= i < j < n ==> #[trigger] events_distinct(events, i, j),
    decreases n,
{
    if n > 0 {
        let m = (n - 1) as nat;
        lemma_replayed_history_is_chained(img, events, m);
        let st = replay_view(img, events, m)->Ok_0;
        let prior = events.take(m as int);
        lemma_step_facts(img, st, prior, events[m as int]);
        assert forall|i: int, j: int| 0 <= i < j < n implies #[trigger] events_distinct(events, i, j) by {
            if j == m {
                assert(prior[i] == events[i]);
            }
        }
    }
}

/// What a replay step that succeeds checked of its event, and what it did to the projection.
proof fn lemma_step_facts(img: EpactProgramImage, st: RuntimeView, prior: Seq<EpactRuntimeEvent>, event: EpactRuntimeEvent)
    requires
        replay_step(img, st, prior, event) is Ok,
    ensures
        ({
            let next = replay_step(img, st, prior, event)->Ok_0;
            &&& next.program_image_sha256 == st.program_image_sha256
            &&& next.next_sequence == st.next_sequence + 1
            &&& next.event_head_sha256 == Some(event.event_sha256@)
        }),
        event.program_image_sha256@ == img.image_sha256@,
        event.sequence == st.next_sequence,
        opt_text(event.previous_event_sha256) == st.event_head_sha256,
        forall|j: int| 0 <= j < prior.len() ==> #[trigger] prior[j].id@ != event.id@,
        forall|j: int| 0 <= j < prior.len() ==> #[trigger] prior[j].idempotency_key@ != event.idempotency_key@,
        names(img.principal_ids@, event.actor@),
{
    match apply_view(img, st, event) {
        Ok(next) => {
            lemma_apply_keeps_sequence(img, st, event, next);
        },
        Err(_) => {},
    }
}

/// The replay of a prefix of a history is the replay of that many of its events.
proof fn lemma_replay_take(img: EpactProgramImage, events: Seq<EpactRuntimeEvent>, k: nat, m: nat)
    requires
        m <= k <= events.len(),
    ensures
        replay_view(img, events.take(k as int), m) == replay_view(img, events, m),
    decreases m,
{
    if m > 0 {
        lemma_replay_take(img, events, k, (m - 1) as nat);
        assert(events.take(k as int).take(m - 1) =~= events.take(m - 1));
    }
}

/// Every prefix of a history that replays replays too, to the projection of that many events,
/// which counts them.
pub proof fn lemma_replay_prefixes(img: EpactProgramImage, events: Seq<EpactRuntimeEvent>, k: nat)
    requires
        k <= events.len(),
        replay_view(img, events, events.len()) is Ok,
    ensures
        replay_view(img, events.take(k as int), k) == replay_view(img, events, k),
        replay_view(img, events, k) is Ok,
        replay_view(img, events, k)->Ok_0.next_sequence == k,
{
    lemma_replay_take(img, events, k, k);
    if k > 0 {
        if let Err(e) = replay_view(img, events, k) {
            lemma_replay_stays_failed(img, events, k, events.len(), e);
        }
    }
    lemma_replayed_history_is_chained(img, events, k);
}

} // verus!
