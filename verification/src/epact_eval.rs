//! Whether a requested operation fits the frozen program and the current projection.

use vstd::prelude::*;
use crate::epact::{
    fits_within, gate_satisfied, obligation_index, obligation_state, opt_text, sorted_set,
    CompiledAuthority, EpactDischarge, EpactEligibility, EpactObligation, EpactEligibilityBlocker,
    EpactObligationState, EpactOperationRequest, EpactProgramImage, EpactRuntimeError,
    EpactRuntimeEvent, EpactRuntimeEventKind, EpactRuntimeState, ErrorView, KernelOperation,
    RuntimeView,
};
use crate::order::{
    chars_lt, contains_str, insert_sorted_unique, lemma_chars_lt_total, lemma_names_contains,
    names, sorted_unique, str_lt, texts,
};
use crate::text::chars_of;
use crate::epact_runtime::{find_obligation, gate_is_satisfied, obligation_state_of};

verus! {

broadcast use vstd::string::group_string_axioms;

/// A blocker as three texts: code, subject, message.
pub type BlockerView = (Seq<char>, Seq<char>, Seq<char>);

impl View for EpactEligibilityBlocker {
    type V = BlockerView;

    open spec fn view(&self) -> BlockerView {
        (self.code@, self.subject_id@, self.message@)
    }
}

/// Blockers are ordered by code, then subject, then message.
pub open spec fn blocker_lt(a: BlockerView, b: BlockerView) -> bool {
    ||| chars_lt(a.0, b.0)
    ||| (a.0 == b.0 && chars_lt(a.1, b.1))
    ||| (a.0 == b.0 && a.1 == b.1 && chars_lt(a.2, b.2))
}

pub open spec fn blocker_views(v: Seq<EpactEligibilityBlocker>) -> Seq<BlockerView> {
    v.map_values(|b: EpactEligibilityBlocker| b@)
}

/// Strictly increasing blockers: sorted with repeats removed.
pub open spec fn blockers_sorted(v: Seq<BlockerView>) -> bool {
    forall|i: int| 0 <= i < v.len() - 1 ==> #[trigger] blocker_lt(v[i], v[i + 1])
}

/// The operations that must name an obligation.
pub open spec fn requires_obligation(op: KernelOperation) -> bool {
    match op {
        KernelOperation::Propose | KernelOperation::Authorize | KernelOperation::Reserve
        | KernelOperation::Dispatch | KernelOperation::Attest | KernelOperation::Evaluate
        | KernelOperation::Decide | KernelOperation::Publish | KernelOperation::Retract => true,
        _ => false,
    }
}

/// The operations whose obligation must be ready: dependencies satisfied and gates open.
pub open spec fn requires_ready_obligation(op: KernelOperation) -> bool {
    match op {
        KernelOperation::Reserve | KernelOperation::Dispatch | KernelOperation::Evaluate
        | KernelOperation::Decide | KernelOperation::Publish | KernelOperation::Retract => true,
        _ => false,
    }
}

pub open spec fn is_digit(c: char) -> bool {
    '0' <= c <= '9'
}

pub open spec fn two_digits(s: Seq<char>, i: int) -> int {
    (s[i] as u32 - '0' as u32) * 10 + (s[i + 1] as u32 - '0' as u32)
}

/// The canonical UTC-second form `YYYY-MM-DDTHH:MM:SSZ`, with month, day and clock fields in
/// range.
pub open spec fn is_canonical_timestamp(s: Seq<char>) -> bool {
    &&& s.len() == 20
    &&& forall|i: int|
        (0 <= i < 4 || 5 <= i < 7 || 8 <= i < 10 || 11 <= i < 13 || 14 <= i < 16 || 17 <= i < 19)
            ==> #[trigger] is_digit(s[i])
    &&& s[4] == '-' && s[7] == '-' && s[10] == 'T' && s[13] == ':' && s[16] == ':' && s[19] == 'Z'
    &&& 1 <= two_digits(s, 5) <= 12
    &&& 1 <= two_digits(s, 8) <= 31
    &&& two_digits(s, 11) <= 23
    &&& two_digits(s, 14) <= 59
    &&& two_digits(s, 17) <= 59
}

pub open spec fn scope_matches(a: CompiledAuthority, req: EpactOperationRequest) -> bool {
    ||| a.whole_program
    ||| (req.obligation_id matches Some(id) && names(a.obligation_ids@, id@))
    ||| (req.capability_id matches Some(id) && names(a.capability_ids@, id@))
}

pub open spec fn cost_allows(a: CompiledAuthority, cost: u64) -> bool {
    cost == 0 || (a.maximum_cost_microusd matches Some(ceiling) && cost <= ceiling)
}

pub open spec fn time_allows(a: CompiledAuthority, at: Seq<char>) -> bool {
    &&& (a.valid_after matches Some(after) ==> !chars_lt(at, after@))
    &&& (a.valid_before matches Some(before) ==> chars_lt(at, before@))
}

/// Some compiled authority covers the principal, operation, scope, cost and time.
pub open spec fn authority_allows(img: EpactProgramImage, req: EpactOperationRequest) -> bool {
    exists|i: int|
        0 <= i < img.authorities@.len() && {
            let a = #[trigger] img.authorities@[i];
            &&& a.principal_id@ == req.principal_id@
            &&& a.operation == req.operation
            &&& scope_matches(a, req)
            &&& cost_allows(a, req.resources.maximum_cost_microusd)
            &&& time_allows(a, req.requested_at@)
        }
}

/// The capability whose exercise discharges an obligation, if any.
pub open spec fn discharge_capability(d: EpactDischarge) -> Option<Seq<char>> {
    match d {
        EpactDischarge::Capability { capability_id } => Some(capability_id@),
        EpactDischarge::Review { capability_id, .. } => Some(capability_id@),
        _ => None,
    }
}

pub open spec fn capability_known(img: EpactProgramImage, req: EpactOperationRequest) -> bool {
    match req.capability_id {
        Some(id) => names(img.capability_ids@, id@),
        None => true,
    }
}

/// The blockers that the obligation named by the request raises.
pub open spec fn obligation_blocker(
    img: EpactProgramImage,
    st: RuntimeView,
    req: EpactOperationRequest,
    k: int,
    b: BlockerView,
) -> bool {
    let o = img.obligations@[k];
    ||| (obligation_state(st, o.id@) != Some(EpactObligationState::Pending) && b == (
        "obligation_not_pending"@,
        o.id@,
        "the obligation has already reached a terminal state"@,
    ))
    ||| (!fits_within(req.resources, o.resources) && b == (
        "obligation_resource_ceiling"@,
        o.id@,
        "requested resources exceed the obligation ceiling"@,
    ))
    ||| (sorted_set(texts(req.effects@), req.effects@.len()) != texts(o.effects@) && b == (
        "effect_mismatch"@,
        o.id@,
        "requested effects must exactly match the frozen obligation declaration"@,
    ))
    ||| (discharge_capability(o.discharge) matches Some(c) && opt_text(req.capability_id) != Some(c)
        && b == (
        "capability_mismatch"@,
        o.id@,
        "requested capability does not discharge this obligation"@,
    ))
    ||| (discharge_capability(o.discharge) is None && req.capability_id is Some && b == (
        "unexpected_capability"@,
        o.id@,
        "this obligation is not discharged by a capability"@,
    ))
    ||| (requires_ready_obligation(req.operation) && exists|j: int|
        #[trigger] dependency_blocker(st, o, j, b))
    ||| (requires_ready_obligation(req.operation) && exists|j: int|
        #[trigger] gate_blocker(img, st, o, j, b))
}

/// The `j`th dependency of the obligation is not satisfied, and `b` says so.
pub open spec fn dependency_blocker(st: RuntimeView, o: EpactObligation, j: int, b: BlockerView) -> bool {
    &&& 0 <= j < o.dependency_ids@.len()
    &&& obligation_state(st, o.dependency_ids@[j]@) != Some(EpactObligationState::Satisfied)
    &&& b == (
        "dependency_unsatisfied"@,
        o.dependency_ids@[j]@,
        "a required predecessor obligation is not satisfied"@,
    )
}

/// The `j`th gate of the obligation is closed, and `b` says so.
pub open spec fn gate_blocker(
    img: EpactProgramImage,
    st: RuntimeView,
    o: EpactObligation,
    j: int,
    b: BlockerView,
) -> bool {
    &&& 0 <= j < o.gate_ids@.len()
    &&& !gate_satisfied(img, st, o.gate_ids@[j]@)
    &&& b == ("gate_unsatisfied"@, o.gate_ids@[j]@, "a required gate predicate is false"@)
}

/// The blockers that do not depend on the named obligation or on authority.
pub open spec fn general_blocker(
    img: EpactProgramImage,
    req: EpactOperationRequest,
    b: BlockerView,
) -> bool {
    ||| (!is_canonical_timestamp(req.requested_at@) && b == (
        "invalid_request_time"@,
        img.program_id@,
        "request time must use canonical Epact UTC-second form"@,
    ))
    ||| (!names(img.principal_ids@, req.principal_id@) && b == (
        "unknown_principal"@,
        req.principal_id@,
        "the requested principal is not declared by this program"@,
    ))
    ||| (req.obligation_id matches Some(id) && obligation_index(img, id@) is None && b == (
        "unknown_obligation"@,
        id@,
        "the requested obligation is not declared by this program"@,
    ))
    ||| (req.obligation_id is None && requires_obligation(req.operation) && b == (
        "obligation_required"@,
        img.program_id@,
        "this operation must be bound to an obligation"@,
    ))
    ||| (!capability_known(img, req) && b == (
        "unknown_capability"@,
        opt_text(req.capability_id).unwrap_or(Seq::empty()),
        "the requested capability is not declared by this program"@,
    ))
    ||| (!fits_within(req.resources, img.resources) && b == (
        "program_resource_ceiling"@,
        img.program_id@,
        "requested resources exceed the frozen program ceiling"@,
    ))
}

/// The blocker raised when no authority covers an otherwise well-formed request.
pub open spec fn authority_blocker(
    img: EpactProgramImage,
    req: EpactOperationRequest,
    b: BlockerView,
) -> bool {
    &&& is_canonical_timestamp(req.requested_at@)
    &&& names(img.principal_ids@, req.principal_id@)
    &&& capability_known(img, req)
    &&& !authority_allows(img, req)
    &&& b == (
        "authority_denied"@,
        req.principal_id@,
        "no compiled authority covers this operation, scope, and cost"@,
    )
}

/// Every blocker that evaluation raises for a request.
pub open spec fn expected_blocker(
    img: EpactProgramImage,
    st: RuntimeView,
    req: EpactOperationRequest,
    b: BlockerView,
) -> bool {
    ||| general_blocker(img, req, b)
    ||| (req.obligation_id matches Some(id) && obligation_index(img, id@) matches Some(k)
        && obligation_blocker(img, st, req, k, b))
    ||| authority_blocker(img, req, b)
}

/// Why a projection cannot be evaluated under an image, if it cannot.
pub open spec fn shape_error(img: EpactProgramImage, st: RuntimeView) -> Option<ErrorView> {
    if st.program_image_sha256 != img.image_sha256@ {
        Some(ErrorView::ImageBindingMismatch)
    } else if !({
        &&& forall|x: Seq<char>|
            names(img.obligation_order@, x) <==> exists|i: int|
                0 <= i < st.obligations.len() && #[trigger] st.obligations[i].obligation_id == x
        &&& forall|i: int, j: int|
            0 <= i < j < st.obligations.len() ==> #[trigger] st.obligations[i].obligation_id
                != #[trigger] st.obligations[j].obligation_id
    }) {
        Some(ErrorView::InvalidState("obligation projection does not match compiled image"@))
    } else if !(sorted_unique(st.present_object_ids) && sorted_unique(
        st.satisfied_evidence_rule_ids,
    )) {
        Some(ErrorView::InvalidState("set projections must be sorted and unique"@))
    } else {
        None
    }
}


proof fn lemma_blocker_lt_total(a: BlockerView, b: BlockerView)
    ensures
        a != b ==> blocker_lt(a, b) || blocker_lt(b, a),
        !blocker_lt(a, a),
{
    lemma_chars_lt_total(a.0, b.0);
    lemma_chars_lt_total(a.1, b.1);
    lemma_chars_lt_total(a.2, b.2);
}

fn blocker_less(a: &EpactEligibilityBlocker, b: &EpactEligibilityBlocker) -> (r: bool)
    ensures
        r == blocker_lt(a@, b@),
{
    if str_lt(a.code.as_str(), b.code.as_str()) {
        return true;
    }
    if !(a.code == b.code) {
        return false;
    }
    if str_lt(a.subject_id.as_str(), b.subject_id.as_str()) {
        return true;
    }
    if !(a.subject_id == b.subject_id) {
        return false;
    }
    str_lt(a.message.as_str(), b.message.as_str())
}

fn same_blocker(a: &EpactEligibilityBlocker, b: &EpactEligibilityBlocker) -> (r: bool)
    ensures
        r == (a@ == b@),
{
    a.code == b.code && a.subject_id == b.subject_id && a.message == b.message
}

/// Adds a blocker to a sorted list of blockers unless it is already there.
fn add_blocker(blockers: &mut Vec<EpactEligibilityBlocker>, code: &str, subject_id: &String, message: &str)
    ensures
        forall|b: BlockerView|
            blocker_views(final(blockers)@).contains(b) <==> (blocker_views(old(blockers)@).contains(b)
                || b == (code@, subject_id@, message@)),
        blockers_sorted(blocker_views(old(blockers)@)) ==> blockers_sorted(
            blocker_views(final(blockers)@),
        ),
{
    let blocker = EpactEligibilityBlocker {
        code: code.to_string(),
        subject_id: subject_id.clone(),
        message: message.to_string(),
    };
    let ghost before = blockers@;
    let n = blockers.len();
    let mut p: usize = 0;
    while p < n
        invariant_except_break
            blockers@ == before,
            n == blockers.len(),
            p <= n,
            forall|k: int| 0 <= k < p ==> #[trigger] blocker_lt(before[k]@, blocker@),
        ensures
            blockers@ == before,
            p <= n,
            forall|k: int| 0 <= k < p ==> #[trigger] blocker_lt(before[k]@, blocker@),
            p < n ==> !blocker_lt(before[p as int]@, blocker@),
        decreases n - p,
    {
        if !blocker_less(&blockers[p], &blocker) {
            break;
        }
        p = p + 1;
    }
    if p < n && same_blocker(&blockers[p], &blocker) {
        assert(blocker_views(before)[p as int] == blocker@);
        return;
    }
    proof {
        if p < n {
            lemma_blocker_lt_total(before[p as int]@, blocker@);
        }
    }
    blockers.insert(p, blocker);
    proof {
        let after = blockers@;
        assert(after == before.insert(p as int, blocker));
        assert(blocker_views(after) =~= blocker_views(before).insert(p as int, blocker@));
        let vb = blocker_views(before);
        let va = blocker_views(after);
        assert forall|b: BlockerView| va.contains(b) <==> (vb.contains(b) || b == blocker@) by {
            if va.contains(b) {
                let i = choose|i: int| 0 <= i < va.len() && va[i] == b;
                if i < p {
                    assert(vb[i] == b);
                } else if i > p {
                    assert(vb[i - 1] == b);
                }
            }
            if vb.contains(b) {
                let i = choose|i: int| 0 <= i < vb.len() && vb[i] == b;
                if i < p {
                    assert(va[i] == b);
                } else {
                    assert(va[i + 1] == b);
                }
            }
            if b == blocker@ {
                assert(va[p as int] == b);
            }
        }
        if blockers_sorted(vb) {
            assert forall|i: int| 0 <= i < va.len() - 1 implies #[trigger] blocker_lt(va[i], va[i + 1]) by {
                if i + 1 < p {
                    assert(blocker_lt(vb[i], vb[i + 1]));
                } else if i + 1 == p {
                    assert(va[i] == before[i]@);
                } else if i == p {
                    assert(va[i + 1] == before[i]@);
                } else {
                    let k = i - 1;
                    assert(blocker_lt(vb[k], vb[k + 1]));
                }
            }
        }
    }
}


fn digit_at(s: &Vec<char>, i: usize) -> (r: bool)
    requires
        i < s@.len(),
    ensures
        r == is_digit(s@[i as int]),
{
    '0' <= s[i] && s[i] <= '9'
}

fn two_digits_at(s: &Vec<char>, i: usize) -> (r: u32)
    requires
        i < 19,
        s@.len() == 20,
        is_digit(s@[i as int]),
        is_digit(s@[i + 1]),
    ensures
        r == two_digits(s@, i as int),
{
    (s[i] as u32 - '0' as u32) * 10 + (s[i + 1] as u32 - '0' as u32)
}

/// Whether a time uses the canonical UTC-second form `YYYY-MM-DDTHH:MM:SSZ`.
pub fn validate_epact_timestamp(value: &str) -> (r: bool)
    ensures
        r == is_canonical_timestamp(value@),
{
    let s = chars_of(value);
    if s.len() != 20 {
        return false;
    }
    let mut i: usize = 0;
    while i < 19
        invariant
            s@ == value@,
            s@.len() == 20,
            i <= 19,
            forall|k: int|
                0 <= k < i && (0 <= k < 4 || 5 <= k < 7 || 8 <= k < 10 || 11 <= k < 13 || 14 <= k
                    < 16 || 17 <= k < 19) ==> #[trigger] is_digit(s@[k]),
        decreases 19 - i,
    {
        let separator = i == 4 || i == 7 || i == 10 || i == 13 || i == 16;
        if !separator && !digit_at(&s, i) {
            return false;
        }
        i = i + 1;
    }
    if !(s[4] == '-' && s[7] == '-' && s[10] == 'T' && s[13] == ':' && s[16] == ':' && s[19]
        == 'Z') {
        return false;
    }
    let month = two_digits_at(&s, 5);
    let day = two_digits_at(&s, 8);
    let hour = two_digits_at(&s, 11);
    let minute = two_digits_at(&s, 14);
    let second = two_digits_at(&s, 17);
    1 <= month && month <= 12 && 1 <= day && day <= 31 && hour <= 23 && minute <= 59 && second
        <= 59
}

fn scope_matches_exec(a: &CompiledAuthority, req: &EpactOperationRequest) -> (r: bool)
    ensures
        r == scope_matches(*a, *req),
{
    if a.whole_program {
        return true;
    }
    if let Some(id) = &req.obligation_id {
        if contains_str(&a.obligation_ids, id) {
            return true;
        }
    }
    if let Some(id) = &req.capability_id {
        if contains_str(&a.capability_ids, id) {
            return true;
        }
    }
    false
}

fn time_allows_exec(a: &CompiledAuthority, at: &String) -> (r: bool)
    ensures
        r == time_allows(*a, at@),
{
    let after_ok = match &a.valid_after {
        Some(after) => !str_lt(at.as_str(), after.as_str()),
        None => true,
    };
    let before_ok = match &a.valid_before {
        Some(before) => str_lt(at.as_str(), before.as_str()),
        None => true,
    };
    after_ok && before_ok
}

fn authority_allows_exec(img: &EpactProgramImage, req: &EpactOperationRequest) -> (r: bool)
    ensures
        r == authority_allows(*img, *req),
{
    let cost = req.resources.maximum_cost_microusd;
    let mut i: usize = 0;
    while i < img.authorities.len()
        invariant
            i <= img.authorities.len(),
            cost == req.resources.maximum_cost_microusd,
            forall|k: int|
                0 <= k < i ==> !{
                    let a = #[trigger] img.authorities@[k];
                    &&& a.principal_id@ == req.principal_id@
                    &&& a.operation == req.operation
                    &&& scope_matches(a, *req)
                    &&& cost_allows(a, req.resources.maximum_cost_microusd)
                    &&& time_allows(a, req.requested_at@)
                },
        decreases img.authorities.len() - i,
    {
        let a = &img.authorities[i];
        let cost_ok = cost == 0 || match a.maximum_cost_microusd {
            Some(ceiling) => cost <= ceiling,
            None => false,
        };
        if a.principal_id == req.principal_id && a.operation == req.operation
            && scope_matches_exec(a, req) && cost_ok && time_allows_exec(a, &req.requested_at) {
            return true;
        }
        i = i + 1;
    }
    false
}


pub open spec fn has_blocker(v: Seq<EpactEligibilityBlocker>, b: BlockerView) -> bool {
    blocker_views(v).contains(b)
}

fn add_general_blockers(
    img: &EpactProgramImage,
    req: &EpactOperationRequest,
    blockers: &mut Vec<EpactEligibilityBlocker>,
)
    requires
        blockers_sorted(blocker_views(old(blockers)@)),
    ensures
        blockers_sorted(blocker_views(final(blockers)@)),
        forall|b: BlockerView|
            has_blocker(final(blockers)@, b) <==> (has_blocker(old(blockers)@, b)
                || general_blocker(*img, *req, b)),
{
    let ghost s0 = blockers@;
    if !validate_epact_timestamp(req.requested_at.as_str()) {
        add_blocker(
            blockers,
            "invalid_request_time",
            &img.program_id,
            "request time must use canonical Epact UTC-second form",
        );
    }
    let ghost s1 = blockers@;
    proof {
        lemma_names_contains(img.principal_ids@, req.principal_id@);
    }
    if !contains_str(&img.principal_ids, &req.principal_id) {
        add_blocker(
            blockers,
            "unknown_principal",
            &req.principal_id,
            "the requested principal is not declared by this program",
        );
    }
    let ghost s2 = blockers@;
    match &req.obligation_id {
        Some(id) => {
            if find_obligation(img, id).is_none() {
                add_blocker(
                    blockers,
                    "unknown_obligation",
                    id,
                    "the requested obligation is not declared by this program",
                );
            }
        },
        None => {
            if operation_requires_obligation(req.operation) {
                add_blocker(
                    blockers,
                    "obligation_required",
                    &img.program_id,
                    "this operation must be bound to an obligation",
                );
            }
        },
    }
    let ghost s3 = blockers@;
    if let Some(id) = &req.capability_id {
        if !contains_str(&img.capability_ids, id) {
            add_blocker(
                blockers,
                "unknown_capability",
                id,
                "the requested capability is not declared by this program",
            );
        }
    }
    let ghost s4 = blockers@;
    if !req.resources.fits_within(&img.resources) {
        add_blocker(
            blockers,
            "program_resource_ceiling",
            &img.program_id,
            "requested resources exceed the frozen program ceiling",
        );
    }
    proof {
        assert forall|b: BlockerView|
            has_blocker(blockers@, b) <==> (has_blocker(s0, b) || general_blocker(*img, *req, b)) by {
            assert(has_blocker(s1, b) <==> (has_blocker(s0, b) || (!is_canonical_timestamp(req.requested_at@) && b == (
                "invalid_request_time"@,
                img.program_id@,
                "request time must use canonical Epact UTC-second form"@,
            ))));
        }
    }
}

fn operation_requires_obligation(op: KernelOperation) -> (r: bool)
    ensures
        r == requires_obligation(op),
{
    match op {
        KernelOperation::Propose | KernelOperation::Authorize | KernelOperation::Reserve
        | KernelOperation::Dispatch | KernelOperation::Attest | KernelOperation::Evaluate
        | KernelOperation::Decide | KernelOperation::Publish | KernelOperation::Retract => true,
        _ => false,
    }
}

fn operation_requires_ready_obligation(op: KernelOperation) -> (r: bool)
    ensures
        r == requires_ready_obligation(op),
{
    match op {
        KernelOperation::Reserve | KernelOperation::Dispatch | KernelOperation::Evaluate
        | KernelOperation::Decide | KernelOperation::Publish | KernelOperation::Retract => true,
        _ => false,
    }
}


/// The texts of `values`, sorted and without repeats.
fn sorted_set_of(values: &Vec<String>) -> (r: Vec<String>)
    ensures
        texts(r@) == sorted_set(texts(values@), values@.len()),
{
    let mut out: Vec<String> = Vec::new();
    let mut i: usize = 0;
    while i < values.len()
        invariant
            i <= values.len(),
            texts(out@) == sorted_set(texts(values@), i as nat),
        decreases values.len() - i,
    {
        insert_sorted_unique(&mut out, values[i].clone());
        i = i + 1;
    }
    out
}

pub(crate) fn same_texts(a: &Vec<String>, b: &Vec<String>) -> (r: bool)
    ensures
        r == (texts(a@) == texts(b@)),
{
    if a.len() != b.len() {
        assert(texts(a@).len() != texts(b@).len());
        return false;
    }
    let mut i: usize = 0;
    while i < a.len()
        invariant
            a@.len() == b@.len(),
            i <= a.len(),
            forall|k: int| 0 <= k < i ==> #[trigger] a@[k]@ == b@[k]@,
        decreases a.len() - i,
    {
        if !(a[i] == b[i]) {
            assert(texts(a@)[i as int] != texts(b@)[i as int]);
            return false;
        }
        i = i + 1;
    }
    assert(texts(a@) =~= texts(b@));
    true
}

fn discharge_capability_of(d: &EpactDischarge) -> (r: Option<&String>)
    ensures
        match r {
            Some(c) => discharge_capability(*d) == Some(c@),
            None => discharge_capability(*d) is None,
        },
{
    match d {
        EpactDischarge::Capability { capability_id } => Some(capability_id),
        EpactDischarge::Review { capability_id, .. } => Some(capability_id),
        _ => None,
    }
}

#[verifier::loop_isolation(false)]
#[verifier::spinoff_prover]
fn add_obligation_blockers(
    img: &EpactProgramImage,
    state: &EpactRuntimeState,
    req: &EpactOperationRequest,
    k: usize,
    blockers: &mut Vec<EpactEligibilityBlocker>,
)
    requires
        k < img.obligations@.len(),
        blockers_sorted(blocker_views(old(blockers)@)),
    ensures
        blockers_sorted(blocker_views(final(blockers)@)),
        forall|b: BlockerView|
            has_blocker(final(blockers)@, b) <==> (has_blocker(old(blockers)@, b)
                || obligation_blocker(*img, state@, *req, k as int, b)),
{
    let o = &img.obligations[k];
    let ghost s0 = blockers@;
    if obligation_state_of(state, &o.id) != Some(EpactObligationState::Pending) {
        add_blocker(
            blockers,
            "obligation_not_pending",
            &o.id,
            "the obligation has already reached a terminal state",
        );
    }
    if !req.resources.fits_within(&o.resources) {
        add_blocker(
            blockers,
            "obligation_resource_ceiling",
            &o.id,
            "requested resources exceed the obligation ceiling",
        );
    }
    let requested = sorted_set_of(&req.effects);
    if !same_texts(&requested, &o.effects) {
        add_blocker(
            blockers,
            "effect_mismatch",
            &o.id,
            "requested effects must exactly match the frozen obligation declaration",
        );
    }
    match discharge_capability_of(&o.discharge) {
        Some(expected) => {
            let matches = match &req.capability_id {
                Some(c) => *c == *expected,
                None => false,
            };
            if !matches {
                add_blocker(
                    blockers,
                    "capability_mismatch",
                    &o.id,
                    "requested capability does not discharge this obligation",
                );
            }
        },
        None => {
            if req.capability_id.is_some() {
                add_blocker(
                    blockers,
                    "unexpected_capability",
                    &o.id,
                    "this obligation is not discharged by a capability",
                );
            }
        },
    }
    let ghost s1 = blockers@;
    if operation_requires_ready_obligation(req.operation) {
        add_dependency_blockers(state, o, blockers);
        let ghost s2 = blockers@;
        add_gate_blockers(img, state, o, blockers);
        proof {
            assert forall|b: BlockerView|
                has_blocker(blockers@, b) <==> (has_blocker(s1, b)
                    || (exists|j: int| #[trigger] dependency_blocker(state@, *o, j, b))
                    || (exists|j: int| #[trigger] gate_blocker(*img, state@, *o, j, b))) by {
                assert(has_blocker(s2, b) <==> (has_blocker(s1, b) || exists|j: int|
                    j < o.dependency_ids@.len() && #[trigger] dependency_blocker(state@, *o, j, b)));
                assert(has_blocker(blockers@, b) <==> (has_blocker(s2, b) || exists|j: int|
                    j < o.gate_ids@.len() && #[trigger] gate_blocker(*img, state@, *o, j, b)));
            }
        }
    }
}

#[verifier::loop_isolation(false)]
fn add_dependency_blockers(
    state: &EpactRuntimeState,
    o: &EpactObligation,
    blockers: &mut Vec<EpactEligibilityBlocker>,
)
    requires
        blockers_sorted(blocker_views(old(blockers)@)),
    ensures
        blockers_sorted(blocker_views(final(blockers)@)),
        forall|b: BlockerView|
            #[trigger] has_blocker(final(blockers)@, b) <==> (has_blocker(old(blockers)@, b) || exists|j: int|
                j < o.dependency_ids@.len() && #[trigger] dependency_blocker(state@, *o, j, b)),
{
    let ghost s1 = blockers@;
    let mut i: usize = 0;
    while i < o.dependency_ids.len()
        invariant
            i <= o.dependency_ids.len(),
            blockers_sorted(blocker_views(blockers@)),
            forall|b: BlockerView|
                #[trigger] has_blocker(blockers@, b) <==> (has_blocker(s1, b) || exists|j: int|
                    j < i && #[trigger] dependency_blocker(state@, *o, j, b)),
        decreases o.dependency_ids.len() - i,
    {
        let ghost before = blockers@;
        if obligation_state_of(state, &o.dependency_ids[i]) != Some(
            EpactObligationState::Satisfied,
        ) {
            add_blocker(
                blockers,
                "dependency_unsatisfied",
                &o.dependency_ids[i],
                "a required predecessor obligation is not satisfied",
            );
        }
        proof {
            assert forall|b: BlockerView|
                #[trigger] has_blocker(blockers@, b) <==> (has_blocker(before, b)
                    || dependency_blocker(state@, *o, i as int, b)) by {
            }
            assert forall|b: BlockerView|
                #[trigger] has_blocker(blockers@, b) <==> (has_blocker(s1, b) || exists|j: int|
                    j < i + 1 && #[trigger] dependency_blocker(state@, *o, j, b)) by {
                assert(has_blocker(before, b) <==> (has_blocker(s1, b) || exists|j: int|
                    j < i && #[trigger] dependency_blocker(state@, *o, j, b)));
                if dependency_blocker(state@, *o, i as int, b) {
                }
                if exists|j: int| j < i + 1 && #[trigger] dependency_blocker(state@, *o, j, b) {
                    let j = choose|j: int| j < i + 1 && #[trigger] dependency_blocker(state@, *o, j, b);
                    if j < i {
                        assert(exists|j: int| j < i && #[trigger] dependency_blocker(state@, *o, j, b));
                    }
                }
            }
        }
        i = i + 1;
    }
}

#[verifier::loop_isolation(false)]
fn add_gate_blockers(
    img: &EpactProgramImage,
    state: &EpactRuntimeState,
    o: &EpactObligation,
    blockers: &mut Vec<EpactEligibilityBlocker>,
)
    requires
        blockers_sorted(blocker_views(old(blockers)@)),
    ensures
        blockers_sorted(blocker_views(final(blockers)@)),
        forall|b: BlockerView|
            #[trigger] has_blocker(final(blockers)@, b) <==> (has_blocker(old(blockers)@, b) || exists|j: int|
                j < o.gate_ids@.len() && #[trigger] gate_blocker(*img, state@, *o, j, b)),
{
    let ghost s2 = blockers@;
    let mut i: usize = 0;
    while i < o.gate_ids.len()
        invariant
            i <= o.gate_ids.len(),
            blockers_sorted(blocker_views(blockers@)),
            forall|b: BlockerView|
                #[trigger] has_blocker(blockers@, b) <==> (has_blocker(s2, b) || exists|j: int|
                    j < i && #[trigger] gate_blocker(*img, state@, *o, j, b)),
        decreases o.gate_ids.len() - i,
    {
        let ghost before = blockers@;
        if !gate_is_satisfied(img, state, &o.gate_ids[i]) {
            add_blocker(
                blockers,
                "gate_unsatisfied",
                &o.gate_ids[i],
                "a required gate predicate is false",
            );
        }
        proof {
            assert forall|b: BlockerView|
                #[trigger] has_blocker(blockers@, b) <==> (has_blocker(before, b)
                    || gate_blocker(*img, state@, *o, i as int, b)) by {
            }
            assert forall|b: BlockerView|
                #[trigger] has_blocker(blockers@, b) <==> (has_blocker(s2, b) || exists|j: int|
                    j < i + 1 && #[trigger] gate_blocker(*img, state@, *o, j, b)) by {
                assert(has_blocker(before, b) <==> (has_blocker(s2, b) || exists|j: int|
                    j < i && #[trigger] gate_blocker(*img, state@, *o, j, b)));
                if gate_blocker(*img, state@, *o, i as int, b) {
                }
                if exists|j: int| j < i + 1 && #[trigger] gate_blocker(*img, state@, *o, j, b) {
                    let j = choose|j: int| j < i + 1 && #[trigger] gate_blocker(*img, state@, *o, j, b);
                    if j < i {
                        assert(exists|j: int| j < i && #[trigger] gate_blocker(*img, state@, *o, j, b));
                    }
                }
            }
        }
        i = i + 1;
    }
}


/// Some projection is for the obligation `x`.
pub open spec fn projected(st: RuntimeView, x: Seq<char>) -> bool {
    exists|m: int| 0 <= m < st.obligations.len() && #[trigger] st.obligations[m].obligation_id == x
}

/// No two projections are for the same obligation.
pub open spec fn projections_distinct(st: RuntimeView) -> bool {
    forall|k: int, l: int|
        0 <= k < l < st.obligations.len() ==> #[trigger] st.obligations[k].obligation_id
            != #[trigger] st.obligations[l].obligation_id
}

fn all_projected_named(img: &EpactProgramImage, state: &EpactRuntimeState) -> (r: bool)
    ensures
        r == forall|k: int|
            0 <= k < state@.obligations.len() ==> #[trigger] names(
                img.obligation_order@,
                state@.obligations[k].obligation_id,
            ),
{
    let mut i: usize = 0;
    while i < state.obligations.len()
        invariant
            i <= state.obligations.len(),
            forall|k: int|
                0 <= k < i ==> #[trigger] names(
                    img.obligation_order@,
                    state@.obligations[k].obligation_id,
                ),
        decreases state.obligations.len() - i,
    {
        if !contains_str(&img.obligation_order, &state.obligations[i].obligation_id) {
            assert(!names(img.obligation_order@, state@.obligations[i as int].obligation_id));
            return false;
        }
        i = i + 1;
    }
    true
}

fn is_projected(state: &EpactRuntimeState, id: &String) -> (r: bool)
    ensures
        r == projected(state@, id@),
{
    let mut m: usize = 0;
    while m < state.obligations.len()
        invariant
            m <= state.obligations.len(),
            forall|q: int| 0 <= q < m ==> #[trigger] state@.obligations[q].obligation_id != id@,
        decreases state.obligations.len() - m,
    {
        if state.obligations[m].obligation_id == *id {
            assert(state@.obligations[m as int].obligation_id == id@);
            return true;
        }
        m = m + 1;
    }
    false
}

fn all_named_projected(img: &EpactProgramImage, state: &EpactRuntimeState) -> (r: bool)
    ensures
        r == forall|k: int|
            0 <= k < img.obligation_order@.len() ==> #[trigger] projected(
                state@,
                img.obligation_order@[k]@,
            ),
{
    let mut i: usize = 0;
    while i < img.obligation_order.len()
        invariant
            i <= img.obligation_order.len(),
            forall|k: int| 0 <= k < i ==> #[trigger] projected(state@, img.obligation_order@[k]@),
        decreases img.obligation_order.len() - i,
    {
        if !is_projected(state, &img.obligation_order[i]) {
            return false;
        }
        i = i + 1;
    }
    true
}

fn projection_ids_distinct(state: &EpactRuntimeState) -> (r: bool)
    ensures
        r == projections_distinct(state@),
{
    let ghost st = state@;
    let mut l: usize = 0;
    while l < state.obligations.len()
        invariant
            st == state@,
            l <= state.obligations.len(),
            forall|k: int, j: int|
                0 <= k < j < l ==> #[trigger] st.obligations[k].obligation_id
                    != #[trigger] st.obligations[j].obligation_id,
        decreases state.obligations.len() - l,
    {
        let mut k: usize = 0;
        while k < l
            invariant
                st == state@,
                k <= l < state.obligations.len(),
                forall|m: int, j: int|
                    0 <= m < j < l ==> #[trigger] st.obligations[m].obligation_id
                        != #[trigger] st.obligations[j].obligation_id,
                forall|m: int|
                    0 <= m < k ==> #[trigger] st.obligations[m].obligation_id
                        != st.obligations[l as int].obligation_id,
            decreases l - k,
        {
            if state.obligations[k].obligation_id == state.obligations[l].obligation_id {
                assert(st.obligations[k as int].obligation_id == st.obligations[l as int].obligation_id);
                return false;
            }
            k = k + 1;
        }
        l = l + 1;
    }
    true
}

/// Checks that a projection belongs to the image and has the shape replay gives it.
pub fn validate_state_shape(img: &EpactProgramImage, state: &EpactRuntimeState) -> (r: Result<
    (),
    EpactRuntimeError,
>)
    ensures
        match r {
            Ok(()) => shape_error(*img, state@) is None,
            Err(e) => shape_error(*img, state@) == Some(e@),
        },
{
    if !(state.program_image_sha256 == img.image_sha256) {
        return Err(EpactRuntimeError::ImageBindingMismatch);
    }
    let named = all_projected_named(img, state);
    let covered = all_named_projected(img, state);
    let distinct = projection_ids_distinct(state);
    let ghost st = state@;
    proof {
        let same = forall|x: Seq<char>|
            names(img.obligation_order@, x) <==> exists|i: int|
                0 <= i < st.obligations.len() && #[trigger] st.obligations[i].obligation_id == x;
        if named && covered {
            assert forall|x: Seq<char>|
                names(img.obligation_order@, x) <==> exists|i: int|
                    0 <= i < st.obligations.len() && #[trigger] st.obligations[i].obligation_id
                        == x by {
                if names(img.obligation_order@, x) {
                    let k = choose|k: int|
                        0 <= k < img.obligation_order@.len() && #[trigger] img.obligation_order@[k]@
                            == x;
                    assert(projected(st, img.obligation_order@[k]@));
                }
                if exists|i: int|
                    0 <= i < st.obligations.len() && #[trigger] st.obligations[i].obligation_id
                        == x {
                    let i = choose|i: int|
                        0 <= i < st.obligations.len() && #[trigger] st.obligations[i].obligation_id
                            == x;
                    assert(names(img.obligation_order@, st.obligations[i].obligation_id));
                }
            }
        }
        if !named {
            let k = choose|k: int|
                0 <= k < st.obligations.len() && !#[trigger] names(
                    img.obligation_order@,
                    st.obligations[k].obligation_id,
                );
            let x = st.obligations[k].obligation_id;
            assert(exists|i: int|
                0 <= i < st.obligations.len() && #[trigger] st.obligations[i].obligation_id == x);
            assert(!same);
        }
        if !covered {
            let k = choose|k: int|
                0 <= k < img.obligation_order@.len() && !#[trigger] projected(
                    st,
                    img.obligation_order@[k]@,
                );
            let x = img.obligation_order@[k]@;
            assert(names(img.obligation_order@, x));
            assert(!same);
        }
    }
    if !(named && covered && distinct) {
        return Err(
            EpactRuntimeError::InvalidState(
                "obligation projection does not match compiled image".to_string(),
            ),
        );
    }
    if !(crate::order::is_sorted_unique(&state.present_object_ids)
        && crate::order::is_sorted_unique(&state.satisfied_evidence_rule_ids)) {
        return Err(
            EpactRuntimeError::InvalidState("set projections must be sorted and unique".to_string()),
        );
    }
    Ok(())
}


/// Decides whether a requested operation fits the frozen program and the current projection.
///
/// The result lists, sorted and without repeats, every reason the request is blocked; it is
/// allowed exactly when there is none.
pub fn evaluate_epact_operation(
    img: &EpactProgramImage,
    state: &EpactRuntimeState,
    request: &EpactOperationRequest,
) -> (r: Result<EpactEligibility, EpactRuntimeError>)
    ensures
        match r {
            Err(e) => shape_error(*img, state@) == Some(e@),
            Ok(eligibility) => {
                &&& shape_error(*img, state@) is None
                &&& eligibility.allowed == (eligibility.blockers@.len() == 0)
                &&& blockers_sorted(blocker_views(eligibility.blockers@))
                &&& forall|b: BlockerView|
                    #[trigger] has_blocker(eligibility.blockers@, b) <==> expected_blocker(
                        *img,
                        state@,
                        *request,
                        b,
                    )
                &&& (request_well_formed(*img, *request) && authorities_expired(*img, *request)) ==> {
                    &&& !eligibility.allowed
                    &&& has_blocker(eligibility.blockers@, denied_blocker(*request))
                }
            },
        },
{
    match validate_state_shape(img, state) {
        Ok(()) => {},
        Err(e) => {
            return Err(e);
        },
    }
    let mut blockers: Vec<EpactEligibilityBlocker> = Vec::new();
    assert(blocker_views(blockers@) =~= Seq::<BlockerView>::empty());
    add_general_blockers(img, request, &mut blockers);
    let ghost s1 = blockers@;
    match &request.obligation_id {
        Some(id) => match find_obligation(img, id) {
            Some(k) => {
                add_obligation_blockers(img, state, request, k, &mut blockers);
            },
            None => {},
        },
        None => {},
    }
    let ghost s2 = blockers@;
    let time_ok = validate_epact_timestamp(request.requested_at.as_str());
    proof {
        lemma_names_contains(img.principal_ids@, request.principal_id@);
    }
    let principal_ok = contains_str(&img.principal_ids, &request.principal_id);
    let capability_ok = match &request.capability_id {
        Some(id) => contains_str(&img.capability_ids, id),
        None => true,
    };
    if time_ok && principal_ok && capability_ok && !authority_allows_exec(img, request) {
        add_blocker(
            &mut blockers,
            "authority_denied",
            &request.principal_id,
            "no compiled authority covers this operation, scope, and cost",
        );
    }
    proof {
        assert forall|b: BlockerView|
            #[trigger] has_blocker(blockers@, b) <==> expected_blocker(*img, state@, *request, b) by {
            assert(has_blocker(s1, b) <==> general_blocker(*img, *request, b));
        }
    }
    proof {
        if request_well_formed(*img, *request) && authorities_expired(*img, *request) {
            lemma_expired_authority_denies(*img, state@, *request);
            assert(has_blocker(blockers@, denied_blocker(*request)));
        }
    }
    let allowed = blockers.len() == 0;
    Ok(EpactEligibility { allowed, blockers })
}

/// The blocker that says no compiled authority covers the request.
pub open spec fn denied_blocker(req: EpactOperationRequest) -> BlockerView {
    ("authority_denied"@, req.principal_id@, "no compiled authority covers this operation, scope, and cost"@)
}

/// The request's time is canonical, its principal is declared and its capability, if it names
/// one, is known.
pub open spec fn request_well_formed(img: EpactProgramImage, req: EpactOperationRequest) -> bool {
    &&& is_canonical_timestamp(req.requested_at@)
    &&& names(img.principal_ids@, req.principal_id@)
    &&& capability_known(img, req)
}

/// Every authority for the request's principal and operation stopped being valid at or before
/// the request's time.
pub open spec fn authorities_expired(img: EpactProgramImage, req: EpactOperationRequest) -> bool {
    forall|i: int|
        0 <= i < img.authorities@.len() ==> {
            let a = #[trigger] img.authorities@[i];
            ||| a.principal_id@ != req.principal_id@
            ||| a.operation != req.operation
            ||| (a.valid_before matches Some(before) && !chars_lt(req.requested_at@, before@))
        }
}

/// An authority covers nothing from the end of its validity on: a well-formed request made when
/// every authority for its principal and operation has expired is denied.
pub proof fn lemma_expired_authority_denies(img: EpactProgramImage, st: RuntimeView, req: EpactOperationRequest)
    requires
        request_well_formed(img, req),
        authorities_expired(img, req),
    ensures
        expected_blocker(img, st, req, denied_blocker(req)),
{
    assert(!authority_allows(img, req)) by {
        if authority_allows(img, req) {
            let i = choose|i: int|
                0 <= i < img.authorities@.len() && {
                    let a = #[trigger] img.authorities@[i];
                    &&& a.principal_id@ == req.principal_id@
                    &&& a.operation == req.operation
                    &&& scope_matches(a, req)
                    &&& cost_allows(a, req.resources.maximum_cost_microusd)
                    &&& time_allows(a, req.requested_at@)
                };
            assert(img.authorities@[i].principal_id@ == req.principal_id@);
        }
    }
    assert(authority_blocker(img, req, denied_blocker(req)));
}


/// Some projection records obligation `x` as satisfied.
pub open spec fn satisfied_projection(st: RuntimeView, x: Seq<char>) -> bool {
    exists|m: int|
        0 <= m < st.obligations.len() && #[trigger] st.obligations[m].obligation_id == x
            && st.obligations[m].state == EpactObligationState::Satisfied
}

/// Some accepted event satisfied an obligation with receipt contract `x`.
pub open spec fn receipt_recorded(events: Seq<EpactRuntimeEvent>, x: Seq<char>) -> bool {
    exists|j: int| 0 <= j < events.len() && #[trigger] satisfies_with_receipt(events[j], x)
}

/// The event satisfied an obligation with receipt contract `x`.
pub open spec fn satisfies_with_receipt(e: EpactRuntimeEvent, x: Seq<char>) -> bool {
    match e.kind {
        EpactRuntimeEventKind::ObligationSatisfied { receipt_contract, .. } => receipt_contract@ == x,
        _ => false,
    }
}

/// Every terminal obligation is satisfied, every terminal object present, and every terminal
/// receipt contract recorded.
pub open spec fn program_terminal(
    img: EpactProgramImage,
    st: RuntimeView,
    events: Seq<EpactRuntimeEvent>,
) -> bool {
    &&& forall|i: int|
        0 <= i < img.terminal.required_obligation_ids@.len() ==> #[trigger] satisfied_projection(
            st,
            img.terminal.required_obligation_ids@[i]@,
        )
    &&& forall|i: int|
        0 <= i < img.terminal.required_object_ids@.len() ==> st.present_object_ids.contains(
            #[trigger] img.terminal.required_object_ids@[i]@,
        )
    &&& forall|i: int|
        0 <= i < img.terminal.required_receipt_contracts@.len() ==> #[trigger] receipt_recorded(
            events,
            img.terminal.required_receipt_contracts@[i]@,
        )
}

fn is_satisfied_projection(state: &EpactRuntimeState, id: &String) -> (r: bool)
    ensures
        r == satisfied_projection(state@, id@),
{
    let mut m: usize = 0;
    while m < state.obligations.len()
        invariant
            m <= state.obligations.len(),
            forall|q: int|
                0 <= q < m ==> !(#[trigger] state@.obligations[q].obligation_id == id@
                    && state@.obligations[q].state == EpactObligationState::Satisfied),
        decreases state.obligations.len() - m,
    {
        if state.obligations[m].obligation_id == *id && state.obligations[m].state
            == EpactObligationState::Satisfied {
            assert(state@.obligations[m as int].obligation_id == id@);
            return true;
        }
        m = m + 1;
    }
    false
}

fn is_receipt_recorded(events: &Vec<EpactRuntimeEvent>, contract: &String) -> (r: bool)
    ensures
        r == receipt_recorded(events@, contract@),
{
    let mut j: usize = 0;
    while j < events.len()
        invariant
            j <= events.len(),
            forall|q: int| 0 <= q < j ==> !#[trigger] satisfies_with_receipt(events@[q], contract@),
        decreases events.len() - j,
    {
        match &events[j].kind {
            EpactRuntimeEventKind::ObligationSatisfied { receipt_contract, .. } => {
                if *receipt_contract == *contract {
                    assert(satisfies_with_receipt(events@[j as int], contract@));
                    return true;
                }
            },
            _ => {},
        }
        j = j + 1;
    }
    false
}

/// True only when every declared terminal obligation, object and receipt contract is present.
#[verifier::loop_isolation(false)]
pub fn epact_program_is_terminal(
    img: &EpactProgramImage,
    state: &EpactRuntimeState,
    events: &Vec<EpactRuntimeEvent>,
) -> (r: Result<bool, EpactRuntimeError>)
    ensures
        match r {
            Err(e) => shape_error(*img, state@) == Some(e@),
            Ok(t) => shape_error(*img, state@) is None && t == program_terminal(
                *img,
                state@,
                events@,
            ),
        },
{
    match validate_state_shape(img, state) {
        Ok(()) => {},
        Err(e) => {
            return Err(e);
        },
    }
    let terminal = &img.terminal;
    let mut i: usize = 0;
    while i < terminal.required_obligation_ids.len()
        invariant
            i <= terminal.required_obligation_ids.len(),
            forall|k: int|
                0 <= k < i ==> #[trigger] satisfied_projection(
                    state@,
                    terminal.required_obligation_ids@[k]@,
                ),
        decreases terminal.required_obligation_ids.len() - i,
    {
        if !is_satisfied_projection(state, &terminal.required_obligation_ids[i]) {
            assert(!program_terminal(*img, state@, events@)) by {
                assert(!satisfied_projection(state@, img.terminal.required_obligation_ids@[i as int]@));
            }
            return Ok(false);
        }
        i = i + 1;
    }
    let mut i: usize = 0;
    while i < terminal.required_object_ids.len()
        invariant
            i <= terminal.required_object_ids.len(),
            forall|k: int|
                0 <= k < i ==> state@.present_object_ids.contains(
                    #[trigger] terminal.required_object_ids@[k]@,
                ),
        decreases terminal.required_object_ids.len() - i,
    {
        proof {
            lemma_names_contains(state.present_object_ids@, terminal.required_object_ids@[i as int]@);
        }
        if !contains_str(&state.present_object_ids, &terminal.required_object_ids[i]) {
            assert(!program_terminal(*img, state@, events@)) by {
                assert(!state@.present_object_ids.contains(img.terminal.required_object_ids@[i as int]@));
            }
            return Ok(false);
        }
        i = i + 1;
    }
    let mut i: usize = 0;
    while i < terminal.required_receipt_contracts.len()
        invariant
            i <= terminal.required_receipt_contracts.len(),
            forall|k: int|
                0 <= k < i ==> #[trigger] receipt_recorded(
                    events@,
                    terminal.required_receipt_contracts@[k]@,
                ),
        decreases terminal.required_receipt_contracts.len() - i,
    {
        if !is_receipt_recorded(events, &terminal.required_receipt_contracts[i]) {
            assert(!program_terminal(*img, state@, events@)) by {
                assert(!receipt_recorded(events@, img.terminal.required_receipt_contracts@[i as int]@));
            }
            return Ok(false);
        }
        i = i + 1;
    }
    Ok(true)
}

} // verus!
