//! The stored names of capability-package trust, qualification dispositions and research-plan
//! decisions.

use vstd::prelude::*;

verus! {

/// How far a registered capability package is trusted.
#[derive(Clone, Copy, PartialEq, Eq, Debug, Structural)]
pub enum PackageTrustStatus {
    Quarantined,
    Inspected,
    Qualified,
    Revoked,
}

/// What a qualification review concluded about a package.
#[derive(Clone, Copy, PartialEq, Eq, Debug, Structural)]
pub enum QualificationDisposition {
    Inspected,
    Qualified,
    Rejected,
    Revoked,
}

/// What an operator decided about a research plan version.
#[derive(Clone, Copy, PartialEq, Eq, Debug, Structural)]
pub enum ResearchPlanDecisionKind {
    Approved,
    Rejected,
    Withdrawn,
}

pub open spec fn trust_label(status: PackageTrustStatus) -> Seq<char> {
    match status {
        PackageTrustStatus::Quarantined => "quarantined"@,
        PackageTrustStatus::Inspected => "inspected"@,
        PackageTrustStatus::Qualified => "qualified"@,
        PackageTrustStatus::Revoked => "revoked"@,
    }
}

pub open spec fn disposition_label(status: QualificationDisposition) -> Seq<char> {
    match status {
        QualificationDisposition::Inspected => "inspected"@,
        QualificationDisposition::Qualified => "qualified"@,
        QualificationDisposition::Rejected => "rejected"@,
        QualificationDisposition::Revoked => "revoked"@,
    }
}

pub open spec fn decision_label(decision: ResearchPlanDecisionKind) -> Seq<char> {
    match decision {
        ResearchPlanDecisionKind::Approved => "approved"@,
        ResearchPlanDecisionKind::Rejected => "rejected"@,
        ResearchPlanDecisionKind::Withdrawn => "withdrawn"@,
    }
}

/// The stored name of a package trust status.
pub fn package_trust_name(status: &PackageTrustStatus) -> (r: &'static str)
    ensures
        r@ == trust_label(*status),
{
    match status {
        PackageTrustStatus::Quarantined => "quarantined",
        PackageTrustStatus::Inspected => "inspected",
        PackageTrustStatus::Qualified => "qualified",
        PackageTrustStatus::Revoked => "revoked",
    }
}

/// The stored name of a qualification disposition.
pub fn qualification_disposition_name(status: QualificationDisposition) -> (r: &'static str)
    ensures
        r@ == disposition_label(status),
{
    match status {
        QualificationDisposition::Inspected => "inspected",
        QualificationDisposition::Qualified => "qualified",
        QualificationDisposition::Rejected => "rejected",
        QualificationDisposition::Revoked => "revoked",
    }
}

/// The stored name of a research plan decision.
pub fn research_plan_decision_name(decision: ResearchPlanDecisionKind) -> (r: &'static str)
    ensures
        r@ == decision_label(decision),
{
    match decision {
        ResearchPlanDecisionKind::Approved => "approved",
        ResearchPlanDecisionKind::Rejected => "rejected",
        ResearchPlanDecisionKind::Withdrawn => "withdrawn",
    }
}

} // verus!
