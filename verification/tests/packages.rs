use concord::packages::{
    package_trust_name, qualification_disposition_name, research_plan_decision_name,
    PackageTrustStatus, QualificationDisposition, ResearchPlanDecisionKind,
};

#[test]
fn trust_statuses_have_their_stored_names() {
    assert_eq!(package_trust_name(&PackageTrustStatus::Quarantined), "quarantined");
    assert_eq!(package_trust_name(&PackageTrustStatus::Inspected), "inspected");
    assert_eq!(package_trust_name(&PackageTrustStatus::Qualified), "qualified");
    assert_eq!(package_trust_name(&PackageTrustStatus::Revoked), "revoked");
}

#[test]
fn dispositions_and_decisions_have_their_stored_names() {
    assert_eq!(qualification_disposition_name(QualificationDisposition::Inspected), "inspected");
    assert_eq!(qualification_disposition_name(QualificationDisposition::Qualified), "qualified");
    assert_eq!(qualification_disposition_name(QualificationDisposition::Rejected), "rejected");
    assert_eq!(qualification_disposition_name(QualificationDisposition::Revoked), "revoked");
    assert_eq!(research_plan_decision_name(ResearchPlanDecisionKind::Approved), "approved");
    assert_eq!(research_plan_decision_name(ResearchPlanDecisionKind::Rejected), "rejected");
    assert_eq!(research_plan_decision_name(ResearchPlanDecisionKind::Withdrawn), "withdrawn");
}
