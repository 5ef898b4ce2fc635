use concord::canonical::{push_decimal, push_json_string};
use concord::dispatch::DispatchPermitStatus;
use concord::kernel::{
    sha256_text, verify_chain, CampaignStatus, KernelError, KernelEvent, KernelEventKind,
    KERNEL_EVENT_CONTRACT,
};

fn event(sequence: u64, previous: Option<String>) -> KernelEvent {
    KernelEvent::build(
        "campaign:test".to_owned(),
        sequence,
        KernelEventKind::CampaignCreated,
        "operator".to_owned(),
        "subject".to_owned(),
        &"{}".to_owned(),
        previous,
        "2026-09-03T12:00:00Z".to_owned(),
    )
}

#[test]
fn sha256_text_is_the_lowercase_hex_digest() {
    assert_eq!(
        sha256_text(&"abc".to_owned()),
        "ba7816bf8f01cfea414140de5dae2223b00361a396177a9cb410ff61f20015ad"
    );
    assert_eq!(
        sha256_text(&String::new()),
        "e3b0c44298fc1c149afbf4c8996fb92427ae41e4649b934ca495991b7852b855"
    );
}

#[test]
fn built_event_is_sealed_over_its_canonical_json() {
    let e = event(0, None);
    assert_eq!(e.contract, KERNEL_EVENT_CONTRACT);
    assert_eq!(
        e.payload_sha256,
        "44136fa355b3678a1146ad16f7e8649e94fb4fc21fe77e8310c060f61caaff8a"
    );
    assert_eq!(
        e.hash_input(),
        format!(
            "{{\"actor\":\"operator\",\"campaignId\":\"campaign:test\",\"contract\":\"{}\",\"createdAt\":\"2026-09-03T12:00:00Z\",\"kind\":\"campaign_created\",\"payloadSha256\":\"{}\",\"previousEventSha256\":null,\"sequence\":0,\"subjectId\":\"subject\"}}",
            KERNEL_EVENT_CONTRACT, e.payload_sha256
        )
    );
    assert_eq!(e.event_sha256, sha256_text(&e.hash_input()));
    assert_eq!(e.recompute_sha256(), e.event_sha256);
    assert!(e.verify(0, &None).is_ok());
}

#[test]
fn verification_rejects_wrong_position_link_or_seal() {
    let e = event(0, None);
    assert!(matches!(e.verify(1, &None), Err(KernelError::Integrity(_))));
    assert!(matches!(
        e.verify(0, &Some("x".to_owned())),
        Err(KernelError::Integrity(_))
    ));
    let mut tampered = e.clone();
    tampered.subject_id = "other".to_owned();
    assert!(matches!(tampered.verify(0, &None), Err(KernelError::Integrity(_))));
}

#[test]
fn chain_verifies_from_the_first_event_and_returns_its_head() {
    let first = event(0, None);
    let second = event(1, Some(first.event_sha256.clone()));
    let head = second.event_sha256.clone();
    assert_eq!(verify_chain(&vec![]).unwrap(), None);
    assert_eq!(
        verify_chain(&vec![first.clone(), second.clone()]).unwrap(),
        Some(head)
    );
    assert!(matches!(
        verify_chain(&vec![second, first]),
        Err(KernelError::Integrity(_))
    ));
}

#[test]
fn json_strings_are_escaped_canonically() {
    let mut out = String::new();
    push_json_string(&mut out, "a\"b\\c\nd\u{1}é");
    assert_eq!(out, "\"a\\\"b\\\\c\\nd\\u0001é\"");
    let mut number = String::from("n=");
    push_decimal(&mut number, 1_234_567_890);
    assert_eq!(number, "n=1234567890");
    let mut zero = String::new();
    push_decimal(&mut zero, 0);
    assert_eq!(zero, "0");
}

#[test]
fn status_names_round_trip() {
    for status in [CampaignStatus::Open, CampaignStatus::Blocked] {
        assert_eq!(CampaignStatus::parse(status.as_str()).unwrap(), status);
    }
    assert!(matches!(
        CampaignStatus::parse("paused"),
        Err(KernelError::Integrity(_))
    ));
    for status in [
        DispatchPermitStatus::Authorized,
        DispatchPermitStatus::Consumed,
        DispatchPermitStatus::Settled,
        DispatchPermitStatus::Interrupted,
        DispatchPermitStatus::Released,
    ] {
        assert_eq!(DispatchPermitStatus::parse(status.as_str()), Some(status));
    }
    assert_eq!(DispatchPermitStatus::parse("expired"), None);
    assert_eq!(KernelEventKind::DispatchSettled.as_str(), "dispatch_settled");
}
