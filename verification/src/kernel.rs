//! Campaign records, kernel errors, and the hash-chained kernel event log.

use vstd::prelude::*;
use vstd::string::StringExecFns;
use sha2::Digest;
use crate::canonical::{decimal, json_string, push_decimal, push_json_string};
use crate::text::{is_blank, measure_text};
use crate::dispatch::copy_opt_text;

verus! {

broadcast use vstd::string::group_string_axioms;

/// The contract every kernel event carries.
pub const KERNEL_EVENT_CONTRACT: &'static str = "concord.kernel-event/1";

/// Why the kernel refused or failed.
#[derive(Debug, Clone)]
pub enum KernelError {
    Storage(String),
    Json(String),
    Contract(String),
    NotFound(String),
    Conflict(String),
    AuthorityDenied(String),
    Integrity(String),
}

/// Whether a campaign may receive new authority.
#[derive(Clone, Copy, PartialEq, Eq, Debug, Structural)]
pub enum CampaignStatus {
    Open,
    Blocked,
}

pub open spec fn campaign_status_name(status: CampaignStatus) -> Seq<char> {
    match status {
        CampaignStatus::Open => "open"@,
        CampaignStatus::Blocked => "blocked"@,
    }
}

impl CampaignStatus {
    /// The stored name of the status.
    pub fn as_str(&self) -> (r: &'static str)
        ensures
            r@ == campaign_status_name(*self),
    {
        match self {
            CampaignStatus::Open => "open",
            CampaignStatus::Blocked => "blocked",
        }
    }

    /// Reads a stored status name.
    pub fn parse(value: &str) -> (r: Result<CampaignStatus, KernelError>)
        ensures
            match r {
                Ok(status) => campaign_status_name(status) == value@,
                Err(e) => e is Integrity && value@ != "open"@ && value@ != "blocked"@,
            },
    {
        let owned = value.to_string();
        if owned == "open".to_string() {
            Ok(CampaignStatus::Open)
        } else if owned == "blocked".to_string() {
            Ok(CampaignStatus::Blocked)
        } else {
            let mut message = "unknown campaign status ".to_string();
            message.append(value);
            Err(KernelError::Integrity(message))
        }
    }
}

/// A campaign as the kernel records it.
#[derive(Debug, Clone)]
pub struct CampaignRecord {
    pub id: String,
    pub name: String,
    pub objective: String,
    pub generation: u64,
    pub status: CampaignStatus,
    pub blocked_reason: Option<String>,
    pub program_image_sha256: String,
    pub reconciliation_sha256: String,
    pub event_head_sha256: Option<String>,
    pub created_at: String,
    pub updated_at: String,
}

/// A campaign record as mathematical values.
pub struct CampaignView {
    pub id: Seq<char>,
    pub name: Seq<char>,
    pub objective: Seq<char>,
    pub generation: u64,
    pub status: CampaignStatus,
    pub blocked_reason: Option<Seq<char>>,
    pub program_image_sha256: Seq<char>,
    pub reconciliation_sha256: Seq<char>,
    pub event_head_sha256: Option<Seq<char>>,
    pub created_at: Seq<char>,
    pub updated_at: Seq<char>,
}

impl View for CampaignRecord {
    type V = CampaignView;

    open spec fn view(&self) -> CampaignView {
        CampaignView {
            id: self.id@,
            name: self.name@,
            objective: self.objective@,
            generation: self.generation,
            status: self.status,
            blocked_reason: crate::epact::opt_text(self.blocked_reason),
            program_image_sha256: self.program_image_sha256@,
            reconciliation_sha256: self.reconciliation_sha256@,
            event_head_sha256: crate::epact::opt_text(self.event_head_sha256),
            created_at: self.created_at@,
            updated_at: self.updated_at@,
        }
    }
}

impl CampaignRecord {
    /// A copy of the record.
    pub fn copy(&self) -> (r: CampaignRecord)
        ensures
            r@ == self@,
    {
        CampaignRecord {
            id: self.id.clone(),
            name: self.name.clone(),
            objective: self.objective.clone(),
            generation: self.generation,
            status: self.status,
            blocked_reason: copy_opt_text(&self.blocked_reason),
            program_image_sha256: self.program_image_sha256.clone(),
            reconciliation_sha256: self.reconciliation_sha256.clone(),
            event_head_sha256: copy_opt_text(&self.event_head_sha256),
            created_at: self.created_at.clone(),
            updated_at: self.updated_at.clone(),
        }
    }
}

/// The kinds of kernel receipts.
#[derive(Clone, Copy, PartialEq, Eq, Debug, Structural)]
pub enum KernelEventKind {
    CampaignCreated,
    BudgetCreated,
    EpactEventAccepted,
    DispatchAuthorized,
    DispatchConsumed,
    DispatchSettled,
    DispatchInterrupted,
    DispatchReleased,
    DispatchResolved,
}

pub open spec fn kind_name(kind: KernelEventKind) -> Seq<char> {
    match kind {
        KernelEventKind::CampaignCreated => "campaign_created"@,
        KernelEventKind::BudgetCreated => "budget_created"@,
        KernelEventKind::EpactEventAccepted => "epact_event_accepted"@,
        KernelEventKind::DispatchAuthorized => "dispatch_authorized"@,
        KernelEventKind::DispatchConsumed => "dispatch_consumed"@,
        KernelEventKind::DispatchSettled => "dispatch_settled"@,
        KernelEventKind::DispatchInterrupted => "dispatch_interrupted"@,
        KernelEventKind::DispatchReleased => "dispatch_released"@,
        KernelEventKind::DispatchResolved => "dispatch_resolved"@,
    }
}

impl KernelEventKind {
    /// The canonical (snake case) name of the kind.
    pub fn as_str(&self) -> (r: &'static str)
        ensures
            r@ == kind_name(*self),
    {
        match self {
            KernelEventKind::CampaignCreated => "campaign_created",
            KernelEventKind::BudgetCreated => "budget_created",
            KernelEventKind::EpactEventAccepted => "epact_event_accepted",
            KernelEventKind::DispatchAuthorized => "dispatch_authorized",
            KernelEventKind::DispatchConsumed => "dispatch_consumed",
            KernelEventKind::DispatchSettled => "dispatch_settled",
            KernelEventKind::DispatchInterrupted => "dispatch_interrupted",
            KernelEventKind::DispatchReleased => "dispatch_released",
            KernelEventKind::DispatchResolved => "dispatch_resolved",
        }
    }
}

/// One hash-chained kernel receipt.
#[derive(Debug, Clone)]
pub struct KernelEvent {
    pub contract: String,
    pub campaign_id: String,
    pub sequence: u64,
    pub kind: KernelEventKind,
    pub actor: String,
    pub subject_id: String,
    pub payload_sha256: String,
    pub previous_event_sha256: Option<String>,
    pub created_at: String,
    pub event_sha256: String,
}

/// What independent verification of a campaign found.
#[derive(Debug, Clone)]
pub struct VerificationReport {
    pub campaign_id: String,
    pub program_image_sha256: String,
    pub epact_event_count: usize,
    pub kernel_event_count: usize,
    pub dispatch_permit_count: usize,
    pub budget_count: usize,
    pub terminal: bool,
}

/// The lowercase hexadecimal SHA-256 digest of a byte string.
pub uninterp spec fn sha256_hex(data: Seq<u8>) -> Seq<char>;

/// The UTF-8 bytes of a text.
pub open spec fn utf8(s: Seq<char>) -> Seq<u8> {
    vstd::utf8::encode_utf8(s)
}

/// `sha2::Sha256::digest`, written as lowercase hexadecimal: the contract names the digest of
/// exactly the bytes given.
#[verifier::external_body]
fn sha256_hex_digest(data: &[u8]) -> (r: String)
    ensures
        r@ == sha256_hex(data@),
{
    format!("{:x}", sha2::Sha256::digest(data))
}

/// The digest of a text's UTF-8 bytes.
pub fn sha256_text(text: &String) -> (r: String)
    ensures
        r@ == sha256_hex(utf8(text@)),
{
    sha256_hex_digest(text.as_str().as_bytes())
}

pub open spec fn json_optional(s: Option<String>) -> Seq<char> {
    match s {
        Some(v) => json_string(v@),
        None => "null"@,
    }
}

/// The canonical JSON of the hashed fields of a kernel event.
pub open spec fn event_hash_input(e: KernelEvent) -> Seq<char> {
    "{\"actor\":"@ + json_string(e.actor@) + ",\"campaignId\":"@ + json_string(e.campaign_id@)
        + ",\"contract\":"@ + json_string(e.contract@) + ",\"createdAt\":"@ + json_string(
        e.created_at@,
    ) + ",\"kind\":"@ + json_string(kind_name(e.kind)) + ",\"payloadSha256\":"@ + json_string(
        e.payload_sha256@,
    ) + ",\"previousEventSha256\":"@ + json_optional(e.previous_event_sha256)
        + ",\"sequence\":"@ + decimal(e.sequence as nat) + ",\"subjectId\":"@ + json_string(
        e.subject_id@,
    ) + "}"@
}

/// The digest that seals a kernel event.
pub open spec fn event_digest(e: KernelEvent) -> Seq<char> {
    sha256_hex(utf8(event_hash_input(e)))
}

/// The event is well formed at position `sequence` after `previous`.
pub open spec fn event_links(e: KernelEvent, sequence: int, previous: Option<Seq<char>>) -> bool {
    &&& e.contract@ == KERNEL_EVENT_CONTRACT@
    &&& e.sequence == sequence
    &&& crate::epact::opt_text(e.previous_event_sha256) == previous
    &&& e.event_sha256@ == event_digest(e)
}

/// The hash of the event before position `i`, if any.
pub open spec fn previous_hash(events: Seq<KernelEvent>, i: int) -> Option<Seq<char>> {
    if i == 0 {
        None
    } else {
        Some(events[i - 1].event_sha256@)
    }
}

/// Every event extends the one before it.
pub open spec fn chain_valid(events: Seq<KernelEvent>) -> bool {
    forall|i: int| 0 <= i < events.len() ==> #[trigger] event_links(events[i], i, previous_hash(events, i))
}

/// The head of a chain: the hash of its last event.
pub open spec fn chain_head(events: Seq<KernelEvent>) -> Option<Seq<char>> {
    previous_hash(events, events.len() as int)
}

/// Checks that a text is not blank and has at most `maximum` characters.
pub fn validate_text(label: &str, value: &str, maximum: usize) -> (r: Result<(), KernelError>)
    ensures
        r is Ok <==> (!is_blank(value@) && value@.len() <= maximum),
        r matches Err(e) ==> e matches KernelError::Contract(m) && m@ == label@ + " must contain 1-"@ + decimal(
            maximum as nat,
        ) + " characters"@,
{
    let (length, blank) = measure_text(value);
    if blank || length > maximum {
        let mut message = label.to_string();
        message.append(" must contain 1-");
        push_decimal(&mut message, maximum as u64);
        message.append(" characters");
        return Err(KernelError::Contract(message));
    }
    Ok(())
}

fn push_optional(out: &mut String, value: &Option<String>)
    ensures
        final(out)@ == old(out)@ + json_optional(*value),
{
    match value {
        Some(v) => push_json_string(out, v.as_str()),
        None => out.append("null"),
    }
}

impl KernelEvent {
    /// The canonical JSON of the hashed fields.
    pub fn hash_input(&self) -> (r: String)
        ensures
            r@ == event_hash_input(*self),
    {
        let mut out = String::new();
        out.append("{\"actor\":");
        push_json_string(&mut out, self.actor.as_str());
        out.append(",\"campaignId\":");
        push_json_string(&mut out, self.campaign_id.as_str());
        out.append(",\"contract\":");
        push_json_string(&mut out, self.contract.as_str());
        out.append(",\"createdAt\":");
        push_json_string(&mut out, self.created_at.as_str());
        out.append(",\"kind\":");
        push_json_string(&mut out, self.kind.as_str());
        out.append(",\"payloadSha256\":");
        push_json_string(&mut out, self.payload_sha256.as_str());
        out.append(",\"previousEventSha256\":");
        push_optional(&mut out, &self.previous_event_sha256);
        out.append(",\"sequence\":");
        push_decimal(&mut out, self.sequence);
        out.append(",\"subjectId\":");
        push_json_string(&mut out, self.subject_id.as_str());
        out.append("}");
        assert(out@ =~= event_hash_input(*self));
        out
    }

    /// The digest the event should carry.
    pub fn recompute_sha256(&self) -> (r: String)
        ensures
            r@ == event_digest(*self),
    {
        let input = self.hash_input();
        sha256_text(&input)
    }

    /// Builds and seals a kernel event over the digest of its payload's canonical JSON.
    pub fn build(
        campaign_id: String,
        sequence: u64,
        kind: KernelEventKind,
        actor: String,
        subject_id: String,
        payload_json: &String,
        previous_event_sha256: Option<String>,
        created_at: String,
    ) -> (r: KernelEvent)
        ensures
            r.contract@ == KERNEL_EVENT_CONTRACT@,
            r.campaign_id == campaign_id,
            r.sequence == sequence,
            r.kind == kind,
            r.actor == actor,
            r.subject_id == subject_id,
            r.payload_sha256@ == sha256_hex(utf8(payload_json@)),
            r.previous_event_sha256 == previous_event_sha256,
            r.created_at == created_at,
            r.event_sha256@ == event_digest(r),
    {
        let payload_sha256 = sha256_text(payload_json);
        let mut event = KernelEvent {
            contract: KERNEL_EVENT_CONTRACT.to_string(),
            campaign_id,
            sequence,
            kind,
            actor,
            subject_id,
            payload_sha256,
            previous_event_sha256,
            created_at,
            event_sha256: String::new(),
        };
        let digest = event.recompute_sha256();
        event.event_sha256 = digest;
        event
    }

    /// Checks the event's contract, position, link and seal.
    pub fn verify(&self, expected_sequence: u64, expected_previous: &Option<String>) -> (r: Result<
        (),
        KernelError,
    >)
        ensures
            r is Ok <==> event_links(
                *self,
                expected_sequence as int,
                crate::epact::opt_text(*expected_previous),
            ),
            r matches Err(e) ==> e is Integrity,
    {
        let linked = match (&self.previous_event_sha256, expected_previous) {
            (Some(a), Some(b)) => *a == *b,
            (None, None) => true,
            _ => false,
        };
        let sealed = self.event_sha256 == self.recompute_sha256();
        if !(self.contract == KERNEL_EVENT_CONTRACT.to_string()) || self.sequence
            != expected_sequence || !linked || !sealed {
            let mut message = "kernel event ".to_string();
            push_decimal(&mut message, self.sequence);
            message.append(" failed chain verification");
            return Err(KernelError::Integrity(message));
        }
        Ok(())
    }
}

/// Verifies a campaign's kernel chain from its first event and returns its head.
pub fn verify_chain(events: &Vec<KernelEvent>) -> (r: Result<Option<String>, KernelError>)
    ensures
        match r {
            Ok(head) => chain_valid(events@) && crate::epact::opt_text(head) == chain_head(
                events@,
            ),
            Err(e) => !chain_valid(events@) && e is Integrity,
        },
{
    let mut previous: Option<String> = None;
    let mut i: usize = 0;
    while i < events.len()
        invariant
            i <= events.len(),
            forall|k: int|
                0 <= k < i ==> #[trigger] event_links(events@[k], k, previous_hash(events@, k)),
            crate::epact::opt_text(previous) == previous_hash(events@, i as int),
        decreases events.len() - i,
    {
        match events[i].verify(i as u64, &previous) {
            Ok(()) => {},
            Err(e) => {
                return Err(e);
            },
        }
        previous = Some(events[i].event_sha256.clone());
        i = i + 1;
    }
    Ok(previous)
}

/// A sealed event appended at the head keeps a valid chain valid.
pub proof fn lemma_append_keeps_chain(events: Seq<KernelEvent>, e: KernelEvent)
    requires
        chain_valid(events),
        e.contract@ == KERNEL_EVENT_CONTRACT@,
        e.sequence == events.len(),
        crate::epact::opt_text(e.previous_event_sha256) == chain_head(events),
        e.event_sha256@ == event_digest(e),
    ensures
        chain_valid(events.push(e)),
        chain_head(events.push(e)) == Some(e.event_sha256@),
{
    let next = events.push(e);
    assert forall|i: int| 0 <= i < next.len() implies #[trigger] event_links(
        next[i],
        i,
        previous_hash(next, i),
    ) by {
        if i < events.len() {
            assert(next[i] == events[i]);
            assert(event_links(events[i], i, previous_hash(events, i)));
            if i > 0 {
                assert(next[i - 1] == events[i - 1]);
            }
        }
    }
}

} // verus!
