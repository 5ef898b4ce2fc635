//! Campaign notes: operator and agent annotations recorded as auditable semantic objects.

use vstd::prelude::*;
use crate::canonical::{json_string, push_json_string};
use crate::dispatch::{json_string_items, push_string_items};
use crate::epact::opt_text;
use crate::order::{insert_sorted, insert_sorted_unique, texts};
use crate::records::{ActionRecord, LedgerEvent, SemanticObject, SemanticRelation};
use crate::text::{chars_of, measure_text, trim, trim_text};
use crate::openai_compatible::json_reencoded;

verus! {

broadcast use vstd::string::group_string_axioms;

/// The contract of campaign note objects.
pub const NOTE_CONTRACT: &'static str = "concord.campaign_note/1";

/// A request to annotate a campaign, optionally one of its runs or objects. The provenance is
/// the note's JSON provenance object, as JSON text.
#[derive(Debug, Clone)]
pub struct CreateNoteRequest {
    pub campaign_id: String,
    pub run_id: Option<String>,
    pub target_id: Option<String>,
    pub category: String,
    pub severity: String,
    pub title: String,
    pub body: String,
    pub actor: String,
    pub labels: Vec<String>,
    pub provenance_json: String,
}

/// The note, the relation that attaches it to its target, and the action that records it.
#[derive(Debug, Clone)]
pub struct NoteResponse {
    pub note: SemanticObject,
    pub action: ActionRecord,
    pub relation: SemanticRelation,
}

/// The code of a character once an ASCII capital is lowered.
pub open spec fn lower_code(c: char) -> u32 {
    let u = c as u32;
    if 65 <= u <= 90 {
        (u + 32) as u32
    } else {
        u
    }
}

/// `s` spells `word` when ASCII capitals are lowered.
pub open spec fn ascii_matches(s: Seq<char>, word: Seq<char>) -> bool {
    &&& s.len() == word.len()
    &&& forall|i: int| 0 <= i < s.len() ==> lower_code(s[i]) == word[i] as u32
}

/// The first of the first `n` words that `s` spells ignoring ASCII case.
pub open spec fn known_word(s: Seq<char>, words: Seq<Seq<char>>, n: nat) -> Option<Seq<char>>
    decreases n,
{
    if n == 0 || n > words.len() {
        None
    } else {
        match known_word(s, words, (n - 1) as nat) {
            Some(w) => Some(w),
            None => if ascii_matches(s, words[n - 1]) {
                Some(words[n - 1])
            } else {
                None
            },
        }
    }
}

pub open spec fn note_categories() -> Seq<Seq<char>> {
    seq!["mistake"@, "warning"@, "rationale"@, "observation"@, "lesson"@, "decision"@, "handoff"@]
}

pub open spec fn note_severities() -> Seq<Seq<char>> {
    seq!["critical"@, "high"@, "normal"@, "low"@]
}

/// The category a request names, in its stored (lower-case) form.
pub open spec fn note_category(request: CreateNoteRequest) -> Option<Seq<char>> {
    known_word(trim(request.category@), note_categories(), 7)
}

/// The severity a request names, in its stored (lower-case) form.
pub open spec fn note_severity(request: CreateNoteRequest) -> Option<Seq<char>> {
    known_word(trim(request.severity@), note_severities(), 4)
}

/// An optional text, trimmed, where it is not blank.
pub open spec fn opt_trimmed(o: Option<String>) -> Option<Seq<char>> {
    match o {
        Some(s) => if trim(s@).len() > 0 {
            Some(trim(s@))
        } else {
            None
        },
        None => None,
    }
}

/// The first `n` labels trimmed, without blanks, sorted and without repeats.
pub open spec fn note_labels(labels: Seq<String>, n: nat) -> Seq<Seq<char>>
    decreases n,
{
    if n == 0 || n > labels.len() {
        Seq::empty()
    } else {
        let earlier = note_labels(labels, (n - 1) as nat);
        let t = trim(labels[n - 1]@);
        if t.len() == 0 {
            earlier
        } else {
            insert_sorted(earlier, t)
        }
    }
}

/// JSON text that starts an object.
pub open spec fn is_object_json(json: Seq<char>) -> bool {
    json.len() > 0 && json[0] == '{'
}

/// The request's provenance as compact JSON, where it parses as JSON and is an object: a
/// parsed value written back compactly starts with `{` exactly when it is an object.
pub open spec fn note_provenance(request: CreateNoteRequest) -> Option<Seq<char>> {
    match json_reencoded(request.provenance_json@) {
        Ok(text) => if is_object_json(text) {
            Some(text)
        } else {
            None
        },
        Err(_) => None,
    }
}

/// The request is complete and within its limits.
pub open spec fn note_request_valid(request: CreateNoteRequest) -> bool {
    &&& trim(request.campaign_id@).len() > 0
    &&& note_category(request) is Some
    &&& note_severity(request) is Some
    &&& 0 < trim(request.title@).len() <= 240
    &&& 0 < trim(request.body@).len() <= 32000
    &&& 0 < trim(request.actor@).len() <= 160
    &&& request.labels@.len() <= 32
    &&& forall|i: int| 0 <= i < request.labels@.len() ==> trim(#[trigger] request.labels@[i]@).len() <= 80
    &&& note_provenance(request) is Some
}

/// What the note annotates: the named target, else the run, else the campaign.
pub open spec fn note_target(request: CreateNoteRequest) -> Seq<char> {
    match opt_trimmed(request.target_id) {
        Some(t) => t,
        None => match opt_trimmed(request.run_id) {
            Some(r) => r,
            None => trim(request.campaign_id@),
        },
    }
}

pub open spec fn note_payload(
    category: Seq<char>,
    severity: Seq<char>,
    body: Seq<char>,
    actor: Seq<char>,
    labels: Seq<Seq<char>>,
    target: Seq<char>,
    provenance: Seq<char>,
) -> Seq<char> {
    "{\"actor\":"@ + json_string(actor) + ",\"body\":"@ + json_string(body) + ",\"category\":"@
        + json_string(category) + ",\"internal\":true,\"labels\":["@ + json_string_items(labels, labels.len())
        + "],\"provenance\":"@ + provenance + ",\"severity\":"@ + json_string(severity)
        + ",\"targetId\":"@ + json_string(target) + "}"@
}

pub open spec fn note_action_payload(category: Seq<char>, severity: Seq<char>) -> Seq<char> {
    "{\"category\":"@ + json_string(category) + ",\"internal\":true,\"severity\":"@ + json_string(severity) + "}"@
}

pub open spec fn note_event_payload(category: Seq<char>, severity: Seq<char>, target: Seq<char>) -> Seq<char> {
    "{\"category\":"@ + json_string(category) + ",\"internal\":true,\"severity\":"@ + json_string(severity)
        + ",\"targetId\":"@ + json_string(target) + "}"@
}

pub open spec fn note_id(suffix: Seq<char>) -> Seq<char> {
    "note:"@ + suffix
}

/// `o` is the note that `request` records at `now` under `suffix`.
pub open spec fn is_note(o: SemanticObject, request: CreateNoteRequest, now: Seq<char>, suffix: Seq<char>) -> bool {
    &&& o.id@ == note_id(suffix)
    &&& opt_text(o.campaign_id) == Some(trim(request.campaign_id@))
    &&& opt_text(o.run_id) == opt_trimmed(request.run_id)
    &&& o.kind@ == "note"@
    &&& o.semantic_type@ == NOTE_CONTRACT@
    &&& Some(o.state@) == note_category(request)
    &&& opt_text(o.label) == Some(trim(request.title@))
    &&& o.payload_json@ == note_payload(
        note_category(request).unwrap(),
        note_severity(request).unwrap(),
        trim(request.body@),
        trim(request.actor@),
        note_labels(request.labels@, request.labels@.len()),
        note_target(request),
        note_provenance(request).unwrap(),
    )
    &&& o.created_at@ == now
    &&& o.updated_at@ == now
}

/// `r` attaches the note to its target.
pub open spec fn is_note_relation(r: SemanticRelation, request: CreateNoteRequest, now: Seq<char>, suffix: Seq<char>) -> bool {
    &&& r.id@ == "relation:note:"@ + suffix + ":annotates"@
    &&& opt_text(r.campaign_id) == Some(trim(request.campaign_id@))
    &&& opt_text(r.run_id) == opt_trimmed(request.run_id)
    &&& r.subject_id@ == note_id(suffix)
    &&& r.predicate@ == "annotates"@
    &&& r.object_id@ == note_target(request)
    &&& r.payload_json@ == "{\"internal\":true}"@
    &&& r.timestamp@ == now
}

/// `a` records that the note was created.
pub open spec fn is_note_action(a: ActionRecord, request: CreateNoteRequest, now: Seq<char>, suffix: Seq<char>) -> bool {
    &&& a.id@ == "action:note:"@ + suffix + ":created"@
    &&& opt_text(a.campaign_id) == Some(trim(request.campaign_id@))
    &&& opt_text(a.run_id) == opt_trimmed(request.run_id)
    &&& a.action_type@ == "note_created"@
    &&& a.actor@ == trim(request.actor@)
    &&& opt_text(a.target_id) == Some(note_id(suffix))
    &&& a.status@ == "completed"@
    &&& a.payload_json@ == note_action_payload(note_category(request).unwrap(), note_severity(request).unwrap())
    &&& a.timestamp@ == now
}

/// `e` is the ledger entry of the note.
pub open spec fn is_note_event(e: LedgerEvent, request: CreateNoteRequest, now: Seq<char>, suffix: Seq<char>) -> bool {
    &&& e.id@ == "event:note:"@ + suffix + ":recorded"@
    &&& opt_text(e.campaign_id) == Some(trim(request.campaign_id@))
    &&& opt_text(e.run_id) == opt_trimmed(request.run_id)
    &&& e.object_type@ == "campaign_note"@
    &&& e.object_id@ == note_id(suffix)
    &&& e.verb@ == "note_recorded"@
    &&& e.timestamp@ == now
    &&& e.payload_json@ == note_event_payload(
        note_category(request).unwrap(),
        note_severity(request).unwrap(),
        note_target(request),
    )
}

/// Whether `s` spells `word` ignoring ASCII case.
fn matches_ignoring_ascii_case(s: &str, word: &str) -> (r: bool)
    ensures
        r == ascii_matches(s@, word@),
{
    let a = chars_of(s);
    let b = chars_of(word);
    if a.len() != b.len() {
        return false;
    }
    let mut i: usize = 0;
    while i < a.len()
        invariant
            a@ == s@,
            b@ == word@,
            a.len() == b.len(),
            i <= a.len(),
            forall|k: int| 0 <= k < i ==> lower_code(s@[k]) == word@[k] as u32,
        decreases a.len() - i,
    {
        let u = a[i] as u32;
        let lowered = if 65 <= u && u <= 90 {
            u + 32
        } else {
            u
        };
        if lowered != b[i] as u32 {
            return false;
        }
        i = i + 1;
    }
    true
}

/// The stored category that a request names, if it names one.
pub fn canonical_category(category: &str) -> (r: Option<&'static str>)
    ensures
        match r {
            Some(w) => known_word(trim(category@), note_categories(), 7) == Some(w@),
            None => known_word(trim(category@), note_categories(), 7) is None,
        },
{
    let t = trim_text(category);
    let s = t.as_str();
    proof {
        reveal_with_fuel(known_word, 8);
    }
    if matches_ignoring_ascii_case(s, "mistake") {
        Some("mistake")
    } else if matches_ignoring_ascii_case(s, "warning") {
        Some("warning")
    } else if matches_ignoring_ascii_case(s, "rationale") {
        Some("rationale")
    } else if matches_ignoring_ascii_case(s, "observation") {
        Some("observation")
    } else if matches_ignoring_ascii_case(s, "lesson") {
        Some("lesson")
    } else if matches_ignoring_ascii_case(s, "decision") {
        Some("decision")
    } else if matches_ignoring_ascii_case(s, "handoff") {
        Some("handoff")
    } else {
        None
    }
}

/// The stored severity that a request names, if it names one.
pub fn canonical_severity(severity: &str) -> (r: Option<&'static str>)
    ensures
        match r {
            Some(w) => known_word(trim(severity@), note_severities(), 4) == Some(w@),
            None => known_word(trim(severity@), note_severities(), 4) is None,
        },
{
    let t = trim_text(severity);
    let s = t.as_str();
    proof {
        reveal_with_fuel(known_word, 5);
    }
    if matches_ignoring_ascii_case(s, "critical") {
        Some("critical")
    } else if matches_ignoring_ascii_case(s, "high") {
        Some("high")
    } else if matches_ignoring_ascii_case(s, "normal") {
        Some("normal")
    } else if matches_ignoring_ascii_case(s, "low") {
        Some("low")
    } else {
        None
    }
}

/// The note's labels trimmed, without blanks, sorted and without repeats; `None` when a label is
/// longer than 80 characters.
pub fn normalize_labels(labels: &Vec<String>) -> (r: Option<Vec<String>>)
    ensures
        match r {
            Some(out) => texts(out@) == note_labels(labels@, labels@.len()) && forall|i: int|
                0 <= i < labels@.len() ==> trim(#[trigger] labels@[i]@).len() <= 80,
            None => exists|i: int| 0 <= i < labels@.len() && trim(#[trigger] labels@[i]@).len() > 80,
        },
{
    let mut out: Vec<String> = Vec::new();
    let mut i: usize = 0;
    while i < labels.len()
        invariant
            i <= labels.len(),
            texts(out@) == note_labels(labels@, i as nat),
            forall|k: int| 0 <= k < i ==> trim(#[trigger] labels@[k]@).len() <= 80,
        decreases labels.len() - i,
    {
        let t = trim_text(labels[i].as_str());
        let (length, _) = measure_text(t.as_str());
        if length > 80 {
            return None;
        }
        if length > 0 {
            insert_sorted_unique(&mut out, t);
        }
        i = i + 1;
    }
    Some(out)
}

/// Whether JSON text starts an object.
pub fn starts_object(json: &str) -> (r: bool)
    ensures
        r == is_object_json(json@),
{
    let chars = chars_of(json);
    chars.len() > 0 && chars[0] == '{'
}

/// The canonical JSON payload of a note.
pub fn note_payload_json(
    category: &str,
    severity: &str,
    body: &str,
    actor: &str,
    labels: &Vec<String>,
    target: &str,
    provenance: &str,
) -> (r: String)
    ensures
        r@ == note_payload(category@, severity@, body@, actor@, texts(labels@), target@, provenance@),
{
    let mut out = String::new();
    out.append("{\"actor\":");
    push_json_string(&mut out, actor);
    out.append(",\"body\":");
    push_json_string(&mut out, body);
    out.append(",\"category\":");
    push_json_string(&mut out, category);
    out.append(",\"internal\":true,\"labels\":[");
    push_string_items(&mut out, labels);
    out.append("],\"provenance\":");
    out.append(provenance);
    out.append(",\"severity\":");
    push_json_string(&mut out, severity);
    out.append(",\"targetId\":");
    push_json_string(&mut out, target);
    out.append("}");
    assert(texts(labels@).len() == labels@.len());
    assert(out@ =~= note_payload(category@, severity@, body@, actor@, texts(labels@), target@, provenance@));
    out
}

/// The canonical JSON payload of a note's creation action.
pub fn note_action_payload_json(category: &str, severity: &str) -> (r: String)
    ensures
        r@ == note_action_payload(category@, severity@),
{
    let mut out = String::new();
    out.append("{\"category\":");
    push_json_string(&mut out, category);
    out.append(",\"internal\":true,\"severity\":");
    push_json_string(&mut out, severity);
    out.append("}");
    assert(out@ =~= note_action_payload(category@, severity@));
    out
}

/// The canonical JSON payload of a note's ledger entry.
pub fn note_event_payload_json(category: &str, severity: &str, target: &str) -> (r: String)
    ensures
        r@ == note_event_payload(category@, severity@, target@),
{
    let mut out = String::new();
    out.append("{\"category\":");
    push_json_string(&mut out, category);
    out.append(",\"internal\":true,\"severity\":");
    push_json_string(&mut out, severity);
    out.append(",\"targetId\":");
    push_json_string(&mut out, target);
    out.append("}");
    assert(out@ =~= note_event_payload(category@, severity@, target@));
    out
}

/// An optional text, trimmed, where it is not blank.
pub fn trimmed_option(o: &Option<String>) -> (r: Option<String>)
    ensures
        opt_text(r) == opt_trimmed(*o),
{
    match o {
        Some(s) => {
            let t = trim_text(s.as_str());
            let (length, _) = measure_text(t.as_str());
            if length > 0 {
                Some(t)
            } else {
                None
            }
        },
        None => None,
    }
}

/// The character with an ASCII capital lowered.
pub open spec fn lower_char(c: char) -> char {
    match c {
        'A' => 'a',
        'B' => 'b',
        'C' => 'c',
        'D' => 'd',
        'E' => 'e',
        'F' => 'f',
        'G' => 'g',
        'H' => 'h',
        'I' => 'i',
        'J' => 'j',
        'K' => 'k',
        'L' => 'l',
        'M' => 'm',
        'N' => 'n',
        'O' => 'o',
        'P' => 'p',
        'Q' => 'q',
        'R' => 'r',
        'S' => 's',
        'T' => 't',
        'U' => 'u',
        'V' => 'v',
        'W' => 'w',
        'X' => 'x',
        'Y' => 'y',
        'Z' => 'z',
        _ => c,
    }
}

/// The text with its ASCII capitals lowered.
pub open spec fn ascii_lower(s: Seq<char>) -> Seq<char> {
    s.map_values(|c: char| lower_char(c))
}

/// The lowered letter of an ASCII capital.
fn lowered_capital(c: char) -> (r: Option<&'static str>)
    ensures
        match r {
            Some(t) => t@ == seq![lower_char(c)],
            None => lower_char(c) == c,
        },
{
    proof {
        reveal_strlit("a");
        reveal_strlit("b");
        reveal_strlit("c");
        reveal_strlit("d");
        reveal_strlit("e");
        reveal_strlit("f");
        reveal_strlit("g");
        reveal_strlit("h");
        reveal_strlit("i");
        reveal_strlit("j");
        reveal_strlit("k");
        reveal_strlit("l");
        reveal_strlit("m");
        reveal_strlit("n");
        reveal_strlit("o");
        reveal_strlit("p");
        reveal_strlit("q");
        reveal_strlit("r");
        reveal_strlit("s");
        reveal_strlit("t");
        reveal_strlit("u");
        reveal_strlit("v");
        reveal_strlit("w");
        reveal_strlit("x");
        reveal_strlit("y");
        reveal_strlit("z");
    }
    match c {
        'A' => Some("a"),
        'B' => Some("b"),
        'C' => Some("c"),
        'D' => Some("d"),
        'E' => Some("e"),
        'F' => Some("f"),
        'G' => Some("g"),
        'H' => Some("h"),
        'I' => Some("i"),
        'J' => Some("j"),
        'K' => Some("k"),
        'L' => Some("l"),
        'M' => Some("m"),
        'N' => Some("n"),
        'O' => Some("o"),
        'P' => Some("p"),
        'Q' => Some("q"),
        'R' => Some("r"),
        'S' => Some("s"),
        'T' => Some("t"),
        'U' => Some("u"),
        'V' => Some("v"),
        'W' => Some("w"),
        'X' => Some("x"),
        'Y' => Some("y"),
        'Z' => Some("z"),
        _ => None,
    }
}

/// The text with its ASCII capitals lowered.
pub fn ascii_lowercase(s: &str) -> (r: String)
    ensures
        r@ == ascii_lower(s@),
{
    let chars = chars_of(s);
    let n = chars.len();
    let mut out = String::new();
    let mut i: usize = 0;
    while i < n
        invariant
            chars@ == s@,
            n == chars@.len(),
            i <= n,
            out@ == ascii_lower(s@.subrange(0, i as int)),
        decreases n - i,
    {
        match lowered_capital(chars[i]) {
            Some(t) => {
                out.append(t);
            },
            None => {
                out.append(s.substring_char(i, i + 1));
                assert(s@.subrange(i as int, i + 1) =~= seq![chars@[i as int]]);
            },
        }
        assert(ascii_lower(s@.subrange(0, i + 1)) =~= ascii_lower(s@.subrange(0, i as int)) + seq![
            lower_char(s@[i as int]),
        ]);
        i = i + 1;
    }
    assert(s@.subrange(0, n as int) =~= s@);
    out
}

/// Why a note request is refused before the store is consulted: the first rule it breaks.
pub open spec fn note_refusal(request: CreateNoteRequest) -> Seq<char> {
    if trim(request.campaign_id@).len() == 0 {
        "campaignId is required"@
    } else if note_category(request) is None {
        "unsupported note category "@ + ascii_lower(trim(request.category@))
    } else if note_severity(request) is None {
        "unsupported note severity "@ + ascii_lower(trim(request.severity@))
    } else if !(0 < trim(request.title@).len() <= 240) {
        "note title must contain between 1 and 240 characters"@
    } else if !(0 < trim(request.body@).len() <= 32000) {
        "note body must contain between 1 and 32000 characters"@
    } else if !(0 < trim(request.actor@).len() <= 160) {
        "note actor must contain between 1 and 160 characters"@
    } else if request.labels@.len() > 32 {
        "notes support at most 32 labels"@
    } else if exists|i: int| 0 <= i < request.labels@.len() && trim(#[trigger] request.labels@[i]@).len() > 80 {
        "note labels may not exceed 80 characters"@
    } else {
        "note provenance must be a JSON object"@
    }
}

} // verus!
