//! Adapters between the canonical model contracts and an OpenAI-compatible chat transport:
//! rendering a canonical request as a chat payload, and normalizing a provider's chat response
//! into the canonical response. Provider identity, credentials and routing stay outside the
//! canonical request; the caller supplies the model name at the transport boundary.
//!
//! JSON documents that the canonical contracts carry whole (a tool's input schema, a response
//! schema, a tool call's arguments) are held as compact JSON text. A provider response is held as
//! a JSON tree, which the normalizer reads.

use vstd::prelude::*;
use crate::canonical::{decimal, json_string, push_decimal, push_json_string};
use crate::text::{measure_text, trim, trim_text};

verus! {

broadcast use vstd::string::group_string_axioms;

/// The contract of canonical model responses.
pub const MODEL_RESPONSE_CONTRACT: &'static str = "concord.model-response/1";

/// Who speaks a message.
#[derive(Clone, Copy, PartialEq, Eq, Debug, Structural)]
pub enum ModelRole {
    System,
    User,
    Assistant,
    Tool,
}

/// A tool call an assistant message made, with its arguments as compact JSON text.
#[derive(Debug, Clone)]
pub struct ModelMessageToolCall {
    pub id: String,
    pub name: String,
    pub arguments_json: String,
}

/// One message of a canonical model request.
#[derive(Debug, Clone)]
pub struct ModelMessage {
    pub role: ModelRole,
    pub content: String,
    pub name: Option<String>,
    pub tool_call_id: Option<String>,
    pub tool_calls: Vec<ModelMessageToolCall>,
}

/// A tool the model may call, with its input schema as compact JSON text.
#[derive(Debug, Clone)]
pub struct ModelToolDefinition {
    pub name: String,
    pub description: String,
    pub input_schema_json: String,
}

/// The limits of one model execution; the cost ceiling is in whole micro-dollars.
#[derive(Debug, Clone)]
pub struct ModelExecutionLimits {
    pub max_output_tokens: u64,
    pub max_tool_calls: u64,
    pub max_elapsed_seconds: u64,
    pub max_cost_microusd: Option<u64>,
}

/// A canonical model request; the response schema, where there is one, is compact JSON text.
#[derive(Debug, Clone)]
pub struct ModelExecutionRequest {
    pub contract: String,
    pub request_id: String,
    pub campaign_id: String,
    pub task_class: String,
    pub messages: Vec<ModelMessage>,
    pub tools: Vec<ModelToolDefinition>,
    pub response_schema_json: Option<String>,
    pub context_refs: Vec<String>,
    pub context_receipt_sha256: Option<String>,
    pub required_capabilities: Vec<String>,
    pub limits: ModelExecutionLimits,
}

/// A JSON number: a non-negative or negative integer, or any other number as its text.
#[derive(Debug, Clone)]
pub enum JsonNumber {
    PosInt(u64),
    NegInt(i64),
    Float(String),
}

/// A JSON document as a tree.
#[derive(Debug)]
pub enum JsonValue {
    Null,
    Bool(bool),
    Number(JsonNumber),
    Text(String),
    Array(Vec<JsonValue>),
    Object(Vec<JsonMember>),
}

/// One member of a JSON object.
#[derive(Debug)]
pub struct JsonMember {
    pub key: String,
    pub value: JsonValue,
}

/// The place of the first member named `key` among the first `n`.
pub open spec fn member_index(members: Seq<JsonMember>, key: Seq<char>, n: nat) -> Option<int>
    decreases n,
{
    if n == 0 || n > members.len() {
        None
    } else {
        match member_index(members, key, (n - 1) as nat) {
            Some(i) => Some(i),
            None => if members[n - 1].key@ == key {
                Some(n - 1)
            } else {
                None
            },
        }
    }
}

/// The value of an object's member named `key`; nothing where `v` is no object or has none.
pub open spec fn member(v: JsonValue, key: Seq<char>) -> Option<JsonValue> {
    match v {
        JsonValue::Object(members) => match member_index(members@, key, members@.len()) {
            Some(i) => Some(members@[i].value),
            None => None,
        },
        _ => None,
    }
}

/// `member` of an optional value.
pub open spec fn member_of(o: Option<JsonValue>, key: Seq<char>) -> Option<JsonValue> {
    match o {
        Some(v) => member(v, key),
        None => None,
    }
}

/// What the pointer token `0` reaches: an array's first element, or an object's member `0`.
pub open spec fn first_of(o: Option<JsonValue>) -> Option<JsonValue> {
    match o {
        Some(JsonValue::Array(items)) => if items@.len() > 0 {
            Some(items@[0])
        } else {
            None
        },
        Some(v) => member(v, "0"@),
        None => None,
    }
}

/// The text of a JSON string.
pub open spec fn text_of(o: Option<JsonValue>) -> Option<Seq<char>> {
    match o {
        Some(JsonValue::Text(s)) => Some(s@),
        _ => None,
    }
}

/// The value of a JSON number that is a non-negative integer.
pub open spec fn unsigned_of(o: Option<JsonValue>) -> Option<u64> {
    match o {
        Some(JsonValue::Number(JsonNumber::PosInt(n))) => Some(n),
        _ => None,
    }
}

/// The value of the first member named `key`, where `v` is an object.
#[verifier::loop_isolation(false)]
fn member_exec<'a>(v: &'a JsonValue, key: &str) -> (r: Option<&'a JsonValue>)
    ensures
        match r {
            Some(x) => member(*v, key@) == Some(*x),
            None => member(*v, key@) is None,
        },
{
    match v {
        JsonValue::Object(members) => {
            let wanted = key.to_string();
            let mut k: usize = 0;
            while k < members.len()
                invariant
                    k <= members.len(),
                    wanted@ == key@,
                    member_index(members@, key@, k as nat) is None,
                decreases members.len() - k,
            {
                if members[k].key == wanted {
                    assert(member_index(members@, key@, (k + 1) as nat) == Some(k as int));
                    proof {
                        lemma_member_index_stays(members@, key@, (k + 1) as nat, members@.len());
                    }
                    assert(member(*v, key@) == Some(members@[k as int].value));
                    return Some(&members[k].value);
                }
                k = k + 1;
            }
            None
        },
        _ => None,
    }
}

/// Once found among the first `m` members, the first member named `key` stays the one found.
proof fn lemma_member_index_stays(members: Seq<JsonMember>, key: Seq<char>, m: nat, n: nat)
    requires
        m <= n <= members.len(),
        member_index(members, key, m) is Some,
    ensures
        member_index(members, key, n) == member_index(members, key, m),
    decreases n,
{
    if m < n {
        lemma_member_index_stays(members, key, m, (n - 1) as nat);
    }
}


/// Why an adapter refused.
#[derive(Debug, Clone)]
pub enum OpenAiCompatibleError {
    MissingModel,
    MissingMessage,
    MissingToolCallId,
    MissingToolName,
    MissingToolArguments,
    MalformedToolArguments { id: String, detail: String },
}

/// An adapter refusal as plain values.
pub enum AdapterErrorView {
    MissingModel,
    MissingMessage,
    MissingToolCallId,
    MissingToolName,
    MissingToolArguments,
    MalformedToolArguments { id: Seq<char>, detail: Seq<char> },
}

impl View for OpenAiCompatibleError {
    type V = AdapterErrorView;

    open spec fn view(&self) -> AdapterErrorView {
        match self {
            OpenAiCompatibleError::MissingModel => AdapterErrorView::MissingModel,
            OpenAiCompatibleError::MissingMessage => AdapterErrorView::MissingMessage,
            OpenAiCompatibleError::MissingToolCallId => AdapterErrorView::MissingToolCallId,
            OpenAiCompatibleError::MissingToolName => AdapterErrorView::MissingToolName,
            OpenAiCompatibleError::MissingToolArguments => AdapterErrorView::MissingToolArguments,
            OpenAiCompatibleError::MalformedToolArguments { id, detail } => AdapterErrorView::MalformedToolArguments {
                id: id@,
                detail: detail@,
            },
        }
    }
}

/// The transport name of a role.
pub open spec fn role_name(role: ModelRole) -> Seq<char> {
    match role {
        ModelRole::System => "system"@,
        ModelRole::User => "user"@,
        ModelRole::Assistant => "assistant"@,
        ModelRole::Tool => "tool"@,
    }
}

/// A tool call as a transport function call, its arguments written as a JSON string.
pub open spec fn call_json(call: ModelMessageToolCall) -> Seq<char> {
    "{\"function\":{\"arguments\":"@ + json_string(call.arguments_json@) + ",\"name\":"@ + json_string(call.name@)
        + "},\"id\":"@ + json_string(call.id@) + ",\"type\":\"function\"}"@
}

/// The first `n` tool calls, comma-separated.
pub open spec fn calls_json(calls: Seq<ModelMessageToolCall>, n: nat) -> Seq<char>
    decreases n,
{
    if n == 0 || n > calls.len() {
        Seq::empty()
    } else if n == 1 {
        call_json(calls[0])
    } else {
        calls_json(calls, (n - 1) as nat) + ","@ + call_json(calls[n - 1])
    }
}

/// An optional member, written with its leading comma where it is there.
pub open spec fn optional_member(key: Seq<char>, value: Option<String>) -> Seq<char> {
    match value {
        Some(v) => ","@ + json_string(key) + ":"@ + json_string(v@),
        None => Seq::empty(),
    }
}

/// A message as a transport message, its members in key order.
pub open spec fn message_json(m: ModelMessage) -> Seq<char> {
    "{\"content\":"@ + json_string(m.content@) + optional_member("name"@, m.name) + ",\"role\":"@ + json_string(
        role_name(m.role),
    ) + optional_member("tool_call_id"@, m.tool_call_id) + if m.tool_calls@.len() > 0 {
        ",\"tool_calls\":["@ + calls_json(m.tool_calls@, m.tool_calls@.len()) + "]"@
    } else {
        Seq::empty()
    } + "}"@
}

/// The first `n` messages, comma-separated.
pub open spec fn messages_json(messages: Seq<ModelMessage>, n: nat) -> Seq<char>
    decreases n,
{
    if n == 0 || n > messages.len() {
        Seq::empty()
    } else if n == 1 {
        message_json(messages[0])
    } else {
        messages_json(messages, (n - 1) as nat) + ","@ + message_json(messages[n - 1])
    }
}

/// A tool as a transport function definition, its schema written in place.
pub open spec fn tool_json(tool: ModelToolDefinition) -> Seq<char> {
    "{\"function\":{\"description\":"@ + json_string(tool.description@) + ",\"name\":"@ + json_string(tool.name@)
        + ",\"parameters\":"@ + tool.input_schema_json@ + "},\"type\":\"function\"}"@
}

/// The first `n` tools, comma-separated.
pub open spec fn tools_json(tools: Seq<ModelToolDefinition>, n: nat) -> Seq<char>
    decreases n,
{
    if n == 0 || n > tools.len() {
        Seq::empty()
    } else if n == 1 {
        tool_json(tools[0])
    } else {
        tools_json(tools, (n - 1) as nat) + ","@ + tool_json(tools[n - 1])
    }
}

/// The chat payload of a request for `model`, as compact JSON with its members in key order;
/// refused where the model is blank.
pub open spec fn chat_payload(request: ModelExecutionRequest, model: Seq<char>) -> Result<Seq<char>, AdapterErrorView> {
    if trim(model).len() == 0 {
        Err(AdapterErrorView::MissingModel)
    } else {
        Ok(
            "{\"max_tokens\":"@ + decimal(request.limits.max_output_tokens as nat) + ",\"messages\":["@
                + messages_json(request.messages@, request.messages@.len()) + "],\"model\":"@ + json_string(model)
                + match request.response_schema_json {
                Some(schema) => ",\"response_format\":{\"json_schema\":{\"name\":\"concord_response\",\"schema\":"@
                    + schema@ + ",\"strict\":true},\"type\":\"json_schema\"}"@,
                None => Seq::empty(),
            } + if request.tools@.len() > 0 {
                ",\"tools\":["@ + tools_json(request.tools@, request.tools@.len()) + "]"@
            } else {
                Seq::empty()
            } + "}"@,
        )
    }
}

fn push_optional_member(out: &mut String, key: &str, value: &Option<String>)
    ensures
        final(out)@ == old(out)@ + optional_member(key@, *value),
{
    match value {
        Some(v) => {
            out.append(",");
            push_json_string(out, key);
            out.append(":");
            push_json_string(out, v.as_str());
        },
        None => {},
    }
}

fn push_call(out: &mut String, call: &ModelMessageToolCall)
    ensures
        final(out)@ == old(out)@ + call_json(*call),
{
    out.append("{\"function\":{\"arguments\":");
    push_json_string(out, call.arguments_json.as_str());
    out.append(",\"name\":");
    push_json_string(out, call.name.as_str());
    out.append("},\"id\":");
    push_json_string(out, call.id.as_str());
    out.append(",\"type\":\"function\"}");
}

fn role_str(role: ModelRole) -> (r: &'static str)
    ensures
        r@ == role_name(role),
{
    match role {
        ModelRole::System => "system",
        ModelRole::User => "user",
        ModelRole::Assistant => "assistant",
        ModelRole::Tool => "tool",
    }
}

fn push_message(out: &mut String, m: &ModelMessage)
    ensures
        final(out)@ == old(out)@ + message_json(*m),
{
    let ghost start = out@;
    out.append("{\"content\":");
    push_json_string(out, m.content.as_str());
    push_optional_member(out, "name", &m.name);
    out.append(",\"role\":");
    push_json_string(out, role_str(m.role));
    push_optional_member(out, "tool_call_id", &m.tool_call_id);
    let ghost before_calls = out@;
    if m.tool_calls.len() > 0 {
        out.append(",\"tool_calls\":[");
        let ghost opened = out@;
        let mut k: usize = 0;
        while k < m.tool_calls.len()
            invariant
                k <= m.tool_calls.len(),
                out@ == opened + calls_json(m.tool_calls@, k as nat),
            decreases m.tool_calls.len() - k,
        {
            if k > 0 {
                out.append(",");
            }
            push_call(out, &m.tool_calls[k]);
            k = k + 1;
        }
        out.append("]");
    }
    out.append("}");
    assert(out@ =~= start + message_json(*m));
}

fn push_tool(out: &mut String, tool: &ModelToolDefinition)
    ensures
        final(out)@ == old(out)@ + tool_json(*tool),
{
    out.append("{\"function\":{\"description\":");
    push_json_string(out, tool.description.as_str());
    out.append(",\"name\":");
    push_json_string(out, tool.name.as_str());
    out.append(",\"parameters\":");
    out.append(tool.input_schema_json.as_str());
    out.append("},\"type\":\"function\"}");
}

fn push_messages(out: &mut String, messages: &Vec<ModelMessage>)
    ensures
        final(out)@ == old(out)@ + messages_json(messages@, messages@.len()),
{
    let ghost opened = out@;
    let mut k: usize = 0;
    while k < messages.len()
        invariant
            k <= messages.len(),
            out@ == opened + messages_json(messages@, k as nat),
        decreases messages.len() - k,
    {
        let ghost before = out@;
        if k > 0 {
            out.append(",");
        }
        push_message(out, &messages[k]);
        assert(out@ =~= opened + messages_json(messages@, (k + 1) as nat));
        k = k + 1;
    }
}

fn push_tools(out: &mut String, tools: &Vec<ModelToolDefinition>)
    ensures
        final(out)@ == old(out)@ + tools_json(tools@, tools@.len()),
{
    let ghost opened = out@;
    let mut t: usize = 0;
    while t < tools.len()
        invariant
            t <= tools.len(),
            out@ == opened + tools_json(tools@, t as nat),
        decreases tools.len() - t,
    {
        if t > 0 {
            out.append(",");
        }
        push_tool(out, &tools[t]);
        assert(out@ =~= opened + tools_json(tools@, (t + 1) as nat));
        t = t + 1;
    }
}

/// Renders an OpenAI-compatible chat payload for `model` from a canonical request. Provider
/// identity, credentials and routing are not part of the request; the caller names the model.
#[verifier::spinoff_prover]
#[verifier::rlimit(40)]
pub fn openai_chat_payload(request: &ModelExecutionRequest, model: &str) -> (r: Result<String, OpenAiCompatibleError>)
    ensures
        match chat_payload(*request, model@) {
            Ok(text) => r matches Ok(payload) && payload@ == text,
            Err(e) => r matches Err(x) && x@ == e,
        },
{
    let trimmed = trim_text(model);
    let (trimmed_length, _) = measure_text(trimmed.as_str());
    if trimmed_length == 0 {
        return Err(OpenAiCompatibleError::MissingModel);
    }
    let mut out = "{\"max_tokens\":".to_string();
    push_decimal(&mut out, request.limits.max_output_tokens);
    out.append(",\"messages\":[");
    push_messages(&mut out, &request.messages);
    out.append("],\"model\":");
    push_json_string(&mut out, model);
    match &request.response_schema_json {
        Some(schema) => {
            out.append(",\"response_format\":{\"json_schema\":{\"name\":\"concord_response\",\"schema\":");
            out.append(schema.as_str());
            out.append(",\"strict\":true},\"type\":\"json_schema\"}");
        },
        None => {},
    }
    if request.tools.len() > 0 {
        out.append(",\"tools\":[");
        push_tools(&mut out, &request.tools);
        out.append("]");
    }
    out.append("}");
    Ok(out)
}


/// One block of a canonical model response; a tool call's arguments are compact JSON text.
#[derive(Debug, Clone)]
pub enum ModelOutputBlock {
    Text { text: String },
    ToolCall { id: String, name: String, arguments_json: String },
}

/// A response block as plain values.
pub enum BlockView {
    Text { text: Seq<char> },
    ToolCall { id: Seq<char>, name: Seq<char>, arguments: Seq<char> },
}

impl View for ModelOutputBlock {
    type V = BlockView;

    open spec fn view(&self) -> BlockView {
        match self {
            ModelOutputBlock::Text { text } => BlockView::Text { text: text@ },
            ModelOutputBlock::ToolCall { id, name, arguments_json } => BlockView::ToolCall {
                id: id@,
                name: name@,
                arguments: arguments_json@,
            },
        }
    }
}

/// The token counts a provider reported, where it reported them.
#[derive(Clone, Copy, PartialEq, Eq, Debug, Structural)]
pub struct ModelUsage {
    pub input_tokens: Option<u64>,
    pub output_tokens: Option<u64>,
    pub total_tokens: Option<u64>,
}

/// A canonical model response.
#[derive(Debug, Clone)]
pub struct ModelExecutionResponse {
    pub contract: String,
    pub request_id: String,
    pub provider_id: String,
    pub model: String,
    pub output: Vec<ModelOutputBlock>,
    pub finish_reason: Option<String>,
    pub usage: ModelUsage,
}

/// A canonical model response as plain values.
pub struct ResponseView {
    pub contract: Seq<char>,
    pub request_id: Seq<char>,
    pub provider_id: Seq<char>,
    pub model: Seq<char>,
    pub output: Seq<BlockView>,
    pub finish_reason: Option<Seq<char>>,
    pub usage: ModelUsage,
}

impl View for ModelExecutionResponse {
    type V = ResponseView;

    open spec fn view(&self) -> ResponseView {
        ResponseView {
            contract: self.contract@,
            request_id: self.request_id@,
            provider_id: self.provider_id@,
            model: self.model@,
            output: self.output@.map_values(|b: ModelOutputBlock| b@),
            finish_reason: match self.finish_reason {
                Some(f) => Some(f@),
                None => None,
            },
            usage: self.usage,
        }
    }
}

/// What `serde_json` makes of a text: the compact JSON text of the value it parses, or the
/// message of the error that stops it.
pub uninterp spec fn json_reencoded(text: Seq<char>) -> Result<Seq<char>, Seq<char>>;

/// `serde_json::from_str::<serde_json::Value>` of the text; a parsed value is written back with
/// `serde_json::Value`'s `to_string` (compact), an error as its `Display` message. The contract
/// names that result; nothing more is claimed of it.
#[verifier::external_body]
pub(crate) fn reencode_json(text: &str) -> (r: Result<String, String>)
    ensures
        match r {
            Ok(s) => json_reencoded(text@) == Ok::<Seq<char>, Seq<char>>(s@),
            Err(m) => json_reencoded(text@) == Err::<Seq<char>, Seq<char>>(m@),
        },
{
    match serde_json::from_str::<serde_json::Value>(text) {
        Ok(value) => Ok(value.to_string()),
        Err(error) => Err(error.to_string()),
    }
}

/// A borrowed optional value as a value.
pub open spec fn opt(o: Option<&JsonValue>) -> Option<JsonValue> {
    match o {
        Some(v) => Some(*v),
        None => None,
    }
}

/// The first choice's message: `/choices/0/message`.
pub open spec fn message_of(payload: JsonValue) -> Option<JsonValue> {
    member_of(first_of(member(payload, "choices"@)), "message"@)
}

/// The texts of the first `n` content parts that have one.
pub open spec fn part_texts(parts: Seq<JsonValue>, n: nat) -> Seq<BlockView>
    decreases n,
{
    if n == 0 || n > parts.len() {
        Seq::empty()
    } else {
        let earlier = part_texts(parts, (n - 1) as nat);
        match text_of(member(parts[n - 1], "text"@)) {
            Some(t) => earlier.push(BlockView::Text { text: t }),
            None => earlier,
        }
    }
}

/// The text blocks of a message: its content where that is a non-empty string, else the texts
/// of its content parts.
pub open spec fn content_blocks(message: JsonValue) -> Seq<BlockView> {
    match member(message, "content"@) {
        Some(JsonValue::Text(s)) => if s@.len() > 0 {
            seq![BlockView::Text { text: s@ }]
        } else {
            Seq::empty()
        },
        Some(JsonValue::Array(parts)) => part_texts(parts@, parts@.len()),
        _ => Seq::empty(),
    }
}

/// The raw argument text of a tool call: `/function/arguments`.
pub open spec fn raw_arguments(call: JsonValue) -> Option<Seq<char>> {
    text_of(member_of(member(call, "function"@), "arguments"@))
}

/// The block of one tool call, given what parsing its argument text gave.
pub open spec fn tool_block(call: JsonValue, parsed: Result<Seq<char>, Seq<char>>) -> Result<BlockView, AdapterErrorView> {
    match text_of(member(call, "id"@)) {
        None => Err(AdapterErrorView::MissingToolCallId),
        Some(id) => match text_of(member_of(member(call, "function"@), "name"@)) {
            None => Err(AdapterErrorView::MissingToolName),
            Some(name) => match raw_arguments(call) {
                None => Err(AdapterErrorView::MissingToolArguments),
                Some(_) => match parsed {
                    Err(detail) => Err(AdapterErrorView::MalformedToolArguments { id, detail }),
                    Ok(arguments) => Ok(BlockView::ToolCall { id, name, arguments }),
                },
            },
        },
    }
}

/// What parsing a tool call's argument text gives, where it has one.
pub open spec fn call_parse(call: JsonValue) -> Result<Seq<char>, Seq<char>> {
    match raw_arguments(call) {
        Some(raw) => json_reencoded(raw),
        None => Err(Seq::empty()),
    }
}

/// The blocks of the first `n` tool calls, or the first refusal among them.
pub open spec fn tool_blocks(calls: Seq<JsonValue>, n: nat) -> Result<Seq<BlockView>, AdapterErrorView>
    decreases n,
{
    if n == 0 || n > calls.len() {
        Ok(Seq::empty())
    } else {
        match tool_blocks(calls, (n - 1) as nat) {
            Err(e) => Err(e),
            Ok(earlier) => match tool_block(calls[n - 1], call_parse(calls[n - 1])) {
                Err(e) => Err(e),
                Ok(b) => Ok(earlier.push(b)),
            },
        }
    }
}

/// The canonical response a provider's chat payload normalizes to, or the refusal.
pub open spec fn normalized_response(
    request_id: Seq<char>,
    provider_id: Seq<char>,
    model: Seq<char>,
    payload: JsonValue,
) -> Result<ResponseView, AdapterErrorView> {
    match message_of(payload) {
        None => Err(AdapterErrorView::MissingMessage),
        Some(message) => {
            let calls = match member(message, "tool_calls"@) {
                Some(JsonValue::Array(items)) => tool_blocks(items@, items@.len()),
                _ => Ok(Seq::empty()),
            };
            match calls {
                Err(e) => Err(e),
                Ok(blocks) => Ok(
                    ResponseView {
                        contract: MODEL_RESPONSE_CONTRACT@,
                        request_id,
                        provider_id,
                        model,
                        output: content_blocks(message) + blocks,
                        finish_reason: text_of(member_of(first_of(member(payload, "choices"@)), "finish_reason"@)),
                        usage: ModelUsage {
                            input_tokens: unsigned_of(member_of(member(payload, "usage"@), "prompt_tokens"@)),
                            output_tokens: unsigned_of(member_of(member(payload, "usage"@), "completion_tokens"@)),
                            total_tokens: unsigned_of(member_of(member(payload, "usage"@), "total_tokens"@)),
                        },
                    },
                ),
            }
        },
    }
}

/// A normalized response reports the tokens the provider counted, each under its own name: the
/// prompt's tokens as input, the completion's as output, and the total as the total.
pub proof fn lemma_usage_reported_as_given(
    request_id: Seq<char>,
    provider_id: Seq<char>,
    model: Seq<char>,
    payload: JsonValue,
)
    requires
        normalized_response(request_id, provider_id, model, payload) is Ok,
    ensures
        ({
            let usage = normalized_response(request_id, provider_id, model, payload)->Ok_0.usage;
            &&& usage.input_tokens == unsigned_of(member_of(member(payload, "usage"@), "prompt_tokens"@))
            &&& usage.output_tokens == unsigned_of(member_of(member(payload, "usage"@), "completion_tokens"@))
            &&& usage.total_tokens == unsigned_of(member_of(member(payload, "usage"@), "total_tokens"@))
        }),
{
}

fn member_of_exec<'a>(o: Option<&'a JsonValue>, key: &str) -> (r: Option<&'a JsonValue>)
    ensures
        opt(r) == member_of(opt(o), key@),
{
    match o {
        Some(v) => member_exec(v, key),
        None => None,
    }
}

fn first_of_exec<'a>(o: Option<&'a JsonValue>) -> (r: Option<&'a JsonValue>)
    ensures
        opt(r) == first_of(opt(o)),
{
    match o {
        Some(JsonValue::Array(items)) => {
            if items.len() > 0 {
                Some(&items[0])
            } else {
                None
            }
        },
        Some(v) => member_exec(v, "0"),
        None => None,
    }
}

fn text_of_exec<'a>(o: Option<&'a JsonValue>) -> (r: Option<&'a String>)
    ensures
        match r {
            Some(s) => text_of(opt(o)) == Some(s@),
            None => text_of(opt(o)) is None,
        },
{
    match o {
        Some(JsonValue::Text(s)) => Some(s),
        _ => None,
    }
}

fn unsigned_of_exec(o: Option<&JsonValue>) -> (r: Option<u64>)
    ensures
        r == unsigned_of(opt(o)),
{
    match o {
        Some(JsonValue::Number(JsonNumber::PosInt(n))) => Some(*n),
        _ => None,
    }
}

/// The text blocks of a message.
fn push_content_blocks(output: &mut Vec<ModelOutputBlock>, message: &JsonValue)
    ensures
        final(output)@.map_values(|b: ModelOutputBlock| b@) == old(output)@.map_values(|b: ModelOutputBlock| b@)
            + content_blocks(*message),
{
    let ghost start = output@.map_values(|b: ModelOutputBlock| b@);
    match member_exec(message, "content") {
        Some(JsonValue::Text(s)) => {
            let (length, _) = measure_text(s.as_str());
            if length > 0 {
                output.push(ModelOutputBlock::Text { text: s.clone() });
            }
            assert(output@.map_values(|b: ModelOutputBlock| b@) =~= start + content_blocks(*message));
        },
        Some(JsonValue::Array(parts)) => {
            let mut k: usize = 0;
            while k < parts.len()
                invariant
                    k <= parts.len(),
                    output@.map_values(|b: ModelOutputBlock| b@) == start + part_texts(parts@, k as nat),
                decreases parts.len() - k,
            {
                let ghost before = output@;
                let part = &parts[k];
                assert(*part == parts@[k as int]);
                match text_of_exec(member_exec(part, "text")) {
                    Some(t) => {
                        output.push(ModelOutputBlock::Text { text: t.clone() });
                        assert(output@.map_values(|b: ModelOutputBlock| b@) =~= before.map_values(
                            |b: ModelOutputBlock| b@,
                        ).push(BlockView::Text { text: t@ }));
                    },
                    None => {},
                }
                assert(part_texts(parts@, (k + 1) as nat) == match text_of(member(parts@[k as int], "text"@)) {
                    Some(t) => part_texts(parts@, k as nat).push(BlockView::Text { text: t }),
                    None => part_texts(parts@, k as nat),
                });
                assert(output@.map_values(|b: ModelOutputBlock| b@) =~= start + part_texts(parts@, (k + 1) as nat));
                k = k + 1;
            }
        },
        _ => {
            assert(output@.map_values(|b: ModelOutputBlock| b@) =~= start + content_blocks(*message));
        },
    }
}

/// A parse result as plain values.
pub open spec fn parse_view(parsed: Result<String, String>) -> Result<Seq<char>, Seq<char>> {
    match parsed {
        Ok(s) => Ok(s@),
        Err(m) => Err(m@),
    }
}

/// The block of one tool call, given what parsing its argument text gave: the call must name an
/// identity, a function name and argument text, and the argument text must have parsed.
pub fn tool_call_block(call: &JsonValue, parsed: &Result<String, String>) -> (r: Result<
    ModelOutputBlock,
    OpenAiCompatibleError,
>)
    ensures
        match tool_block(*call, parse_view(*parsed)) {
            Ok(b) => r matches Ok(x) && x@ == b,
            Err(e) => r matches Err(x) && x@ == e,
        },
{
    let id = match text_of_exec(member_exec(call, "id")) {
        Some(id) => id,
        None => {
            return Err(OpenAiCompatibleError::MissingToolCallId);
        },
    };
    let function = member_exec(call, "function");
    let name = match text_of_exec(member_of_exec(function, "name")) {
        Some(name) => name,
        None => {
            return Err(OpenAiCompatibleError::MissingToolName);
        },
    };
    match text_of_exec(member_of_exec(function, "arguments")) {
        Some(_) => {},
        None => {
            return Err(OpenAiCompatibleError::MissingToolArguments);
        },
    }
    match parsed {
        Ok(arguments) => Ok(
            ModelOutputBlock::ToolCall { id: id.clone(), name: name.clone(), arguments_json: arguments.clone() },
        ),
        Err(detail) => Err(OpenAiCompatibleError::MalformedToolArguments { id: id.clone(), detail: detail.clone() }),
    }
}

/// Once the tool calls are refused, more of them are refused the same way.
proof fn lemma_tool_blocks_stay_failed(calls: Seq<JsonValue>, m: nat, n: nat, e: AdapterErrorView)
    requires
        0 < m <= n <= calls.len(),
        tool_blocks(calls, m) == Err::<Seq<BlockView>, AdapterErrorView>(e),
    ensures
        tool_blocks(calls, n) == Err::<Seq<BlockView>, AdapterErrorView>(e),
    decreases n,
{
    if m < n {
        lemma_tool_blocks_stay_failed(calls, m, (n - 1) as nat, e);
    }
}

/// Normalizes an OpenAI-compatible chat response into the canonical response contract.
#[verifier::loop_isolation(false)]
pub fn normalize_openai_chat_response(request_id: &str, provider_id: &str, model: &str, payload: &JsonValue) -> (r: Result<
    ModelExecutionResponse,
    OpenAiCompatibleError,
>)
    ensures
        match normalized_response(request_id@, provider_id@, model@, *payload) {
            Ok(v) => r matches Ok(x) && x@ == v,
            Err(e) => r matches Err(x) && x@ == e,
        },
        r matches Ok(x) ==> {
            &&& x@.usage.input_tokens == unsigned_of(member_of(member(*payload, "usage"@), "prompt_tokens"@))
            &&& x@.usage.output_tokens == unsigned_of(member_of(member(*payload, "usage"@), "completion_tokens"@))
            &&& x@.usage.total_tokens == unsigned_of(member_of(member(*payload, "usage"@), "total_tokens"@))
        },
{
    proof {
        if normalized_response(request_id@, provider_id@, model@, *payload) is Ok {
            lemma_usage_reported_as_given(request_id@, provider_id@, model@, *payload);
        }
    }
    let choice = first_of_exec(member_exec(payload, "choices"));
    let message = match member_of_exec(choice, "message") {
        Some(message) => message,
        None => {
            return Err(OpenAiCompatibleError::MissingMessage);
        },
    };
    let mut output: Vec<ModelOutputBlock> = Vec::new();
    push_content_blocks(&mut output, message);
    let ghost texts = output@.map_values(|b: ModelOutputBlock| b@);
    assert(texts =~= content_blocks(*message));
    match member_exec(message, "tool_calls") {
        Some(JsonValue::Array(items)) => {
            let mut k: usize = 0;
            while k < items.len()
                invariant
                    k <= items.len(),
                    tool_blocks(items@, k as nat) matches Ok(blocks) && output@.map_values(
                        |b: ModelOutputBlock| b@,
                    ) == texts + blocks,
                decreases items.len() - k,
            {
                let call = &items[k];
                assert(*call == items@[k as int]);
                let raw = text_of_exec(member_of_exec(member_exec(call, "function"), "arguments"));
                let parsed = match raw {
                    Some(raw) => reencode_json(raw.as_str()),
                    None => Err(String::new()),
                };
                assert(parse_view(parsed) == call_parse(items@[k as int]));
                let ghost before = output@;
                match tool_call_block(call, &parsed) {
                    Ok(block) => {
                        output.push(block);
                        assert(output@.map_values(|b: ModelOutputBlock| b@) =~= before.map_values(
                            |b: ModelOutputBlock| b@,
                        ).push(block@));
                    },
                    Err(e) => {
                        proof {
                            lemma_tool_blocks_stay_failed(items@, (k + 1) as nat, items@.len(), e@);
                        }
                        return Err(e);
                    },
                }
                k = k + 1;
            }
        },
        _ => {},
    }
    let finish_reason = match text_of_exec(member_of_exec(choice, "finish_reason")) {
        Some(f) => Some(f.clone()),
        None => None,
    };
    let usage = member_exec(payload, "usage");
    let response = ModelExecutionResponse {
        contract: MODEL_RESPONSE_CONTRACT.to_string(),
        request_id: request_id.to_string(),
        provider_id: provider_id.to_string(),
        model: model.to_string(),
        output,
        finish_reason,
        usage: ModelUsage {
            input_tokens: unsigned_of_exec(member_of_exec(usage, "prompt_tokens")),
            output_tokens: unsigned_of_exec(member_of_exec(usage, "completion_tokens")),
            total_tokens: unsigned_of_exec(member_of_exec(usage, "total_tokens")),
        },
    };
    Ok(response)
}


/// What an adapter refusal says.
pub open spec fn adapter_error_message(e: AdapterErrorView) -> Seq<char> {
    match e {
        AdapterErrorView::MissingModel => "model is required"@,
        AdapterErrorView::MissingMessage => "compatible response is missing choices[0].message"@,
        AdapterErrorView::MissingToolCallId => "tool call is missing id"@,
        AdapterErrorView::MissingToolName => "tool call is missing function name"@,
        AdapterErrorView::MissingToolArguments => "tool call is missing function arguments"@,
        AdapterErrorView::MalformedToolArguments { id, detail } => "tool call "@ + id
            + " contains malformed JSON arguments: "@ + detail,
    }
}

impl OpenAiCompatibleError {
    /// What the refusal says.
    pub fn message(&self) -> (r: String)
        ensures
            r@ == adapter_error_message(self@),
    {
        match self {
            OpenAiCompatibleError::MissingModel => "model is required".to_string(),
            OpenAiCompatibleError::MissingMessage => "compatible response is missing choices[0].message".to_string(),
            OpenAiCompatibleError::MissingToolCallId => "tool call is missing id".to_string(),
            OpenAiCompatibleError::MissingToolName => "tool call is missing function name".to_string(),
            OpenAiCompatibleError::MissingToolArguments => "tool call is missing function arguments".to_string(),
            OpenAiCompatibleError::MalformedToolArguments { id, detail } => {
                let mut out = "tool call ".to_string();
                out.append(id.as_str());
                out.append(" contains malformed JSON arguments: ");
                out.append(detail.as_str());
                out
            },
        }
    }
}

} // verus!
