use concord::openai_compatible::{
    normalize_openai_chat_response, openai_chat_payload, JsonMember, JsonNumber, JsonValue,
    ModelExecutionLimits, ModelExecutionRequest, ModelMessage, ModelMessageToolCall, ModelOutputBlock,
    ModelRole, ModelToolDefinition, OpenAiCompatibleError, MODEL_RESPONSE_CONTRACT,
};
use serde_json::Value;

fn tree(value: &Value) -> JsonValue {
    match value {
        Value::Null => JsonValue::Null,
        Value::Bool(b) => JsonValue::Bool(*b),
        Value::Number(n) => JsonValue::Number(if let Some(u) = n.as_u64() {
            JsonNumber::PosInt(u)
        } else if let Some(i) = n.as_i64() {
            JsonNumber::NegInt(i)
        } else {
            JsonNumber::Float(n.to_string())
        }),
        Value::String(s) => JsonValue::Text(s.clone()),
        Value::Array(items) => JsonValue::Array(items.iter().map(tree).collect()),
        Value::Object(members) => JsonValue::Object(
            members
                .iter()
                .map(|(key, value)| JsonMember { key: key.clone(), value: tree(value) })
                .collect(),
        ),
    }
}

fn parse(text: &str) -> Value {
    serde_json::from_str(text).unwrap()
}

fn request() -> ModelExecutionRequest {
    ModelExecutionRequest {
        contract: "concord.model-request/1".to_owned(),
        request_id: "request-1".to_owned(),
        campaign_id: "campaign-1".to_owned(),
        task_class: "scientific_synthesis".to_owned(),
        messages: vec![ModelMessage {
            role: ModelRole::User,
            content: "Compare the two recorded observations.".to_owned(),
            name: None,
            tool_call_id: None,
            tool_calls: vec![],
        }],
        tools: vec![ModelToolDefinition {
            name: "read_campaign_object".to_owned(),
            description: "Read one typed campaign object by identity.".to_owned(),
            input_schema_json: "{\"type\":\"object\"}".to_owned(),
        }],
        response_schema_json: None,
        context_refs: vec!["object:observation-1@sha256:abc".to_owned()],
        context_receipt_sha256: None,
        required_capabilities: vec!["text".to_owned(), "tool_calling".to_owned()],
        limits: ModelExecutionLimits {
            max_output_tokens: 1024,
            max_tool_calls: 4,
            max_elapsed_seconds: 120,
            max_cost_microusd: Some(1_000_000),
        },
    }
}

#[test]
fn provider_identity_stays_outside_the_canonical_request() {
    let request = request();
    let remote_payload = parse(&openai_chat_payload(&request, "remote-model").unwrap());
    let local_payload = parse(&openai_chat_payload(&request, "local-model").unwrap());
    assert_eq!(remote_payload.get("messages"), local_payload.get("messages"));
    assert_eq!(remote_payload.get("tools"), local_payload.get("tools"));
    assert_ne!(remote_payload.get("model"), local_payload.get("model"));
}

#[test]
fn native_tool_history_renders_as_assistant_and_tool_messages() {
    let mut request = request();
    request.messages.extend([
        ModelMessage {
            role: ModelRole::Assistant,
            content: String::new(),
            name: None,
            tool_call_id: None,
            tool_calls: vec![ModelMessageToolCall {
                id: "call-1".to_owned(),
                name: "read_campaign_object".to_owned(),
                arguments_json: "{\"objectId\":\"observation-1\"}".to_owned(),
            }],
        },
        ModelMessage {
            role: ModelRole::Tool,
            content: "{}".to_owned(),
            name: Some("read_campaign_object".to_owned()),
            tool_call_id: Some("call-1".to_owned()),
            tool_calls: vec![],
        },
    ]);
    let payload = parse(&openai_chat_payload(&request, "example").unwrap());
    assert_eq!(payload.pointer("/messages/1/role").and_then(Value::as_str), Some("assistant"));
    assert_eq!(payload.pointer("/messages/2/role").and_then(Value::as_str), Some("tool"));
}

#[test]
fn compatible_response_normalizes_text_tools_and_usage() {
    let payload = parse(
        r#"{
            "choices": [{
                "message": {
                    "content": "I need the recorded object.",
                    "tool_calls": [{
                        "id": "call-1",
                        "function": {
                            "name": "read_campaign_object",
                            "arguments": "{\"objectId\":\"observation-1\"}"
                        }
                    }]
                },
                "finish_reason": "tool_calls"
            }],
            "usage": {"prompt_tokens": 12, "completion_tokens": 8, "total_tokens": 20}
        }"#,
    );
    let response =
        normalize_openai_chat_response("request-1", "remote", "example", &tree(&payload)).unwrap();
    assert_eq!(response.contract, MODEL_RESPONSE_CONTRACT);
    assert_eq!(response.output.len(), 2);
}

#[test]
fn malformed_tool_arguments_fail_closed() {
    let payload = parse(
        r#"{"choices": [{"message": {"tool_calls": [{
            "id": "call-1",
            "function": {"name": "read_campaign_object", "arguments": "not-json"}
        }]}}]}"#,
    );
    assert!(normalize_openai_chat_response("request-1", "remote", "example", &tree(&payload))
        .unwrap_err()
        .message()
        .contains("malformed JSON"));
}

#[test]
fn chat_payload_is_compact_json_in_key_order() {
    let mut request = request();
    request.response_schema_json = Some("{\"type\":\"object\"}".to_owned());
    let payload = openai_chat_payload(&request, "example").unwrap();
    assert_eq!(
        payload,
        "{\"max_tokens\":1024,\"messages\":[{\"content\":\"Compare the two recorded observations.\",\"role\":\"user\"}],\"model\":\"example\",\"response_format\":{\"json_schema\":{\"name\":\"concord_response\",\"schema\":{\"type\":\"object\"},\"strict\":true},\"type\":\"json_schema\"},\"tools\":[{\"function\":{\"description\":\"Read one typed campaign object by identity.\",\"name\":\"read_campaign_object\",\"parameters\":{\"type\":\"object\"}},\"type\":\"function\"}]}"
    );
    let reparsed = parse(&payload);
    assert_eq!(serde_json::to_string(&reparsed).unwrap(), payload);
}

#[test]
fn blank_model_is_refused() {
    assert!(matches!(
        openai_chat_payload(&request(), "   "),
        Err(OpenAiCompatibleError::MissingModel)
    ));
}

#[test]
fn response_normalization_reads_parts_and_refuses_incomplete_calls() {
    let payload = parse(
        r#"{"choices": [{"message": {"content": [{"text": "first"}, {"kind": "image"}, {"text": "second"}],
            "tool_calls": [{"id": "call-1", "function": {"name": "f", "arguments": "{ \"b\" : 1, \"a\" : [true] }"}}]},
            "finish_reason": "stop"}]}"#,
    );
    let response = normalize_openai_chat_response("r", "p", "m", &tree(&payload)).unwrap();
    assert_eq!(response.output.len(), 3);
    match &response.output[2] {
        ModelOutputBlock::ToolCall { id, name, arguments_json } => {
            assert_eq!(id, "call-1");
            assert_eq!(name, "f");
            assert_eq!(arguments_json, "{\"a\":[true],\"b\":1}");
        }
        other => panic!("expected a tool call, got {other:?}"),
    }
    assert_eq!(response.finish_reason.as_deref(), Some("stop"));
    assert_eq!(response.usage.total_tokens, None);

    let missing = |text: &str| normalize_openai_chat_response("r", "p", "m", &tree(&parse(text))).unwrap_err();
    assert!(matches!(missing(r#"{"choices": []}"#), OpenAiCompatibleError::MissingMessage));
    assert!(matches!(
        missing(r#"{"choices": [{"message": {"tool_calls": [{"function": {}}]}}]}"#),
        OpenAiCompatibleError::MissingToolCallId
    ));
    assert!(matches!(
        missing(r#"{"choices": [{"message": {"tool_calls": [{"id": "c", "function": {}}]}}]}"#),
        OpenAiCompatibleError::MissingToolName
    ));
    assert!(matches!(
        missing(r#"{"choices": [{"message": {"tool_calls": [{"id": "c", "function": {"name": "f"}}]}}]}"#),
        OpenAiCompatibleError::MissingToolArguments
    ));
}
