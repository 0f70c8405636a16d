//! Tests of the MCP protocol surface, document types, and the reasoning
//! driver's pure core.

use agent_core::agent::{ChatMessage, Role};
use agent_core::document::DocType;
use agent_core::json::JsonValue;
use agent_core::mcp::{
    call_result_from_json, response_from_json, tools_list_from_json, CallToolResult,
    ContentBlock, McpRequest, McpTool, McpToolAnnotations,
};
use agent_core::reasoning::{extract_json, Reasoning, ReasoningContext};

#[test]
fn test_mcp_request_list_tools() {
    let req = McpRequest::list_tools(1);
    assert_eq!(req.method, "tools/list");
    assert_eq!(req.id, 1);
}

#[test]
fn test_mcp_request_call_tool() {
    let req = McpRequest::call_tool(
        2,
        "test",
        JsonValue::Obj(vec![("key".to_string(), JsonValue::Str("value".to_string()))]),
    );
    assert_eq!(req.method, "tools/call");
    assert!(req.params.is_some());
}

#[test]
fn test_destructive_hint_requires_approval() {
    let annotated = McpTool {
        name: "wipe".to_string(),
        description: "remove everything".to_string(),
        input_schema: JsonValue::Obj(vec![]),
        annotations: Some(McpToolAnnotations {
            destructive_hint: true,
            side_effects_hint: false,
            read_only_hint: false,
            execution_time_hint: None,
        }),
    };
    assert!(annotated.requires_approval());
    let def = annotated.to_tool_definition();
    assert!(def.requires_approval);
    assert!(def.requires_sanitization);

    let plain = McpTool {
        name: "peek".to_string(),
        description: "read something".to_string(),
        input_schema: JsonValue::Obj(vec![]),
        annotations: None,
    };
    assert!(!plain.requires_approval());
    assert!(!plain.to_tool_definition().requires_approval);
}

#[test]
fn test_content_blocks_join_as_text() {
    let result = CallToolResult {
        content: vec![
            ContentBlock::Text {
                text: "line one".to_string(),
            },
            ContentBlock::Image {
                data: "AAAA".to_string(),
                mime_type: "image/png".to_string(),
            },
            ContentBlock::Text {
                text: "line two".to_string(),
            },
        ],
        is_error: false,
    };
    assert_eq!(result.content[0].as_text(), Some("line one"));
    assert_eq!(result.content[1].as_text(), None);
    let output = result.into_output(5).unwrap();
    assert_eq!(output.raw.unwrap(), "line one\nline two");
}

#[test]
fn test_error_result_fails_the_call() {
    let result = CallToolResult {
        content: vec![ContentBlock::Text {
            text: "boom".to_string(),
        }],
        is_error: true,
    };
    assert!(result.into_output(5).is_err());
}

#[test]
fn test_extract_json() {
    let text = "Here's the plan:\n{\"goal\": \"test\", \"actions\": []}\nThat's my plan.";

    let json = extract_json(text).unwrap();
    assert!(json.starts_with('{'));
    assert!(json.ends_with('}'));
}

#[test]
fn test_extract_json_rejects_prose() {
    assert!(extract_json("no braces here").is_none());
    assert!(extract_json("} reversed {").is_none());
}

#[test]
fn test_reasoning_context_builder() {
    let context = ReasoningContext::new()
        .with_message(ChatMessage {
            role: Role::User,
            content: "Hello".to_string(),
            timestamp: 0,
        })
        .with_job("Test job".to_string());

    assert_eq!(context.messages.len(), 1);
    assert!(context.job_description.is_some());
}

#[test]
fn test_planning_prompt_lists_tools() {
    let reasoning = Reasoning::new("local-model".to_string());
    let empty = ReasoningContext::new();
    let prompt = reasoning.build_planning_prompt(&empty);
    assert!(prompt.contains("No tools available."));

    let context = ReasoningContext::new().with_tools(vec![
        agent_core::tools::ToolDefinition {
            name: "http".to_string(),
            description: "make requests".to_string(),
            parameters_schema: JsonValue::Obj(vec![]),
            requires_approval: true,
            requires_sanitization: true,
            estimated_duration_ms: Some(5000),
            source: agent_core::tools::ToolSource::Builtin,
        },
    ]);
    let prompt = reasoning.build_planning_prompt(&context);
    assert!(prompt.contains("- http: make requests"));
}

#[test]
fn test_doc_type_roundtrip() {
    for doc_type in [
        DocType::Memory,
        DocType::DailyLog,
        DocType::Identity,
        DocType::Soul,
        DocType::Agents,
        DocType::User,
        DocType::Heartbeat,
    ] {
        let s = doc_type.as_str();
        let parsed = DocType::try_from(s).unwrap();
        assert_eq!(parsed, doc_type);
    }
}

#[test]
fn test_singleton_types() {
    assert!(DocType::Memory.is_singleton());
    assert!(DocType::Heartbeat.is_singleton());
    assert!(!DocType::DailyLog.is_singleton());
}

#[test]
fn test_identity_documents() {
    assert!(DocType::Soul.is_identity_document());
    assert!(DocType::Agents.is_identity_document());
    assert!(!DocType::Memory.is_identity_document());
    assert!(!DocType::DailyLog.is_identity_document());
}

#[test]
fn test_doc_type_display() {
    assert_eq!(DocType::Memory.as_str(), "memory");
    assert_eq!(DocType::DailyLog.as_str(), "daily_log");
    assert_eq!(DocType::Heartbeat.as_str(), "heartbeat");
}

#[test]
fn test_doc_type_parse() {
    assert_eq!(DocType::try_from("memory").unwrap(), DocType::Memory);
    assert_eq!(DocType::try_from("daily_log").unwrap(), DocType::DailyLog);
    assert!(DocType::try_from("invalid").is_err());
}

#[test]
fn test_json_text_rendering() {
    let value = JsonValue::Obj(vec![
        ("name".to_string(), JsonValue::Str("a \"b\"".to_string())),
        ("count".to_string(), JsonValue::Int(-3)),
        (
            "items".to_string(),
            JsonValue::Arr(vec![JsonValue::Bool(true), JsonValue::Null]),
        ),
    ]);
    assert_eq!(
        value.to_text(),
        "{\"name\":\"a \\\"b\\\"\",\"count\":-3,\"items\":[true,null]}"
    );
}

#[test]
fn test_tools_list_parsing() {
    let listing = JsonValue::Obj(vec![(
        "tools".to_string(),
        JsonValue::Arr(vec![JsonValue::Obj(vec![
            ("name".to_string(), JsonValue::Str("wipe".to_string())),
            (
                "description".to_string(),
                JsonValue::Str("remove everything".to_string()),
            ),
            ("input_schema".to_string(), JsonValue::Obj(vec![])),
            (
                "annotations".to_string(),
                JsonValue::Obj(vec![(
                    "destructive_hint".to_string(),
                    JsonValue::Bool(true),
                )]),
            ),
        ])]),
    )]);
    let tools = tools_list_from_json(&listing).unwrap();
    assert_eq!(tools.len(), 1);
    assert_eq!(tools[0].name, "wipe");
    // A destructive listing maps straight to an approval-gated definition.
    assert!(tools[0].to_tool_definition().requires_approval);

    let broken = JsonValue::Obj(vec![(
        "tools".to_string(),
        JsonValue::Arr(vec![JsonValue::Obj(vec![(
            "name".to_string(),
            JsonValue::Str("incomplete".to_string()),
        )])]),
    )]);
    assert!(tools_list_from_json(&broken).is_err());
}

#[test]
fn test_response_envelope_parsing() {
    let ok = JsonValue::Obj(vec![
        ("jsonrpc".to_string(), JsonValue::Str("2.0".to_string())),
        ("id".to_string(), JsonValue::Int(7)),
        ("result".to_string(), JsonValue::Obj(vec![])),
    ]);
    let resp = response_from_json(&ok).unwrap();
    assert_eq!(resp.id, 7);
    assert!(resp.result.is_some());
    assert!(resp.error.is_none());

    let failed = JsonValue::Obj(vec![
        ("jsonrpc".to_string(), JsonValue::Str("2.0".to_string())),
        ("id".to_string(), JsonValue::Int(8)),
        (
            "error".to_string(),
            JsonValue::Obj(vec![
                ("code".to_string(), JsonValue::Int(-32601)),
                (
                    "message".to_string(),
                    JsonValue::Str("method not found".to_string()),
                ),
            ]),
        ),
    ]);
    let resp = response_from_json(&failed).unwrap();
    let err = resp.error.unwrap();
    assert_eq!(err.code, -32601);
    assert_eq!(err.message, "method not found");
}

#[test]
fn test_call_result_parsing() {
    let wire = JsonValue::Obj(vec![
        (
            "content".to_string(),
            JsonValue::Arr(vec![JsonValue::Obj(vec![
                ("type".to_string(), JsonValue::Str("text".to_string())),
                ("text".to_string(), JsonValue::Str("done".to_string())),
            ])]),
        ),
        ("is_error".to_string(), JsonValue::Bool(false)),
    ]);
    let result = call_result_from_json(&wire).unwrap();
    assert!(!result.is_error);
    assert_eq!(result.content.len(), 1);
    assert_eq!(result.content[0].as_text(), Some("done"));
}
