//! Tests of the built-in tools.

use agent_core::builtin::{
    http_definition, http_request_plan, http_response_output, memory_read_execute,
    memory_search_definition, memory_search_execute, memory_write_definition,
    memory_write_execute,
};
use agent_core::document::DocType;
use agent_core::json::JsonValue;
use agent_core::workspace::Workspace;

fn obj(entries: Vec<(&str, JsonValue)>) -> JsonValue {
    JsonValue::Obj(
        entries
            .into_iter()
            .map(|(k, v)| (k.to_string(), v))
            .collect(),
    )
}

#[test]
fn test_memory_search_schema() {
    let tool = memory_search_definition();
    assert_eq!(tool.name, "memory_search");
    assert!(!tool.requires_sanitization);

    let schema = tool.parameters_schema;
    assert!(schema.get("properties").unwrap().get("query").unwrap().is_object());
    match schema.get("required").unwrap() {
        JsonValue::Arr(items) => {
            assert!(matches!(&items[0], JsonValue::Str(s) if s == "query"));
        }
        other => panic!("expected a required list, got {other:?}"),
    }
}

#[test]
fn test_memory_write_schema() {
    let tool = memory_write_definition();
    assert_eq!(tool.name, "memory_write");

    let schema = tool.parameters_schema;
    assert!(schema.get("properties").unwrap().get("content").unwrap().is_object());
    match schema
        .get("properties")
        .unwrap()
        .get("target")
        .unwrap()
        .get("enum")
        .unwrap()
    {
        JsonValue::Arr(items) => {
            assert!(items
                .iter()
                .any(|v| matches!(v, JsonValue::Str(s) if s == "memory")));
        }
        other => panic!("expected an enum list, got {other:?}"),
    }
}

#[test]
fn test_memory_write_and_search_round_trip() {
    let mut ws = Workspace::new("u".to_string());
    let params = obj(vec![
        ("content", JsonValue::Str("remember the meeting".to_string())),
        ("target", JsonValue::Str("memory".to_string())),
    ]);
    let out = memory_write_execute(&mut ws, &params).unwrap();
    assert!(out.success);

    let search = memory_search_execute(
        &ws,
        &obj(vec![("query", JsonValue::Str("meeting".to_string()))]),
    )
    .unwrap();
    assert!(search.success);
    match search.result.get("result_count").unwrap() {
        JsonValue::Int(n) => assert_eq!(*n, 1),
        other => panic!("expected a count, got {other:?}"),
    }
}

#[test]
fn test_memory_write_rejects_blank_content() {
    let mut ws = Workspace::new("u".to_string());
    let blank = obj(vec![("content", JsonValue::Str("   ".to_string()))]);
    assert!(memory_write_execute(&mut ws, &blank).is_err());

    let missing = obj(vec![]);
    assert!(memory_write_execute(&mut ws, &missing).is_err());

    let bad_target = obj(vec![
        ("content", JsonValue::Str("x".to_string())),
        ("target", JsonValue::Str("elsewhere".to_string())),
    ]);
    assert!(memory_write_execute(&mut ws, &bad_target).is_err());
}

#[test]
fn test_memory_read_finds_documents() {
    let mut ws = Workspace::new("u".to_string());
    ws.update_document(DocType::Soul, None, "stay kind").unwrap();

    let out = memory_read_execute(
        &ws,
        &obj(vec![("doc_type", JsonValue::Str("soul".to_string()))]),
    )
    .unwrap();
    match out.result.get("content").unwrap() {
        JsonValue::Str(s) => assert_eq!(s, "stay kind"),
        other => panic!("expected content, got {other:?}"),
    }

    let missing = memory_read_execute(
        &ws,
        &obj(vec![("doc_type", JsonValue::Str("heartbeat".to_string()))]),
    );
    assert!(missing.is_err());

    let invalid = memory_read_execute(
        &ws,
        &obj(vec![("doc_type", JsonValue::Str("nonsense".to_string()))]),
    );
    assert!(invalid.is_err());
}

#[test]
fn test_http_plan_decisions() {
    let ok = http_request_plan(&obj(vec![
        ("method", JsonValue::Str("post".to_string())),
        ("url", JsonValue::Str("http://example.com".to_string())),
    ]));
    assert!(ok.is_err(), "method names are upper case");

    let plan = http_request_plan(&obj(vec![
        ("method", JsonValue::Str("POST".to_string())),
        ("url", JsonValue::Str("http://example.com".to_string())),
        (
            "headers",
            obj(vec![("x-token", JsonValue::Str("t".to_string()))]),
        ),
        ("timeout_secs", JsonValue::Int(9)),
    ]))
    .unwrap();
    assert_eq!(plan.method, "POST");
    assert_eq!(plan.url, "http://example.com");
    assert_eq!(plan.headers.len(), 1);
    assert_eq!(plan.timeout_secs, 9);

    let missing_url = http_request_plan(&obj(vec![(
        "method",
        JsonValue::Str("GET".to_string()),
    )]));
    assert!(missing_url.is_err());
}

#[test]
fn test_http_definition_gates_approval() {
    let tool = http_definition();
    assert!(tool.requires_approval);
    assert!(tool.requires_sanitization);
}

#[test]
fn test_http_response_output_shapes() {
    let out = http_response_output(
        200,
        vec![("content-type".to_string(), "text/plain".to_string())],
        None,
        "hello".to_string(),
    );
    assert!(out.success);
    assert_eq!(out.raw.unwrap(), "hello");
    match out.result.get("status").unwrap() {
        JsonValue::Int(n) => assert_eq!(*n, 200),
        other => panic!("expected a status, got {other:?}"),
    }
}
