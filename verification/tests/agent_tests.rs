//! Tests of the agent loop: approval gating, interruption, undo and redo.

use agent_core::agent::{AgentLoop, TurnOutcome, TurnState};
use agent_core::json::JsonValue;
use agent_core::overlay::{ApprovalOverlay, ApprovalRequest, ApprovalSelection};
use agent_core::submission::{Submission, SubmissionResult};
use agent_core::tools::{
    DispatchDecision, SessionState, ToolDefinition, ToolRegistry, ToolSource,
};

fn deploy_tool() -> ToolDefinition {
    ToolDefinition {
        name: "deploy".to_string(),
        description: "Deploy the service".to_string(),
        parameters_schema: JsonValue::Obj(vec![]),
        requires_approval: true,
        requires_sanitization: false,
        estimated_duration_ms: None,
        source: ToolSource::Builtin,
    }
}

#[test]
fn test_submission_types() {
    let input = Submission::user_input("Hello".to_string());
    assert!(input.starts_turn());
    assert!(!input.is_control());

    let undo = Submission::undo();
    assert!(!undo.starts_turn());
    assert!(undo.is_control());
}

#[test]
fn test_approval_selection_cycle() {
    let sel = ApprovalSelection::Yes;
    assert_eq!(sel.next(), ApprovalSelection::No);
    assert_eq!(sel.next().next(), ApprovalSelection::Always);
    assert_eq!(sel.next().next().next(), ApprovalSelection::Yes);
}

#[test]
fn test_approval_shortcuts() {
    let request = ApprovalRequest::new(
        0,
        "test".to_string(),
        "Test operation".to_string(),
        JsonValue::Obj(vec![]),
    );
    let mut overlay = ApprovalOverlay::new(request);

    assert_eq!(overlay.handle_shortcut('y'), Some(true));
    assert_eq!(overlay.handle_shortcut('n'), Some(false));
    assert_eq!(overlay.handle_shortcut('x'), None);
}

#[test]
fn test_approval_gate_denial() {
    let mut registry = ToolRegistry::new();
    registry.register(deploy_tool());
    let mut session = SessionState::new();
    let mut agent = AgentLoop::new();

    agent.submit_user_input("please deploy".to_string());
    assert_eq!(agent.state(), TurnState::Reasoning);

    let decision = agent.request_tool(
        &registry,
        &mut session,
        "deploy",
        JsonValue::Obj(vec![]),
    );
    let request_id = match decision {
        DispatchDecision::NeedApproval { request } => request.id,
        other => panic!("expected an approval request, got {other:?}"),
    };
    assert_eq!(agent.state(), TurnState::AwaitingApproval);

    // Denial resolves the tool call without running it; the loop resumes
    // reasoning with a denial recorded as the tool's result.
    let (result, to_run) = agent.submit_approval(&mut session, request_id, false, false);
    assert!(matches!(result, SubmissionResult::Okay { .. }));
    assert!(to_run.is_none());
    assert_eq!(agent.state(), TurnState::Reasoning);
    let contents = agent.thread_contents();
    assert!(contents.last().unwrap().contains("denied"));
    assert!(contents.last().unwrap().contains("deploy"));
}

#[test]
fn test_always_approve_persists_in_session() {
    let mut registry = ToolRegistry::new();
    registry.register(deploy_tool());
    let mut session = SessionState::new();
    let mut agent = AgentLoop::new();

    agent.submit_user_input("deploy now".to_string());
    let decision = agent.request_tool(
        &registry,
        &mut session,
        "deploy",
        JsonValue::Obj(vec![]),
    );
    let request_id = match decision {
        DispatchDecision::NeedApproval { request } => request.id,
        other => panic!("expected an approval request, got {other:?}"),
    };

    // First approval arrives with always=true.
    let (_, to_run) = agent.submit_approval(&mut session, request_id, true, true);
    let (name, _params) = to_run.expect("the approved call is handed back to run");
    assert_eq!(name, "deploy");
    agent.record_tool_result("deployed".to_string());
    agent.complete_with_response("done".to_string());

    // A later turn's call to the same tool runs without a new request.
    agent.submit_user_input("deploy again".to_string());
    let decision = agent.request_tool(
        &registry,
        &mut session,
        "deploy",
        JsonValue::Obj(vec![]),
    );
    assert!(matches!(decision, DispatchDecision::Execute { .. }));
}

#[test]
fn test_unknown_tool_and_bad_params() {
    let mut registry = ToolRegistry::new();
    let mut schema_entries = Vec::new();
    schema_entries.push((
        "required".to_string(),
        JsonValue::Arr(vec![JsonValue::Str("query".to_string())]),
    ));
    registry.register(ToolDefinition {
        name: "memory_search".to_string(),
        description: "search memory".to_string(),
        parameters_schema: JsonValue::Obj(schema_entries),
        requires_approval: false,
        requires_sanitization: false,
        estimated_duration_ms: None,
        source: ToolSource::Builtin,
    });
    let mut session = SessionState::new();
    let mut agent = AgentLoop::new();
    agent.submit_user_input("go".to_string());

    let missing = agent.request_tool(&registry, &mut session, "nope", JsonValue::Null);
    assert!(matches!(missing, DispatchDecision::NotFound));

    let invalid = agent.request_tool(
        &registry,
        &mut session,
        "memory_search",
        JsonValue::Obj(vec![]),
    );
    assert!(matches!(invalid, DispatchDecision::InvalidParameters));

    let ok = agent.request_tool(
        &registry,
        &mut session,
        "memory_search",
        JsonValue::Obj(vec![(
            "query".to_string(),
            JsonValue::Str("what happened".to_string()),
        )]),
    );
    assert!(matches!(ok, DispatchDecision::Execute { .. }));
}

#[test]
fn test_interrupt_cancels_in_flight() {
    let mut registry = ToolRegistry::new();
    registry.register(deploy_tool());
    let mut session = SessionState::new();
    let mut agent = AgentLoop::new();

    agent.submit_user_input("first".to_string());
    agent.complete_with_response("first answer".to_string());
    let settled = agent.thread_contents();

    // A new turn starts reasoning and is interrupted before completion.
    agent.submit_user_input("second".to_string());
    assert_eq!(agent.state(), TurnState::Reasoning);
    let result = agent.interrupt();
    assert!(matches!(result, SubmissionResult::Interrupted));
    assert_eq!(agent.last_outcome(), Some(TurnOutcome::Interrupted));
    assert_eq!(agent.state(), TurnState::Idle);
    // The thread rolled back to the pre-turn checkpoint.
    assert_eq!(agent.thread_contents(), settled);

    // Undo after the interrupt does not unwind the interrupted turn: only
    // the one completed turn is on the stack.
    assert_eq!(agent.undo_depth(), 1);
    let _ = agent.handle_submission(&mut session, Submission::undo());
    assert_eq!(agent.undo_depth(), 0);

    let _ = agent.handle_submission(&mut session, Submission::redo());
    assert_eq!(agent.thread_contents(), settled);

    // A fresh turn starts from the restored thread.
    agent.submit_user_input("third".to_string());
    assert_eq!(agent.state(), TurnState::Reasoning);
    assert_eq!(agent.thread_contents().len(), settled.len() + 1);
}

#[test]
fn test_undo_then_redo_restores_messages() {
    let mut agent = AgentLoop::new();
    agent.submit_user_input("question".to_string());
    agent.record_tool_result("tool says hi".to_string());
    agent.complete_with_response("answer".to_string());
    let after_turn = agent.thread_contents();
    assert_eq!(after_turn, vec!["question", "tool says hi", "answer"]);

    agent.undo();
    assert_eq!(agent.thread_contents().len(), 0);
    agent.redo();
    assert_eq!(agent.thread_contents(), after_turn);
}

#[test]
fn test_new_user_input_clears_redo() {
    let mut agent = AgentLoop::new();
    agent.submit_user_input("one".to_string());
    agent.complete_with_response("a".to_string());
    agent.undo();
    assert_eq!(agent.redo_depth(), 1);
    agent.submit_user_input("two".to_string());
    assert_eq!(agent.redo_depth(), 0);
}

#[test]
fn test_compaction_replaces_prefix() {
    let mut agent = AgentLoop::new();
    agent.submit_user_input("one".to_string());
    agent.complete_with_response("a".to_string());
    agent.submit_user_input("two".to_string());
    agent.complete_with_response("b".to_string());
    assert_eq!(agent.thread_contents().len(), 4);

    agent.apply_compaction(2, "summary of the first exchange".to_string());
    let contents = agent.thread_contents();
    assert_eq!(contents.len(), 3);
    assert_eq!(contents[0], "summary of the first exchange");
    assert_eq!(contents[1], "two");
    assert_eq!(contents[2], "b");
}

#[test]
fn test_busy_loop_queues_input() {
    let mut agent = AgentLoop::new();
    agent.submit_user_input("one".to_string());
    // The loop is reasoning; the next input waits its turn.
    agent.submit_user_input("two".to_string());
    agent.complete_with_response("a".to_string());
    let queued = agent.take_queued_input();
    assert_eq!(queued.unwrap(), "two");
    assert!(agent.take_queued_input().is_none());
}
