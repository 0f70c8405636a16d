//! Submission types for the turn-based agent loop.
//!
//! Submissions are the different kinds of input the agent receives and
//! processes as part of the turn-based loop.

use vstd::prelude::*;

use crate::json::JsonValue;

verus! {

/// A submission to the agent.
#[derive(Debug, Clone)]
pub enum Submission {
    /// User text input; the only submission that starts a new turn.
    UserInput { content: String },
    /// Response to an execution approval request.
    ExecApproval { request_id: u64, approved: bool, always: bool },
    /// Interrupt the current turn.
    Interrupt,
    /// Request context compaction.
    Compact,
    /// Undo the last completed turn.
    Undo,
    /// Redo a previously undone turn, if one is available.
    Redo,
    /// Resume from a specific checkpoint.
    Resume { checkpoint_id: u64 },
    /// Clear the current thread and start fresh.
    Clear,
    /// Switch to a different thread.
    SwitchThread { thread_id: u64 },
    /// Create a new thread.
    NewThread,
}

impl Submission {
    /// Create a user input submission.
    pub fn user_input(content: String) -> (r: Self)
        ensures
            r matches Submission::UserInput { content: c } && c@ == content@,
    {
        Submission::UserInput { content }
    }

    /// Create an approval submission.
    pub fn approval(request_id: u64, approved: bool) -> (r: Self)
        ensures
            r == (Submission::ExecApproval { request_id, approved, always: false }),
    {
        Submission::ExecApproval { request_id, approved, always: false }
    }

    /// Create an "always approve" submission.
    pub fn always_approve(request_id: u64) -> (r: Self)
        ensures
            r == (Submission::ExecApproval { request_id, approved: true, always: true }),
    {
        Submission::ExecApproval { request_id, approved: true, always: true }
    }

    /// Create an interrupt submission.
    pub fn interrupt() -> (r: Self)
        ensures
            r is Interrupt,
    {
        Submission::Interrupt
    }

    /// Create a compact submission.
    pub fn compact() -> (r: Self)
        ensures
            r is Compact,
    {
        Submission::Compact
    }

    /// Create an undo submission.
    pub fn undo() -> (r: Self)
        ensures
            r is Undo,
    {
        Submission::Undo
    }

    /// Create a redo submission.
    pub fn redo() -> (r: Self)
        ensures
            r is Redo,
    {
        Submission::Redo
    }

    /// Whether this submission starts a new turn.
    pub fn starts_turn(&self) -> (r: bool)
        ensures
            r == (self is UserInput),
    {
        match self {
            Submission::UserInput { .. } => true,
            _ => false,
        }
    }

    /// Whether this submission is an out-of-band control command.
    pub open spec fn spec_is_control(&self) -> bool {
        self is Interrupt || self is Compact || self is Undo || self is Redo || self is Clear
            || self is NewThread
    }

    /// Whether this submission is an out-of-band control command.
    pub fn is_control(&self) -> (r: bool)
        ensures
            r == self.spec_is_control(),
    {
        match self {
            Submission::Interrupt
            | Submission::Compact
            | Submission::Undo
            | Submission::Redo
            | Submission::Clear
            | Submission::NewThread => true,
            _ => false,
        }
    }
}

/// Result of processing a submission.
#[derive(Debug)]
pub enum SubmissionResult {
    /// Turn completed with a response.
    Response { content: String },
    /// Approval is needed before the tool call can continue.
    NeedApproval {
        request_id: u64,
        tool_name: String,
        description: String,
        parameters: JsonValue,
    },
    /// Successfully processed, for control commands.
    Okay { message: Option<String> },
    /// An error occurred.
    Error { message: String },
    /// The turn was interrupted.
    Interrupted,
}

impl SubmissionResult {
    /// Create a response result.
    pub fn response(content: String) -> (r: Self)
        ensures
            r matches SubmissionResult::Response { content: c } && c@ == content@,
    {
        SubmissionResult::Response { content }
    }

    /// Create an OK result without a message.
    pub fn ok() -> (r: Self)
        ensures
            r matches SubmissionResult::Okay { message: m } && m is None,
    {
        SubmissionResult::Okay { message: None }
    }

    /// Create an OK result with a message.
    pub fn ok_with_message(message: String) -> (r: Self)
        ensures
            r matches SubmissionResult::Okay { message: m } && m matches Some(mm) && mm@ == message@,
    {
        SubmissionResult::Okay { message: Some(message) }
    }

    /// Create an error result.
    pub fn error(message: String) -> (r: Self)
        ensures
            r matches SubmissionResult::Error { message: m } && m@ == message@,
    {
        SubmissionResult::Error { message }
    }
}

} // verus!
