//! The agent loop: a turn-based state machine over one conversation thread,
//! with interruption, approval gating, checkpoints, and undo/redo.
//!
//! The loop decides; the caller performs. Reasoning results and tool
//! outputs are handed in as values, and the loop's answers say what to do
//! next. Nothing executes an approval-gated tool before the loop has seen a
//! matching approval.

use vstd::prelude::*;

use crate::json::JsonValue;
use crate::overlay::ApprovalRequest;
use crate::submission::{Submission, SubmissionResult};
use crate::tools::{plan_dispatch, DispatchDecision, SessionState, ToolRegistry};

verus! {

/// The role of a chat message.
#[derive(Debug, Clone, Copy, PartialEq, Eq, Structural)]
pub enum Role {
    System,
    User,
    Assistant,
    Tool,
}

/// One message of a conversation thread.
#[derive(Debug)]
pub struct ChatMessage {
    /// Who speaks.
    pub role: Role,
    /// What is said.
    pub content: String,
    /// When, in the loop's logical clock.
    pub timestamp: u64,
}

/// The mathematical content of a message list.
pub open spec fn msgs_view(s: Seq<ChatMessage>) -> Seq<(Role, Seq<char>, u64)> {
    Seq::new(s.len(), |i: int| (s[i].role, s[i].content@, s[i].timestamp))
}

/// Copy a message list.
fn clone_messages(msgs: &Vec<ChatMessage>) -> (r: Vec<ChatMessage>)
    ensures
        msgs_view(r@) == msgs_view(msgs@),
{
    let mut r: Vec<ChatMessage> = Vec::new();
    let mut i: usize = 0;
    while i < msgs.len()
        invariant
            i <= msgs@.len(),
            r@.len() == i,
            forall|j: int|
                0 <= j < i ==> (#[trigger] r@[j]).role == msgs@[j].role && r@[j].content@
                    == msgs@[j].content@ && r@[j].timestamp == msgs@[j].timestamp,
        decreases msgs@.len() - i,
    {
        let m = &msgs[i];
        r.push(ChatMessage { role: m.role, content: m.content.clone(), timestamp: m.timestamp });
        i = i + 1;
    }
    proof {
        assert(msgs_view(r@) =~= msgs_view(msgs@));
    }
    r
}

/// The loop's phase.
#[derive(Debug, Clone, Copy, PartialEq, Eq, Structural)]
pub enum TurnState {
    /// Waiting for a user submission.
    Idle,
    /// A reasoning request is in flight.
    Reasoning,
    /// A tool call waits for the user's approval.
    AwaitingApproval,
    /// The final response is being delivered.
    Responding,
}

/// How a turn ended.
#[derive(Debug, Clone, Copy, PartialEq, Eq, Structural)]
pub enum TurnOutcome {
    Completed,
    Interrupted,
    Failed,
    AwaitingApproval,
}

/// A completed turn as the undo and redo stacks hold it: the thread before
/// the turn and the thread after it.
#[derive(Debug)]
pub struct TurnRecord {
    /// The turn's identifier.
    pub turn_id: u64,
    /// The thread before the turn: its checkpoint.
    pub pre: Vec<ChatMessage>,
    /// The thread after the turn completed.
    pub post: Vec<ChatMessage>,
}

/// The agent loop for one conversation thread.
pub struct AgentLoop {
    state: TurnState,
    thread: Vec<ChatMessage>,
    checkpoint: Vec<ChatMessage>,
    current_turn: Option<u64>,
    last_outcome: Option<TurnOutcome>,
    undo_stack: Vec<TurnRecord>,
    redo_stack: Vec<TurnRecord>,
    pending: Option<ApprovalRequest>,
    queued: Vec<String>,
    next_id: u64,
    clock: u64,
}

impl AgentLoop {
    /// The loop's phase.
    pub closed spec fn spec_state(&self) -> TurnState {
        self.state
    }

    /// The conversation thread.
    pub closed spec fn spec_thread(&self) -> Seq<ChatMessage> {
        self.thread@
    }

    /// The checkpoint taken at the start of the current or last turn.
    pub closed spec fn spec_checkpoint(&self) -> Seq<ChatMessage> {
        self.checkpoint@
    }

    /// The identifier of the turn in progress.
    pub closed spec fn spec_current_turn(&self) -> Option<u64> {
        self.current_turn
    }

    /// How the last finished turn ended.
    pub closed spec fn spec_last_outcome(&self) -> Option<TurnOutcome> {
        self.last_outcome
    }

    /// The completed turns available to undo.
    pub closed spec fn spec_undo(&self) -> Seq<TurnRecord> {
        self.undo_stack@
    }

    /// The undone turns available to redo.
    pub closed spec fn spec_redo(&self) -> Seq<TurnRecord> {
        self.redo_stack@
    }

    /// The approval request the loop is suspended on.
    pub closed spec fn spec_pending(&self) -> Option<ApprovalRequest> {
        self.pending
    }

    /// User inputs queued while a turn was in progress.
    pub closed spec fn spec_queued(&self) -> Seq<String> {
        self.queued@
    }

    /// Well-formedness: the loop is suspended on an approval exactly in the
    /// awaiting state, and a turn is current exactly outside idle.
    pub open spec fn wf(&self) -> bool {
        &&& (self.spec_state() is AwaitingApproval <==> self.spec_pending() is Some)
        &&& (self.spec_state() is Idle <==> self.spec_current_turn() is None)
    }

    /// A fresh loop: idle over an empty thread.
    pub fn new() -> (r: Self)
        ensures
            r.wf(),
            r.spec_state() is Idle,
            r.spec_thread() == Seq::<ChatMessage>::empty(),
            r.spec_undo() == Seq::<TurnRecord>::empty(),
            r.spec_redo() == Seq::<TurnRecord>::empty(),
            r.spec_queued() == Seq::<String>::empty(),
            r.spec_last_outcome() is None,
    {
        let r = AgentLoop {
            state: TurnState::Idle,
            thread: Vec::new(),
            checkpoint: Vec::new(),
            current_turn: None,
            last_outcome: None,
            undo_stack: Vec::new(),
            redo_stack: Vec::new(),
            pending: None,
            queued: Vec::new(),
            next_id: 0,
            clock: 0,
        };
        proof {
            assert(r.spec_thread() =~= Seq::<ChatMessage>::empty());
            assert(r.spec_undo() =~= Seq::<TurnRecord>::empty());
            assert(r.spec_redo() =~= Seq::<TurnRecord>::empty());
            assert(r.spec_queued() =~= Seq::<String>::empty());
        }
        r
    }

    /// The loop's phase.
    pub fn state(&self) -> (r: TurnState)
        ensures
            r == self.spec_state(),
    {
        self.state
    }

    /// Submit user input. An idle loop starts a new turn: the thread is
    /// checkpointed, the user message is appended, the redo stack is
    /// cleared, and the loop starts reasoning. A busy loop queues the input
    /// unchanged.
    pub fn submit_user_input(&mut self, content: String) -> (r: SubmissionResult)
        requires
            old(self).wf(),
        ensures
            final(self).wf(),
            old(self).spec_state() is Idle ==> {
                &&& final(self).spec_state() is Reasoning
                &&& msgs_view(final(self).spec_checkpoint()) == msgs_view(old(self).spec_thread())
                &&& final(self).spec_thread().len() == old(self).spec_thread().len() + 1
                &&& msgs_view(final(self).spec_thread()).take(old(self).spec_thread().len() as int)
                    == msgs_view(old(self).spec_thread())
                &&& final(self).spec_thread().last().role is User
                &&& final(self).spec_thread().last().content@ == content@
                &&& final(self).spec_redo() == Seq::<TurnRecord>::empty()
                &&& final(self).spec_undo() == old(self).spec_undo()
                &&& r matches SubmissionResult::Okay { .. }
            },
            !(old(self).spec_state() is Idle) ==> {
                &&& final(self).spec_state() == old(self).spec_state()
                &&& final(self).spec_thread() == old(self).spec_thread()
                &&& final(self).spec_queued().len() == old(self).spec_queued().len() + 1
                &&& final(self).spec_queued().last()@ == content@
                &&& r matches SubmissionResult::Okay { .. }
            },
    {
        match self.state {
            TurnState::Idle => {
                self.checkpoint = clone_messages(&self.thread);
                let id = self.next_id;
                if self.next_id < u64::MAX {
                    self.next_id = self.next_id + 1;
                }
                let now = self.clock;
                if self.clock < u64::MAX {
                    self.clock = self.clock + 1;
                }
                self.current_turn = Some(id);
                self.thread.push(ChatMessage { role: Role::User, content, timestamp: now });
                self.redo_stack = Vec::new();
                self.state = TurnState::Reasoning;
                proof {
                    assert(self.spec_redo() =~= Seq::<TurnRecord>::empty());
                    assert(msgs_view(self.spec_thread()).take(
                        old(self).spec_thread().len() as int,
                    ) =~= msgs_view(old(self).spec_thread()));
                }
                SubmissionResult::ok()
            },
            _ => {
                self.queued.push(content);
                SubmissionResult::ok()
            },
        }
    }

    /// Record a tool-result message during reasoning.
    pub fn record_tool_result(&mut self, content: String)
        requires
            old(self).wf(),
            old(self).spec_state() is Reasoning,
        ensures
            final(self).wf(),
            final(self).spec_state() is Reasoning,
            final(self).spec_thread().len() == old(self).spec_thread().len() + 1,
            msgs_view(final(self).spec_thread()).take(old(self).spec_thread().len() as int)
                == msgs_view(old(self).spec_thread()),
            final(self).spec_thread().last().role is Tool,
            final(self).spec_thread().last().content@ == content@,
            final(self).spec_undo() == old(self).spec_undo(),
            final(self).spec_redo() == old(self).spec_redo(),
            msgs_view(final(self).spec_checkpoint()) == msgs_view(old(self).spec_checkpoint()),
    {
        let now = self.clock;
        if self.clock < u64::MAX {
            self.clock = self.clock + 1;
        }
        self.thread.push(ChatMessage { role: Role::Tool, content, timestamp: now });
        proof {
            assert(msgs_view(self.spec_thread()).take(old(self).spec_thread().len() as int)
                =~= msgs_view(old(self).spec_thread()));
        }
    }

    /// Ask to call a tool during reasoning. The dispatcher decides: a call
    /// that needs approval suspends the loop on the request; an allowed
    /// call is returned for the caller to execute; a failed resolution or
    /// validation comes back as the decision itself.
    pub fn request_tool(
        &mut self,
        registry: &ToolRegistry,
        session: &mut SessionState,
        name: &str,
        params: JsonValue,
    ) -> (r: DispatchDecision)
        requires
            old(self).wf(),
            old(self).spec_state() is Reasoning,
            registry.wf(),
            old(session).next_request_id < u64::MAX,
        ensures
            final(self).wf(),
            final(self).spec_thread() == old(self).spec_thread(),
            final(self).spec_undo() == old(self).spec_undo(),
            final(self).spec_redo() == old(self).spec_redo(),
            final(session).always_approved@ == old(session).always_approved@,
            ({
                let tools = registry.spec_tools();
                let known = crate::tools::has_tool(tools, name@);
                let tool = tools[crate::tools::find_tool(tools, name@)];
                match r {
                    DispatchDecision::NotFound => !known && final(self).spec_state()
                        is Reasoning,
                    DispatchDecision::InvalidParameters => known && !crate::tools::params_valid(
                        tool.parameters_schema@,
                        params@,
                    ) && final(self).spec_state() is Reasoning,
                    DispatchDecision::NeedApproval { request } => {
                        &&& known
                        &&& crate::tools::params_valid(tool.parameters_schema@, params@)
                        &&& tool.requires_approval
                        &&& !crate::tools::always_approved_has(
                            old(session).always_approved@,
                            name@,
                        )
                        &&& final(self).spec_state() is AwaitingApproval
                        &&& final(self).spec_pending() matches Some(p) && p.id == request.id
                            && p.tool_name@ == name@ && p.parameters@ == params@
                        &&& request.tool_name@ == name@
                    },
                    DispatchDecision::Execute { parameters } => {
                        &&& known
                        &&& crate::tools::params_valid(tool.parameters_schema@, params@)
                        &&& crate::tools::execution_cleared(
                            tool,
                            old(session).always_approved@,
                        )
                        &&& parameters@ == params@
                        &&& final(self).spec_state() is Reasoning
                    },
                }
            }),
    {
        let decision = plan_dispatch(registry, session, name, params);
        match decision {
            DispatchDecision::NeedApproval { request } => {
                let kept = ApprovalRequest {
                    id: request.id,
                    tool_name: request.tool_name.clone(),
                    description: request.description.clone(),
                    parameters: request.parameters.clone(),
                    destructive: request.destructive,
                };
                self.pending = Some(kept);
                self.state = TurnState::AwaitingApproval;
                DispatchDecision::NeedApproval { request }
            },
            other => other,
        }
    }

    /// Resolve a pending approval. A mismatched request id changes nothing
    /// and reports an error. A denial appends a denial message as the
    /// tool's result and resumes reasoning with nothing to run. An approval
    /// resumes reasoning and hands back the approved call; with `always`,
    /// the tool joins the session's always-approved set.
    pub fn submit_approval(
        &mut self,
        session: &mut SessionState,
        request_id: u64,
        approved: bool,
        always: bool,
    ) -> (r: (SubmissionResult, Option<(String, JsonValue)>))
        requires
            old(self).wf(),
            old(self).spec_state() is AwaitingApproval,
        ensures
            final(self).wf(),
            ({
                let pending = old(self).spec_pending()->0;
                &&& (request_id != pending.id ==> *final(self) == *old(self) && *final(session)
                    == *old(session) && r.1 is None && (r.0 matches SubmissionResult::Error {
                    ..
                }))
                &&& (request_id == pending.id && approved ==> final(self).spec_state()
                    is Reasoning && (r.1 matches Some((n, p)) && n@ == pending.tool_name@ && p@
                    == pending.parameters@) && final(self).spec_thread() == old(self).spec_thread() && (always ==> crate::tools::always_approved_has(
                    final(session).always_approved@,
                    pending.tool_name@,
                )))
                &&& (request_id == pending.id && !approved ==> final(self).spec_state()
                    is Reasoning && r.1 is None && final(self).spec_thread().len() == old(self).spec_thread().len() + 1 && final(self).spec_thread().last().role is Tool
                    && final(session).always_approved@ == old(session).always_approved@)
            }),
    {
        let matches_id = match &self.pending {
            Some(p) => p.id == request_id,
            None => false,
        };
        if !matches_id {
            return (
                SubmissionResult::error(String::from_str("no approval request with that id")),
                None,
            );
        }
        let mut taken: Option<ApprovalRequest> = None;
        core::mem::swap(&mut self.pending, &mut taken);
        let pending = match taken {
            Some(p) => p,
            None => {
                proof {
                    assert(false);
                }
                return (
                    SubmissionResult::error(String::from_str("no approval request pending")),
                    None,
                );
            },
        };
        self.state = TurnState::Reasoning;
        if approved {
            session.apply_approval(pending.tool_name.as_str(), true, always);
            (SubmissionResult::ok(), Some((pending.tool_name, pending.parameters)))
        } else {
            let mut msg = String::from_str("tool call denied: ");
            msg.append(pending.tool_name.as_str());
            self.record_tool_result(msg);
            (SubmissionResult::ok(), None)
        }
    }

    /// Complete the turn with the final response text: the assistant
    /// message is appended, the turn is recorded for undo, and the loop
    /// returns to idle.
    pub fn complete_with_response(&mut self, content: String) -> (r: SubmissionResult)
        requires
            old(self).wf(),
            old(self).spec_state() is Reasoning || old(self).spec_state() is Responding,
        ensures
            final(self).wf(),
            final(self).spec_state() is Idle,
            final(self).spec_last_outcome() == Some(TurnOutcome::Completed),
            final(self).spec_thread().len() == old(self).spec_thread().len() + 1,
            msgs_view(final(self).spec_thread()).take(old(self).spec_thread().len() as int)
                == msgs_view(old(self).spec_thread()),
            final(self).spec_thread().last().role is Assistant,
            final(self).spec_thread().last().content@ == content@,
            final(self).spec_undo().len() == old(self).spec_undo().len() + 1,
            msgs_view(final(self).spec_undo().last().pre@) == msgs_view(
                old(self).spec_checkpoint(),
            ),
            msgs_view(final(self).spec_undo().last().post@) == msgs_view(
                final(self).spec_thread(),
            ),
            final(self).spec_redo() == old(self).spec_redo(),
            r matches SubmissionResult::Response { content: c } && c@ == content@,
    {
        let now = self.clock;
        if self.clock < u64::MAX {
            self.clock = self.clock + 1;
        }
        let echoed = content.clone();
        self.thread.push(ChatMessage { role: Role::Assistant, content, timestamp: now });
        let turn_id = match self.current_turn {
            Some(id) => id,
            None => 0,
        };
        let record = TurnRecord {
            turn_id,
            pre: clone_messages(&self.checkpoint),
            post: clone_messages(&self.thread),
        };
        self.undo_stack.push(record);
        self.current_turn = None;
        self.last_outcome = Some(TurnOutcome::Completed);
        self.state = TurnState::Idle;
        proof {
            assert(msgs_view(self.spec_thread()).take(old(self).spec_thread().len() as int)
                =~= msgs_view(old(self).spec_thread()));
        }
        SubmissionResult::response(echoed)
    }

    /// Interrupt the turn in progress: the thread rolls back to the
    /// checkpoint, which stays intact for the next turn, the pending
    /// approval expires, and nothing joins the undo stack — an interrupted
    /// turn cannot be undone because it never completed. An idle loop is
    /// unchanged.
    pub fn interrupt(&mut self) -> (r: SubmissionResult)
        requires
            old(self).wf(),
        ensures
            final(self).wf(),
            final(self).spec_state() is Idle,
            final(self).spec_pending() is None,
            old(self).spec_state() is Idle ==> *final(self) == *old(self) && (r
                matches SubmissionResult::Okay { .. }),
            !(old(self).spec_state() is Idle) ==> {
                &&& final(self).spec_last_outcome() == Some(TurnOutcome::Interrupted)
                &&& msgs_view(final(self).spec_thread()) == msgs_view(old(self).spec_checkpoint())
                &&& msgs_view(final(self).spec_checkpoint()) == msgs_view(
                    old(self).spec_checkpoint(),
                )
                &&& final(self).spec_undo() == old(self).spec_undo()
                &&& final(self).spec_redo() == old(self).spec_redo()
                &&& r is Interrupted
            },
    {
        match self.state {
            TurnState::Idle => SubmissionResult::ok(),
            _ => {
                self.thread = clone_messages(&self.checkpoint);
                self.pending = None;
                self.current_turn = None;
                self.last_outcome = Some(TurnOutcome::Interrupted);
                self.state = TurnState::Idle;
                SubmissionResult::Interrupted
            },
        }
    }
}

/// The undo step, mathematically: the last completed turn is popped, the
/// thread returns to that turn's checkpoint, and the turn — with the thread
/// it is taken from — moves to the redo stack.
pub open spec fn spec_undo_applied(a: AgentLoop, b: AgentLoop) -> bool {
    &&& a.spec_undo().len() > 0
    &&& msgs_view(b.spec_thread()) == msgs_view(a.spec_undo().last().pre@)
    &&& b.spec_undo() == a.spec_undo().drop_last()
    &&& b.spec_redo().len() == a.spec_redo().len() + 1
    &&& msgs_view(b.spec_redo().last().post@) == msgs_view(a.spec_thread())
    &&& msgs_view(b.spec_redo().last().pre@) == msgs_view(a.spec_undo().last().pre@)
}

/// The redo step, mathematically: the last undone turn is replayed, and the
/// thread becomes that turn's final thread.
pub open spec fn spec_redo_applied(a: AgentLoop, b: AgentLoop) -> bool {
    &&& a.spec_redo().len() > 0
    &&& msgs_view(b.spec_thread()) == msgs_view(a.spec_redo().last().post@)
    &&& b.spec_redo() == a.spec_redo().drop_last()
    &&& b.spec_undo().len() == a.spec_undo().len() + 1
    &&& msgs_view(b.spec_undo().last().pre@) == msgs_view(a.spec_redo().last().pre@)
    &&& msgs_view(b.spec_undo().last().post@) == msgs_view(a.spec_redo().last().post@)
}

/// Undoing a turn and then redoing it restores the message list exactly:
/// the thread after the redo holds the same messages as before the undo.
pub proof fn lemma_undo_then_redo(a: AgentLoop, b: AgentLoop, c: AgentLoop)
    requires
        spec_undo_applied(a, b),
        spec_redo_applied(b, c),
    ensures
        msgs_view(c.spec_thread()) == msgs_view(a.spec_thread()),
{
}

impl AgentLoop {
    /// Undo the last completed turn: the thread returns to that turn's
    /// checkpoint and the turn moves to the redo stack. With nothing to
    /// undo — in particular, right after an interrupted turn — nothing
    /// changes.
    pub fn undo(&mut self) -> (r: SubmissionResult)
        requires
            old(self).wf(),
            old(self).spec_state() is Idle,
        ensures
            final(self).wf(),
            final(self).spec_state() is Idle,
            old(self).spec_undo().len() == 0 ==> final(self).spec_thread() == old(self).spec_thread() && final(self).spec_undo() == old(self).spec_undo() && final(self).spec_redo() == old(self).spec_redo() && final(self).spec_checkpoint() == old(self).spec_checkpoint(),
            old(self).spec_undo().len() > 0 ==> spec_undo_applied(*old(self), *final(self)),
            r matches SubmissionResult::Okay { .. },
    {
        match self.undo_stack.pop() {
            Some(record) => {
                let undone = TurnRecord {
                    turn_id: record.turn_id,
                    pre: record.pre,
                    post: clone_messages(&self.thread),
                };
                self.thread = clone_messages(&undone.pre);
                self.redo_stack.push(undone);
                SubmissionResult::ok()
            },
            None => SubmissionResult::ok(),
        }
    }

    /// Redo the last undone turn: the thread becomes that turn's final
    /// thread again. With nothing to redo, nothing changes.
    pub fn redo(&mut self) -> (r: SubmissionResult)
        requires
            old(self).wf(),
            old(self).spec_state() is Idle,
        ensures
            final(self).wf(),
            final(self).spec_state() is Idle,
            old(self).spec_redo().len() == 0 ==> final(self).spec_thread() == old(self).spec_thread() && final(self).spec_undo() == old(self).spec_undo() && final(self).spec_redo() == old(self).spec_redo() && final(self).spec_checkpoint() == old(self).spec_checkpoint(),
            old(self).spec_redo().len() > 0 ==> spec_redo_applied(*old(self), *final(self)),
            r matches SubmissionResult::Okay { .. },
    {
        match self.redo_stack.pop() {
            Some(record) => {
                self.thread = clone_messages(&record.post);
                self.undo_stack.push(record);
                SubmissionResult::ok()
            },
            None => SubmissionResult::ok(),
        }
    }

    /// Clear the thread and both history stacks.
    pub fn clear(&mut self) -> (r: SubmissionResult)
        requires
            old(self).wf(),
            old(self).spec_state() is Idle,
        ensures
            final(self).wf(),
            final(self).spec_state() is Idle,
            final(self).spec_thread() == Seq::<ChatMessage>::empty(),
            final(self).spec_undo() == Seq::<TurnRecord>::empty(),
            final(self).spec_redo() == Seq::<TurnRecord>::empty(),
            r matches SubmissionResult::Okay { .. },
    {
        self.thread = Vec::new();
        self.checkpoint = Vec::new();
        self.undo_stack = Vec::new();
        self.redo_stack = Vec::new();
        proof {
            assert(self.spec_thread() =~= Seq::<ChatMessage>::empty());
            assert(self.spec_undo() =~= Seq::<TurnRecord>::empty());
            assert(self.spec_redo() =~= Seq::<TurnRecord>::empty());
        }
        SubmissionResult::ok()
    }

    /// Replace the first `upto` messages with a single system message
    /// holding their summary, preserving the rest of the thread.
    pub fn apply_compaction(&mut self, upto: usize, summary: String)
        requires
            old(self).wf(),
            old(self).spec_state() is Idle,
            upto <= old(self).spec_thread().len(),
        ensures
            final(self).wf(),
            final(self).spec_state() is Idle,
            final(self).spec_thread().len() == old(self).spec_thread().len() - upto + 1,
            final(self).spec_thread()[0].role is System,
            final(self).spec_thread()[0].content@ == summary@,
            msgs_view(final(self).spec_thread()).skip(1) == msgs_view(
                old(self).spec_thread(),
            ).skip(upto as int),
    {
        let now = self.clock;
        if self.clock < u64::MAX {
            self.clock = self.clock + 1;
        }
        let mut rebuilt: Vec<ChatMessage> = Vec::new();
        rebuilt.push(ChatMessage { role: Role::System, content: summary, timestamp: now });
        let mut i: usize = upto;
        while i < self.thread.len()
            invariant
                upto <= i <= self.thread@.len(),
                rebuilt@.len() == 1 + i - upto,
                rebuilt@[0].role is System,
                rebuilt@[0].content@ == summary@,
                self.thread@ == old(self).spec_thread(),
                msgs_view(rebuilt@).skip(1) =~= msgs_view(self.thread@).subrange(
                    upto as int,
                    i as int,
                ),
                rebuilt@[0].role == Role::System,
            decreases self.thread@.len() - i,
        {
            let m = &self.thread[i];
            rebuilt.push(
                ChatMessage { role: m.role, content: m.content.clone(), timestamp: m.timestamp },
            );
            proof {
                assert(msgs_view(rebuilt@).skip(1) =~= msgs_view(self.thread@).subrange(
                    upto as int,
                    i as int + 1,
                ));
            }
            i = i + 1;
        }
        let ghost summary_view = rebuilt@[0].content@;
        self.thread = rebuilt;
        proof {
            assert(msgs_view(self.spec_thread()).skip(1) =~= msgs_view(
                old(self).spec_thread(),
            ).skip(upto as int));
        }
    }

    /// A turn was started from `a` with the given user content.
    pub open spec fn spec_turn_started(a: AgentLoop, b: AgentLoop, content: Seq<char>) -> bool {
        &&& b.spec_state() is Reasoning
        &&& msgs_view(b.spec_checkpoint()) == msgs_view(a.spec_thread())
        &&& b.spec_thread().len() == a.spec_thread().len() + 1
        &&& msgs_view(b.spec_thread()).take(a.spec_thread().len() as int) == msgs_view(
            a.spec_thread(),
        )
        &&& b.spec_thread().last().role is User
        &&& b.spec_thread().last().content@ == content
        &&& b.spec_redo() == Seq::<TurnRecord>::empty()
        &&& b.spec_undo() == a.spec_undo()
    }

    /// The input was queued for later, everything else untouched.
    pub open spec fn spec_input_queued(a: AgentLoop, b: AgentLoop, content: Seq<char>) -> bool {
        &&& b.spec_state() == a.spec_state()
        &&& b.spec_thread() == a.spec_thread()
        &&& b.spec_queued().len() == a.spec_queued().len() + 1
        &&& b.spec_queued().last()@ == content
    }

    /// A turn in progress was interrupted: the thread rolled back to the
    /// intact checkpoint, and the history stacks are untouched.
    pub open spec fn spec_interrupted(a: AgentLoop, b: AgentLoop) -> bool {
        &&& b.spec_state() is Idle
        &&& b.spec_last_outcome() == Some(TurnOutcome::Interrupted)
        &&& msgs_view(b.spec_thread()) == msgs_view(a.spec_checkpoint())
        &&& msgs_view(b.spec_checkpoint()) == msgs_view(a.spec_checkpoint())
        &&& b.spec_undo() == a.spec_undo()
        &&& b.spec_redo() == a.spec_redo()
    }

    /// The thread and both history stacks were cleared.
    pub open spec fn spec_cleared(b: AgentLoop) -> bool {
        &&& b.spec_state() is Idle
        &&& b.spec_thread() == Seq::<ChatMessage>::empty()
        &&& b.spec_undo() == Seq::<TurnRecord>::empty()
        &&& b.spec_redo() == Seq::<TurnRecord>::empty()
    }

    /// The loop and the undo/redo state are observably unchanged.
    pub open spec fn spec_history_unchanged(a: AgentLoop, b: AgentLoop) -> bool {
        &&& b.spec_state() == a.spec_state()
        &&& b.spec_thread() == a.spec_thread()
        &&& b.spec_checkpoint() == a.spec_checkpoint()
        &&& b.spec_undo() == a.spec_undo()
        &&& b.spec_redo() == a.spec_redo()
    }

    /// A pending approval was resolved: a mismatched id changes nothing; a
    /// denial records the denial and resumes reasoning with nothing to run;
    /// an approval resumes reasoning and hands the call back, joining the
    /// always-approved set when asked.
    pub open spec fn spec_approval_resolved(
        a: AgentLoop,
        b: AgentLoop,
        sa: crate::tools::SessionState,
        sb: crate::tools::SessionState,
        request_id: u64,
        approved: bool,
        always: bool,
        run: Option<(String, JsonValue)>,
    ) -> bool {
        let pending = a.spec_pending()->0;
        &&& (request_id != pending.id ==> b == a && sb == sa && run is None)
        &&& (request_id == pending.id && approved ==> b.spec_state() is Reasoning && (run
            matches Some((n, p)) && n@ == pending.tool_name@ && p@ == pending.parameters@)
            && b.spec_thread() == a.spec_thread() && (always
            ==> crate::tools::always_approved_has(sb.always_approved@, pending.tool_name@)))
        &&& (request_id == pending.id && !approved ==> b.spec_state() is Reasoning && run is None
            && b.spec_thread().len() == a.spec_thread().len() + 1 && b.spec_thread().last().role
            is Tool && sb.always_approved@ == sa.always_approved@)
    }

    /// Handle one submission: user input and approvals feed the turn state
    /// machine, control commands act at once. `Resume` and thread switching
    /// are not handled here and report an error.
    pub fn handle_submission(&mut self, session: &mut SessionState, s: Submission) -> (r: (
        SubmissionResult,
        Option<(String, JsonValue)>,
    ))
        requires
            old(self).wf(),
        ensures
            final(self).wf(),
            !(s is ExecApproval) ==> *final(session) == *old(session),
            match s {
                Submission::UserInput { content } => {
                    &&& r.1 is None
                    &&& r.0 matches SubmissionResult::Okay { .. }
                    &&& (old(self).spec_state() is Idle ==> Self::spec_turn_started(
                        *old(self),
                        *final(self),
                        content@,
                    ))
                    &&& (!(old(self).spec_state() is Idle) ==> Self::spec_input_queued(
                        *old(self),
                        *final(self),
                        content@,
                    ))
                },
                Submission::ExecApproval { request_id, approved, always } => {
                    &&& (old(self).spec_state() is AwaitingApproval
                        ==> Self::spec_approval_resolved(
                        *old(self),
                        *final(self),
                        *old(session),
                        *final(session),
                        request_id,
                        approved,
                        always,
                        r.1,
                    ))
                    &&& (!(old(self).spec_state() is AwaitingApproval) ==> *final(self) == *old(
                        self,
                    ) && *final(session) == *old(session) && r.1 is None && (r.0
                        matches SubmissionResult::Error { .. }))
                },
                Submission::Interrupt => {
                    &&& r.1 is None
                    &&& (old(self).spec_state() is Idle ==> *final(self) == *old(self))
                    &&& (!(old(self).spec_state() is Idle) ==> Self::spec_interrupted(
                        *old(self),
                        *final(self),
                    ) && r.0 is Interrupted)
                },
                Submission::Undo => {
                    &&& r.1 is None
                    &&& (old(self).spec_state() is Idle && old(self).spec_undo().len() > 0
                        ==> spec_undo_applied(*old(self), *final(self)))
                    &&& (old(self).spec_state() is Idle && old(self).spec_undo().len() == 0
                        ==> Self::spec_history_unchanged(*old(self), *final(self)))
                    &&& (!(old(self).spec_state() is Idle) ==> Self::spec_history_unchanged(
                        *old(self),
                        *final(self),
                    ) && (r.0 matches SubmissionResult::Error { .. }))
                },
                Submission::Redo => {
                    &&& r.1 is None
                    &&& (old(self).spec_state() is Idle && old(self).spec_redo().len() > 0
                        ==> spec_redo_applied(*old(self), *final(self)))
                    &&& (old(self).spec_state() is Idle && old(self).spec_redo().len() == 0
                        ==> Self::spec_history_unchanged(*old(self), *final(self)))
                    &&& (!(old(self).spec_state() is Idle) ==> Self::spec_history_unchanged(
                        *old(self),
                        *final(self),
                    ) && (r.0 matches SubmissionResult::Error { .. }))
                },
                Submission::Clear => {
                    &&& r.1 is None
                    &&& (old(self).spec_state() is Idle ==> Self::spec_cleared(*final(self))
                        && (r.0 matches SubmissionResult::Okay { .. }))
                    &&& (!(old(self).spec_state() is Idle) ==> Self::spec_history_unchanged(
                        *old(self),
                        *final(self),
                    ) && (r.0 matches SubmissionResult::Error { .. }))
                },
                Submission::NewThread => {
                    &&& r.1 is None
                    &&& (old(self).spec_state() is Idle ==> Self::spec_cleared(*final(self))
                        && (r.0 matches SubmissionResult::Okay { .. }))
                    &&& (!(old(self).spec_state() is Idle) ==> Self::spec_history_unchanged(
                        *old(self),
                        *final(self),
                    ) && (r.0 matches SubmissionResult::Error { .. }))
                },
                Submission::Compact => *final(self) == *old(self) && r.1 is None && (r.0
                    matches SubmissionResult::Okay { .. }),
                _ => *final(self) == *old(self) && r.1 is None && (r.0
                    matches SubmissionResult::Error { .. }),
            },
    {
        match s {
            Submission::UserInput { content } => (self.submit_user_input(content), None),
            Submission::ExecApproval { request_id, approved, always } => {
                match self.state {
                    TurnState::AwaitingApproval => self.submit_approval(
                        session,
                        request_id,
                        approved,
                        always,
                    ),
                    _ => (
                        SubmissionResult::error(
                            String::from_str("no approval request is pending"),
                        ),
                        None,
                    ),
                }
            },
            Submission::Interrupt => (self.interrupt(), None),
            Submission::Undo => {
                match self.state {
                    TurnState::Idle => (self.undo(), None),
                    _ => (
                        SubmissionResult::error(String::from_str("a turn is in progress")),
                        None,
                    ),
                }
            },
            Submission::Redo => {
                match self.state {
                    TurnState::Idle => (self.redo(), None),
                    _ => (
                        SubmissionResult::error(String::from_str("a turn is in progress")),
                        None,
                    ),
                }
            },
            Submission::Clear => {
                match self.state {
                    TurnState::Idle => (self.clear(), None),
                    _ => (
                        SubmissionResult::error(String::from_str("a turn is in progress")),
                        None,
                    ),
                }
            },
            Submission::Compact => (
                SubmissionResult::ok_with_message(
                    String::from_str("summarize the thread and apply the compaction"),
                ),
                None,
            ),
            Submission::NewThread => {
                match self.state {
                    TurnState::Idle => (self.clear(), None),
                    _ => (
                        SubmissionResult::error(String::from_str("a turn is in progress")),
                        None,
                    ),
                }
            },
            _ => (
                SubmissionResult::error(String::from_str("unsupported submission")),
                None,
            ),
        }
    }
}


impl AgentLoop {
    /// The contents of the thread's messages, in order.
    pub fn thread_contents(&self) -> (r: Vec<String>)
        ensures
            r@.len() == self.spec_thread().len(),
            forall|i: int|
                0 <= i < r@.len() ==> (#[trigger] r@[i])@ == self.spec_thread()[i].content@,
    {
        let mut r: Vec<String> = Vec::new();
        let mut i: usize = 0;
        while i < self.thread.len()
            invariant
                i <= self.thread@.len(),
                r@.len() == i,
                forall|j: int|
                    0 <= j < i ==> (#[trigger] r@[j])@ == self.spec_thread()[j].content@,
            decreases self.thread@.len() - i,
        {
            r.push(self.thread[i].content.clone());
            i = i + 1;
        }
        r
    }

    /// Take the oldest queued user input, to start its turn once the loop
    /// is idle again.
    pub fn take_queued_input(&mut self) -> (r: Option<String>)
        requires
            old(self).wf(),
        ensures
            final(self).wf(),
            final(self).spec_state() == old(self).spec_state(),
            final(self).spec_thread() == old(self).spec_thread(),
            old(self).spec_queued().len() == 0 ==> r is None && final(self).spec_queued() == old(
                self,
            ).spec_queued(),
            old(self).spec_queued().len() > 0 ==> (r matches Some(s) && s@ == old(
                self,
            ).spec_queued()[0]@) && final(self).spec_queued() == old(self).spec_queued().skip(1),
    {
        if self.queued.len() == 0 {
            return None;
        }
        let first = self.queued.remove(0);
        proof {
            assert(self.spec_queued() =~= old(self).spec_queued().skip(1));
        }
        Some(first)
    }

    /// How the last finished turn ended.
    pub fn last_outcome(&self) -> (r: Option<TurnOutcome>)
        ensures
            r == self.spec_last_outcome(),
    {
        self.last_outcome
    }

    /// The number of completed turns available to undo.
    pub fn undo_depth(&self) -> (r: usize)
        ensures
            r as int == self.spec_undo().len(),
    {
        self.undo_stack.len()
    }

    /// The number of undone turns available to redo.
    pub fn redo_depth(&self) -> (r: usize)
        ensures
            r as int == self.spec_redo().len(),
    {
        self.redo_stack.len()
    }
}

} // verus!
