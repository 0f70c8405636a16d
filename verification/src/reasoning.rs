//! The reasoning driver's pure core: contexts, prompts, and the decoding of
//! model responses into tool selections. Issuing the model request is the
//! caller's task.

use vstd::prelude::*;

use crate::agent::ChatMessage;
use crate::json::JsonValue;
use crate::strutil::push_char;
use crate::tools::ToolDefinition;

verus! {

/// Context for reasoning operations.
pub struct ReasoningContext {
    /// Conversation history.
    pub messages: Vec<ChatMessage>,
    /// Available tools.
    pub available_tools: Vec<ToolDefinition>,
    /// Job description, when working on a job.
    pub job_description: Option<String>,
    /// Current state description.
    pub current_state: Option<String>,
}

impl ReasoningContext {
    /// Create an empty reasoning context.
    pub fn new() -> (r: Self)
        ensures
            r.messages@ == Seq::<ChatMessage>::empty(),
            r.available_tools@ == Seq::<ToolDefinition>::empty(),
            r.job_description is None,
            r.current_state is None,
    {
        let r = ReasoningContext {
            messages: Vec::new(),
            available_tools: Vec::new(),
            job_description: None,
            current_state: None,
        };
        proof {
            assert(r.messages@ =~= Seq::<ChatMessage>::empty());
            assert(r.available_tools@ =~= Seq::<ToolDefinition>::empty());
        }
        r
    }

    /// Add a message to the context.
    pub fn with_message(self, message: ChatMessage) -> (r: Self)
        ensures
            r.messages@ == self.messages@.push(message),
            r.available_tools@ == self.available_tools@,
            r.job_description == self.job_description,
            r.current_state == self.current_state,
    {
        let mut messages = self.messages;
        messages.push(message);
        ReasoningContext { messages, ..self }
    }

    /// Set the available tools.
    pub fn with_tools(self, tools: Vec<ToolDefinition>) -> (r: Self)
        ensures
            r.messages@ == self.messages@,
            r.available_tools == tools,
            r.job_description == self.job_description,
            r.current_state == self.current_state,
    {
        ReasoningContext { available_tools: tools, ..self }
    }

    /// Set the job description.
    pub fn with_job(self, description: String) -> (r: Self)
        ensures
            r.messages@ == self.messages@,
            r.available_tools@ == self.available_tools@,
            r.job_description matches Some(d) && d@ == description@,
            r.current_state == self.current_state,
    {
        ReasoningContext { job_description: Some(description), ..self }
    }
}

impl Default for ReasoningContext {
    fn default() -> (r: Self)
        ensures
            r.messages@ == Seq::<ChatMessage>::empty(),
            r.available_tools@ == Seq::<ToolDefinition>::empty(),
            r.job_description is None,
            r.current_state is None,
    {
        ReasoningContext::new()
    }
}

/// One tool call a model response asks for.
#[derive(Debug)]
pub struct ModelToolCall {
    /// The tool's name.
    pub name: String,
    /// The call's arguments.
    pub arguments: JsonValue,
}

/// A model response to a tool-choice request: optional text and the tool
/// calls the model asks for.
#[derive(Debug)]
pub struct ToolCompletionResponse {
    /// Response text, when the model produced any.
    pub content: Option<String>,
    /// Requested tool calls, in the model's order.
    pub tool_calls: Vec<ModelToolCall>,
}

/// A selected tool call.
#[derive(Debug)]
pub struct ToolSelection {
    /// Selected tool name.
    pub tool_name: String,
    /// Parameters for the tool.
    pub parameters: JsonValue,
    /// Reasoning for the selection.
    pub reasoning: String,
    /// Alternative tools considered.
    pub alternatives: Vec<String>,
}

/// Reasoning engine: the pure decisions around the model.
pub struct Reasoning {
    /// Model name, used for error attribution.
    pub model_name: String,
}

impl Reasoning {
    /// Create a reasoning engine for a model.
    pub fn new(model_name: String) -> (r: Self)
        ensures
            r.model_name@ == model_name@,
    {
        Reasoning { model_name }
    }

    /// Decode a tool-choice response into tool selections, in the model's
    /// order; the response text becomes each selection's reasoning.
    pub fn selections_from_response(&self, response: ToolCompletionResponse) -> (r: Vec<
        ToolSelection,
    >)
        ensures
            r@.len() == response.tool_calls@.len(),
            forall|i: int|
                0 <= i < r@.len() ==> (#[trigger] r@[i]).tool_name@ == response.tool_calls@[
                    i
                ].name@ && r@[i].parameters@ == response.tool_calls@[i].arguments@ && r@[
                    i
                ].reasoning@ == (match response.content {
                    Some(c) => c@,
                    None => Seq::<char>::empty(),
                }) && r@[i].alternatives@.len() == 0,
    {
        let reasoning_text = match &response.content {
            Some(c) => c.clone(),
            None => String::new(),
        };
        let mut out: Vec<ToolSelection> = Vec::new();
        let mut calls = response.tool_calls;
        let ghost calls_v = calls@;
        let mut i: usize = 0;
        while i < calls.len()
            invariant
                i <= calls@.len(),
                calls@ == calls_v,
                out@.len() == i,
                reasoning_text@ == (match response.content {
                    Some(c) => c@,
                    None => Seq::<char>::empty(),
                }),
                forall|j: int|
                    0 <= j < i ==> (#[trigger] out@[j]).tool_name@ == calls_v[j].name@ && out@[
                        j
                    ].parameters@ == calls_v[j].arguments@ && out@[j].reasoning@
                        == reasoning_text@ && out@[j].alternatives@.len() == 0,
            decreases calls@.len() - i,
        {
            let call = &calls[i];
            out.push(
                ToolSelection {
                    tool_name: call.name.clone(),
                    parameters: call.arguments.clone(),
                    reasoning: reasoning_text.clone(),
                    alternatives: Vec::new(),
                },
            );
            i = i + 1;
        }
        out
    }

    /// The description of the available tools for the planning prompt: one
    /// line per tool, or a fixed note when none is available.
    pub fn build_tools_description(&self, context: &ReasoningContext) -> (r: String)
        ensures
            r@ == spec_tools_description(context.available_tools@),
    {
        if context.available_tools.len() == 0 {
            return String::from_str("No tools available.");
        }
        let mut out = String::new();
        let mut i: usize = 0;
        while i < context.available_tools.len()
            invariant
                i <= context.available_tools@.len(),
                context.available_tools@.len() > 0,
                out@ == tool_lines(context.available_tools@.take(i as int)),
            decreases context.available_tools@.len() - i,
        {
            proof {
                assert(context.available_tools@.take(i as int + 1).drop_last()
                    =~= context.available_tools@.take(i as int));
                assert(context.available_tools@.take(i as int + 1).last()
                    == context.available_tools@[i as int]);
            }
            if i > 0 {
                push_char(&mut out, '\n');
            }
            out.append("- ");
            out.append(context.available_tools[i].name.as_str());
            out.append(": ");
            out.append(context.available_tools[i].description.as_str());
            proof {
                assert(out@ =~= tool_lines(context.available_tools@.take(i as int + 1)));
            }
            i = i + 1;
        }
        proof {
            assert(context.available_tools@.take(context.available_tools@.len() as int)
                =~= context.available_tools@);
        }
        out
    }

    /// The system prompt for planning: the planning instructions with the
    /// available tools listed in the middle.
    pub fn build_planning_prompt(&self, context: &ReasoningContext) -> (r: String)
        ensures
            r@ == spec_planning_prefix().add(
                spec_tools_description(context.available_tools@),
            ).add(spec_planning_suffix()),
    {
        let mut out = String::from_str(
            "You are a planning assistant for an autonomous agent. Your job is to create detailed, actionable plans.\n\nAvailable tools:\n",
        );
        let desc = self.build_tools_description(context);
        out.append(desc.as_str());
        out.append(
            "\n\nWhen creating a plan:\n1. Break down the goal into specific, achievable steps\n2. Select the most appropriate tool for each step\n3. Consider dependencies between steps\n4. Estimate costs and time realistically\n5. Identify potential failure points\n\nRespond with a JSON plan holding the goal, the planned actions with their tools, parameters, reasoning and expected outcomes, the estimated cost and time, and your confidence.",
        );
        out
    }

    /// The system prompt for plain conversation.
    pub fn build_conversation_prompt(&self) -> (r: String)
        ensures
            r@ == spec_conversation_prompt(),
    {
        String::from_str(
            "You are a helpful AI agent assistant. You help users with tasks by:\n1. Understanding their requests clearly\n2. Asking clarifying questions when needed\n3. Providing accurate, helpful responses\n4. Being honest about limitations\n\nBe concise but thorough. If you're unsure, say so.",
        )
    }
}

/// The tool list rendered one line per tool.
pub open spec fn tool_lines(tools: Seq<ToolDefinition>) -> Seq<char>
    decreases tools.len(),
{
    if tools.len() == 0 {
        Seq::empty()
    } else if tools.len() == 1 {
        "- "@.add(tools[0].name@).add(": "@).add(tools[0].description@)
    } else {
        tool_lines(tools.drop_last()).push('\n').add(
            "- "@.add(tools.last().name@).add(": "@).add(tools.last().description@),
        )
    }
}

/// The tools description: the line list, or a fixed note when no tool is
/// available.
pub open spec fn spec_tools_description(tools: Seq<ToolDefinition>) -> Seq<char> {
    if tools.len() == 0 {
        "No tools available."@
    } else {
        tool_lines(tools)
    }
}

/// The text before the tool list in the planning prompt.
pub open spec fn spec_planning_prefix() -> Seq<char> {
    "You are a planning assistant for an autonomous agent. Your job is to create detailed, actionable plans.\n\nAvailable tools:\n"@
}

/// The text after the tool list in the planning prompt.
pub open spec fn spec_planning_suffix() -> Seq<char> {
    "\n\nWhen creating a plan:\n1. Break down the goal into specific, achievable steps\n2. Select the most appropriate tool for each step\n3. Consider dependencies between steps\n4. Estimate costs and time realistically\n5. Identify potential failure points\n\nRespond with a JSON plan holding the goal, the planned actions with their tools, parameters, reasoning and expected outcomes, the estimated cost and time, and your confidence."@
}

/// The conversation system prompt.
pub open spec fn spec_conversation_prompt() -> Seq<char> {
    "You are a helpful AI agent assistant. You help users with tasks by:\n1. Understanding their requests clearly\n2. Asking clarifying questions when needed\n3. Providing accurate, helpful responses\n4. Being honest about limitations\n\nBe concise but thorough. If you're unsure, say so."@
}

/// The index of the first occurrence of `c`, or the length when absent.
pub open spec fn spec_first(s: Seq<char>, c: char) -> int
    decreases s.len(),
{
    if s.len() == 0 {
        0
    } else if s[0] == c {
        0
    } else {
        1 + spec_first(s.skip(1), c)
    }
}

/// The index of the last occurrence of `c`, or `-1` when absent.
pub open spec fn spec_last(s: Seq<char>, c: char) -> int
    decreases s.len(),
{
    if s.len() == 0 {
        -1
    } else if s.last() == c {
        s.len() - 1
    } else {
        spec_last(s.drop_last(), c)
    }
}

/// When nothing before `i` is `c` and the character at `i`, if any, is,
/// the first occurrence is at `i`.
proof fn lemma_first_char(s: Seq<char>, c: char, i: int)
    requires
        0 <= i <= s.len(),
        forall|j: int| 0 <= j < i ==> s[j] != c,
        i < s.len() ==> s[i] == c,
    ensures
        spec_first(s, c) == i,
    decreases s.len(),
{
    if i == 0 {
    } else {
        assert forall|j: int| 0 <= j < i - 1 implies s.skip(1)[j] != c by {
            assert(s.skip(1)[j] == s[j + 1]);
        }
        if i - 1 < s.skip(1).len() {
            assert(s.skip(1)[i - 1] == s[i]);
        }
        lemma_first_char(s.skip(1), c, i - 1);
    }
}

/// When nothing after `i` is `c` and the character at `i`, if `i` is in
/// range, is, the last occurrence is at `i`.
proof fn lemma_last_char(s: Seq<char>, c: char, i: int)
    requires
        -1 <= i < s.len(),
        forall|j: int| i < j < s.len() ==> s[j] != c,
        i >= 0 ==> s[i] == c,
    ensures
        spec_last(s, c) == i,
    decreases s.len(),
{
    if s.len() > 0 {
        if i == s.len() - 1 {
        } else {
            assert(s.last() != c);
            assert forall|j: int| i < j < s.drop_last().len() implies s.drop_last()[j] != c by {
                assert(s.drop_last()[j] == s[j]);
            }
            if i >= 0 {
                assert(s.drop_last()[i] == s[i]);
            }
            lemma_last_char(s.drop_last(), c, i);
        }
    }
}

/// Extract the first top-level JSON object slice from text that may hold
/// surrounding prose: the span from the first `{` to the last `}`, when
/// both exist in that order.
pub fn extract_json(text: &str) -> (r: Option<&str>)
    ensures
        match r {
            Some(sub) => {
                let f = spec_first(text@, '{');
                let l = spec_last(text@, '}');
                &&& f < text@.len()
                &&& l >= 0
                &&& f < l
                &&& sub@ == text@.subrange(f, l + 1)
            },
            None => spec_first(text@, '{') >= text@.len() || spec_last(text@, '}') < 0
                || spec_first(text@, '{') >= spec_last(text@, '}'),
        },
{
    let len = text.unicode_len();
    let mut f: usize = 0;
    let mut found_f = false;
    while f < len && !found_f
        invariant
            f <= len,
            len == text@.len(),
            !found_f ==> forall|j: int| 0 <= j < f ==> text@[j] != '{',
            found_f ==> f < len && text@[f as int] == '{' && forall|j: int|
                0 <= j < f ==> text@[j] != '{',
        decreases len - f + (if found_f {
            0int
        } else {
            1int
        }),
    {
        if text.get_char(f) == '{' {
            found_f = true;
        } else {
            f = f + 1;
        }
    }
    if !found_f {
        proof {
            lemma_first_char(text@, '{', len as int);
        }
        return None;
    }
    proof {
        lemma_first_char(text@, '{', f as int);
    }
    let mut l: usize = len;
    let mut found_l = false;
    while l > 0 && !found_l
        invariant
            l <= len,
            len == text@.len(),
            !found_l ==> forall|j: int| l <= j < len ==> text@[j] != '}',
            found_l ==> l < len && text@[l as int] == '}' && forall|j: int|
                l < j < len ==> text@[j] != '}',
        decreases l + (if found_l {
            0int
        } else {
            1int
        }),
    {
        if text.get_char(l - 1) == '}' {
            l = l - 1;
            found_l = true;
        } else {
            l = l - 1;
        }
    }
    if !found_l {
        proof {
            lemma_last_char(text@, '}', -1);
        }
        return None;
    }
    proof {
        lemma_last_char(text@, '}', l as int);
    }
    if f < l {
        Some(text.substring_char(f, l + 1))
    } else {
        None
    }
}

} // verus!
