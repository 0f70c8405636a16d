//! The hook pipeline: lifecycle events, hook outcomes, and the registry that
//! runs priority-ordered hook chains.
//!
//! Hooks are data: audit hooks, declarative rule hooks compiled from bundles,
//! and outbound webhook hooks. A chain threads the event's primary content
//! through each subscribed hook in priority order; a rejection stops the
//! chain. Webhook hooks never block the chain: the registry returns the
//! deliveries they ask for, and the caller sends them.

use vstd::prelude::*;

use crate::errors::HookError;
use crate::json::{json_text, JsonValue, JsonView};
use crate::pattern::{regex_is_match, regex_match, regex_replace, regex_replace_all, regex_valid};
use crate::strutil::str_eq;

verus! {

broadcast use crate::json::group_json_view_lemmas;

/// Lifecycle points at which hooks observe or modify events.
#[derive(Clone, Copy, PartialEq, Eq, Structural, Debug)]
pub enum HookPoint {
    BeforeInbound,
    BeforeToolCall,
    BeforeOutbound,
    OnSessionStart,
    OnSessionEnd,
    TransformResponse,
}

impl HookPoint {
    /// The wire name of each hook point.
    pub open spec fn spec_str(&self) -> Seq<char> {
        match self {
            HookPoint::BeforeInbound => "beforeInbound"@,
            HookPoint::BeforeToolCall => "beforeToolCall"@,
            HookPoint::BeforeOutbound => "beforeOutbound"@,
            HookPoint::OnSessionStart => "onSessionStart"@,
            HookPoint::OnSessionEnd => "onSessionEnd"@,
            HookPoint::TransformResponse => "transformResponse"@,
        }
    }

    /// The wire name of this hook point.
    pub fn as_str(&self) -> (r: &'static str)
        ensures
            r@ == self.spec_str(),
    {
        match self {
            HookPoint::BeforeInbound => "beforeInbound",
            HookPoint::BeforeToolCall => "beforeToolCall",
            HookPoint::BeforeOutbound => "beforeOutbound",
            HookPoint::OnSessionStart => "onSessionStart",
            HookPoint::OnSessionEnd => "onSessionEnd",
            HookPoint::TransformResponse => "transformResponse",
        }
    }

    /// Parse a hook point from its wire name.
    pub open spec fn spec_parse(s: Seq<char>) -> Option<HookPoint> {
        if s == "beforeInbound"@ {
            Some(HookPoint::BeforeInbound)
        } else if s == "beforeToolCall"@ {
            Some(HookPoint::BeforeToolCall)
        } else if s == "beforeOutbound"@ {
            Some(HookPoint::BeforeOutbound)
        } else if s == "onSessionStart"@ {
            Some(HookPoint::OnSessionStart)
        } else if s == "onSessionEnd"@ {
            Some(HookPoint::OnSessionEnd)
        } else if s == "transformResponse"@ {
            Some(HookPoint::TransformResponse)
        } else {
            None
        }
    }

    /// Parse a hook point from its wire name; `None` when no point has that
    /// name.
    pub fn parse(s: &str) -> (r: Option<HookPoint>)
        ensures
            r == Self::spec_parse(s@),
    {
        if str_eq(s, "beforeInbound") {
            Some(HookPoint::BeforeInbound)
        } else if str_eq(s, "beforeToolCall") {
            Some(HookPoint::BeforeToolCall)
        } else if str_eq(s, "beforeOutbound") {
            Some(HookPoint::BeforeOutbound)
        } else if str_eq(s, "onSessionStart") {
            Some(HookPoint::OnSessionStart)
        } else if str_eq(s, "onSessionEnd") {
            Some(HookPoint::OnSessionEnd)
        } else if str_eq(s, "transformResponse") {
            Some(HookPoint::TransformResponse)
        } else {
            proof {
                assert forall|p: HookPoint| p.spec_str() != s@ by {
                    match p {
                        HookPoint::BeforeInbound => assert("beforeInbound"@ != s@),
                        HookPoint::BeforeToolCall => assert("beforeToolCall"@ != s@),
                        HookPoint::BeforeOutbound => assert("beforeOutbound"@ != s@),
                        HookPoint::OnSessionStart => assert("onSessionStart"@ != s@),
                        HookPoint::OnSessionEnd => assert("onSessionEnd"@ != s@),
                        HookPoint::TransformResponse => assert("transformResponse"@ != s@),
                    }
                }
            }
            None
        }
    }
}

/// A lifecycle event carried through a hook chain.
#[derive(Debug, Clone)]
pub enum HookEvent {
    Inbound { user_id: String, channel: String, content: String, thread_id: Option<u64> },
    ToolCall { user_id: String, tool_name: String, parameters: JsonValue },
    Outbound { user_id: String, content: String },
    SessionStart { user_id: String, session_id: String },
    SessionEnd { user_id: String, session_id: String },
    ResponseTransform { user_id: String, response: String },
}

impl HookEvent {
    /// The hook point this event belongs to.
    pub open spec fn spec_hook_point(&self) -> HookPoint {
        match self {
            HookEvent::Inbound { .. } => HookPoint::BeforeInbound,
            HookEvent::ToolCall { .. } => HookPoint::BeforeToolCall,
            HookEvent::Outbound { .. } => HookPoint::BeforeOutbound,
            HookEvent::SessionStart { .. } => HookPoint::OnSessionStart,
            HookEvent::SessionEnd { .. } => HookPoint::OnSessionEnd,
            HookEvent::ResponseTransform { .. } => HookPoint::TransformResponse,
        }
    }

    /// The hook point this event belongs to.
    pub fn hook_point(&self) -> (r: HookPoint)
        ensures
            r == self.spec_hook_point(),
    {
        match self {
            HookEvent::Inbound { .. } => HookPoint::BeforeInbound,
            HookEvent::ToolCall { .. } => HookPoint::BeforeToolCall,
            HookEvent::Outbound { .. } => HookPoint::BeforeOutbound,
            HookEvent::SessionStart { .. } => HookPoint::OnSessionStart,
            HookEvent::SessionEnd { .. } => HookPoint::OnSessionEnd,
            HookEvent::ResponseTransform { .. } => HookPoint::TransformResponse,
        }
    }

    /// The user this event belongs to.
    pub open spec fn spec_user_id(&self) -> Seq<char> {
        match self {
            HookEvent::Inbound { user_id, .. } => user_id@,
            HookEvent::ToolCall { user_id, .. } => user_id@,
            HookEvent::Outbound { user_id, .. } => user_id@,
            HookEvent::SessionStart { user_id, .. } => user_id@,
            HookEvent::SessionEnd { user_id, .. } => user_id@,
            HookEvent::ResponseTransform { user_id, .. } => user_id@,
        }
    }

    /// The primary content of this event: the message content for inbound and
    /// outbound events, the parameters rendered as JSON text for tool calls,
    /// the session id for session events, and the response for response
    /// transforms.
    pub open spec fn spec_primary_content(&self) -> Seq<char> {
        match self {
            HookEvent::Inbound { content, .. } => content@,
            HookEvent::ToolCall { parameters, .. } => json_text(parameters@),
            HookEvent::Outbound { content, .. } => content@,
            HookEvent::SessionStart { session_id, .. } => session_id@,
            HookEvent::SessionEnd { session_id, .. } => session_id@,
            HookEvent::ResponseTransform { response, .. } => response@,
        }
    }
}

/// The user identifier of an event.
pub fn event_user_id(event: &HookEvent) -> (r: &str)
    ensures
        r@ == event.spec_user_id(),
{
    match event {
        HookEvent::Inbound { user_id, .. } => user_id.as_str(),
        HookEvent::ToolCall { user_id, .. } => user_id.as_str(),
        HookEvent::Outbound { user_id, .. } => user_id.as_str(),
        HookEvent::SessionStart { user_id, .. } => user_id.as_str(),
        HookEvent::SessionEnd { user_id, .. } => user_id.as_str(),
        HookEvent::ResponseTransform { user_id, .. } => user_id.as_str(),
    }
}

/// The primary content of an event.
pub fn extract_primary_content(event: &HookEvent) -> (r: String)
    ensures
        r@ == event.spec_primary_content(),
{
    match event {
        HookEvent::Inbound { content, .. } => content.clone(),
        HookEvent::ToolCall { parameters, .. } => parameters.to_text(),
        HookEvent::Outbound { content, .. } => content.clone(),
        HookEvent::SessionStart { session_id, .. } => session_id.clone(),
        HookEvent::SessionEnd { session_id, .. } => session_id.clone(),
        HookEvent::ResponseTransform { response, .. } => response.clone(),
    }
}

/// The outcome of one hook on one event.
#[derive(Debug, Clone)]
pub enum HookOutcome {
    /// Proceed; when `modified` is present it replaces the event's primary
    /// content for the hooks downstream.
    Continue { modified: Option<String> },
    /// Stop the chain.
    Reject { reason: String },
}

impl HookOutcome {
    /// Proceed unchanged.
    pub fn ok() -> (r: Self)
        ensures
            r matches HookOutcome::Continue { modified } && modified is None,
    {
        HookOutcome::Continue { modified: None }
    }

    /// Proceed with replaced content.
    pub fn modify(content: String) -> (r: Self)
        ensures
            r matches HookOutcome::Continue { modified } && modified matches Some(m) && m@
                == content@,
    {
        HookOutcome::Continue { modified: Some(content) }
    }

    /// Stop the chain.
    pub fn reject(reason: String) -> (r: Self)
        ensures
            r matches HookOutcome::Reject { reason: rr } && rr@ == reason@,
    {
        HookOutcome::Reject { reason }
    }
}

/// How a hook's own failure is treated: a fail-open hook is skipped, a
/// fail-closed hook stops the chain.
#[derive(Debug, Clone, Copy, PartialEq, Eq, Structural)]
pub enum HookFailureMode {
    FailOpen,
    FailClosed,
}

/// A declarative rule hook, compiled from a bundle: an optional regex guard,
/// an optional immediate rejection, regex replacements applied in order, and
/// optional prepended and appended text.
#[derive(Debug, Clone)]
pub struct RuleHook {
    /// Optional regex guard: when it does not match, the rule is a no-op.
    pub when_regex: Option<String>,
    /// Optional immediate reject reason, used when the guard matches.
    pub reject_reason: Option<String>,
    /// Regex replacements, each a pattern and its replacement, in order.
    pub replacements: Vec<(String, String)>,
    /// Text prepended to the content.
    pub prepend: Option<String>,
    /// Text appended to the content.
    pub append: Option<String>,
}

impl RuleHook {
    /// Every pattern in the rule compiles.
    pub open spec fn wf(&self) -> bool {
        &&& (self.when_regex matches Some(p) ==> regex_valid(p@))
        &&& forall|i: int|
            0 <= i < self.replacements@.len() ==> regex_valid(
                #[trigger] self.replacements@[i].0@,
            )
    }
}

/// `text` after applying each replacement in order.
pub open spec fn apply_replacements(reps: Seq<(String, String)>, text: Seq<char>) -> Seq<char>
    decreases reps.len(),
{
    if reps.len() == 0 {
        text
    } else {
        apply_replacements(reps.skip(1), regex_replace(reps[0].0@, text, reps[0].1@))
    }
}

/// The content a rule hook produces from `content` when it neither guards
/// out nor rejects: replacements in order, then the prepended and appended
/// text.
pub open spec fn rule_modified(rule: RuleHook, content: Seq<char>) -> Seq<char> {
    let replaced = apply_replacements(rule.replacements@, content);
    let with_prefix = match rule.prepend {
        Some(p) => p@.add(replaced),
        None => replaced,
    };
    match rule.append {
        Some(a) => with_prefix.add(a@),
        None => with_prefix,
    }
}

/// The outcome of a chain, mathematically.
pub enum ChainResultView {
    /// The chain ran to the end; `modified` holds the final content when some
    /// hook modified it.
    Continue { modified: Option<Seq<char>> },
    /// A hook rejected the event.
    Rejected { reason: Seq<char> },
}

/// The outcome of one rule hook on the current content.
pub open spec fn rule_outcome_on(rule: RuleHook, content: Seq<char>) -> ChainResultView {
    if rule.when_regex matches Some(p) && !regex_match(p@, content) {
        ChainResultView::Continue { modified: None }
    } else {
        match rule.reject_reason {
            Some(r) => ChainResultView::Rejected { reason: r@ },
            None => {
                let m = rule_modified(rule, content);
                if m != content {
                    ChainResultView::Continue { modified: Some(m) }
                } else {
                    ChainResultView::Continue { modified: None }
                }
            },
        }
    }
}

/// The outcome of one hook on the current content.
pub open spec fn hook_outcome_on(h: RegisteredHook, content: Seq<char>) -> ChainResultView {
    match h.behavior {
        HookBehavior::Audit => ChainResultView::Continue { modified: None },
        HookBehavior::Webhook(_) => ChainResultView::Continue { modified: None },
        HookBehavior::Rule(rule) => rule_outcome_on(rule, content),
    }
}

impl RuleHook {
    /// Run this rule on the given content.
    pub fn execute(&self, content: &str) -> (r: HookOutcome)
        requires
            self.wf(),
        ensures
            outcome_matches(r, rule_outcome_on(*self, content@)),
    {
        if let Some(guard) = &self.when_regex {
            if !regex_is_match(guard.as_str(), content) {
                return HookOutcome::ok();
            }
        }
        if let Some(reason) = &self.reject_reason {
            return HookOutcome::reject(reason.clone());
        }
        let mut modified: String = content.to_owned();
        proof {
            assert(self.replacements@.skip(0) =~= self.replacements@);
        }
        let mut i: usize = 0;
        while i < self.replacements.len()
            invariant
                i <= self.replacements@.len(),
                self.wf(),
                apply_replacements(self.replacements@.skip(i as int), modified@)
                    == apply_replacements(self.replacements@, content@),
            decreases self.replacements@.len() - i,
        {
            proof {
                assert(self.replacements@.skip(i as int)[0] == self.replacements@[i as int]);
                assert(self.replacements@.skip(i as int).skip(1) =~= self.replacements@.skip(
                    i as int + 1,
                ));
            }
            modified = regex_replace_all(
                self.replacements[i].0.as_str(),
                modified.as_str(),
                self.replacements[i].1.as_str(),
            );
            i = i + 1;
        }
        proof {
            assert(self.replacements@.skip(self.replacements@.len() as int)
                =~= Seq::<(String, String)>::empty());
        }
        if let Some(prefix) = &self.prepend {
            let mut with_prefix = prefix.clone();
            with_prefix.append(modified.as_str());
            modified = with_prefix;
        }
        if let Some(suffix) = &self.append {
            modified.append(suffix.as_str());
        }
        if !str_eq(modified.as_str(), content) {
            HookOutcome::modify(modified)
        } else {
            HookOutcome::ok()
        }
    }
}

/// An outbound webhook hook: a fire-and-forget notification target.
#[derive(Debug, Clone)]
pub struct WebhookHook {
    /// Target URL.
    pub url: String,
    /// Static headers sent with each delivery.
    pub headers: Vec<(String, String)>,
}

/// What a registered hook does when it runs.
#[derive(Debug, Clone)]
pub enum HookBehavior {
    /// Observe the event and proceed.
    Audit,
    /// Apply a declarative rule.
    Rule(RuleHook),
    /// Ask for a webhook delivery and proceed.
    Webhook(WebhookHook),
}

/// A hook as the registry holds it.
#[derive(Debug, Clone)]
pub struct RegisteredHook {
    /// Hook name, scoped by its source.
    pub name: String,
    /// Lifecycle points the hook subscribes to.
    pub points: Vec<HookPoint>,
    /// Priority; lower runs first.
    pub priority: u32,
    /// How a failure of this hook is treated.
    pub failure_mode: HookFailureMode,
    /// Per-run timeout in milliseconds.
    pub timeout_ms: u64,
    /// What the hook does.
    pub behavior: HookBehavior,
}

impl RegisteredHook {
    /// Well-formedness: a rule hook's patterns compile.
    pub open spec fn wf(&self) -> bool {
        match self.behavior {
            HookBehavior::Rule(rule) => rule.wf(),
            _ => true,
        }
    }

    /// Whether this hook subscribes to `point`.
    pub open spec fn spec_subscribed(&self, point: HookPoint) -> bool {
        exists|i: int| 0 <= i < self.points@.len() && self.points@[i] == point
    }

    /// Whether this hook subscribes to `point`.
    pub fn subscribed(&self, point: HookPoint) -> (r: bool)
        ensures
            r == self.spec_subscribed(point),
    {
        let mut i: usize = 0;
        while i < self.points.len()
            invariant
                i <= self.points@.len(),
                forall|j: int| 0 <= j < i ==> self.points@[j] != point,
            decreases self.points@.len() - i,
        {
            if self.points[i] == point {
                return true;
            }
            i = i + 1;
        }
        false
    }
}

/// A webhook delivery the caller owes after a chain run. The sender adds the
/// timestamp when it posts the payload.
#[derive(Debug, Clone)]
pub struct WebhookDelivery {
    /// Name of the hook that asked for the delivery.
    pub hook: String,
    /// Target URL.
    pub url: String,
    /// Headers to send.
    pub headers: Vec<(String, String)>,
    /// The JSON payload body.
    pub body: JsonValue,
}

/// The payload of a webhook delivery: the hook's name, the point's wire
/// name, the event, and the chain's context metadata.
pub open spec fn payload_json(
    hook: Seq<char>,
    point: HookPoint,
    event: JsonView,
    metadata: JsonView,
) -> JsonView {
    JsonView::Obj(
        seq![
            ("hook"@, JsonView::Str(hook)),
            ("point"@, JsonView::Str(point.spec_str())),
            ("event"@, event),
            ("metadata"@, metadata),
        ],
    )
}

/// The wire form of an event: a tagged object.
pub open spec fn spec_event_json(e: HookEvent) -> JsonView {
    match e {
        HookEvent::Inbound { user_id, channel, content, thread_id } => JsonView::Obj(
            seq![
                ("type"@, JsonView::Str("inbound"@)),
                ("user_id"@, JsonView::Str(user_id@)),
                ("channel"@, JsonView::Str(channel@)),
                ("content"@, JsonView::Str(content@)),
                (
                    "thread_id"@,
                    match thread_id {
                        Some(t) => JsonView::Int((t as i64) as int),
                        None => JsonView::Null,
                    },
                ),
            ],
        ),
        HookEvent::ToolCall { user_id, tool_name, parameters } => JsonView::Obj(
            seq![
                ("type"@, JsonView::Str("tool_call"@)),
                ("user_id"@, JsonView::Str(user_id@)),
                ("tool_name"@, JsonView::Str(tool_name@)),
                ("parameters"@, parameters@),
            ],
        ),
        HookEvent::Outbound { user_id, content } => JsonView::Obj(
            seq![
                ("type"@, JsonView::Str("outbound"@)),
                ("user_id"@, JsonView::Str(user_id@)),
                ("content"@, JsonView::Str(content@)),
            ],
        ),
        HookEvent::SessionStart { user_id, session_id } => JsonView::Obj(
            seq![
                ("type"@, JsonView::Str("session_start"@)),
                ("user_id"@, JsonView::Str(user_id@)),
                ("session_id"@, JsonView::Str(session_id@)),
            ],
        ),
        HookEvent::SessionEnd { user_id, session_id } => JsonView::Obj(
            seq![
                ("type"@, JsonView::Str("session_end"@)),
                ("user_id"@, JsonView::Str(user_id@)),
                ("session_id"@, JsonView::Str(session_id@)),
            ],
        ),
        HookEvent::ResponseTransform { user_id, response } => JsonView::Obj(
            seq![
                ("type"@, JsonView::Str("response_transform"@)),
                ("user_id"@, JsonView::Str(user_id@)),
                ("response"@, JsonView::Str(response@)),
            ],
        ),
    }
}

/// Build the wire form of an event.
pub fn event_to_json(e: &HookEvent) -> (r: JsonValue)
    ensures
        r@ == spec_event_json(*e),
{
    match e {
        HookEvent::Inbound { user_id, channel, content, thread_id } => {
            let mut entries: Vec<(String, JsonValue)> = Vec::new();
            entries.push((String::from_str("type"), JsonValue::Str(String::from_str("inbound"))));
            entries.push((String::from_str("user_id"), JsonValue::Str(user_id.clone())));
            entries.push((String::from_str("channel"), JsonValue::Str(channel.clone())));
            entries.push((String::from_str("content"), JsonValue::Str(content.clone())));
            let tid = match thread_id {
                Some(t) => JsonValue::Int(#[verifier::truncate] (*t as i64)),
                None => JsonValue::Null,
            };
            entries.push((String::from_str("thread_id"), tid));
            let ghost ge = entries@;
            let r = JsonValue::Obj(entries);
            proof {
                assert(r@->Obj_0 == crate::json::entry_views_seq(ge));
                assert(crate::json::entry_views_seq(ge).len() == ge.len());
                assert(r@->Obj_0 =~= spec_event_json(*e)->Obj_0);
            }
            r
        },
        HookEvent::ToolCall { user_id, tool_name, parameters } => {
            let mut entries: Vec<(String, JsonValue)> = Vec::new();
            entries.push((String::from_str("type"), JsonValue::Str(String::from_str("tool_call"))));
            entries.push((String::from_str("user_id"), JsonValue::Str(user_id.clone())));
            entries.push((String::from_str("tool_name"), JsonValue::Str(tool_name.clone())));
            entries.push((String::from_str("parameters"), parameters.clone()));
            let ghost ge = entries@;
            let r = JsonValue::Obj(entries);
            proof {
                assert(r@->Obj_0 == crate::json::entry_views_seq(ge));
                assert(crate::json::entry_views_seq(ge).len() == ge.len());
                assert(r@->Obj_0 =~= spec_event_json(*e)->Obj_0);
            }
            r
        },
        HookEvent::Outbound { user_id, content } => {
            let mut entries: Vec<(String, JsonValue)> = Vec::new();
            entries.push((String::from_str("type"), JsonValue::Str(String::from_str("outbound"))));
            entries.push((String::from_str("user_id"), JsonValue::Str(user_id.clone())));
            entries.push((String::from_str("content"), JsonValue::Str(content.clone())));
            let ghost ge = entries@;
            let r = JsonValue::Obj(entries);
            proof {
                assert(r@->Obj_0 == crate::json::entry_views_seq(ge));
                assert(crate::json::entry_views_seq(ge).len() == ge.len());
                assert(r@->Obj_0 =~= spec_event_json(*e)->Obj_0);
            }
            r
        },
        HookEvent::SessionStart { user_id, session_id } => {
            let mut entries: Vec<(String, JsonValue)> = Vec::new();
            entries.push(
                (String::from_str("type"), JsonValue::Str(String::from_str("session_start"))),
            );
            entries.push((String::from_str("user_id"), JsonValue::Str(user_id.clone())));
            entries.push((String::from_str("session_id"), JsonValue::Str(session_id.clone())));
            let ghost ge = entries@;
            let r = JsonValue::Obj(entries);
            proof {
                assert(r@->Obj_0 == crate::json::entry_views_seq(ge));
                assert(crate::json::entry_views_seq(ge).len() == ge.len());
                assert(r@->Obj_0 =~= spec_event_json(*e)->Obj_0);
            }
            r
        },
        HookEvent::SessionEnd { user_id, session_id } => {
            let mut entries: Vec<(String, JsonValue)> = Vec::new();
            entries.push(
                (String::from_str("type"), JsonValue::Str(String::from_str("session_end"))),
            );
            entries.push((String::from_str("user_id"), JsonValue::Str(user_id.clone())));
            entries.push((String::from_str("session_id"), JsonValue::Str(session_id.clone())));
            let ghost ge = entries@;
            let r = JsonValue::Obj(entries);
            proof {
                assert(r@->Obj_0 == crate::json::entry_views_seq(ge));
                assert(crate::json::entry_views_seq(ge).len() == ge.len());
                assert(r@->Obj_0 =~= spec_event_json(*e)->Obj_0);
            }
            r
        },
        HookEvent::ResponseTransform { user_id, response } => {
            let mut entries: Vec<(String, JsonValue)> = Vec::new();
            entries.push(
                (String::from_str("type"), JsonValue::Str(String::from_str("response_transform"))),
            );
            entries.push((String::from_str("user_id"), JsonValue::Str(user_id.clone())));
            entries.push((String::from_str("response"), JsonValue::Str(response.clone())));
            let ghost ge = entries@;
            let r = JsonValue::Obj(entries);
            proof {
                assert(r@->Obj_0 == crate::json::entry_views_seq(ge));
                assert(crate::json::entry_views_seq(ge).len() == ge.len());
                assert(r@->Obj_0 =~= spec_event_json(*e)->Obj_0);
            }
            r
        },
    }
}

/// How an executable outcome corresponds to the mathematical one.
pub open spec fn outcome_matches(r: HookOutcome, v: ChainResultView) -> bool {
    match (r, v) {
        (
            HookOutcome::Continue { modified: None },
            ChainResultView::Continue { modified: None },
        ) => true,
        (
            HookOutcome::Continue { modified: Some(s) },
            ChainResultView::Continue { modified: Some(m) },
        ) => s@ == m,
        (HookOutcome::Reject { reason }, ChainResultView::Rejected { reason: m }) => reason@ == m,
        _ => false,
    }
}

/// The evaluation of a chain suffix: its result and how many of the hooks
/// were looked at before stopping.
pub struct ChainEval {
    pub result: ChainResultView,
    pub consumed: int,
}

/// Evaluate a chain of hooks on an event at `point`, with `any` saying
/// whether an earlier hook modified the content and `current` the threaded
/// content so far.
pub open spec fn chain_from(
    hooks: Seq<RegisteredHook>,
    point: HookPoint,
    any: bool,
    current: Seq<char>,
) -> ChainEval
    decreases hooks.len(),
{
    if hooks.len() == 0 {
        ChainEval {
            result: ChainResultView::Continue {
                modified: if any {
                    Some(current)
                } else {
                    None
                },
            },
            consumed: 0,
        }
    } else if !hooks[0].spec_subscribed(point) {
        let rest = chain_from(hooks.skip(1), point, any, current);
        ChainEval { result: rest.result, consumed: rest.consumed + 1 }
    } else {
        match hook_outcome_on(hooks[0], current) {
            ChainResultView::Continue { modified: None } => {
                let rest = chain_from(hooks.skip(1), point, any, current);
                ChainEval { result: rest.result, consumed: rest.consumed + 1 }
            },
            ChainResultView::Continue { modified: Some(m) } => {
                let rest = chain_from(hooks.skip(1), point, true, m);
                ChainEval { result: rest.result, consumed: rest.consumed + 1 }
            },
            ChainResultView::Rejected { reason } => ChainEval {
                result: ChainResultView::Rejected { reason },
                consumed: 1,
            },
        }
    }
}

/// The webhook hooks among `hooks` that subscribe to `point`, in order.
pub open spec fn webhook_hooks(hooks: Seq<RegisteredHook>, point: HookPoint) -> Seq<RegisteredHook>
    decreases hooks.len(),
{
    if hooks.len() == 0 {
        Seq::empty()
    } else {
        let rest = webhook_hooks(hooks.skip(1), point);
        if hooks[0].spec_subscribed(point) && hooks[0].behavior is Webhook {
            seq![hooks[0]].add(rest)
        } else {
            rest
        }
    }
}

/// Whether a delivery is the one hook `h` asks for on `event`.
pub open spec fn delivery_matches(d: WebhookDelivery, h: RegisteredHook, e: HookEvent) -> bool {
    &&& h.behavior matches HookBehavior::Webhook(w) && d.url@ == w.url@ && d.headers.deep_view()
        == w.headers.deep_view()
    &&& d.hook@ == h.name@
    &&& d.body@ == payload_json(h.name@, e.spec_hook_point(), spec_event_json(e), JsonView::Null)
}

/// The index at which a hook of priority `p` is inserted: after every hook
/// whose priority is not greater, so that equal priorities keep registration
/// order.
pub open spec fn stable_insert_pos(hooks: Seq<RegisteredHook>, p: u32) -> int
    decreases hooks.len(),
{
    if hooks.len() == 0 {
        0
    } else if hooks[0].priority <= p {
        1 + stable_insert_pos(hooks.skip(1), p)
    } else {
        0
    }
}

/// Hook registry: hooks ordered by priority ascending, ties in registration
/// order.
pub struct HookRegistry {
    hooks: Vec<RegisteredHook>,
}

impl View for HookRegistry {
    type V = Seq<RegisteredHook>;

    closed spec fn view(&self) -> Seq<RegisteredHook> {
        self.hooks@
    }
}

impl HookRegistry {
    /// Well-formedness: hooks sorted by priority, and each hook well-formed.
    pub open spec fn wf(&self) -> bool {
        &&& forall|i: int, j: int|
            0 <= i < j < self@.len() ==> #[trigger] self@[i].priority <= #[trigger] self@[j].priority
        &&& forall|i: int| 0 <= i < self@.len() ==> #[trigger] self@[i].wf()
    }

    /// Create an empty registry.
    pub fn new() -> (r: Self)
        ensures
            r.wf(),
            r@ == Seq::<RegisteredHook>::empty(),
    {
        let r = HookRegistry { hooks: Vec::new() };
        proof {
            assert(r@ =~= Seq::<RegisteredHook>::empty());
        }
        r
    }

    /// The number of registered hooks.
    pub fn len(&self) -> (r: usize)
        ensures
            r as int == self@.len(),
    {
        self.hooks.len()
    }

    /// Register a hook under an explicit priority. The hook runs after every
    /// hook whose priority is not greater: equal priorities keep registration
    /// order.
    pub fn register_with_priority(&mut self, hook: RegisteredHook, priority: u32)
        requires
            old(self).wf(),
            hook.wf(),
        ensures
            final(self).wf(),
            final(self)@.len() == old(self)@.len() + 1,
            final(self)@ == old(self)@.insert(
                stable_insert_pos(old(self)@, priority),
                (RegisteredHook { priority, ..hook }),
            ),
    {
        let entry = RegisteredHook { priority, ..hook };
        let mut i: usize = 0;
        while i < self.hooks.len() && self.hooks[i].priority <= priority
            invariant
                i <= self@.len(),
                self@ == old(self)@,
                forall|j: int| 0 <= j < i ==> #[trigger] self@[j].priority <= priority,
            decreases self@.len() - i,
        {
            i = i + 1;
        }
        proof {
            lemma_stable_insert_pos_char(self@, priority, i as int);
        }
        self.hooks.insert(i, entry);
        proof {
            let pos = i as int;
            let newv = self@;
            let oldv = old(self)@;
            assert forall|a: int, b: int| 0 <= a < b < newv.len() implies #[trigger] newv[a].priority
                <= #[trigger] newv[b].priority by {
                if a < pos && b < pos {
                } else if a < pos && b == pos {
                } else if a < pos && b > pos {
                    assert(newv[b] == oldv[b - 1]);
                } else if a == pos && b > pos {
                    assert(newv[b] == oldv[b - 1]);
                    assert(oldv[b - 1].priority > priority);
                } else {
                    assert(newv[a] == oldv[a - 1]);
                    assert(newv[b] == oldv[b - 1]);
                }
            }
        }
    }

    /// Register a hook under its own priority.
    pub fn register(&mut self, hook: RegisteredHook)
        requires
            old(self).wf(),
            hook.wf(),
        ensures
            final(self).wf(),
            final(self)@.len() == old(self)@.len() + 1,
            final(self)@ == old(self)@.insert(stable_insert_pos(old(self)@, hook.priority), hook),
    {
        let p = hook.priority;
        self.register_with_priority(hook, p);
    }

    /// Run the chain for `event`'s hook point.
    ///
    /// The result is the chain's outcome — the threaded content when any hook
    /// modified it, or the first rejection — together with the webhook
    /// deliveries that the hooks reached asked for. Delivering them is the
    /// caller's task; the chain itself never waits for a webhook.
    pub fn run(&self, event: &HookEvent) -> (r: (Result<HookOutcome, HookError>, Vec<
        WebhookDelivery,
    >))
        requires
            self.wf(),
        ensures
            ({
                let eval = chain_from(
                    self@,
                    event.spec_hook_point(),
                    false,
                    event.spec_primary_content(),
                );
                let hooks_seen = webhook_hooks(
                    self@.take(eval.consumed),
                    event.spec_hook_point(),
                );
                &&& match r.0 {
                    Ok(out) => outcome_matches(out, eval.result),
                    Err(e) => e matches HookError::Rejected { reason } && eval.result
                        matches ChainResultView::Rejected { reason: m } && reason@ == m,
                }
                &&& r.1@.len() == hooks_seen.len()
                &&& forall|i: int|
                    0 <= i < r.1@.len() ==> delivery_matches(
                        #[trigger] r.1@[i],
                        hooks_seen[i],
                        *event,
                    )
            }),
    {
        let point = event.hook_point();
        let mut current: String = extract_primary_content(event);
        let mut any: bool = false;
        let mut deliveries: Vec<WebhookDelivery> = Vec::new();
        let ghost full = self@;
        let ghost orig = event.spec_primary_content();
        proof {
            assert(full.skip(0) =~= full);
            assert(full.take(0) =~= Seq::<RegisteredHook>::empty());
        }
        let mut i: usize = 0;
        while i < self.hooks.len()
            invariant
                i <= full.len(),
                full == self@,
                self.wf(),
                point == event.spec_hook_point(),
                orig == event.spec_primary_content(),
                chain_from(full, point, false, orig) == ({
                    let rest = chain_from(full.skip(i as int), point, any, current@);
                    ChainEval { result: rest.result, consumed: rest.consumed + i }
                }),
                deliveries@.len() == webhook_hooks(full.take(i as int), point).len(),
                forall|k: int|
                    0 <= k < deliveries@.len() ==> delivery_matches(
                        #[trigger] deliveries@[k],
                        webhook_hooks(full.take(i as int), point)[k],
                        *event,
                    ),
            decreases full.len() - i,
        {
            proof {
                assert(full.skip(i as int)[0] == full[i as int]);
                assert(full.skip(i as int).skip(1) =~= full.skip(i as int + 1));
                assert(full.take(i as int + 1).drop_last() =~= full.take(i as int));
                assert(full.take(i as int + 1).last() == full[i as int]);
                lemma_webhook_hooks_unfold(full.take(i as int + 1), point);
            }
            let hook = &self.hooks[i];
            proof {
                assert(self@[i as int].wf());
            }
            if hook.subscribed(point) {
                match &hook.behavior {
                    HookBehavior::Audit => {},
                    HookBehavior::Webhook(w) => {
                        let mut entries: Vec<(String, JsonValue)> = Vec::new();
                        entries.push((String::from_str("hook"), JsonValue::Str(hook.name.clone())));
                        entries.push(
                            (
                                String::from_str("point"),
                                JsonValue::Str(String::from_str(point.as_str())),
                            ),
                        );
                        entries.push((String::from_str("event"), event_to_json(event)));
                        entries.push((String::from_str("metadata"), JsonValue::Null));
                        let ghost ge = entries@;
                        let body = JsonValue::Obj(entries);
                        proof {
                            assert(body@->Obj_0 == crate::json::entry_views_seq(ge));
                            assert(crate::json::entry_views_seq(ge).len() == ge.len());
                            assert(body@->Obj_0 =~= payload_json(
                                hook.name@,
                                point,
                                spec_event_json(*event),
                                JsonView::Null,
                            )->Obj_0);
                        }
                        let mut headers: Vec<(String, String)> = Vec::new();
                        let mut hi: usize = 0;
                        while hi < w.headers.len()
                            invariant
                                hi <= w.headers@.len(),
                                headers@.len() == hi,
                                forall|k: int| 0 <= k < hi ==> headers@[k] == w.headers@[k],
                            decreases w.headers@.len() - hi,
                        {
                            headers.push((w.headers[hi].0.clone(), w.headers[hi].1.clone()));
                            hi = hi + 1;
                        }
                        proof {
                            assert(headers@ =~= w.headers@);
                            assert(headers.deep_view() =~= w.headers.deep_view());
                        }
                        deliveries.push(
                            WebhookDelivery {
                                hook: hook.name.clone(),
                                url: w.url.clone(),
                                headers,
                                body,
                            },
                        );
                    },
                    HookBehavior::Rule(rule) => {
                        let outcome = rule.execute(current.as_str());
                        match outcome {
                            HookOutcome::Continue { modified: None } => {},
                            HookOutcome::Continue { modified: Some(m) } => {
                                current = m;
                                any = true;
                            },
                            HookOutcome::Reject { reason } => {
                                proof {
                                    assert(hook_outcome_on(full[i as int], current@)
                                        matches ChainResultView::Rejected { reason: m } && reason@
                                        == m);
                                    let eval = chain_from(full, point, false, orig);
                                    assert(eval.consumed == i + 1);
                                    assert(eval.result matches ChainResultView::Rejected {
                                        reason: m,
                                    } && reason@ == m);
                                    let hooks_seen = webhook_hooks(
                                        full.subrange(0, eval.consumed),
                                        point,
                                    );
                                    assert(webhook_hooks(full.take(i as int + 1), point)
                                        =~= webhook_hooks(full.take(i as int), point));
                                    assert(hooks_seen == webhook_hooks(
                                        full.take(i as int + 1),
                                        point,
                                    ));
                                    assert(deliveries@.len() == hooks_seen.len());
                                    assert(forall|k: int|
                                        0 <= k < deliveries@.len() ==> delivery_matches(
                                            #[trigger] deliveries@[k],
                                            hooks_seen[k],
                                            *event,
                                        ));
                                }
                                return (Err(HookError::Rejected { reason }), deliveries);
                            },
                        }
                    },
                }
            }
            i = i + 1;
        }
        proof {
            assert(full.skip(full.len() as int) =~= Seq::<RegisteredHook>::empty());
            assert(full.take(full.len() as int) =~= full);
        }
        if any {
            (Ok(HookOutcome::Continue { modified: Some(current) }), deliveries)
        } else {
            (Ok(HookOutcome::Continue { modified: None }), deliveries)
        }
    }
}

/// When every hook before `i` has priority at most `p` and the hook at `i`,
/// if any, has a greater priority, the stable insertion point is `i`.
proof fn lemma_stable_insert_pos_char(hooks: Seq<RegisteredHook>, p: u32, i: int)
    requires
        0 <= i <= hooks.len(),
        forall|j: int| 0 <= j < i ==> #[trigger] hooks[j].priority <= p,
        i < hooks.len() ==> hooks[i].priority > p,
    ensures
        stable_insert_pos(hooks, p) == i,
    decreases hooks.len(),
{
    if i == 0 {
        if hooks.len() > 0 {
            assert(hooks[0].priority > p);
        }
    } else {
        assert(hooks[0].priority <= p);
        assert forall|j: int| 0 <= j < i - 1 implies #[trigger] hooks.skip(1)[j].priority <= p by {
            assert(hooks.skip(1)[j] == hooks[j + 1]);
        }
        if i - 1 < hooks.skip(1).len() {
            assert(hooks.skip(1)[i - 1] == hooks[i]);
        }
        lemma_stable_insert_pos_char(hooks.skip(1), p, i - 1);
    }
}

/// Unfolding of `webhook_hooks` at the back of a chain prefix.
proof fn lemma_webhook_hooks_unfold(hooks: Seq<RegisteredHook>, point: HookPoint)
    requires
        hooks.len() > 0,
    ensures
        webhook_hooks(hooks, point) == if hooks.last().spec_subscribed(point)
            && hooks.last().behavior is Webhook {
            webhook_hooks(hooks.drop_last(), point).push(hooks.last())
        } else {
            webhook_hooks(hooks.drop_last(), point)
        },
    decreases hooks.len(),
{
    if hooks.len() == 1 {
        assert(hooks.skip(1) =~= Seq::<RegisteredHook>::empty());
        assert(hooks.drop_last() =~= Seq::<RegisteredHook>::empty());
        if hooks[0].spec_subscribed(point) && hooks[0].behavior is Webhook {
            assert(webhook_hooks(hooks, point) =~= webhook_hooks(hooks.drop_last(), point).push(
                hooks.last(),
            ));
        }
    } else {
        lemma_webhook_hooks_unfold(hooks.skip(1), point);
        assert(hooks.skip(1).drop_last() =~= hooks.drop_last().skip(1));
        assert(hooks.skip(1).last() == hooks.last());
        assert(hooks.drop_last()[0] == hooks[0]);
        if hooks.last().spec_subscribed(point) && hooks.last().behavior is Webhook {
            assert(webhook_hooks(hooks, point) =~= webhook_hooks(hooks.drop_last(), point).push(
                hooks.last(),
            ));
        } else {
            assert(webhook_hooks(hooks, point) =~= webhook_hooks(hooks.drop_last(), point));
        }
    }
}

} // verus!
