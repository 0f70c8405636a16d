//! The tool registry and dispatcher: a uniform capability surface with
//! approval gating, parameter validation, and output sanitization.
//!
//! Tools are definitions; executing one is the caller's task. The
//! dispatcher decides, for a requested call, whether the tool exists,
//! whether the parameters fit its schema, and whether the call may run now
//! or must wait for approval. No execution is allowed before the decision
//! says so: an approval-requiring tool outside the session's always-approved
//! set always stops at an approval request first.

use vstd::prelude::*;

use crate::json::{obj_get_view, obj_has, JsonValue, JsonView};
use crate::overlay::ApprovalRequest;
use crate::strutil::str_eq;

verus! {

/// Where a tool comes from; used only for telemetry.
#[derive(Debug, Clone, Copy, PartialEq, Eq, Structural)]
pub enum ToolSource {
    Builtin,
    Mcp,
    Wasm,
}

/// A tool as the registry holds it.
#[derive(Debug)]
pub struct ToolDefinition {
    /// Name, unique within the registry.
    pub name: String,
    /// Human description.
    pub description: String,
    /// JSON schema of the parameters.
    pub parameters_schema: JsonValue,
    /// Whether the user must approve each call.
    pub requires_approval: bool,
    /// Whether outputs pass through the sanitizer.
    pub requires_sanitization: bool,
    /// Estimated duration in milliseconds, when known.
    pub estimated_duration_ms: Option<u64>,
    /// Where the tool comes from.
    pub source: ToolSource,
}

/// Output of one tool execution.
#[derive(Debug)]
pub struct ToolOutput {
    /// Whether the call succeeded.
    pub success: bool,
    /// Structured result.
    pub result: JsonValue,
    /// Raw text, when the tool produced any.
    pub raw: Option<String>,
    /// Elapsed time in milliseconds.
    pub elapsed_ms: u64,
}

impl ToolOutput {
    /// A successful structured output.
    pub fn success(result: JsonValue, elapsed_ms: u64) -> (r: Self)
        ensures
            r.success,
            r.result@ == result@,
            r.raw is None,
            r.elapsed_ms == elapsed_ms,
    {
        ToolOutput { success: true, result, raw: None, elapsed_ms }
    }

    /// A successful text output.
    pub fn text(content: String, elapsed_ms: u64) -> (r: Self)
        ensures
            r.success,
            r.result@ matches JsonView::Str(s) && s == content@,
            r.raw matches Some(w) && w@ == content@,
            r.elapsed_ms == elapsed_ms,
    {
        let raw = content.clone();
        ToolOutput { success: true, result: JsonValue::Str(content), raw: Some(raw), elapsed_ms }
    }
}

/// The execution deadline for a tool, in milliseconds: three times its
/// estimate, and at least thirty seconds.
pub fn execution_deadline_ms(estimated_ms: Option<u64>) -> (r: u64)
    ensures
        match estimated_ms {
            Some(e) => (3 * e <= 30000 ==> r == 30000) && (3 * e > 30000 ==> r as int == 3 * e
                || r == u64::MAX),
            None => r == 30000,
        },
{
    match estimated_ms {
        Some(e) => {
            if e > u64::MAX / 3 {
                u64::MAX
            } else if 3 * e <= 30000 {
                30000
            } else {
                3 * e
            }
        },
        None => 30000,
    }
}

/// Whether parameters fit a schema: when the schema is an object with a
/// `required` list of key names, the parameters must be an object holding
/// every one of them; any other schema accepts anything.
pub open spec fn params_valid(schema: JsonView, params: JsonView) -> bool {
    match obj_get_view(schema, "required"@) {
        Some(JsonView::Arr(keys)) => params is Obj && (forall|i: int|
            0 <= i < keys.len() ==> ((#[trigger] keys[i]) matches JsonView::Str(k) ==> obj_has(
                params->Obj_0,
                k,
            ))),
        _ => true,
    }
}

/// Check parameters against a schema.
pub fn validate_params(schema: &JsonValue, params: &JsonValue) -> (r: bool)
    ensures
        r == params_valid(schema@, params@),
{
    let required = match schema.get("required") {
        Some(f) => f,
        None => {
            return true;
        },
    };
    match required {
        JsonValue::Arr(keys) => {
            let ghost kv = required@->Arr_0;
            proof {
                crate::json::lemma_views_seq_len(keys@);
            }
            if !params.is_object() {
                return false;
            }
            let mut i: usize = 0;
            while i < keys.len()
                invariant
                    i <= keys@.len(),
                    *required == JsonValue::Arr(*keys),
                    kv == required@->Arr_0,
                    kv.len() == keys@.len(),
                    obj_get_view(schema@, "required"@) == Some(JsonView::Arr(kv)),
                    params@ is Obj,
                    forall|j: int|
                        0 <= j < i ==> ((#[trigger] kv[j]) matches JsonView::Str(k) ==> obj_has(
                            params@->Obj_0,
                            k,
                        )),
                decreases keys@.len() - i,
            {
                proof {
                    crate::json::lemma_views_seq_index(keys@, i as int);
                }
                match &keys[i] {
                    JsonValue::Str(k) => {
                        match params.get(k.as_str()) {
                            Some(_) => {},
                            None => {
                                proof {
                                    assert(kv[i as int] == JsonView::Str(k@));
                                    assert(!params_valid(schema@, params@));
                                }
                                return false;
                            },
                        }
                    },
                    _ => {},
                }
                i = i + 1;
            }
            true
        },
        _ => true,
    }
}

/// The index of the first tool with a name, or the length when none has it.
pub open spec fn find_tool(tools: Seq<ToolDefinition>, name: Seq<char>) -> int
    decreases tools.len(),
{
    if tools.len() == 0 {
        0
    } else if tools[0].name@ == name {
        0
    } else {
        1 + find_tool(tools.skip(1), name)
    }
}

/// Whether a tool with the name is registered.
pub open spec fn has_tool(tools: Seq<ToolDefinition>, name: Seq<char>) -> bool {
    exists|i: int| 0 <= i < tools.len() && (#[trigger] tools[i]).name@ == name
}

/// When no tool before `i` has the name and the tool at `i`, if any, does,
/// the first match is at `i`.
pub proof fn lemma_find_tool_char(tools: Seq<ToolDefinition>, name: Seq<char>, i: int)
    requires
        0 <= i <= tools.len(),
        forall|j: int| 0 <= j < i ==> (#[trigger] tools[j]).name@ != name,
        i < tools.len() ==> tools[i].name@ == name,
    ensures
        find_tool(tools, name) == i,
        i < tools.len() ==> has_tool(tools, name),
        i == tools.len() ==> !has_tool(tools, name),
    decreases tools.len(),
{
    if i == 0 {
    } else {
        assert forall|j: int| 0 <= j < i - 1 implies (#[trigger] tools.skip(1)[j]).name@ != name by {
            assert(tools.skip(1)[j] == tools[j + 1]);
        }
        if i - 1 < tools.skip(1).len() {
            assert(tools.skip(1)[i - 1] == tools[i]);
        }
        lemma_find_tool_char(tools.skip(1), name, i - 1);
        if i == tools.len() {
            if has_tool(tools, name) {
                let w = choose|w: int| 0 <= w < tools.len() && (#[trigger] tools[w]).name@ == name;
                assert(false);
            }
        }
    }
}

/// Tool registry: the tools available to the dispatcher, names unique.
pub struct ToolRegistry {
    tools: Vec<ToolDefinition>,
}

impl ToolRegistry {
    /// The registered tools.
    pub closed spec fn spec_tools(&self) -> Seq<ToolDefinition> {
        self.tools@
    }

    /// Well-formedness: tool names are unique.
    pub open spec fn wf(&self) -> bool {
        forall|i: int, j: int|
            0 <= i < j < self.spec_tools().len() ==> (#[trigger] self.spec_tools()[i]).name@
                != (#[trigger] self.spec_tools()[j]).name@
    }

    /// Create an empty registry.
    pub fn new() -> (r: Self)
        ensures
            r.wf(),
            r.spec_tools() == Seq::<ToolDefinition>::empty(),
    {
        let r = ToolRegistry { tools: Vec::new() };
        proof {
            assert(r.spec_tools() =~= Seq::<ToolDefinition>::empty());
        }
        r
    }

    /// The number of registered tools.
    pub fn len(&self) -> (r: usize)
        ensures
            r as int == self.spec_tools().len(),
    {
        self.tools.len()
    }

    /// Register a tool: a new name is appended, a known name's definition is
    /// replaced.
    pub fn register(&mut self, tool: ToolDefinition)
        requires
            old(self).wf(),
        ensures
            final(self).wf(),
            has_tool(final(self).spec_tools(), tool.name@),
            final(self).spec_tools()[find_tool(final(self).spec_tools(), tool.name@)] == tool,
            !has_tool(old(self).spec_tools(), tool.name@) ==> final(self).spec_tools()
                == old(self).spec_tools().push(tool),
            has_tool(old(self).spec_tools(), tool.name@) ==> final(self).spec_tools()
                == old(self).spec_tools().update(
                find_tool(old(self).spec_tools(), tool.name@),
                tool,
            ),
    {
        let ghost name_v = tool.name@;
        match self.find_index(tool.name.as_str()) {
            Some(i) => {
                let ghost prev = self.tools@;
                self.tools[i] = tool;
                proof {
                    assert forall|j: int|
                        0 <= j < i implies (#[trigger] self.tools@[j]).name@ != name_v by {
                        assert(self.tools@[j] == prev[j]);
                    }
                    lemma_find_tool_char(self.spec_tools(), name_v, i as int);
                }
            },
            None => {
                let ghost prev = self.tools@;
                self.tools.push(tool);
                proof {
                    assert(self.tools@.drop_last() =~= prev);
                    assert forall|j: int|
                        0 <= j < prev.len() implies (#[trigger] self.tools@[j]).name@ != name_v by {
                        assert(self.tools@[j] == prev[j]);
                        if prev[j].name@ == name_v {
                            assert(has_tool(prev, name_v));
                        }
                    }
                    lemma_find_tool_char(self.spec_tools(), name_v, prev.len() as int);
                }
            },
        }
    }

    /// Find the index of the tool with a name.
    fn find_index(&self, name: &str) -> (r: Option<usize>)
        ensures
            match r {
                Some(i) => i < self.spec_tools().len() && find_tool(self.spec_tools(), name@)
                    == i && has_tool(self.spec_tools(), name@) && self.spec_tools()[
                    i as int
                ].name@ == name@,
                None => !has_tool(self.spec_tools(), name@),
            },
    {
        let mut i: usize = 0;
        while i < self.tools.len()
            invariant
                i <= self.tools@.len(),
                forall|j: int| 0 <= j < i ==> (#[trigger] self.tools@[j]).name@ != name@,
            decreases self.tools@.len() - i,
        {
            if str_eq(self.tools[i].name.as_str(), name) {
                proof {
                    lemma_find_tool_char(self.spec_tools(), name@, i as int);
                }
                return Some(i);
            }
            i = i + 1;
        }
        proof {
            lemma_find_tool_char(self.spec_tools(), name@, self.tools@.len() as int);
        }
        None
    }

    /// The tool with a name, when registered.
    pub fn get<'a>(&'a self, name: &str) -> (r: Option<&'a ToolDefinition>)
        ensures
            match r {
                Some(t) => has_tool(self.spec_tools(), name@) && t == &self.spec_tools()[
                    find_tool(self.spec_tools(), name@)
                ] && t.name@ == name@,
                None => !has_tool(self.spec_tools(), name@),
            },
    {
        match self.find_index(name) {
            Some(i) => Some(&self.tools[i]),
            None => None,
        }
    }
}

/// Per-session dispatcher state: the always-approved tool names and the
/// approval request counter.
pub struct SessionState {
    /// Names of tools approved for the rest of the session.
    pub always_approved: Vec<String>,
    /// The next approval request identifier.
    pub next_request_id: u64,
}

/// Whether a tool name is in the always-approved set.
pub open spec fn always_approved_has(names: Seq<String>, name: Seq<char>) -> bool {
    exists|i: int| 0 <= i < names.len() && (#[trigger] names[i])@ == name
}

impl SessionState {
    /// A fresh session: nothing always-approved.
    pub fn new() -> (r: Self)
        ensures
            r.always_approved@ == Seq::<String>::empty(),
            r.next_request_id == 0,
    {
        let r = SessionState { always_approved: Vec::new(), next_request_id: 0 };
        proof {
            assert(r.always_approved@ =~= Seq::<String>::empty());
        }
        r
    }

    /// Whether a tool is approved for the rest of the session.
    pub fn is_always_approved(&self, name: &str) -> (r: bool)
        ensures
            r == always_approved_has(self.always_approved@, name@),
    {
        let mut i: usize = 0;
        while i < self.always_approved.len()
            invariant
                i <= self.always_approved@.len(),
                forall|j: int| 0 <= j < i ==> (#[trigger] self.always_approved@[j])@ != name@,
            decreases self.always_approved@.len() - i,
        {
            if str_eq(self.always_approved[i].as_str(), name) {
                return true;
            }
            i = i + 1;
        }
        proof {
            if always_approved_has(self.always_approved@, name@) {
                let w = choose|w: int|
                    0 <= w < self.always_approved@.len() && (#[trigger] self.always_approved@[w])@
                        == name@;
                assert(false);
            }
        }
        false
    }

    /// Record the outcome of an approval: an approval with `always` adds
    /// the tool to the session's always-approved set. Returns whether the
    /// call may run.
    pub fn apply_approval(&mut self, tool_name: &str, approved: bool, always: bool) -> (r: bool)
        ensures
            r == approved,
            approved && always ==> always_approved_has(
                final(self).always_approved@,
                tool_name@,
            ),
            !(approved && always) ==> final(self).always_approved@ == old(
                self,
            ).always_approved@,
            final(self).next_request_id == old(self).next_request_id,
            forall|n: Seq<char>|
                always_approved_has(old(self).always_approved@, n) ==> always_approved_has(
                    final(self).always_approved@,
                    n,
                ),
    {
        if approved && always {
            let ghost prev = self.always_approved@;
            self.always_approved.push(tool_name.to_owned());
            proof {
                assert((self.always_approved@[prev.len() as int])@ == tool_name@);
                assert forall|n: Seq<char>|
                    always_approved_has(prev, n) implies always_approved_has(
                    self.always_approved@,
                    n,
                ) by {
                    let w = choose|w: int| 0 <= w < prev.len() && (#[trigger] prev[w])@ == n;
                    assert((self.always_approved@[w])@ == n);
                }
            }
        }
        approved
    }
}

/// Whether a tool call may run at once: the tool asks for no approval, or
/// the session has already approved it for good. Every other call must
/// first pass an approval request.
pub open spec fn execution_cleared(tool: ToolDefinition, approved: Seq<String>) -> bool {
    !tool.requires_approval || always_approved_has(approved, tool.name@)
}

/// The approval gate: a tool that requires approval and is not in the
/// session's always-approved set is never cleared for execution — the
/// dispatcher stops such a call at an approval request, and nothing runs it
/// before a matching approval arrives.
pub proof fn lemma_approval_gate(tool: ToolDefinition, approved: Seq<String>)
    requires
        tool.requires_approval,
        !always_approved_has(approved, tool.name@),
    ensures
        !execution_cleared(tool, approved),
{
}

/// The dispatcher's decision for one requested tool call.
#[derive(Debug)]
pub enum DispatchDecision {
    /// No tool of the requested name is registered.
    NotFound,
    /// The parameters do not fit the tool's schema.
    InvalidParameters,
    /// The call must wait for the user's approval.
    NeedApproval { request: ApprovalRequest },
    /// The call may run now.
    Execute { parameters: JsonValue },
}

/// Decide a requested tool call: resolve the tool, validate the parameters,
/// and gate on approval. `Execute` comes out only for a tool that needs no
/// approval or is already always-approved; every other approval-requiring
/// call stops at `NeedApproval`.
pub fn plan_dispatch(
    registry: &ToolRegistry,
    session: &mut SessionState,
    name: &str,
    params: JsonValue,
) -> (r: DispatchDecision)
    requires
        registry.wf(),
        old(session).next_request_id < u64::MAX,
    ensures
        final(session).always_approved@ == old(session).always_approved@,
        ({
            let tools = registry.spec_tools();
            let known = has_tool(tools, name@);
            let tool = tools[find_tool(tools, name@)];
            match r {
                DispatchDecision::NotFound => !known && *final(session) == *old(session),
                DispatchDecision::InvalidParameters => known && !params_valid(
                    tool.parameters_schema@,
                    params@,
                ) && *final(session) == *old(session),
                DispatchDecision::NeedApproval { request } => {
                    &&& known
                    &&& params_valid(tool.parameters_schema@, params@)
                    &&& tool.requires_approval
                    &&& !always_approved_has(old(session).always_approved@, name@)
                    &&& request.id == old(session).next_request_id
                    &&& final(session).next_request_id == old(session).next_request_id + 1
                    &&& request.tool_name@ == name@
                    &&& request.parameters@ == params@
                    &&& request.description@ == tool.description@
                },
                DispatchDecision::Execute { parameters } => {
                    &&& known
                    &&& params_valid(tool.parameters_schema@, params@)
                    &&& execution_cleared(tool, old(session).always_approved@)
                    &&& parameters@ == params@
                    &&& *final(session) == *old(session)
                },
            }
        }),
{
    let tool = match registry.get(name) {
        Some(t) => t,
        None => {
            return DispatchDecision::NotFound;
        },
    };
    if !validate_params(&tool.parameters_schema, &params) {
        return DispatchDecision::InvalidParameters;
    }
    if tool.requires_approval && !session.is_always_approved(name) {
        let id = session.next_request_id;
        session.next_request_id = session.next_request_id + 1;
        let request = ApprovalRequest::new(
            id,
            name.to_owned(),
            tool.description.clone(),
            params,
        );
        return DispatchDecision::NeedApproval { request };
    }
    DispatchDecision::Execute { parameters: params }
}

/// The markers whose occurrences the sanitizer removes.
pub open spec fn spec_injection_markers() -> Seq<Seq<char>> {
    seq![
        "ignore previous instructions"@,
        "ignore all previous instructions"@,
        "disregard prior instructions"@,
        "you are now in developer mode"@,
    ]
}

/// The markers whose occurrences the sanitizer removes.
pub fn injection_markers() -> (r: Vec<&'static str>)
    ensures
        r@.len() == spec_injection_markers().len(),
        forall|i: int| 0 <= i < r@.len() ==> r@[i]@ == #[trigger] spec_injection_markers()[i],
{
    let mut r: Vec<&'static str> = Vec::new();
    r.push("ignore previous instructions");
    r.push("ignore all previous instructions");
    r.push("disregard prior instructions");
    r.push("you are now in developer mode");
    proof {
        assert forall|i: int|
            0 <= i < r@.len() implies r@[i]@ == #[trigger] spec_injection_markers()[i] by {
            if i == 0 {
            } else if i == 1 {
            } else if i == 2 {
            } else {
                assert(i == 3);
            }
        }
    }
    r
}

/// `text` with every remaining occurrence of the nonempty pattern removed,
/// scanning from the front.
pub open spec fn removed_all(text: Seq<char>, pat: Seq<char>) -> Seq<char>
    decreases text.len(),
{
    if pat.len() == 0 || text.len() < pat.len() {
        text
    } else if text.subrange(0, pat.len() as int) == pat {
        removed_all(text.skip(pat.len() as int), pat)
    } else {
        seq![text[0]].add(removed_all(text.skip(1), pat))
    }
}

/// Remove every occurrence of the nonempty pattern from the text.
pub fn remove_all(text: &str, pat: &str) -> (r: String)
    requires
        pat@.len() > 0,
    ensures
        r@ == removed_all(text@, pat@),
{
    let tlen = text.unicode_len();
    let plen = pat.unicode_len();
    let mut out = String::new();
    proof {
        assert(text@.skip(0) =~= text@);
    }
    let mut i: usize = 0;
    while i < tlen
        invariant
            i <= tlen,
            tlen == text@.len(),
            plen == pat@.len(),
            plen > 0,
            out@.add(removed_all(text@.skip(i as int), pat@)) == removed_all(text@, pat@),
        decreases tlen - i,
    {
        let mut j: usize = 0;
        let mut matched = plen <= tlen - i;
        while j < plen && matched
            invariant
                j <= plen,
                plen == pat@.len(),
                tlen == text@.len(),
                i < tlen,
                matched ==> i + plen <= tlen && forall|q: int|
                    0 <= q < j ==> text@[i + q] == pat@[q],
                !matched ==> !(i + plen <= tlen && text@.skip(i as int).subrange(0, plen as int)
                    == pat@),
            decreases plen - j,
        {
            if text.get_char(i + j) != pat.get_char(j) {
                proof {
                    if i + plen <= tlen && text@.skip(i as int).subrange(0, plen as int) == pat@ {
                        assert(text@.skip(i as int).subrange(0, plen as int)[j as int] == pat@[
                            j as int
                        ]);
                        assert(text@.skip(i as int)[j as int] == text@[i + j]);
                    }
                }
                matched = false;
                j = plen;
            } else {
                j = j + 1;
            }
        }
        if matched {
            proof {
                assert(text@.skip(i as int).subrange(0, plen as int) =~= pat@) by {
                    assert forall|q: int|
                        0 <= q < plen implies text@.skip(i as int).subrange(0, plen as int)[q]
                        == pat@[q] by {
                        assert(text@.skip(i as int)[q] == text@[i + q]);
                    }
                }
                assert(text@.skip(i as int).skip(plen as int) =~= text@.skip(i + plen));
            }
            i = i + plen;
        } else {
            proof {
                let rest = text@.skip(i as int);
                assert(rest[0] == text@[i as int]);
                assert(rest.skip(1) =~= text@.skip(i as int + 1));
                if rest.len() >= plen {
                    assert(removed_all(rest, pat@) == seq![rest[0]].add(
                        removed_all(rest.skip(1), pat@),
                    ));
                }
            }
            push_char_local(&mut out, text.get_char(i));
            proof {
                assert(out@.add(removed_all(text@.skip(i as int + 1), pat@)) =~= removed_all(
                    text@,
                    pat@,
                ));
            }
            i = i + 1;
        }
    }
    proof {
        assert(text@.skip(tlen as int) =~= Seq::<char>::empty());
        assert(out@.add(Seq::<char>::empty()) =~= out@);
    }
    out
}

/// Append one character.
fn push_char_local(s: &mut String, c: char)
    ensures
        final(s)@ == old(s)@.push(c),
{
    crate::strutil::push_char(s, c);
}

/// The text after removing every injection marker, in marker order.
pub open spec fn sanitized(text: Seq<char>, markers: Seq<Seq<char>>) -> Seq<char>
    decreases markers.len(),
{
    if markers.len() == 0 {
        text
    } else {
        removed_all(sanitized(text, markers.drop_last()), markers.last())
    }
}

/// Strip the known prompt-injection markers from a tool's text output.
pub fn sanitize_output(text: &str) -> (r: String)
    ensures
        r@ == sanitized(text@, spec_injection_markers()),
{
    let markers = injection_markers();
    let mut out = text.to_owned();
    let mut i: usize = 0;
    while i < markers.len()
        invariant
            i <= markers@.len(),
            markers@.len() == spec_injection_markers().len(),
            forall|j: int|
                0 <= j < markers@.len() ==> markers@[j]@ == #[trigger] spec_injection_markers()[j],
            out@ == sanitized(text@, spec_injection_markers().take(i as int)),
        decreases markers@.len() - i,
    {
        proof {
            assert(spec_injection_markers().take(i as int + 1).drop_last()
                =~= spec_injection_markers().take(i as int));
            assert(spec_injection_markers().take(i as int + 1).last() == spec_injection_markers()[
                i as int
            ]);
            assert(markers@[i as int]@.len() > 0) by {
                reveal_strlit("ignore previous instructions");
                reveal_strlit("ignore all previous instructions");
                reveal_strlit("disregard prior instructions");
                reveal_strlit("you are now in developer mode");
                if i == 0 {
                } else if i == 1 {
                } else if i == 2 {
                } else {
                    assert(i == 3);
                }
            }
        }
        out = remove_all(out.as_str(), markers[i]);
        i = i + 1;
    }
    proof {
        assert(spec_injection_markers().take(spec_injection_markers().len() as int)
            =~= spec_injection_markers());
    }
    out
}

} // verus!
