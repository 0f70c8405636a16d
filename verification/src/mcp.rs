//! The Model-Context-Protocol surface: tool listings, tool calls, and their
//! wire forms, with destructive tools mapped to approval-gated definitions.

use vstd::prelude::*;

use crate::errors::ToolError;
use crate::json::{obj_get_view, JsonValue, JsonView};
use crate::strutil::push_char;
use crate::tools::{ToolDefinition, ToolSource};

verus! {

broadcast use crate::json::group_json_view_lemmas;

/// Hint about how long a tool typically takes to execute.
#[derive(Debug, Clone, Copy, PartialEq, Eq, Structural)]
pub enum ExecutionTimeHint {
    /// Under a second.
    Fast,
    /// One to ten seconds.
    Medium,
    /// More than ten seconds.
    Slow,
}

/// Annotations an MCP server attaches to a tool.
#[derive(Debug, Clone, Copy, PartialEq, Eq, Structural)]
pub struct McpToolAnnotations {
    /// The tool performs operations that cannot be undone; such a tool
    /// requires user approval.
    pub destructive_hint: bool,
    /// The tool may have side effects beyond its return value.
    pub side_effects_hint: bool,
    /// The tool only reads.
    pub read_only_hint: bool,
    /// Expected execution time.
    pub execution_time_hint: Option<ExecutionTimeHint>,
}

/// An MCP tool as a server lists it.
#[derive(Debug)]
pub struct McpTool {
    /// Tool name.
    pub name: String,
    /// Tool description.
    pub description: String,
    /// JSON schema of the input parameters.
    pub input_schema: JsonValue,
    /// Optional annotations from the server.
    pub annotations: Option<McpToolAnnotations>,
}

impl McpTool {
    /// Whether this tool requires user approval: exactly when its
    /// annotations mark it destructive.
    pub open spec fn spec_requires_approval(&self) -> bool {
        match self.annotations {
            Some(a) => a.destructive_hint,
            None => false,
        }
    }

    /// Whether this tool requires user approval.
    pub fn requires_approval(&self) -> (r: bool)
        ensures
            r == self.spec_requires_approval(),
    {
        match &self.annotations {
            Some(a) => a.destructive_hint,
            None => false,
        }
    }

    /// The uniform tool definition of this MCP tool: the same name,
    /// description and schema; sanitization always on, since the output
    /// comes from a remote service; and approval required exactly when the
    /// server marks the tool destructive.
    pub fn to_tool_definition(&self) -> (r: ToolDefinition)
        ensures
            r.name@ == self.name@,
            r.description@ == self.description@,
            r.parameters_schema@ == self.input_schema@,
            r.requires_approval == self.spec_requires_approval(),
            r.requires_sanitization,
            r.source is Mcp,
    {
        ToolDefinition {
            name: self.name.clone(),
            description: self.description.clone(),
            parameters_schema: self.input_schema.clone(),
            requires_approval: self.requires_approval(),
            requires_sanitization: true,
            estimated_duration_ms: match &self.annotations {
                Some(a) => match a.execution_time_hint {
                    Some(ExecutionTimeHint::Fast) => Some(1000),
                    Some(ExecutionTimeHint::Medium) => Some(10000),
                    Some(ExecutionTimeHint::Slow) => Some(60000),
                    None => None,
                },
                None => None,
            },
            source: ToolSource::Mcp,
        }
    }
}

/// A tool whose annotations carry the destructive hint maps to a
/// definition that requires approval.
pub proof fn lemma_destructive_requires_approval(t: McpTool)
    requires
        t.annotations matches Some(a) && a.destructive_hint,
    ensures
        t.spec_requires_approval(),
{
}

/// A JSON-RPC request to an MCP server.
#[derive(Debug)]
pub struct McpRequest {
    /// JSON-RPC version; always `2.0`.
    pub jsonrpc: String,
    /// Request ID.
    pub id: u64,
    /// Method name.
    pub method: String,
    /// Request parameters, when the method takes any.
    pub params: Option<JsonValue>,
}

impl McpRequest {
    /// Create a request.
    pub fn new(id: u64, method: String, params: Option<JsonValue>) -> (r: Self)
        ensures
            r.jsonrpc@ == "2.0"@,
            r.id == id,
            r.method@ == method@,
            match (r.params, params) {
                (Some(a), Some(b)) => a@ == b@,
                (None, None) => true,
                _ => false,
            },
    {
        McpRequest { jsonrpc: String::from_str("2.0"), id, method, params }
    }

    /// Create a `tools/list` request.
    pub fn list_tools(id: u64) -> (r: Self)
        ensures
            r.jsonrpc@ == "2.0"@,
            r.id == id,
            r.method@ == "tools/list"@,
            r.params is None,
    {
        Self::new(id, String::from_str("tools/list"), None)
    }

    /// Create a `tools/call` request for a named tool.
    pub fn call_tool(id: u64, name: &str, arguments: JsonValue) -> (r: Self)
        ensures
            r.jsonrpc@ == "2.0"@,
            r.id == id,
            r.method@ == "tools/call"@,
            r.params matches Some(p) && p@ == JsonView::Obj(
                seq![("name"@, JsonView::Str(name@)), ("arguments"@, arguments@)],
            ),
    {
        let mut entries: Vec<(String, JsonValue)> = Vec::new();
        entries.push((String::from_str("name"), JsonValue::Str(name.to_owned())));
        entries.push((String::from_str("arguments"), arguments));
        let ghost ge = entries@;
        let params = JsonValue::Obj(entries);
        proof {
            assert(params@->Obj_0 == crate::json::entry_views_seq(ge));
            assert(crate::json::entry_views_seq(ge).len() == ge.len());
            assert(params@->Obj_0 =~= seq![
                ("name"@, JsonView::Str(name@)),
                ("arguments"@, view_of_arg(ge)),
            ]);
        }
        Self::new(id, String::from_str("tools/call"), Some(params))
    }

    /// The wire form of this request; the `params` entry is present only
    /// when the request carries parameters.
    pub fn to_value(&self) -> (r: JsonValue)
        ensures
            r@ == spec_request_json(self),
    {
        let mut entries: Vec<(String, JsonValue)> = Vec::new();
        entries.push((String::from_str("jsonrpc"), JsonValue::Str(self.jsonrpc.clone())));
        entries.push(
            (
                String::from_str("id"),
                JsonValue::Int(#[verifier::truncate] (self.id as i64)),
            ),
        );
        entries.push((String::from_str("method"), JsonValue::Str(self.method.clone())));
        match &self.params {
            Some(p) => {
                entries.push((String::from_str("params"), p.clone()));
            },
            None => {},
        }
        let ghost ge = entries@;
        let r = JsonValue::Obj(entries);
        proof {
            assert(r@->Obj_0 == crate::json::entry_views_seq(ge));
            assert(crate::json::entry_views_seq(ge).len() == ge.len());
            assert(r@->Obj_0 =~= spec_request_json(self)->Obj_0);
        }
        r
    }
}

/// The second entry's value in a two-entry object; names the argument
/// value after it moved into the request.
spec fn view_of_arg(ge: Seq<(String, JsonValue)>) -> JsonView {
    ge[1].1@
}

/// The wire form of a request.
pub open spec fn spec_request_json(r: &McpRequest) -> JsonView {
    match r.params {
        Some(p) => JsonView::Obj(
            seq![
                ("jsonrpc"@, JsonView::Str(r.jsonrpc@)),
                ("id"@, JsonView::Int((r.id as i64) as int)),
                ("method"@, JsonView::Str(r.method@)),
                ("params"@, p@),
            ],
        ),
        None => JsonView::Obj(
            seq![
                ("jsonrpc"@, JsonView::Str(r.jsonrpc@)),
                ("id"@, JsonView::Int((r.id as i64) as int)),
                ("method"@, JsonView::Str(r.method@)),
            ],
        ),
    }
}

/// A JSON-RPC error from an MCP server.
#[derive(Debug)]
pub struct McpError {
    /// Error code.
    pub code: i64,
    /// Error message.
    pub message: String,
    /// Additional data, when the server sent any.
    pub data: Option<JsonValue>,
}

/// A JSON-RPC response from an MCP server.
#[derive(Debug)]
pub struct McpResponse {
    /// JSON-RPC version.
    pub jsonrpc: String,
    /// Request ID the response answers.
    pub id: u64,
    /// Result, on success.
    pub result: Option<JsonValue>,
    /// Error, on failure.
    pub error: Option<McpError>,
}

/// A content block in a tool result.
#[derive(Debug)]
pub enum ContentBlock {
    /// Plain text.
    Text { text: String },
    /// An image, base64 data with its MIME type.
    Image { data: String, mime_type: String },
    /// A resource reference.
    Resource { uri: String, mime_type: Option<String>, text: Option<String> },
}

impl ContentBlock {
    /// The text of a text block.
    pub fn as_text(&self) -> (r: Option<&str>)
        ensures
            match r {
                Some(s) => self matches ContentBlock::Text { text } && s@ == text@,
                None => !(self is Text),
            },
    {
        match self {
            ContentBlock::Text { text } => Some(text.as_str()),
            _ => None,
        }
    }
}

/// The result of listing tools.
#[derive(Debug)]
pub struct ListToolsResult {
    pub tools: Vec<McpTool>,
}

/// The result of calling a tool.
#[derive(Debug)]
pub struct CallToolResult {
    pub content: Vec<ContentBlock>,
    pub is_error: bool,
}

/// The text of a sequence of content blocks: the text blocks joined by
/// newlines, other blocks skipped.
pub open spec fn blocks_text(blocks: Seq<ContentBlock>) -> Seq<char>
    decreases blocks.len(),
{
    if blocks.len() == 0 {
        Seq::empty()
    } else {
        let front = blocks_text(blocks.drop_last());
        match blocks.last() {
            ContentBlock::Text { text } => if count_text(blocks.drop_last()) == 0 {
                text@
            } else {
                front.push('\n').add(text@)
            },
            _ => front,
        }
    }
}

/// Text block counts are never negative.
proof fn lemma_count_text_nonneg(blocks: Seq<ContentBlock>)
    ensures
        count_text(blocks) >= 0,
    decreases blocks.len(),
{
    if blocks.len() > 0 {
        lemma_count_text_nonneg(blocks.drop_last());
    }
}

/// A block list without text blocks yields empty text.
proof fn lemma_blocks_no_text(blocks: Seq<ContentBlock>)
    requires
        count_text(blocks) == 0,
    ensures
        blocks_text(blocks) == Seq::<char>::empty(),
    decreases blocks.len(),
{
    if blocks.len() > 0 {
        lemma_count_text_nonneg(blocks.drop_last());
        lemma_blocks_no_text(blocks.drop_last());
    }
}

/// The number of text blocks.
pub open spec fn count_text(blocks: Seq<ContentBlock>) -> int
    decreases blocks.len(),
{
    if blocks.len() == 0 {
        0
    } else {
        count_text(blocks.drop_last()) + if blocks.last() is Text {
            1int
        } else {
            0int
        }
    }
}

impl CallToolResult {
    /// The joined text of the result's text blocks, newline-separated.
    pub fn joined_text(&self) -> (r: String)
        ensures
            r@ == blocks_text(self.content@),
    {
        let mut out = String::new();
        let mut count: usize = 0;
        let mut i: usize = 0;
        while i < self.content.len()
            invariant
                i <= self.content@.len(),
                count as int == count_text(self.content@.take(i as int)),
                count <= i,
                out@ == blocks_text(self.content@.take(i as int)),
            decreases self.content@.len() - i,
        {
            proof {
                assert(self.content@.take(i as int + 1).drop_last() =~= self.content@.take(
                    i as int,
                ));
                assert(self.content@.take(i as int + 1).last() == self.content@[i as int]);
            }
            match &self.content[i] {
                ContentBlock::Text { text } => {
                    if count > 0 {
                        push_char(&mut out, '\n');
                    }
                    out.append(text.as_str());
                    proof {
                        if count_text(self.content@.take(i as int)) == 0 {
                            lemma_blocks_no_text(self.content@.take(i as int));
                            assert(out@ =~= blocks_text(self.content@.take(i as int + 1)));
                        } else {
                            assert(out@ =~= blocks_text(self.content@.take(i as int)).push(
                                '\n',
                            ).add(text@));
                        }
                    }
                    count = count + 1;
                },
                _ => {},
            }
            i = i + 1;
        }
        proof {
            assert(self.content@.take(self.content@.len() as int) =~= self.content@);
        }
        out
    }

    /// Turn a tool-call result into a tool output or an error: a result
    /// marked as an error fails with its joined text as the reason, any
    /// other yields a text output.
    pub fn into_output(self, elapsed_ms: u64) -> (r: Result<
        crate::tools::ToolOutput,
        ToolError,
    >)
        ensures
            match r {
                Ok(out) => !self.is_error && out.success && (out.raw matches Some(w) && w@
                    == blocks_text(self.content@)) && out.elapsed_ms == elapsed_ms,
                Err(e) => self.is_error && (e matches ToolError::ExecutionFailed { reason }
                    && reason@ == blocks_text(self.content@)),
            },
    {
        let text = self.joined_text();
        if self.is_error {
            Err(ToolError::ExecutionFailed { reason: text })
        } else {
            Ok(crate::tools::ToolOutput::text(text, elapsed_ms))
        }
    }
}

// ==================== Parsing server responses ====================

/// A parsed annotations object.
pub open spec fn parse_annotations(v: JsonView) -> Option<McpToolAnnotations> {
    match v {
        JsonView::Obj(_) => {
            let destructive = match obj_get_view(v, "destructive_hint"@) {
                Some(JsonView::Bool(b)) => Some(b),
                None => Some(false),
                _ => None::<bool>,
            };
            let side_effects = match obj_get_view(v, "side_effects_hint"@) {
                Some(JsonView::Bool(b)) => Some(b),
                None => Some(false),
                _ => None::<bool>,
            };
            let read_only = match obj_get_view(v, "read_only_hint"@) {
                Some(JsonView::Bool(b)) => Some(b),
                None => Some(false),
                _ => None::<bool>,
            };
            match (destructive, side_effects, read_only) {
                (Some(d), Some(s), Some(ro)) => Some(
                    McpToolAnnotations {
                        destructive_hint: d,
                        side_effects_hint: s,
                        read_only_hint: ro,
                        execution_time_hint: None,
                    },
                ),
                _ => None,
            }
        },
        _ => None,
    }
}

/// Read an optional boolean field, absent meaning false.
fn get_bool_default(v: &JsonValue, key: &str) -> (r: Result<bool, ()>)
    ensures
        match r {
            Ok(b) => (match obj_get_view(v@, key@) {
                Some(JsonView::Bool(bb)) => bb == b,
                None => b == false,
                _ => false,
            }),
            Err(_) => (match obj_get_view(v@, key@) {
                Some(JsonView::Bool(_)) => false,
                None => false,
                _ => true,
            }),
        },
{
    match v.get(key) {
        None => Ok(false),
        Some(field) => match field {
            JsonValue::Bool(b) => Ok(*b),
            _ => Err(()),
        },
    }
}

/// Parse one annotations object. The execution-time hint is not decoded;
/// it stays absent.
pub fn annotations_from_json(v: &JsonValue) -> (r: Result<McpToolAnnotations, ()>)
    ensures
        match r {
            Ok(a) => parse_annotations(v@) == Some(a),
            Err(_) => parse_annotations(v@) is None,
        },
{
    if !v.is_object() {
        return Err(());
    }
    let destructive = match get_bool_default(v, "destructive_hint") {
        Ok(b) => b,
        Err(_) => {
            return Err(());
        },
    };
    let side_effects = match get_bool_default(v, "side_effects_hint") {
        Ok(b) => b,
        Err(_) => {
            return Err(());
        },
    };
    let read_only = match get_bool_default(v, "read_only_hint") {
        Ok(b) => b,
        Err(_) => {
            return Err(());
        },
    };
    Ok(
        McpToolAnnotations {
            destructive_hint: destructive,
            side_effects_hint: side_effects,
            read_only_hint: read_only,
            execution_time_hint: None,
        },
    )
}


/// The mathematical model of an MCP tool.
pub struct McpToolView {
    pub name: Seq<char>,
    pub description: Seq<char>,
    pub input_schema: JsonView,
    pub annotations: Option<McpToolAnnotations>,
}

impl View for McpTool {
    type V = McpToolView;

    open spec fn view(&self) -> McpToolView {
        McpToolView {
            name: self.name@,
            description: self.description@,
            input_schema: self.input_schema@,
            annotations: self.annotations,
        }
    }
}

/// The mathematical model of a content block.
pub enum BlockView {
    Text { text: Seq<char> },
    Image { data: Seq<char>, mime_type: Seq<char> },
    Resource { uri: Seq<char>, mime_type: Option<Seq<char>>, text: Option<Seq<char>> },
}

impl View for ContentBlock {
    type V = BlockView;

    open spec fn view(&self) -> BlockView {
        match self {
            ContentBlock::Text { text } => BlockView::Text { text: text@ },
            ContentBlock::Image { data, mime_type } => BlockView::Image {
                data: data@,
                mime_type: mime_type@,
            },
            ContentBlock::Resource { uri, mime_type, text } => BlockView::Resource {
                uri: uri@,
                mime_type: match mime_type {
                    Some(m) => Some(m@),
                    None => None,
                },
                text: match text {
                    Some(t) => Some(t@),
                    None => None,
                },
            },
        }
    }
}

/// One listed tool, parsed from its wire form: a required name and
/// description, a required input schema, and optional annotations.
pub open spec fn parse_tool(v: JsonView) -> Option<McpToolView> {
    match (
        obj_get_view(v, "name"@),
        obj_get_view(v, "description"@),
        obj_get_view(v, "input_schema"@),
    ) {
        (Some(JsonView::Str(name)), Some(JsonView::Str(description)), Some(schema)) => {
            match obj_get_view(v, "annotations"@) {
                None => Some(
                    McpToolView { name, description, input_schema: schema, annotations: None },
                ),
                Some(JsonView::Null) => Some(
                    McpToolView { name, description, input_schema: schema, annotations: None },
                ),
                Some(av) => match parse_annotations(av) {
                    Some(a) => Some(
                        McpToolView {
                            name,
                            description,
                            input_schema: schema,
                            annotations: Some(a),
                        },
                    ),
                    None => None,
                },
            }
        },
        _ => None,
    }
}

/// A sequence of listed tools.
pub open spec fn parse_tools_seq(items: Seq<JsonView>) -> Option<Seq<McpToolView>>
    decreases items.len(),
{
    if items.len() == 0 {
        Some(Seq::empty())
    } else {
        match parse_tools_seq(items.drop_last()) {
            None => None,
            Some(front) => match parse_tool(items.last()) {
                Some(t) => Some(front.push(t)),
                None => None,
            },
        }
    }
}

/// A `tools/list` result: an object with a `tools` list.
pub open spec fn parse_tools_list(v: JsonView) -> Option<Seq<McpToolView>> {
    match obj_get_view(v, "tools"@) {
        Some(JsonView::Arr(items)) => parse_tools_seq(items),
        _ => None,
    }
}

/// Propagation of a tool parse failure from a prefix to the whole list.
proof fn lemma_tools_none_prefix(items: Seq<JsonView>, k: int)
    requires
        0 <= k <= items.len(),
        parse_tools_seq(items.take(k)) is None,
    ensures
        parse_tools_seq(items) is None,
    decreases items.len() - k,
{
    if k < items.len() {
        assert(items.take(k + 1).drop_last() =~= items.take(k));
        lemma_tools_none_prefix(items, k + 1);
    } else {
        assert(items.take(k) =~= items);
    }
}

/// Parse one listed tool.
fn tool_from_json(v: &JsonValue) -> (r: Result<McpTool, ()>)
    ensures
        match r {
            Ok(t) => parse_tool(v@) == Some(t@),
            Err(_) => parse_tool(v@) is None,
        },
{
    let name = match v.get("name") {
        Some(JsonValue::Str(s)) => s.clone(),
        _ => {
            return Err(());
        },
    };
    let description = match v.get("description") {
        Some(JsonValue::Str(s)) => s.clone(),
        _ => {
            return Err(());
        },
    };
    let input_schema = match v.get("input_schema") {
        Some(schema) => schema.clone(),
        None => {
            return Err(());
        },
    };
    let annotations = match v.get("annotations") {
        None => None,
        Some(JsonValue::Null) => None,
        Some(av) => match annotations_from_json(av) {
            Ok(a) => Some(a),
            Err(_) => {
                return Err(());
            },
        },
    };
    Ok(McpTool { name, description, input_schema, annotations })
}

/// Parse a `tools/list` result.
pub fn tools_list_from_json(v: &JsonValue) -> (r: Result<Vec<McpTool>, ToolError>)
    ensures
        match r {
            Ok(tools) => parse_tools_list(v@) == Some(
                Seq::new(tools@.len(), |i: int| tools@[i]@),
            ),
            Err(e) => parse_tools_list(v@) is None && e matches ToolError::ExternalService {
                ..
            },
        },
{
    let field = match v.get("tools") {
        Some(f) => f,
        None => {
            return Err(
                ToolError::ExternalService {
                    reason: String::from_str("tool listing holds no tools"),
                },
            );
        },
    };
    match field {
        JsonValue::Arr(items) => {
            let ghost iv = field@->Arr_0;
            proof {
                crate::json::lemma_views_seq_len(items@);
            }
            let mut tools: Vec<McpTool> = Vec::new();
            let mut i: usize = 0;
            while i < items.len()
                invariant
                    i <= items@.len(),
                    *field == JsonValue::Arr(*items),
                    iv == field@->Arr_0,
                    iv.len() == items@.len(),
                    tools@.len() == i,
                    parse_tools_list(v@) == parse_tools_seq(iv),
                    parse_tools_seq(iv.take(i as int)) == Some(
                        Seq::new(tools@.len(), |j: int| tools@[j]@),
                    ),
                decreases items@.len() - i,
            {
                proof {
                    crate::json::lemma_views_seq_index(items@, i as int);
                    assert(iv.take(i as int + 1).drop_last() =~= iv.take(i as int));
                    assert(iv.take(i as int + 1).last() == iv[i as int]);
                }
                match tool_from_json(&items[i]) {
                    Ok(t) => {
                        tools.push(t);
                        proof {
                            assert(Seq::new(tools@.len(), |j: int| tools@[j]@) =~= Seq::new(
                                (tools@.len() - 1) as nat,
                                |j: int| tools@[j]@,
                            ).push(tools@[tools@.len() - 1]@));
                            assert(Seq::new((tools@.len() - 1) as nat, |j: int| tools@[j]@)
                                =~= Seq::new(
                                (tools@.len() - 1) as nat,
                                |j: int| tools@.take(tools@.len() - 1)[j]@,
                            ));
                        }
                    },
                    Err(_) => {
                        proof {
                            lemma_tools_none_prefix(iv, i as int + 1);
                        }
                        return Err(
                            ToolError::ExternalService {
                                reason: String::from_str("invalid tool listing entry"),
                            },
                        );
                    },
                }
                i = i + 1;
            }
            proof {
                assert(iv.take(iv.len() as int) =~= iv);
            }
            Ok(tools)
        },
        _ => Err(
            ToolError::ExternalService { reason: String::from_str("tools must be a list") },
        ),
    }
}

/// One content block, parsed from its tagged wire form.
pub open spec fn parse_block(v: JsonView) -> Option<BlockView> {
    match obj_get_view(v, "type"@) {
        Some(JsonView::Str(tag)) => {
            if tag == "text"@ {
                match obj_get_view(v, "text"@) {
                    Some(JsonView::Str(text)) => Some(BlockView::Text { text }),
                    _ => None,
                }
            } else if tag == "image"@ {
                match (obj_get_view(v, "data"@), obj_get_view(v, "mime_type"@)) {
                    (Some(JsonView::Str(data)), Some(JsonView::Str(mime_type))) => Some(
                        BlockView::Image { data, mime_type },
                    ),
                    _ => None,
                }
            } else if tag == "resource"@ {
                match obj_get_view(v, "uri"@) {
                    Some(JsonView::Str(uri)) => {
                        match (
                            crate::bundle::field_opt_str(v, "mime_type"@),
                            crate::bundle::field_opt_str(v, "text"@),
                        ) {
                            (Some(mime_type), Some(text)) => Some(
                                BlockView::Resource { uri, mime_type, text },
                            ),
                            _ => None,
                        }
                    },
                    _ => None,
                }
            } else {
                None
            }
        },
        _ => None,
    }
}

/// A sequence of content blocks.
pub open spec fn parse_blocks_seq(items: Seq<JsonView>) -> Option<Seq<BlockView>>
    decreases items.len(),
{
    if items.len() == 0 {
        Some(Seq::empty())
    } else {
        match parse_blocks_seq(items.drop_last()) {
            None => None,
            Some(front) => match parse_block(items.last()) {
                Some(b) => Some(front.push(b)),
                None => None,
            },
        }
    }
}

/// A `tools/call` result: a `content` list of blocks and an optional
/// `is_error` flag, false when absent.
pub open spec fn parse_call_result(v: JsonView) -> Option<(Seq<BlockView>, bool)> {
    match obj_get_view(v, "content"@) {
        Some(JsonView::Arr(items)) => match parse_blocks_seq(items) {
            Some(blocks) => match obj_get_view(v, "is_error"@) {
                None => Some((blocks, false)),
                Some(JsonView::Bool(b)) => Some((blocks, b)),
                Some(JsonView::Null) => Some((blocks, false)),
                Some(_) => None,
            },
            None => None,
        },
        _ => None,
    }
}

/// Propagation of a block parse failure from a prefix to the whole list.
proof fn lemma_blocks_none_prefix(items: Seq<JsonView>, k: int)
    requires
        0 <= k <= items.len(),
        parse_blocks_seq(items.take(k)) is None,
    ensures
        parse_blocks_seq(items) is None,
    decreases items.len() - k,
{
    if k < items.len() {
        assert(items.take(k + 1).drop_last() =~= items.take(k));
        lemma_blocks_none_prefix(items, k + 1);
    } else {
        assert(items.take(k) =~= items);
    }
}

/// Parse one content block.
fn block_from_json(v: &JsonValue) -> (r: Result<ContentBlock, ()>)
    ensures
        match r {
            Ok(b) => parse_block(v@) == Some(b@),
            Err(_) => parse_block(v@) is None,
        },
{
    let tag = match v.get("type") {
        Some(JsonValue::Str(s)) => s,
        _ => {
            return Err(());
        },
    };
    if crate::strutil::str_eq(tag.as_str(), "text") {
        match v.get("text") {
            Some(JsonValue::Str(text)) => Ok(ContentBlock::Text { text: text.clone() }),
            _ => Err(()),
        }
    } else if crate::strutil::str_eq(tag.as_str(), "image") {
        let data = match v.get("data") {
            Some(JsonValue::Str(s)) => s.clone(),
            _ => {
                return Err(());
            },
        };
        match v.get("mime_type") {
            Some(JsonValue::Str(mime_type)) => Ok(
                ContentBlock::Image { data, mime_type: mime_type.clone() },
            ),
            _ => Err(()),
        }
    } else if crate::strutil::str_eq(tag.as_str(), "resource") {
        let uri = match v.get("uri") {
            Some(JsonValue::Str(s)) => s.clone(),
            _ => {
                return Err(());
            },
        };
        let mime_type = match v.get("mime_type") {
            None => None,
            Some(JsonValue::Str(s)) => Some(s.clone()),
            Some(JsonValue::Null) => None,
            _ => {
                return Err(());
            },
        };
        let text = match v.get("text") {
            None => None,
            Some(JsonValue::Str(s)) => Some(s.clone()),
            Some(JsonValue::Null) => None,
            _ => {
                return Err(());
            },
        };
        Ok(ContentBlock::Resource { uri, mime_type, text })
    } else {
        Err(())
    }
}

/// Parse a `tools/call` result.
pub fn call_result_from_json(v: &JsonValue) -> (r: Result<CallToolResult, ToolError>)
    ensures
        match r {
            Ok(res) => parse_call_result(v@) == Some(
                (Seq::new(res.content@.len(), |i: int| res.content@[i]@), res.is_error),
            ),
            Err(e) => parse_call_result(v@) is None && e matches ToolError::ExternalService {
                ..
            },
        },
{
    let field = match v.get("content") {
        Some(f) => f,
        None => {
            return Err(
                ToolError::ExternalService {
                    reason: String::from_str("tool result holds no content"),
                },
            );
        },
    };
    let blocks = match field {
        JsonValue::Arr(items) => {
            let ghost iv = field@->Arr_0;
            proof {
                crate::json::lemma_views_seq_len(items@);
            }
            let mut blocks: Vec<ContentBlock> = Vec::new();
            let mut i: usize = 0;
            while i < items.len()
                invariant
                    i <= items@.len(),
                    *field == JsonValue::Arr(*items),
                    iv == field@->Arr_0,
                    iv.len() == items@.len(),
                    blocks@.len() == i,
                    obj_get_view(v@, "content"@) == Some(JsonView::Arr(iv)),
                    parse_blocks_seq(iv.take(i as int)) == Some(
                        Seq::new(blocks@.len(), |j: int| blocks@[j]@),
                    ),
                decreases items@.len() - i,
            {
                proof {
                    crate::json::lemma_views_seq_index(items@, i as int);
                    assert(iv.take(i as int + 1).drop_last() =~= iv.take(i as int));
                    assert(iv.take(i as int + 1).last() == iv[i as int]);
                }
                match block_from_json(&items[i]) {
                    Ok(b) => {
                        blocks.push(b);
                        proof {
                            assert(Seq::new(blocks@.len(), |j: int| blocks@[j]@) =~= Seq::new(
                                (blocks@.len() - 1) as nat,
                                |j: int| blocks@[j]@,
                            ).push(blocks@[blocks@.len() - 1]@));
                            assert(Seq::new((blocks@.len() - 1) as nat, |j: int| blocks@[j]@)
                                =~= Seq::new(
                                (blocks@.len() - 1) as nat,
                                |j: int| blocks@.take(blocks@.len() - 1)[j]@,
                            ));
                        }
                    },
                    Err(_) => {
                        proof {
                            lemma_blocks_none_prefix(iv, i as int + 1);
                        }
                        return Err(
                            ToolError::ExternalService {
                                reason: String::from_str("invalid content block"),
                            },
                        );
                    },
                }
                i = i + 1;
            }
            proof {
                assert(iv.take(iv.len() as int) =~= iv);
            }
            blocks
        },
        _ => {
            return Err(
                ToolError::ExternalService { reason: String::from_str("content must be a list") },
            );
        },
    };
    let is_error = match v.get("is_error") {
        None => false,
        Some(JsonValue::Bool(b)) => *b,
        Some(JsonValue::Null) => false,
        _ => {
            return Err(
                ToolError::ExternalService { reason: String::from_str("invalid error flag") },
            );
        },
    };
    Ok(CallToolResult { content: blocks, is_error })
}


/// The mathematical model of a response envelope.
pub struct McpResponseView {
    pub jsonrpc: Seq<char>,
    pub id: u64,
    pub result: Option<JsonView>,
    pub error: Option<(int, Seq<char>)>,
}

impl View for McpResponse {
    type V = McpResponseView;

    open spec fn view(&self) -> McpResponseView {
        McpResponseView {
            jsonrpc: self.jsonrpc@,
            id: self.id,
            result: match self.result {
                Some(r) => Some(r@),
                None => None,
            },
            error: match self.error {
                Some(e) => Some((e.code as int, e.message@)),
                None => None,
            },
        }
    }
}

/// A JSON-RPC response envelope: the version string, a non-negative id,
/// and an optional result and error; an error carries an integer code and
/// a message.
pub open spec fn parse_response(v: JsonView) -> Option<McpResponseView> {
    match (obj_get_view(v, "jsonrpc"@), obj_get_view(v, "id"@)) {
        (Some(JsonView::Str(version)), Some(JsonView::Int(id))) => {
            if 0 <= id <= u64::MAX {
                let result = match obj_get_view(v, "result"@) {
                    None => Some(None),
                    Some(JsonView::Null) => Some(None),
                    Some(r) => Some(Some(r)),
                };
                let error = match obj_get_view(v, "error"@) {
                    None => Some(None),
                    Some(JsonView::Null) => Some(None),
                    Some(e) => match (
                        obj_get_view(e, "code"@),
                        obj_get_view(e, "message"@),
                    ) {
                        (Some(JsonView::Int(code)), Some(JsonView::Str(message))) => Some(
                            Some((code, message)),
                        ),
                        _ => None,
                    },
                };
                match (result, error) {
                    (Some(result), Some(error)) => Some(
                        McpResponseView { jsonrpc: version, id: id as u64, result, error },
                    ),
                    _ => None,
                }
            } else {
                None
            }
        },
        _ => None,
    }
}

/// Parse a JSON-RPC response envelope.
pub fn response_from_json(v: &JsonValue) -> (r: Result<McpResponse, ToolError>)
    ensures
        match r {
            Ok(resp) => parse_response(v@) == Some(resp@),
            Err(e) => parse_response(v@) is None && e matches ToolError::ExternalService { .. },
        },
{
    let jsonrpc = match v.get("jsonrpc") {
        Some(JsonValue::Str(s)) => s.clone(),
        _ => {
            return Err(
                ToolError::ExternalService {
                    reason: String::from_str("response carries no version"),
                },
            );
        },
    };
    let id = match v.get("id") {
        Some(JsonValue::Int(n)) => {
            let n = *n;
            if n >= 0 {
                n as u64
            } else {
                return Err(
                    ToolError::ExternalService {
                        reason: String::from_str("response id is negative"),
                    },
                );
            }
        },
        _ => {
            return Err(
                ToolError::ExternalService { reason: String::from_str("response carries no id") },
            );
        },
    };
    let result = match v.get("result") {
        None => None,
        Some(JsonValue::Null) => None,
        Some(r) => Some(r.clone()),
    };
    let error = match v.get("error") {
        None => None,
        Some(JsonValue::Null) => None,
        Some(e) => {
            let code = match e.get("code") {
                Some(JsonValue::Int(c)) => *c,
                _ => {
                    return Err(
                        ToolError::ExternalService {
                            reason: String::from_str("error carries no code"),
                        },
                    );
                },
            };
            let message = match e.get("message") {
                Some(JsonValue::Str(m)) => m.clone(),
                _ => {
                    return Err(
                        ToolError::ExternalService {
                            reason: String::from_str("error carries no message"),
                        },
                    );
                },
            };
            let data = match e.get("data") {
                Some(d) => Some(d.clone()),
                None => None,
            };
            Some(McpError { code, message, data })
        },
    };
    Ok(McpResponse { jsonrpc, id, result, error })
}

} // verus!
