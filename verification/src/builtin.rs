//! The built-in tools: workspace memory search, write and read, and the
//! decision core of the HTTP request tool. Each tool's logic runs here; the
//! HTTP transfer itself is the caller's task.

use vstd::prelude::*;

use crate::document::DocType;
use crate::errors::ToolError;
use crate::json::{obj_get_view, JsonValue, JsonView};
use crate::strutil::str_eq;
use crate::tools::{ToolDefinition, ToolOutput, ToolSource};
use crate::workspace::Workspace;

verus! {

broadcast use crate::json::group_json_view_lemmas;

/// Read a required string field of the parameters.
fn require_str<'a>(params: &'a JsonValue, key: &str) -> (r: Result<&'a String, ToolError>)
    ensures
        match r {
            Ok(s) => obj_get_view(params@, key@) == Some(JsonView::Str(s@)),
            Err(e) => e matches ToolError::InvalidParameters { .. } && !(obj_get_view(
                params@,
                key@,
            ) matches Some(JsonView::Str(_))),
        },
{
    match params.get(key) {
        Some(JsonValue::Str(s)) => Ok(s),
        _ => {
            let mut reason = String::from_str("missing '");
            reason.append(key);
            reason.append("' parameter");
            Err(ToolError::InvalidParameters { reason })
        },
    }
}

/// The definition of the memory search tool.
pub fn memory_search_definition() -> (r: ToolDefinition)
    ensures
        r.name@ == "memory_search"@,
        !r.requires_approval,
        !r.requires_sanitization,
        r.source is Builtin,
        obj_get_view(r.parameters_schema@, "required"@) == Some(
            JsonView::Arr(seq![JsonView::Str("query"@)]),
        ),
{
    let properties = JsonValue::Obj(
        vec![
            (
                String::from_str("query"),
                JsonValue::Obj(
                    vec![
                        (String::from_str("type"), JsonValue::Str(String::from_str("string"))),
                        (
                            String::from_str("description"),
                            JsonValue::Str(
                                String::from_str("The search query, in natural language."),
                            ),
                        ),
                    ],
                ),
            ),
            (
                String::from_str("limit"),
                JsonValue::Obj(
                    vec![
                        (String::from_str("type"), JsonValue::Str(String::from_str("integer"))),
                        (
                            String::from_str("description"),
                            JsonValue::Str(
                                String::from_str(
                                    "Maximum number of results (default 5, at most 20).",
                                ),
                            ),
                        ),
                    ],
                ),
            ),
        ],
    );
    let mut req_items: Vec<JsonValue> = Vec::new();
    req_items.push(JsonValue::Str(String::from_str("query")));
    let ghost gr = req_items@;
    let mut top: Vec<(String, JsonValue)> = Vec::new();
    top.push((String::from_str("type"), JsonValue::Str(String::from_str("object"))));
    top.push((String::from_str("properties"), properties));
    top.push((String::from_str("required"), JsonValue::Arr(req_items)));
    let ghost gt = top@;
    let schema = JsonValue::Obj(top);
    proof {
        assert(schema@->Obj_0 == crate::json::entry_views_seq(gt));
        assert(crate::json::entry_views_seq(gt).len() == gt.len());
        assert(gt[2].1@->Arr_0 == crate::json::views_seq(gr));
        assert(crate::json::views_seq(gr).len() == gr.len());
        assert(gt[2].1@->Arr_0 =~= seq![JsonView::Str("query"@)]);
        reveal_strlit("type");
        reveal_strlit("properties");
        reveal_strlit("required");
        assert("type"@.len() == 4);
        assert("properties"@.len() == 10);
        assert("required"@.len() == 8);
        crate::json::lemma_obj_first_index_char(schema@->Obj_0, "required"@, 2);
    }
    ToolDefinition {
        name: String::from_str("memory_search"),
        description: String::from_str(
            "Search past memories, decisions and context before answering questions about prior work.",
        ),
        parameters_schema: schema,
        requires_approval: false,
        requires_sanitization: false,
        estimated_duration_ms: None,
        source: ToolSource::Builtin,
    }
}

/// The requested search query; meaningful when the parameter is a string.
pub open spec fn spec_query(p: JsonView) -> Seq<char> {
    match obj_get_view(p, "query"@) {
        Some(JsonView::Str(s)) => s,
        _ => Seq::empty(),
    }
}

/// The requested result limit: five when absent or not a non-negative
/// integer, and at most twenty.
pub open spec fn spec_limit(p: JsonView) -> int {
    match obj_get_view(p, "limit"@) {
        Some(JsonView::Int(n)) => if n < 0 {
            5
        } else if n > 20 {
            20
        } else {
            n
        },
        _ => 5,
    }
}

/// The wire form of one search result row.
pub open spec fn row_json(row: crate::workspace::SearchResult) -> JsonView {
    JsonView::Obj(
        seq![
            ("content"@, JsonView::Str(row.content@)),
            ("document_id"@, JsonView::Int((row.document_id as i64) as int)),
            ("is_hybrid_match"@, JsonView::Bool(row.lex_rank is Some && row.vec_rank is Some)),
        ],
    )
}

/// The wire forms of the result rows.
pub open spec fn rows_json(rows: Seq<crate::workspace::SearchResult>) -> Seq<JsonView> {
    Seq::new(rows.len(), |i: int| row_json(rows[i]))
}

/// The wire form of the search tool's output.
pub open spec fn search_output_json(
    q: Seq<char>,
    rows: Seq<crate::workspace::SearchResult>,
) -> JsonView {
    JsonView::Obj(
        seq![
            ("query"@, JsonView::Str(q)),
            ("results"@, JsonView::Arr(rows_json(rows))),
            ("result_count"@, JsonView::Int(rows.len() as int)),
        ],
    )
}

/// Run a memory search: the required `query` is looked up in the workspace
/// with the clamped `limit` (five when absent, at most twenty), and the
/// output lists the matching rows exactly as the workspace search returns
/// them, with their count.
pub fn memory_search_execute(workspace: &Workspace, params: &JsonValue) -> (r: Result<
    ToolOutput,
    ToolError,
>)
    requires
        workspace.wf(),
    ensures
        match r {
            Ok(out) => {
                &&& out.success
                &&& (obj_get_view(params@, "query"@) matches Some(JsonView::Str(_)))
                &&& exists|rows: Seq<crate::workspace::SearchResult>|
                    #![trigger crate::workspace::search_post(
                        workspace.spec_chunks(),
                        spec_query(params@),
                        Seq::<u64>::empty(),
                        spec_limit(params@),
                        rows,
                    )]
                    crate::workspace::search_post(
                        workspace.spec_chunks(),
                        spec_query(params@),
                        Seq::<u64>::empty(),
                        spec_limit(params@),
                        rows,
                    ) && out.result@ == search_output_json(spec_query(params@), rows)
            },
            Err(e) => e matches ToolError::InvalidParameters { .. } && !(obj_get_view(
                params@,
                "query"@,
            ) matches Some(JsonView::Str(_))),
        },
{
    let query = match require_str(params, "query") {
        Ok(s) => s,
        Err(e) => {
            return Err(e);
        },
    };
    let limit: usize = match params.get("limit") {
        Some(JsonValue::Int(n)) => {
            let n = *n;
            if n < 0 {
                5
            } else if n > 20 {
                20
            } else {
                n as usize
            }
        },
        _ => 5,
    };
    proof {
        assert(limit as int == spec_limit(params@));
    }
    let results = workspace.search(query.as_str(), limit);
    let ghost rows = results@;
    let mut listed: Vec<JsonValue> = Vec::new();
    let mut i: usize = 0;
    while i < results.len()
        invariant
            i <= results@.len(),
            rows == results@,
            listed@.len() == i,
            forall|j: int| 0 <= j < i ==> (#[trigger] listed@[j])@ == row_json(rows[j]),
        decreases results@.len() - i,
    {
        let item = &results[i];
        let mut entry: Vec<(String, JsonValue)> = Vec::new();
        entry.push((String::from_str("content"), JsonValue::Str(item.content.clone())));
        entry.push(
            (
                String::from_str("document_id"),
                JsonValue::Int(#[verifier::truncate] (item.document_id as i64)),
            ),
        );
        entry.push((String::from_str("is_hybrid_match"), JsonValue::Bool(item.is_hybrid())));
        let ghost ge = entry@;
        let row = JsonValue::Obj(entry);
        proof {
            assert(row@->Obj_0 == crate::json::entry_views_seq(ge));
            assert(crate::json::entry_views_seq(ge).len() == ge.len());
            assert(row@->Obj_0 =~= row_json(rows[i as int])->Obj_0);
        }
        listed.push(row);
        i = i + 1;
    }
    let count = listed.len();
    let ghost gl = listed@;
    let mut top: Vec<(String, JsonValue)> = Vec::new();
    top.push((String::from_str("query"), JsonValue::Str(query.clone())));
    top.push((String::from_str("results"), JsonValue::Arr(listed)));
    top.push((String::from_str("result_count"), JsonValue::Int(count as i64)));
    let ghost gt = top@;
    let output = JsonValue::Obj(top);
    proof {
        assert(output@->Obj_0 == crate::json::entry_views_seq(gt));
        assert(crate::json::entry_views_seq(gt).len() == gt.len());
        assert(gt[1].1@->Arr_0 == crate::json::views_seq(gl));
        assert(crate::json::views_seq(gl).len() == gl.len());
        assert(gt[1].1@->Arr_0 =~= rows_json(rows));
        assert(output@->Obj_0 =~= search_output_json(spec_query(params@), rows)->Obj_0);
    }
    Ok(ToolOutput::success(output, 0))
}

/// The definition of the memory write tool.
pub fn memory_write_definition() -> (r: ToolDefinition)
    ensures
        r.name@ == "memory_write"@,
        !r.requires_approval,
        !r.requires_sanitization,
        r.source is Builtin,
        obj_get_view(r.parameters_schema@, "required"@) == Some(
            JsonView::Arr(seq![JsonView::Str("content"@)]),
        ),
{
    let properties = JsonValue::Obj(
        vec![
            (
                String::from_str("content"),
                JsonValue::Obj(
                    vec![
                        (String::from_str("type"), JsonValue::Str(String::from_str("string"))),
                        (
                            String::from_str("description"),
                            JsonValue::Str(String::from_str("The content to write to memory.")),
                        ),
                    ],
                ),
            ),
            (
                String::from_str("target"),
                JsonValue::Obj(
                    vec![
                        (String::from_str("type"), JsonValue::Str(String::from_str("string"))),
                        (
                            String::from_str("enum"),
                            JsonValue::Arr(
                                vec![
                                    JsonValue::Str(String::from_str("memory")),
                                    JsonValue::Str(String::from_str("daily_log")),
                                ],
                            ),
                        ),
                    ],
                ),
            ),
        ],
    );
    let mut req_items: Vec<JsonValue> = Vec::new();
    req_items.push(JsonValue::Str(String::from_str("content")));
    let ghost gr = req_items@;
    let mut top: Vec<(String, JsonValue)> = Vec::new();
    top.push((String::from_str("type"), JsonValue::Str(String::from_str("object"))));
    top.push((String::from_str("properties"), properties));
    top.push((String::from_str("required"), JsonValue::Arr(req_items)));
    let ghost gt = top@;
    let schema = JsonValue::Obj(top);
    proof {
        assert(schema@->Obj_0 == crate::json::entry_views_seq(gt));
        assert(crate::json::entry_views_seq(gt).len() == gt.len());
        assert(gt[2].1@->Arr_0 == crate::json::views_seq(gr));
        assert(crate::json::views_seq(gr).len() == gr.len());
        assert(gt[2].1@->Arr_0 =~= seq![JsonView::Str("content"@)]);
        reveal_strlit("type");
        reveal_strlit("properties");
        reveal_strlit("required");
        assert("type"@.len() == 4);
        assert("properties"@.len() == 10);
        assert("required"@.len() == 8);
        crate::json::lemma_obj_first_index_char(schema@->Obj_0, "required"@, 2);
    }
    ToolDefinition {
        name: String::from_str("memory_write"),
        description: String::from_str(
            "Write to persistent memory: curated long-term facts, or timestamped daily notes.",
        ),
        parameters_schema: schema,
        requires_approval: false,
        requires_sanitization: false,
        estimated_duration_ms: None,
        source: ToolSource::Builtin,
    }
}

/// Whether a string holds any non-whitespace character.
fn has_substance(s: &str) -> (r: bool)
    ensures
        r == exists|i: int|
            0 <= i < s@.len() && !crate::document::spec_is_space(#[trigger] s@[i]),
{
    let len = s.unicode_len();
    let mut i: usize = 0;
    while i < len
        invariant
            i <= len,
            len == s@.len(),
            forall|j: int| 0 <= j < i ==> crate::document::spec_is_space(#[trigger] s@[j]),
        decreases len - i,
    {
        if !crate::document::is_space(s.get_char(i)) {
            return true;
        }
        i = i + 1;
    }
    false
}

/// Whether a character sequence holds any non-whitespace character.
pub open spec fn spec_nonblank(c: Seq<char>) -> bool {
    exists|i: int| 0 <= i < c.len() && !crate::document::spec_is_space(#[trigger] c[i])
}

/// Whether write parameters are acceptable: a nonblank string `content`,
/// and a `target` that, when it is a string, names the memory or the daily
/// log. Any other target value falls back to the daily log.
pub open spec fn write_params_ok(p: JsonView) -> bool {
    &&& (obj_get_view(p, "content"@) matches Some(JsonView::Str(c)) && spec_nonblank(c))
    &&& (match obj_get_view(p, "target"@) {
        Some(JsonView::Str(t)) => t == "memory"@ || t == "daily_log"@,
        _ => true,
    })
}

/// The content to write; meaningful when the parameters are acceptable.
pub open spec fn write_content(p: JsonView) -> Seq<char> {
    match obj_get_view(p, "content"@) {
        Some(JsonView::Str(c)) => c,
        _ => Seq::empty(),
    }
}

/// Whether the write goes to the long-term memory rather than the daily
/// log.
pub open spec fn write_to_memory(p: JsonView) -> bool {
    obj_get_view(p, "target"@) == Some(JsonView::Str("memory"@))
}

/// The wire form of the write tool's output.
pub open spec fn write_output_json(to_memory: bool, content: Seq<char>) -> JsonView {
    JsonView::Obj(
        seq![
            ("status"@, JsonView::Str("written"@)),
            (
                "target"@,
                JsonView::Str(
                    if to_memory {
                        "memory"@
                    } else {
                        "daily_log"@
                    },
                ),
            ),
            ("content_length"@, JsonView::Int((content.len() as i64) as int)),
        ],
    )
}

/// Run a memory write: the required nonblank `content` is appended to the
/// long-term memory when the target says so, else to today's daily log,
/// exactly as the workspace append operations state; the output reports the
/// target and the content length.
pub fn memory_write_execute(workspace: &mut Workspace, params: &JsonValue) -> (r: Result<
    ToolOutput,
    ToolError,
>)
    requires
        old(workspace).wf(),
    ensures
        final(workspace).wf(),
        r matches Err(e) ==> (e matches ToolError::InvalidParameters { .. } || e
            matches ToolError::ExecutionFailed { .. }),
        (r matches Err(e) && e matches ToolError::InvalidParameters { .. }) <==> !write_params_ok(
            params@,
        ),
        r matches Ok(out) ==> ({
            let c = write_content(params@);
            &&& out.success
            &&& out.result@ == write_output_json(write_to_memory(params@), c)
            &&& (write_to_memory(params@) ==> ({
                let expected = crate::workspace::appended_memory_content(
                    old(workspace).spec_docs(),
                    c,
                );
                let fdocs = final(workspace).spec_docs();
                &&& crate::workspace::has_doc(fdocs, DocType::Memory, None)
                &&& fdocs[crate::workspace::find_doc(fdocs, DocType::Memory, None)].content@
                    == expected
                &&& crate::workspace::write_framed(
                    old(workspace).spec_docs(),
                    old(workspace).spec_chunks(),
                    fdocs,
                    final(workspace).spec_chunks(),
                    DocType::Memory,
                    None,
                )
            }))
            &&& (!write_to_memory(params@) ==> exists|
                date: Seq<char>,
                hour: u8,
                minute: u8,
                second: u8,
            |
                #![trigger crate::workspace::timestamp_prefix(hour, minute, second), crate::workspace::has_doc(
                    final(workspace).spec_docs(),
                    DocType::DailyLog,
                    Some(date),
                )]
                {
                    let stamped = crate::workspace::timestamp_prefix(hour, minute, second).add(c);
                    let expected = crate::workspace::appended_log_content(
                        old(workspace).spec_docs(),
                        date,
                        stamped,
                    );
                    let fdocs = final(workspace).spec_docs();
                    &&& hour < 24
                    &&& minute < 60
                    &&& second < 60
                    &&& crate::workspace::has_doc(fdocs, DocType::DailyLog, Some(date))
                    &&& fdocs[crate::workspace::find_doc(
                        fdocs,
                        DocType::DailyLog,
                        Some(date),
                    )].content@ == expected
                    &&& crate::workspace::write_framed(
                        old(workspace).spec_docs(),
                        old(workspace).spec_chunks(),
                        fdocs,
                        final(workspace).spec_chunks(),
                        DocType::DailyLog,
                        Some(date),
                    )
                })
        }),
{
    let content = match require_str(params, "content") {
        Ok(s) => s.clone(),
        Err(e) => {
            return Err(e);
        },
    };
    if !has_substance(content.as_str()) {
        return Err(
            ToolError::InvalidParameters { reason: String::from_str("content cannot be empty") },
        );
    }
    let target_is_memory = match params.get("target") {
        Some(JsonValue::Str(t)) => {
            if str_eq(t.as_str(), "memory") {
                true
            } else if str_eq(t.as_str(), "daily_log") {
                false
            } else {
                return Err(
                    ToolError::InvalidParameters {
                        reason: String::from_str(
                            "invalid target: must be 'memory' or 'daily_log'",
                        ),
                    },
                );
            }
        },
        _ => false,
    };
    proof {
        assert(write_params_ok(params@));
        assert(target_is_memory == write_to_memory(params@));
        assert(content@ == write_content(params@));
    }
    let write_result = if target_is_memory {
        workspace.append_memory(content.as_str())
    } else {
        workspace.append_daily_log(content.as_str())
    };
    match write_result {
        Ok(_) => {},
        Err(_) => {
            return Err(
                ToolError::ExecutionFailed { reason: String::from_str("memory write failed") },
            );
        },
    }
    let target_name = if target_is_memory {
        String::from_str("memory")
    } else {
        String::from_str("daily_log")
    };
    let len = content.unicode_len();
    let mut top: Vec<(String, JsonValue)> = Vec::new();
    top.push((String::from_str("status"), JsonValue::Str(String::from_str("written"))));
    top.push((String::from_str("target"), JsonValue::Str(target_name)));
    top.push(
        (
            String::from_str("content_length"),
            JsonValue::Int(#[verifier::truncate] (len as i64)),
        ),
    );
    let ghost gt = top@;
    let output = JsonValue::Obj(top);
    proof {
        assert(output@->Obj_0 == crate::json::entry_views_seq(gt));
        assert(crate::json::entry_views_seq(gt).len() == gt.len());
        assert(output@->Obj_0 =~= write_output_json(write_to_memory(params@), content@)->Obj_0);
    }
    Ok(ToolOutput::success(output, 0))
}

/// The definition of the memory read tool.
pub fn memory_read_definition() -> (r: ToolDefinition)
    ensures
        r.name@ == "memory_read"@,
        !r.requires_approval,
        !r.requires_sanitization,
        r.source is Builtin,
{
    let schema = JsonValue::Obj(
        vec![
            (String::from_str("type"), JsonValue::Str(String::from_str("object"))),
            (
                String::from_str("required"),
                JsonValue::Arr(vec![JsonValue::Str(String::from_str("doc_type"))]),
            ),
        ],
    );
    ToolDefinition {
        name: String::from_str("memory_read"),
        description: String::from_str(
            "Read a memory document by type: identity files, the heartbeat checklist, or memory.",
        ),
        parameters_schema: schema,
        requires_approval: false,
        requires_sanitization: false,
        estimated_duration_ms: None,
        source: ToolSource::Builtin,
    }
}

/// The requested document type name; meaningful when it is a string.
pub open spec fn read_name(p: JsonView) -> Seq<char> {
    match obj_get_view(p, "doc_type"@) {
        Some(JsonView::Str(s)) => s,
        _ => Seq::empty(),
    }
}

/// The requested title: a string `title` parameter, anything else counting
/// as absent.
pub open spec fn read_title(p: JsonView) -> Option<Seq<char>> {
    match obj_get_view(p, "title"@) {
        Some(JsonView::Str(t)) => Some(t),
        _ => None,
    }
}

/// Whether read parameters are acceptable: `doc_type` is a string naming a
/// document type.
pub open spec fn read_params_ok(p: JsonView) -> bool {
    (obj_get_view(p, "doc_type"@) matches Some(JsonView::Str(s))) && (exists|d: DocType|
        (#[trigger] d.spec_str()) == read_name(p))
}

/// The wire form of the read tool's output.
pub open spec fn read_output_json(
    name: Seq<char>,
    doc: crate::document::MemoryDocument,
) -> JsonView {
    JsonView::Obj(
        seq![
            ("doc_type"@, JsonView::Str(name)),
            (
                "title"@,
                match doc.title {
                    Some(t) => JsonView::Str(t@),
                    None => JsonView::Null,
                },
            ),
            ("content"@, JsonView::Str(doc.content@)),
            (
                "word_count"@,
                JsonView::Int(((crate::document::spec_word_count(doc.content@)) as i64) as int),
            ),
            ("updated_at"@, JsonView::Int((doc.updated_at as i64) as int)),
        ],
    )
}

/// No two document types share a name.
proof fn lemma_doc_type_names_distinct()
    ensures
        forall|a: DocType, b: DocType| a != b ==> #[trigger] a.spec_str() != #[trigger] b.spec_str(),
{
    reveal_strlit("memory");
    reveal_strlit("daily_log");
    reveal_strlit("identity");
    reveal_strlit("soul");
    reveal_strlit("agents");
    reveal_strlit("user");
    reveal_strlit("heartbeat");
    assert("memory"@.len() == 6);
    assert("daily_log"@.len() == 9);
    assert("identity"@.len() == 8);
    assert("soul"@.len() == 4);
    assert("agents"@.len() == 6);
    assert("user"@.len() == 4);
    assert("heartbeat"@.len() == 9);
    assert("memory"@ != "agents"@) by {
        assert("memory"@[0] == 'm');
        assert("agents"@[0] == 'a');
    }
    assert("soul"@ != "user"@) by {
        assert("soul"@[0] == 's');
        assert("user"@[0] == 'u');
    }
    assert("daily_log"@ != "heartbeat"@) by {
        assert("daily_log"@[0] == 'd');
        assert("heartbeat"@[0] == 'h');
    }
    assert forall|a: DocType, b: DocType| a != b implies #[trigger] a.spec_str()
        != #[trigger] b.spec_str() by {
        match a {
            DocType::Memory => {},
            DocType::DailyLog => {},
            DocType::Identity => {},
            DocType::Soul => {},
            DocType::Agents => {},
            DocType::User => {},
            DocType::Heartbeat => {},
        }
    }
}

/// Run a memory read: the required `doc_type` names the document, with an
/// optional `title` for daily logs. The parameters are refused when the
/// type name is unknown; a known type without a stored document fails the
/// call; otherwise the output carries the document's content, title, word
/// count and update stamp.
pub fn memory_read_execute(workspace: &Workspace, params: &JsonValue) -> (r: Result<
    ToolOutput,
    ToolError,
>)
    ensures
        r matches Err(e) ==> (e matches ToolError::InvalidParameters { .. } || e
            matches ToolError::ExecutionFailed { .. }),
        (r matches Err(e) && e matches ToolError::InvalidParameters { .. }) <==> !read_params_ok(
            params@,
        ),
        r matches Ok(out) ==> ({
            &&& out.success
            &&& read_params_ok(params@)
            &&& exists|d: DocType|
                (#[trigger] d.spec_str()) == read_name(params@) && crate::workspace::has_doc(
                    workspace.spec_docs(),
                    d,
                    read_title(params@),
                ) && out.result@ == read_output_json(
                    read_name(params@),
                    workspace.spec_docs()[
                        crate::workspace::find_doc(workspace.spec_docs(), d, read_title(params@))
                    ],
                )
        }),
        read_params_ok(params@) ==> ((r is Ok) <==> exists|d: DocType|
            (#[trigger] d.spec_str()) == read_name(params@) && crate::workspace::has_doc(
                workspace.spec_docs(),
                d,
                read_title(params@),
            )),
{
    let doc_type_name = match require_str(params, "doc_type") {
        Ok(s) => s,
        Err(e) => {
            proof {
                if read_params_ok(params@) {
                    assert(obj_get_view(params@, "doc_type"@) matches Some(JsonView::Str(_)));
                }
            }
            return Err(e);
        },
    };
    let doc_type = match DocType::try_from(doc_type_name.as_str()) {
        Ok(d) => d,
        Err(_) => {
            proof {
                if read_params_ok(params@) {
                    let d = choose|d: DocType| (#[trigger] d.spec_str()) == read_name(params@);
                    assert(d.spec_str() == doc_type_name@);
                    assert(false);
                }
            }
            return Err(
                ToolError::InvalidParameters {
                    reason: String::from_str("unknown document type"),
                },
            );
        },
    };
    proof {
        assert(read_params_ok(params@));
        lemma_doc_type_names_distinct();
    }
    let title = match params.get("title") {
        Some(JsonValue::Str(t)) => Some(t.clone()),
        _ => None,
    };
    let ghost tv = read_title(params@);
    proof {
        assert(tv == (match title {
            Some(t) => Some(t@),
            None => None::<Seq<char>>,
        }));
    }
    let doc = match workspace.get_document(
        doc_type,
        match &title {
            Some(t) => Some(t.as_str()),
            None => None,
        },
    ) {
        Ok(d) => d,
        Err(_) => {
            proof {
                assert forall|d: DocType|
                    !((#[trigger] d.spec_str()) == read_name(params@)
                        && crate::workspace::has_doc(workspace.spec_docs(), d, tv)) by {
                    if d.spec_str() == read_name(params@) {
                        assert(d == doc_type);
                    }
                }
            }
            return Err(
                ToolError::ExecutionFailed { reason: String::from_str("document not found") },
            );
        },
    };
    let words = doc.word_count();
    let mut top: Vec<(String, JsonValue)> = Vec::new();
    top.push((String::from_str("doc_type"), JsonValue::Str(doc_type_name.clone())));
    top.push(
        (
            String::from_str("title"),
            match doc.title {
                Some(t) => JsonValue::Str(t),
                None => JsonValue::Null,
            },
        ),
    );
    top.push((String::from_str("content"), JsonValue::Str(doc.content)));
    top.push(
        (String::from_str("word_count"), JsonValue::Int(#[verifier::truncate] (words as i64))),
    );
    top.push(
        (
            String::from_str("updated_at"),
            JsonValue::Int(#[verifier::truncate] (doc.updated_at as i64)),
        ),
    );
    let ghost gt = top@;
    let output = JsonValue::Obj(top);
    proof {
        let stored = workspace.spec_docs()[
            crate::workspace::find_doc(workspace.spec_docs(), doc_type, tv)
        ];
        assert(output@->Obj_0 == crate::json::entry_views_seq(gt));
        assert(crate::json::entry_views_seq(gt).len() == gt.len());
        assert(output@->Obj_0 =~= read_output_json(read_name(params@), stored)->Obj_0);
    }
    Ok(ToolOutput::success(output, 0))
}

/// An HTTP request, decided from tool parameters and ready for a client to
/// send.
#[derive(Debug)]
pub struct HttpPlan {
    /// One of GET, POST, PUT, DELETE, PATCH, upper-cased.
    pub method: String,
    /// The request URL.
    pub url: String,
    /// Header names and values.
    pub headers: Vec<(String, String)>,
    /// JSON body for POST, PUT and PATCH requests.
    pub body: Option<JsonValue>,
    /// Request timeout in seconds.
    pub timeout_secs: u64,
}

/// The definition of the HTTP request tool: an outward call, so approval
/// and sanitization are both required.
pub fn http_definition() -> (r: ToolDefinition)
    ensures
        r.name@ == "http"@,
        r.requires_approval,
        r.requires_sanitization,
        r.source is Builtin,
{
    let schema = JsonValue::Obj(
        vec![
            (String::from_str("type"), JsonValue::Str(String::from_str("object"))),
            (
                String::from_str("required"),
                JsonValue::Arr(
                    vec![
                        JsonValue::Str(String::from_str("method")),
                        JsonValue::Str(String::from_str("url")),
                    ],
                ),
            ),
        ],
    );
    ToolDefinition {
        name: String::from_str("http"),
        description: String::from_str(
            "Make HTTP requests to external APIs. Supports GET, POST, PUT, DELETE, PATCH.",
        ),
        parameters_schema: schema,
        requires_approval: true,
        requires_sanitization: true,
        estimated_duration_ms: Some(5000),
        source: ToolSource::Builtin,
    }
}

/// Decide an HTTP request from tool parameters: the method must be one of
/// the five supported verbs, the URL is required, headers must be string
/// valued, and the timeout defaults to thirty seconds.
pub fn http_request_plan(params: &JsonValue) -> (r: Result<HttpPlan, ToolError>)
    ensures
        r matches Err(e) ==> e matches ToolError::InvalidParameters { .. },
        r matches Ok(plan) ==> (obj_get_view(params@, "url"@) matches Some(JsonView::Str(u))
            && plan.url@ == u),
{
    let method_raw = match require_str(params, "method") {
        Ok(s) => s,
        Err(e) => {
            return Err(e);
        },
    };
    let url = match require_str(params, "url") {
        Ok(s) => s.clone(),
        Err(e) => {
            return Err(e);
        },
    };
    let method = if str_eq(method_raw.as_str(), "GET") {
        String::from_str("GET")
    } else if str_eq(method_raw.as_str(), "POST") {
        String::from_str("POST")
    } else if str_eq(method_raw.as_str(), "PUT") {
        String::from_str("PUT")
    } else if str_eq(method_raw.as_str(), "DELETE") {
        String::from_str("DELETE")
    } else if str_eq(method_raw.as_str(), "PATCH") {
        String::from_str("PATCH")
    } else {
        return Err(
            ToolError::InvalidParameters { reason: String::from_str("unsupported method") },
        );
    };
    let mut headers: Vec<(String, String)> = Vec::new();
    match params.get("headers") {
        Some(JsonValue::Obj(entries)) => {
            let mut i: usize = 0;
            while i < entries.len()
                decreases entries@.len() - i,
            {
                match &entries[i].1 {
                    JsonValue::Str(value) => {
                        headers.push((entries[i].0.clone(), value.clone()));
                    },
                    _ => {
                        return Err(
                            ToolError::InvalidParameters {
                                reason: String::from_str("headers must be strings"),
                            },
                        );
                    },
                }
                i = i + 1;
            }
        },
        _ => {},
    }
    let body = match params.get("body") {
        Some(b) => Some(b.clone()),
        None => None,
    };
    let timeout_secs: u64 = match params.get("timeout_secs") {
        Some(JsonValue::Int(n)) => {
            let n = *n;
            if 1 <= n && n <= 300 {
                n as u64
            } else {
                30
            }
        },
        _ => 30,
    };
    Ok(HttpPlan { method, url, headers, body, timeout_secs })
}

/// Build the structured output of an HTTP response: the status, the
/// response headers, and the body — parsed when the caller could parse it,
/// else the raw text.
pub fn http_response_output(
    status: u16,
    headers: Vec<(String, String)>,
    body_parsed: Option<JsonValue>,
    body_text: String,
) -> (r: ToolOutput)
    ensures
        r.success,
        r.raw matches Some(w) && w@ == body_text@,
{
    let mut header_entries: Vec<(String, JsonValue)> = Vec::new();
    let mut hs = headers;
    let mut i: usize = 0;
    while i < hs.len()
        decreases hs@.len() - i,
    {
        header_entries.push((hs[i].0.clone(), JsonValue::Str(hs[i].1.clone())));
        i = i + 1;
    }
    let body = match body_parsed {
        Some(v) => v,
        None => JsonValue::Str(body_text.clone()),
    };
    let result = JsonValue::Obj(
        vec![
            (String::from_str("status"), JsonValue::Int(status as i64)),
            (String::from_str("headers"), JsonValue::Obj(header_entries)),
            (String::from_str("body"), body),
        ],
    );
    ToolOutput {
        success: true,
        result,
        raw: Some(body_text),
        elapsed_ms: 0,
    }
}

} // verus!
