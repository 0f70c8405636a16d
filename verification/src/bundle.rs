//! Declarative hook bundles: parsing bundle values, compiling rules and
//! outbound webhooks into registered hooks, and registering them.
//!
//! A bundle value is either an object with `rules` and `outbound_webhooks`
//! lists, or an array shorthand holding rules only.

use vstd::prelude::*;

use crate::errors::HookBundleError;
use crate::hooks::{
    HookBehavior, HookFailureMode, HookPoint, HookRegistry, RegisteredHook, RuleHook, WebhookHook,
};
use crate::json::{obj_get_view, JsonValue, JsonView};
use crate::pattern::{regex_check, regex_valid};
use crate::strutil::push_char;
use crate::weburl::{url_is_valid, url_valid};

verus! {

broadcast use crate::json::group_json_view_lemmas;

/// Default priority of rule hooks.
pub const DEFAULT_RULE_PRIORITY: u32 = 100;

/// Default priority of outbound webhook hooks.
pub const DEFAULT_WEBHOOK_PRIORITY: u32 = 300;

/// Default timeout of outbound webhook hooks, in milliseconds.
pub const DEFAULT_WEBHOOK_TIMEOUT_MS: u64 = 2000;

/// Default timeout of a hook with no override, in milliseconds.
pub const DEFAULT_HOOK_TIMEOUT_MS: u64 = 5000;

/// Largest accepted hook timeout, in milliseconds.
pub const MAX_HOOK_TIMEOUT_MS: u64 = 30000;

/// A single regex replacement step in a rule.
#[derive(Debug, Clone)]
pub struct RegexReplacementConfig {
    pub pattern: String,
    pub replacement: String,
}

/// A declarative regex/string rule.
#[derive(Debug, Clone)]
pub struct HookRuleConfig {
    /// Hook name; scoped with the bundle source at registration.
    pub name: String,
    /// Lifecycle points where the rule applies.
    pub points: Vec<HookPoint>,
    /// Optional priority override; lower runs first.
    pub priority: Option<u32>,
    /// Failure handling mode; fail-open when absent.
    pub failure_mode: Option<HookFailureMode>,
    /// Optional timeout override in milliseconds.
    pub timeout_ms: Option<u64>,
    /// Optional regex guard: when present and not matching, the rule is a
    /// no-op.
    pub when_regex: Option<String>,
    /// Optional immediate reject reason, used when the guard matches.
    pub reject_reason: Option<String>,
    /// Regex replacements applied in order.
    pub replacements: Vec<RegexReplacementConfig>,
    /// Text prepended to the event's primary content.
    pub prepend: Option<String>,
    /// Text appended to the event's primary content.
    pub append: Option<String>,
}

/// A declarative fire-and-forget outbound webhook.
#[derive(Debug, Clone)]
pub struct OutboundWebhookConfig {
    /// Hook name; scoped with the bundle source at registration.
    pub name: String,
    /// Lifecycle points that trigger the webhook.
    pub points: Vec<HookPoint>,
    /// Target URL.
    pub url: String,
    /// Optional static headers.
    pub headers: Vec<(String, String)>,
    /// Optional timeout override in milliseconds.
    pub timeout_ms: Option<u64>,
    /// Optional priority override; lower runs first.
    pub priority: Option<u32>,
}

/// A declarative hook bundle.
#[derive(Debug, Clone)]
pub struct HookBundleConfig {
    /// Declarative content rules.
    pub rules: Vec<HookRuleConfig>,
    /// Fire-and-forget webhook notifications.
    pub outbound_webhooks: Vec<OutboundWebhookConfig>,
}

/// The mathematical state of a rule configuration.
pub struct RuleConfigView {
    pub name: Seq<char>,
    pub points: Seq<HookPoint>,
    pub priority: Option<u32>,
    pub failure_mode: Option<HookFailureMode>,
    pub timeout_ms: Option<u64>,
    pub when_regex: Option<Seq<char>>,
    pub reject_reason: Option<Seq<char>>,
    pub replacements: Seq<(Seq<char>, Seq<char>)>,
    pub prepend: Option<Seq<char>>,
    pub append: Option<Seq<char>>,
}

/// The mathematical state of a webhook configuration.
pub struct WebhookConfigView {
    pub name: Seq<char>,
    pub points: Seq<HookPoint>,
    pub url: Seq<char>,
    pub headers: Seq<(Seq<char>, Seq<char>)>,
    pub timeout_ms: Option<u64>,
    pub priority: Option<u32>,
}

/// The mathematical state of a bundle.
pub struct BundleConfigView {
    pub rules: Seq<RuleConfigView>,
    pub outbound_webhooks: Seq<WebhookConfigView>,
}

/// The view of an optional string.
pub open spec fn opt_str_view(o: Option<String>) -> Option<Seq<char>> {
    match o {
        Some(s) => Some(s@),
        None => None,
    }
}

impl View for HookRuleConfig {
    type V = RuleConfigView;

    open spec fn view(&self) -> RuleConfigView {
        RuleConfigView {
            name: self.name@,
            points: self.points@,
            priority: self.priority,
            failure_mode: self.failure_mode,
            timeout_ms: self.timeout_ms,
            when_regex: opt_str_view(self.when_regex),
            reject_reason: opt_str_view(self.reject_reason),
            replacements: Seq::new(
                self.replacements@.len(),
                |i: int| (self.replacements@[i].pattern@, self.replacements@[i].replacement@),
            ),
            prepend: opt_str_view(self.prepend),
            append: opt_str_view(self.append),
        }
    }
}

impl View for OutboundWebhookConfig {
    type V = WebhookConfigView;

    open spec fn view(&self) -> WebhookConfigView {
        WebhookConfigView {
            name: self.name@,
            points: self.points@,
            url: self.url@,
            headers: self.headers.deep_view(),
            timeout_ms: self.timeout_ms,
            priority: self.priority,
        }
    }
}

impl View for HookBundleConfig {
    type V = BundleConfigView;

    open spec fn view(&self) -> BundleConfigView {
        BundleConfigView {
            rules: Seq::new(self.rules@.len(), |i: int| self.rules@[i]@),
            outbound_webhooks: Seq::new(
                self.outbound_webhooks@.len(),
                |i: int| self.outbound_webhooks@[i]@,
            ),
        }
    }
}

// ==================== The bundle grammar, mathematically ====================

/// An optional string field: `None` on a type mismatch, else the field's
/// value when present.
pub open spec fn field_opt_str(v: JsonView, key: Seq<char>) -> Option<Option<Seq<char>>> {
    match obj_get_view(v, key) {
        None => Some(None),
        Some(JsonView::Str(s)) => Some(Some(s)),
        Some(JsonView::Null) => Some(None),
        Some(_) => None,
    }
}

/// An optional unsigned integer field with an upper bound.
pub open spec fn field_opt_uint(v: JsonView, key: Seq<char>, max: int) -> Option<Option<u64>> {
    match obj_get_view(v, key) {
        None => Some(None),
        Some(JsonView::Int(n)) => if 0 <= n <= max {
            Some(Some(n as u64))
        } else {
            None
        },
        Some(JsonView::Null) => Some(None),
        Some(_) => None,
    }
}

/// The hook points named by a sequence of values, each a point's wire name.
pub open spec fn parse_points_seq(items: Seq<JsonView>) -> Option<Seq<HookPoint>>
    decreases items.len(),
{
    if items.len() == 0 {
        Some(Seq::empty())
    } else {
        match parse_points_seq(items.drop_last()) {
            None => None,
            Some(front) => match items.last() {
                JsonView::Str(s) => match HookPoint::spec_parse(s) {
                    Some(p) => Some(front.push(p)),
                    None => None,
                },
                _ => None,
            },
        }
    }
}

/// The required `points` field of a hook entry.
pub open spec fn parse_points_field(v: JsonView) -> Option<Seq<HookPoint>> {
    match obj_get_view(v, "points"@) {
        Some(JsonView::Arr(items)) => parse_points_seq(items),
        _ => None,
    }
}

/// The optional `failure_mode` field of a rule.
pub open spec fn parse_failure_mode_field(v: JsonView) -> Option<Option<HookFailureMode>> {
    match obj_get_view(v, "failure_mode"@) {
        None => Some(None),
        Some(JsonView::Str(s)) => if s == "fail_open"@ {
            Some(Some(HookFailureMode::FailOpen))
        } else if s == "fail_closed"@ {
            Some(Some(HookFailureMode::FailClosed))
        } else {
            None
        },
        Some(JsonView::Null) => Some(None),
        Some(_) => None,
    }
}

/// The replacement steps of a sequence of values, each an object with
/// `pattern` and `replacement` strings.
pub open spec fn parse_replacements_seq(items: Seq<JsonView>) -> Option<
    Seq<(Seq<char>, Seq<char>)>,
>
    decreases items.len(),
{
    if items.len() == 0 {
        Some(Seq::empty())
    } else {
        match parse_replacements_seq(items.drop_last()) {
            None => None,
            Some(front) => match (
                obj_get_view(items.last(), "pattern"@),
                obj_get_view(items.last(), "replacement"@),
            ) {
                (Some(JsonView::Str(p)), Some(JsonView::Str(r))) => Some(front.push((p, r))),
                _ => None,
            },
        }
    }
}

/// The optional `replacements` field of a rule: an empty list when absent.
pub open spec fn parse_replacements_field(v: JsonView) -> Option<Seq<(Seq<char>, Seq<char>)>> {
    match obj_get_view(v, "replacements"@) {
        None => Some(Seq::empty()),
        Some(JsonView::Arr(items)) => parse_replacements_seq(items),
        Some(_) => None,
    }
}

/// The header list of a webhook entry: an empty list when absent.
pub open spec fn parse_headers_field(v: JsonView) -> Option<Seq<(Seq<char>, Seq<char>)>> {
    match obj_get_view(v, "headers"@) {
        None => Some(Seq::empty()),
        Some(JsonView::Obj(entries)) => parse_headers_entries(entries),
        Some(_) => None,
    }
}

/// Header entries, each value a string.
pub open spec fn parse_headers_entries(entries: Seq<(Seq<char>, JsonView)>) -> Option<
    Seq<(Seq<char>, Seq<char>)>,
>
    decreases entries.len(),
{
    if entries.len() == 0 {
        Some(Seq::empty())
    } else {
        match parse_headers_entries(entries.drop_last()) {
            None => None,
            Some(front) => match entries.last().1 {
                JsonView::Str(s) => Some(front.push((entries.last().0, s))),
                _ => None,
            },
        }
    }
}

/// A rule entry of a bundle.
pub open spec fn parse_rule(v: JsonView) -> Option<RuleConfigView> {
    match obj_get_view(v, "name"@) {
        Some(JsonView::Str(name)) => match parse_points_field(v) {
            Some(points) => match field_opt_uint(v, "priority"@, u32::MAX as int) {
                Some(priority) => match parse_failure_mode_field(v) {
                    Some(failure_mode) => match field_opt_uint(v, "timeout_ms"@, i64::MAX as int) {
                        Some(timeout_ms) => match field_opt_str(v, "when_regex"@) {
                            Some(when_regex) => match field_opt_str(v, "reject_reason"@) {
                                Some(reject_reason) => match parse_replacements_field(v) {
                                    Some(replacements) => match field_opt_str(v, "prepend"@) {
                                        Some(prepend) => match field_opt_str(v, "append"@) {
                                            Some(append) => Some(
                                                RuleConfigView {
                                                    name,
                                                    points,
                                                    priority: match priority {
                                                        Some(p) => Some(p as u32),
                                                        None => None,
                                                    },
                                                    failure_mode,
                                                    timeout_ms,
                                                    when_regex,
                                                    reject_reason,
                                                    replacements,
                                                    prepend,
                                                    append,
                                                },
                                            ),
                                            None => None,
                                        },
                                        None => None,
                                    },
                                    None => None,
                                },
                                None => None,
                            },
                            None => None,
                        },
                        None => None,
                    },
                    None => None,
                },
                None => None,
            },
            None => None,
        },
        _ => None,
    }
}

/// A webhook entry of a bundle.
pub open spec fn parse_webhook(v: JsonView) -> Option<WebhookConfigView> {
    match obj_get_view(v, "name"@) {
        Some(JsonView::Str(name)) => match parse_points_field(v) {
            Some(points) => match obj_get_view(v, "url"@) {
                Some(JsonView::Str(url)) => match parse_headers_field(v) {
                    Some(headers) => match field_opt_uint(v, "timeout_ms"@, i64::MAX as int) {
                        Some(timeout_ms) => match field_opt_uint(v, "priority"@, u32::MAX as int) {
                            Some(priority) => Some(
                                WebhookConfigView {
                                    name,
                                    points,
                                    url,
                                    headers,
                                    timeout_ms,
                                    priority: match priority {
                                        Some(p) => Some(p as u32),
                                        None => None,
                                    },
                                },
                            ),
                            None => None,
                        },
                        None => None,
                    },
                    None => None,
                },
                _ => None,
            },
            None => None,
        },
        _ => None,
    }
}

/// A sequence of rule entries.
pub open spec fn parse_rules_seq(items: Seq<JsonView>) -> Option<Seq<RuleConfigView>>
    decreases items.len(),
{
    if items.len() == 0 {
        Some(Seq::empty())
    } else {
        match parse_rules_seq(items.drop_last()) {
            None => None,
            Some(front) => match parse_rule(items.last()) {
                Some(rule) => Some(front.push(rule)),
                None => None,
            },
        }
    }
}

/// A sequence of webhook entries.
pub open spec fn parse_webhooks_seq(items: Seq<JsonView>) -> Option<Seq<WebhookConfigView>>
    decreases items.len(),
{
    if items.len() == 0 {
        Some(Seq::empty())
    } else {
        match parse_webhooks_seq(items.drop_last()) {
            None => None,
            Some(front) => match parse_webhook(items.last()) {
                Some(w) => Some(front.push(w)),
                None => None,
            },
        }
    }
}

/// A whole bundle: an array of rules, or an object with optional `rules`
/// and `outbound_webhooks` lists.
pub open spec fn parse_bundle(v: JsonView) -> Option<BundleConfigView> {
    match v {
        JsonView::Arr(items) => match parse_rules_seq(items) {
            Some(rules) => Some(
                BundleConfigView { rules, outbound_webhooks: Seq::empty() },
            ),
            None => None,
        },
        JsonView::Obj(_) => {
            let rules_part = match obj_get_view(v, "rules"@) {
                None => Some(Seq::<RuleConfigView>::empty()),
                Some(JsonView::Arr(items)) => parse_rules_seq(items),
                Some(_) => None,
            };
            let hooks_part = match obj_get_view(v, "outbound_webhooks"@) {
                None => Some(Seq::<WebhookConfigView>::empty()),
                Some(JsonView::Arr(items)) => parse_webhooks_seq(items),
                Some(_) => None,
            };
            match (rules_part, hooks_part) {
                (Some(rules), Some(outbound_webhooks)) => Some(
                    BundleConfigView { rules, outbound_webhooks },
                ),
                _ => None,
            }
        },
        _ => None,
    }
}


// ==================== Executable parsing ====================

/// Propagation of a points parse failure from a prefix to the whole list.
proof fn lemma_points_none_prefix(items: Seq<JsonView>, k: int)
    requires
        0 <= k <= items.len(),
        parse_points_seq(items.take(k)) is None,
    ensures
        parse_points_seq(items) is None,
    decreases items.len() - k,
{
    if k < items.len() {
        assert(items.take(k + 1).drop_last() =~= items.take(k));
        lemma_points_none_prefix(items, k + 1);
    } else {
        assert(items.take(k) =~= items);
    }
}

/// Propagation of a replacements parse failure from a prefix to the whole
/// list.
proof fn lemma_replacements_none_prefix(items: Seq<JsonView>, k: int)
    requires
        0 <= k <= items.len(),
        parse_replacements_seq(items.take(k)) is None,
    ensures
        parse_replacements_seq(items) is None,
    decreases items.len() - k,
{
    if k < items.len() {
        assert(items.take(k + 1).drop_last() =~= items.take(k));
        lemma_replacements_none_prefix(items, k + 1);
    } else {
        assert(items.take(k) =~= items);
    }
}

/// Propagation of a headers parse failure from a prefix to the whole list.
proof fn lemma_headers_none_prefix(entries: Seq<(Seq<char>, JsonView)>, k: int)
    requires
        0 <= k <= entries.len(),
        parse_headers_entries(entries.take(k)) is None,
    ensures
        parse_headers_entries(entries) is None,
    decreases entries.len() - k,
{
    if k < entries.len() {
        assert(entries.take(k + 1).drop_last() =~= entries.take(k));
        lemma_headers_none_prefix(entries, k + 1);
    } else {
        assert(entries.take(k) =~= entries);
    }
}

/// Propagation of a rules parse failure from a prefix to the whole list.
proof fn lemma_rules_none_prefix(items: Seq<JsonView>, k: int)
    requires
        0 <= k <= items.len(),
        parse_rules_seq(items.take(k)) is None,
    ensures
        parse_rules_seq(items) is None,
    decreases items.len() - k,
{
    if k < items.len() {
        assert(items.take(k + 1).drop_last() =~= items.take(k));
        lemma_rules_none_prefix(items, k + 1);
    } else {
        assert(items.take(k) =~= items);
    }
}

/// Propagation of a webhooks parse failure from a prefix to the whole list.
proof fn lemma_webhooks_none_prefix(items: Seq<JsonView>, k: int)
    requires
        0 <= k <= items.len(),
        parse_webhooks_seq(items.take(k)) is None,
    ensures
        parse_webhooks_seq(items) is None,
    decreases items.len() - k,
{
    if k < items.len() {
        assert(items.take(k + 1).drop_last() =~= items.take(k));
        lemma_webhooks_none_prefix(items, k + 1);
    } else {
        assert(items.take(k) =~= items);
    }
}

/// Read an optional string field. `Err(())` on a type mismatch; `null`
/// counts as absent.
fn get_opt_str(v: &JsonValue, key: &str) -> (r: Result<Option<String>, ()>)
    ensures
        match r {
            Ok(o) => field_opt_str(v@, key@) == Some(opt_str_view(o)),
            Err(_) => field_opt_str(v@, key@) is None,
        },
{
    match v.get(key) {
        None => Ok(None),
        Some(field) => match field {
            JsonValue::Str(s) => Ok(Some(s.clone())),
            JsonValue::Null => Ok(None),
            _ => Err(()),
        },
    }
}

/// Read an optional unsigned integer field bounded by `max`. `Err(())` on a
/// type mismatch or a value out of range; `null` counts as absent.
fn get_opt_uint(v: &JsonValue, key: &str, max: u64) -> (r: Result<Option<u64>, ()>)
    ensures
        match r {
            Ok(o) => field_opt_uint(v@, key@, max as int) == Some(o),
            Err(_) => field_opt_uint(v@, key@, max as int) is None,
        },
{
    match v.get(key) {
        None => Ok(None),
        Some(field) => match field {
            JsonValue::Int(n) => {
                let n = *n;
                if 0 <= n && (n as u64) <= max {
                    Ok(Some(n as u64))
                } else {
                    Err(())
                }
            },
            JsonValue::Null => Ok(None),
            _ => Err(()),
        },
    }
}

/// Read the required `points` list of a hook entry.
fn get_points(v: &JsonValue) -> (r: Result<Vec<HookPoint>, ()>)
    ensures
        match r {
            Ok(ps) => parse_points_field(v@) == Some(ps@),
            Err(_) => parse_points_field(v@) is None,
        },
{
    let field = match v.get("points") {
        Some(f) => f,
        None => {
            return Err(());
        },
    };
    match field {
        JsonValue::Arr(items) => {
            let ghost iv = field@->Arr_0;
            proof {
                crate::json::lemma_views_seq_len(items@);
            }
            let mut acc: Vec<HookPoint> = Vec::new();
            let mut i: usize = 0;
            while i < items.len()
                invariant
                    i <= items@.len(),
                    *field == JsonValue::Arr(*items),
                    iv == field@->Arr_0,
                    iv.len() == items@.len(),
                    parse_points_field(v@) == parse_points_seq(iv),
                    parse_points_seq(iv.take(i as int)) == Some(acc@),
                decreases items@.len() - i,
            {
                proof {
                    crate::json::lemma_views_seq_index(items@, i as int);
                    assert(iv.take(i as int + 1).drop_last() =~= iv.take(i as int));
                    assert(iv.take(i as int + 1).last() == iv[i as int]);
                }
                let item = &items[i];
                let sref = match item {
                    JsonValue::Str(sv) => sv,
                    _ => {
                        proof {
                            lemma_points_none_prefix(iv, i as int + 1);
                        }
                        return Err(());
                    },
                };
                match HookPoint::parse(sref.as_str()) {
                    Some(p) => {
                        acc.push(p);
                    },
                    None => {
                        proof {
                            lemma_points_none_prefix(iv, i as int + 1);
                        }
                        return Err(());
                    },
                }
                i = i + 1;
            }
            proof {
                assert(iv.take(iv.len() as int) =~= iv);
            }
            Ok(acc)
        },
        _ => Err(()),
    }
}

/// Read the optional `failure_mode` field of a rule.
fn get_failure_mode(v: &JsonValue) -> (r: Result<Option<HookFailureMode>, ()>)
    ensures
        match r {
            Ok(o) => parse_failure_mode_field(v@) == Some(o),
            Err(_) => parse_failure_mode_field(v@) is None,
        },
{
    match v.get("failure_mode") {
        None => Ok(None),
        Some(field) => match field {
            JsonValue::Str(s) => {
                if crate::strutil::str_eq(s.as_str(), "fail_open") {
                    Ok(Some(HookFailureMode::FailOpen))
                } else if crate::strutil::str_eq(s.as_str(), "fail_closed") {
                    Ok(Some(HookFailureMode::FailClosed))
                } else {
                    Err(())
                }
            },
            JsonValue::Null => Ok(None),
            _ => Err(()),
        },
    }
}

/// Read the optional `replacements` list of a rule.
fn get_replacements(v: &JsonValue) -> (r: Result<Vec<RegexReplacementConfig>, ()>)
    ensures
        match r {
            Ok(reps) => parse_replacements_field(v@) == Some(
                Seq::new(reps@.len(), |j: int| (reps@[j].pattern@, reps@[j].replacement@)),
            ),
            Err(_) => parse_replacements_field(v@) is None,
        },
{
    let field = match v.get("replacements") {
        Some(f) => f,
        None => {
            proof {
                assert(parse_replacements_field(v@) == Some(Seq::<(Seq<char>, Seq<char>)>::empty()));
                assert(Seq::new(0, |j: int| (""@, ""@)) =~= Seq::<(Seq<char>, Seq<char>)>::empty());
            }
            let reps: Vec<RegexReplacementConfig> = Vec::new();
            proof {
                assert(Seq::new(reps@.len(), |j: int| (reps@[j].pattern@, reps@[j].replacement@))
                    =~= Seq::<(Seq<char>, Seq<char>)>::empty());
            }
            return Ok(reps);
        },
    };
    match field {
        JsonValue::Arr(items) => {
            let ghost iv = field@->Arr_0;
            proof {
                crate::json::lemma_views_seq_len(items@);
            }
            let mut acc: Vec<RegexReplacementConfig> = Vec::new();
            let mut i: usize = 0;
            while i < items.len()
                invariant
                    i <= items@.len(),
                    *field == JsonValue::Arr(*items),
                    iv == field@->Arr_0,
                    iv.len() == items@.len(),
                    acc@.len() == i,
                    parse_replacements_field(v@) == parse_replacements_seq(iv),
                    parse_replacements_seq(iv.take(i as int)) == Some(
                        Seq::new(acc@.len(), |j: int| (acc@[j].pattern@, acc@[j].replacement@)),
                    ),
                decreases items@.len() - i,
            {
                proof {
                    crate::json::lemma_views_seq_index(items@, i as int);
                    assert(iv.take(i as int + 1).drop_last() =~= iv.take(i as int));
                    assert(iv.take(i as int + 1).last() == iv[i as int]);
                }
                let item = &items[i];
                let pat = match item.get("pattern") {
                    Some(JsonValue::Str(pv)) => pv.clone(),
                    _ => {
                        proof {
                            lemma_replacements_none_prefix(iv, i as int + 1);
                        }
                        return Err(());
                    },
                };
                let rep = match item.get("replacement") {
                    Some(JsonValue::Str(rv)) => rv.clone(),
                    _ => {
                        proof {
                            lemma_replacements_none_prefix(iv, i as int + 1);
                        }
                        return Err(());
                    },
                };
                acc.push(RegexReplacementConfig { pattern: pat, replacement: rep });
                proof {
                    assert(Seq::new(acc@.len(), |j: int| (acc@[j].pattern@, acc@[j].replacement@))
                        =~= Seq::new(
                        (acc@.len() - 1) as nat,
                        |j: int| (acc@[j].pattern@, acc@[j].replacement@),
                    ).push((acc@[acc@.len() - 1].pattern@, acc@[acc@.len() - 1].replacement@)));
                    assert(Seq::new(
                        (acc@.len() - 1) as nat,
                        |j: int| (acc@[j].pattern@, acc@[j].replacement@),
                    ) =~= Seq::new(
                        (acc@.len() - 1) as nat,
                        |j: int| (acc@.take(acc@.len() - 1)[j].pattern@, acc@.take(
                            acc@.len() - 1,
                        )[j].replacement@),
                    ));
                }
                i = i + 1;
            }
            proof {
                assert(iv.take(iv.len() as int) =~= iv);
            }
            Ok(acc)
        },
        _ => Err(()),
    }
}

/// Read the optional `headers` object of a webhook entry.
fn get_headers(v: &JsonValue) -> (r: Result<Vec<(String, String)>, ()>)
    ensures
        match r {
            Ok(hs) => parse_headers_field(v@) == Some(hs.deep_view()),
            Err(_) => parse_headers_field(v@) is None,
        },
{
    let field = match v.get("headers") {
        Some(f) => f,
        None => {
            let hs: Vec<(String, String)> = Vec::new();
            proof {
                assert(hs.deep_view() =~= Seq::<(Seq<char>, Seq<char>)>::empty());
            }
            return Ok(hs);
        },
    };
    match field {
        JsonValue::Obj(entries) => {
            let ghost ev = field@->Obj_0;
            proof {
                crate::json::lemma_entry_views_seq_len(entries@);
            }
            let mut acc: Vec<(String, String)> = Vec::new();
            let mut i: usize = 0;
            while i < entries.len()
                invariant
                    i <= entries@.len(),
                    *field == JsonValue::Obj(*entries),
                    ev == field@->Obj_0,
                    ev.len() == entries@.len(),
                    acc@.len() == i,
                    parse_headers_field(v@) == parse_headers_entries(ev),
                    parse_headers_entries(ev.take(i as int)) == Some(acc.deep_view()),
                decreases entries@.len() - i,
            {
                proof {
                    crate::json::lemma_entry_views_seq_index(entries@, i as int);
                    assert(ev.take(i as int + 1).drop_last() =~= ev.take(i as int));
                    assert(ev.take(i as int + 1).last() == ev[i as int]);
                }
                let value = match &entries[i].1 {
                    JsonValue::Str(sv) => sv.clone(),
                    _ => {
                        proof {
                            lemma_headers_none_prefix(ev, i as int + 1);
                        }
                        return Err(());
                    },
                };
                acc.push((entries[i].0.clone(), value));
                proof {
                    assert(acc.deep_view() =~= acc.deep_view().take(acc@.len() - 1).push(
                        (acc@[acc@.len() - 1].0@, acc@[acc@.len() - 1].1@),
                    ));
                }
                i = i + 1;
            }
            proof {
                assert(ev.take(ev.len() as int) =~= ev);
            }
            Ok(acc)
        },
        _ => Err(()),
    }
}

/// Parse one rule entry.
fn rule_from_json(v: &JsonValue) -> (r: Result<HookRuleConfig, ()>)
    ensures
        match r {
            Ok(c) => parse_rule(v@) == Some(c@),
            Err(_) => parse_rule(v@) is None,
        },
{
    let name = match v.get("name") {
        Some(JsonValue::Str(s)) => s.clone(),
        _ => {
            return Err(());
        },
    };
    let points = match get_points(v) {
        Ok(ps) => ps,
        Err(_) => {
            return Err(());
        },
    };
    let priority64 = match get_opt_uint(v, "priority", 4294967295u64) {
        Ok(o) => o,
        Err(_) => {
            return Err(());
        },
    };
    let priority: Option<u32> = match priority64 {
        Some(p) => Some(p as u32),
        None => None,
    };
    let failure_mode = match get_failure_mode(v) {
        Ok(o) => o,
        Err(_) => {
            return Err(());
        },
    };
    let timeout_ms = match get_opt_uint(v, "timeout_ms", 9223372036854775807u64) {
        Ok(o) => o,
        Err(_) => {
            return Err(());
        },
    };
    let when_regex = match get_opt_str(v, "when_regex") {
        Ok(o) => o,
        Err(_) => {
            return Err(());
        },
    };
    let reject_reason = match get_opt_str(v, "reject_reason") {
        Ok(o) => o,
        Err(_) => {
            return Err(());
        },
    };
    let replacements = match get_replacements(v) {
        Ok(o) => o,
        Err(_) => {
            return Err(());
        },
    };
    let prepend = match get_opt_str(v, "prepend") {
        Ok(o) => o,
        Err(_) => {
            return Err(());
        },
    };
    let append = match get_opt_str(v, "append") {
        Ok(o) => o,
        Err(_) => {
            return Err(());
        },
    };
    let c = HookRuleConfig {
        name,
        points,
        priority,
        failure_mode,
        timeout_ms,
        when_regex,
        reject_reason,
        replacements,
        prepend,
        append,
    };
    proof {
        assert(c@.replacements =~= Seq::new(
            c.replacements@.len(),
            |i: int| (c.replacements@[i].pattern@, c.replacements@[i].replacement@),
        ));
    }
    Ok(c)
}

/// Parse one webhook entry.
fn webhook_from_json(v: &JsonValue) -> (r: Result<OutboundWebhookConfig, ()>)
    ensures
        match r {
            Ok(c) => parse_webhook(v@) == Some(c@),
            Err(_) => parse_webhook(v@) is None,
        },
{
    let name = match v.get("name") {
        Some(JsonValue::Str(s)) => s.clone(),
        _ => {
            return Err(());
        },
    };
    let points = match get_points(v) {
        Ok(ps) => ps,
        Err(_) => {
            return Err(());
        },
    };
    let url = match v.get("url") {
        Some(JsonValue::Str(s)) => s.clone(),
        _ => {
            return Err(());
        },
    };
    let headers = match get_headers(v) {
        Ok(o) => o,
        Err(_) => {
            return Err(());
        },
    };
    let timeout_ms = match get_opt_uint(v, "timeout_ms", 9223372036854775807u64) {
        Ok(o) => o,
        Err(_) => {
            return Err(());
        },
    };
    let priority64 = match get_opt_uint(v, "priority", 4294967295u64) {
        Ok(o) => o,
        Err(_) => {
            return Err(());
        },
    };
    let priority: Option<u32> = match priority64 {
        Some(p) => Some(p as u32),
        None => None,
    };
    Ok(OutboundWebhookConfig { name, points, url, headers, timeout_ms, priority })
}

impl HookBundleConfig {
    /// Parse a hook bundle from a structured value.
    ///
    /// Accepts either the object form, with `rules` and `outbound_webhooks`
    /// lists, or the array shorthand holding rules only.
    pub fn from_value(value: &JsonValue) -> (r: Result<HookBundleConfig, HookBundleError>)
        ensures
            match r {
                Ok(c) => parse_bundle(value@) == Some(c@),
                Err(e) => parse_bundle(value@) is None && e is InvalidFormat,
            },
    {
        match value {
            JsonValue::Arr(items) => {
                let ghost iv = value@->Arr_0;
                proof {
                    crate::json::lemma_views_seq_len(items@);
                }
                let mut rules: Vec<HookRuleConfig> = Vec::new();
                let mut i: usize = 0;
                while i < items.len()
                    invariant
                        i <= items@.len(),
                        *value == JsonValue::Arr(*items),
                        value@ == JsonView::Arr(iv),
                        iv == value@->Arr_0,
                        iv.len() == items@.len(),
                        rules@.len() == i,
                        parse_rules_seq(iv.take(i as int)) == Some(
                            Seq::new(rules@.len(), |j: int| rules@[j]@),
                        ),
                    decreases items@.len() - i,
                {
                    proof {
                        crate::json::lemma_views_seq_index(items@, i as int);
                        assert(iv.take(i as int + 1).drop_last() =~= iv.take(i as int));
                        assert(iv.take(i as int + 1).last() == iv[i as int]);
                    }
                    match rule_from_json(&items[i]) {
                        Ok(c) => {
                            rules.push(c);
                            proof {
                                assert(Seq::new(rules@.len(), |j: int| rules@[j]@) =~= Seq::new(
                                    (rules@.len() - 1) as nat,
                                    |j: int| rules@[j]@,
                                ).push(rules@[rules@.len() - 1]@));
                                assert(Seq::new((rules@.len() - 1) as nat, |j: int| rules@[j]@)
                                    =~= Seq::new(
                                    (rules@.len() - 1) as nat,
                                    |j: int| rules@.take(rules@.len() - 1)[j]@,
                                ));
                            }
                        },
                        Err(_) => {
                            proof {
                                lemma_rules_none_prefix(iv, i as int + 1);
                            }
                            return Err(
                                HookBundleError::InvalidFormat {
                                    reason: String::from_str("invalid rule entry"),
                                },
                            );
                        },
                    }
                    i = i + 1;
                }
                proof {
                    assert(iv.take(iv.len() as int) =~= iv);
                }
                let c = HookBundleConfig { rules, outbound_webhooks: Vec::new() };
                proof {
                    assert(c@.outbound_webhooks =~= Seq::<WebhookConfigView>::empty());
                    assert(c@.rules =~= Seq::new(c.rules@.len(), |j: int| c.rules@[j]@));
                }
                Ok(c)
            },
            JsonValue::Obj(_) => {
                let rules = match value.get("rules") {
                    None => {
                        let none_found: Vec<HookRuleConfig> = Vec::new();
                        proof {
                            assert(Seq::new(none_found@.len(), |j: int| none_found@[j]@)
                                =~= Seq::<RuleConfigView>::empty());
                        }
                        none_found
                    },
                    Some(field) => match field {
                        JsonValue::Arr(items) => {
                            let ghost iv = field@->Arr_0;
                            proof {
                                crate::json::lemma_views_seq_len(items@);
                            }
                            let mut rules: Vec<HookRuleConfig> = Vec::new();
                            let mut i: usize = 0;
                            while i < items.len()
                                invariant
                                    i <= items@.len(),
                                    *field == JsonValue::Arr(*items),
                                    iv == field@->Arr_0,
                                    iv.len() == items@.len(),
                                    rules@.len() == i,
                                    value@ is Obj,
                                    obj_get_view(value@, "rules"@) == Some(JsonView::Arr(iv)),
                                    parse_rules_seq(iv.take(i as int)) == Some(
                                        Seq::new(rules@.len(), |j: int| rules@[j]@),
                                    ),
                                decreases items@.len() - i,
                            {
                                proof {
                                    crate::json::lemma_views_seq_index(items@, i as int);
                                    assert(iv.take(i as int + 1).drop_last() =~= iv.take(i as int));
                                    assert(iv.take(i as int + 1).last() == iv[i as int]);
                                }
                                match rule_from_json(&items[i]) {
                                    Ok(c) => {
                                        rules.push(c);
                                        proof {
                                            assert(Seq::new(rules@.len(), |j: int| rules@[j]@)
                                                =~= Seq::new(
                                                (rules@.len() - 1) as nat,
                                                |j: int| rules@[j]@,
                                            ).push(rules@[rules@.len() - 1]@));
                                            assert(Seq::new(
                                                (rules@.len() - 1) as nat,
                                                |j: int| rules@[j]@,
                                            ) =~= Seq::new(
                                                (rules@.len() - 1) as nat,
                                                |j: int| rules@.take(rules@.len() - 1)[j]@,
                                            ));
                                        }
                                    },
                                    Err(_) => {
                                        proof {
                                            lemma_rules_none_prefix(iv, i as int + 1);
                                        }
                                        return Err(
                                            HookBundleError::InvalidFormat {
                                                reason: String::from_str("invalid rule entry"),
                                            },
                                        );
                                    },
                                }
                                i = i + 1;
                            }
                            proof {
                                assert(iv.take(iv.len() as int) =~= iv);
                            }
                            rules
                        },
                        _ => {
                            return Err(
                                HookBundleError::InvalidFormat {
                                    reason: String::from_str("rules must be a list"),
                                },
                            );
                        },
                    },
                };
                let webhooks = match value.get("outbound_webhooks") {
                    None => {
                        let none_found: Vec<OutboundWebhookConfig> = Vec::new();
                        proof {
                            assert(Seq::new(none_found@.len(), |j: int| none_found@[j]@)
                                =~= Seq::<WebhookConfigView>::empty());
                        }
                        none_found
                    },
                    Some(field) => match field {
                        JsonValue::Arr(items) => {
                            let ghost iv = field@->Arr_0;
                            proof {
                                crate::json::lemma_views_seq_len(items@);
                            }
                            let mut hooks: Vec<OutboundWebhookConfig> = Vec::new();
                            let mut i: usize = 0;
                            while i < items.len()
                                invariant
                                    i <= items@.len(),
                                    *field == JsonValue::Arr(*items),
                                    iv == field@->Arr_0,
                                    iv.len() == items@.len(),
                                    hooks@.len() == i,
                                    value@ is Obj,
                                    obj_get_view(value@, "outbound_webhooks"@) == Some(
                                        JsonView::Arr(iv),
                                    ),
                                    parse_webhooks_seq(iv.take(i as int)) == Some(
                                        Seq::new(hooks@.len(), |j: int| hooks@[j]@),
                                    ),
                                decreases items@.len() - i,
                            {
                                proof {
                                    crate::json::lemma_views_seq_index(items@, i as int);
                                    assert(iv.take(i as int + 1).drop_last() =~= iv.take(i as int));
                                    assert(iv.take(i as int + 1).last() == iv[i as int]);
                                }
                                match webhook_from_json(&items[i]) {
                                    Ok(c) => {
                                        hooks.push(c);
                                        proof {
                                            assert(Seq::new(hooks@.len(), |j: int| hooks@[j]@)
                                                =~= Seq::new(
                                                (hooks@.len() - 1) as nat,
                                                |j: int| hooks@[j]@,
                                            ).push(hooks@[hooks@.len() - 1]@));
                                            assert(Seq::new(
                                                (hooks@.len() - 1) as nat,
                                                |j: int| hooks@[j]@,
                                            ) =~= Seq::new(
                                                (hooks@.len() - 1) as nat,
                                                |j: int| hooks@.take(hooks@.len() - 1)[j]@,
                                            ));
                                        }
                                    },
                                    Err(_) => {
                                        proof {
                                            lemma_webhooks_none_prefix(iv, i as int + 1);
                                        }
                                        return Err(
                                            HookBundleError::InvalidFormat {
                                                reason: String::from_str("invalid webhook entry"),
                                            },
                                        );
                                    },
                                }
                                i = i + 1;
                            }
                            proof {
                                assert(iv.take(iv.len() as int) =~= iv);
                            }
                            hooks
                        },
                        _ => {
                            return Err(
                                HookBundleError::InvalidFormat {
                                    reason: String::from_str("outbound_webhooks must be a list"),
                                },
                            );
                        },
                    },
                };
                let c = HookBundleConfig { rules, outbound_webhooks: webhooks };
                proof {
                    assert(c@.rules =~= Seq::new(c.rules@.len(), |j: int| c.rules@[j]@));
                    assert(c@.outbound_webhooks =~= Seq::new(
                        c.outbound_webhooks@.len(),
                        |j: int| c.outbound_webhooks@[j]@,
                    ));
                }
                Ok(c)
            },
            _ => Err(
                HookBundleError::InvalidFormat {
                    reason: String::from_str("bundle must be an object or a list"),
                },
            ),
        }
    }
}


// ==================== Compilation ====================

/// Whether an optional timeout override is acceptable: when present, it must
/// be positive and at most the maximum.
pub open spec fn spec_timeout_ok(o: Option<u64>) -> bool {
    match o {
        Some(ms) => 1 <= ms <= MAX_HOOK_TIMEOUT_MS,
        None => true,
    }
}

/// The effective timeout for an optional override and a default.
pub open spec fn spec_timeout_value(o: Option<u64>, default: u64) -> u64 {
    match o {
        Some(ms) => ms,
        None => default,
    }
}

/// The registry name of a bundled hook: the bundle source, two colons, and
/// the hook's own name.
pub open spec fn scoped_name(source: Seq<char>, name: Seq<char>) -> Seq<char> {
    source.add("::"@).add(name)
}

/// Whether every pattern of a rule compiles.
pub open spec fn rule_regexes_valid(rv: RuleConfigView) -> bool {
    &&& (rv.when_regex matches Some(p) ==> regex_valid(p))
    &&& forall|i: int| 0 <= i < rv.replacements.len() ==> regex_valid(#[trigger] rv.replacements[i].0)
}

/// Whether a rule configuration compiles into a hook.
pub open spec fn rule_compiles(rv: RuleConfigView) -> bool {
    &&& rv.points.len() > 0
    &&& spec_timeout_ok(rv.timeout_ms)
    &&& rule_regexes_valid(rv)
}

/// Whether a webhook configuration compiles into a hook.
pub open spec fn webhook_compiles(wv: WebhookConfigView) -> bool {
    &&& wv.points.len() > 0
    &&& url_valid(wv.url)
    &&& spec_timeout_ok(wv.timeout_ms)
}

/// Whether a compiled rule behaviour carries the configured fields.
pub open spec fn compiled_rule_matches(rule: RuleHook, rv: RuleConfigView) -> bool {
    &&& opt_str_view(rule.when_regex) == rv.when_regex
    &&& opt_str_view(rule.reject_reason) == rv.reject_reason
    &&& rule.replacements.deep_view() == rv.replacements
    &&& opt_str_view(rule.prepend) == rv.prepend
    &&& opt_str_view(rule.append) == rv.append
}

/// Validate an optional timeout override in milliseconds: zero and values
/// above the maximum are refused; absence gives the five-second default.
pub fn timeout_from_ms(timeout_ms: Option<u64>, hook_name: &str) -> (r: Result<
    u64,
    HookBundleError,
>)
    ensures
        match r {
            Ok(ms) => spec_timeout_ok(timeout_ms) && ms == spec_timeout_value(
                timeout_ms,
                DEFAULT_HOOK_TIMEOUT_MS,
            ),
            Err(e) => !spec_timeout_ok(timeout_ms) && (e
                matches HookBundleError::InvalidTimeout { hook, max_ms } && hook@ == hook_name@
                && max_ms == MAX_HOOK_TIMEOUT_MS),
        },
{
    match timeout_ms {
        Some(ms) => {
            if ms == 0 || ms > MAX_HOOK_TIMEOUT_MS {
                Err(
                    HookBundleError::InvalidTimeout {
                        hook: hook_name.to_owned(),
                        max_ms: MAX_HOOK_TIMEOUT_MS,
                    },
                )
            } else {
                Ok(ms)
            }
        },
        None => Ok(DEFAULT_HOOK_TIMEOUT_MS),
    }
}

/// Build the scoped registry name of a bundled hook.
fn make_scoped_name(source: &str, name: &str) -> (r: String)
    ensures
        r@ == scoped_name(source@, name@),
{
    let mut scoped = source.to_owned();
    scoped.append("::");
    scoped.append(name);
    scoped
}

/// Copy a list of hook points.
fn copy_points(points: &Vec<HookPoint>) -> (r: Vec<HookPoint>)
    ensures
        r@ == points@,
{
    let mut r: Vec<HookPoint> = Vec::new();
    let mut i: usize = 0;
    while i < points.len()
        invariant
            i <= points@.len(),
            r@ =~= points@.take(i as int),
        decreases points@.len() - i,
    {
        r.push(points[i]);
        proof {
            assert(r@ =~= points@.take(i as int + 1));
        }
        i = i + 1;
    }
    proof {
        assert(points@.take(points@.len() as int) =~= points@);
    }
    r
}

impl RuleHook {
    /// Compile a declarative rule into a registered hook and its priority.
    ///
    /// The rule must name at least one hook point, carry an acceptable
    /// timeout, and every pattern must compile; the first failing check
    /// names the error.
    pub fn from_config(source: &str, config: &HookRuleConfig) -> (r: Result<
        (RegisteredHook, u32),
        HookBundleError,
    >)
        ensures
            match r {
                Ok((h, pri)) => {
                    &&& rule_compiles(config@)
                    &&& h.wf()
                    &&& h.name@ == scoped_name(source@, config@.name)
                    &&& h.points@ == config@.points
                    &&& pri == (match config@.priority {
                        Some(p) => p,
                        None => DEFAULT_RULE_PRIORITY,
                    })
                    &&& h.priority == pri
                    &&& h.failure_mode == (match config@.failure_mode {
                        Some(m) => m,
                        None => HookFailureMode::FailOpen,
                    })
                    &&& h.timeout_ms == spec_timeout_value(
                        config@.timeout_ms,
                        DEFAULT_HOOK_TIMEOUT_MS,
                    )
                    &&& h.behavior matches HookBehavior::Rule(rule) && compiled_rule_matches(
                        rule,
                        config@,
                    )
                },
                Err(e) => {
                    &&& !rule_compiles(config@)
                    &&& match e {
                        HookBundleError::MissingHookPoints { hook } => config@.points.len() == 0
                            && hook@ == scoped_name(source@, config@.name),
                        HookBundleError::InvalidTimeout { hook, max_ms } => config@.points.len()
                            > 0 && !spec_timeout_ok(config@.timeout_ms) && hook@ == scoped_name(
                            source@,
                            config@.name,
                        ) && max_ms == MAX_HOOK_TIMEOUT_MS,
                        HookBundleError::InvalidRegex { hook, pattern } => config@.points.len() > 0
                            && spec_timeout_ok(config@.timeout_ms) && hook@ == scoped_name(
                            source@,
                            config@.name,
                        ) && !regex_valid(pattern@) && ((config@.when_regex matches Some(p)
                            && pattern@ == p) || (exists|i: int|
                            0 <= i < config@.replacements.len()
                                && #[trigger] config@.replacements[i].0 == pattern@)),
                        _ => false,
                    }
                },
            },
    {
        let scoped = make_scoped_name(source, config.name.as_str());

        if config.points.len() == 0 {
            return Err(HookBundleError::MissingHookPoints { hook: scoped });
        }

        let timeout_ms = match timeout_from_ms(config.timeout_ms, scoped.as_str()) {
            Ok(ms) => ms,
            Err(e) => {
                return Err(e);
            },
        };

        if let Some(guard) = &config.when_regex {
            if !regex_check(guard.as_str()) {
                return Err(
                    HookBundleError::InvalidRegex { hook: scoped, pattern: guard.clone() },
                );
            }
        }

        let mut replacements: Vec<(String, String)> = Vec::new();
        let mut i: usize = 0;
        while i < config.replacements.len()
            invariant
                i <= config.replacements@.len(),
                replacements@.len() == i,
                scoped@ == scoped_name(source@, config@.name),
                config@.points.len() > 0,
                spec_timeout_ok(config@.timeout_ms),
                config@.when_regex matches Some(p) ==> regex_valid(p),
                forall|j: int|
                    0 <= j < i ==> #[trigger] replacements@[j].0@ == config@.replacements[j].0
                        && replacements@[j].1@ == config@.replacements[j].1,
                forall|j: int| 0 <= j < i ==> regex_valid(#[trigger] config@.replacements[j].0),
                config@.replacements.len() == config.replacements@.len(),
            decreases config.replacements@.len() - i,
        {
            if !regex_check(config.replacements[i].pattern.as_str()) {
                proof {
                    assert(config@.replacements[i as int].0 == config.replacements@[
                        i as int
                    ].pattern@);
                }
                return Err(
                    HookBundleError::InvalidRegex {
                        hook: scoped,
                        pattern: config.replacements[i].pattern.clone(),
                    },
                );
            }
            replacements.push(
                (config.replacements[i].pattern.clone(), config.replacements[i].replacement.clone()),
            );
            i = i + 1;
        }

        let rule = RuleHook {
            when_regex: match &config.when_regex {
                Some(g) => Some(g.clone()),
                None => None,
            },
            reject_reason: match &config.reject_reason {
                Some(rr) => Some(rr.clone()),
                None => None,
            },
            replacements,
            prepend: match &config.prepend {
                Some(pp) => Some(pp.clone()),
                None => None,
            },
            append: match &config.append {
                Some(aa) => Some(aa.clone()),
                None => None,
            },
        };
        proof {
            assert(rule.replacements.deep_view() =~= config@.replacements);
        }
        let priority = match config.priority {
            Some(p) => p,
            None => DEFAULT_RULE_PRIORITY,
        };
        let hook = RegisteredHook {
            name: scoped,
            points: copy_points(&config.points),
            priority,
            failure_mode: match config.failure_mode {
                Some(m) => m,
                None => HookFailureMode::FailOpen,
            },
            timeout_ms,
            behavior: HookBehavior::Rule(rule),
        };
        Ok((hook, priority))
    }
}

impl WebhookHook {
    /// Compile a declarative outbound webhook into a registered hook and its
    /// priority.
    ///
    /// The webhook must name at least one hook point and a valid absolute
    /// URL, and carry an acceptable timeout; the first failing check names
    /// the error. A webhook without a timeout override gets the two-second
    /// default.
    pub fn from_config(source: &str, config: &OutboundWebhookConfig) -> (r: Result<
        (RegisteredHook, u32),
        HookBundleError,
    >)
        ensures
            match r {
                Ok((h, pri)) => {
                    &&& webhook_compiles(config@)
                    &&& h.wf()
                    &&& h.name@ == scoped_name(source@, config@.name)
                    &&& h.points@ == config@.points
                    &&& pri == (match config@.priority {
                        Some(p) => p,
                        None => DEFAULT_WEBHOOK_PRIORITY,
                    })
                    &&& h.priority == pri
                    &&& h.failure_mode == HookFailureMode::FailOpen
                    &&& h.timeout_ms == spec_timeout_value(
                        config@.timeout_ms,
                        DEFAULT_WEBHOOK_TIMEOUT_MS,
                    )
                    &&& h.behavior matches HookBehavior::Webhook(w) && w.url@ == config@.url
                        && w.headers.deep_view() == config@.headers
                },
                Err(e) => {
                    &&& !webhook_compiles(config@)
                    &&& match e {
                        HookBundleError::MissingHookPoints { hook } => config@.points.len() == 0
                            && hook@ == scoped_name(source@, config@.name),
                        HookBundleError::InvalidWebhookUrl { hook, url } => config@.points.len()
                            > 0 && !url_valid(config@.url) && hook@ == scoped_name(
                            source@,
                            config@.name,
                        ) && url@ == config@.url,
                        HookBundleError::InvalidTimeout { hook, max_ms } => config@.points.len()
                            > 0 && url_valid(config@.url) && !spec_timeout_ok(config@.timeout_ms)
                            && hook@ == scoped_name(source@, config@.name) && max_ms
                            == MAX_HOOK_TIMEOUT_MS,
                        _ => false,
                    }
                },
            },
    {
        let scoped = make_scoped_name(source, config.name.as_str());

        if config.points.len() == 0 {
            return Err(HookBundleError::MissingHookPoints { hook: scoped });
        }

        if !url_is_valid(config.url.as_str()) {
            return Err(
                HookBundleError::InvalidWebhookUrl { hook: scoped, url: config.url.clone() },
            );
        }

        let timeout_ms = match config.timeout_ms {
            Some(ms) => {
                match timeout_from_ms(Some(ms), scoped.as_str()) {
                    Ok(t) => t,
                    Err(e) => {
                        return Err(e);
                    },
                }
            },
            None => DEFAULT_WEBHOOK_TIMEOUT_MS,
        };

        let mut headers: Vec<(String, String)> = Vec::new();
        let mut i: usize = 0;
        while i < config.headers.len()
            invariant
                i <= config.headers@.len(),
                headers@.len() == i,
                forall|j: int| 0 <= j < i ==> headers@[j] == config.headers@[j],
            decreases config.headers@.len() - i,
        {
            headers.push((config.headers[i].0.clone(), config.headers[i].1.clone()));
            i = i + 1;
        }
        proof {
            assert(headers@ =~= config.headers@);
            assert(headers.deep_view() =~= config.headers.deep_view());
        }

        let priority = match config.priority {
            Some(p) => p,
            None => DEFAULT_WEBHOOK_PRIORITY,
        };
        let hook = RegisteredHook {
            name: scoped,
            points: copy_points(&config.points),
            priority,
            failure_mode: HookFailureMode::FailOpen,
            timeout_ms,
            behavior: HookBehavior::Webhook(WebhookHook { url: config.url.clone(), headers }),
        };
        Ok((hook, priority))
    }
}

// ==================== Registration ====================

/// Summary of hook registrations performed from a bundle.
#[derive(Debug, Clone, Copy)]
pub struct HookRegistrationSummary {
    /// Number of rule and audit hook registrations.
    pub hooks: usize,
    /// Number of outbound webhook hook registrations.
    pub outbound_webhooks: usize,
    /// Number of invalid entries skipped.
    pub errors: usize,
}

impl Default for HookRegistrationSummary {
    fn default() -> (r: Self)
        ensures
            r.hooks == 0 && r.outbound_webhooks == 0 && r.errors == 0,
    {
        HookRegistrationSummary { hooks: 0, outbound_webhooks: 0, errors: 0 }
    }
}

impl HookRegistrationSummary {
    /// Total number of hooks successfully registered.
    pub fn total_registered(&self) -> (r: usize)
        requires
            self.hooks + self.outbound_webhooks <= usize::MAX,
        ensures
            r == self.hooks + self.outbound_webhooks,
    {
        self.hooks + self.outbound_webhooks
    }

    /// Add another summary's counts into this one.
    pub fn merge(&mut self, other: HookRegistrationSummary)
        requires
            old(self).hooks + other.hooks <= usize::MAX,
            old(self).outbound_webhooks + other.outbound_webhooks <= usize::MAX,
            old(self).errors + other.errors <= usize::MAX,
        ensures
            final(self).hooks == old(self).hooks + other.hooks,
            final(self).outbound_webhooks == old(self).outbound_webhooks
                + other.outbound_webhooks,
            final(self).errors == old(self).errors + other.errors,
    {
        self.hooks = self.hooks + other.hooks;
        self.outbound_webhooks = self.outbound_webhooks + other.outbound_webhooks;
        self.errors = self.errors + other.errors;
    }
}

/// The number of rules in a bundle prefix that compile.
pub open spec fn count_compiling_rules(rules: Seq<RuleConfigView>) -> int
    decreases rules.len(),
{
    if rules.len() == 0 {
        0
    } else {
        count_compiling_rules(rules.drop_last()) + if rule_compiles(rules.last()) {
            1int
        } else {
            0int
        }
    }
}

/// The number of webhooks in a bundle prefix that compile.
pub open spec fn count_compiling_webhooks(ws: Seq<WebhookConfigView>) -> int
    decreases ws.len(),
{
    if ws.len() == 0 {
        0
    } else {
        count_compiling_webhooks(ws.drop_last()) + if webhook_compiles(ws.last()) {
            1int
        } else {
            0int
        }
    }
}

/// The count of compiling rules never exceeds the number of rules.
proof fn lemma_count_rules_bound(rules: Seq<RuleConfigView>)
    ensures
        0 <= count_compiling_rules(rules) <= rules.len(),
    decreases rules.len(),
{
    if rules.len() > 0 {
        lemma_count_rules_bound(rules.drop_last());
    }
}

/// The count of compiling webhooks never exceeds the number of webhooks.
proof fn lemma_count_webhooks_bound(ws: Seq<WebhookConfigView>)
    ensures
        0 <= count_compiling_webhooks(ws) <= ws.len(),
    decreases ws.len(),
{
    if ws.len() > 0 {
        lemma_count_webhooks_bound(ws.drop_last());
    }
}

/// Whether a registered hook is the compilation of a rule config from a
/// source: the scoped name, the configured points, the configured or
/// default priority, failure mode and timeout, and the rule behaviour.
pub open spec fn rule_hook_of(h: RegisteredHook, source: Seq<char>, rv: RuleConfigView) -> bool {
    &&& h.name@ == scoped_name(source, rv.name)
    &&& h.points@ == rv.points
    &&& h.priority == (match rv.priority {
        Some(p) => p,
        None => DEFAULT_RULE_PRIORITY,
    })
    &&& h.failure_mode == (match rv.failure_mode {
        Some(m) => m,
        None => HookFailureMode::FailOpen,
    })
    &&& h.timeout_ms == spec_timeout_value(rv.timeout_ms, DEFAULT_HOOK_TIMEOUT_MS)
    &&& h.behavior matches HookBehavior::Rule(rule) && compiled_rule_matches(rule, rv)
}

/// Whether a registered hook is the compilation of a webhook config from a
/// source.
pub open spec fn webhook_hook_of(
    h: RegisteredHook,
    source: Seq<char>,
    wv: WebhookConfigView,
) -> bool {
    &&& h.name@ == scoped_name(source, wv.name)
    &&& h.points@ == wv.points
    &&& h.priority == (match wv.priority {
        Some(p) => p,
        None => DEFAULT_WEBHOOK_PRIORITY,
    })
    &&& h.failure_mode == HookFailureMode::FailOpen
    &&& h.timeout_ms == spec_timeout_value(wv.timeout_ms, DEFAULT_WEBHOOK_TIMEOUT_MS)
    &&& h.behavior matches HookBehavior::Webhook(w) && w.url@ == wv.url && w.headers.deep_view()
        == wv.headers
}

/// `stable_insert_pos` always lands inside the sequence.
proof fn lemma_stable_pos_bounds(s: Seq<RegisteredHook>, p: u32)
    ensures
        0 <= crate::hooks::stable_insert_pos(s, p) <= s.len(),
    decreases s.len(),
{
    if s.len() > 0 && s[0].priority <= p {
        lemma_stable_pos_bounds(s.skip(1), p);
    }
}

/// What inserting holds: the extended sequence holds exactly the old
/// members and the new one.
proof fn lemma_insert_contains(s: Seq<RegisteredHook>, pos: int, x: RegisteredHook)
    requires
        0 <= pos <= s.len(),
    ensures
        forall|y: RegisteredHook|
            #[trigger] s.insert(pos, x).contains(y) <==> (s.contains(y) || y == x),
{
    assert forall|y: RegisteredHook|
        #[trigger] s.insert(pos, x).contains(y) <==> (s.contains(y) || y == x) by {
        let t = s.insert(pos, x);
        if t.contains(y) {
            let w = choose|w: int| 0 <= w < t.len() && t[w] == y;
            if w < pos {
                assert(s[w] == y);
            } else if w == pos {
            } else {
                assert(s[w - 1] == y);
            }
        }
        if s.contains(y) {
            let w = choose|w: int| 0 <= w < s.len() && s[w] == y;
            if w < pos {
                assert(t[w] == y);
            } else {
                assert(t[w + 1] == y);
            }
        }
        if y == x {
            assert(t[pos] == y);
        }
    }
}

/// Register all hooks from a declarative bundle. Entries that do not
/// compile are skipped and counted as errors; the load proceeds.
pub fn register_bundle(
    registry: &mut HookRegistry,
    source: &str,
    bundle: &HookBundleConfig,
) -> (summary: HookRegistrationSummary)
    requires
        old(registry).wf(),
        old(registry)@.len() + bundle.rules@.len() + bundle.outbound_webhooks@.len()
            <= usize::MAX,
    ensures
        final(registry).wf(),
        summary.hooks == count_compiling_rules(bundle@.rules),
        summary.outbound_webhooks == count_compiling_webhooks(bundle@.outbound_webhooks),
        summary.errors == bundle@.rules.len() + bundle@.outbound_webhooks.len() - summary.hooks
            - summary.outbound_webhooks,
        final(registry)@.len() == old(registry)@.len() + summary.hooks
            + summary.outbound_webhooks,
        forall|h: RegisteredHook|
            #[trigger] final(registry)@.contains(h) ==> old(registry)@.contains(h) || (exists|
                i: int,
            |
                0 <= i < bundle@.rules.len() && rule_compiles(#[trigger] bundle@.rules[i])
                    && rule_hook_of(h, source@, bundle@.rules[i])) || (exists|i: int|
                0 <= i < bundle@.outbound_webhooks.len() && webhook_compiles(
                    #[trigger] bundle@.outbound_webhooks[i],
                ) && webhook_hook_of(h, source@, bundle@.outbound_webhooks[i])),
        forall|i: int|
            0 <= i < bundle@.rules.len() && rule_compiles(#[trigger] bundle@.rules[i]) ==> exists|
                h: RegisteredHook,
            |
                #[trigger] final(registry)@.contains(h) && rule_hook_of(
                    h,
                    source@,
                    bundle@.rules[i],
                ),
        forall|i: int|
            0 <= i < bundle@.outbound_webhooks.len() && webhook_compiles(
                #[trigger] bundle@.outbound_webhooks[i],
            ) ==> exists|h: RegisteredHook|
                #[trigger] final(registry)@.contains(h) && webhook_hook_of(
                    h,
                    source@,
                    bundle@.outbound_webhooks[i],
                ),
{
    let mut summary = HookRegistrationSummary { hooks: 0, outbound_webhooks: 0, errors: 0 };
    let ghost rules_v = bundle@.rules;
    let ghost hooks_v = bundle@.outbound_webhooks;
    proof {
        lemma_count_rules_bound(rules_v);
        lemma_count_webhooks_bound(hooks_v);
    }

    let mut i: usize = 0;
    while i < bundle.rules.len()
        invariant
            i <= bundle.rules@.len(),
            registry.wf(),
            rules_v == bundle@.rules,
            rules_v.len() == bundle.rules@.len(),
            summary.hooks == count_compiling_rules(rules_v.take(i as int)),
            summary.outbound_webhooks == 0,
            summary.errors == i - summary.hooks,
            registry@.len() == old(registry)@.len() + summary.hooks,
            forall|h: RegisteredHook|
                #[trigger] registry@.contains(h) ==> old(registry)@.contains(h) || (exists|
                    i2: int,
                |
                    0 <= i2 < i && rule_compiles(#[trigger] rules_v[i2]) && rule_hook_of(
                        h,
                        source@,
                        rules_v[i2],
                    )),
            forall|i2: int|
                0 <= i2 < i && rule_compiles(#[trigger] rules_v[i2]) ==> exists|
                    h: RegisteredHook,
                |
                    #[trigger] registry@.contains(h) && rule_hook_of(h, source@, rules_v[i2]),
            old(registry)@.len() + bundle.rules@.len() + bundle.outbound_webhooks@.len()
                <= usize::MAX,
            bundle.outbound_webhooks@.len() == hooks_v.len(),
        decreases bundle.rules@.len() - i,
    {
        proof {
            assert(rules_v.take(i as int + 1).drop_last() =~= rules_v.take(i as int));
            assert(rules_v.take(i as int + 1).last() == rules_v[i as int]);
            assert(rules_v[i as int] == bundle.rules@[i as int]@);
            lemma_count_rules_bound(rules_v.take(i as int));
        }
        match RuleHook::from_config(source, &bundle.rules[i]) {
            Ok((hook, priority)) => {
                let ghost pre = registry@;
                let ghost entry = RegisteredHook { priority, ..hook };
                registry.register_with_priority(hook, priority);
                proof {
                    assert(registry@.len() == pre.len() + 1);
                    lemma_stable_pos_bounds(pre, priority);
                    lemma_insert_contains(
                        pre,
                        crate::hooks::stable_insert_pos(pre, priority),
                        entry,
                    );
                    assert(rule_hook_of(entry, source@, rules_v[i as int]));
                    assert(registry@.contains(entry));
                    assert forall|i2: int|
                        0 <= i2 < i + 1 && rule_compiles(#[trigger] rules_v[i2]) implies exists|
                        h: RegisteredHook,
                    |
                        #[trigger] registry@.contains(h) && rule_hook_of(
                            h,
                            source@,
                            rules_v[i2],
                        ) by {
                        if i2 == i as int {
                            assert(registry@.contains(entry) && rule_hook_of(
                                entry,
                                source@,
                                rules_v[i2],
                            ));
                        } else {
                            let h = choose|h: RegisteredHook|
                                pre.contains(h) && rule_hook_of(h, source@, rules_v[i2]);
                            assert(registry@.contains(h) && rule_hook_of(h, source@, rules_v[i2]));
                        }
                    }
                }
                summary.hooks = summary.hooks + 1;
            },
            Err(_) => {
                summary.errors = summary.errors + 1;
            },
        }
        i = i + 1;
    }
    proof {
        assert(rules_v.take(rules_v.len() as int) =~= rules_v);
    }

    let mut k: usize = 0;
    while k < bundle.outbound_webhooks.len()
        invariant
            k <= bundle.outbound_webhooks@.len(),
            registry.wf(),
            hooks_v == bundle@.outbound_webhooks,
            hooks_v.len() == bundle.outbound_webhooks@.len(),
            summary.hooks == count_compiling_rules(bundle@.rules),
            summary.hooks <= bundle@.rules.len(),
            summary.outbound_webhooks == count_compiling_webhooks(hooks_v.take(k as int)),
            summary.errors == bundle@.rules.len() - summary.hooks + k
                - summary.outbound_webhooks,
            registry@.len() == old(registry)@.len() + summary.hooks
                + summary.outbound_webhooks,
            rules_v == bundle@.rules,
            forall|h: RegisteredHook|
                #[trigger] registry@.contains(h) ==> old(registry)@.contains(h) || (exists|
                    i2: int,
                |
                    0 <= i2 < rules_v.len() && rule_compiles(#[trigger] rules_v[i2])
                        && rule_hook_of(h, source@, rules_v[i2])) || (exists|i2: int|
                    0 <= i2 < k && webhook_compiles(#[trigger] hooks_v[i2]) && webhook_hook_of(
                        h,
                        source@,
                        hooks_v[i2],
                    )),
            forall|i2: int|
                0 <= i2 < rules_v.len() && rule_compiles(#[trigger] rules_v[i2]) ==> exists|
                    h: RegisteredHook,
                |
                    #[trigger] registry@.contains(h) && rule_hook_of(h, source@, rules_v[i2]),
            forall|i2: int|
                0 <= i2 < k && webhook_compiles(#[trigger] hooks_v[i2]) ==> exists|
                    h: RegisteredHook,
                |
                    #[trigger] registry@.contains(h) && webhook_hook_of(h, source@, hooks_v[i2]),
            old(registry)@.len() + bundle@.rules.len() + bundle.outbound_webhooks@.len()
                <= usize::MAX,
        decreases bundle.outbound_webhooks@.len() - k,
    {
        proof {
            assert(hooks_v.take(k as int + 1).drop_last() =~= hooks_v.take(k as int));
            assert(hooks_v.take(k as int + 1).last() == hooks_v[k as int]);
            assert(hooks_v[k as int] == bundle.outbound_webhooks@[k as int]@);
            lemma_count_webhooks_bound(hooks_v.take(k as int));
        }
        match WebhookHook::from_config(source, &bundle.outbound_webhooks[k]) {
            Ok((hook, priority)) => {
                let ghost pre = registry@;
                let ghost entry = RegisteredHook { priority, ..hook };
                registry.register_with_priority(hook, priority);
                proof {
                    assert(registry@.len() == pre.len() + 1);
                    lemma_stable_pos_bounds(pre, priority);
                    lemma_insert_contains(
                        pre,
                        crate::hooks::stable_insert_pos(pre, priority),
                        entry,
                    );
                    assert(webhook_hook_of(entry, source@, hooks_v[k as int]));
                    assert(registry@.contains(entry));
                    assert forall|i2: int|
                        0 <= i2 < rules_v.len() && rule_compiles(
                            #[trigger] rules_v[i2],
                        ) implies exists|h: RegisteredHook|
                        #[trigger] registry@.contains(h) && rule_hook_of(
                            h,
                            source@,
                            rules_v[i2],
                        ) by {
                        let h = choose|h: RegisteredHook|
                            pre.contains(h) && rule_hook_of(h, source@, rules_v[i2]);
                        assert(registry@.contains(h) && rule_hook_of(h, source@, rules_v[i2]));
                    }
                    assert forall|i2: int|
                        0 <= i2 < k + 1 && webhook_compiles(#[trigger] hooks_v[i2]) implies exists|
                        h: RegisteredHook,
                    |
                        #[trigger] registry@.contains(h) && webhook_hook_of(
                            h,
                            source@,
                            hooks_v[i2],
                        ) by {
                        if i2 == k as int {
                            assert(registry@.contains(entry) && webhook_hook_of(
                                entry,
                                source@,
                                hooks_v[i2],
                            ));
                        } else {
                            let h = choose|h: RegisteredHook|
                                pre.contains(h) && webhook_hook_of(h, source@, hooks_v[i2]);
                            assert(registry@.contains(h) && webhook_hook_of(
                                h,
                                source@,
                                hooks_v[i2],
                            ));
                        }
                    }
                }
                summary.outbound_webhooks = summary.outbound_webhooks + 1;
            },
            Err(_) => {
                summary.errors = summary.errors + 1;
            },
        }
        k = k + 1;
    }
    proof {
        assert(hooks_v.take(hooks_v.len() as int) =~= hooks_v);
    }
    summary
}

/// Register the built-in audit hook, which observes every lifecycle point
/// and always proceeds.
pub fn register_bundled_hooks(registry: &mut HookRegistry) -> (summary: HookRegistrationSummary)
    requires
        old(registry).wf(),
        old(registry)@.len() < usize::MAX,
    ensures
        final(registry).wf(),
        final(registry)@.len() == old(registry)@.len() + 1,
        summary.hooks == 1 && summary.outbound_webhooks == 0 && summary.errors == 0,
        exists|h: RegisteredHook|
            final(registry)@ == old(registry)@.insert(
                crate::hooks::stable_insert_pos(old(registry)@, 25),
                h,
            ) && h.name@ == "builtin.audit_log"@ && h.priority == 25 && #[trigger] h.behavior
                is Audit,
    {
    let mut points: Vec<HookPoint> = Vec::new();
    points.push(HookPoint::BeforeInbound);
    points.push(HookPoint::BeforeToolCall);
    points.push(HookPoint::BeforeOutbound);
    points.push(HookPoint::OnSessionStart);
    points.push(HookPoint::OnSessionEnd);
    points.push(HookPoint::TransformResponse);
    let hook = RegisteredHook {
        name: String::from_str("builtin.audit_log"),
        points,
        priority: 25,
        failure_mode: HookFailureMode::FailOpen,
        timeout_ms: DEFAULT_HOOK_TIMEOUT_MS,
        behavior: HookBehavior::Audit,
    };
    let ghost h = hook;
    registry.register_with_priority(hook, 25);
    proof {
        assert(registry@ == old(registry)@.insert(
            crate::hooks::stable_insert_pos(old(registry)@, 25),
            h,
        ));
        assert(h.name@ == "builtin.audit_log"@ && h.priority == 25 && h.behavior is Audit);
    }
    HookRegistrationSummary { hooks: 1, outbound_webhooks: 0, errors: 0 }
}


// ==================== Serialization and the round trip ====================

/// An optional string as a JSON value: the string, or `null` when absent.
pub open spec fn opt_str_json(o: Option<Seq<char>>) -> JsonView {
    match o {
        Some(s) => JsonView::Str(s),
        None => JsonView::Null,
    }
}

/// An optional unsigned integer as a JSON value.
pub open spec fn opt_uint_json(o: Option<u64>) -> JsonView {
    match o {
        Some(n) => JsonView::Int(n as int),
        None => JsonView::Null,
    }
}

/// An optional failure mode as a JSON value.
pub open spec fn failure_mode_json(o: Option<HookFailureMode>) -> JsonView {
    match o {
        Some(HookFailureMode::FailOpen) => JsonView::Str("fail_open"@),
        Some(HookFailureMode::FailClosed) => JsonView::Str("fail_closed"@),
        None => JsonView::Null,
    }
}

/// Hook points as their wire names.
pub open spec fn points_json(ps: Seq<HookPoint>) -> Seq<JsonView> {
    Seq::new(ps.len(), |i: int| JsonView::Str(ps[i].spec_str()))
}

/// Replacement steps as objects with `pattern` and `replacement`.
pub open spec fn replacements_json(rs: Seq<(Seq<char>, Seq<char>)>) -> Seq<JsonView> {
    Seq::new(
        rs.len(),
        |i: int|
            JsonView::Obj(
                seq![
                    ("pattern"@, JsonView::Str(rs[i].0)),
                    ("replacement"@, JsonView::Str(rs[i].1)),
                ],
            ),
    )
}

/// Headers as an object of string values.
pub open spec fn headers_json(hs: Seq<(Seq<char>, Seq<char>)>) -> Seq<(Seq<char>, JsonView)> {
    Seq::new(hs.len(), |i: int| (hs[i].0, JsonView::Str(hs[i].1)))
}

/// The wire form of a rule configuration.
pub open spec fn rule_json(rv: RuleConfigView) -> JsonView {
    JsonView::Obj(
        seq![
            ("name"@, JsonView::Str(rv.name)),
            ("points"@, JsonView::Arr(points_json(rv.points))),
            ("priority"@, opt_uint_json(match rv.priority {
                    Some(p) => Some(p as u64),
                    None => None,
                })),
            ("failure_mode"@, failure_mode_json(rv.failure_mode)),
            ("timeout_ms"@, opt_uint_json(rv.timeout_ms)),
            ("when_regex"@, opt_str_json(rv.when_regex)),
            ("reject_reason"@, opt_str_json(rv.reject_reason)),
            ("replacements"@, JsonView::Arr(replacements_json(rv.replacements))),
            ("prepend"@, opt_str_json(rv.prepend)),
            ("append"@, opt_str_json(rv.append)),
        ],
    )
}

/// The wire form of a webhook configuration.
pub open spec fn webhook_json(wv: WebhookConfigView) -> JsonView {
    JsonView::Obj(
        seq![
            ("name"@, JsonView::Str(wv.name)),
            ("points"@, JsonView::Arr(points_json(wv.points))),
            ("url"@, JsonView::Str(wv.url)),
            ("headers"@, JsonView::Obj(headers_json(wv.headers))),
            ("timeout_ms"@, opt_uint_json(wv.timeout_ms)),
            ("priority"@, opt_uint_json(match wv.priority {
                    Some(p) => Some(p as u64),
                    None => None,
                })),
        ],
    )
}

/// The wire form of a bundle, in the object form.
pub open spec fn bundle_json(bv: BundleConfigView) -> JsonView {
    JsonView::Obj(
        seq![
            ("rules"@, JsonView::Arr(Seq::new(bv.rules.len(), |i: int| rule_json(bv.rules[i])))),
            (
                "outbound_webhooks"@,
                JsonView::Arr(
                    Seq::new(
                        bv.outbound_webhooks.len(),
                        |i: int| webhook_json(bv.outbound_webhooks[i]),
                    ),
                ),
            ),
        ],
    )
}

/// Whether every integer field of a bundle fits in a JSON integer.
pub open spec fn bundle_ints_representable(bv: BundleConfigView) -> bool {
    &&& forall|i: int|
        0 <= i < bv.rules.len() ==> (match (#[trigger] bv.rules[i]).timeout_ms {
            Some(ms) => ms <= i64::MAX,
            None => true,
        })
    &&& forall|i: int|
        0 <= i < bv.outbound_webhooks.len() ==> (match (#[trigger] bv.outbound_webhooks[
            i
        ]).timeout_ms {
            Some(ms) => ms <= i64::MAX,
            None => true,
        })
}

/// Parsing a point's wire name gives the point back.
proof fn lemma_point_name_round_trip(p: HookPoint)
    ensures
        HookPoint::spec_parse(p.spec_str()) == Some(p),
{
    reveal_strlit("beforeInbound");
    reveal_strlit("beforeToolCall");
    reveal_strlit("beforeOutbound");
    reveal_strlit("onSessionStart");
    reveal_strlit("onSessionEnd");
    reveal_strlit("transformResponse");
    assert("beforeInbound"@.len() == 13);
    assert("beforeToolCall"@.len() == 14);
    assert("beforeOutbound"@.len() == 14);
    assert("onSessionStart"@.len() == 14);
    assert("onSessionEnd"@.len() == 12);
    assert("transformResponse"@.len() == 17);
    assert("beforeToolCall"@ != "beforeOutbound"@) by {
        assert("beforeToolCall"@[6] == 'T');
        assert("beforeOutbound"@[6] == 'O');
    }
    assert("onSessionStart"@ != "beforeToolCall"@) by {
        assert("onSessionStart"@[0] == 'o');
        assert("beforeToolCall"@[0] == 'b');
    }
    assert("onSessionStart"@ != "beforeOutbound"@) by {
        assert("onSessionStart"@[0] == 'o');
        assert("beforeOutbound"@[0] == 'b');
    }
    match p {
        HookPoint::BeforeInbound => {},
        HookPoint::BeforeToolCall => {},
        HookPoint::BeforeOutbound => {},
        HookPoint::OnSessionStart => {},
        HookPoint::OnSessionEnd => {},
        HookPoint::TransformResponse => {},
    }
}

/// Parsing serialized points gives the points back.
proof fn lemma_points_round_trip(ps: Seq<HookPoint>)
    ensures
        parse_points_seq(points_json(ps)) == Some(ps),
    decreases ps.len(),
{
    if ps.len() == 0 {
        assert(points_json(ps) =~= Seq::<JsonView>::empty());
        assert(parse_points_seq(points_json(ps)) == Some(Seq::<HookPoint>::empty()));
        assert(Seq::<HookPoint>::empty() =~= ps);
    } else {
        lemma_points_round_trip(ps.drop_last());
        assert(points_json(ps).drop_last() =~= points_json(ps.drop_last()));
        assert(points_json(ps).last() == JsonView::Str(ps.last().spec_str()));
        lemma_point_name_round_trip(ps.last());
        assert(ps.drop_last().push(ps.last()) =~= ps);
    }
}

/// Parsing serialized replacements gives the steps back.
proof fn lemma_replacements_round_trip(rs: Seq<(Seq<char>, Seq<char>)>)
    ensures
        parse_replacements_seq(replacements_json(rs)) == Some(rs),
    decreases rs.len(),
{
    if rs.len() == 0 {
        assert(replacements_json(rs) =~= Seq::<JsonView>::empty());
        assert(Seq::<(Seq<char>, Seq<char>)>::empty() =~= rs);
    } else {
        reveal_strlit("pattern");
        reveal_strlit("replacement");
        assert("pattern"@.len() == 7);
        assert("replacement"@.len() == 11);
        lemma_replacements_round_trip(rs.drop_last());
        assert(replacements_json(rs).drop_last() =~= replacements_json(rs.drop_last()));
        let last = replacements_json(rs).last();
        let entries = last->Obj_0;
        assert(entries[0].0 == "pattern"@);
        crate::json::lemma_obj_first_index_char(entries, "pattern"@, 0);
        assert(entries[0].0 != "replacement"@);
        crate::json::lemma_obj_first_index_char(entries, "replacement"@, 1);
        assert(obj_get_view(last, "pattern"@) == Some(JsonView::Str(rs.last().0)));
        assert(obj_get_view(last, "replacement"@) == Some(JsonView::Str(rs.last().1)));
        assert(rs.drop_last().push(rs.last()) =~= rs);
    }
}

/// Parsing serialized headers gives the headers back.
proof fn lemma_headers_round_trip(hs: Seq<(Seq<char>, Seq<char>)>)
    ensures
        parse_headers_entries(headers_json(hs)) == Some(hs),
    decreases hs.len(),
{
    if hs.len() == 0 {
        assert(headers_json(hs) =~= Seq::<(Seq<char>, JsonView)>::empty());
        assert(Seq::<(Seq<char>, Seq<char>)>::empty() =~= hs);
    } else {
        lemma_headers_round_trip(hs.drop_last());
        assert(headers_json(hs).drop_last() =~= headers_json(hs.drop_last()));
        assert(headers_json(hs).last() == (hs.last().0, JsonView::Str(hs.last().1)));
        assert(hs.drop_last().push(hs.last()) =~= hs);
    }
}

/// Parsing a serialized rule gives the rule back, provided its integers fit
/// in a JSON integer.
proof fn lemma_rule_round_trip(rv: RuleConfigView)
    requires
        match rv.timeout_ms {
            Some(ms) => ms <= i64::MAX,
            None => true,
        },
    ensures
        parse_rule(rule_json(rv)) == Some(rv),
{
    reveal_strlit("name");
    reveal_strlit("points");
    reveal_strlit("priority");
    reveal_strlit("failure_mode");
    reveal_strlit("timeout_ms");
    reveal_strlit("when_regex");
    reveal_strlit("reject_reason");
    reveal_strlit("replacements");
    reveal_strlit("prepend");
    reveal_strlit("append");
    assert("name"@.len() == 4);
    assert("points"@.len() == 6);
    assert("priority"@.len() == 8);
    assert("failure_mode"@.len() == 12);
    assert("timeout_ms"@.len() == 10);
    assert("when_regex"@.len() == 10);
    assert("reject_reason"@.len() == 13);
    assert("replacements"@.len() == 12);
    assert("prepend"@.len() == 7);
    assert("append"@.len() == 6);
    assert("timeout_ms"@ != "when_regex"@) by {
        assert("timeout_ms"@[0] == 't');
        assert("when_regex"@[0] == 'w');
    }
    assert("failure_mode"@ != "replacements"@) by {
        assert("failure_mode"@[0] == 'f');
        assert("replacements"@[0] == 'r');
    }
    assert("points"@ != "append"@) by {
        assert("points"@[0] == 'p');
        assert("append"@[0] == 'a');
    }
    reveal_strlit("fail_open");
    reveal_strlit("fail_closed");
    assert("fail_open"@.len() == 9);
    assert("fail_closed"@.len() == 11);
    let v = rule_json(rv);
    let entries = v->Obj_0;
    crate::json::lemma_obj_first_index_char(entries, "name"@, 0);
    crate::json::lemma_obj_first_index_char(entries, "points"@, 1);
    crate::json::lemma_obj_first_index_char(entries, "priority"@, 2);
    crate::json::lemma_obj_first_index_char(entries, "failure_mode"@, 3);
    crate::json::lemma_obj_first_index_char(entries, "timeout_ms"@, 4);
    crate::json::lemma_obj_first_index_char(entries, "when_regex"@, 5);
    crate::json::lemma_obj_first_index_char(entries, "reject_reason"@, 6);
    crate::json::lemma_obj_first_index_char(entries, "replacements"@, 7);
    crate::json::lemma_obj_first_index_char(entries, "prepend"@, 8);
    crate::json::lemma_obj_first_index_char(entries, "append"@, 9);
    lemma_points_round_trip(rv.points);
    lemma_replacements_round_trip(rv.replacements);
    assert(obj_get_view(v, "points"@) == Some(JsonView::Arr(points_json(rv.points))));
    assert(parse_points_field(v) == Some(rv.points));
    assert(field_opt_uint(v, "priority"@, u32::MAX as int) == Some(
        match rv.priority {
            Some(p) => Some(p as u64),
            None => None,
        },
    ));
    assert(parse_failure_mode_field(v) == Some(rv.failure_mode));
    assert(field_opt_uint(v, "timeout_ms"@, i64::MAX as int) == Some(rv.timeout_ms));
    assert(field_opt_str(v, "when_regex"@) == Some(rv.when_regex));
    assert(field_opt_str(v, "reject_reason"@) == Some(rv.reject_reason));
    assert(parse_replacements_field(v) == Some(rv.replacements));
    assert(field_opt_str(v, "prepend"@) == Some(rv.prepend));
    assert(field_opt_str(v, "append"@) == Some(rv.append));
    match parse_rule(v) {
        Some(got) => {
            assert(got == rv);
        },
        None => {
            assert(false);
        },
    }
}

/// Parsing a serialized webhook gives the webhook back, provided its
/// integers fit in a JSON integer.
proof fn lemma_webhook_round_trip(wv: WebhookConfigView)
    requires
        match wv.timeout_ms {
            Some(ms) => ms <= i64::MAX,
            None => true,
        },
    ensures
        parse_webhook(webhook_json(wv)) == Some(wv),
{
    reveal_strlit("name");
    reveal_strlit("points");
    reveal_strlit("url");
    reveal_strlit("headers");
    reveal_strlit("timeout_ms");
    reveal_strlit("priority");
    assert("name"@.len() == 4);
    assert("points"@.len() == 6);
    assert("url"@.len() == 3);
    assert("headers"@.len() == 7);
    assert("timeout_ms"@.len() == 10);
    assert("priority"@.len() == 8);
    let v = webhook_json(wv);
    let entries = v->Obj_0;
    crate::json::lemma_obj_first_index_char(entries, "name"@, 0);
    crate::json::lemma_obj_first_index_char(entries, "points"@, 1);
    crate::json::lemma_obj_first_index_char(entries, "url"@, 2);
    crate::json::lemma_obj_first_index_char(entries, "headers"@, 3);
    crate::json::lemma_obj_first_index_char(entries, "timeout_ms"@, 4);
    crate::json::lemma_obj_first_index_char(entries, "priority"@, 5);
    lemma_points_round_trip(wv.points);
    lemma_headers_round_trip(wv.headers);
    assert(parse_points_field(v) == Some(wv.points));
    assert(obj_get_view(v, "headers"@) == Some(JsonView::Obj(headers_json(wv.headers))));
    assert(parse_headers_field(v) == Some(wv.headers));
    assert(field_opt_uint(v, "timeout_ms"@, i64::MAX as int) == Some(wv.timeout_ms));
    assert(field_opt_uint(v, "priority"@, u32::MAX as int) == Some(
        match wv.priority {
            Some(p) => Some(p as u64),
            None => None,
        },
    ));
    match parse_webhook(v) {
        Some(got) => {
            assert(got == wv);
        },
        None => {
            assert(false);
        },
    }
}

/// Parsing a serialized rule list gives the rules back.
proof fn lemma_rules_seq_round_trip(rules: Seq<RuleConfigView>)
    requires
        forall|i: int|
            0 <= i < rules.len() ==> (match (#[trigger] rules[i]).timeout_ms {
                Some(ms) => ms <= i64::MAX,
                None => true,
            }),
    ensures
        parse_rules_seq(Seq::new(rules.len(), |i: int| rule_json(rules[i]))) == Some(rules),
    decreases rules.len(),
{
    let items = Seq::new(rules.len(), |i: int| rule_json(rules[i]));
    if rules.len() == 0 {
        assert(items =~= Seq::<JsonView>::empty());
        assert(Seq::<RuleConfigView>::empty() =~= rules);
    } else {
        lemma_rules_seq_round_trip(rules.drop_last());
        assert(items.drop_last() =~= Seq::new(
            rules.drop_last().len(),
            |i: int| rule_json(rules.drop_last()[i]),
        ));
        lemma_rule_round_trip(rules.last());
        assert(items.last() == rule_json(rules.last()));
        assert(rules.drop_last().push(rules.last()) =~= rules);
    }
}

/// Parsing a serialized webhook list gives the webhooks back.
proof fn lemma_webhooks_seq_round_trip(ws: Seq<WebhookConfigView>)
    requires
        forall|i: int|
            0 <= i < ws.len() ==> (match (#[trigger] ws[i]).timeout_ms {
                Some(ms) => ms <= i64::MAX,
                None => true,
            }),
    ensures
        parse_webhooks_seq(Seq::new(ws.len(), |i: int| webhook_json(ws[i]))) == Some(ws),
    decreases ws.len(),
{
    let items = Seq::new(ws.len(), |i: int| webhook_json(ws[i]));
    if ws.len() == 0 {
        assert(items =~= Seq::<JsonView>::empty());
        assert(Seq::<WebhookConfigView>::empty() =~= ws);
    } else {
        lemma_webhooks_seq_round_trip(ws.drop_last());
        assert(items.drop_last() =~= Seq::new(
            ws.drop_last().len(),
            |i: int| webhook_json(ws.drop_last()[i]),
        ));
        lemma_webhook_round_trip(ws.last());
        assert(items.last() == webhook_json(ws.last()));
        assert(ws.drop_last().push(ws.last()) =~= ws);
    }
}

/// Parsing a bundle and serializing it back yields an equivalent bundle:
/// the serialized object form parses to exactly the configuration it was
/// made from, so in particular the numbers of rules and webhooks — the
/// registration summary — are unchanged.
pub proof fn lemma_bundle_round_trip(bv: BundleConfigView)
    requires
        bundle_ints_representable(bv),
    ensures
        parse_bundle(bundle_json(bv)) == Some(bv),
{
    reveal_strlit("rules");
    reveal_strlit("outbound_webhooks");
    assert("rules"@.len() == 5);
    assert("outbound_webhooks"@.len() == 17);
    let v = bundle_json(bv);
    let entries = v->Obj_0;
    crate::json::lemma_obj_first_index_char(entries, "rules"@, 0);
    crate::json::lemma_obj_first_index_char(entries, "outbound_webhooks"@, 1);
    lemma_rules_seq_round_trip(bv.rules);
    lemma_webhooks_seq_round_trip(bv.outbound_webhooks);
    match parse_bundle(v) {
        Some(got) => {
            assert(got == bv);
        },
        None => {
            assert(false);
        },
    }
}

/// Build the wire form of an optional string.
fn opt_str_to_value(o: &Option<String>) -> (r: JsonValue)
    ensures
        r@ == opt_str_json(opt_str_view(*o)),
{
    match o {
        Some(s) => JsonValue::Str(s.clone()),
        None => JsonValue::Null,
    }
}

/// Build the wire form of an optional timeout.
fn opt_u64_to_value(o: &Option<u64>) -> (r: JsonValue)
    requires
        o matches Some(n) ==> n <= i64::MAX,
    ensures
        r@ == opt_uint_json(*o),
{
    match o {
        Some(n) => JsonValue::Int(*n as i64),
        None => JsonValue::Null,
    }
}

/// Build the wire form of an optional priority.
fn opt_u32_to_value(o: &Option<u32>) -> (r: JsonValue)
    ensures
        r@ == opt_uint_json(
            match *o {
                Some(p) => Some(p as u64),
                None => None,
            },
        ),
{
    match o {
        Some(n) => JsonValue::Int(*n as i64),
        None => JsonValue::Null,
    }
}

/// Build the wire form of a point list.
fn points_to_value(points: &Vec<HookPoint>) -> (r: JsonValue)
    ensures
        r@ == JsonView::Arr(points_json(points@)),
{
    let mut items: Vec<JsonValue> = Vec::new();
    let mut i: usize = 0;
    while i < points.len()
        invariant
            i <= points@.len(),
            items@.len() == i,
            forall|j: int| 0 <= j < i ==> (#[trigger] items@[j])@ == JsonView::Str(
                points@[j].spec_str(),
            ),
        decreases points@.len() - i,
    {
        items.push(JsonValue::Str(String::from_str(points[i].as_str())));
        i = i + 1;
    }
    let ghost gi = items@;
    let r = JsonValue::Arr(items);
    proof {
        assert(r@->Arr_0 == crate::json::views_seq(gi));
        assert(crate::json::views_seq(gi).len() == gi.len());
        assert(r@->Arr_0 =~= points_json(points@));
    }
    r
}

impl HookBundleConfig {
    /// Render this bundle in the wire object form, with every field present
    /// and absent options as `null`.
    pub fn to_value(&self) -> (r: JsonValue)
        requires
            forall|i: int|
                0 <= i < self.rules@.len() ==> (match (#[trigger] self.rules@[i]).timeout_ms {
                    Some(ms) => ms <= i64::MAX,
                    None => true,
                }),
            forall|i: int|
                0 <= i < self.outbound_webhooks@.len() ==> (match (#[trigger] self.outbound_webhooks@[
                    i
                ]).timeout_ms {
                    Some(ms) => ms <= i64::MAX,
                    None => true,
                }),
        ensures
            r@ == bundle_json(self@),
    {
        let mut rule_items: Vec<JsonValue> = Vec::new();
        let mut i: usize = 0;
        while i < self.rules.len()
            invariant
                i <= self.rules@.len(),
                rule_items@.len() == i,
                forall|j: int|
                    0 <= j < self.rules@.len() ==> (match (#[trigger] self.rules@[j]).timeout_ms {
                        Some(ms) => ms <= i64::MAX,
                        None => true,
                    }),
                forall|j: int| 0 <= j < i ==> (#[trigger] rule_items@[j])@ == rule_json(
                    self.rules@[j]@,
                ),
            decreases self.rules@.len() - i,
        {
            rule_items.push(rule_to_value(&self.rules[i]));
            i = i + 1;
        }

        let mut hook_items: Vec<JsonValue> = Vec::new();
        let mut k: usize = 0;
        while k < self.outbound_webhooks.len()
            invariant
                k <= self.outbound_webhooks@.len(),
                hook_items@.len() == k,
                forall|j: int|
                    0 <= j < self.outbound_webhooks@.len() ==> (match (
                    #[trigger] self.outbound_webhooks@[j]).timeout_ms {
                        Some(ms) => ms <= i64::MAX,
                        None => true,
                    }),
                forall|j: int| 0 <= j < k ==> (#[trigger] hook_items@[j])@ == webhook_json(
                    self.outbound_webhooks@[j]@,
                ),
            decreases self.outbound_webhooks@.len() - k,
        {
            hook_items.push(webhook_to_value(&self.outbound_webhooks[k]));
            k = k + 1;
        }

        let ghost gri = rule_items@;
        let ghost ghi = hook_items@;
        let mut entries: Vec<(String, JsonValue)> = Vec::new();
        entries.push((String::from_str("rules"), JsonValue::Arr(rule_items)));
        entries.push((String::from_str("outbound_webhooks"), JsonValue::Arr(hook_items)));
        let ghost ge = entries@;
        let r = JsonValue::Obj(entries);
        proof {
            assert(r@->Obj_0 == crate::json::entry_views_seq(ge));
            assert(crate::json::entry_views_seq(ge).len() == ge.len());
            assert(ge[0].1@->Arr_0 == crate::json::views_seq(gri));
            assert(crate::json::views_seq(gri).len() == gri.len());
            assert(ge[1].1@->Arr_0 == crate::json::views_seq(ghi));
            assert(crate::json::views_seq(ghi).len() == ghi.len());
            assert(ge[0].1@->Arr_0 =~= Seq::new(
                self@.rules.len(),
                |j: int| rule_json(self@.rules[j]),
            ));
            assert(ge[1].1@->Arr_0 =~= Seq::new(
                self@.outbound_webhooks.len(),
                |j: int| webhook_json(self@.outbound_webhooks[j]),
            ));
            assert(r@->Obj_0 =~= bundle_json(self@)->Obj_0);
        }
        r
    }
}

/// Build the wire form of a rule configuration.
fn rule_to_value(c: &HookRuleConfig) -> (r: JsonValue)
    requires
        c@.timeout_ms matches Some(ms) ==> ms <= i64::MAX,
    ensures
        r@ == rule_json(c@),
{
    let mut rep_items: Vec<JsonValue> = Vec::new();
    let mut i: usize = 0;
    while i < c.replacements.len()
        invariant
            i <= c.replacements@.len(),
            rep_items@.len() == i,
            forall|j: int| 0 <= j < i ==> (#[trigger] rep_items@[j])@ == JsonView::Obj(
                seq![
                    ("pattern"@, JsonView::Str(c.replacements@[j].pattern@)),
                    ("replacement"@, JsonView::Str(c.replacements@[j].replacement@)),
                ],
            ),
        decreases c.replacements@.len() - i,
    {
        let mut pair: Vec<(String, JsonValue)> = Vec::new();
        pair.push((String::from_str("pattern"), JsonValue::Str(c.replacements[i].pattern.clone())));
        pair.push(
            (String::from_str("replacement"), JsonValue::Str(c.replacements[i].replacement.clone())),
        );
        let ghost gp = pair@;
        let item = JsonValue::Obj(pair);
        proof {
            assert(item@->Obj_0 == crate::json::entry_views_seq(gp));
            assert(crate::json::entry_views_seq(gp).len() == gp.len());
            assert(item@->Obj_0 =~= seq![
                ("pattern"@, JsonView::Str(c.replacements@[i as int].pattern@)),
                ("replacement"@, JsonView::Str(c.replacements@[i as int].replacement@)),
            ]);
        }
        rep_items.push(item);
        i = i + 1;
    }

    let ghost gri = rep_items@;
    let mut entries: Vec<(String, JsonValue)> = Vec::new();
    entries.push((String::from_str("name"), JsonValue::Str(c.name.clone())));
    entries.push((String::from_str("points"), points_to_value(&c.points)));
    entries.push((String::from_str("priority"), opt_u32_to_value(&c.priority)));
    let fm = match c.failure_mode {
        Some(HookFailureMode::FailOpen) => JsonValue::Str(String::from_str("fail_open")),
        Some(HookFailureMode::FailClosed) => JsonValue::Str(String::from_str("fail_closed")),
        None => JsonValue::Null,
    };
    entries.push((String::from_str("failure_mode"), fm));
    entries.push((String::from_str("timeout_ms"), opt_u64_to_value(&c.timeout_ms)));
    entries.push((String::from_str("when_regex"), opt_str_to_value(&c.when_regex)));
    entries.push((String::from_str("reject_reason"), opt_str_to_value(&c.reject_reason)));
    entries.push((String::from_str("replacements"), JsonValue::Arr(rep_items)));
    entries.push((String::from_str("prepend"), opt_str_to_value(&c.prepend)));
    entries.push((String::from_str("append"), opt_str_to_value(&c.append)));
    let ghost ge = entries@;
    let r = JsonValue::Obj(entries);
    proof {
        assert(r@->Obj_0 == crate::json::entry_views_seq(ge));
        assert(crate::json::entry_views_seq(ge).len() == ge.len());
        assert(ge[7].1@->Arr_0 == crate::json::views_seq(gri));
        assert(crate::json::views_seq(gri).len() == gri.len());
        assert(ge[7].1@->Arr_0 =~= replacements_json(c@.replacements));
        assert(r@->Obj_0 =~= rule_json(c@)->Obj_0);
    }
    r
}

/// Build the wire form of a webhook configuration.
fn webhook_to_value(c: &OutboundWebhookConfig) -> (r: JsonValue)
    requires
        c@.timeout_ms matches Some(ms) ==> ms <= i64::MAX,
    ensures
        r@ == webhook_json(c@),
{
    let mut header_entries: Vec<(String, JsonValue)> = Vec::new();
    let mut i: usize = 0;
    while i < c.headers.len()
        invariant
            i <= c.headers@.len(),
            header_entries@.len() == i,
            forall|j: int|
                0 <= j < i ==> (#[trigger] header_entries@[j]).0@ == c.headers@[j].0@
                    && header_entries@[j].1@ == JsonView::Str(c.headers@[j].1@),
        decreases c.headers@.len() - i,
    {
        header_entries.push((c.headers[i].0.clone(), JsonValue::Str(c.headers[i].1.clone())));
        i = i + 1;
    }
    let ghost gh = header_entries@;
    let headers_obj = JsonValue::Obj(header_entries);
    proof {
        assert(headers_obj@->Obj_0 == crate::json::entry_views_seq(gh));
        assert(crate::json::entry_views_seq(gh).len() == gh.len());
        assert(headers_obj@->Obj_0 =~= headers_json(c@.headers));
    }

    let mut entries: Vec<(String, JsonValue)> = Vec::new();
    entries.push((String::from_str("name"), JsonValue::Str(c.name.clone())));
    entries.push((String::from_str("points"), points_to_value(&c.points)));
    entries.push((String::from_str("url"), JsonValue::Str(c.url.clone())));
    entries.push((String::from_str("headers"), headers_obj));
    entries.push((String::from_str("timeout_ms"), opt_u64_to_value(&c.timeout_ms)));
    entries.push((String::from_str("priority"), opt_u32_to_value(&c.priority)));
    let ghost ge = entries@;
    let r = JsonValue::Obj(entries);
    proof {
        assert(r@->Obj_0 == crate::json::entry_views_seq(ge));
        assert(crate::json::entry_views_seq(ge).len() == ge.len());
        assert(r@->Obj_0 =~= webhook_json(c@)->Obj_0);
    }
    r
}

} // verus!
