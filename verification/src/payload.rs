//! What the router reads out of a hook's payload.

use crate::json::{json_view, json_views, str_field, str_option, value_as_array, value_as_str, value_get, JsonView};
use crate::path::{absolute, joined, UnixPath};
use crate::text::{text_eq, views};
use vstd::prelude::*;

verus! {

/// The texts among the items, in order.
pub open spec fn texts_of(items: Seq<JsonView>) -> Seq<Seq<char>>
    decreases items.len(),
{
    if items.len() == 0 {
        Seq::empty()
    } else {
        let before = texts_of(items.drop_last());
        match items.last().text() {
            Some(t) => before.push(t),
            None => before,
        }
    }
}

/// The texts among the items of an array, in order.
pub(crate) fn text_items(items: &Vec<serde_json::Value>) -> (r: Vec<String>)
    ensures
        views(r@) == texts_of(json_views(items@)),
{
    let mut r: Vec<String> = Vec::new();
    let mut i: usize = 0;
    let ghost all = json_views(items@);
    assert(views(r@) =~= texts_of(all.take(0)));
    while i < items.len()
        invariant
            i <= items.len(),
            all == json_views(items@),
            views(r@) == texts_of(all.take(i as int)),
        decreases items.len() - i,
    {
        let ghost before = views(r@);
        proof {
            assert(all.take(i + 1).drop_last() =~= all.take(i as int));
            assert(all.take(i + 1).last() == json_view(items@[i as int]));
        }
        if let Some(t) = value_as_str(&items[i]) {
            r.push(t.to_owned());
            assert(views(r@) =~= before.push(t@));
        }
        i += 1;
    }
    assert(all.take(items.len() as int) =~= all);
    r
}

/// The member `key` of the forwarded host payload.
pub open spec fn host_text(raw: JsonView, key: Seq<char>) -> Option<Seq<char>> {
    match raw.field("host_payload"@) {
        Some(hp) => hp.text_field(key),
        None => None,
    }
}

/// The string member `key` of the forwarded host payload.
pub fn host_str<'a>(raw: &'a serde_json::Value, key: &str) -> (r: Option<&'a str>)
    ensures
        str_option(r) == host_text(json_view(*raw), key@),
{
    match value_get(raw, "host_payload") {
        Some(hp) => str_field(hp, key),
        None => None,
    }
}

/// A text that is not empty.
pub open spec fn populated(text: Option<Seq<char>>) -> Option<Seq<char>> {
    match text {
        Some(c) => if c.len() > 0 {
            Some(c)
        } else {
            None
        },
        None => None,
    }
}

/// The working directory a payload names: its own `cwd`, else that of the
/// forwarded host payload. An empty one counts as none, in either place.
pub open spec fn payload_cwd(raw: JsonView) -> Option<Seq<char>> {
    match populated(raw.text_field("cwd"@)) {
        Some(c) => Some(c),
        None => populated(host_text(raw, "cwd"@)),
    }
}

/// The host's working directory as a hook's payload carries it.
pub fn hook_cwd(raw: &serde_json::Value) -> (r: Option<&str>)
    ensures
        str_option(r) == payload_cwd(json_view(*raw)),
{
    if let Some(c) = str_field(raw, "cwd") {
        if !c.is_empty() {
            return Some(c);
        }
    }
    match host_str(raw, "cwd") {
        Some(c) => if c.is_empty() {
            None
        } else {
            Some(c)
        },
        None => None,
    }
}

/// The workspace roots of a session's own payload: its `workspacePaths`, else
/// its `cwd`.
pub open spec fn session_roots(raw: JsonView) -> Seq<Seq<char>> {
    match raw.field("host_payload"@) {
        None => Seq::empty(),
        Some(hp) => match hp.field("workspacePaths"@) {
            Some(JsonView::Array(items)) => texts_of(items),
            _ => match hp.text_field("cwd"@) {
                Some(cwd) => seq![cwd],
                None => Seq::empty(),
            },
        },
    }
}

/// Extracts a session's workspace roots from its hook payload.
pub fn extract_session_roots(raw: &serde_json::Value) -> (r: Vec<String>)
    ensures
        views(r@) == session_roots(json_view(*raw)),
{
    let mut r: Vec<String> = Vec::new();
    let hp = match value_get(raw, "host_payload") {
        Some(hp) => hp,
        None => {
            assert(views(r@) =~= Seq::empty());
            return r;
        },
    };
    if let Some(paths) = value_get(hp, "workspacePaths") {
        if let Some(items) = value_as_array(paths) {
            return text_items(items);
        }
    }
    if let Some(cwd) = str_field(hp, "cwd") {
        r.push(cwd.to_owned());
        assert(views(r@) =~= seq![cwd@]);
    } else {
        assert(views(r@) =~= Seq::empty());
    }
    r
}

/// The tools that only read.
pub open spec fn read_class(tool: Seq<char>) -> bool {
    tool == "Read"@ || tool == "Grep"@ || tool == "Glob"@
}

/// Whether a host tool only reads.
pub fn is_read_class(tool: &str) -> (r: bool)
    ensures
        r == read_class(tool@),
{
    text_eq(tool, "Read") || text_eq(tool, "Grep") || text_eq(tool, "Glob")
}

/// The tool and the target of a permission request for a read: the target is the
/// `file_path` of the tool's input, or its `path` where it has no `file_path`,
/// taken relative to the payload's `cwd` or to `.`.
pub open spec fn read_target(hp: JsonView) -> Option<(Seq<char>, Seq<char>)> {
    match (hp.text_field("tool_name"@), hp.field("tool_input"@)) {
        (Some(tool), Some(input)) => if read_class(tool) {
            let named = match input.field("file_path"@) {
                Some(v) => Some(v),
                None => input.field("path"@),
            };
            match named {
                Some(JsonView::Text(path)) => if absolute(path) {
                    Some((tool, path))
                } else {
                    match hp.text_field("cwd"@) {
                        Some(cwd) => Some((tool, joined(cwd, path))),
                        None => Some((tool, joined("."@, path))),
                    }
                },
                _ => None,
            }
        } else {
            None
        },
        _ => None,
    }
}

/// The view of a read target.
pub open spec fn target_view(t: Option<(String, UnixPath)>) -> Option<(Seq<char>, Seq<char>)> {
    match t {
        Some((tool, path)) => Some((tool@, path@)),
        None => None,
    }
}

/// The read that a forwarded permission request asks for.
pub fn permission_read_target(hp: &serde_json::Value) -> (r: Option<(String, UnixPath)>)
    ensures
        target_view(r) == read_target(json_view(*hp)),
{
    let tool = match str_field(hp, "tool_name") {
        Some(t) => t,
        None => {
            return None;
        },
    };
    if !is_read_class(tool) {
        return None;
    }
    let input = match value_get(hp, "tool_input") {
        Some(i) => i,
        None => {
            return None;
        },
    };
    let named = match value_get(input, "file_path") {
        Some(v) => Some(v),
        None => value_get(input, "path"),
    };
    let raw_path = match named {
        Some(v) => match value_as_str(v) {
            Some(p) => p,
            None => {
                return None;
            },
        },
        None => {
            return None;
        },
    };
    let path = UnixPath::new(raw_path);
    if path.is_absolute() {
        return Some((tool.to_owned(), path));
    }
    let cwd = match str_field(hp, "cwd") {
        Some(c) => UnixPath::new(c),
        None => UnixPath::new("."),
    };
    Some((tool.to_owned(), cwd.join(raw_path)))
}

/// The input member that carries the path of a read tool.
pub open spec fn input_key(tool: Seq<char>) -> Seq<char> {
    if tool == "Grep"@ || tool == "Glob"@ {
        "path"@
    } else {
        "file_path"@
    }
}

/// The input member under which a tool's path is pinned.
pub fn permission_input_key(tool_name: &str) -> (r: &'static str)
    ensures
        r@ == input_key(tool_name@),
{
    if text_eq(tool_name, "Grep") || text_eq(tool_name, "Glob") {
        "path"
    } else {
        "file_path"
    }
}

/// The record of one read: the action, never the content.
#[derive(Debug)]
pub struct ReadAction {
    pub session_id: String,
    pub agent_id: String,
    pub tool: String,
    pub path: UnixPath,
    pub cwd: String,
}

/// The text of an optional text, empty where there is none.
pub open spec fn text_or_empty(t: Option<Seq<char>>) -> Seq<char> {
    match t {
        Some(s) => s,
        None => Seq::empty(),
    }
}

/// The optional text, empty where there is none.
pub fn str_or_empty(t: Option<&str>) -> (r: String)
    ensures
        r@ == text_or_empty(str_option(t)),
{
    match t {
        Some(s) => s.to_owned(),
        None => String::new(),
    }
}

/// `r` records the read that a forwarded tool call performs, and is nothing where
/// it is no read or names no target.
pub open spec fn read_recorded(r: Option<ReadAction>, raw: JsonView, session: Seq<char>) -> bool {
    let target = match raw.field("host_payload"@) {
        Some(hp) => read_target(hp),
        None => None,
    };
    match target {
        None => r is None,
        Some((tool, path)) => r matches Some(a) && a.session_id@ == session && a.agent_id@
            == text_or_empty(raw.text_field("agent_id"@)) && a.tool@ == tool && a.path@ == path
            && a.cwd@ == text_or_empty(payload_cwd(raw)),
    }
}

/// The read that a forwarded tool call performs, nothing where it is no read or
/// names no target.
pub fn record_read_action(raw: &serde_json::Value, session_id: &str) -> (r: Option<ReadAction>)
    ensures
        read_recorded(r, json_view(*raw), session_id@),
{
    let hp = match value_get(raw, "host_payload") {
        Some(hp) => hp,
        None => {
            return None;
        },
    };
    match permission_read_target(hp) {
        None => None,
        Some((tool, path)) => Some(
            ReadAction {
                session_id: session_id.to_owned(),
                agent_id: str_or_empty(str_field(raw, "agent_id")),
                tool,
                path,
                cwd: str_or_empty(hook_cwd(raw)),
            },
        ),
    }
}

/// The ids of the tasks that are reported as running, in order.
pub open spec fn running_ids(tasks: Seq<JsonView>) -> Seq<Seq<char>>
    decreases tasks.len(),
{
    if tasks.len() == 0 {
        Seq::empty()
    } else {
        let before = running_ids(tasks.drop_last());
        let task = tasks.last();
        if task.text_field("status"@) == Some("running"@) {
            match task.text_field("id"@) {
                Some(id) => before.push(id),
                None => before,
            }
        } else {
            before
        }
    }
}

/// The background tasks of a stop payload: those of the host payload, or the
/// payload's own where the host payload has no such member.
pub open spec fn background_tasks(raw: JsonView) -> Option<JsonView> {
    let forwarded = match raw.field("host_payload"@) {
        Some(hp) => hp.field("background_tasks"@),
        None => None,
    };
    match forwarded {
        Some(t) => Some(t),
        None => raw.field("background_tasks"@),
    }
}

/// The ids of the background agents that a stop payload reports as running.
pub fn running_background_agent_ids(raw: &serde_json::Value) -> (r: Vec<String>)
    ensures
        views(r@) == match background_tasks(json_view(*raw)) {
            Some(JsonView::Array(tasks)) => running_ids(tasks),
            _ => Seq::empty(),
        },
{
    let mut r: Vec<String> = Vec::new();
    assert(views(r@) =~= Seq::empty());
    let forwarded = match value_get(raw, "host_payload") {
        Some(hp) => value_get(hp, "background_tasks"),
        None => None,
    };
    let tasks = match forwarded {
        Some(t) => Some(t),
        None => value_get(raw, "background_tasks"),
    };
    let items = match tasks {
        Some(t) => match value_as_array(t) {
            Some(a) => a,
            None => {
                return r;
            },
        },
        None => {
            return r;
        },
    };
    let mut i: usize = 0;
    let ghost all = json_views(items@);
    assert(views(r@) =~= running_ids(all.take(0)));
    while i < items.len()
        invariant
            i <= items.len(),
            all == json_views(items@),
            views(r@) == running_ids(all.take(i as int)),
        decreases items.len() - i,
    {
        let ghost before = views(r@);
        proof {
            assert(all.take(i + 1).drop_last() =~= all.take(i as int));
            assert(all.take(i + 1).last() == json_view(items@[i as int]));
        }
        let running = match str_field(&items[i], "status") {
            Some(s) => text_eq(s, "running"),
            None => false,
        };
        if running {
            if let Some(id) = str_field(&items[i], "id") {
                r.push(id.to_owned());
                assert(views(r@) =~= before.push(id@));
            }
        }
        i += 1;
    }
    assert(all.take(items.len() as int) =~= all);
    r
}

/// A top-level stop without an agent id: the main agent's.
pub open spec fn main_agent_stop(raw: JsonView) -> bool {
    &&& host_text(raw, "hook_event_name"@) == Some("Stop"@)
    &&& text_or_empty(raw.text_field("agent_id"@)).len() == 0
}

/// Whether the payload's `hook_event_name` is `name`.
pub fn is_host_event(raw: &serde_json::Value, name: &str) -> (r: bool)
    ensures
        r == (host_text(json_view(*raw), "hook_event_name"@) == Some(name@)),
{
    match host_str(raw, "hook_event_name") {
        Some(e) => text_eq(e, name),
        None => false,
    }
}

/// Whether a stop is the main agent's own.
pub fn is_main_agent_stop(raw: &serde_json::Value) -> (r: bool)
    ensures
        r == main_agent_stop(json_view(*raw)),
{
    let agent = str_or_empty(str_field(raw, "agent_id"));
    is_host_event(raw, "Stop") && agent.as_str().is_empty()
}

} // verus!
