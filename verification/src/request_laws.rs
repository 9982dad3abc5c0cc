//! What is read out of requests, and what is decided about reads.

use crate::hook::{classify_method, handle_hook_connection, read_call, HookCall, HookMethod, Passthrough};
use crate::json::{json_parse, json_text, json_view, str_option, JsonView};
use crate::laws::law_joined_paths_lie_below;
use crate::ledger::PromotedPrefixes;
use crate::path::{absolute, components, joined, keys, named, segments, PathKey, UnixPath};
use crate::payload::{extract_session_roots, hook_cwd, is_main_agent_stop, permission_input_key, permission_read_target, record_read_action, running_background_agent_ids, running_ids, ReadAction};
use crate::permission::{build_read_scope, declared_roots, record_loud_read, resolve_permission_decision, Decision, ReadScope};
use crate::root_laws::{declares, lists};
use crate::run_laws::{all_texts, lemma_all_texts, lemma_texts};
use crate::text::{decimal, has_prefix, trimmed, views};
use crate::tracker::{text_option, RootTracker, TrackerView};
use crate::words::{lemma_answer_keys, lemma_request_names};
use vstd::prelude::*;

verus! {

/// A tool that only reads.
pub open spec fn reads(tool: Seq<char>) -> bool {
    tool == "Read"@ || tool == "Grep"@ || tool == "Glob"@
}

/// The path that a tool's input names, under the one key or the other.
pub open spec fn names_path(input: JsonView, path: Seq<char>) -> bool {
    ||| input.text_field("file_path"@) == Some(path)
    ||| input.field("file_path"@) is None && input.text_field("path"@) == Some(path)
}

/// The target is where the path leads: the path itself where it is absolute, else
/// the path below the working directory.
pub open spec fn leads_to(path: Seq<char>, cwd: Option<Seq<char>>, target: Seq<char>) -> bool {
    &&& absolute(path) ==> target == path
    &&& !absolute(path) && cwd is Some && cwd->0.len() > 0 ==> components(target) == components(
        cwd->0,
    ) + named(segments(path), false)
    &&& !absolute(path) && cwd is Some && cwd->0.len() == 0 ==> target == path
    &&& !absolute(path) && cwd is None ==> components(target) == components("."@) + named(
        segments(path),
        false,
    )
}

proof fn lemma_leads_to(path: Seq<char>, cwd: Option<Seq<char>>, target: Seq<char>)
    requires
        absolute(path) ==> target == path,
        !absolute(path) ==> target == joined(
            match cwd {
                Some(c) => c,
                None => "."@,
            },
            path,
        ),
    ensures
        leads_to(path, cwd, target),
{
    reveal_strlit(".");
    if !absolute(path) {
        match cwd {
            Some(c) => {
                if c.len() > 0 {
                    law_joined_paths_lie_below(c, path);
                } else {
                    assert(target =~= path);
                }
            },
            None => {
                law_joined_paths_lie_below("."@, path);
            },
        }
    }
}

/// A permission request for a read is for the path that its input names: an
/// absolute one as it is, a relative one below the working directory, whichever of
/// the reading tools asks. Where no reading tool asks or no path is named, there is
/// no read.
pub proof fn law_a_read_is_for_the_named_path(
    hp: &serde_json::Value,
    r: Option<(String, UnixPath)>,
    tool: Seq<char>,
    path: Seq<char>,
)
    requires
        call_ensures(permission_read_target, (hp,), r),
    ensures
        ({
            let j = json_view(*hp);
            let input = j.field("tool_input"@);
            &&& j.text_field("tool_name"@) == Some(tool) && reads(tool) && input is Some
                && names_path(input->0, path) ==> r is Some && (r->0).0@ == tool && leads_to(
                path,
                j.text_field("cwd"@),
                (r->0).1@,
            )
            &&& r is Some ==> {
                &&& j.text_field("tool_name"@) == Some((r->0).0@)
                &&& reads((r->0).0@)
                &&& input is Some
                &&& input->0.text_field("file_path"@) is Some || input->0.text_field("path"@)
                    is Some
            }
        }),
{
    let j = json_view(*hp);
    if j.text_field("tool_name"@) == Some(tool) && reads(tool) && j.field("tool_input"@) is Some
        && names_path(j.field("tool_input"@)->0, path) {
        lemma_leads_to(path, j.text_field("cwd"@), (r->0).1@);
    }
}

/// What a read is for does not depend on which of the reading tools asks.
pub proof fn law_every_reading_tool_reads_alike(
    a: &serde_json::Value,
    b: &serde_json::Value,
    r: Option<(String, UnixPath)>,
    s: Option<(String, UnixPath)>,
)
    requires
        call_ensures(permission_read_target, (a,), r),
        call_ensures(permission_read_target, (b,), s),
        json_view(*a).field("tool_input"@) == json_view(*b).field("tool_input"@),
        json_view(*a).text_field("cwd"@) == json_view(*b).text_field("cwd"@),
        json_view(*a).text_field("tool_name"@) matches Some(t) && reads(t),
        json_view(*b).text_field("tool_name"@) matches Some(t) && reads(t),
    ensures
        r is Some == s is Some,
        r is Some ==> (r->0).1@ == (s->0).1@,
{
}

/// The record of a read names the tool and the target of the read that the payload
/// forwards, who made it and where; what is no read is not recorded.
pub proof fn law_a_record_names_the_read(
    raw: &serde_json::Value,
    session: &str,
    r: Option<ReadAction>,
    hp: &serde_json::Value,
    target: Option<(String, UnixPath)>,
    cwd: Option<&str>,
)
    requires
        call_ensures(record_read_action, (raw, session), r),
        call_ensures(hook_cwd, (raw,), cwd),
        json_view(*raw).field("host_payload"@) == Some(json_view(*hp)),
        call_ensures(permission_read_target, (hp,), target),
    ensures
        r is Some == target is Some,
        r matches Some(a) ==> {
            &&& a.tool@ == (target->0).0@
            &&& a.path@ == (target->0).1@
            &&& a.session_id@ == session@
            &&& json_view(*raw).text_field("agent_id"@) is Some ==> Some(a.agent_id@) == json_view(
                *raw,
            ).text_field("agent_id"@)
            &&& json_view(*raw).text_field("agent_id"@) is None ==> a.agent_id@.len() == 0
            &&& cwd is Some ==> a.cwd@ == cwd->0@
            &&& cwd is None ==> a.cwd@.len() == 0
        },
{
}

/// A payload that forwards nothing records nothing.
pub proof fn law_nothing_forwarded_is_no_read(
    raw: &serde_json::Value,
    session: &str,
    r: Option<ReadAction>,
)
    requires
        call_ensures(record_read_action, (raw, session), r),
        json_view(*raw).field("host_payload"@) is None,
    ensures
        r is None,
{
}

/// The working directory of a request is its own where it names one, else that of
/// the host; it is never empty, and missing only where neither names one.
pub proof fn law_the_working_directory_is_the_populated_one(
    raw: &serde_json::Value,
    r: Option<&str>,
    own: Seq<char>,
    host: Seq<char>,
)
    requires
        call_ensures(hook_cwd, (raw,), r),
    ensures
        ({
            let j = json_view(*raw);
            let forwarded = j.field("host_payload"@);
            &&& r matches Some(c) ==> c@.len() > 0
            &&& j.text_field("cwd"@) == Some(own) && own.len() > 0 ==> r is Some && r->0@ == own
            &&& (j.text_field("cwd"@) is None || j.text_field("cwd"@) == Some(Seq::<char>::empty()))
                && forwarded is Some && forwarded->0.text_field("cwd"@) == Some(host) && host.len()
                > 0 ==> r is Some && r->0@ == host
            &&& r is None ==> {
                &&& j.text_field("cwd"@) matches Some(c) ==> c.len() == 0
                &&& forwarded matches Some(hp) ==> (hp.text_field("cwd"@) matches Some(c)
                    ==> c.len() == 0)
            }
        }),
{
}

/// The roots of a session are those of its workspace, in their order; where it names
/// no workspace, its working directory alone.
pub proof fn law_a_session_names_its_roots(
    raw: &serde_json::Value,
    r: Vec<String>,
    hp: JsonView,
    root: Seq<char>,
)
    requires
        call_ensures(extract_session_roots, (raw,), r),
        json_view(*raw).field("host_payload"@) == Some(hp),
    ensures
        hp.field("workspacePaths"@) matches Some(JsonView::Array(items)) ==> {
            &&& views(r@).contains(root) == items.contains(JsonView::Text(root))
            &&& all_texts(items) ==> r.len() == items.len() && forall|i: int|
                0 <= i < items.len() ==> (#[trigger] items[i]) == JsonView::Text(views(r@)[i])
        },
        !(hp.field("workspacePaths"@) matches Some(JsonView::Array(_))) ==> {
            &&& hp.text_field("cwd"@) == Some(root) ==> views(r@) == seq![root]
            &&& hp.text_field("cwd"@) is None ==> r.len() == 0
        },
{
    assert(views(r@).len() == r.len());
    if let Some(JsonView::Array(items)) = hp.field("workspacePaths"@) {
        lemma_texts(items, root);
        if all_texts(items) {
            lemma_all_texts(items);
        }
    }
}

/// The main agent stops at a top-level stop that names no agent, and at no other:
/// the stop of a subagent is never its own.
pub proof fn law_a_named_agent_is_not_the_main_one(raw: &serde_json::Value, r: bool, hp: JsonView)
    requires
        call_ensures(is_main_agent_stop, (raw,), r),
        json_view(*raw).field("host_payload"@) == Some(hp),
    ensures
        hp.text_field("hook_event_name"@) != Some("Stop"@) ==> !r,
        json_view(*raw).text_field("agent_id"@) matches Some(id) && id.len() > 0 ==> !r,
        hp.text_field("hook_event_name"@) == Some("Stop"@) && (json_view(*raw).text_field(
            "agent_id"@,
        ) matches Some(id) ==> id.len() == 0) ==> r,
{
}

/// The agents that run are those whose task is reported as running, by the host where
/// it reports tasks, else by the request itself.
pub proof fn law_running_agents_are_those_reported(
    raw: &serde_json::Value,
    r: Vec<String>,
    tasks: Seq<JsonView>,
    id: Seq<char>,
)
    requires
        call_ensures(running_background_agent_ids, (raw,), r),
        ({
            let j = json_view(*raw);
            let hp = j.field("host_payload"@);
            ||| hp is Some && hp->0.field("background_tasks"@) == Some(JsonView::Array(tasks))
            ||| (hp is None || hp->0.field("background_tasks"@) is None) && j.field(
                "background_tasks"@,
            ) == Some(JsonView::Array(tasks))
        }),
    ensures
        views(r@).contains(id) == exists|i: int|
            0 <= i < tasks.len() && (#[trigger] tasks[i]).text_field("status"@) == Some("running"@)
                && tasks[i].text_field("id"@) == Some(id),
{
    lemma_running(tasks, id);
}

proof fn lemma_running(tasks: Seq<JsonView>, id: Seq<char>)
    ensures
        running_ids(tasks).contains(id) == exists|i: int|
            0 <= i < tasks.len() && (#[trigger] tasks[i]).text_field("status"@) == Some("running"@)
                && tasks[i].text_field("id"@) == Some(id),
    decreases tasks.len(),
{
    if tasks.len() > 0 {
        let front = tasks.drop_last();
        let before = running_ids(front);
        lemma_running(front, id);
        if before.contains(id) {
            let i = choose|i: int|
                0 <= i < front.len() && (#[trigger] front[i]).text_field("status"@) == Some(
                    "running"@,
                ) && front[i].text_field("id"@) == Some(id);
            assert(tasks[i].text_field("id"@) == Some(id));
            let n = choose|n: int| 0 <= n < before.len() && before[n] == id;
            assert(running_ids(tasks)[n] == id);
        }
        let last = tasks.last();
        if last.text_field("status"@) == Some("running"@) && last.text_field("id"@) == Some(id) {
            assert(tasks[tasks.len() - 1].text_field("id"@) == Some(id));
            assert(running_ids(tasks)[before.len() as int] == id);
        }
        if running_ids(tasks).contains(id) && !before.contains(id) {
            let n = choose|n: int| 0 <= n < running_ids(tasks).len() && running_ids(tasks)[n] == id;
            if n < before.len() {
                assert(before[n] == id);
            }
        }
        if exists|i: int|
            0 <= i < tasks.len() && (#[trigger] tasks[i]).text_field("status"@) == Some("running"@)
                && tasks[i].text_field("id"@) == Some(id) {
            let i = choose|i: int|
                0 <= i < tasks.len() && (#[trigger] tasks[i]).text_field("status"@) == Some(
                    "running"@,
                ) && tasks[i].text_field("id"@) == Some(id);
            if i < front.len() {
                assert(front[i].text_field("id"@) == Some(id));
            }
        }
    }
}

/// A request is routed by the name and the session that it gives, and counts as
/// activity in its working directory; only questions, a shutdown and the removal of
/// a worktree do not.
pub proof fn law_a_request_is_routed_by_what_it_says(
    raw: &serde_json::Value,
    r: HookCall,
    name: &str,
    method: HookMethod,
    cwd: Option<&str>,
    text: Seq<char>,
)
    requires
        call_ensures(read_call, (raw,), r),
        name@ == r.name@,
        call_ensures(classify_method, (name,), method),
        call_ensures(hook_cwd, (raw,), cwd),
    ensures
        json_view(*raw).text_field("method"@) == Some(text) ==> r.name@ == text,
        json_view(*raw).text_field("session_id"@) == Some(text) ==> r.session_id@ == text,
        json_view(*raw).text_field("session_id"@) is None ==> r.session_id@ == "default"@,
        r.method == method,
        method is Shutdown || method is Version || method is RootsLs || method is WorktreeLs
            || method is WorktreeRm ==> r.activity is None,
        !(method is Shutdown || method is Version || method is RootsLs || method is WorktreeLs
            || method is WorktreeRm) ==> text_option(r.activity) == str_option(cwd),
{
}

/// No two names stand for the same request, but for the hooks of sessions.
pub proof fn law_names_of_requests_differ(a: &str, b: &str, r: HookMethod)
    requires
        call_ensures(classify_method, (a,), r),
        call_ensures(classify_method, (b,), r),
        !(r is Session),
    ensures
        a@ == b@,
{
}

/// Without sessions a request to shut down is the only one that shuts the daemon
/// down, and tells how many clients are connected; a request for the version is told
/// it; everything else, readable or not, is allowed by an empty line.
pub proof fn law_without_sessions_everything_is_allowed(
    line: &str,
    connections: usize,
    version: &str,
    r: Passthrough,
    method: Seq<char>,
)
    requires
        call_ensures(handle_hook_connection, (line, connections, version), r),
    ensures
        json_parse(trimmed(line@)) is Err ==> passes(r, "\n"@),
        json_parse(trimmed(line@)) matches Ok(j) ==> (j.text_field("method"@) == Some(method) ==> {
            &&& (r is Shutdown) == (method == "tool/shutdown"@)
            &&& method == "tool/shutdown"@ ==> r->Shutdown_0@ == json_text(
                shutdown_object(connections as nat),
            ) + "\n"@
            &&& method == "tool/version"@ ==> passes(
                r,
                json_text(version_object(version@)) + "\n"@,
            )
            &&& method != "tool/shutdown"@ && method != "tool/version"@ ==> passes(r, "\n"@)
        }),
{
    reveal_strlit("tool/shutdown");
    reveal_strlit("tool/version");
    assert("tool/shutdown"@.len() == 13);
    assert("tool/version"@.len() == 12);
    lemma_answer_keys();
    assert(shutdown_object(connections as nat)->Object_0 =~= map![
        "status"@ => JsonView::Text("ok"@),
        "connections"@ => JsonView::Number(decimal(connections as nat)),
    ]);
    assert(version_object(version@)->Object_0 =~= map!["version"@ => JsonView::Text(version@)]);
}

/// The connection is answered by this line, and the daemon goes on.
pub open spec fn passes(r: Passthrough, line: Seq<char>) -> bool {
    r matches Passthrough::Answer(a) && a@ == line
}

/// The object that counts the clients.
pub open spec fn shutdown_object(connections: nat) -> JsonView {
    JsonView::Object(
        Map::new(
            |k: Seq<char>| k == "status"@ || k == "connections"@,
            |k: Seq<char>|
                if k == "status"@ {
                    JsonView::Text("ok"@)
                } else {
                    JsonView::Number(decimal(connections))
                },
        ),
    )
}

/// The object that tells the version.
pub open spec fn version_object(version: Seq<char>) -> JsonView {
    JsonView::Object(
        Map::new(|k: Seq<char>| k == "version"@, |k: Seq<char>| JsonView::Text(version)),
    )
}

/// The desk's decision on a read stands as it is; of a read below an always-read
/// prefix, the first in a session opens the prefix and no later one does, and the
/// ledger then holds that prefix in that session and nothing else new. What is no
/// read is not answered.
pub proof fn law_a_decision_stands(
    hp: &serde_json::Value,
    desk: Decision,
    promoted: &mut PromotedPrefixes,
    session: &str,
    r: Option<(Decision, String)>,
    target: Option<(String, UnixPath)>,
    pair: (Seq<char>, Seq<char>),
)
    requires
        old(promoted).wf(),
        call_ensures(resolve_permission_decision, (hp, desk, promoted, session), r),
        call_ensures(permission_read_target, (hp,), target),
    ensures
        r is Some == target is Some,
        r is Some ==> (r->0).1@ == (target->0).0@,
        r is Some && !(desk is AlwaysReadAllow) ==> (r->0).0 == desk && final(promoted)@ == old(
            promoted,
        )@,
        r is Some && desk is AlwaysReadAllow ==> {
            let first = !old(promoted)@.contains((session@, desk->prefix@));
            &&& (r->0).0 == Decision::AlwaysReadAllow {
                realpath: desk->AlwaysReadAllow_realpath,
                prefix: desk->prefix,
                promote: first,
            }
            &&& final(promoted)@.contains(pair) == (old(promoted)@.contains(pair) || pair == (
                session@,
                desk->prefix@,
            ))
        },
        r is None ==> final(promoted)@ == old(promoted)@,
{
}

/// Only a read out of scope is recorded loudly, with the path that was read.
pub proof fn law_only_reads_out_of_scope_are_loud(decision: &Decision, r: Option<&UnixPath>)
    requires
        call_ensures(record_loud_read, (decision,), r),
    ensures
        r is Some == decision is LoudAllow,
        r is Some ==> *r->0 == decision->LoudAllow_realpath,
{
}

/// A root counts as declared exactly where somebody other than activity declares it.
pub proof fn law_declared_roots_are_not_activity_alone(
    tracker: &RootTracker,
    r: Vec<UnixPath>,
    root: PathKey,
)
    requires
        tracker.wf(),
        call_ensures(declared_roots, (tracker,), r),
    ensures
        lists(r@, root) == exists|k: Seq<char>|
            !has_prefix(k, "ephemeral:"@) && #[trigger] declares(tracker@, k, root),
{
    lemma_scope(tracker@, r@, root);
}

proof fn lemma_scope(t: TrackerView, r: Seq<UnixPath>, root: PathKey)
    requires
        keys(r).to_set() == crate::permission::declared_scope(t),
    ensures
        lists(r, root) == exists|k: Seq<char>|
            !has_prefix(k, "ephemeral:"@) && #[trigger] declares(t, k, root),
{
    if lists(r, root) {
        let i = choose|i: int| 0 <= i < r.len() && (#[trigger] r[i]).key() == root;
        assert(keys(r)[i] == root);
        assert(keys(r).to_set().contains(root));
        let k = choose|k: Seq<char>| #[trigger]
            t.holders(root).contains(k) && !has_prefix(
                k,
                crate::contributor::EPHEMERAL_CONTRIBUTOR_PREFIX@,
            );
        assert(declares(t, k, root));
    }
    if exists|k: Seq<char>| !has_prefix(k, "ephemeral:"@) && #[trigger] declares(t, k, root) {
        let k = choose|k: Seq<char>|
            !has_prefix(k, "ephemeral:"@) && #[trigger] declares(t, k, root);
        assert(t.holders(root).contains(k));
        assert(t.union().contains(root)) by {
            assert(t.contributors.dom().contains(k) && t.contributors[k].dom().contains(root));
        }
        assert(keys(r).to_set().contains(root));
        let i = choose|i: int| 0 <= i < keys(r).len() && keys(r)[i] == root;
        assert(r[i].key() == root);
    }
}

/// The quiet scope is that of the declared roots, or what companions made of them,
/// and the agents' worktrees; a root that activity alone holds gives no scope. The
/// always-read prefixes are those that were given.
pub proof fn law_the_scope_is_what_is_declared(
    tracker: Option<&RootTracker>,
    expanded: Option<Vec<UnixPath>>,
    agents: UnixPath,
    always: Vec<UnixPath>,
    r: ReadScope,
    root: PathKey,
)
    requires
        tracker is Some ==> tracker->0.wf(),
        call_ensures(build_read_scope, (tracker, expanded, agents, always), r),
    ensures
        r.always_read == always,
        expanded matches Some(e) ==> r.prefixes@ == e@.push(agents),
        expanded is None && tracker is Some ==> lists(r.prefixes@, root) == (root == agents.key()
            || exists|k: Seq<char>|
            !has_prefix(k, "ephemeral:"@) && #[trigger] declares(tracker->0@, k, root)),
        expanded is None && tracker is None ==> r.prefixes@ == seq![agents],
{
    let v = r.prefixes@;
    assert(v =~= v.drop_last().push(v.last()));
    if expanded is None && tracker is None {
        assert(v =~= seq![agents]);
    }
    if expanded is None && tracker is Some {
        let front = v.drop_last();
        lemma_scope(tracker->0@, front, root);
        if lists(front, root) {
            let i = choose|i: int| 0 <= i < front.len() && (#[trigger] front[i]).key() == root;
            assert(v[i].key() == root);
        }
        assert(v[v.len() - 1].key() == agents.key());
        if lists(v, root) {
            let i = choose|i: int| 0 <= i < v.len() && (#[trigger] v[i]).key() == root;
            if i < front.len() {
                assert(front[i].key() == root);
            }
        }
    }
}

/// A decision pins the path of a read under the key that the tool reads it from.
pub proof fn law_paths_are_pinned_where_they_are_read(tool: &str, r: &'static str)
    requires
        call_ensures(permission_input_key, (tool,), r),
    ensures
        r@ == "file_path"@ || r@ == "path"@,
        (r@ == "path"@) == (tool@ == "Grep"@ || tool@ == "Glob"@),
{
    reveal_strlit("file_path");
    reveal_strlit("path");
    assert("file_path"@.len() == 9);
    assert("path"@.len() == 4);
}

/// Every name stands for its own request, and every other name for a hook of a
/// session.
pub proof fn law_a_name_stands_for_its_request(name: &str, r: HookMethod)
    requires
        call_ensures(classify_method, (name,), r),
    ensures
        (r is Shutdown) == (name@ == "tool/shutdown"@),
        (r is Version) == (name@ == "tool/version"@),
        (r is RootsLs) == (name@ == "tool/roots-ls"@),
        (r is WorktreeLs) == (name@ == "tool/worktree-ls"@),
        (r is WorktreeRm) == (name@ == "tool/worktree-rm"@),
        (r is FirstSighting) == (name@ == "pre-invocation/first-sighting"@),
        (r is SessionEnd) == (name@ == "session-end/cleanup"@),
        (r is WorktreeCreate) == (name@ == "worktree-create/log-payload"@),
        (r is SubagentStart) == (name@ == "subagent-start/mount-worktree"@),
        (r is WorktreeRemove) == (name@ == "worktree-remove/unmount-worktree"@),
        (r is PermissionRequest) == (name@ == "permission-request/blocked"@),
        (r is EditingStart) == (name@ == "tool/editing-start"@),
        (r is Hitstream) == (name@ == "tool/hitstream"@),
        (r is Diagnose) == (name@ == "tool/editing-stop"@),
        (r is ClaimStage) == (name@ == "pre-tool/claim"@),
        (r is ClaimTake) == (name@ == "tool/claim"@),
        (r is RootsAdd) == (name@ == "tool/roots-add"@),
        (r is RootsRm) == (name@ == "tool/roots-rm"@),
{
    lemma_request_names();
}

} // verus!
