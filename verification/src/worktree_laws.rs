//! What is promised about worktrees: who is reminded of them, when they go, and what
//! goes with them.

use crate::hook::{HookCall, HookState};
use crate::json::{json_view, str_option, JsonView};
use crate::mounts::{WorktreeMounts, WorktreeMountsView};
use crate::path::{components, keys, PathKey, UnixPath};
use crate::payload::running_background_agent_ids;
use crate::registry::{RegistryView, WorktreeMeta, WorktreeRegistry};
use crate::root_laws::{keeps_ledgers, keeps_sessions, lists};
use crate::text::{decimal, join_lines, views};
use crate::words::{lemma_answer_keys, lemma_row_keys, lemma_root_states, lemma_status_words};
use crate::worktree::{linger_message, lingering_worktree_nag, merged_message, merged_worktree_nudge, names_all, stop_owns_worktree, worktree_disposed, worktree_ls_row, worktree_owner_label, worktree_rm_removal, worktree_rm_request, worktree_rm_response, worktree_to_dispose, Disposition, Removal, RemovalRequest, RowFacts};
use vstd::prelude::*;

verus! {

/// The text holds `part`.
pub open spec fn holds(text: Seq<char>, part: Seq<char>) -> bool {
    exists|before: Seq<char>, after: Seq<char>| text == #[trigger] (before + part + after)
}

proof fn lemma_holds_more(text: Seq<char>, part: Seq<char>, head: Seq<char>, tail: Seq<char>)
    requires
        holds(text, part),
    ensures
        holds(head + text + tail, part),
{
    let (before, after) = choose|before: Seq<char>, after: Seq<char>|
        text == #[trigger] (before + part + after);
    assert(head + text + tail =~= (head + before) + part + (after + tail));
}

pub proof fn lemma_lines_hold(lines: Seq<Seq<char>>, i: int)
    requires
        0 <= i < lines.len(),
    ensures
        holds(join_lines(lines), lines[i]),
    decreases lines.len(),
{
    let none = Seq::<char>::empty();
    if lines.len() == 1 {
        assert(lines[0] =~= none + lines[0] + none);
    } else if i == lines.len() - 1 {
        let head = join_lines(lines.drop_last()) + "\n"@;
        assert(join_lines(lines) =~= head + lines[i] + none);
    } else {
        lemma_lines_hold(lines.drop_last(), i);
        lemma_holds_more(join_lines(lines.drop_last()), lines[i], none, "\n"@ + lines.last());
        assert(join_lines(lines) =~= none + join_lines(lines.drop_last()) + ("\n"@
            + lines.last()));
    }
}

proof fn lemma_list_holds(paths: Seq<Seq<char>>, i: int)
    requires
        0 <= i < paths.len(),
    ensures
        holds(crate::worktree::indented(paths), paths[i]),
{
    let lines = paths.map_values(|p: Seq<char>| "  "@ + p);
    lemma_lines_hold(lines, i);
    let none = Seq::<char>::empty();
    let list = join_lines(lines);
    let (before, after) = choose|before: Seq<char>, after: Seq<char>|
        list == #[trigger] (before + lines[i] + after);
    assert(list =~= (before + "  "@) + paths[i] + after);
}

/// The agent of a worktree is among those that run, by its id or by its name.
pub open spec fn agent_runs(meta: WorktreeMeta, running: Seq<Seq<char>>) -> bool {
    let id = if meta.agent_id is Some {
        meta.agent_id->0@
    } else {
        meta.name@
    };
    running.contains(id) || running.contains(meta.name@) || running.contains("agent-"@ + id)
}

/// Some mount stands at the path.
pub open spec fn mounted_at(m: WorktreeMountsView, path: PathKey) -> bool {
    exists|k: Seq<char>| #[trigger] m.dom().contains(k) && components(m[k].root) == path
}

/// The worktree is left over: the session made it, it is there, nothing mounts it and
/// its agent does not run.
pub open spec fn left_over(
    v: RegistryView,
    session: Seq<char>,
    mounts: WorktreeMountsView,
    running: Seq<Seq<char>>,
    present: Seq<UnixPath>,
    worktree: PathKey,
) -> bool {
    &&& v.metas.dom().contains(worktree)
    &&& v.metas[worktree].session_id@ == session
    &&& lists(present, worktree)
    &&& !mounted_at(mounts, worktree)
    &&& !agent_runs(v.metas[worktree], running)
}

pub proof fn lemma_lists_key(v: Seq<UnixPath>, path: PathKey)
    ensures
        lists(v, path) == keys(v).to_set().contains(path),
        lists(v, path) == keys(v).contains(path),
{
    if lists(v, path) {
        let i = choose|i: int| 0 <= i < v.len() && (#[trigger] v[i]).key() == path;
        assert(keys(v)[i] == path);
    }
    if keys(v).contains(path) {
        let i = choose|i: int| 0 <= i < keys(v).len() && keys(v)[i] == path;
        assert(v[i].key() == path);
    }
}

/// A session is reminded of every worktree that it left over and was not reminded of
/// before, each named as it was recorded, and of no other; it is then reminded of them
/// no more. Where there is none it is not held up.
pub proof fn law_left_over_worktrees_are_named_once(
    registry: &mut WorktreeRegistry,
    mounts: &WorktreeMounts,
    session: &str,
    raw: &serde_json::Value,
    present: &[UnixPath],
    r: Option<String>,
    running: Vec<String>,
    worktree: PathKey,
)
    requires
        old(registry).wf(),
        mounts.wf(),
        call_ensures(lingering_worktree_nag, (registry, mounts, session, raw, present), r),
        call_ensures(running_background_agent_ids, (raw,), running),
    ensures
        ({
            let v = old(registry)@;
            let due = |k: PathKey|
                left_over(v, session@, mounts@, views(running@), present@, k)
                    && !v.nagged.contains(k);
            &&& due(worktree) ==> r is Some && holds(r->0@, v.metas[worktree].worktree@)
            &&& r is Some ==> exists|k: PathKey| #[trigger] due(k)
            &&& final(registry)@.nagged.contains(worktree) == (v.nagged.contains(worktree) || due(
                worktree,
            ))
            &&& final(registry)@.metas == v.metas
            &&& final(registry)@.surfaced == v.surfaced
        }),
{
    let v = old(registry)@;
    let set = crate::worktree::lingering(
        v,
        session@,
        crate::worktree::mounted_keys(mounts@),
        crate::worktree::reported_running(json_view(*raw)),
        keys(present@).to_set(),
    );
    let due = |k: PathKey|
        left_over(v, session@, mounts@, views(running@), present@, k) && !v.nagged.contains(k);
    assert forall|k: PathKey| #[trigger] set.contains(k) == due(k) by {
        lemma_lists_key(present@, k);
    }
    if let Some(m) = r {
        let paths = choose|paths: Seq<Seq<char>>| #[trigger]
            names_all(paths, set, v.metas) && m@ == linger_message(paths);
        if exists|k: PathKey| set.contains(k) {
            let k = choose|k: PathKey| set.contains(k);
            assert(due(k));
        } else {
            assert(set =~= Set::empty());
        }
        if due(worktree) {
            assert(set.contains(worktree));
            lemma_linger_names(paths, set, v, worktree);
        }
    } else {
        assert(!set.contains(worktree));
    }
}

proof fn lemma_named(
    paths: Seq<Seq<char>>,
    set: Set<PathKey>,
    v: RegistryView,
    worktree: PathKey,
) -> (i: int)
    requires
        names_all(paths, set, v.metas),
        set.contains(worktree),
    ensures
        0 <= i < paths.len(),
        paths[i] == v.metas[worktree].worktree@,
{
    let ks = paths.map_values(|p: Seq<char>| components(p));
    assert(ks.to_set().contains(worktree));
    let i = choose|i: int| 0 <= i < ks.len() && ks[i] == worktree;
    assert(components(paths[i]) == worktree);
    i
}

/// The reminder holds the path of every worktree that it is about.
proof fn lemma_linger_names(
    paths: Seq<Seq<char>>,
    set: Set<PathKey>,
    v: RegistryView,
    worktree: PathKey,
)
    requires
        names_all(paths, set, v.metas),
        set.contains(worktree),
    ensures
        holds(linger_message(paths), v.metas[worktree].worktree@),
{
    let i = lemma_named(paths, set, v, worktree);
    lemma_list_holds(paths, i);
    let list = crate::worktree::indented(paths);
    let head = decimal(paths.len()) + " agent "@ + (if paths.len() == 1 {
        "worktree"@
    } else {
        "worktrees"@
    }) + " linger (root unmounted, owner not running):\n"@;
    let tail =
        "\nLand their work or `catenary worktree rm <path>` each. (Nagged once per worktree.)"@;
    lemma_holds_more(list, paths[i], head, tail);
    assert(linger_message(paths) =~= head + list + tail);
}

/// The advice holds the path of every worktree that it is about.
pub proof fn lemma_merged_names(
    paths: Seq<Seq<char>>,
    set: Set<PathKey>,
    v: RegistryView,
    worktree: PathKey,
)
    requires
        names_all(paths, set, v.metas),
        set.contains(worktree),
    ensures
        holds(merged_message(paths), v.metas[worktree].worktree@),
{
    let i = lemma_named(paths, set, v, worktree);
    lemma_list_holds(paths, i);
    let list = crate::worktree::indented(paths);
    let none = Seq::<char>::empty();
    let head = if paths.len() == 1 {
        "1 worktree is already merged into main; `catenary worktree rm` it:\n"@
    } else {
        decimal(paths.len())
            + " worktrees are already merged into main; `catenary worktree rm` them:\n"@
    };
    lemma_holds_more(list, paths[i], head, none);
    assert(merged_message(paths) =~= head + list + none);
}

/// A session is advised about every worktree of its own that is there, merged and not
/// told of before, each named as it was recorded, and about no other; it is then told
/// of them no more.
pub proof fn law_merged_worktrees_are_named_once(
    registry: &mut WorktreeRegistry,
    session: &str,
    present: &[UnixPath],
    merged: &[UnixPath],
    r: Option<String>,
    worktree: PathKey,
)
    requires
        old(registry).wf(),
        call_ensures(merged_worktree_nudge, (registry, session, present, merged), r),
    ensures
        ({
            let v = old(registry)@;
            let due = |k: PathKey|
                v.metas.dom().contains(k) && v.metas[k].session_id@ == session@ && lists(
                    present@,
                    k,
                ) && lists(merged@, k) && !v.nagged.contains(k);
            &&& due(worktree) ==> r is Some && holds(r->0@, v.metas[worktree].worktree@)
            &&& r is Some ==> exists|k: PathKey| #[trigger] due(k)
            &&& final(registry)@.nagged.contains(worktree) == (v.nagged.contains(worktree) || due(
                worktree,
            ))
            &&& final(registry)@.metas == v.metas
            &&& final(registry)@.surfaced == v.surfaced
        }),
{
    let v = old(registry)@;
    let set = crate::worktree::merged_lingering(
        v,
        session@,
        keys(merged@).to_set(),
        keys(present@).to_set(),
    );
    let due = |k: PathKey|
        v.metas.dom().contains(k) && v.metas[k].session_id@ == session@ && lists(present@, k)
            && lists(merged@, k) && !v.nagged.contains(k);
    assert forall|k: PathKey| #[trigger] set.contains(k) == due(k) by {
        lemma_lists_key(present@, k);
        lemma_lists_key(merged@, k);
    }
    if let Some(m) = r {
        let paths = choose|paths: Seq<Seq<char>>| #[trigger]
            names_all(paths, set, v.metas) && m@ == merged_message(paths);
        if exists|k: PathKey| set.contains(k) {
            let k = choose|k: PathKey| set.contains(k);
            assert(due(k));
        } else {
            assert(set =~= Set::empty());
        }
        if due(worktree) {
            assert(set.contains(worktree));
            lemma_merged_names(paths, set, v, worktree);
        }
    } else {
        assert(!set.contains(worktree));
    }
}

/// Only a first top-level stop that nothing else holds up is held up for left-over
/// worktrees, and then by what there is to be reminded of; any other request is left
/// alone.
pub proof fn law_only_a_first_stop_is_held_up(
    state: &mut HookState,
    call: &HookCall,
    raw: &serde_json::Value,
    result: bool,
    present: &[UnixPath],
    r: Option<String>,
    hp: JsonView,
    running: Vec<String>,
    worktree: PathKey,
)
    requires
        old(state).wf(),
        call_ensures(HookState::stop_nag, (state, call, raw, result, present), r),
        call_ensures(running_background_agent_ids, (raw,), running),
        json_view(*raw).field("host_payload"@) == Some(hp),
    ensures
        ({
            let v = old(state)@;
            let w = final(state)@;
            let asked = call.name@ == "post-agent/require-release"@ && hp.text_field(
                "hook_event_name"@,
            ) == Some("Stop"@) && json_view(*raw).field("stop_hook_active"@) != Some(
                JsonView::Bool(true),
            ) && !result;
            let due = left_over(
                v.registry,
                call.session_id@,
                v.worktrees,
                views(running@),
                present@,
                worktree,
            ) && !v.registry.nagged.contains(worktree);
            &&& !asked ==> r is None && w == v
            &&& asked && due ==> r is Some && holds(r->0@, v.registry.metas[worktree].worktree@)
                && w.registry.nagged.contains(worktree)
            &&& asked && r is None ==> !due && w.registry.nagged.contains(worktree)
                == v.registry.nagged.contains(worktree)
            &&& w.tracker == v.tracker
            &&& w.ephemeral == v.ephemeral
            &&& w.worktrees == v.worktrees
            &&& keeps_sessions(v, w)
            &&& keeps_ledgers(v, w)
            &&& w.registry.metas == v.registry.metas
        }),
{
    lemma_lists_key(present@, worktree);
    let v = old(state)@;
    let set = crate::hook::lingering_at(
        v,
        call.session_id@,
        json_view(*raw),
        keys(present@).to_set(),
    );
    if let Some(f) = json_view(*raw).field("stop_hook_active"@) {
        assert((f.boolean() == Some(true)) == (f == JsonView::Bool(true)));
    }
    assert(set.contains(worktree) == (left_over(
        v.registry,
        call.session_id@,
        v.worktrees,
        views(running@),
        present@,
        worktree,
    ) && !v.registry.nagged.contains(worktree)));
    if r is Some && set.contains(worktree) {
        let paths = choose|paths: Seq<Seq<char>>| #[trigger]
            names_all(paths, set, v.registry.metas) && r->0@ == linger_message(paths);
        lemma_linger_names(paths, set, v.registry, worktree);
    }
}

/// Only the main agent's stop draws the advice about merged worktrees, and it takes
/// nothing but the mark that the advice was given.
pub proof fn law_only_the_main_agent_is_advised(
    state: &mut HookState,
    call: &HookCall,
    raw: &serde_json::Value,
    present: &[UnixPath],
    merged: &[UnixPath],
    r: Option<String>,
    main: bool,
    worktree: PathKey,
)
    requires
        old(state).wf(),
        call_ensures(HookState::merged_nudge, (state, call, raw, present, merged), r),
        call_ensures(crate::payload::is_main_agent_stop, (raw,), main),
    ensures
        ({
            let v = old(state)@;
            let w = final(state)@;
            let asked = call.name@ == "post-agent/require-release"@ && main;
            let due = v.registry.metas.dom().contains(worktree)
                && v.registry.metas[worktree].session_id@ == call.session_id@ && lists(
                present@,
                worktree,
            ) && lists(merged@, worktree) && !v.registry.nagged.contains(worktree);
            &&& !asked ==> r is None && w == v
            &&& asked && due ==> r is Some && holds(r->0@, v.registry.metas[worktree].worktree@)
                && w.registry.nagged.contains(worktree)
            &&& asked && !due ==> w.registry.nagged.contains(worktree)
                == v.registry.nagged.contains(worktree)
            &&& w.tracker == v.tracker
            &&& w.ephemeral == v.ephemeral
            &&& w.worktrees == v.worktrees
            &&& keeps_sessions(v, w)
            &&& keeps_ledgers(v, w)
            &&& w.registry.metas == v.registry.metas
        }),
{
    lemma_lists_key(present@, worktree);
    lemma_lists_key(merged@, worktree);
    let set = crate::worktree::merged_lingering(
        old(state)@.registry,
        call.session_id@,
        keys(merged@).to_set(),
        keys(present@).to_set(),
    );
    let due = old(state)@.registry.metas.dom().contains(worktree) && old(
        state,
    )@.registry.metas[worktree].session_id@ == call.session_id@ && lists(present@, worktree)
        && lists(merged@, worktree) && !old(state)@.registry.nagged.contains(worktree);
    assert(set.contains(worktree) == due);
    if r is Some && due {
        let paths = choose|paths: Seq<Seq<char>>| #[trigger]
            names_all(paths, set, old(state)@.registry.metas) && r->0@ == merged_message(paths);
        lemma_merged_names(paths, set, old(state)@.registry, worktree);
    }
}

/// An agent that stops disposes of no worktree but its own, the one whose directory
/// bears its id; its record is the registered one, else the one beside it.
pub proof fn law_an_agent_disposes_of_its_own_worktree(
    registry: &WorktreeRegistry,
    sidecar: Option<WorktreeMeta>,
    stopping: Option<&str>,
    worktree: &UnixPath,
    r: Option<WorktreeMeta>,
    owner: String,
    owns: bool,
    agent: &str,
)
    requires
        registry.wf(),
        call_ensures(worktree_to_dispose, (registry, sidecar, stopping, worktree), r),
        call_ensures(worktree_owner_label, (worktree,), owner),
        call_ensures(stop_owns_worktree, (agent, worktree), owns),
    ensures
        owns == (agent@.len() > 0 && agent@ == owner@),
        stopping is Some && (stopping->0@.len() == 0 || stopping->0@ != owner@) ==> r is None,
        (stopping is None || stopping->0@.len() > 0 && stopping->0@ == owner@) ==> {
            &&& registry@.metas.dom().contains(worktree.key()) ==> r == Some(
                registry@.metas[worktree.key()],
            )
            &&& !registry@.metas.dom().contains(worktree.key()) ==> r == sidecar
        },
{
}

/// A worktree that is gone is forgotten, and only it; one that is kept stays on record.
/// That it is kept is told once, and not where the host asked for the removal.
pub proof fn law_only_what_is_gone_is_forgotten(
    registry: &mut WorktreeRegistry,
    worktree: &UnixPath,
    disposition: &Disposition,
    host: bool,
    r: Option<String>,
    other: PathKey,
)
    requires
        old(registry).wf(),
        call_ensures(worktree_disposed, (registry, worktree, disposition, host), r),
    ensures
        ({
            let v = old(registry)@;
            let w = final(registry)@;
            let gone = disposition is Disposed || disposition is Remnant;
            let told = disposition is KeptDirty && !host;
            &&& w.metas.dom().contains(other) == (v.metas.dom().contains(other) && !(gone && other
                == worktree.key()))
            &&& w.metas.dom().contains(other) ==> w.metas[other] == v.metas[other]
            &&& w.nagged == v.nagged
            &&& w.surfaced.contains(other) == (v.surfaced.contains(other) || told && other
                == worktree.key())
            &&& r is Some == (told && !v.surfaced.contains(worktree.key()))
            &&& r is Some ==> holds(r->0@, worktree@)
        }),
{
    if r is Some {
        let head = "subagent `"@ + crate::worktree::owner_label(worktree@)
            + "` left a dirty worktree at `"@;
        let tail = "` (kept; land its work or `catenary worktree rm` it)"@;
        assert(r->0@ == head + worktree@ + tail);
    }
}

/// A request for a removal names the path it gives, forced only where it says so;
/// without a path it is an error.
pub proof fn law_a_removal_is_forced_on_request_alone(
    raw: &serde_json::Value,
    r: Result<RemovalRequest, serde_json::Value>,
    path: Seq<char>,
)
    requires
        call_ensures(worktree_rm_request, (raw,), r),
    ensures
        json_view(*raw).text_field("path"@) == Some(path) ==> r is Ok && r->Ok_0.path@ == path
            && r->Ok_0.force == (json_view(*raw).field("force"@) == Some(JsonView::Bool(true))),
        json_view(*raw).text_field("path"@) is None ==> r is Err && json_view(
            r->Err_0,
        ).text_field("status"@) == Some("error"@),
{
    lemma_answer_keys();
    if let Some(f) = json_view(*raw).field("force"@) {
        assert((f.boolean() == Some(true)) == (f == JsonView::Bool(true)));
    }
}

/// A worktree without a record is never removed; one that a person made is removed
/// only where nothing would be lost, unless it is forced.
pub proof fn law_a_feature_worktree_is_guarded(
    meta: Option<&WorktreeMeta>,
    worktree: &UnixPath,
    force: bool,
    r: Result<Removal, serde_json::Value>,
)
    requires
        call_ensures(worktree_rm_removal, (meta, worktree, force), r),
    ensures
        r is Err == meta is None,
        r is Err ==> json_view(r->Err_0).text_field("status"@) == Some("not_ours"@),
        meta matches Some(m) ==> (r->Ok_0 is Guarded) == (m.class@ == "feat"@ && !force),
        force && meta is Some ==> r->Ok_0 is Asserted,
{
    lemma_answer_keys();
}

/// The answer to a removal says what became of the worktree: it is removed exactly
/// where it is gone, and then named with what was discarded; where it stays, the
/// reason is told.
pub proof fn law_a_removal_is_answered_truly(
    disposition: &Disposition,
    worktree: &UnixPath,
    discarded: Option<&str>,
    r: serde_json::Value,
)
    requires
        call_ensures(worktree_rm_response, (disposition, worktree, discarded), r),
    ensures
        ({
            let j = json_view(r);
            let gone = disposition is Disposed || disposition is Remnant;
            &&& j.field("removed"@) == Some(JsonView::Bool(gone))
            &&& (j.text_field("status"@) == Some("ok"@)) == gone
            &&& gone ==> j.text_field("path"@) == Some(worktree@)
            &&& gone ==> j.text_field("discarded"@) == str_option(discarded)
            &&& disposition matches Disposition::KeptDirty { reason } ==> j.text_field("message"@)
                == Some(reason@) && j.text_field("status"@) == Some("kept"@)
            &&& disposition matches Disposition::Refused { reason } ==> j.text_field("message"@)
                == Some(reason@) && j.text_field("status"@) == Some("refused"@)
            &&& disposition is NotOurs ==> j.text_field("status"@) == Some("not_ours"@)
        }),
{
    lemma_answer_keys();
    lemma_status_words();
}

/// A row of the listing tells of a worktree what its record, git and the mounts say:
/// its directory and who made it, whether work would be lost, and whether it is
/// mounted or waits for a permission.
pub proof fn law_a_row_tells_of_its_worktree(
    meta: &WorktreeMeta,
    mounts: &WorktreeMounts,
    facts: &RowFacts,
    r: serde_json::Value,
)
    requires
        mounts.wf(),
        call_ensures(worktree_ls_row, (meta, mounts, facts), r),
    ensures
        ({
            let j = json_view(r);
            let feat = meta.class@ == "feat"@;
            let mounted = facts.present && mounted_at(mounts@, meta.worktree.key());
            let state = j.text_field("root_state"@);
            &&& j.text_field("path"@) == Some(meta.worktree@)
            &&& j.text_field("class"@) == Some(meta.class@)
            &&& j.text_field("created_at"@) == Some(meta.created_at@)
            &&& j.field("present"@) == Some(JsonView::Bool(facts.present))
            &&& feat ==> j.text_field("creator"@) == Some("cli"@)
            &&& !feat && meta.agent_id is Some ==> j.text_field("creator"@) == Some(
                meta.session_id@ + " / "@ + meta.agent_id->0@,
            )
            &&& !feat && meta.agent_id is None ==> j.text_field("creator"@) == Some(
                meta.session_id@ + " / "@ + meta.name@,
            )
            &&& j.field("dirty"@) == Some(
                JsonView::Bool(
                    facts.present && (feat && facts.status_dirty || !feat
                        && !facts.disposable_clean),
                ),
            )
            &&& (state == Some("unmounted"@)) == !mounted
            &&& state == Some("blocked"@) ==> exists|k: Seq<char>| #[trigger]
                mounts@.dom().contains(k) && components(mounts@[k].root) == meta.worktree.key()
                    && mounts@[k].blocked
            &&& state == Some("mounted"@) ==> exists|k: Seq<char>| #[trigger]
                mounts@.dom().contains(k) && components(mounts@[k].root) == meta.worktree.key()
                    && !mounts@[k].blocked
            &&& state == Some("unmounted"@) || state == Some("blocked"@) || state == Some(
                "mounted"@,
            )
            &&& j.field("ahead"@) is Some == (feat && facts.present && facts.behind_ahead is Some)
            &&& j.field("ahead"@) is Some ==> j.field("ahead"@) == Some(
                JsonView::Number(decimal((facts.behind_ahead->0).1 as nat)),
            ) && j.field("behind"@) == Some(
                JsonView::Number(decimal((facts.behind_ahead->0).0 as nat)),
            )
        }),
{
    lemma_row_keys();
    lemma_root_states();
    let state = choose|state: Seq<char>| #[trigger]
        crate::worktree::root_state(mounts@, meta.worktree.key(), facts.present, state)
            && json_view(r) == JsonView::Object(
            crate::worktree::row_members(*meta, *facts, state),
        );
    assert(json_view(r).text_field("root_state"@) == Some(state));
}

} // verus!
