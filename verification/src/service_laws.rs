//! What a request does to the daemon and what it is answered.

use crate::boards::{root_board, RootRow};
use crate::claim::{claim_guard, claim_request, handle_claim_stage, take_claim, ClaimRequest, Claimed};
use crate::contributor::lemma_hook_is_not_ephemeral;
use crate::dispatch::{HookFacts, Outcome, Served, SessionFacts, SessionServed};
use crate::ephemeral::EphemeralMountVerdict;
use crate::handoff::{DiagRoundRegistry, HandoffKey, KeyedHandoff, Staged};
use crate::hook::{session_response, session_start_auto_install, session_start_project_config_nudge, HookCall, HookMethod, HookState, InstallKick, OwedNudge, SubagentStop};
use crate::json::{json_text, json_view, str_option, JsonView};
use crate::ledger::ProjectConfigNudges;
use crate::mounts::EphemeralMounts;
use crate::path::{components, PathKey, UnixPath};
use crate::payload::{extract_session_roots, is_main_agent_stop};
use crate::request_laws::{shutdown_object, version_object};
use crate::root_laws::{declares, declares_the_same, lists};
use crate::text::{decimal, has_prefix, views};
use crate::tracker::{only, text_option, RootTracker, TrackerView};
use crate::words::{lemma_answer_keys, lemma_listing_keys, lemma_nudge_keys, lemma_row_keys, lemma_status_words};
use crate::worktree_laws::{holds, lemma_lines_hold};
use vstd::prelude::*;

verus! {

/// The path as it was found on disk, or as it was written where it was not.
pub open spec fn found_or_written(found: Option<UnixPath>, written: Seq<char>) -> Seq<char> {
    if found is Some {
        found->0@
    } else {
        written
    }
}

/// Whatever a request is for, it changes nothing of what other requests are for: only
/// a pin, a mount or the end of one touches roots, only an end of a session forgets
/// one, only a creation registers a worktree, only a sighting is noted as one, and only
/// the command takes the answer of a claim. Runs, promotions and pointers are left
/// alone by all of them, and only a request to shut down shuts the daemon down.
pub proof fn law_a_request_changes_what_it_is_for(
    state: &mut HookState,
    call: &HookCall,
    raw: &serde_json::Value,
    facts: &HookFacts,
    now: u64,
    r: Served,
)
    requires
        old(state).wf(),
        call_ensures(HookState::dispatch, (state, call, raw, facts, now), r),
    ensures
        ({
            let v = old(state)@;
            let w = final(state)@;
            let m = call.method;
            &&& (r is Shutdown) == (m is Shutdown)
            &&& (r is Ended) == (m is SessionEnd)
            &&& (r is Started) == (m is SubagentStart)
            &&& (r is Removed) == (m is WorktreeRemove)
            &&& (r is Onward) == (m is WorktreeRm || m is PermissionRequest || m is Hitstream
                || m is Diagnose || m is ClaimStage || m is RootsRm || m is Session)
            &&& !(m is SessionEnd || m is SubagentStart || m is WorktreeRemove || m is RootsAdd)
                ==> w.tracker == v.tracker
            &&& !(m is SessionEnd) ==> w.sessions == v.sessions && w.connected == v.connected
            &&& !(m is SessionEnd || m is SubagentStart) ==> w.subagents == v.subagents
            &&& !(m is WorktreeCreate) ==> w.registry == v.registry
            &&& !(m is FirstSighting) ==> w.sightings == v.sightings
            &&& !(m is ClaimTake) ==> w.claim == v.claim
            &&& w.patience == v.patience
            &&& w.promoted == v.promoted
            &&& w.nudges == v.nudges
            &&& w.rounds == v.rounds
            &&& call.activity is None && (m is Shutdown || m is Version || m is RootsLs
                || m is WorktreeLs || m is WorktreeRm) ==> w == v
        }),
{
}

/// A request that counts as activity makes the clocks above its working directory
/// fresh before anything else, whatever it is for.
pub proof fn law_every_request_is_activity_where_it_runs(
    state: &mut HookState,
    call: &HookCall,
    raw: &serde_json::Value,
    facts: &HookFacts,
    now: u64,
    r: Served,
    root: PathKey,
    contributor: Seq<char>,
)
    requires
        old(state).wf(),
        call_ensures(HookState::dispatch, (state, call, raw, facts, now), r),
        call.activity is Some,
    ensures
        ({
            let v = old(state)@;
            let w = final(state)@;
            let dir = components(found_or_written(facts.cwd, call.activity->0@));
            &&& w.ephemeral.dom().contains(root) ==> v.ephemeral.dom().contains(root)
            &&& w.ephemeral.dom().contains(root) ==> w.ephemeral[root].last == if root.is_prefix_of(
                dir,
            ) {
                now
            } else {
                v.ephemeral[root].last
            }
            &&& !(call.method is SubagentStart) && w.worktrees.dom().contains(contributor)
                && v.worktrees[contributor].kept_since is Some && components(
                v.worktrees[contributor].root,
            ).is_prefix_of(dir) ==> w.worktrees[contributor].kept_since == Some(now)
            &&& call.method is PermissionRequest && v.worktrees.dom().contains(contributor)
                && components(v.worktrees[contributor].root).is_prefix_of(dir)
                ==> w.worktrees[contributor].blocked
            &&& !(call.method is PermissionRequest || call.method is SubagentStart)
                && w.worktrees.dom().contains(contributor) && components(
                v.worktrees[contributor].root,
            ).is_prefix_of(dir) ==> !w.worktrees[contributor].blocked
        }),
{
}

/// A request to pin names its root, as it is found on disk, and pins that root beside
/// those that are pinned; without a path it pins nothing and is told so.
pub proof fn law_a_request_pins_what_it_names(
    state: &mut HookState,
    call: &HookCall,
    raw: &serde_json::Value,
    facts: &HookFacts,
    now: u64,
    r: Served,
    written: Seq<char>,
    another: PathKey,
    other: Seq<char>,
)
    requires
        old(state).wf(),
        old(state)@.tracker is Some,
        call_ensures(HookState::dispatch, (state, call, raw, facts, now), r),
        call.method is RootsAdd,
    ensures
        ({
            let t = old(state)@.tracker->0;
            let u = final(state)@.tracker->0;
            let root = found_or_written(facts.path, written);
            &&& final(state)@.tracker is Some
            &&& json_view(*raw).text_field("path"@) == Some(written) ==> {
                &&& r is Pinned
                &&& declares(u, "hook"@, another) == (declares(t, "hook"@, another) || another
                    == components(root))
                &&& other != "hook"@ && other != "ephemeral:"@ + root ==> declares_the_same(
                    t,
                    u,
                    other,
                )
            }
            &&& json_view(*raw).text_field("path"@) is None ==> u == t && r is Answer
        }),
{
    let t = old(state)@.tracker->0;
    let root = found_or_written(facts.path, written);
    lemma_hook_is_not_ephemeral(root);
    assert(only(root).dom() =~= set![components(root)]);
}

/// A request that ends a session sweeps what that session's worktrees contributed and
/// nobody else's roots; what is pinned, seeded, announced or active stays served.
pub proof fn law_a_request_ends_one_session(
    state: &mut HookState,
    call: &HookCall,
    raw: &serde_json::Value,
    facts: &HookFacts,
    now: u64,
    r: Served,
    contributor: Seq<char>,
    root: PathKey,
    other: Seq<char>,
)
    requires
        old(state).wf(),
        old(state)@.tracker is Some,
        call_ensures(HookState::dispatch, (state, call, raw, facts, now), r),
        call.method is SessionEnd,
    ensures
        ({
            let v = old(state)@;
            let w = final(state)@;
            let t = v.tracker->0;
            let own = has_prefix(contributor, "worktree:"@ + call.session_id@ + ":"@);
            &&& w.tracker is Some
            &&& own ==> !w.tracker->0.contributors.dom().contains(contributor)
            &&& !own ==> declares_the_same(t, w.tracker->0, contributor)
            &&& !own && declares(t, contributor, root) ==> w.tracker->0.union().contains(root)
            &&& !w.sessions.dom().contains(call.session_id@)
            &&& other != call.session_id@ ==> w.sessions.dom().contains(other)
                == v.sessions.dom().contains(other) && w.subagents.dom().contains(other)
                == v.subagents.dom().contains(other)
        }),
{
    let t = old(state)@.tracker->0;
    let u = final(state)@.tracker->0;
    let own = has_prefix(contributor, "worktree:"@ + call.session_id@ + ":"@);
    if !own && declares(t, contributor, root) {
        assert(u.contributors.dom().contains(contributor)
            && u.contributors[contributor].dom().contains(root));
    }
}

/// A subagent's start mounts the worktree that it starts in, under its session, and
/// only where the request says where it starts; no other contributor changes.
pub proof fn law_a_request_starts_a_subagent(
    state: &mut HookState,
    call: &HookCall,
    raw: &serde_json::Value,
    facts: &HookFacts,
    now: u64,
    r: Served,
    other: Seq<char>,
)
    requires
        old(state).wf(),
        old(state)@.tracker is Some,
        call_ensures(HookState::dispatch, (state, call, raw, facts, now), r),
        call.method is SubagentStart,
    ensures
        ({
            let t = old(state)@.tracker->0;
            let u = final(state)@.tracker->0;
            let mounts = json_view(*raw).text_field("cwd"@) is Some && facts.worktree is Some
                && t.union().contains(facts.worktree->0.project.key()) && !t.union().contains(
                facts.worktree->0.worktree.key(),
            ) && facts.worktree->0.project.key() != facts.worktree->0.worktree.key();
            let own = "worktree:"@ + call.session_id@ + ":"@ + facts.worktree->0.worktree@;
            &&& final(state)@.tracker is Some
            &&& r matches Served::Started(m) && m is Some == mounts
            &&& !mounts ==> u == t
            &&& mounts ==> {
                &&& r->Started_0->0.contributor@ == own
                &&& declares(u, own, facts.worktree->0.worktree.key())
                &&& other != own ==> declares_the_same(t, u, other)
            }
        }),
{
    if facts.worktree is Some {
        let f = facts.worktree->0;
        assert(only(f.worktree@).dom() =~= set![f.worktree.key()]);
    }
}

/// The removal of a worktree takes one contributor down, one that mounts the worktree
/// where there is one; without a path nothing is taken down.
pub proof fn law_a_request_unmounts_what_it_names(
    state: &mut HookState,
    call: &HookCall,
    raw: &serde_json::Value,
    facts: &HookFacts,
    now: u64,
    r: Served,
    written: Seq<char>,
    holder: Seq<char>,
    other: Seq<char>,
)
    requires
        old(state).wf(),
        old(state)@.tracker is Some,
        call_ensures(HookState::dispatch, (state, call, raw, facts, now), r),
        call.method is WorktreeRemove,
    ensures
        ({
            let t = old(state)@.tracker->0;
            let u = final(state)@.tracker->0;
            let path = found_or_written(facts.path, written);
            &&& final(state)@.tracker is Some
            &&& json_view(*raw).text_field("worktree_path"@) is None ==> u == t
                && r->Removed_0 is None
            &&& json_view(*raw).text_field("worktree_path"@) == Some(written) ==> {
                let c = r->Removed_0->0@;
                &&& r->Removed_0 is Some
                &&& has_prefix(holder, "worktree:"@) && declares(t, holder, components(path))
                    ==> has_prefix(c, "worktree:"@) && declares(t, c, components(path))
                &&& !u.contributors.dom().contains(c)
                &&& other != c ==> declares_the_same(t, u, other)
            }
        }),
{
    let t = old(state)@.tracker->0;
    let path = found_or_written(facts.path, written);
    if json_view(*raw).text_field("worktree_path"@) == Some(written) && has_prefix(
        holder,
        "worktree:"@,
    ) && declares(t, holder, components(path)) {
        let mounts = t.holders(components(path)).intersect(
            t.with_prefix(crate::contributor::WORKTREE_CONTRIBUTOR_PREFIX@),
        );
        assert(mounts.contains(holder));
    }
}

/// The rows show the root where it is served and not where it is not; a row of it names
/// exactly the contributors that declare it, and tells whether activity alone holds it.
pub open spec fn shows(rows: Seq<JsonView>, t: TrackerView, root: PathKey) -> bool {
    &&& (exists|i: int| 0 <= i < rows.len() && row_is_for(#[trigger] rows[i], root))
        == t.union().contains(root)
    &&& forall|i: int, contributor: Seq<char>|
        0 <= i < rows.len() && row_is_for(#[trigger] rows[i], root) ==> (rows[i].field(
            "sources"@,
        ) matches Some(JsonView::Array(s)) && s.contains(JsonView::Text(contributor))
            == #[trigger] declares(t, contributor, root))
    &&& forall|i: int|
        0 <= i < rows.len() && row_is_for(#[trigger] rows[i], root) ==> rows[i].field(
            "ephemeral"@,
        ) == Some(
            JsonView::Bool(
                forall|k: Seq<char>| #[trigger]
                    declares(t, k, root) ==> has_prefix(k, "ephemeral:"@),
            ),
        )
}

proof fn lemma_shows(rows: Seq<JsonView>, t: TrackerView, root: PathKey)
    requires
        crate::hook::is_listing(rows, t),
    ensures
        shows(rows, t, root),
{
    lemma_listing_keys();
    let (paths, sources) = choose|paths: Seq<Seq<char>>, sources: Seq<Seq<Seq<char>>>| #[trigger]
        crate::hook::lists_roots(rows, paths, sources, t);
    let ks = paths.map_values(|p: Seq<char>| components(p));
    assert forall|i: int| 0 <= i < rows.len() implies row_is_for(#[trigger] rows[i], root) == (
    ks[i] == root) by {
        assert(rows[i] == crate::hook::root_row(paths[i], sources[i]));
        assert(rows[i].text_field("path"@) == Some(paths[i]));
    }
    if t.union().contains(root) {
        assert(ks.to_set().contains(root));
        let i = choose|i: int| 0 <= i < ks.len() && ks[i] == root;
        assert(row_is_for(rows[i], root));
    }
    if exists|i: int| 0 <= i < rows.len() && row_is_for(#[trigger] rows[i], root) {
        let i = choose|i: int| 0 <= i < rows.len() && row_is_for(#[trigger] rows[i], root);
        assert(ks[i] == root);
        assert(ks.to_set().contains(root));
    }
    assert forall|i: int, contributor: Seq<char>|
        0 <= i < rows.len() && row_is_for(#[trigger] rows[i], root) implies (rows[i].field(
        "sources"@,
    ) matches Some(JsonView::Array(s)) && s.contains(JsonView::Text(contributor))
        == #[trigger] declares(t, contributor, root)) by {
        assert(rows[i] == crate::hook::root_row(paths[i], sources[i]));
        assert(ks[i] == root);
        let s = sources[i].map_values(|x: Seq<char>| JsonView::Text(x));
        assert(rows[i].field("sources"@) == Some(JsonView::Array(s)));
        assert(sources[i].to_set().contains(contributor) == t.holders(root).contains(contributor));
        if s.contains(JsonView::Text(contributor)) {
            let j = choose|j: int| 0 <= j < s.len() && s[j] == JsonView::Text(contributor);
            assert(sources[i][j] == contributor);
        }
        if sources[i].contains(contributor) {
            let j = choose|j: int| 0 <= j < sources[i].len() && sources[i][j] == contributor;
            assert(s[j] == JsonView::Text(contributor));
        }
    }
    assert forall|i: int|
        0 <= i < rows.len() && row_is_for(#[trigger] rows[i], root) implies rows[i].field(
        "ephemeral"@,
    ) == Some(
        JsonView::Bool(
            forall|k: Seq<char>| #[trigger]
                declares(t, k, root) ==> has_prefix(k, "ephemeral:"@),
        ),
    ) by {
        assert(rows[i] == crate::hook::root_row(paths[i], sources[i]));
        assert(ks[i] == root);
        assert(ks.to_set().contains(root));
        let all = sources[i];
        assert forall|k: Seq<char>| #[trigger] declares(t, k, root) == all.contains(k) by {
            assert(all.to_set().contains(k) == t.holders(root).contains(k));
        }
        let some = choose|k: Seq<char>| #[trigger]
            t.contributors.dom().contains(k) && t.contributors[k].dom().contains(root);
        assert(declares(t, some, root));
        if crate::contributor::only_ephemeral(all) {
            assert forall|k: Seq<char>| #[trigger] declares(t, k, root) implies has_prefix(
                k,
                "ephemeral:"@,
            ) by {
                let j = choose|j: int| 0 <= j < all.len() && all[j] == k;
                assert(has_prefix(all[j], "ephemeral:"@));
            }
        } else {
            let j = choose|j: int|
                0 <= j < all.len() && !has_prefix(#[trigger] all[j], "ephemeral:"@);
            assert(all.contains(all[j]));
            assert(declares(t, all[j], root));
        }
    }
}

/// The listing of roots has a row for every served root and for no other, each with
/// exactly the contributors that declare it, and tells whether activity alone holds
/// it.
pub proof fn law_the_listing_shows_every_root(
    state: &HookState,
    r: serde_json::Value,
    root: PathKey,
) -> (rows: Seq<JsonView>)
    requires
        state.wf(),
        state@.tracker is Some,
        call_ensures(HookState::roots_ls, (state,), r),
    ensures
        json_view(r).field("roots"@) == Some(JsonView::Array(rows)),
        shows(rows, state@.tracker->0, root),
{
    lemma_answer_keys();
    let rows = choose|rows: Seq<JsonView>| #[trigger]
        crate::hook::roots_answer(rows, state@.tracker) && json_view(r) == JsonView::Object(
            map!["status"@ => JsonView::Text("ok"@), "roots"@ => JsonView::Array(rows)],
        );
    lemma_shows(rows, state@.tracker->0, root);
    rows
}

/// What a request is answered: a question about roots or worktrees by their rows, the
/// version by the version, a sighting by whether it is the first, the command by the
/// answer that waits for it, which is then gone, a pin by its root, and a shutdown by
/// the number of clients.
pub proof fn law_a_request_is_answered(
    state: &mut HookState,
    call: &HookCall,
    raw: &serde_json::Value,
    facts: &HookFacts,
    now: u64,
    r: Served,
    root: PathKey,
    written: Seq<char>,
) -> (j: JsonView)
    requires
        old(state).wf(),
        call_ensures(HookState::dispatch, (state, call, raw, facts, now), r),
    ensures
        ({
            let v = old(state)@;
            let w = final(state)@;
            let m = call.method;
            let line = json_text(j) + "\n"@;
            &&& m is Shutdown ==> r->Shutdown_0@ == line && j == shutdown_object(
                facts.connections as nat,
            )
            &&& m is Version ==> r.answers(line) && j == version_object(facts.version@)
            &&& m is RootsLs && v.tracker is Some ==> r.answers(line) && j.text_field("status"@)
                == Some("ok"@) && (j.field("roots"@) matches Some(JsonView::Array(rows)) && shows(
                rows,
                v.tracker->0,
                root,
            ))
            &&& m is WorktreeLs ==> r.answers(line) && (j.field("worktrees"@) matches Some(
                JsonView::Array(rows),
            ) && rows.len() == facts.metas.len() && forall|i: int|
                0 <= i < rows.len() ==> (#[trigger] rows[i]).text_field("path"@) == Some(
                    facts.metas[i].worktree@,
                ))
            &&& m is FirstSighting ==> r.answers(line) && j.field("inject"@) == Some(
                JsonView::Bool(!v.sightings.contains(call.session_id@)),
            ) && w.sightings.contains(call.session_id@)
            &&& m is ClaimTake ==> r.answers(line) && j.text_field("answer"@) == v.claim.staged
                && (j.text_field("status"@) == Some("ok"@)) == (v.claim.staged is Some)
                && w.claim.staged is None && (v.claim.staged is Some ==> !w.claim.held)
            &&& m is RootsAdd && json_view(*raw).text_field("path"@) == Some(written)
                ==> r->Pinned_0@ == line && j.text_field("status"@) == Some("ok"@) && j.text_field(
                "path"@,
            ) == Some(found_or_written(facts.path, written))
            &&& m is RootsAdd && json_view(*raw).text_field("path"@) is None ==> r.answers(line)
                && j.text_field("status"@) == Some("error"@)
            &&& m is WorktreeCreate ==> r.answers("\n"@)
        }),
{
    lemma_answer_keys();
    lemma_status_words();
    lemma_row_keys();
    let v = old(state)@;
    match call.method {
        HookMethod::Shutdown => {
            assert(shutdown_object(facts.connections as nat)->Object_0 =~= map![
                "status"@ => JsonView::Text("ok"@),
                "connections"@ => JsonView::Number(decimal(facts.connections as nat)),
            ]);
            shutdown_object(facts.connections as nat)
        },
        HookMethod::Version => {
            assert(version_object(facts.version@)->Object_0
                =~= map!["version"@ => JsonView::Text(facts.version@)]);
            version_object(facts.version@)
        },
        HookMethod::RootsLs => {
            let rows = choose|rows: Seq<JsonView>| #[trigger]
                crate::hook::roots_answer(rows, v.tracker) && r->Answer_0@
                    == crate::dispatch::object_line(
                    crate::dispatch::listing_members("roots"@, rows),
                );
            if v.tracker is Some {
                lemma_shows(rows, v.tracker->0, root);
            }
            JsonView::Object(crate::dispatch::listing_members("roots"@, rows))
        },
        HookMethod::WorktreeLs => {
            let mounts = crate::dispatch::after_activity(
                v,
                text_option(call.activity),
                facts.cwd,
                now,
            ).worktrees;
            let (rows, states) = choose|rows: Seq<JsonView>, states: Seq<Seq<char>>| #[trigger]
                crate::hook::worktree_rows(rows, states, facts.metas@, facts.rows@, mounts)
                    && r->Answer_0@ == crate::dispatch::object_line(
                    crate::dispatch::listing_members("worktrees"@, rows),
                );
            assert forall|i: int| 0 <= i < rows.len() implies (#[trigger] rows[i]).text_field(
                "path"@,
            ) == Some(facts.metas[i].worktree@) by {
                assert(rows[i] == JsonView::Object(
                    crate::worktree::row_members(facts.metas@[i], facts.rows@[i], states[i]),
                ));
            }
            JsonView::Object(crate::dispatch::listing_members("worktrees"@, rows))
        },
        HookMethod::FirstSighting => JsonView::Object(
            map!["inject"@ => JsonView::Bool(!v.sightings.contains(call.session_id@))],
        ),
        HookMethod::ClaimTake => JsonView::Object(crate::claim::taken_members(v.claim.staged)),
        HookMethod::RootsAdd => match json_view(*raw).text_field("path"@) {
            Some(p) => JsonView::Object(
                map![
                    "status"@ => JsonView::Text("ok"@),
                    "path"@ => JsonView::Text(found_or_written(facts.path, p)),
                ],
            ),
            None => JsonView::Object(crate::worktree::error_members("missing path"@)),
        },
        _ => JsonView::Null,
    }
}

/// The row is that of the root.
pub open spec fn row_is_for(row: JsonView, root: PathKey) -> bool {
    row.text_field("path"@) matches Some(p) && components(p) == root
}

/// The line is the text of an object.
pub open spec fn is_object_line(line: Seq<char>, m: Map<Seq<char>, JsonView>) -> bool {
    line == json_text(JsonView::Object(m)) + "\n"@
}

/// A response carries the result whole, and beside it every nudge that there is under
/// its own name and none that there is not; without a result and a nudge it is an
/// empty line.
pub proof fn law_a_response_carries_its_result(
    envelope: &serde_json::Value,
    result: bool,
    start: Option<&str>,
    merged: Option<&str>,
    installs: Option<&str>,
    r: String,
    key: Seq<char>,
) -> (m: Map<Seq<char>, JsonView>)
    requires
        call_ensures(session_response, (envelope, result, start, merged, installs), r),
    ensures
        start is None && merged is None && installs is None && result ==> r@ == json_text(
            json_view(*envelope),
        ) + "\n"@,
        start is None && merged is None && installs is None && !result ==> r@ == "\n"@,
        start is Some || merged is Some || installs is Some ==> {
            let whole = JsonView::Object(m);
            &&& is_object_line(r@, m)
            &&& start is Some ==> whole.text_field("session_start_nudge"@) == str_option(start)
            &&& merged is Some ==> whole.text_field("merged_nudge"@) == str_option(merged)
            &&& installs is Some ==> whole.text_field("auto_install_announcement"@) == str_option(
                installs,
            )
            &&& !(start is Some && key == "session_start_nudge"@) && !(merged is Some && key
                == "merged_nudge"@) && !(installs is Some && key == "auto_install_announcement"@)
                ==> whole.field(key) == json_view(*envelope).field(key)
        },
{
    lemma_nudge_keys();
    let m = crate::hook::with_text(
        crate::hook::with_text(
            crate::hook::with_text(
                crate::hook::members(json_view(*envelope)),
                "session_start_nudge"@,
                str_option(start),
            ),
            "merged_nudge"@,
            str_option(merged),
        ),
        "auto_install_announcement"@,
        str_option(installs),
    );
    if start is None && merged is None && installs is None && !result {
        assert(r@ =~= "\n"@);
    }
    m
}

/// The pointer of a session's start is that of the first root that is owed one and had
/// none; that root has had it from then on, and no other. A resumed session gets none.
pub proof fn law_the_first_root_owed_gets_its_pointer(
    nudges: &mut ProjectConfigNudges,
    raw: &serde_json::Value,
    owed: &[OwedNudge],
    r: Option<String>,
    resumed: bool,
    root: PathKey,
) -> (at: int)
    requires
        old(nudges).wf(),
        call_ensures(session_start_project_config_nudge, (nudges, raw, owed), r),
        resumed == (json_view(*raw).field("host_payload"@) matches Some(hp) && hp.text_field(
            "source"@,
        ) == Some("resume"@)),
    ensures
        resumed ==> r is None,
        r is None ==> final(nudges)@ == old(nudges)@,
        r is None && !resumed ==> forall|i: int|
            0 <= i < owed.len() ==> !is_owed(#[trigger] owed[i], old(nudges)@),
        r is Some ==> {
            &&& 0 <= at < owed.len()
            &&& is_owed(owed[at], old(nudges)@)
            &&& r->0@ == owed[at].line->0@
            &&& forall|i: int| 0 <= i < at ==> !is_owed(#[trigger] owed[i], old(nudges)@)
            &&& final(nudges)@.contains(root) == (old(nudges)@.contains(root) || root
                == owed[at].root.key())
        },
{
    lemma_first_owed(owed@, old(nudges)@);
    match crate::hook::first_owed(owed@, old(nudges)@) {
        Some(i) => i,
        None => 0,
    }
}

/// The root is owed a pointer and had none.
pub open spec fn is_owed(o: OwedNudge, nudged: Set<PathKey>) -> bool {
    o.line is Some && !nudged.contains(o.root.key())
}

proof fn lemma_first_owed(owed: Seq<OwedNudge>, nudged: Set<PathKey>)
    ensures
        match crate::hook::first_owed(owed, nudged) {
            Some(at) => 0 <= at < owed.len() && is_owed(owed[at], nudged) && forall|i: int|
                0 <= i < at ==> !is_owed(#[trigger] owed[i], nudged),
            None => forall|i: int| 0 <= i < owed.len() ==> !is_owed(#[trigger] owed[i], nudged),
        },
    decreases owed.len(),
{
    if owed.len() > 0 {
        let front = owed.drop_last();
        lemma_first_owed(front, nudged);
        assert forall|i: int| 0 <= i < front.len() implies front[i] == #[trigger] owed[i] by {}
    }
}

/// A session's start announces every install that it kicked off; one that it did not
/// kick off, or a user who did not opt in, is announced nothing.
pub proof fn law_kicked_installs_are_announced(
    enabled: bool,
    raw: &serde_json::Value,
    kicks: &[InstallKick],
    r: Option<String>,
    roots: Vec<String>,
    at: int,
)
    requires
        call_ensures(session_start_auto_install, (enabled, raw, kicks), r),
        call_ensures(extract_session_roots, (raw,), roots),
    ensures
        r is Some == (enabled && roots.len() > 0 && exists|i: int|
            0 <= i < kicks.len() && (#[trigger] kicks[i]).kicked),
        r is Some && 0 <= at < kicks.len() && kicks[at].kicked ==> holds(r->0@, kicks[at].line@),
        r is Some && kicks.len() == 1 ==> r->0@ == kicks[0].line@,
{
    assert(views(roots@).len() == roots.len());
    let lines = crate::hook::kicked_lines(kicks@);
    lemma_kicked(kicks@, at);
    if r is Some && 0 <= at < kicks.len() && kicks[at].kicked {
        let n = choose|n: int| 0 <= n < lines.len() && lines[n] == kicks@[at].line@;
        lemma_lines_hold(lines, n);
    }
    if kicks.len() == 1 {
        assert(kicks@.drop_last() =~= Seq::<InstallKick>::empty());
        assert(crate::hook::kicked_lines(kicks@.drop_last()) =~= Seq::empty());
    }
}

proof fn lemma_kicked(kicks: Seq<InstallKick>, at: int)
    ensures
        (crate::hook::kicked_lines(kicks).len() > 0) == exists|i: int|
            0 <= i < kicks.len() && (#[trigger] kicks[i]).kicked,
        0 <= at < kicks.len() && kicks[at].kicked ==> crate::hook::kicked_lines(kicks).contains(
            kicks[at].line@,
        ),
    decreases kicks.len(),
{
    if kicks.len() > 0 {
        let front = kicks.drop_last();
        let before = crate::hook::kicked_lines(front);
        let all = crate::hook::kicked_lines(kicks);
        lemma_kicked(front, at);
        if exists|i: int| 0 <= i < front.len() && (#[trigger] front[i]).kicked {
            let i = choose|i: int| 0 <= i < front.len() && (#[trigger] front[i]).kicked;
            assert(kicks[i].kicked);
        }
        if kicks.last().kicked {
            assert(kicks[kicks.len() - 1].kicked);
            assert(all[before.len() as int] == kicks.last().line@);
        }
        if exists|i: int| 0 <= i < kicks.len() && (#[trigger] kicks[i]).kicked {
            let i = choose|i: int| 0 <= i < kicks.len() && (#[trigger] kicks[i]).kicked;
            if i < front.len() {
                assert(front[i].kicked);
            }
        }
        if 0 <= at < front.len() && kicks[at].kicked {
            assert(front[at].kicked);
            let n = choose|n: int| 0 <= n < before.len() && before[n] == front[at].line@;
            assert(all[n] == kicks[at].line@);
        }
    }
}

/// A claim is refused exactly while a diagnose round is under way, on whichever root.
pub proof fn law_a_claim_waits_for_rounds(
    rounds: &DiagRoundRegistry,
    root: &UnixPath,
    r: Option<serde_json::Value>,
)
    requires
        rounds.wf(),
        call_ensures(claim_guard, (rounds, root), r),
    ensures
        r is Some == exists|k: Seq<char>| #[trigger] rounds@.contains(k),
        r is Some ==> json_view(r->0).text_field("status"@) == Some("refused"@) && (json_view(
            r->0,
        ).text_field("message"@) matches Some(m) && holds(m, root@)),
{
    lemma_answer_keys();
    if !(exists|k: Seq<char>| #[trigger] rounds@.contains(k)) {
        assert(rounds@ =~= Set::empty());
    }
    if r is Some {
        let m = json_view(r->0).text_field("message"@)->0;
        let head = "a diagnose round is in flight — "@;
        let tail = " is actively being diagnosed; try `catenary claim` again once it settles"@;
        assert(m == head + root@ + tail);
    }
}

/// A request to claim names its root and who makes it; without a root it is an error.
pub proof fn law_a_claim_names_root_and_claimant(
    raw: &serde_json::Value,
    r: Result<ClaimRequest, serde_json::Value>,
    text: Seq<char>,
)
    requires
        call_ensures(claim_request, (raw,), r),
    ensures
        r is Ok == json_view(*raw).text_field("root"@) is Some,
        r is Ok && json_view(*raw).text_field("root"@) == Some(text) ==> r->Ok_0.root@ == text,
        r is Ok && json_view(*raw).text_field("format"@) == Some(text) ==> r->Ok_0.format@ == text,
        r is Ok && json_view(*raw).text_field("session_id"@) == Some(text)
            ==> r->Ok_0.session_id@ == text,
        r is Ok && json_view(*raw).text_field("agent_id"@) == Some(text) ==> r->Ok_0.agent_id@
            == text,
        r is Err ==> json_view(r->Err_0).text_field("status"@) == Some("error"@),
{
    lemma_answer_keys();
}

/// What a claim answers is what the command is told afterwards, once: a root that
/// changed hands is answered and left for the command in the same words, the command
/// that asks again is told that nothing waits, and the permit is free for the next
/// claim. A claim that takes nothing leaves nothing.
pub proof fn law_the_command_is_told_what_was_claimed(
    staging: &mut KeyedHandoff,
    taking: &mut KeyedHandoff,
    again: &mut KeyedHandoff,
    claimed: &Claimed,
    r: (serde_json::Value, Option<Staged>),
    told: serde_json::Value,
    later: serde_json::Value,
)
    requires
        old(staging).wf(),
        claimed is Taken ==> old(staging).slot(HandoffKey::Claim).held,
        call_ensures(handle_claim_stage, (staging, claimed), r),
        *old(taking) == *final(staging),
        call_ensures(take_claim, (taking,), told),
        *old(again) == *final(taking),
        call_ensures(take_claim, (again,), later),
    ensures
        claimed matches Claimed::Taken { answer } ==> {
            &&& json_view(r.0).text_field("status"@) == Some("staged"@)
            &&& json_view(r.0).text_field("answer"@) == Some(answer@)
            &&& r.1 is Some && r.1->0.patience == old(staging).patience()
            &&& json_view(told).text_field("status"@) == Some("ok"@)
            &&& json_view(told).text_field("answer"@) == Some(answer@)
            &&& json_view(later).text_field("status"@) == Some("not_staged"@)
            &&& !final(taking).slot(HandoffKey::Claim).held
        },
        claimed is Unlocked ==> json_view(r.0).text_field("status"@) == Some("unlocked"@)
            && *final(staging) == *old(staging) && r.1 is None,
        claimed is AlreadyOurs ==> json_view(r.0).text_field("status"@) == Some("already_ours"@)
            && *final(staging) == *old(staging) && r.1 is None,
        final(again).patience() == old(staging).patience(),
{
    lemma_answer_keys();
    lemma_status_words();
}

/// A permit is given to one at a time, an answer that is left is the one that is taken,
/// and when its time is over it is discarded where it still waits; the time of another
/// answer changes nothing.
pub proof fn law_answers_are_handed_over_in_turn(
    first: &mut KeyedHandoff,
    second: &mut KeyedHandoff,
    staging: &mut KeyedHandoff,
    taking: &mut KeyedHandoff,
    expiring: &mut KeyedHandoff,
    key: HandoffKey,
    answer: String,
    ticket: u64,
    got: bool,
    got_too: bool,
    staged: Staged,
    taken: Option<String>,
    expired: bool,
)
    requires
        old(first).wf(),
        call_ensures(KeyedHandoff::acquire, (first, key), got),
        *old(second) == *final(first),
        call_ensures(KeyedHandoff::acquire, (second, key), got_too),
        *old(staging) == *final(first),
        call_ensures(KeyedHandoff::stage, (staging, key, answer), staged),
        *old(taking) == *final(staging),
        call_ensures(KeyedHandoff::consume, (taking, key), taken),
        *old(expiring) == *final(staging),
        call_ensures(KeyedHandoff::expire, (expiring, key, ticket), expired),
    ensures
        got == !old(first).slot(key).held,
        !got_too,
        taken is Some && taken->0@ == answer@,
        !final(taking).slot(key).held && final(taking).slot(key).staged is None,
        expired == (ticket == staged.ticket),
        expired ==> !final(expiring).slot(key).held && final(expiring).slot(key).staged is None,
        !expired ==> final(expiring).slot(key) == final(staging).slot(key),
        staged.patience == old(first).patience(),
{
}

/// A session's hook is finished in its order: the advice about merged worktrees, the
/// stop of a subagent, the root of the file that it touches. What each of them leaves
/// is what the next one finds; only the pointers change after that.
pub proof fn law_a_hook_is_finished_in_order(
    state: &mut HookState,
    call: &HookCall,
    raw: &serde_json::Value,
    outcome: &Outcome,
    facts: &SessionFacts,
    now: u64,
    r: SessionServed,
    advising: &mut HookState,
    stopping: &mut HookState,
    mounting: &mut HookState,
    advice: Option<String>,
    stop: Option<SubagentStop>,
    verdicts: Vec<EphemeralMountVerdict>,
    present: &[UnixPath],
    merged: &[UnixPath],
    worktree: Option<&UnixPath>,
    touched: &[crate::ephemeral::TouchedPath],
)
    requires
        old(state).wf(),
        call_ensures(HookState::finish_session, (state, call, raw, outcome, facts, now), r),
        present@ == facts.present@,
        merged@ == facts.merged@,
        touched@ == facts.touched@,
        worktree is Some == facts.stopped_in is Some,
        worktree is Some ==> *worktree->0 == facts.stopped_in->0,
        *old(advising) == *old(state),
        call_ensures(HookState::merged_nudge, (advising, call, raw, present, merged), advice),
        *old(stopping) == *final(advising),
        call_ensures(
            HookState::subagent_stop,
            (stopping, call, raw, outcome.blocks, worktree, now),
            stop,
        ),
        *old(mounting) == *final(stopping),
        call_ensures(HookState::ensure_mounts, (mounting, touched, now), verdicts),
    ensures
        ({
            let w = final(state)@;
            let end = if json_view(*raw).text_field("file_path"@) is Some {
                final(mounting)@
            } else {
                final(stopping)@
            };
            &&& w.tracker == end.tracker
            &&& w.ephemeral == end.ephemeral
            &&& w.worktrees == end.worktrees
            &&& w.registry == end.registry
            &&& w.subagents == end.subagents
            &&& w.sessions == end.sessions
            &&& w.claim == end.claim
            &&& w.rounds == end.rounds
            &&& w.promoted == end.promoted
            &&& w.sightings == end.sightings
            &&& call.name@ != "session-start/clear-editing"@ ==> w.nudges == end.nudges
            &&& r.stopped is Some == stop is Some
            &&& r.stopped is Some ==> r.stopped->0.agent_id@ == stop->0.agent_id@
            &&& r.merged_nudge is Some == advice is Some
            &&& json_view(*raw).text_field("file_path"@) is Some
                ==> crate::ephemeral::verdict_views(r.verdicts@)
                == crate::ephemeral::verdict_views(verdicts@)
            &&& json_view(*raw).text_field("file_path"@) is None ==> r.verdicts.len() == 0
        }),
{
    assert(crate::ephemeral::verdict_views(r.verdicts@).len() == r.verdicts.len());
}

/// The line of a finished hook is the response to its outcome, with the advice, the
/// pointer and the announcement that it drew: a session's start may draw the last two,
/// any other request neither. The advice names every worktree that it is about.
pub proof fn law_a_finished_hook_answers_its_outcome(
    state: &mut HookState,
    call: &HookCall,
    raw: &serde_json::Value,
    outcome: &Outcome,
    facts: &SessionFacts,
    now: u64,
    r: SessionServed,
    nudges: &mut ProjectConfigNudges,
    owed: &[OwedNudge],
    kicks: &[InstallKick],
    pointer: Option<String>,
    announced: Option<String>,
    start: Option<&str>,
    advice: Option<&str>,
    installs: Option<&str>,
    line: String,
    main: bool,
    worktree: PathKey,
)
    requires
        old(state).wf(),
        call_ensures(HookState::finish_session, (state, call, raw, outcome, facts, now), r),
        old(nudges).wf(),
        old(nudges)@ == old(state)@.nudges,
        owed@ == facts.owed@,
        kicks@ == facts.installs@,
        call_ensures(session_start_project_config_nudge, (nudges, raw, owed), pointer),
        call_ensures(session_start_auto_install, (facts.auto_install, raw, kicks), announced),
        call_ensures(is_main_agent_stop, (raw,), main),
        ({
            let starts = call.name@ == "session-start/clear-editing"@;
            &&& str_option(start) == if starts {
                text_option(pointer)
            } else {
                None
            }
            &&& str_option(installs) == if starts {
                text_option(announced)
            } else {
                None
            }
            &&& str_option(advice) == text_option(r.merged_nudge)
        }),
        call_ensures(
            session_response,
            (&outcome.envelope, outcome.has_result, start, advice, installs),
            line,
        ),
    ensures
        r.line@ == line@,
        call.name@ == "session-start/clear-editing"@ ==> final(state)@.nudges == final(nudges)@,
        ({
            let v = old(state)@;
            let due = v.registry.metas.dom().contains(worktree)
                && v.registry.metas[worktree].session_id@ == call.session_id@ && lists(
                facts.present@,
                worktree,
            ) && lists(facts.merged@, worktree) && !v.registry.nagged.contains(worktree);
            call.name@ == "post-agent/require-release"@ && main && due ==> r.merged_nudge is Some
                && holds(r.merged_nudge->0@, v.registry.metas[worktree].worktree@)
        }),
{
    let v = old(state)@;
    let set = crate::dispatch::merged_at(v, *call, *facts);
    crate::worktree_laws::lemma_lists_key(facts.present@, worktree);
    crate::worktree_laws::lemma_lists_key(facts.merged@, worktree);
    if crate::hook::may_advise(call.name@, json_view(*raw)) && set.contains(worktree) {
        let message = |paths: Seq<Seq<char>>| crate::worktree::merged_message(paths);
        assert(crate::hook::reminds(r.merged_nudge, set, v.registry.metas, message));
        assert(r.merged_nudge is Some);
        let told = r.merged_nudge->0;
        let paths = choose|paths: Seq<Seq<char>>| #[trigger]
            crate::worktree::names_all(paths, set, v.registry.metas) && told@ == message(paths);
        crate::worktree_laws::lemma_merged_names(paths, set, v.registry, worktree);
    }
}

/// The board of roots has a row for every served root and for no other, with exactly
/// the contributors that declare it; it is marked as ephemeral where activity alone holds
/// it, and shows the whole seconds that its clock has left, where it has one.
pub proof fn law_the_root_board_shows_every_root(
    tracker: &RootTracker,
    mounts: &EphemeralMounts,
    now: u64,
    r: Vec<RootRow>,
    path: &UnixPath,
    left: Option<u64>,
    contributor: Seq<char>,
)
    requires
        tracker.wf(),
        mounts.wf(),
        call_ensures(root_board, (tracker, mounts, now), r),
        call_ensures(EphemeralMounts::idle_remaining, (mounts, path, now, 420_000_000_000), left),
    ensures
        (exists|i: int| 0 <= i < r.len() && components((#[trigger] r[i]).path@) == path.key())
            == tracker@.union().contains(path.key()),
        forall|i: int|
            0 <= i < r.len() && components((#[trigger] r[i]).path@) == path.key() ==> {
                &&& views(r[i].sources@).contains(contributor) == declares(
                    tracker@,
                    contributor,
                    path.key(),
                )
                &&& r[i].ephemeral && declares(tracker@, contributor, path.key()) ==> has_prefix(
                    contributor,
                    "ephemeral:"@,
                )
                &&& r[i].idle_remaining_secs is Some == left is Some
                &&& left is Some ==> r[i].idle_remaining_secs->0 == left->0 / 1_000_000_000
            },
{
    let ks = crate::boards::row_keys(r@);
    if tracker@.union().contains(path.key()) {
        assert(ks.to_set().contains(path.key()));
        let i = choose|i: int| 0 <= i < ks.len() && ks[i] == path.key();
        assert(components(r[i].path@) == path.key());
    }
    if exists|i: int| 0 <= i < r.len() && components((#[trigger] r[i]).path@) == path.key() {
        let i = choose|i: int|
            0 <= i < r.len() && components((#[trigger] r[i]).path@) == path.key();
        assert(ks[i] == path.key());
        assert(ks.to_set().contains(path.key()));
    }
    assert forall|i: int|
        0 <= i < r.len() && components((#[trigger] r[i]).path@) == path.key() implies {
        &&& views(r[i].sources@).contains(contributor) == declares(
            tracker@,
            contributor,
            path.key(),
        )
        &&& r[i].ephemeral && declares(tracker@, contributor, path.key()) ==> has_prefix(
            contributor,
            "ephemeral:"@,
        )
        &&& r[i].idle_remaining_secs is Some == left is Some
        &&& left is Some ==> r[i].idle_remaining_secs->0 == left->0 / 1_000_000_000
    } by {
        let all = views(r[i].sources@);
        assert(all.to_set().contains(contributor) == tracker@.holders(path.key()).contains(
            contributor,
        ));
        if r[i].ephemeral && all.contains(contributor) {
            let j = choose|j: int| 0 <= j < all.len() && all[j] == contributor;
            assert(has_prefix(all[j], crate::contributor::EPHEMERAL_CONTRIBUTOR_PREFIX@));
        }
    }
}

/// A run mounts what its files need before it is admitted, as any other activity on them
/// does.
pub proof fn law_a_run_mounts_what_it_needs(
    state: &mut HookState,
    mounting: &mut HookState,
    batch: &crate::diagnose::DiagnoseBatch,
    touched: &[crate::ephemeral::TouchedPath],
    claimed: bool,
    now: u64,
    r: crate::dispatch::RunStart,
    verdicts: Vec<EphemeralMountVerdict>,
)
    requires
        old(state).wf(),
        call_ensures(HookState::begin_run, (state, batch, touched, claimed, now), r),
        *old(mounting) == *old(state),
        call_ensures(HookState::ensure_mounts, (mounting, touched, now), verdicts),
        batch.files.len() > 0,
    ensures
        r is Admit,
        final(state)@ == final(mounting)@,
        crate::ephemeral::verdict_views(r->Admit_0@) == crate::ephemeral::verdict_views(verdicts@),
{
}

} // verus!
