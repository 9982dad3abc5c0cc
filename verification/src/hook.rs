//! Hook requests: what each of them does to the daemon's state and what it is
//! answered.

use crate::boards::{order_with, order_without, sessions_with, SessionMetaView, Sessions};
use crate::contributor::{lemma_hook_is_not_ephemeral, only_ephemeral, root_is_ephemeral, worktree_contributor, worktree_contributor_prefix, worktree_key, worktree_prefix, ephemeral_contributor, ephemeral_key, HOOK_CONTRIBUTOR, WORKTREE_CONTRIBUTOR_PREFIX};
use crate::ephemeral::{ensure_ephemeral_mounts, path_option, touched_views, verdict_views, worktree_to_auto_mount, EphemeralMountVerdict, MountState, TouchedPath, TouchedView, WorktreeFacts};
use crate::handoff::{DiagRoundRegistry, HandoffKey, HandoffView, KeyedHandoff};
use crate::json::{flag_field, json_text, json_view, json_views, response_line, str_field, str_option, text_array, value_array, value_as_str, value_get, value_is_null, value_to_string, JsonView, ObjectBuilder};
use crate::ledger::{FirstSightings, ProjectConfigNudges, PromotedPrefixes, PromotionId};
use crate::mounts::{ephemeral_covered, worktrees_changed, worktrees_covering, EphemeralMounts, EphemeralMountsView, WorktreeClockView, WorktreeMounts, WorktreeMountsView};
use crate::order::strictly_sorted;
use crate::path::{components, keys, path_lt, PathKey, UnixPath};
use crate::payload::{extract_session_roots, hook_cwd, host_str, host_text, is_host_event, is_main_agent_stop, main_agent_stop, payload_cwd, session_roots, str_or_empty, text_or_empty};
use crate::registry::{meta_keys, RegistryView, WorktreeMeta, WorktreeRegistry};
use crate::subagents::{started, has_agent, subagents_of, without_agent, SubagentRegistry, SubagentsView};
use crate::text::{concat2, decimal, has_prefix, join_lines, join_lines_text, text_eq, text_lt, views};
use crate::tracker::{contributor_names, lemma_only, listed_keys, only, text_option, RootTracker, TrackerView};
use crate::worktree::{error_answer, error_members, lingering, lingering_worktree_nag, linger_message, merged_lingering, merged_message, merged_worktree_nudge, mounted_keys, names_all, reap_worktree_root, removal_members, reported_running, retire_root, root_state, row_members, worktree_ls_row, worktree_rm_response, Disposition, RowFacts};
use vstd::prelude::*;

verus! {

/// The method of the hit stream.
pub const METHOD_HITSTREAM: &'static str = "tool/hitstream";

/// What a request is for.
#[derive(Clone, Copy, Debug, PartialEq, Eq, Structural)]
pub enum HookMethod {
    Shutdown,
    Version,
    RootsLs,
    WorktreeLs,
    WorktreeRm,
    FirstSighting,
    SessionEnd,
    WorktreeCreate,
    SubagentStart,
    WorktreeRemove,
    PermissionRequest,
    EditingStart,
    Hitstream,
    Diagnose,
    ClaimStage,
    ClaimTake,
    RootsAdd,
    RootsRm,
    /// A hook of a session.
    Session,
}

/// What a request of this name is for; any other name is a hook of a session.
pub open spec fn method_of(name: Seq<char>) -> HookMethod {
    if name == "tool/shutdown"@ {
        HookMethod::Shutdown
    } else if name == "tool/version"@ {
        HookMethod::Version
    } else if name == "tool/roots-ls"@ {
        HookMethod::RootsLs
    } else if name == "tool/worktree-ls"@ {
        HookMethod::WorktreeLs
    } else if name == "tool/worktree-rm"@ {
        HookMethod::WorktreeRm
    } else if name == "pre-invocation/first-sighting"@ {
        HookMethod::FirstSighting
    } else if name == "session-end/cleanup"@ {
        HookMethod::SessionEnd
    } else if name == "worktree-create/log-payload"@ {
        HookMethod::WorktreeCreate
    } else if name == "subagent-start/mount-worktree"@ {
        HookMethod::SubagentStart
    } else if name == "worktree-remove/unmount-worktree"@ {
        HookMethod::WorktreeRemove
    } else if name == "permission-request/blocked"@ {
        HookMethod::PermissionRequest
    } else if name == "tool/editing-start"@ {
        HookMethod::EditingStart
    } else if name == METHOD_HITSTREAM@ {
        HookMethod::Hitstream
    } else if name == "tool/editing-stop"@ {
        HookMethod::Diagnose
    } else if name == "pre-tool/claim"@ {
        HookMethod::ClaimStage
    } else if name == "tool/claim"@ {
        HookMethod::ClaimTake
    } else if name == "tool/roots-add"@ {
        HookMethod::RootsAdd
    } else if name == "tool/roots-rm"@ {
        HookMethod::RootsRm
    } else {
        HookMethod::Session
    }
}

/// What a request of this name is for.
pub fn classify_method(name: &str) -> (r: HookMethod)
    ensures
        r == method_of(name@),
{
    if text_eq(name, "tool/shutdown") {
        HookMethod::Shutdown
    } else if text_eq(name, "tool/version") {
        HookMethod::Version
    } else if text_eq(name, "tool/roots-ls") {
        HookMethod::RootsLs
    } else if text_eq(name, "tool/worktree-ls") {
        HookMethod::WorktreeLs
    } else if text_eq(name, "tool/worktree-rm") {
        HookMethod::WorktreeRm
    } else if text_eq(name, "pre-invocation/first-sighting") {
        HookMethod::FirstSighting
    } else if text_eq(name, "session-end/cleanup") {
        HookMethod::SessionEnd
    } else if text_eq(name, "worktree-create/log-payload") {
        HookMethod::WorktreeCreate
    } else if text_eq(name, "subagent-start/mount-worktree") {
        HookMethod::SubagentStart
    } else if text_eq(name, "worktree-remove/unmount-worktree") {
        HookMethod::WorktreeRemove
    } else if text_eq(name, "permission-request/blocked") {
        HookMethod::PermissionRequest
    } else if text_eq(name, "tool/editing-start") {
        HookMethod::EditingStart
    } else if text_eq(name, METHOD_HITSTREAM) {
        HookMethod::Hitstream
    } else if text_eq(name, "tool/editing-stop") {
        HookMethod::Diagnose
    } else if text_eq(name, "pre-tool/claim") {
        HookMethod::ClaimStage
    } else if text_eq(name, "tool/claim") {
        HookMethod::ClaimTake
    } else if text_eq(name, "tool/roots-add") {
        HookMethod::RootsAdd
    } else if text_eq(name, "tool/roots-rm") {
        HookMethod::RootsRm
    } else {
        HookMethod::Session
    }
}

/// Whether a request of this kind counts as activity in its working directory.
pub open spec fn counts_as_activity(m: HookMethod) -> bool {
    !(m is Shutdown || m is Version || m is RootsLs || m is WorktreeLs || m is WorktreeRm)
}

/// A request, as far as its routing goes.
#[derive(Debug)]
pub struct HookCall {
    pub name: String,
    pub method: HookMethod,
    pub session_id: String,
    /// The directory in which the request counts as activity.
    pub activity: Option<String>,
}

/// The text, or `other` where there is none.
pub open spec fn text_or(t: Option<Seq<char>>, other: Seq<char>) -> Seq<char> {
    match t {
        Some(s) => s,
        None => other,
    }
}

/// Reads what a request is for, whose session it belongs to, and where it counts
/// as activity.
pub fn read_call(raw: &serde_json::Value) -> (r: HookCall)
    ensures
        r.name@ == text_or(json_view(*raw).text_field("method"@), "unknown"@),
        r.method == method_of(r.name@),
        r.session_id@ == text_or(json_view(*raw).text_field("session_id"@), "default"@),
        text_option(r.activity) == if counts_as_activity(r.method) {
            payload_cwd(json_view(*raw))
        } else {
            None
        },
{
    let name = match str_field(raw, "method") {
        Some(m) => m,
        None => "unknown",
    };
    let session_id = match str_field(raw, "session_id") {
        Some(s) => s,
        None => "default",
    };
    let method = classify_method(name);
    let active = match method {
        HookMethod::Shutdown => false,
        HookMethod::Version => false,
        HookMethod::RootsLs => false,
        HookMethod::WorktreeLs => false,
        HookMethod::WorktreeRm => false,
        _ => true,
    };
    let activity: Option<String> = if active {
        match hook_cwd(raw) {
            Some(c) => Some(c.to_owned()),
            None => None,
        }
    } else {
        None
    };
    HookCall { name: name.to_owned(), method, session_id: session_id.to_owned(), activity }
}

/// The state behind the hooks.
#[verifier::ext_equal]
pub struct HookView {
    pub tracker: Option<TrackerView>,
    pub ephemeral: EphemeralMountsView,
    pub worktrees: WorktreeMountsView,
    pub registry: RegistryView,
    pub sightings: Set<Seq<char>>,
    pub promoted: Set<PromotionId>,
    pub nudges: Set<PathKey>,
    pub subagents: SubagentsView,
    pub sessions: Map<Seq<char>, SessionMetaView>,
    pub connected: Seq<Seq<char>>,
    pub claim: HandoffView,
    pub patience: u64,
    pub rounds: Set<Seq<char>>,
}

impl HookView {
    /// After activity at `now` in the directory `path`: every mount above it is
    /// fresh.
    pub open spec fn touched(self, path: PathKey, now: u64) -> HookView {
        HookView {
            ephemeral: ephemeral_covered(self.ephemeral, path, now),
            worktrees: worktrees_changed(
                self.worktrees,
                path,
                |c: WorktreeClockView| c.touched(now),
            ),
            ..self
        }
    }

    /// After a conversation was seen.
    pub open spec fn sighted(self, session: Seq<char>) -> HookView {
        HookView { sightings: self.sightings.insert(session), ..self }
    }

    /// After a session's hook came in: the session is known.
    pub open spec fn known(self, session: Seq<char>, raw: JsonView, at: Seq<char>) -> HookView {
        HookView {
            sessions: sessions_with(self.sessions, session, raw, at),
            connected: order_with(self.connected, session),
            ..self
        }
    }

    /// After the end of a session: it is forgotten, and so are its mounted
    /// worktrees and its subagents.
    pub open spec fn ended(self, session: Seq<char>) -> HookView {
        let prefix = worktree_prefix(session);
        match self.tracker {
            Some(t) => HookView {
                tracker: Some(t.removed_all(t.with_prefix(prefix))),
                worktrees: self.worktrees.remove_keys(
                    self.worktrees.dom().filter(|k: Seq<char>| has_prefix(k, prefix)),
                ),
                subagents: self.subagents.remove(session),
                sessions: self.sessions.remove(session),
                connected: order_without(self.connected, session),
                ..self
            },
            None => HookView {
                sessions: self.sessions.remove(session),
                connected: order_without(self.connected, session),
                ..self
            },
        }
    }

    /// With this record of a worktree.
    pub open spec fn registered(self, m: WorktreeMeta) -> HookView {
        HookView { registry: self.registry.with(m), ..self }
    }

    /// Without the record of this worktree.
    pub open spec fn forgotten(self, worktree: PathKey) -> HookView {
        HookView { registry: self.registry.forgotten(worktree), ..self }
    }

    /// Whether the worktree in which a subagent starts is mounted: it is not
    /// served, and it belongs to another directory that is.
    pub open spec fn auto_mounts(self, facts: Option<&WorktreeFacts>) -> bool {
        match (self.tracker, facts) {
            (Some(t), Some(f)) => !t.union().contains(f.worktree.key()) && f.project.key()
                != f.worktree.key() && t.union().contains(f.project.key()),
            _ => false,
        }
    }

    /// After the worktree was mounted for a session.
    pub open spec fn mounted(self, session: Seq<char>, worktree: Seq<char>) -> HookView {
        let key = worktree_key(session, worktree);
        match self.tracker {
            Some(t) => HookView {
                tracker: Some(t.set(key, only(worktree))),
                worktrees: self.worktrees.insert(
                    key,
                    WorktreeClockView { root: worktree, blocked: false, kept_since: None },
                ),
                ..self
            },
            None => self,
        }
    }

    /// After a subagent was recorded under its session.
    pub open spec fn joined(
        self,
        session: Seq<char>,
        agent: Option<Seq<char>>,
        started_at: Seq<char>,
    ) -> HookView {
        match agent {
            Some(id) => HookView {
                subagents: subagent_recorded(self.subagents, session, id, started_at),
                ..self
            },
            None => self,
        }
    }

    /// After the mount of a contributor was taken down.
    pub open spec fn unmounted(self, contributor: Seq<char>) -> HookView {
        match self.tracker {
            Some(t) => HookView {
                tracker: Some(t.removed(contributor)),
                worktrees: self.worktrees.remove(contributor),
                ..self
            },
            None => self,
        }
    }

    /// After a root was retired: every contributor lets it go.
    pub open spec fn retired(self, root: PathKey) -> HookView {
        match self.tracker {
            Some(t) => HookView {
                tracker: Some(t.retired(root)),
                worktrees: self.worktrees.remove_keys(t.holders(root)),
                ..self
            },
            None => self,
        }
    }

    /// After a permission prompt in the directory `path`: the worktrees above it
    /// are blocked.
    pub open spec fn blocked(self, path: PathKey) -> HookView {
        HookView {
            worktrees: worktrees_changed(
                self.worktrees,
                path,
                |c: WorktreeClockView| c.marked_blocked(),
            ),
            ..self
        }
    }

    /// Whether activity had mounted the root.
    pub open spec fn had_mounted(self, root: Seq<char>) -> bool {
        self.tracker matches Some(t) && t.declared(ephemeral_key(root)).contains(components(root))
    }

    /// After a root was pinned: the commands declare it, and it no longer
    /// expires.
    pub open spec fn pinned(self, root: Seq<char>) -> HookView {
        match self.tracker {
            Some(t) => HookView {
                tracker: Some(
                    t.added(HOOK_CONTRIBUTOR@, only(root)).released(
                        ephemeral_key(root),
                        components(root),
                    ),
                ),
                ephemeral: if self.had_mounted(root) {
                    self.ephemeral.remove(components(root))
                } else {
                    self.ephemeral
                },
                ..self
            },
            None => self,
        }
    }

    /// After a root was unpinned.
    pub open spec fn unpinned(self, root: PathKey) -> HookView {
        match self.tracker {
            Some(t) => HookView { tracker: Some(t.released(HOOK_CONTRIBUTOR@, root)), ..self },
            None => self,
        }
    }

    /// After these worktrees were reminded of.
    pub open spec fn nagged(self, worktrees: Set<PathKey>) -> HookView {
        HookView {
            registry: RegistryView {
                nagged: self.registry.nagged.union(worktrees),
                ..self.registry
            },
            ..self
        }
    }

    /// After a subagent stopped: it leaves the board, and the countdown of the
    /// worktree it stopped in begins.
    pub open spec fn stopped(
        self,
        session: Seq<char>,
        agent: Seq<char>,
        worktree: Option<PathKey>,
        now: u64,
    ) -> HookView {
        HookView {
            subagents: subagent_removed(self.subagents, session, agent),
            worktrees: match worktree {
                Some(w) => worktrees_changed(
                    self.worktrees,
                    w,
                    |c: WorktreeClockView| c.armed(now),
                ),
                None => self.worktrees,
            },
            ..self
        }
    }

    /// The parts that mounting reads and changes.
    pub open spec fn mount_state(self) -> MountState {
        MountState {
            tracker: self.tracker->0,
            ephemeral: self.ephemeral,
            worktrees: self.worktrees,
        }
    }

    /// After activity at `now` on these paths; without a tracker nothing happens.
    pub open spec fn mounted_for(self, touched: Seq<TouchedView>, now: u64) -> HookView {
        if self.tracker is Some {
            let after = self.mount_state().touched_all(touched, now);
            HookView {
                tracker: Some(after.tracker),
                ephemeral: after.ephemeral,
                worktrees: after.worktrees,
                ..self
            }
        } else {
            self
        }
    }
}

/// The state behind the hooks.
pub struct HookState {
    pub tracker: Option<RootTracker>,
    pub ephemeral: EphemeralMounts,
    pub worktrees: WorktreeMounts,
    pub registry: WorktreeRegistry,
    pub sightings: FirstSightings,
    pub promoted: PromotedPrefixes,
    pub nudges: ProjectConfigNudges,
    pub subagents: SubagentRegistry,
    pub sessions: Sessions,
    pub handoff: KeyedHandoff,
    pub rounds: DiagRoundRegistry,
}

/// The view of an optional tracker.
pub open spec fn tracker_option(t: Option<RootTracker>) -> Option<TrackerView> {
    match t {
        Some(t) => Some(t@),
        None => None,
    }
}

impl View for HookState {
    type V = HookView;

    open spec fn view(&self) -> HookView {
        HookView {
            tracker: tracker_option(self.tracker),
            ephemeral: self.ephemeral@,
            worktrees: self.worktrees@,
            registry: self.registry@,
            sightings: self.sightings@,
            promoted: self.promoted@,
            nudges: self.nudges@,
            subagents: self.subagents@,
            sessions: self.sessions@,
            connected: self.sessions.order(),
            claim: self.handoff.slot(HandoffKey::Claim),
            patience: self.handoff.patience(),
            rounds: self.rounds@,
        }
    }
}

/// The answer to a request to shut down: how many clients are connected.
pub fn shutdown_answer(connections: usize) -> (r: serde_json::Value)
    ensures
        json_view(r) == JsonView::Object(
            map![
                "status"@ => JsonView::Text("ok"@),
                "connections"@ => JsonView::Number(decimal(connections as nat)),
            ],
        ),
{
    ObjectBuilder::new().text("status", "ok").count("connections", connections as u64).finish()
}

/// The answer to a request for the version.
pub fn version_answer(version: &str) -> (r: serde_json::Value)
    ensures
        json_view(r) == JsonView::Object(map!["version"@ => JsonView::Text(version@)]),
{
    ObjectBuilder::new().text("version", version).finish()
}

/// The line that confirms the start of editing.
pub fn editing_start_line() -> (r: &'static str)
    ensures
        r@ == "{\"status\":\"ok\"}\n"@,
{
    "{\"status\":\"ok\"}\n"
}

/// What a connection without a session is answered.
#[derive(Debug)]
pub enum Passthrough {
    /// This line, and the daemon shuts down.
    Shutdown(String),
    /// This line.
    Answer(String),
}

/// Answers a connection without a session: a shutdown and a version request are
/// served, everything else is allowed by an empty line.
pub fn handle_hook_connection(line: &str, connections: usize, version: &str) -> (r: Passthrough)
    ensures
        match crate::json::json_parse(crate::text::trimmed(line@)) {
            Err(_) => r matches Passthrough::Answer(a) && a@ == "\n"@,
            Ok(j) => match method_of(text_or(j.text_field("method"@), "unknown"@)) {
                HookMethod::Shutdown => r matches Passthrough::Shutdown(a) && a@ == json_text(
                    JsonView::Object(
                        map![
                            "status"@ => JsonView::Text("ok"@),
                            "connections"@ => JsonView::Number(decimal(connections as nat)),
                        ],
                    ),
                ) + "\n"@,
                HookMethod::Version => r matches Passthrough::Answer(a) && a@ == json_text(
                    JsonView::Object(map!["version"@ => JsonView::Text(version@)]),
                ) + "\n"@,
                _ => r matches Passthrough::Answer(a) && a@ == "\n"@,
            },
        },
{
    match crate::json::read_request(line) {
        Err(_) => Passthrough::Answer("\n".to_owned()),
        Ok(raw) => {
            let call = read_call(&raw);
            match call.method {
                HookMethod::Shutdown => Passthrough::Shutdown(
                    response_line(&shutdown_answer(connections)),
                ),
                HookMethod::Version => Passthrough::Answer(response_line(&version_answer(version))),
                _ => Passthrough::Answer("\n".to_owned()),
            }
        },
    }
}

/// A row of the root listing.
pub open spec fn root_row(path: Seq<char>, sources: Seq<Seq<char>>) -> JsonView {
    JsonView::Object(
        map![
            "path"@ => JsonView::Text(path),
            "sources"@ => JsonView::Array(sources.map_values(|s: Seq<char>| JsonView::Text(s))),
            "ephemeral"@ => JsonView::Bool(only_ephemeral(sources)),
        ],
    )
}

/// The rows list every served root once, in path order, each with its
/// contributors in string order.
pub open spec fn lists_roots(
    rows: Seq<JsonView>,
    paths: Seq<Seq<char>>,
    sources: Seq<Seq<Seq<char>>>,
    v: TrackerView,
) -> bool {
    let ks = paths.map_values(|p: Seq<char>| components(p));
    &&& strictly_sorted(ks, path_lt())
    &&& ks.to_set() == v.union()
    &&& sources.len() == paths.len()
    &&& rows.len() == paths.len()
    &&& forall|i: int|
        0 <= i < rows.len() ==> {
            &&& (#[trigger] rows[i]) == root_row(paths[i], sources[i])
            &&& strictly_sorted(sources[i], text_lt())
            &&& sources[i].to_set() == v.holders(ks[i])
            &&& paths[i] == v.listed_as(ks[i], sources[i])
        }
}

/// The rows are those of the root listing.
pub open spec fn is_listing(rows: Seq<JsonView>, v: TrackerView) -> bool {
    exists|paths: Seq<Seq<char>>, sources: Seq<Seq<Seq<char>>>| #[trigger]
        lists_roots(rows, paths, sources, v)
}

fn root_rows(tracker: &RootTracker) -> (r: Vec<serde_json::Value>)
    requires
        tracker.wf(),
    ensures
        is_listing(json_views(r@), tracker@),
{
    let listed = tracker.list_roots();
    let mut r: Vec<serde_json::Value> = Vec::new();
    let mut i: usize = 0;
    while i < listed.len()
        invariant
            i <= listed.len(),
            r.len() == i,
            forall|j: int|
                0 <= j < i ==> json_view(#[trigger] r[j]) == root_row(
                    listed[j].0@,
                    views(listed[j].1@),
                ),
        decreases listed.len() - i,
    {
        let sources = listed[i].1.as_slice();
        r.push(
            ObjectBuilder::new().text("path", listed[i].0.as_str()).put(
                "sources",
                text_array(sources),
            ).flag("ephemeral", root_is_ephemeral(sources)).finish(),
        );
        i += 1;
    }
    proof {
        let paths = listed@.map_values(|e: (UnixPath, Vec<String>)| e.0@);
        let sources = listed@.map_values(|e: (UnixPath, Vec<String>)| views(e.1@));
        assert(paths.map_values(|p: Seq<char>| components(p)) =~= listed_keys(
            listed@,
        ));
        assert forall|j: int| 0 <= j < json_views(r@).len() implies {
            &&& (#[trigger] json_views(r@)[j]) == root_row(paths[j], sources[j])
            &&& strictly_sorted(sources[j], text_lt())
            &&& sources[j].to_set() == tracker@.holders(components(paths[j]))
            &&& paths[j] == tracker@.listed_as(components(paths[j]), sources[j])
        } by {
            assert(json_views(r@)[j] == json_view(r[j]));
            assert(views(listed[j].1@) == sources[j]);
        }
        assert(lists_roots(json_views(r@), paths, sources, tracker@));
    }
    r
}

/// The member `key` is a text, or it is absent or null.
pub open spec fn optional_text(j: JsonView, key: Seq<char>) -> bool {
    match j.field(key) {
        Some(m) => m is Text || m is Null,
        None => true,
    }
}

/// The texts that a worktree's JSON record must have, and those it may have.
pub open spec fn has_meta_texts(j: JsonView) -> bool {
    &&& j.text_field("worktree"@) is Some
    &&& j.text_field("source_repo"@) is Some
    &&& j.text_field("base_commit"@) is Some
    &&& j.text_field("branch"@) is Some
    &&& j.text_field("name"@) is Some
    &&& j.text_field("session_id"@) is Some
    &&& j.text_field("created_at"@) is Some
    &&& j.text_field("class"@) is Some
    &&& j.text_field("vcs"@) is Some
    &&& optional_text(j, "agent_id"@)
    &&& optional_text(j, "link"@)
}

/// The record says what the JSON value says.
pub open spec fn meta_matches(m: WorktreeMeta, j: JsonView) -> bool {
    &&& j.text_field("worktree"@) == Some(m.worktree@)
    &&& j.text_field("source_repo"@) == Some(m.source_repo@)
    &&& j.text_field("base_commit"@) == Some(m.base_commit@)
    &&& j.text_field("branch"@) == Some(m.branch@)
    &&& j.text_field("name"@) == Some(m.name@)
    &&& j.text_field("session_id"@) == Some(m.session_id@)
    &&& j.text_field("created_at"@) == Some(m.created_at@)
    &&& j.text_field("class"@) == Some(m.class@)
    &&& j.text_field("vcs"@) == Some(m.vcs@)
    &&& j.text_field("agent_id"@) == text_option(m.agent_id)
    &&& j.text_field("link"@) == text_option(m.link)
}

fn owned_field(v: &serde_json::Value, key: &str) -> (r: Option<String>)
    ensures
        text_option(r) == json_view(*v).text_field(key@),
{
    match str_field(v, key) {
        Some(s) => Some(s.to_owned()),
        None => None,
    }
}

fn has_optional_text(v: &serde_json::Value, key: &str) -> (r: bool)
    ensures
        r == optional_text(json_view(*v), key@),
{
    match value_get(v, key) {
        Some(m) => value_as_str(m).is_some() || value_is_null(m),
        None => true,
    }
}

/// Reads a worktree's record from its JSON form.
pub fn read_worktree_meta(v: &serde_json::Value) -> (r: Option<WorktreeMeta>)
    ensures
        match r {
            Some(m) => has_meta_texts(json_view(*v)) && meta_matches(m, json_view(*v)),
            None => !has_meta_texts(json_view(*v)),
        },
{
    if !has_optional_text(v, "agent_id") || !has_optional_text(v, "link") {
        return None;
    }
    let agent_id = owned_field(v, "agent_id");
    let link = owned_field(v, "link");
    match (
        str_field(v, "worktree"),
        str_field(v, "source_repo"),
        owned_field(v, "base_commit"),
        owned_field(v, "branch"),
        owned_field(v, "name"),
        owned_field(v, "session_id"),
        owned_field(v, "created_at"),
        owned_field(v, "class"),
        owned_field(v, "vcs"),
    ) {
        (
            Some(worktree),
            Some(source_repo),
            Some(base_commit),
            Some(branch),
            Some(name),
            Some(session_id),
            Some(created_at),
            Some(class),
            Some(vcs),
        ) => Some(
            WorktreeMeta {
                worktree: UnixPath::new(worktree),
                source_repo: UnixPath::new(source_repo),
                base_commit,
                branch,
                name,
                agent_id,
                session_id,
                created_at,
                class,
                link,
                vcs,
            },
        ),
        _ => None,
    }
}

/// What the end of a session sweeps.
#[derive(Debug)]
pub struct SessionEnd {
    /// How many worktree roots it leaked.
    pub swept: usize,
    /// Its worktrees, which are disposed of where they are clean.
    pub worktrees: Vec<WorktreeMeta>,
}

/// A worktree that was mounted, and its key.
#[derive(Debug)]
pub struct MountedWorktree {
    pub contributor: String,
    pub worktree: UnixPath,
}

/// A stop that was allowed: whose, and the worktree to dispose of.
#[derive(Debug)]
pub struct SubagentStop {
    pub agent_id: String,
    pub worktree: Option<UnixPath>,
}

/// Whether a stop may be held up for lingering worktrees: a first top-level stop
/// that nothing else blocks.
pub open spec fn may_nag(name: Seq<char>, raw: JsonView, has_result: bool) -> bool {
    &&& name == "post-agent/require-release"@
    &&& host_text(raw, "hook_event_name"@) == Some("Stop"@)
    &&& !(raw.field("stop_hook_active"@) matches Some(f) && f.boolean() == Some(true))
    &&& !has_result
}

/// Whether a request is the stop of a subagent that is allowed.
pub open spec fn stops_subagent(name: Seq<char>, raw: JsonView, blocked: bool) -> bool {
    &&& name == "post-agent/require-release"@
    &&& host_text(raw, "hook_event_name"@) == Some("SubagentStop"@)
    &&& !blocked
}

/// What the end of a session sweeps, from the state before it.
pub open spec fn ends_session(v: HookView, session: Seq<char>, end: SessionEnd) -> bool {
    &&& end.swept == match v.tracker {
        Some(t) => t.with_prefix(worktree_prefix(session)).len(),
        None => 0,
    }
    &&& meta_keys(end.worktrees@).no_duplicates()
    &&& meta_keys(end.worktrees@).to_set() == v.registry.of_session(session)
    &&& forall|i: int|
        0 <= i < end.worktrees@.len() ==> (#[trigger] end.worktrees@[i])
            == v.registry.metas[end.worktrees@[i].worktree.key()]
}

/// Whether a creation carries the record of its worktree.
pub open spec fn carries_meta(raw: JsonView) -> bool {
    raw.field("worktree_meta"@) matches Some(j) && has_meta_texts(j)
}

/// The state after a creation: with the record that it carries, if any.
pub open spec fn created(before: HookView, raw: JsonView, after: HookView) -> bool {
    if carries_meta(raw) {
        exists|m: WorktreeMeta| #[trigger]
            meta_matches(m, raw.field("worktree_meta"@)->0) && after == before.registered(m)
    } else {
        after == before
    }
}

/// The worktrees of a session that linger at its stop.
pub open spec fn lingering_at(
    v: HookView,
    session: Seq<char>,
    raw: JsonView,
    present: Set<PathKey>,
) -> Set<PathKey> {
    lingering(
        v.registry,
        session,
        mounted_keys(v.worktrees),
        reported_running(raw),
        present,
    )
}

/// The message names these worktrees as their records spell them; without any
/// there is none.
pub open spec fn reminds(
    r: Option<String>,
    worktrees: Set<PathKey>,
    metas: Map<PathKey, WorktreeMeta>,
    message: spec_fn(Seq<Seq<char>>) -> Seq<char>,
) -> bool {
    match r {
        None => worktrees == Set::<PathKey>::empty(),
        Some(m) => worktrees != Set::<PathKey>::empty() && exists|paths: Seq<Seq<char>>| #[trigger]
            names_all(paths, worktrees, metas) && m@ == message(paths),
    }
}

/// Whether a request draws the advice about merged worktrees.
pub open spec fn may_advise(name: Seq<char>, raw: JsonView) -> bool {
    name == "post-agent/require-release"@ && main_agent_stop(raw)
}

impl HookState {
    /// Every part is in order.
    pub open spec fn wf(&self) -> bool {
        &&& self.tracker is Some ==> self.tracker->0.wf()
        &&& self.ephemeral.wf()
        &&& self.worktrees.wf()
        &&& self.registry.wf()
        &&& self.sightings.wf()
        &&& self.promoted.wf()
        &&& self.nudges.wf()
        &&& self.subagents.wf()
        &&& self.sessions.wf()
        &&& self.handoff.wf()
        &&& self.rounds.wf()
    }

    /// Activity in a directory refreshes every mount above it.
    pub fn touch(&mut self, canonical: &UnixPath, now: u64)
        requires
            old(self).wf(),
        ensures
            final(self).wf(),
            final(self)@ == old(self)@.touched(canonical.key(), now),
    {
        self.ephemeral.touch_covering(canonical, now);
        self.worktrees.touch_covering(canonical, now);
    }

    /// The listing of the served roots.
    pub fn roots_ls(&self) -> (r: serde_json::Value)
        requires
            self.wf(),
        ensures
            exists|rows: Seq<JsonView>| #[trigger]
                roots_answer(rows, self@.tracker) && json_view(r) == JsonView::Object(
                    map![
                        "status"@ => JsonView::Text("ok"@),
                        "roots"@ => JsonView::Array(rows),
                    ],
                ),
    {
        let rows: Vec<serde_json::Value> = match &self.tracker {
            Some(t) => root_rows(t),
            None => Vec::new(),
        };
        assert(roots_answer(json_views(rows@), self@.tracker));
        ObjectBuilder::new().text("status", "ok").put("roots", value_array(rows)).finish()
    }

    /// The listing of the worktrees: one row for each record, with what git says
    /// about it.
    pub fn worktree_ls(&self, metas: &[WorktreeMeta], facts: &[RowFacts]) -> (r: serde_json::Value)
        requires
            self.wf(),
            metas@.len() == facts@.len(),
        ensures
            exists|rows: Seq<JsonView>, states: Seq<Seq<char>>| #[trigger]
                worktree_rows(rows, states, metas@, facts@, self@.worktrees) && json_view(r)
                    == JsonView::Object(
                    map![
                        "status"@ => JsonView::Text("ok"@),
                        "worktrees"@ => JsonView::Array(rows),
                    ],
                ),
    {
        let mut rows: Vec<serde_json::Value> = Vec::new();
        let ghost mut states: Seq<Seq<char>> = Seq::empty();
        let mut i: usize = 0;
        while i < metas.len()
            invariant
                i <= metas.len(),
                self.wf(),
                metas@.len() == facts@.len(),
                rows.len() == i,
                states.len() == i,
                forall|j: int|
                    0 <= j < i ==> root_state(
                        self@.worktrees,
                        metas@[j].worktree.key(),
                        facts@[j].present,
                        #[trigger] states[j],
                    ),
                forall|j: int|
                    0 <= j < i ==> json_view(#[trigger] rows[j]) == JsonView::Object(
                        row_members(metas@[j], facts@[j], states[j]),
                    ),
            decreases metas.len() - i,
        {
            let row = worktree_ls_row(&metas[i], &self.worktrees, &facts[i]);
            proof {
                let state = choose|state: Seq<char>| #[trigger]
                    root_state(
                        self.worktrees@,
                        metas@[i as int].worktree.key(),
                        facts@[i as int].present,
                        state,
                    ) && json_view(row) == JsonView::Object(
                        row_members(metas@[i as int], facts@[i as int], state),
                    );
                states = states.push(state);
            }
            rows.push(row);
            i += 1;
        }
        proof {
            assert forall|j: int| 0 <= j < metas@.len() implies (#[trigger] json_views(rows@)[j])
                == JsonView::Object(row_members(metas@[j], facts@[j], states[j])) && root_state(
                self@.worktrees,
                metas@[j].worktree.key(),
                facts@[j].present,
                states[j],
            ) by {
                assert(json_views(rows@)[j] == json_view(rows[j]));
            }
            assert(worktree_rows(json_views(rows@), states, metas@, facts@, self@.worktrees));
        }
        ObjectBuilder::new().text("status", "ok").put("worktrees", value_array(rows)).finish()
    }

    /// Completes the removal of a worktree: where it is gone, its root is retired
    /// in the same breath. `summary` is what was dirty in it, and is told where
    /// the removal was forced. Returns the answer and the contributors that let
    /// go.
    pub fn handle_worktree_rm(
        &mut self,
        worktree: &UnixPath,
        disposition: &Disposition,
        force: bool,
        summary: Option<&str>,
    ) -> (r: (serde_json::Value, Vec<String>))
        requires
            old(self).wf(),
        ensures
            final(self).wf(),
            json_view(r.0) == JsonView::Object(
                removal_members(
                    *disposition,
                    worktree@,
                    if force {
                        str_option(summary)
                    } else {
                        None
                    },
                ),
            ),
            final(self)@ == if disposition.gone() {
                old(self)@.retired(worktree.key())
            } else {
                old(self)@
            },
            views(r.1@).no_duplicates(),
            views(r.1@).to_set() == match old(self)@.tracker {
                Some(t) => if disposition.gone() {
                    t.holders(worktree.key())
                } else {
                    Set::empty()
                },
                None => Set::empty(),
            },
    {
        let discarded = if force {
            summary
        } else {
            None
        };
        let answer = worktree_rm_response(disposition, worktree, discarded);
        let mut gone: Vec<String> = Vec::new();
        if disposition.is_disposed() {
            if let Some(t) = &mut self.tracker {
                gone = retire_root(t, &mut self.worktrees, worktree);
            }
        }
        (answer, gone)
    }

    /// A conversation is about to call the model: whether it is taught now.
    pub fn first_sighting(&mut self, session_id: &str) -> (r: serde_json::Value)
        requires
            old(self).wf(),
        ensures
            final(self).wf(),
            final(self)@ == old(self)@.sighted(session_id@),
            json_view(r) == JsonView::Object(
                map!["inject"@ => JsonView::Bool(!old(self)@.sightings.contains(session_id@))],
            ),
    {
        let first = self.sightings.see(session_id);
        ObjectBuilder::new().flag("inject", first).finish()
    }

    /// A session ends: it is forgotten, and so are its mounted worktrees and its
    /// subagents.
    pub fn session_end(&mut self, session_id: &str) -> (r: SessionEnd)
        requires
            old(self).wf(),
        ensures
            final(self).wf(),
            final(self)@ == old(self)@.ended(session_id@),
            ends_session(old(self)@, session_id@, r),
    {
        self.sessions.remove(session_id);
        let mut swept: usize = 0;
        if let Some(t) = &mut self.tracker {
            let prefix = worktree_contributor_prefix(session_id);
            swept = t.remove_contributors_with_prefix(prefix.as_str());
            self.worktrees.remove_prefix(prefix.as_str());
            self.subagents.clear_session(session_id);
        }
        let worktrees = self.registry.metas_for_session(session_id);
        SessionEnd { swept, worktrees }
    }

    /// A worktree was disposed of at the end of its session: it is forgotten
    /// where it is gone.
    pub fn session_end_disposed(&mut self, worktree: &UnixPath, disposition: &Disposition)
        requires
            old(self).wf(),
        ensures
            final(self).wf(),
            final(self)@ == if disposition.gone() {
                old(self)@.forgotten(worktree.key())
            } else {
                old(self)@
            },
    {
        if disposition.is_disposed() {
            self.registry.forget(worktree);
        }
    }

    /// A worktree was created: it is registered where the payload carries its
    /// record. Returns whether it does.
    pub fn worktree_create(&mut self, raw: &serde_json::Value) -> (r: bool)
        requires
            old(self).wf(),
        ensures
            final(self).wf(),
            r == carries_meta(json_view(*raw)),
            created(old(self)@, json_view(*raw), final(self)@),
    {
        match value_get(raw, "worktree_meta") {
            Some(v) => match read_worktree_meta(v) {
                Some(meta) => {
                    self.registry.register(meta);
                    true
                },
                None => false,
            },
            None => false,
        }
    }

    /// A subagent starts: it is recorded under its session, and the worktree it
    /// works in is mounted where it belongs to a served project.
    pub fn subagent_start(
        &mut self,
        session_id: &str,
        agent_id: Option<&str>,
        started_at: String,
        facts: Option<&WorktreeFacts>,
    ) -> (r: Option<MountedWorktree>)
        requires
            old(self).wf(),
        ensures
            final(self).wf(),
            ({
                let joined = old(self)@.joined(session_id@, str_option(agent_id), started_at@);
                if old(self)@.auto_mounts(facts) {
                    &&& r matches Some(m) && m.contributor@ == worktree_key(
                        session_id@,
                        facts->0.worktree@,
                    ) && m.worktree@ == facts->0.worktree@
                    &&& final(self)@ == joined.mounted(session_id@, facts->0.worktree@)
                } else {
                    r is None && final(self)@ == joined
                }
            }),
    {
        if let Some(id) = agent_id {
            self.subagents.start(session_id, id, started_at);
        }
        let mut r: Option<MountedWorktree> = None;
        if let Some(t) = &mut self.tracker {
            let served = t.global_roots();
            proof {
                assert forall|k: PathKey| keys(served@).contains(k) == t@.union().contains(k) by {
                    assert(keys(served@).to_set().contains(k) == keys(served@).contains(k));
                }
            }
            if let Some(worktree) = worktree_to_auto_mount(facts, served.as_slice()) {
                let contributor = worktree_contributor(session_id, &worktree);
                let mut roots: Vec<UnixPath> = Vec::new();
                roots.push(worktree.duplicate());
                proof {
                    lemma_only(roots@);
                }
                t.set_roots(contributor.as_str(), roots);
                self.worktrees.track(contributor.as_str(), &worktree);
                r = Some(MountedWorktree { contributor, worktree });
            }
        }
        r
    }

    /// Takes a mount down, because its directory went before it could be watched
    /// or because its worktree is removed.
    pub fn unmount(&mut self, contributor: &str)
        requires
            old(self).wf(),
        ensures
            final(self).wf(),
            final(self)@ == old(self)@.unmounted(contributor@),
    {
        if let Some(t) = &mut self.tracker {
            reap_worktree_root(t, &mut self.worktrees, contributor);
        }
    }

    /// A worktree is removed: the contributor that mounted it is taken down. That
    /// is a worktree contributor which declares it, or the key of its path where
    /// there is none. Returns it; nothing without a tracker.
    pub fn worktree_remove(&mut self, session_id: &str, canonical: &UnixPath) -> (r: Option<String>)
        requires
            old(self).wf(),
        ensures
            final(self).wf(),
            match old(self)@.tracker {
                None => r is None && final(self)@ == old(self)@,
                Some(t) => r matches Some(c) && mounts_worktree(t, session_id@, canonical@, c@)
                    && final(self)@ == old(self)@.unmounted(c@),
            },
    {
        let contributor: String = match &self.tracker {
            None => {
                return None;
            },
            Some(t) => {
                let ghost mounts = t@.holders(canonical.key()).intersect(
                    t@.with_prefix(WORKTREE_CONTRIBUTOR_PREFIX@),
                );
                let c = match find_mount(t, canonical) {
                    Some(c) => {
                        assert(mounts.contains(c@));
                        c
                    },
                    None => worktree_contributor(session_id, canonical),
                };
                assert(mounts_worktree(t@, session_id@, canonical@, c@));
                c
            },
        };
        self.unmount(contributor.as_str());
        Some(contributor)
    }

    /// A permission prompt: the worktrees above its directory are blocked.
    /// Returns how many there are.
    pub fn permission_blocked(&mut self, canonical: &UnixPath) -> (r: usize)
        requires
            old(self).wf(),
        ensures
            final(self).wf(),
            final(self)@ == old(self)@.blocked(canonical.key()),
            r == worktrees_covering(old(self)@.worktrees, canonical.key()).len(),
    {
        self.worktrees.mark_blocked_covering(canonical)
    }

    /// Refreshes the mounts above the touched paths and mounts what they need;
    /// without a tracker nothing happens. Returns what became of each path.
    pub fn ensure_mounts(&mut self, touched: &[TouchedPath], now: u64) -> (r: Vec<
        EphemeralMountVerdict,
    >)
        requires
            old(self).wf(),
        ensures
            final(self).wf(),
            final(self)@ == old(self)@.mounted_for(touched_views(touched@), now),
            verdict_views(r@) == if old(self)@.tracker is Some {
                old(self)@.mount_state().verdicts(touched_views(touched@), now)
            } else {
                Seq::empty()
            },
    {
        if let Some(t) = &mut self.tracker {
            ensure_ephemeral_mounts(t, &mut self.ephemeral, &mut self.worktrees, touched, now)
        } else {
            Vec::new()
        }
    }

    /// Pins a root: the commands declare it, and where activity had mounted it,
    /// it no longer expires. Returns whether it had.
    pub fn roots_add(&mut self, canonical: &UnixPath) -> (r: bool)
        requires
            old(self).wf(),
        ensures
            final(self).wf(),
            r == old(self)@.had_mounted(canonical@),
            final(self)@ == old(self)@.pinned(canonical@),
    {
        let mut upgraded = false;
        if let Some(t) = &mut self.tracker {
            let mut roots: Vec<UnixPath> = Vec::new();
            roots.push(canonical.duplicate());
            proof {
                lemma_only(roots@);
                lemma_hook_is_not_ephemeral(canonical@);
            }
            t.add_roots(HOOK_CONTRIBUTOR, roots.as_slice());
            upgraded = t.remove_root(ephemeral_contributor(canonical).as_str(), canonical);
            if upgraded {
                self.ephemeral.remove(canonical);
            }
        }
        upgraded
    }

    /// Unpins a root. Returns whether the commands declared it; nothing without a
    /// tracker.
    pub fn roots_rm(&mut self, canonical: &UnixPath) -> (r: Option<bool>)
        requires
            old(self).wf(),
        ensures
            final(self).wf(),
            r == match old(self)@.tracker {
                Some(t) => Some(t.declared(HOOK_CONTRIBUTOR@).contains(canonical.key())),
                None => None,
            },
            final(self)@ == old(self)@.unpinned(canonical.key()),
    {
        if let Some(t) = &mut self.tracker {
            Some(t.remove_root(HOOK_CONTRIBUTOR, canonical))
        } else {
            None
        }
    }

    /// A stop is about to be allowed: the reminder that holds it up once, where
    /// worktrees of the session linger. `present` lists the paths that exist.
    pub fn stop_nag(
        &mut self,
        call: &HookCall,
        raw: &serde_json::Value,
        has_result: bool,
        present: &[UnixPath],
    ) -> (r: Option<String>)
        requires
            old(self).wf(),
        ensures
            final(self).wf(),
            ({
                let set = lingering_at(
                    old(self)@,
                    call.session_id@,
                    json_view(*raw),
                    keys(present@).to_set(),
                );
                if may_nag(call.name@, json_view(*raw), has_result) {
                    &&& final(self)@ == old(self)@.nagged(set)
                    &&& reminds(
                        r,
                        set,
                        old(self)@.registry.metas,
                        |paths: Seq<Seq<char>>| linger_message(paths),
                    )
                } else {
                    r is None && final(self)@ == old(self)@
                }
            }),
    {
        if !text_eq(call.name.as_str(), "post-agent/require-release") || !is_host_event(raw, "Stop")
            || flag_field(raw, "stop_hook_active") || has_result {
            return None;
        }
        lingering_worktree_nag(
            &mut self.registry,
            &self.worktrees,
            call.session_id.as_str(),
            raw,
            present,
        )
    }

    /// The advice about merged worktrees at the main agent's stop. `present` lists
    /// the paths that exist, `merged` those whose branch is merged.
    pub fn merged_nudge(
        &mut self,
        call: &HookCall,
        raw: &serde_json::Value,
        present: &[UnixPath],
        merged: &[UnixPath],
    ) -> (r: Option<String>)
        requires
            old(self).wf(),
        ensures
            final(self).wf(),
            ({
                let set = merged_lingering(
                    old(self)@.registry,
                    call.session_id@,
                    keys(merged@).to_set(),
                    keys(present@).to_set(),
                );
                if may_advise(call.name@, json_view(*raw)) {
                    &&& final(self)@ == old(self)@.nagged(set)
                    &&& reminds(
                        r,
                        set,
                        old(self)@.registry.metas,
                        |paths: Seq<Seq<char>>| merged_message(paths),
                    )
                } else {
                    r is None && final(self)@ == old(self)@
                }
            }),
    {
        if !text_eq(call.name.as_str(), "post-agent/require-release") || !is_main_agent_stop(raw) {
            return None;
        }
        merged_worktree_nudge(&mut self.registry, call.session_id.as_str(), present, merged)
    }

    /// A subagent stops and nothing blocks it: it leaves the board, and the
    /// countdown of its worktree begins. `worktree` is the canonical worktree
    /// above the directory it stopped in.
    pub fn subagent_stop(
        &mut self,
        call: &HookCall,
        raw: &serde_json::Value,
        blocked: bool,
        worktree: Option<&UnixPath>,
        now: u64,
    ) -> (r: Option<SubagentStop>)
        requires
            old(self).wf(),
        ensures
            final(self).wf(),
            if stops_subagent(call.name@, json_view(*raw), blocked) {
                let agent = text_or_empty(json_view(*raw).text_field("agent_id"@));
                &&& r matches Some(s) && s.agent_id@ == agent && path_option(s.worktree)
                    == match worktree {
                    Some(w) => Some(w@),
                    None => None,
                }
                &&& final(self)@ == old(self)@.stopped(
                    call.session_id@,
                    agent,
                    match worktree {
                        Some(w) => Some(w.key()),
                        None => None,
                    },
                    now,
                )
            } else {
                r is None && final(self)@ == old(self)@
            },
    {
        if !text_eq(call.name.as_str(), "post-agent/require-release") || !is_host_event(
            raw,
            "SubagentStop",
        ) || blocked {
            return None;
        }
        let agent_id = str_or_empty(str_field(raw, "agent_id"));
        self.subagents.stop(call.session_id.as_str(), agent_id.as_str());
        let mut kept: Option<UnixPath> = None;
        if let Some(w) = worktree {
            let _armed = self.worktrees.arm_countdown(w, now);
            kept = Some(w.duplicate());
        }
        Some(SubagentStop { agent_id, worktree: kept })
    }
}

/// The registry after a subagent started.
pub open spec fn subagent_recorded(
    m: SubagentsView,
    session: Seq<char>,
    agent: Seq<char>,
    started_at: Seq<char>,
) -> SubagentsView {
    let list = subagents_of(m, session);
    if agent.len() == 0 {
        m
    } else if has_agent(list, agent) {
        m.insert(session, list)
    } else {
        m.insert(session, list.push(started(agent, started_at)))
    }
}

/// The registry after a subagent stopped.
pub open spec fn subagent_removed(
    m: SubagentsView,
    session: Seq<char>,
    agent: Seq<char>,
) -> SubagentsView {
    let list = without_agent(subagents_of(m, session), agent);
    if agent.len() == 0 || !m.dom().contains(session) {
        m
    } else if list.len() == 0 {
        m.remove(session)
    } else {
        m.insert(session, list)
    }
}

/// The rows of the root listing: none without a tracker.
pub open spec fn roots_answer(rows: Seq<JsonView>, tracker: Option<TrackerView>) -> bool {
    match tracker {
        Some(t) => is_listing(rows, t),
        None => rows.len() == 0,
    }
}

/// The rows of the worktree listing, in the order of the records.
pub open spec fn worktree_rows(
    rows: Seq<JsonView>,
    states: Seq<Seq<char>>,
    metas: Seq<WorktreeMeta>,
    facts: Seq<RowFacts>,
    m: WorktreeMountsView,
) -> bool {
    &&& rows.len() == metas.len()
    &&& states.len() == metas.len()
    &&& forall|i: int|
        0 <= i < metas.len() ==> {
            &&& (#[trigger] rows[i]) == JsonView::Object(row_members(metas[i], facts[i], states[i]))
            &&& root_state(m, metas[i].worktree.key(), facts[i].present, states[i])
        }
}

/// `contributor` is the one to take down for a removed worktree.
pub open spec fn mounts_worktree(
    t: TrackerView,
    session: Seq<char>,
    worktree: Seq<char>,
    contributor: Seq<char>,
) -> bool {
    let mounts = t.holders(components(worktree)).intersect(
        t.with_prefix(WORKTREE_CONTRIBUTOR_PREFIX@),
    );
    if exists|k: Seq<char>| mounts.contains(k) {
        mounts.contains(contributor)
    } else {
        contributor == worktree_key(session, worktree)
    }
}

fn find_mount(t: &RootTracker, worktree: &UnixPath) -> (r: Option<String>)
    requires
        t.wf(),
    ensures
        ({
            let mounts = t@.holders(worktree.key()).intersect(
                t@.with_prefix(WORKTREE_CONTRIBUTOR_PREFIX@),
            );
            match r {
                Some(c) => mounts.contains(c@),
                None => forall|k: Seq<char>| !mounts.contains(k),
            }
        }),
{
    let mounted = t.contributors_with_prefix(WORKTREE_CONTRIBUTOR_PREFIX);
    let ghost names = contributor_names(mounted@);
    let mut i: usize = 0;
    while i < mounted.len()
        invariant
            i <= mounted.len(),
            names == contributor_names(mounted@),
            names.to_set() == t@.with_prefix(WORKTREE_CONTRIBUTOR_PREFIX@),
            forall|j: int|
                0 <= j < mounted.len() ==> keys((#[trigger] mounted[j]).1@).to_set()
                    == t@.contributors[mounted[j].0@].dom(),
            forall|j: int|
                0 <= j < i ==> !t@.contributors[#[trigger] names[j]].dom().contains(worktree.key()),
        decreases mounted.len() - i,
    {
        assert(names[i as int] == mounted@[i as int].0@);
        assert(keys(mounted@[i as int].1@).to_set().contains(worktree.key()) == keys(
            mounted@[i as int].1@,
        ).contains(worktree.key()));
        if crate::ephemeral::contains_path(mounted[i].1.as_slice(), worktree) {
            assert(names.to_set().contains(names[i as int]));
            return Some(mounted[i].0.clone());
        }
        i += 1;
    }
    proof {
        let mounts = t@.holders(worktree.key()).intersect(
            t@.with_prefix(WORKTREE_CONTRIBUTOR_PREFIX@),
        );
        assert forall|k: Seq<char>| !mounts.contains(k) by {
            if mounts.contains(k) {
                assert(names.to_set().contains(k));
                let j = choose|j: int| 0 <= j < names.len() && names[j] == k;
            }
        }
    }
    None
}

/// The answer to a request to pin or unpin that names no path.
pub fn missing_path_answer() -> (r: serde_json::Value)
    ensures
        json_view(r) == JsonView::Object(error_members("missing path"@)),
{
    error_answer("missing path")
}

/// The answer to a pin.
pub fn roots_add_answer(canonical: &UnixPath) -> (r: serde_json::Value)
    ensures
        json_view(r) == JsonView::Object(
            map!["status"@ => JsonView::Text("ok"@), "path"@ => JsonView::Text(canonical@)],
        ),
{
    ObjectBuilder::new().text("status", "ok").text("path", canonical.as_str()).finish()
}

/// The answer to an unpin: it succeeds where the live pin or its configuration
/// entry was removed.
pub fn roots_rm_answer(released: Option<bool>, config_removed: bool, canonical: &UnixPath) -> (r:
    serde_json::Value)
    ensures
        json_view(r) == JsonView::Object(
            match released {
                None => error_members("no root tracker"@),
                Some(removed) => if removed || config_removed {
                    map!["status"@ => JsonView::Text("ok"@), "path"@ => JsonView::Text(canonical@)]
                } else {
                    map![
                        "status"@ => JsonView::Text("not_found"@),
                        "message"@ => JsonView::Text(
                            "root not found in hook-managed roots: "@ + canonical@,
                        ),
                    ]
                },
            },
        ),
{
    match released {
        None => error_answer("no root tracker"),
        Some(removed) => if removed || config_removed {
            roots_add_answer(canonical)
        } else {
            let message = concat2("root not found in hook-managed roots: ", canonical.as_str());
            ObjectBuilder::new().text("status", "not_found").text(
                "message",
                message.as_str(),
            ).finish()
        },
    }
}

/// A session root with the pointer it is owed, if any.
pub struct OwedNudge {
    pub root: UnixPath,
    pub line: Option<String>,
}

/// The first root that is owed a pointer and has not had one.
pub open spec fn first_owed(owed: Seq<OwedNudge>, nudged: Set<PathKey>) -> Option<int>
    decreases owed.len(),
{
    if owed.len() == 0 {
        None
    } else {
        match first_owed(owed.drop_last(), nudged) {
            Some(i) => Some(i),
            None => if owed.last().line is Some && !nudged.contains(owed.last().root.key()) {
                Some(owed.len() - 1)
            } else {
                None
            },
        }
    }
}

/// The root whose pointer is due at the start of a session; a resumed session
/// gets none.
pub open spec fn due_nudge(raw: JsonView, owed: Seq<OwedNudge>, nudged: Set<PathKey>) -> Option<
    int,
> {
    if host_text(raw, "source"@) == Some("resume"@) {
        None
    } else {
        first_owed(owed, nudged)
    }
}

/// The pointer to a missing project configuration at the start of a session:
/// that of the first root that is owed one and has not had it. A resumed session
/// gets none.
pub fn session_start_project_config_nudge(
    nudges: &mut ProjectConfigNudges,
    raw: &serde_json::Value,
    owed: &[OwedNudge],
) -> (r: Option<String>)
    requires
        old(nudges).wf(),
    ensures
        final(nudges).wf(),
        match due_nudge(json_view(*raw), owed@, old(nudges)@) {
            Some(i) => text_option(r) == text_option(owed@[i].line) && final(nudges)@ == old(
                nudges,
            )@.insert(owed@[i].root.key()),
            None => r is None && final(nudges)@ == old(nudges)@,
        },
{
    if let Some(source) = host_str(raw, "source") {
        if text_eq(source, "resume") {
            return None;
        }
    }
    let mut i: usize = 0;
    while i < owed.len()
        invariant
            i <= owed.len(),
            nudges.wf(),
            nudges@ == old(nudges)@,
            first_owed(owed@.take(i as int), old(nudges)@) is None,
            host_text(json_view(*raw), "source"@) != Some("resume"@),
        decreases owed.len() - i,
    {
        proof {
            assert(owed@.take(i + 1).drop_last() =~= owed@.take(i as int));
            assert(owed@.take(i + 1).last() == owed@[i as int]);
        }
        if let Some(line) = &owed[i].line {
            if nudges.mark(&owed[i].root) {
                proof {
                    assert(first_owed(owed@.take(i + 1), old(nudges)@) == Some(i as int));
                    lemma_first_owed(owed@, old(nudges)@, i + 1);
                }
                return Some(line.clone());
            }
            assert(nudges@ =~= old(nudges)@);
        }
        i += 1;
    }
    assert(owed@.take(owed.len() as int) =~= owed@);
    None
}

proof fn lemma_first_owed(owed: Seq<OwedNudge>, nudged: Set<PathKey>, n: int)
    requires
        0 <= n <= owed.len(),
        first_owed(owed.take(n), nudged) is Some,
    ensures
        first_owed(owed, nudged) == first_owed(owed.take(n), nudged),
    decreases owed.len() - n,
{
    if n == owed.len() {
        assert(owed.take(n) =~= owed);
    } else {
        assert(owed.take(n + 1).drop_last() =~= owed.take(n));
        lemma_first_owed(owed, nudged, n + 1);
    }
}

/// The announcement of installs, one line each; nothing where there are none.
pub open spec fn announcement(lines: Seq<Seq<char>>) -> Option<Seq<char>> {
    if lines.len() == 0 {
        None
    } else {
        Some(join_lines(lines))
    }
}

/// A server that is missing: the line that announces its install, and whether
/// the install was kicked off.
pub struct InstallKick {
    pub line: String,
    pub kicked: bool,
}

/// The lines of the installs that were kicked off.
pub open spec fn kicked_lines(kicks: Seq<InstallKick>) -> Seq<Seq<char>>
    decreases kicks.len(),
{
    if kicks.len() == 0 {
        Seq::empty()
    } else if kicks.last().kicked {
        kicked_lines(kicks.drop_last()).push(kicks.last().line@)
    } else {
        kicked_lines(kicks.drop_last())
    }
}

/// Whether a session's start looks for missing servers: the user has opted in,
/// and the session has roots.
pub open spec fn looks_for_servers(enabled: bool, raw: JsonView) -> bool {
    enabled && session_roots(raw).len() > 0
}

/// Whether a session's start looks for missing servers.
pub fn wants_auto_install(enabled: bool, raw: &serde_json::Value) -> (r: bool)
    ensures
        r == looks_for_servers(enabled, json_view(*raw)),
{
    let roots = extract_session_roots(raw);
    assert(views(roots@).len() == roots.len());
    enabled && roots.len() > 0
}

/// What a session's start announces: the installs that were kicked off, one line
/// each; nothing where it does not look for servers or none were.
pub fn session_start_auto_install(
    enabled: bool,
    raw: &serde_json::Value,
    kicks: &[InstallKick],
) -> (r: Option<String>)
    ensures
        text_option(r) == if looks_for_servers(enabled, json_view(*raw)) {
            announcement(kicked_lines(kicks@))
        } else {
            None
        },
{
    if !wants_auto_install(enabled, raw) {
        return None;
    }
    let mut lines: Vec<String> = Vec::new();
    let mut i: usize = 0;
    assert(views(lines@) =~= kicked_lines(kicks@.take(0)));
    while i < kicks.len()
        invariant
            i <= kicks.len(),
            views(lines@) == kicked_lines(kicks@.take(i as int)),
        decreases kicks.len() - i,
    {
        let ghost before = views(lines@);
        proof {
            assert(kicks@.take(i + 1).drop_last() =~= kicks@.take(i as int));
            assert(kicks@.take(i + 1).last() == kicks@[i as int]);
        }
        if kicks[i].kicked {
            lines.push(kicks[i].line.clone());
            assert(views(lines@) =~= before.push(kicks@[i as int].line@));
        }
        i += 1;
    }
    assert(kicks@.take(kicks.len() as int) =~= kicks@);
    assert(views(lines@).len() == lines.len());
    if lines.len() == 0 {
        None
    } else {
        Some(join_lines_text(&lines))
    }
}

/// The text members that ride along with a response.
pub open spec fn with_text(
    m: Map<Seq<char>, JsonView>,
    key: Seq<char>,
    value: Option<Seq<char>>,
) -> Map<Seq<char>, JsonView> {
    match value {
        Some(t) => m.insert(key, JsonView::Text(t)),
        None => m,
    }
}

fn put_text(b: ObjectBuilder, key: &str, value: Option<&str>) -> (r: ObjectBuilder)
    ensures
        r@ == with_text(b@, key@, str_option(value)),
{
    match value {
        Some(t) => b.text(key, t),
        None => b,
    }
}

/// The members of a JSON object, none of any other value.
pub open spec fn members(j: JsonView) -> Map<Seq<char>, JsonView> {
    match j {
        JsonView::Object(m) => m,
        _ => crate::json::no_members(),
    }
}

/// The text of a session's response. A nudge rides along with the result;
/// without nudge and result the line is empty.
pub open spec fn response_text(
    envelope: JsonView,
    has_result: bool,
    session_start_nudge: Option<Seq<char>>,
    merged_nudge: Option<Seq<char>>,
    announcement: Option<Seq<char>>,
) -> Seq<char> {
    let body = if session_start_nudge is Some || merged_nudge is Some || announcement is Some {
        let m = with_text(members(envelope), "session_start_nudge"@, session_start_nudge);
        let m = with_text(m, "merged_nudge"@, merged_nudge);
        json_text(JsonView::Object(with_text(m, "auto_install_announcement"@, announcement)))
    } else if has_result {
        json_text(envelope)
    } else {
        Seq::empty()
    };
    body + "\n"@
}

/// The response line of a session's hook. A nudge rides along with the result;
/// without nudge and result the line is empty.
pub fn session_response(
    envelope: &serde_json::Value,
    has_result: bool,
    session_start_nudge: Option<&str>,
    merged_nudge: Option<&str>,
    announcement: Option<&str>,
) -> (r: String)
    ensures
        r@ == response_text(
            json_view(*envelope),
            has_result,
            str_option(session_start_nudge),
            str_option(merged_nudge),
            str_option(announcement),
        ),
{
    let mut line = if session_start_nudge.is_some() || merged_nudge.is_some()
        || announcement.is_some() {
        let b = ObjectBuilder::from_value(envelope);
        let b = put_text(b, "session_start_nudge", session_start_nudge);
        let b = put_text(b, "merged_nudge", merged_nudge);
        let b = put_text(b, "auto_install_announcement", announcement);
        value_to_string(&b.finish())
    } else if has_result {
        value_to_string(envelope)
    } else {
        String::new()
    };
    line.append("\n");
    line
}

} // verus!
