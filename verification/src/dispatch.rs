//! One hook request from end to end: the order in which a request is counted as
//! activity, carried out and answered.

use crate::boards::connected_text;
use crate::claim::{take_claim, taken_members};
use crate::contributor::worktree_key;
use crate::diagnose::{diagnose_reply, nothing_due_reply, receipt, replies, run_members, DiagnoseBatch, DiagnoseReply, RoundOutcome};
use crate::ephemeral::{path_option, touched_views, verdict_views, EphemeralMountVerdict, TouchedPath, WorktreeFacts};
use crate::hook::{announcement, created, due_nudge, ends_session, kicked_lines, looks_for_servers, may_advise, missing_path_answer, mounts_worktree, reminds, response_text, roots_add_answer, roots_answer, session_response, session_start_auto_install, session_start_project_config_nudge, shutdown_answer, stops_subagent, version_answer, worktree_rows, HookCall, HookMethod, HookState, HookView, InstallKick, MountedWorktree, OwedNudge, SessionEnd, SubagentStop};
use crate::json::{json_text, json_view, response_line, str_field, str_option, JsonView};
use crate::path::{components, keys, PathKey, UnixPath};
use crate::payload::{read_recorded, record_read_action, text_or_empty, ReadAction};
use crate::registry::WorktreeMeta;
use crate::text::{decimal, text_eq};
use crate::tracker::text_option;
use crate::worktree::{error_members, merged_lingering, merged_message, RowFacts};
use vstd::prelude::*;

verus! {

/// What the file system, git and the clock say about a request.
pub struct HookFacts {
    /// How many clients are connected.
    pub connections: usize,
    /// The daemon's version.
    pub version: String,
    /// The canonical form of the working directory, where it has one.
    pub cwd: Option<UnixPath>,
    /// The canonical form of the path that the request names, where it has one.
    pub path: Option<UnixPath>,
    /// The worktree in which a subagent starts.
    pub worktree: Option<WorktreeFacts>,
    /// The records of all worktrees.
    pub metas: Vec<WorktreeMeta>,
    /// What git says about each of them.
    pub rows: Vec<RowFacts>,
    /// The time of day.
    pub started_at: String,
}

/// What is left to do for a request.
#[derive(Debug)]
pub enum Served {
    /// Answer this line, and shut down.
    Shutdown(String),
    /// Answer this line.
    Answer(String),
    /// Serve the remaining roots, dispose of the clean worktrees of the session,
    /// and answer an empty line.
    Ended(SessionEnd),
    /// Watch the worktree, where one was mounted, and answer an empty line.
    Started(Option<MountedWorktree>),
    /// Dispose of the worktree whose mount this was, where there was one, and
    /// answer an empty line.
    Removed(Option<String>),
    /// Serve the roots, record the pin, and answer this line.
    Pinned(String),
    /// The request goes on.
    Onward,
}

impl Served {
    /// The request is answered by this line.
    pub open spec fn answers(self, line: Seq<char>) -> bool {
        self matches Served::Answer(l) && l@ == line
    }
}

/// The path as it was found, or as it was written where it was not.
pub open spec fn located(found: Option<UnixPath>, written: Seq<char>) -> Seq<char> {
    match found {
        Some(p) => p@,
        None => written,
    }
}

fn locate(found: &Option<UnixPath>, written: &str) -> (r: UnixPath)
    ensures
        r@ == located(*found, written@),
{
    match found {
        Some(p) => p.duplicate(),
        None => UnixPath::new(written),
    }
}

/// The state once the request is counted as activity.
pub open spec fn after_activity(
    v: HookView,
    activity: Option<Seq<char>>,
    cwd: Option<UnixPath>,
    now: u64,
) -> HookView {
    match activity {
        Some(c) => v.touched(components(located(cwd, c)), now),
        None => v,
    }
}

/// The line that carries a JSON object.
pub open spec fn object_line(members: Map<Seq<char>, JsonView>) -> Seq<char> {
    json_text(JsonView::Object(members)) + "\n"@
}

/// The members of the root listing.
pub open spec fn listing_members(key: Seq<char>, rows: Seq<JsonView>) -> Map<Seq<char>, JsonView> {
    map!["status"@ => JsonView::Text("ok"@), key => JsonView::Array(rows)]
}

/// The line lists the served roots.
pub open spec fn lists_served_roots(line: Seq<char>, v: HookView) -> bool {
    exists|rows: Seq<JsonView>| #[trigger]
        roots_answer(rows, v.tracker) && line == object_line(listing_members("roots"@, rows))
}

/// The line lists the worktrees.
pub open spec fn lists_worktrees(line: Seq<char>, facts: HookFacts, v: HookView) -> bool {
    exists|rows: Seq<JsonView>, states: Seq<Seq<char>>| #[trigger]
        worktree_rows(rows, states, facts.metas@, facts.rows@, v.worktrees) && line == object_line(
            listing_members("worktrees"@, rows),
        )
}

/// What a subagent's start mounts: nothing unless its request names a working
/// directory.
pub open spec fn start_facts(raw: JsonView, worktree: Option<WorktreeFacts>) -> Option<
    &'static WorktreeFacts,
> {
    match (raw.text_field("cwd"@), worktree) {
        (Some(_), Some(f)) => Some(&f),
        _ => None,
    }
}

/// The request is carried out: `before` is the state once it is counted as
/// activity.
pub open spec fn carries_out(
    call: HookCall,
    raw: JsonView,
    facts: HookFacts,
    before: HookView,
    after: HookView,
    r: Served,
) -> bool {
    let session = call.session_id@;
    match call.method {
        HookMethod::Shutdown => r matches Served::Shutdown(line) && line@ == object_line(
            map![
                "status"@ => JsonView::Text("ok"@),
                "connections"@ => JsonView::Number(decimal(facts.connections as nat)),
            ],
        ) && after == before,
        HookMethod::Version => after == before && r.answers(
            object_line(map!["version"@ => JsonView::Text(facts.version@)]),
        ),
        HookMethod::RootsLs => r matches Served::Answer(line) && lists_served_roots(line@, before)
            && after == before,
        HookMethod::WorktreeLs => r matches Served::Answer(line) && lists_worktrees(
            line@,
            facts,
            before,
        ) && after == before,
        HookMethod::FirstSighting => after == before.sighted(session) && r.answers(
            object_line(map!["inject"@ => JsonView::Bool(!before.sightings.contains(session))]),
        ),
        HookMethod::SessionEnd => r matches Served::Ended(end) && ends_session(before, session, end)
            && after == before.ended(session),
        HookMethod::WorktreeCreate => created(before, raw, after) && r.answers("\n"@),
        HookMethod::SubagentStart => {
            let joined = before.joined(session, raw.text_field("agent_id"@), facts.started_at@);
            let place = start_facts(raw, facts.worktree);
            if before.auto_mounts(place) {
                &&& r matches Served::Started(Some(m)) && m.contributor@ == worktree_key(
                    session,
                    place->0.worktree@,
                ) && m.worktree@ == place->0.worktree@
                &&& after == joined.mounted(session, place->0.worktree@)
            } else {
                after == joined && r matches Served::Started(None)
            }
        },
        HookMethod::WorktreeRemove => match (raw.text_field("worktree_path"@), before.tracker) {
            (Some(written), Some(t)) => r matches Served::Removed(Some(c)) && mounts_worktree(
                t,
                session,
                located(facts.path, written),
                c@,
            ) && after == before.unmounted(c@),
            _ => after == before && r matches Served::Removed(None),
        },
        HookMethod::PermissionRequest => r is Onward && after == match call.activity {
            Some(c) => before.blocked(components(located(facts.cwd, c@))),
            None => before,
        },
        HookMethod::EditingStart => after == before && r.answers("{\"status\":\"ok\"}\n"@),
        HookMethod::ClaimTake => after == (HookView { claim: before.claim.consumed(), ..before })
            && r.answers(
            object_line(taken_members(before.claim.staged)),
        ),
        HookMethod::RootsAdd => match raw.text_field("path"@) {
            Some(written) => {
                let root = located(facts.path, written);
                &&& after == before.pinned(root)
                &&& r matches Served::Pinned(line) && line@ == object_line(
                    map!["status"@ => JsonView::Text("ok"@), "path"@ => JsonView::Text(root)],
                )
            },
            None => after == before && r.answers(object_line(error_members("missing path"@))),
        },
        _ => after == before && r is Onward,
    }
}

impl HookState {
    /// Serves a request: it is counted as activity in its working directory before
    /// anything else, then carried out. The requests that need more from outside
    /// go on: a removal of a worktree, a permission prompt, the hit stream, a
    /// diagnose run, the staging of a claim, an unpin, and the hooks of a session.
    pub fn dispatch(
        &mut self,
        call: &HookCall,
        raw: &serde_json::Value,
        facts: &HookFacts,
        now: u64,
    ) -> (r: Served)
        requires
            old(self).wf(),
            facts.metas@.len() == facts.rows@.len(),
        ensures
            final(self).wf(),
            carries_out(
                *call,
                json_view(*raw),
                *facts,
                after_activity(old(self)@, text_option(call.activity), facts.cwd, now),
                final(self)@,
                r,
            ),
    {
        let session = call.session_id.as_str();
        if let Some(written) = &call.activity {
            self.touch(&locate(&facts.cwd, written.as_str()), now);
        }
        match call.method {
            HookMethod::Shutdown => Served::Shutdown(
                response_line(&shutdown_answer(facts.connections)),
            ),
            HookMethod::Version => Served::Answer(
                response_line(&version_answer(facts.version.as_str())),
            ),
            HookMethod::RootsLs => {
                let answer = self.roots_ls();
                let line = response_line(&answer);
                assert(lists_served_roots(line@, self@));
                Served::Answer(line)
            },
            HookMethod::WorktreeLs => {
                let answer = self.worktree_ls(facts.metas.as_slice(), facts.rows.as_slice());
                let line = response_line(&answer);
                assert(lists_worktrees(line@, *facts, self@));
                Served::Answer(line)
            },
            HookMethod::FirstSighting => Served::Answer(
                response_line(&self.first_sighting(session)),
            ),
            HookMethod::SessionEnd => Served::Ended(self.session_end(session)),
            HookMethod::WorktreeCreate => {
                let _carried = self.worktree_create(raw);
                Served::Answer("\n".to_owned())
            },
            HookMethod::SubagentStart => {
                let agent = str_field(raw, "agent_id");
                let place: Option<&WorktreeFacts> = match str_field(raw, "cwd") {
                    Some(_) => facts.worktree.as_ref(),
                    None => None,
                };
                assert(place == start_facts(json_view(*raw), facts.worktree));
                Served::Started(
                    self.subagent_start(session, agent, facts.started_at.clone(), place),
                )
            },
            HookMethod::WorktreeRemove => match str_field(raw, "worktree_path") {
                Some(written) => Served::Removed(
                    self.worktree_remove(session, &locate(&facts.path, written)),
                ),
                None => Served::Removed(None),
            },
            HookMethod::PermissionRequest => {
                if let Some(written) = &call.activity {
                    let _marked = self.permission_blocked(&locate(&facts.cwd, written.as_str()));
                }
                Served::Onward
            },
            HookMethod::EditingStart => Served::Answer(
                crate::hook::editing_start_line().to_owned(),
            ),
            HookMethod::ClaimTake => Served::Answer(response_line(&take_claim(&mut self.handoff))),
            HookMethod::RootsAdd => match str_field(raw, "path") {
                Some(written) => {
                    let root = locate(&facts.path, written);
                    let _upgraded = self.roots_add(&root);
                    Served::Pinned(response_line(&roots_add_answer(&root)))
                },
                None => Served::Answer(response_line(&missing_path_answer())),
            },
            _ => Served::Onward,
        }
    }
}

/// What the hooks of a session made of a request.
pub struct Outcome {
    /// The result in its envelope.
    pub envelope: serde_json::Value,
    /// Whether there is a result.
    pub has_result: bool,
    /// Whether the result holds the agent up.
    pub blocks: bool,
}

/// What the file system, git and the configuration say about a session's hook.
pub struct SessionFacts {
    /// The worktree directories that exist.
    pub present: Vec<UnixPath>,
    /// The worktrees whose branch is merged.
    pub merged: Vec<UnixPath>,
    /// The canonical worktree above the directory in which a subagent stops.
    pub stopped_in: Option<UnixPath>,
    /// The file that the request touches.
    pub touched: Vec<TouchedPath>,
    /// The session's roots, and the pointers that they are owed.
    pub owed: Vec<OwedNudge>,
    /// Whether the user has opted into installs.
    pub auto_install: bool,
    /// The servers that are missing, and whether their installs were kicked off.
    pub installs: Vec<InstallKick>,
}

/// What is left to do for a session's hook.
pub struct SessionServed {
    /// The line to answer.
    pub line: String,
    /// The advice about merged worktrees that the line carries.
    pub merged_nudge: Option<String>,
    /// The subagent that stopped.
    pub stopped: Option<SubagentStop>,
    /// What became of the touched file; where a root was mounted, the roots are
    /// served anew.
    pub verdicts: Vec<EphemeralMountVerdict>,
}

/// Whether a request starts a session.
pub open spec fn starts_session(name: Seq<char>) -> bool {
    name == "session-start/clear-editing"@
}

/// The state once the advice about merged worktrees is given.
pub open spec fn after_advice(
    v: HookView,
    call: HookCall,
    raw: JsonView,
    facts: SessionFacts,
) -> HookView {
    if may_advise(call.name@, raw) {
        v.nagged(merged_at(v, call, facts))
    } else {
        v
    }
}

/// The worktrees of the session that are merged and still there.
pub open spec fn merged_at(v: HookView, call: HookCall, facts: SessionFacts) -> Set<PathKey> {
    merged_lingering(
        v.registry,
        call.session_id@,
        keys(facts.merged@).to_set(),
        keys(facts.present@).to_set(),
    )
}

/// The state once a subagent's stop is carried out.
pub open spec fn after_stop(
    v: HookView,
    call: HookCall,
    raw: JsonView,
    blocks: bool,
    facts: SessionFacts,
    now: u64,
) -> HookView {
    if stops_subagent(call.name@, raw, blocks) {
        v.stopped(
            call.session_id@,
            text_or_empty(raw.text_field("agent_id"@)),
            match facts.stopped_in {
                Some(w) => Some(w.key()),
                None => None,
            },
            now,
        )
    } else {
        v
    }
}

/// The state once the root of the touched file is mounted.
pub open spec fn after_touch(
    v: HookView,
    raw: JsonView,
    facts: SessionFacts,
    now: u64,
) -> HookView {
    if raw.text_field("file_path"@) is Some {
        v.mounted_for(touched_views(facts.touched@), now)
    } else {
        v
    }
}

/// The root whose pointer is due.
pub open spec fn nudge_at(
    v: HookView,
    call: HookCall,
    raw: JsonView,
    facts: SessionFacts,
) -> Option<int> {
    if starts_session(call.name@) {
        due_nudge(raw, facts.owed@, v.nudges)
    } else {
        None
    }
}

/// The state once the pointer is given.
pub open spec fn after_nudge(
    v: HookView,
    call: HookCall,
    raw: JsonView,
    facts: SessionFacts,
) -> HookView {
    match nudge_at(v, call, raw, facts) {
        Some(i) => HookView { nudges: v.nudges.insert(facts.owed@[i].root.key()), ..v },
        None => v,
    }
}

/// The request is finished, from the state `v` and the outcome.
pub open spec fn finishes(
    v: HookView,
    call: HookCall,
    raw: JsonView,
    outcome: Outcome,
    facts: SessionFacts,
    now: u64,
    after: HookView,
    r: SessionServed,
) -> bool {
    let advised = after_advice(v, call, raw, facts);
    let stopped = after_stop(advised, call, raw, outcome.blocks, facts, now);
    let touched = after_touch(stopped, raw, facts, now);
    &&& after == after_nudge(touched, call, raw, facts)
    &&& if may_advise(call.name@, raw) {
        reminds(
            r.merged_nudge,
            merged_at(v, call, facts),
            v.registry.metas,
            |paths: Seq<Seq<char>>| merged_message(paths),
        )
    } else {
        r.merged_nudge is None
    }
    &&& r.stopped is Some == stops_subagent(call.name@, raw, outcome.blocks)
    &&& r.stopped matches Some(s) ==> s.agent_id@ == text_or_empty(raw.text_field("agent_id"@))
        && path_option(s.worktree) == path_option(facts.stopped_in)
    &&& verdict_views(r.verdicts@) == if raw.text_field("file_path"@) is Some
        && stopped.tracker is Some {
        stopped.mount_state().verdicts(touched_views(facts.touched@), now)
    } else {
        Seq::empty()
    }
    &&& r.line@ == response_text(
        json_view(outcome.envelope),
        outcome.has_result,
        match nudge_at(touched, call, raw, facts) {
            Some(i) => text_option(facts.owed@[i].line),
            None => None,
        },
        text_option(r.merged_nudge),
        if starts_session(call.name@) && looks_for_servers(facts.auto_install, raw) {
            announcement(kicked_lines(facts.installs@))
        } else {
            None
        },
    )
}

/// What a session's hook records as it comes in.
pub struct SessionEntered {
    /// The read that the request performs.
    pub read: Option<ReadAction>,
    /// The line that announces a session that was not known yet.
    pub connected: Option<String>,
}

/// Whether a request records the read that it performs.
pub open spec fn records_read(name: Seq<char>) -> bool {
    name == "pre-tool/editing-state"@
}

fn as_str_option(t: &Option<String>) -> (r: Option<&str>)
    ensures
        str_option(r) == text_option(*t),
{
    match t {
        Some(s) => Some(s.as_str()),
        None => None,
    }
}

impl HookState {
    /// A session's hook comes in: the read that it performs is recorded, and the
    /// session is known from now on.
    pub fn enter_session(
        &mut self,
        call: &HookCall,
        raw: &serde_json::Value,
        started_at: String,
    ) -> (r: SessionEntered)
        requires
            old(self).wf(),
        ensures
            final(self).wf(),
            final(self)@ == old(self)@.known(call.session_id@, json_view(*raw), started_at@),
            text_option(r.connected) == if old(self)@.sessions.dom().contains(call.session_id@) {
                None
            } else {
                Some(connected_text(json_view(*raw)))
            },
            if records_read(call.name@) {
                read_recorded(r.read, json_view(*raw), call.session_id@)
            } else {
                r.read is None
            },
    {
        let read: Option<ReadAction> = if text_eq(call.name.as_str(), "pre-tool/editing-state") {
            record_read_action(raw, call.session_id.as_str())
        } else {
            None
        };
        let connected = self.sessions.get_or_create(call.session_id.as_str(), raw, started_at);
        SessionEntered { read, connected }
    }

    /// Finishes a session's hook once its outcome is known: the advice about
    /// merged worktrees, then the stop of a subagent, then the root of the touched
    /// file, then the pointer of a session's start, and the response line.
    pub fn finish_session(
        &mut self,
        call: &HookCall,
        raw: &serde_json::Value,
        outcome: &Outcome,
        facts: &SessionFacts,
        now: u64,
    ) -> (r: SessionServed)
        requires
            old(self).wf(),
        ensures
            final(self).wf(),
            finishes(
                old(self)@,
                *call,
                json_view(*raw),
                *outcome,
                *facts,
                now,
                final(self)@,
                r,
            ),
    {
        let merged_nudge = self.merged_nudge(
            call,
            raw,
            facts.present.as_slice(),
            facts.merged.as_slice(),
        );
        let stopped = self.subagent_stop(call, raw, outcome.blocks, facts.stopped_in.as_ref(), now);
        let verdicts: Vec<EphemeralMountVerdict> = match str_field(raw, "file_path") {
            Some(_) => self.ensure_mounts(facts.touched.as_slice(), now),
            None => {
                let none: Vec<EphemeralMountVerdict> = Vec::new();
                assert(verdict_views(none@) =~= Seq::empty());
                none
            },
        };
        let mut nudge: Option<String> = None;
        let mut installs: Option<String> = None;
        if text_eq(call.name.as_str(), "session-start/clear-editing") {
            nudge = session_start_project_config_nudge(
                &mut self.nudges,
                raw,
                facts.owed.as_slice(),
            );
            installs = session_start_auto_install(
                facts.auto_install,
                raw,
                facts.installs.as_slice(),
            );
        }
        let line = session_response(
            &outcome.envelope,
            outcome.has_result,
            as_str_option(&nudge),
            as_str_option(&merged_nudge),
            as_str_option(&installs),
        );
        SessionServed { line, merged_nudge, stopped, verdicts }
    }
}

/// How a diagnose run begins.
pub enum RunStart {
    /// Nothing is due: this is the answer.
    Answered(DiagnoseReply),
    /// The run goes on once it is admitted; what became of each file's root is
    /// told, and where one was mounted, the roots are served anew.
    Admit(Vec<EphemeralMountVerdict>),
}

/// The seat of a run is taken: that of the root that owns it, none where there is
/// no such root.
pub open spec fn seated(v: HookView, owner: Option<Seq<char>>) -> HookView {
    match owner {
        Some(root) => HookView { rounds: v.rounds.insert(root), ..v },
        None => v,
    }
}

/// The seat of a run is free.
pub open spec fn unseated(v: HookView, owner: Option<Seq<char>>) -> HookView {
    match owner {
        Some(root) => HookView { rounds: v.rounds.remove(root), ..v },
        None => v,
    }
}

/// Whether the seat of a run is free.
pub open spec fn seat_free(v: HookView, owner: Option<Seq<char>>) -> bool {
    owner matches Some(root) ==> !v.rounds.contains(root)
}

impl HookState {
    /// Begins a diagnose run: where nothing is due it is answered at once, else
    /// the roots of the files are mounted first. `touched` says where each file
    /// is; `claimed` whether the receipt announces a takeover.
    pub fn begin_run(
        &mut self,
        batch: &DiagnoseBatch,
        touched: &[TouchedPath],
        claimed: bool,
        now: u64,
    ) -> (r: RunStart)
        requires
            old(self).wf(),
        ensures
            final(self).wf(),
            if batch.files@.len() == 0 {
                &&& r matches RunStart::Answered(reply) && json_view(reply.answer)
                    == JsonView::Object(
                    run_members(false, receipt(Seq::empty(), false, claimed), 0),
                ) && reply.delivered@.len() == 0
                &&& final(self)@ == old(self)@
            } else {
                &&& r matches RunStart::Admit(verdicts) && verdict_views(verdicts@) == if old(
                    self,
                )@.tracker is Some {
                    old(self)@.mount_state().verdicts(touched_views(touched@), now)
                } else {
                    Seq::empty()
                }
                &&& final(self)@ == old(self)@.mounted_for(touched_views(touched@), now)
            },
    {
        if batch.files.len() == 0 {
            RunStart::Answered(nothing_due_reply(claimed))
        } else {
            RunStart::Admit(self.ensure_mounts(touched, now))
        }
    }

    /// Admits a run where no other is under way on its root. Where one is, the
    /// caller waits for it and tries again; `waited` then says so.
    pub fn admit_run(&mut self, batch: &DiagnoseBatch, waited: &mut bool) -> (r: bool)
        requires
            old(self).wf(),
        ensures
            final(self).wf(),
            r == seat_free(old(self)@, text_option(batch.doc_owner)),
            final(self)@ == seated(old(self)@, text_option(batch.doc_owner)),
            *final(waited) == (*old(waited) || !r),
    {
        match &batch.doc_owner {
            Some(root) => self.rounds.claim(root.as_str(), waited),
            None => true,
        }
    }

    /// Ends a run that was admitted: its seat is free again. Where its client is
    /// gone there is no outcome, nothing is answered and no debt is paid.
    pub fn end_run(
        &mut self,
        batch: &DiagnoseBatch,
        outcome: Option<RoundOutcome>,
        followed: bool,
        claimed: bool,
        dirs: &[UnixPath],
    ) -> (r: Option<DiagnoseReply>)
        requires
            old(self).wf(),
        ensures
            final(self).wf(),
            final(self)@ == unseated(old(self)@, text_option(batch.doc_owner)),
            match outcome {
                None => r is None,
                Some(o) => r matches Some(reply) && replies(
                    reply,
                    batch.files@,
                    o,
                    followed,
                    claimed,
                    dirs@,
                ),
            },
    {
        if let Some(root) = &batch.doc_owner {
            self.rounds.release(root.as_str());
        }
        match outcome {
            Some(o) => Some(diagnose_reply(batch.files.as_slice(), o, followed, claimed, dirs)),
            None => None,
        }
    }
}

/// One run at a time per root: while a run is under way none other on its root is
/// admitted, runs on other roots are, and its end frees the seat.
pub proof fn law_one_run_per_root(v: HookView, root: Seq<char>, other: Seq<char>)
    ensures
        !seat_free(seated(v, Some(root)), Some(root)),
        other != root ==> seat_free(seated(v, Some(root)), Some(other)) == seat_free(
            v,
            Some(other),
        ),
        seat_free(unseated(seated(v, Some(root)), Some(root)), Some(root)),
        !v.rounds.contains(root) ==> unseated(seated(v, Some(root)), Some(root)) == v,
{
    if !v.rounds.contains(root) {
        assert(v.rounds.insert(root).remove(root) =~= v.rounds);
    }
}

} // verus!
