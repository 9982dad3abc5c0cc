use catenary_router::claim::{claim_guard, claim_request, handle_claim_stage, take_claim, Claimed};
use catenary_router::clock::{
    EPHEMERAL_ROOT_IDLE_TIMEOUT, HANDOFF_TIMEOUT, SECOND, WORKTREE_KEPT_COUNTDOWN,
};
use catenary_router::daemon::{boot, AcceptAction, AcceptEvent, BootFacts, SessionManager};
use catenary_router::diagnose::{
    diagnose_batch, requested_files, run_action_text, run_milestone_text, DueRoot, NamedFile,
    RoundOutcome, CLAIMED_RECEIPT_LEAD, DIAG_FOLLOWED_NOTE,
};
use catenary_router::dispatch::{HookFacts, Outcome, RunStart, Served, SessionFacts};
use catenary_router::ephemeral::{EphemeralMountVerdict, TouchedPath, WorktreeFacts};
use catenary_router::handoff::HandoffKey;
use catenary_router::hook::{
    classify_method, handle_hook_connection, read_call, roots_rm_answer,
    session_start_auto_install, session_response, wants_auto_install, HookCall, HookMethod,
    HookState, InstallKick, OwedNudge, Passthrough, METHOD_HITSTREAM,
};
use catenary_router::path::UnixPath;
use catenary_router::worktree::{Disposition, RowFacts};

const NOW: u64 = 1_000_000_000_000;

fn p(text: &str) -> UnixPath {
    UnixPath::new(text)
}

fn json(text: &str) -> serde_json::Value {
    serde_json::from_str(text).expect("json")
}

fn state(seed: &[&str]) -> HookState {
    boot(BootFacts {
        seed: seed.iter().map(|s| p(s)).collect(),
        pins: Vec::new(),
        worktrees: Vec::new(),
    })
}

fn facts() -> HookFacts {
    HookFacts {
        connections: 2,
        version: "1.2.3".to_string(),
        cwd: None,
        path: None,
        worktree: None,
        metas: Vec::new(),
        rows: Vec::new(),
        started_at: "2026-06-08T13:10:00.000Z".to_string(),
    }
}

fn serve(state: &mut HookState, request: &str, facts: &HookFacts, now: u64) -> Served {
    let raw = json(request);
    let call = read_call(&raw);
    state.dispatch(&call, &raw, facts, now)
}

fn answer(served: Served) -> String {
    match served {
        Served::Answer(line) => line,
        other => panic!("expected an answer, got {other:?}"),
    }
}

fn served_roots(state: &HookState) -> Vec<String> {
    let tracker = state.tracker.as_ref().expect("tracker");
    tracker.list_roots().iter().map(|(path, _)| path.as_str().to_string()).collect()
}

#[test]
fn method_constants() {
    assert_eq!(METHOD_HITSTREAM, "tool/hitstream");
}

#[test]
fn requests_are_classified_by_name() {
    assert_eq!(classify_method("tool/shutdown"), HookMethod::Shutdown);
    assert_eq!(classify_method("tool/editing-stop"), HookMethod::Diagnose);
    assert_eq!(classify_method("tool/hitstream"), HookMethod::Hitstream);
    assert_eq!(classify_method("pre-tool/claim"), HookMethod::ClaimStage);
    assert_eq!(classify_method("post-agent/require-release"), HookMethod::Session);
    assert_eq!(classify_method("unknown"), HookMethod::Session);

    let call = read_call(&json("{}"));
    assert_eq!(call.name, "unknown");
    assert_eq!(call.session_id, "default");
    assert_eq!(call.activity, None);
    let listing = read_call(&json(r#"{"method":"tool/roots-ls","cwd":"/a"}"#));
    assert_eq!(listing.activity, None, "a listing is no activity");
    let edit = read_call(&json(r#"{"method":"pre-tool/editing-state","cwd":"/a"}"#));
    assert_eq!(edit.activity.as_deref(), Some("/a"));
}

#[test]
fn hook_passthrough_response() {
    match handle_hook_connection("{\"method\":\"session-start/clear-editing\"}\n", 0, "1.2.3") {
        Passthrough::Answer(line) => assert_eq!(line, "\n"),
        other => panic!("{other:?}"),
    }
    match handle_hook_connection("garbage", 0, "1.2.3") {
        Passthrough::Answer(line) => assert_eq!(line, "\n"),
        other => panic!("{other:?}"),
    }
}

#[test]
fn stop_ack_reports_live_connection_count() {
    let mut manager = SessionManager::bind_at(&p("/d/m.sock"), &p("/d/i.sock"), Ok(()))
        .expect("bound");
    manager.accept_loop(AcceptEvent::McpAccepted, NOW);
    let live = manager.connection_count();
    assert_eq!(live, 1);

    let request = "{\"method\":\"tool/shutdown\"}\n";
    match handle_hook_connection(request, live, "1.2.3") {
        Passthrough::Shutdown(line) => {
            let ack = json(line.trim());
            assert_eq!(ack.get("connections").and_then(serde_json::Value::as_u64), Some(1));
            assert_eq!(line, "{\"connections\":1,\"status\":\"ok\"}\n");
        }
        other => panic!("{other:?}"),
    }
    let mut s = state(&[]);
    let one = HookFacts { connections: live, ..facts() };
    match serve(&mut s, request.trim(), &one, NOW) {
        Served::Shutdown(line) => assert_eq!(line, "{\"connections\":1,\"status\":\"ok\"}\n"),
        other => panic!("{other:?}"),
    }
    assert_eq!(manager.accept_loop(AcceptEvent::Shutdown, NOW), AcceptAction::Exit);
}

#[test]
fn a_stop_counts_every_connection() {
    match handle_hook_connection("{\"method\":\"tool/shutdown\"}\n", 3, "1.2.3") {
        Passthrough::Shutdown(line) => {
            assert_eq!(line, "{\"connections\":3,\"status\":\"ok\"}\n");
        }
        other => panic!("{other:?}"),
    }
    let mut s = state(&[]);
    match serve(&mut s, r#"{"method":"tool/shutdown"}"#, &facts(), NOW) {
        Served::Shutdown(line) => assert_eq!(line, "{\"connections\":2,\"status\":\"ok\"}\n"),
        other => panic!("{other:?}"),
    }
}

#[test]
fn version_via_ipc_socket() {
    match handle_hook_connection("{\"method\":\"tool/version\"}\n", 0, "1.2.3") {
        Passthrough::Answer(line) => assert_eq!(line, "{\"version\":\"1.2.3\"}\n"),
        other => panic!("{other:?}"),
    }
}

#[test]
fn version_via_ipc_socket_with_session() {
    let mut s = state(&[]);
    assert_eq!(
        answer(serve(&mut s, r#"{"method":"tool/version"}"#, &facts(), NOW)),
        "{\"version\":\"1.2.3\"}\n"
    );
}

#[test]
fn pre_invocation_first_sighting_injects_once_over_ipc() {
    let mut s = state(&[]);
    let request = r#"{"method":"pre-invocation/first-sighting","session_id":"conv-a"}"#;
    assert_eq!(answer(serve(&mut s, request, &facts(), NOW)), "{\"inject\":true}\n");
    assert_eq!(answer(serve(&mut s, request, &facts(), NOW)), "{\"inject\":false}\n");
    let other = r#"{"method":"pre-invocation/first-sighting","session_id":"conv-b"}"#;
    assert_eq!(answer(serve(&mut s, other, &facts(), NOW)), "{\"inject\":true}\n");
}

#[test]
fn the_served_roots_are_listed() {
    let mut s = state(&["/seed"]);
    let line = answer(serve(&mut s, r#"{"method":"tool/roots-ls"}"#, &facts(), NOW));
    assert_eq!(
        line,
        "{\"roots\":[{\"ephemeral\":false,\"path\":\"/seed\",\"sources\":[\"seed:env\"]}],\
         \"status\":\"ok\"}\n"
    );
    s.tracker = None;
    let line = answer(serve(&mut s, r#"{"method":"tool/roots-ls"}"#, &facts(), NOW));
    assert_eq!(line, "{\"roots\":[],\"status\":\"ok\"}\n");
}

#[test]
fn the_worktrees_are_listed() {
    let mut s = state(&["/seed"]);
    let created = r#"{"method":"worktree-create/log-payload","worktree_meta":{
        "worktree":"/wt/a","source_repo":"/seed","base_commit":"deadbeef","branch":"b",
        "name":"n","agent_id":null,"session_id":"s","created_at":"t","class":"agent","vcs":"git"}}"#;
    assert_eq!(answer(serve(&mut s, created, &facts(), NOW)), "\n");
    assert_eq!(s.registry.len(), 1);

    let mut f = facts();
    f.metas = s.registry.metas_for_session("s");
    f.rows = vec![RowFacts {
        present: true,
        status_dirty: false,
        disposable_clean: true,
        behind_ahead: None,
    }];
    let line = answer(serve(&mut s, r#"{"method":"tool/worktree-ls"}"#, &f, NOW));
    assert_eq!(
        line,
        "{\"status\":\"ok\",\"worktrees\":[{\"class\":\"agent\",\"created_at\":\"t\",\
         \"creator\":\"s / n\",\"dirty\":false,\"path\":\"/wt/a\",\"present\":true,\
         \"root_state\":\"unmounted\"}]}\n"
    );
}

#[test]
fn a_record_must_be_complete_to_be_registered() {
    let mut s = state(&[]);
    for meta in [
        r#"{"worktree":"/wt/a"}"#,
        r#"{"worktree":"/wt/a","source_repo":"/r","base_commit":"c","branch":"b","name":"n",
            "agent_id":7,"session_id":"s","created_at":"t","class":"agent","vcs":"git"}"#,
    ] {
        let request =
            format!(r#"{{"method":"worktree-create/log-payload","worktree_meta":{meta}}}"#);
        assert_eq!(answer(serve(&mut s, &request, &facts(), NOW)), "\n");
    }
    assert_eq!(s.registry.len(), 0);
}

fn start_request(session: &str, agent: &str) -> String {
    format!(
        r#"{{"method":"subagent-start/mount-worktree","session_id":"{session}",
            "agent_id":"{agent}","cwd":"/wt/{agent}"}}"#
    )
}

fn start(state: &mut HookState, session: &str, agent: &str) -> Served {
    let mut f = facts();
    f.cwd = Some(p(&format!("/wt/{agent}")));
    f.worktree = Some(WorktreeFacts {
        worktree: p(&format!("/wt/{agent}")),
        project: p("/repo"),
    });
    serve(state, &start_request(session, agent), &f, NOW)
}

#[test]
fn subagent_start_mounts_worktree_when_canonical_root_tracked() {
    let mut s = state(&["/repo"]);
    match start(&mut s, "sess", "agent") {
        Served::Started(Some(m)) => {
            assert_eq!(m.contributor, "worktree:sess:/wt/agent");
            assert_eq!(m.worktree, p("/wt/agent"));
        }
        other => panic!("{other:?}"),
    }
    assert_eq!(served_roots(&s), vec!["/repo", "/wt/agent"]);
    assert_eq!(s.subagents.for_session("sess").len(), 1);

    // A second start on the mounted worktree mounts nothing.
    assert!(matches!(start(&mut s, "sess", "agent"), Served::Started(None)));
}

#[test]
fn subagent_start_self_scopes_no_mount_for_tracked_root() {
    let mut s = state(&["/elsewhere"]);
    assert!(matches!(start(&mut s, "sess", "agent"), Served::Started(None)));
    assert_eq!(served_roots(&s), vec!["/elsewhere"]);
    assert_eq!(s.subagents.for_session("sess").len(), 1, "it is on the board all the same");
}

#[test]
fn worktree_remove_tears_down_mounted_worktree() {
    let mut s = state(&["/repo"]);
    start(&mut s, "sess", "agent");
    let request = r#"{"method":"worktree-remove/unmount-worktree","session_id":"other",
        "worktree_path":"/alias/agent"}"#;
    let mut f = facts();
    f.path = Some(p("/wt/agent"));
    match serve(&mut s, request, &f, NOW) {
        Served::Removed(Some(contributor)) => assert_eq!(contributor, "worktree:sess:/wt/agent"),
        other => panic!("{other:?}"),
    }
    assert_eq!(served_roots(&s), vec!["/repo"]);

    // Nothing mounts it any more: the key is that of its path.
    match serve(&mut s, request, &facts(), NOW) {
        Served::Removed(Some(contributor)) => {
            assert_eq!(contributor, "worktree:other:/alias/agent");
        }
        other => panic!("{other:?}"),
    }
    let nameless = r#"{"method":"worktree-remove/unmount-worktree"}"#;
    assert!(matches!(serve(&mut s, nameless, &facts(), NOW), Served::Removed(None)));
}

#[test]
fn a_mount_whose_directory_is_gone_is_taken_down() {
    let mut s = state(&["/repo"]);
    start(&mut s, "sess", "agent");
    s.unmount("worktree:sess:/wt/agent");
    assert_eq!(served_roots(&s), vec!["/repo"]);
    assert!(s.worktrees.mounted_roots().is_empty());
}

fn session_facts() -> SessionFacts {
    SessionFacts {
        present: Vec::new(),
        merged: Vec::new(),
        stopped_in: None,
        touched: Vec::new(),
        owed: Vec::new(),
        auto_install: false,
        installs: Vec::new(),
    }
}

fn allowed() -> Outcome {
    Outcome { envelope: json("{}"), has_result: false, blocks: false }
}

fn blocked() -> Outcome {
    Outcome { envelope: json(r#"{"result":{"block":"pay"}}"#), has_result: true, blocks: true }
}

fn stop_request(session: &str, agent: &str, event: &str) -> serde_json::Value {
    json(&format!(
        r#"{{"method":"post-agent/require-release","session_id":"{session}","agent_id":"{agent}",
            "host_payload":{{"hook_event_name":"{event}","cwd":"/wt/{agent}"}}}}"#
    ))
}

#[test]
fn subagent_stop_outcome_gate_blocks_then_arms_countdown() {
    let mut s = state(&["/repo"]);
    start(&mut s, "sess", "agent");
    let raw = stop_request("sess", "agent", "SubagentStop");
    let call = read_call(&raw);
    let mut f = session_facts();
    f.stopped_in = Some(p("/wt/agent"));

    // A stop that is held up is no stop.
    let held = s.finish_session(&call, &raw, &blocked(), &f, NOW);
    assert!(held.stopped.is_none());
    assert_eq!(held.line, "{\"result\":{\"block\":\"pay\"}}\n");
    assert_eq!(s.worktrees.kept_since("worktree:sess:/wt/agent"), None);
    assert_eq!(s.subagents.for_session("sess").len(), 1);

    // One that is allowed keeps the mount and begins the countdown.
    let done = s.finish_session(&call, &raw, &allowed(), &f, NOW + SECOND);
    let stopped = done.stopped.expect("stopped");
    assert_eq!(stopped.agent_id, "agent");
    assert_eq!(stopped.worktree, Some(p("/wt/agent")));
    assert_eq!(done.line, "\n");
    assert_eq!(s.worktrees.kept_since("worktree:sess:/wt/agent"), Some(NOW + SECOND));
    assert!(s.subagents.for_session("sess").is_empty());
    assert_eq!(served_roots(&s), vec!["/repo", "/wt/agent"]);
}

#[test]
fn kept_countdown_expiry_retires_mount_and_leaves_the_dirty_dir() {
    let mut s = state(&["/repo"]);
    start(&mut s, "sess", "agent");
    start(&mut s, "sess", "live");
    let raw = stop_request("sess", "agent", "SubagentStop");
    let mut f = session_facts();
    f.stopped_in = Some(p("/wt/agent"));
    s.finish_session(&read_call(&raw), &raw, &allowed(), &f, NOW);

    assert!(s.retire_lapsed(NOW + WORKTREE_KEPT_COUNTDOWN - 1).is_empty());
    let retired = s.retire_lapsed(NOW + WORKTREE_KEPT_COUNTDOWN);
    assert_eq!(retired.len(), 1);
    assert_eq!(retired[0].contributor, "worktree:sess:/wt/agent");
    assert_eq!(retired[0].root, p("/wt/agent"));
    assert_eq!(retired[0].released, vec!["worktree:sess:/wt/agent"]);
    assert_eq!(served_roots(&s), vec!["/repo", "/wt/live"], "a live worktree never lapses");
}

#[test]
fn subagent_stop_stop_event_leaves_worktree_mounted() {
    let mut s = state(&["/repo"]);
    start(&mut s, "sess", "agent");
    let raw = stop_request("sess", "agent", "Stop");
    let mut f = session_facts();
    f.stopped_in = Some(p("/wt/agent"));
    assert!(s.finish_session(&read_call(&raw), &raw, &allowed(), &f, NOW).stopped.is_none());
    assert_eq!(s.worktrees.kept_since("worktree:sess:/wt/agent"), None);
}

#[test]
fn session_end_sweeps_only_that_sessions_worktree_roots() {
    let mut s = state(&["/repo"]);
    start(&mut s, "sess-a", "a1");
    start(&mut s, "sess-a", "a2");
    start(&mut s, "sess-b", "b1");
    s.enter_session(
        &read_call(&json(r#"{"method":"x","session_id":"sess-a"}"#)),
        &json(r#"{"format":"gemini"}"#),
        "t".to_string(),
    );
    assert_eq!(s.sessions.len(), 1);

    let request = r#"{"method":"session-end/cleanup","session_id":"sess-a"}"#;
    match serve(&mut s, request, &facts(), NOW) {
        Served::Ended(end) => {
            assert_eq!(end.swept, 2);
            assert!(end.worktrees.is_empty());
        }
        other => panic!("{other:?}"),
    }
    assert_eq!(served_roots(&s), vec!["/repo", "/wt/b1"]);
    assert_eq!(s.sessions.len(), 0);
    assert!(s.subagents.for_session("sess-a").is_empty());
    assert_eq!(s.subagents.for_session("sess-b").len(), 1);
}

#[test]
fn a_disposed_worktree_is_forgotten_at_the_session_end() {
    let mut s = state(&[]);
    let created = r#"{"method":"worktree-create/log-payload","worktree_meta":{
        "worktree":"/wt/a","source_repo":"/seed","base_commit":"deadbeef","branch":"b",
        "name":"n","session_id":"s","created_at":"t","class":"agent","vcs":"git"}}"#;
    serve(&mut s, created, &facts(), NOW);
    let end = match serve(
        &mut s,
        r#"{"method":"session-end/cleanup","session_id":"s"}"#,
        &facts(),
        NOW,
    ) {
        Served::Ended(end) => end,
        other => panic!("{other:?}"),
    };
    assert_eq!(end.worktrees.len(), 1);
    let kept = Disposition::KeptDirty { reason: "work".to_string() };
    s.session_end_disposed(&end.worktrees[0].worktree, &kept);
    assert_eq!(s.registry.len(), 1);
    s.session_end_disposed(&end.worktrees[0].worktree, &Disposition::Disposed);
    assert_eq!(s.registry.len(), 0);
}

#[test]
fn a_permission_prompt_blocks_its_worktree_until_the_next_activity() {
    let mut s = state(&["/repo"]);
    start(&mut s, "sess", "agent");
    let request = r#"{"method":"permission-request/blocked","cwd":"/wt/agent/src"}"#;
    assert!(matches!(serve(&mut s, request, &facts(), NOW), Served::Onward));
    assert!(s.worktrees.is_blocked("worktree:sess:/wt/agent"));
    let activity = r#"{"method":"tool/editing-start","cwd":"/wt/agent"}"#;
    assert_eq!(answer(serve(&mut s, activity, &facts(), NOW)), "{\"status\":\"ok\"}\n");
    assert!(!s.worktrees.is_blocked("worktree:sess:/wt/agent"));
}

#[test]
fn ephemeral_root_under_hook_activity_does_not_idle_expire() {
    let mut s = state(&[]);
    let touched = [TouchedPath {
        canonical: p("/proj/notes.txt"),
        enclosing: Some(p("/proj")),
        sensitive: false,
    }];
    assert_eq!(s.ensure_mounts(&touched, NOW), vec![EphemeralMountVerdict::Mount(p("/proj"))]);
    let later = NOW + EPHEMERAL_ROOT_IDLE_TIMEOUT - 1;
    serve(&mut s, r#"{"method":"tool/editing-start","cwd":"/proj/src"}"#, &facts(), later);
    assert!(s.reap_idle(NOW + EPHEMERAL_ROOT_IDLE_TIMEOUT).is_empty());
    assert_eq!(s.reap_idle(later + EPHEMERAL_ROOT_IDLE_TIMEOUT), vec![p("/proj")]);
    assert!(served_roots(&s).is_empty());
}

#[test]
fn first_edit_preheats_the_cold_root_before_any_diagnose() {
    let mut s = state(&[]);
    let raw = json(
        r#"{"method":"pre-tool/editing-state","session_id":"s","cwd":"/proj",
            "file_path":"src/a.rs","format":"gemini","host_payload":{"tool_name":"Edit"}}"#,
    );
    let call = read_call(&raw);
    let entered = s.enter_session(&call, &raw, "t".to_string());
    assert!(entered.read.is_none(), "an edit is no read");
    assert_eq!(entered.connected.as_deref(), Some("session connected (gemini)"));
    assert!(s.enter_session(&call, &raw, "t".to_string()).connected.is_none());

    let mut f = session_facts();
    f.touched = vec![TouchedPath {
        canonical: p("/proj/src/a.rs"),
        enclosing: Some(p("/proj")),
        sensitive: false,
    }];
    let served = s.finish_session(&call, &raw, &allowed(), &f, NOW);
    assert_eq!(served.verdicts, vec![EphemeralMountVerdict::Mount(p("/proj"))]);
    assert_eq!(served_roots(&s), vec!["/proj"]);

    // Without a file the facts are not looked at.
    let bare = json(r#"{"method":"pre-tool/editing-state","session_id":"s"}"#);
    let served = s.finish_session(&read_call(&bare), &bare, &allowed(), &f, NOW);
    assert!(served.verdicts.is_empty());
}

#[test]
fn roots_add_upgrades_ephemeral_to_pinned() {
    let mut s = state(&[]);
    let touched = [TouchedPath {
        canonical: p("/proj/notes.txt"),
        enclosing: Some(p("/proj")),
        sensitive: false,
    }];
    s.ensure_mounts(&touched, NOW);
    let mut f = facts();
    f.path = Some(p("/proj"));
    match serve(&mut s, r#"{"method":"tool/roots-add","path":"/alias"}"#, &f, NOW) {
        Served::Pinned(line) => assert_eq!(line, "{\"path\":\"/proj\",\"status\":\"ok\"}\n"),
        other => panic!("{other:?}"),
    }
    let tracker = s.tracker.as_ref().expect("tracker");
    assert_eq!(tracker.contributors_of_root(&p("/proj")), vec!["hook"]);
    assert!(s.ephemeral.roots().is_empty(), "a pinned root no longer expires");
    assert!(s.reap_idle(u64::MAX).is_empty());

    let missing = answer(serve(&mut s, r#"{"method":"tool/roots-add"}"#, &facts(), NOW));
    assert_eq!(missing, "{\"message\":\"missing path\",\"status\":\"error\"}\n");
}

#[test]
fn an_unpin_is_answered_by_what_it_removed() {
    let mut s = state(&["/seed"]);
    s.roots_add(&p("/proj"));
    assert_eq!(s.roots_rm(&p("/proj")), Some(true));
    assert_eq!(s.roots_rm(&p("/proj")), Some(false));
    assert_eq!(s.roots_rm(&p("/seed")), Some(false), "the seed is no pin");
    assert_eq!(served_roots(&s), vec!["/seed"]);

    let ok = r#"{"path":"/proj","status":"ok"}"#;
    assert_eq!(roots_rm_answer(Some(true), false, &p("/proj")).to_string(), ok);
    assert_eq!(roots_rm_answer(Some(false), true, &p("/proj")).to_string(), ok);
    assert_eq!(
        roots_rm_answer(Some(false), false, &p("/proj")).to_string(),
        r#"{"message":"root not found in hook-managed roots: /proj","status":"not_found"}"#
    );
    s.tracker = None;
    assert_eq!(s.roots_rm(&p("/proj")), None);
    assert_eq!(
        roots_rm_answer(None, false, &p("/proj")).to_string(),
        r#"{"message":"no root tracker","status":"error"}"#
    );
}

#[test]
fn a_stop_is_held_up_once_for_lingering_worktrees() {
    let mut s = state(&[]);
    let created = r#"{"method":"worktree-create/log-payload","worktree_meta":{
        "worktree":"/wt/a","source_repo":"/seed","base_commit":"deadbeef","branch":"b",
        "name":"n","agent_id":"a","session_id":"sess","created_at":"t","class":"agent","vcs":"git"}}"#;
    serve(&mut s, created, &facts(), NOW);
    let raw = stop_request("sess", "", "Stop");
    let call = read_call(&raw);
    let present = [p("/wt/a")];

    assert!(s.stop_nag(&call, &raw, true, &present).is_none(), "something else blocks");
    let retry = json(
        r#"{"method":"post-agent/require-release","session_id":"sess","stop_hook_active":true,
            "host_payload":{"hook_event_name":"Stop"}}"#,
    );
    assert!(s.stop_nag(&call, &retry, false, &present).is_none(), "a retry passes");
    let nag = s.stop_nag(&call, &raw, false, &present).expect("nag");
    assert!(nag.starts_with("1 agent worktree linger (root unmounted, owner not running):"));
    assert!(s.stop_nag(&call, &raw, false, &present).is_none(), "once");

    // Already reminded of, it draws no advice either.
    let mut f = session_facts();
    f.present = vec![p("/wt/a")];
    f.merged = vec![p("/wt/a")];
    let served = s.finish_session(&call, &raw, &allowed(), &f, NOW);
    assert_eq!(served.merged_nudge, None);
    assert_eq!(served.line, "\n");
}

#[test]
fn merged_worktrees_draw_advice_at_the_main_agents_stop() {
    let mut s = state(&[]);
    let created = r#"{"method":"worktree-create/log-payload","worktree_meta":{
        "worktree":"/wt/a","source_repo":"/seed","base_commit":"deadbeef","branch":"b",
        "name":"n","agent_id":"a","session_id":"sess","created_at":"t","class":"agent","vcs":"git"}}"#;
    serve(&mut s, created, &facts(), NOW);
    let mut f = session_facts();
    f.present = vec![p("/wt/a")];
    f.merged = vec![p("/wt/a")];

    let sub = stop_request("sess", "sub", "Stop");
    assert_eq!(s.finish_session(&read_call(&sub), &sub, &allowed(), &f, NOW).line, "\n");
    let main = stop_request("sess", "", "Stop");
    let served = s.finish_session(&read_call(&main), &main, &allowed(), &f, NOW);
    assert_eq!(
        served.line,
        "{\"merged_nudge\":\"1 worktree is already merged into main; \
         `catenary worktree rm` it:\\n  /wt/a\"}\n"
    );
    let again = s.finish_session(&read_call(&main), &main, &blocked(), &f, NOW);
    assert_eq!(again.line, "{\"result\":{\"block\":\"pay\"}}\n");
}

#[test]
fn a_session_start_gets_its_pointer_and_announcement_once() {
    let mut s = state(&[]);
    let owed = || {
        vec![
            OwedNudge { root: p("/plain"), line: None },
            OwedNudge { root: p("/a"), line: Some("no rust-analyzer.toml in /a".to_string()) },
            OwedNudge { root: p("/b"), line: Some("no rust-analyzer.toml in /b".to_string()) },
        ]
    };
    let mut f = session_facts();
    f.owed = owed();
    let kick = |line: &str, kicked: bool| InstallKick { line: line.to_string(), kicked };
    f.auto_install = true;
    f.installs =
        vec![kick("installing one", true), kick("in flight", false), kick("installing two", true)];
    let start = json(
        r#"{"method":"session-start/clear-editing","session_id":"s","host_payload":{"cwd":"/a"}}"#,
    );
    let call = read_call(&start);
    let first = s.finish_session(&call, &start, &allowed(), &f, NOW);
    assert_eq!(
        first.line,
        "{\"auto_install_announcement\":\"installing one\\ninstalling two\",\
         \"session_start_nudge\":\"no rust-analyzer.toml in /a\"}\n"
    );
    f.auto_install = false;
    let second = s.finish_session(&call, &start, &allowed(), &f, NOW);
    assert_eq!(second.line, "{\"session_start_nudge\":\"no rust-analyzer.toml in /b\"}\n");
    assert_eq!(s.finish_session(&call, &start, &allowed(), &f, NOW).line, "\n");

    let mut fresh = state(&[]);
    let resume = json(
        r#"{"method":"session-start/clear-editing","session_id":"s",
            "host_payload":{"source":"resume"}}"#,
    );
    assert_eq!(fresh.finish_session(&call, &resume, &allowed(), &f, NOW).line, "\n");
}

#[test]
fn session_start_auto_install_off_by_default_runs_nothing() {
    let raw = json(r#"{"host_payload":{"cwd":"/a"}}"#);
    let kicks = [InstallKick { line: "installing one".to_string(), kicked: true }];
    assert!(!wants_auto_install(false, &raw));
    assert_eq!(session_start_auto_install(false, &raw, &kicks), None);
    assert!(wants_auto_install(true, &raw));
    assert_eq!(
        session_start_auto_install(true, &raw, &kicks).as_deref(),
        Some("installing one")
    );
    assert_eq!(session_start_auto_install(true, &raw, &[]), None);
    assert!(!wants_auto_install(true, &json("{}")), "a session without roots wants nothing");
}

#[test]
fn a_response_carries_the_result_and_what_rides_along() {
    let envelope = json(r#"{"result":"x"}"#);
    assert_eq!(session_response(&envelope, false, None, None, None), "\n");
    assert_eq!(session_response(&envelope, true, None, None, None), "{\"result\":\"x\"}\n");
    assert_eq!(
        session_response(&envelope, true, None, Some("m"), None),
        "{\"merged_nudge\":\"m\",\"result\":\"x\"}\n"
    );
}

#[test]
fn a_removed_worktree_is_retired_with_its_answer() {
    let mut s = state(&["/repo"]);
    start(&mut s, "sess", "agent");
    s.roots_add(&p("/wt/agent"));
    let kept = Disposition::KeptDirty { reason: "unpushed".to_string() };
    let (answer, gone) = s.handle_worktree_rm(&p("/wt/agent"), &kept, false, Some("M a"));
    assert_eq!(answer["status"], "kept");
    assert!(gone.is_empty());
    assert_eq!(served_roots(&s), vec!["/repo", "/wt/agent"]);

    let (answer, mut gone) =
        s.handle_worktree_rm(&p("/wt/agent"), &Disposition::Disposed, false, Some("M a"));
    assert_eq!(answer["discarded"], serde_json::Value::Null);
    gone.sort();
    assert_eq!(gone, vec!["hook", "worktree:sess:/wt/agent"]);
    assert_eq!(served_roots(&s), vec!["/repo"]);

    let (answer, _) =
        s.handle_worktree_rm(&p("/wt/agent"), &Disposition::Disposed, true, Some("M a"));
    assert_eq!(answer["discarded"], "M a");
}

#[test]
fn a_claim_is_refused_while_a_round_is_in_flight() {
    let mut s = state(&[]);
    let mut waited = false;
    assert!(s.rounds.claim("/other", &mut waited));
    let refusal = claim_guard(&s.rounds, &p("/repo")).expect("refused");
    assert_eq!(
        refusal.to_string(),
        "{\"message\":\"a diagnose round is in flight \u{2014} /repo is actively being diagnosed; \
         try `catenary claim` again once it settles\",\"status\":\"refused\"}"
    );
    s.rounds.release("/other");
    assert!(claim_guard(&s.rounds, &p("/repo")).is_none());
}

#[test]
fn a_claim_is_staged_and_taken_once() {
    let mut s = state(&[]);
    let request = claim_request(&json(r#"{"root":"/repo","format":"gemini","agent_id":"a"}"#))
        .expect("root");
    assert_eq!(request.root, "/repo");
    assert_eq!(request.format, "gemini");
    assert_eq!(request.session_id, "");
    assert_eq!(request.agent_id, "a");
    let refused = claim_request(&json("{}")).err().expect("no root");
    assert_eq!(refused.to_string(), r#"{"message":"missing root","status":"error"}"#);

    let (unlocked, nothing) = handle_claim_stage(&mut s.handoff, &Claimed::Unlocked);
    assert_eq!(unlocked.to_string(), r#"{"status":"unlocked"}"#);
    assert_eq!(nothing, None);
    let (ours, _) = handle_claim_stage(&mut s.handoff, &Claimed::AlreadyOurs);
    assert_eq!(ours.to_string(), r#"{"status":"already_ours"}"#);

    assert!(s.handoff.acquire(HandoffKey::Claim));
    let taken = Claimed::Taken { answer: "claimed /repo".to_string() };
    let (answered, staged) = handle_claim_stage(&mut s.handoff, &taken);
    assert_eq!(answered.to_string(), r#"{"answer":"claimed /repo","status":"staged"}"#);
    assert_eq!(staged.expect("an answer waits").patience, HANDOFF_TIMEOUT);

    let request = r#"{"method":"tool/claim"}"#;
    assert_eq!(
        answer(serve(&mut s, request, &facts(), NOW)),
        "{\"answer\":\"claimed /repo\",\"status\":\"ok\"}\n"
    );
    assert_eq!(
        answer(serve(&mut s, request, &facts(), NOW)),
        "{\"status\":\"not_staged\"}\n"
    );
    assert_eq!(take_claim(&mut s.handoff).to_string(), r#"{"status":"not_staged"}"#);
    assert!(s.handoff.acquire(HandoffKey::Claim), "the permit is free again");
}

#[test]
fn a_run_covers_the_named_files_or_the_due_ones() {
    assert_eq!(
        requested_files(&json(r#"{"files":["/a/x.rs",7,"/b/y.rs"]}"#)),
        vec!["/a/x.rs", "/b/y.rs"]
    );
    assert!(requested_files(&json(r#"{"files":"x"}"#)).is_empty());

    let named = [
        NamedFile { path: p("/b/y.rs"), root: Some(p("/b")) },
        NamedFile { path: p("/a/x.rs"), root: Some(p("/a")) },
        NamedFile { path: p("/loose"), root: None },
        NamedFile { path: p("/b/z.rs"), root: Some(p("/b")) },
    ];
    let scoped = diagnose_batch(&named, &[]);
    assert_eq!(scoped.files, vec![p("/b/y.rs"), p("/a/x.rs"), p("/loose"), p("/b/z.rs")]);
    assert_eq!(scoped.doc_owner.as_deref(), Some("/b"));
    assert_eq!(scoped.claimed_roots, vec![p("/a"), p("/b")]);

    let roots = [
        DueRoot { root: p("/b"), due: vec![p("/b/1")] },
        DueRoot { root: p("/a"), due: vec![p("/a/1"), p("/a/2")] },
    ];
    let bare = diagnose_batch(&[], &roots);
    assert_eq!(bare.files, vec![p("/b/1"), p("/a/1"), p("/a/2")]);
    assert_eq!(bare.doc_owner.as_deref(), Some("/b"));
    assert_eq!(bare.claimed_roots, vec![p("/b"), p("/a")]);

    let nothing = diagnose_batch(&[], &[]);
    assert!(nothing.files.is_empty());
    assert_eq!(nothing.doc_owner, None);
}

#[test]
fn nothing_due_is_answered_at_once() {
    let mut s = state(&[]);
    let batch = diagnose_batch(&[], &[]);
    match s.begin_run(&batch, &[], false, NOW) {
        RunStart::Answered(reply) => assert_eq!(
            reply.answer.to_string(),
            r#"{"covered":0,"output":"","status":"clean"}"#
        ),
        RunStart::Admit(_) => panic!("nothing is due"),
    }
    match s.begin_run(&batch, &[], true, NOW) {
        RunStart::Answered(reply) => assert_eq!(reply.answer["output"], CLAIMED_RECEIPT_LEAD),
        RunStart::Admit(_) => panic!("nothing is due"),
    }
}

#[test]
fn a_run_is_admitted_answered_and_paid() {
    let mut s = state(&[]);
    let named = [
        NamedFile { path: p("/proj/dir"), root: Some(p("/proj")) },
        NamedFile { path: p("/proj/b.rs"), root: Some(p("/proj")) },
    ];
    let batch = diagnose_batch(&named, &[]);
    let touched = [TouchedPath {
        canonical: p("/proj/b.rs"),
        enclosing: Some(p("/proj")),
        sensitive: false,
    }];
    match s.begin_run(&batch, &touched, true, NOW) {
        RunStart::Admit(verdicts) => {
            assert_eq!(verdicts, vec![EphemeralMountVerdict::Mount(p("/proj"))]);
        }
        RunStart::Answered(_) => panic!("there is something to do"),
    }

    let mut first = false;
    assert!(s.admit_run(&batch, &mut first));
    let mut second = false;
    assert!(!s.admit_run(&batch, &mut second));
    assert!(second && !first);

    // The first client is gone: nothing is answered, and the seat is free.
    assert!(s.end_run(&batch, None, first, true, &[]).is_none());
    assert!(s.admit_run(&batch, &mut second));

    let outcome = RoundOutcome {
        dirty: true,
        output: "b.rs: 1 error".to_string(),
        served: vec![p("/proj/dir/a.rs"), p("/proj/./b.rs")],
        errors: 1,
        warnings: 0,
    };
    let reply =
        s.end_run(&batch, Some(outcome), second, true, &[p("/proj/dir")]).expect("answered");
    assert_eq!(reply.answer["status"], "dirty");
    assert_eq!(reply.answer["covered"], 2);
    assert_eq!(
        reply.answer["output"],
        format!("{CLAIMED_RECEIPT_LEAD}\n{DIAG_FOLLOWED_NOTE}\nb.rs: 1 error")
    );
    assert_eq!(reply.delivered, vec![p("/proj/b.rs"), p("/proj/dir/a.rs")]);
    let spelled: Vec<&str> = reply.delivered.iter().map(|f| f.as_str()).collect();
    assert_eq!(spelled, vec!["/proj/b.rs", "/proj/dir/a.rs"]);
    assert!(!s.rounds.any_in_flight());
}

#[test]
fn a_run_is_recorded_in_words() {
    assert_eq!(run_action_text(2, 10), "diagnostics: 2 errors, 10 warnings");
    assert_eq!(run_milestone_text(0, 1, 3), "0 errors, 1 warnings \u{b7} 3 files");
}

#[test]
fn a_session_without_a_tracker_serves_nothing() {
    let mut s = state(&[]);
    s.tracker = None;
    assert!(matches!(start(&mut s, "sess", "agent"), Served::Started(None)));
    let touched = [TouchedPath {
        canonical: p("/proj/notes.txt"),
        enclosing: Some(p("/proj")),
        sensitive: false,
    }];
    assert!(s.ensure_mounts(&touched, NOW).is_empty());
    assert!(!s.roots_add(&p("/proj")));
    assert!(s.retire_lapsed(u64::MAX).is_empty());
    let call: HookCall = read_call(&json(r#"{"method":"tool/editing-stop"}"#));
    let raw = json("{}");
    assert!(matches!(s.dispatch(&call, &raw, &facts(), NOW), Served::Onward));
}
