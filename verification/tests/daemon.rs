use catenary_router::boards::{SessionLive, Sessions};
use catenary_router::clock::{DISCONNECT_GRACE, MILLISECOND, SECOND};
use catenary_router::daemon::{
    bind_daemon_sockets, bind_daemon_sockets_at, boot, cleanup_target, heal_swapped_exe,
    mcp_contributor, mcp_socket_path, parse_root_uris, root_uri_path, roots_wiring, socket_path,
    unmarked_exe, user_config_path, AcceptAction, AcceptEvent, BindFailure, BootFacts, McpRoot,
    RootsWiring, SessionManager, SyncTarget,
};
use catenary_router::path::UnixPath;
use catenary_router::registry::WorktreeMeta;
use catenary_router::subagents::{SessionStatus, SubagentRegistry};

fn p(text: &str) -> UnixPath {
    UnixPath::new(text)
}

fn facts(seed: &[&str], pins: Vec<Option<UnixPath>>) -> BootFacts {
    BootFacts { seed: seed.iter().map(|s| p(s)).collect(), pins, worktrees: Vec::new() }
}

#[test]
fn test_mcp_socket_path_structure() {
    let path = mcp_socket_path(&p("/home/user/.local/state"));
    assert!(
        std::path::Path::new(path.as_str()).ends_with("catenary/catenary-mcp.sock"),
        "mcp_socket_path should end with catenary/catenary-mcp.sock, got: {}",
        path.as_str()
    );
    assert_eq!(path.as_str(), "/home/user/.local/state/catenary/catenary-mcp.sock");
}

#[test]
fn test_socket_path_structure() {
    let path = socket_path(&p("/home/user/.local/state"));
    assert!(
        std::path::Path::new(path.as_str()).ends_with("catenary/catenary.sock"),
        "socket_path should end with catenary/catenary.sock, got: {}",
        path.as_str()
    );
    assert_eq!(path.as_str(), "/home/user/.local/state/catenary/catenary.sock");
}

#[test]
fn the_user_configuration_has_its_place() {
    assert_eq!(user_config_path(&p("/etc/xdg/")).as_str(), "/etc/xdg/catenary/config.toml");
}

fn resolve(root: &McpRoot) -> Option<UnixPath> {
    let path = root_uri_path(root)?;
    let canonical = std::path::Path::new(path.as_str()).canonicalize().ok()?;
    Some(p(canonical.to_str().expect("utf8")))
}

#[test]
fn test_parse_root_uris_valid() {
    let dir = tempfile::tempdir().expect("tempdir");
    let root_path = dir.path().to_path_buf();
    let canonical = root_path.canonicalize().expect("canonicalize");
    let uri = format!("file://{}", root_path.display());

    let roots = vec![McpRoot {
        uri,
        name: Some("test".to_string()),
    }];
    let resolved: Vec<Option<UnixPath>> = roots.iter().map(resolve).collect();
    let result = parse_root_uris(&roots, &resolved);
    assert_eq!(result.len(), 1);
    assert_eq!(result[0], p(canonical.to_str().expect("utf8")));
}

#[test]
fn test_parse_root_uris_non_file() {
    let roots = vec![McpRoot {
        uri: "https://example.com".to_string(),
        name: Some("remote".to_string()),
    }];
    let resolved: Vec<Option<UnixPath>> = roots.iter().map(resolve).collect();
    let result = parse_root_uris(&roots, &resolved);
    assert!(result.is_empty(), "non-file URIs should be skipped");
    // Whatever it is said to resolve to, a remote root has no path.
    assert!(parse_root_uris(&roots, &[Some(p("/x"))]).is_empty());
}

#[test]
fn test_parse_root_uris_nonexistent() {
    let roots = vec![McpRoot {
        uri: "file:///nonexistent/path/that/does/not/exist".to_string(),
        name: None,
    }];
    let resolved: Vec<Option<UnixPath>> = roots.iter().map(resolve).collect();
    let result = parse_root_uris(&roots, &resolved);
    assert!(result.is_empty(), "nonexistent paths should be skipped");
}

#[test]
fn heal_swapped_exe_trims_marker_when_target_lives() {
    assert_eq!(
        heal_swapped_exe(p("/usr/bin/catenary (deleted)"), true).as_str(),
        "/usr/bin/catenary"
    );
}

#[test]
fn heal_swapped_exe_keeps_marker_when_no_living_sibling() {
    let dir = tempfile::tempdir().expect("tempdir");
    let deleted = p(dir.path().join("catenary (deleted)").to_str().expect("utf8"));
    let sibling = unmarked_exe(&deleted).expect("marked");
    let living = std::path::Path::new(sibling.as_str()).is_file();
    assert_eq!(heal_swapped_exe(deleted.clone(), living).as_str(), deleted.as_str());
}

#[test]
fn heal_swapped_exe_passes_unmarked_path_through() {
    let exe = p("/usr/bin/catenary");
    assert_eq!(heal_swapped_exe(exe.clone(), true).as_str(), exe.as_str());
    assert_eq!(heal_swapped_exe(exe.clone(), false).as_str(), exe.as_str());
}

#[test]
fn an_aborted_boot_removes_its_sockets() {
    let mut sockets = bind_daemon_sockets(&p("/state"), Ok(())).expect("bound");
    assert_eq!(
        sockets.guard.on_drop(),
        vec![p("/state/catenary/catenary-mcp.sock"), p("/state/catenary/catenary.sock")]
    );
    let manager = SessionManager::from_sockets(&mut sockets);
    assert!(sockets.guard.on_drop().is_empty(), "the daemon has taken them over");
    assert_eq!(manager.mcp_path().as_str(), "/state/catenary/catenary-mcp.sock");
    assert_eq!(manager.ipc_path().as_str(), "/state/catenary/catenary.sock");
    assert_eq!(manager.connection_count(), 0);
    assert_eq!(manager.session_count(), 0);
}

#[test]
fn a_failed_bind_names_what_failed() {
    let mcp = p("/d/m.sock");
    let ipc = p("/d/i.sock");
    let refused = |f: BindFailure| {
        let sockets = bind_daemon_sockets_at(&mcp, &ipc, Err(f));
        sockets.err().expect("refused")
    };
    assert_eq!(refused(BindFailure::Directory(p("/d"))), "create socket directory: /d");
    assert_eq!(refused(BindFailure::McpSocket), "bind MCP socket: /d/m.sock");
    assert_eq!(refused(BindFailure::IpcSocket), "bind IPC socket: /d/i.sock");
    assert_eq!(
        SessionManager::bind(&p("/s"), Err(BindFailure::McpSocket)).err().as_deref(),
        Some("bind MCP socket: /s/catenary/catenary-mcp.sock")
    );
}

fn manager() -> SessionManager {
    SessionManager::bind_at(&p("/d/m.sock"), &p("/d/i.sock"), Ok(())).expect("bound")
}

#[test]
fn shutdown_on_last_disconnect() {
    let mut m = manager();
    assert_eq!(m.accept_loop(AcceptEvent::McpAccepted, 0), AcceptAction::ServeMcp(0));
    assert_eq!(m.accept_loop(AcceptEvent::McpAccepted, 0), AcceptAction::ServeMcp(1));
    assert_eq!(m.connection_count(), 2);
    let first = m.release_client(7);
    assert_eq!(m.connection_count(), 2, "a client counts until its connection is closed");
    m.connection_closed(first);
    assert_eq!(m.connection_count(), 1);
    assert_eq!(m.accept_loop(AcceptEvent::Disconnect, 10), AcceptAction::Continue);
    assert_eq!(m.grace_deadline(), None, "a client is left");
    let second = m.release_client(8);
    m.connection_closed(second);
    assert_eq!(m.accept_loop(AcceptEvent::Disconnect, 20), AcceptAction::Continue);
    assert_eq!(m.grace_deadline(), Some(20 + DISCONNECT_GRACE));
    assert_eq!(m.accept_loop(AcceptEvent::Disconnect, 30), AcceptAction::Continue);
    assert_eq!(m.grace_deadline(), Some(20 + DISCONNECT_GRACE), "the window stays");
    assert_eq!(m.accept_loop(AcceptEvent::GraceExpired, 40), AcceptAction::Exit);
}

#[test]
fn grace_window_disarmed_by_reconnect() {
    let mut m = manager().with_grace(SECOND);
    m.accept_loop(AcceptEvent::McpAccepted, 0);
    assert_eq!(m.grace(), SECOND);
    let released = m.release_client(7);
    m.connection_closed(released);
    m.accept_loop(AcceptEvent::Disconnect, 5);
    assert_eq!(m.grace_deadline(), Some(5 + SECOND));
    assert_eq!(m.accept_loop(AcceptEvent::McpAccepted, 6), AcceptAction::ServeMcp(1));
    assert_eq!(m.grace_deadline(), None);
}

#[test]
fn grace_expiry_recheck_spares_recovered_census() {
    let grace: u64 = 250 * MILLISECOND;
    let mut m = manager().with_grace(grace);

    // Nobody is connected: the window opens.
    assert_eq!(m.accept_loop(AcceptEvent::Disconnect, 0), AcceptAction::Continue);
    assert_eq!(m.grace_deadline(), Some(grace));

    // A client comes during the window; the timer that still fires spares it.
    assert_eq!(m.accept_loop(AcceptEvent::McpAccepted, 5), AcceptAction::ServeMcp(0));
    assert_eq!(m.connection_count(), 1);
    assert_eq!(m.accept_loop(AcceptEvent::GraceExpired, grace), AcceptAction::Continue);
    assert_eq!(m.grace_deadline(), None);

    // Back to nobody: a fresh window opens and, unanswered, ends the daemon.
    let released = m.release_client(7);
    m.connection_closed(released);
    assert_eq!(m.accept_loop(AcceptEvent::Disconnect, SECOND), AcceptAction::Continue);
    assert_eq!(m.grace_deadline(), Some(SECOND + grace));
    assert_eq!(m.accept_loop(AcceptEvent::GraceExpired, SECOND + grace), AcceptAction::Exit);
}

#[test]
fn a_window_that_is_not_open_does_not_close() {
    let mut m = manager();
    assert_eq!(m.connection_count(), 0);
    assert_eq!(m.accept_loop(AcceptEvent::GraceExpired, 9), AcceptAction::Continue);
    assert_eq!(m.grace_deadline(), None);
}

#[test]
fn a_late_disconnect_opens_no_window_while_a_client_is_left() {
    let mut m = manager();
    m.accept_loop(AcceptEvent::McpAccepted, 0);
    assert_eq!(m.accept_loop(AcceptEvent::Disconnect, u64::MAX), AcceptAction::Continue);
    assert_eq!(m.grace_deadline(), None);
}

#[test]
fn requests_go_to_the_sessions_where_there_are_any() {
    let mut bare = manager();
    assert_eq!(bare.accept_loop(AcceptEvent::IpcAccepted, 0), AcceptAction::Passthrough);
    assert!(bare.hook_state().is_none());
    let mut m = manager().with_session(facts(&["/seed"], Vec::new()));
    assert_eq!(m.accept_loop(AcceptEvent::IpcAccepted, 0), AcceptAction::Dispatch);
    assert_eq!(m.connection_count(), 0, "a request is no client");
    let state = m.hook_state().expect("sessions");
    assert!(state.tracker.is_some());
}

#[test]
fn a_mismatched_bridge_interrupts_once() {
    let mut m = manager();
    assert!(!m.bridge_hello(Some("2"), "2"));
    assert!(m.bridge_hello(Some("1"), "2"));
    assert!(!m.bridge_hello(Some("1"), "2"));
    assert!(m.bridge_hello(None, "2"));
}

#[test]
fn a_boot_serves_seed_and_pins() {
    let s = boot(BootFacts {
        seed: vec![p("/seed")],
        pins: vec![Some(p("/pin")), None],
        worktrees: vec![WorktreeMeta {
            worktree: p("/wt/a"),
            source_repo: p("/seed"),
            base_commit: "c".to_string(),
            branch: "b".to_string(),
            name: "n".to_string(),
            agent_id: None,
            session_id: "s".to_string(),
            created_at: "t".to_string(),
            class: "agent".to_string(),
            link: None,
            vcs: "git".to_string(),
        }],
    });
    let tracker = s.tracker.as_ref().expect("tracker");
    let listed = tracker.list_roots();
    assert_eq!(listed.len(), 2);
    assert_eq!(listed[0], (p("/pin"), vec!["hook".to_string()]));
    assert_eq!(listed[1], (p("/seed"), vec!["seed:env".to_string()]));
    assert_eq!(s.registry.len(), 1);
}

#[test]
fn the_seed_survives_pin_and_unpin() {
    let mut s = boot(facts(&["/seed"], Vec::new()));
    s.roots_add(&p("/seed"));
    s.roots_rm(&p("/seed"));
    let tracker = s.tracker.as_ref().expect("tracker");
    assert_eq!(tracker.contributors_of_root(&p("/seed")), vec!["seed:env"]);
}

#[test]
fn a_client_declares_and_drops_its_roots() {
    let mut s = boot(facts(&["/seed"], Vec::new()));
    s.client_roots_changed(7, vec![p("/a"), p("/b")]);
    s.client_roots_changed(7, vec![p("/b")]);
    assert_eq!(
        s.tracker.as_ref().expect("tracker").contributors_of_root(&p("/b")),
        vec!["mcp:7"]
    );
    s.client_gone(7);
    let tracker = s.tracker.as_ref().expect("tracker");
    assert_eq!(tracker.global_roots(), vec![p("/seed")]);
    assert_eq!(mcp_contributor(0), "mcp:0");
    assert_eq!(mcp_contributor(120), "mcp:120");
}

#[test]
fn a_leaving_client_lets_go_before_it_stops_counting() {
    let mut m = manager().with_session(facts(&["/seed"], Vec::new()));
    m.accept_loop(AcceptEvent::McpAccepted, 0);
    m.hook_state().expect("sessions").client_roots_changed(7, vec![p("/a")]);
    let released = m.release_client(7);
    let left = m.hook_state().expect("sessions").tracker.as_ref().expect("tracker").global_roots();
    assert_eq!(left, vec![p("/seed")]);
    assert_eq!(m.connection_count(), 1);
    m.connection_closed(released);
    assert_eq!(m.connection_count(), 0);
}

#[test]
fn root_changes_find_their_way() {
    assert_eq!(roots_wiring(true, true, true), RootsWiring::ThroughTracker);
    assert_eq!(roots_wiring(false, true, true), RootsWiring::Direct);
    assert_eq!(roots_wiring(false, true, false), RootsWiring::Direct);
    assert_eq!(roots_wiring(true, true, false), RootsWiring::Nowhere);
    assert_eq!(roots_wiring(true, false, true), RootsWiring::Nowhere);
    assert_eq!(cleanup_target(true, true), SyncTarget::Session);
    assert_eq!(cleanup_target(false, true), SyncTarget::Lsp);
    assert_eq!(cleanup_target(false, false), SyncTarget::Nobody);
}

#[test]
fn a_vanished_root_is_retired() {
    let mut s = boot(facts(&["/wt"], vec![Some(p("/wt")), Some(p("/x"))]));
    let mut released = s.retire(&p("/wt"));
    released.sort();
    assert_eq!(released, vec!["hook", "seed:env"]);
    assert_eq!(s.tracker.as_ref().expect("tracker").global_roots(), vec![p("/x")]);
    assert!(s.retire(&p("/wt")).is_empty(), "once more changes nothing");
}

#[test]
fn a_disk_check_forgets_what_is_gone() {
    let mut s = boot(facts(&["/repo"], Vec::new()));
    let tracker = s.tracker.as_mut().expect("tracker");
    tracker.set_roots("worktree:s:/wt/a", vec![p("/wt/a")]);
    tracker.set_roots("worktree:s:/wt/b", vec![p("/wt/b")]);
    s.worktrees.track("worktree:s:/wt/a", &p("/wt/a"));
    s.worktrees.track("worktree:s:/wt/b", &p("/wt/b"));
    let checked = s.check_disk(&[p("/wt/a"), p("/repo")]);
    assert!(checked.pruned.is_empty());
    assert_eq!(checked.reaped, vec!["worktree:s:/wt/a"]);
    assert_eq!(s.worktrees.mounted_roots(), vec![(p("/wt/b"), false)]);
    let roots = s.tracker.as_ref().expect("tracker").list_roots();
    let names: Vec<&str> = roots.iter().map(|(path, _)| path.as_str()).collect();
    assert_eq!(names, vec!["/repo", "/wt/b"]);
}

#[test]
fn the_session_board_shows_sessions_and_subagents() {
    let mut sessions = Sessions::new();
    let mut subagents = SubagentRegistry::new();
    let raw = serde_json::from_str(
        r#"{"format":"gemini","host_payload":{"workspacePaths":["/a","/b"]}}"#,
    )
    .expect("json");
    let nameless = serde_json::from_str("{}").expect("json");
    sessions.get_or_create("s1", &raw, "t1".to_string());
    assert_eq!(
        sessions.get_or_create("s2", &nameless, "t2".to_string()).as_deref(),
        Some("session connected (unknown)")
    );
    subagents.start("s1", "late", "2".to_string());
    subagents.start("s1", "early", "1".to_string());

    let live = vec![
        SessionLive {
            last_seen: "now".to_string(),
            status: SessionStatus::Working,
            last_action: Some(("diagnostics: 0 errors, 0 warnings".to_string(), "t".to_string())),
            subagents: vec![SessionStatus::Editing, SessionStatus::Idle],
        },
        SessionLive {
            last_seen: "then".to_string(),
            status: SessionStatus::Idle,
            last_action: None,
            subagents: Vec::new(),
        },
    ];
    assert_eq!(sessions.id_at(0), "s1");
    let board = sessions.board(&subagents, &live);
    assert_eq!(board.len(), 2);
    assert_eq!(board[0].id, "s1");
    assert_eq!(board[0].client, "gemini");
    assert_eq!(board[0].roots, vec!["/a", "/b"]);
    assert_eq!(board[0].started_at, "t1");
    assert_eq!(board[0].status, SessionStatus::Working);
    assert_eq!(board[0].subagents[0].id, "early");
    assert_eq!(board[0].subagents[0].status, SessionStatus::Editing);
    assert_eq!(board[0].subagents[1].id, "late");
    assert_eq!(board[1].client, "unknown");
    assert!(board[1].last_action.is_none());
}

#[test]
fn sessions_stand_in_the_order_of_connecting() {
    let mut sessions = Sessions::new();
    let raw = serde_json::from_str("{}").expect("json");
    for id in ["one", "two", "three", "two"] {
        sessions.get_or_create(id, &raw, "t".to_string());
    }
    assert_eq!(sessions.len(), 3);
    sessions.remove("one");
    sessions.remove("nobody");
    sessions.get_or_create("one", &raw, "t".to_string());
    let order: Vec<&str> = (0..sessions.len()).map(|i| sessions.id_at(i)).collect();
    assert_eq!(order, vec!["two", "three", "one"]);
}
