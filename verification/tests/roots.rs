use catenary_router::clock::{EPHEMERAL_ROOT_IDLE_TIMEOUT, MINUTE, SECOND};
use catenary_router::boards::root_board;
use catenary_router::contributor::{
    ephemeral_contributor, root_is_ephemeral, worktree_contributor, worktree_contributor_session_id,
};
use catenary_router::ephemeral::{
    distinct_paths, ensure_ephemeral_mounts, ephemeral_root_to_mount, reap_idle_ephemeral_roots,
    reap_missing_worktree_roots, resolve_touched_paths, worktree_to_auto_mount,
    EphemeralMountVerdict, TouchedPath, WorktreeFacts,
};
use catenary_router::mounts::{EphemeralMounts, WorktreeMounts};
use catenary_router::path::UnixPath;
use catenary_router::tracker::RootTracker;

fn p(text: &str) -> UnixPath {
    UnixPath::new(text)
}

#[test]
fn single_session_adds_roots() {
    let mut tracker = RootTracker::new();
    tracker.set_roots("mcp:10", vec![p("/foo"), p("/bar")]);

    let global = tracker.global_roots();
    assert_eq!(global.len(), 2);
    assert!(global.contains(&p("/foo")));
    assert!(global.contains(&p("/bar")));
}

#[test]
fn two_sessions_shared_root() {
    let mut tracker = RootTracker::new();
    tracker.set_roots("mcp:10", vec![p("/foo")]);
    tracker.set_roots("mcp:20", vec![p("/foo"), p("/bar")]);

    assert_eq!(tracker.refcount(&p("/foo")), 2);
    assert_eq!(tracker.refcount(&p("/bar")), 1);

    // Remove first session: /foo should survive (refcount 1).
    tracker.remove_contributor("mcp:10");

    let global = tracker.global_roots();
    assert!(global.contains(&p("/foo")), "/foo should survive");
    assert!(global.contains(&p("/bar")), "/bar should survive");
    assert_eq!(tracker.refcount(&p("/foo")), 1);
}

#[test]
fn last_session_removes_root() {
    let mut tracker = RootTracker::new();
    tracker.set_roots("mcp:10", vec![p("/foo")]);
    tracker.set_roots("mcp:20", vec![p("/foo")]);

    // Remove first: still has refcount 1.
    tracker.remove_contributor("mcp:10");
    assert_eq!(tracker.refcount(&p("/foo")), 1);

    // Remove second: refcount 0, gone from global set.
    tracker.remove_contributor("mcp:20");
    assert_eq!(tracker.refcount(&p("/foo")), 0);
    assert!(tracker.global_roots().is_empty());
}

#[test]
fn contributors_of_root_finds_every_holder_across_prefixes() {
    let mut tracker = RootTracker::new();
    let wt = p("/wt/landed");
    tracker.set_roots("worktree:sess:/wt/landed", vec![wt.clone()]);
    tracker.set_roots("ephemeral:/wt/landed", vec![wt.clone()]);
    tracker.set_roots("hook", vec![wt.clone(), p("/other")]);
    tracker.set_roots("mcp:7", vec![p("/other")]);

    let mut holders = tracker.contributors_of_root(&wt);
    holders.sort();
    assert_eq!(
        holders,
        vec![
            "ephemeral:/wt/landed".to_string(),
            "hook".to_string(),
            "worktree:sess:/wt/landed".to_string(),
        ],
        "every contributor declaring the landed path is returned, whatever its prefix",
    );

    // A path held by nobody yields an empty holder set.
    assert!(
        tracker.contributors_of_root(&p("/never/tracked")).is_empty(),
        "an untracked path has no holders",
    );

    for holder in holders {
        assert!(tracker.remove_root(&holder, &wt));
    }
    assert_eq!(
        tracker.refcount(&wt),
        0,
        "the retired root leaves the union once every holder lets go",
    );
    assert!(
        tracker.contributors_of_root(&p("/other")).contains(&"hook".to_string()),
        "a multi-root holder keeps its other roots after the retirement",
    );
    assert!(
        tracker.global_roots().contains(&p("/other")),
        "an unrelated root survives the retirement",
    );
}

#[test]
fn add_dir_increments_refcount() {
    let mut tracker = RootTracker::new();
    tracker.set_roots("mcp:10", vec![p("/foo")]);

    // Transcript scan adds a root for the same session.
    tracker.add_roots("transcript:sess-a", &[p("/bar")]);

    let global = tracker.global_roots();
    assert_eq!(global.len(), 2);
    assert!(global.contains(&p("/foo")));
    assert!(global.contains(&p("/bar")));
}

#[test]
fn duplicate_root_same_session_no_double_count() {
    let mut tracker = RootTracker::new();

    // Same contributor sets the same root via set_roots (idempotent).
    tracker.set_roots("mcp:10", vec![p("/foo")]);
    tracker.set_roots("mcp:10", vec![p("/foo")]);
    assert_eq!(tracker.refcount(&p("/foo")), 1);

    // add_roots also deduplicates within the same contributor.
    tracker.add_roots("mcp:10", &[p("/foo")]);
    assert_eq!(tracker.refcount(&p("/foo")), 1);
}

#[test]
fn set_roots_replaces_previous() {
    let mut tracker = RootTracker::new();
    tracker.set_roots("mcp:10", vec![p("/foo"), p("/bar")]);
    tracker.set_roots("mcp:10", vec![p("/baz")]);

    let global = tracker.global_roots();
    assert_eq!(global.len(), 1);
    assert!(global.contains(&p("/baz")));
    assert!(!global.contains(&p("/foo")));
}

#[test]
fn remove_nonexistent_contributor_is_noop() {
    let mut tracker = RootTracker::new();
    tracker.set_roots("mcp:10", vec![p("/foo")]);
    tracker.remove_contributor("mcp:99");

    assert_eq!(tracker.global_roots().len(), 1);
}

#[test]
fn remove_contributors_with_prefix_removes_all_matching_keys() {
    let mut tracker = RootTracker::new();
    tracker.set_roots("worktree:sess-a:/wt1", vec![p("/wt1")]);
    tracker.set_roots("worktree:sess-a:/wt2", vec![p("/wt2")]);

    let removed = tracker.remove_contributors_with_prefix("worktree:sess-a:");

    assert_eq!(removed, 2, "both worktree keys for the session removed");
    assert!(
        tracker.global_roots().is_empty(),
        "all of the session's worktree roots gone"
    );
}

#[test]
fn remove_contributors_with_prefix_leaves_non_matching_keys() {
    let mut tracker = RootTracker::new();
    tracker.set_roots("worktree:sess-a:/wt1", vec![p("/wt1")]);
    tracker.set_roots("worktree:sess-b:/wt2", vec![p("/wt2")]);
    tracker.set_roots("mcp:10", vec![p("/foo")]);

    let removed = tracker.remove_contributors_with_prefix("worktree:sess-a:");

    assert_eq!(removed, 1, "only the matching session's key removed");
    let global = tracker.global_roots();
    assert!(!global.contains(&p("/wt1")), "sess-a worktree dropped");
    assert!(
        global.contains(&p("/wt2")),
        "sess-b worktree (different prefix) untouched"
    );
    assert!(
        global.contains(&p("/foo")),
        "mcp contributor (different prefix) untouched"
    );
}

#[test]
fn remove_contributors_with_prefix_no_match_is_noop() {
    let mut tracker = RootTracker::new();
    tracker.set_roots("mcp:10", vec![p("/foo")]);

    let removed = tracker.remove_contributors_with_prefix("worktree:sess-z:");

    assert_eq!(removed, 0, "nothing matched the prefix");
    assert_eq!(
        tracker.global_roots().len(),
        1,
        "non-matching contributor survives"
    );
}

#[test]
fn remove_contributors_with_prefix_empty_prefix_removes_all() {
    let mut tracker = RootTracker::new();
    tracker.set_roots("mcp:10", vec![p("/foo")]);
    tracker.set_roots("worktree:sess-a:/wt1", vec![p("/wt1")]);

    // An empty prefix is a prefix of every key; the count must reflect it.
    let removed = tracker.remove_contributors_with_prefix("");

    assert_eq!(removed, 2, "every key starts_with the empty prefix");
    assert!(tracker.global_roots().is_empty());
}

#[test]
fn contributors_with_prefix_returns_matching_keys_with_roots() {
    let mut tracker = RootTracker::new();
    tracker.set_roots("worktree:sess-a:/wt1", vec![p("/wt1")]);
    tracker.set_roots("worktree:sess-b:/wt2", vec![p("/wt2")]);
    tracker.set_roots("mcp:10", vec![p("/foo")]);

    let mut got = tracker.contributors_with_prefix("worktree:");
    got.sort_by(|(a, _), (b, _)| a.cmp(b));

    assert_eq!(got.len(), 2, "only the worktree:* contributors enumerated");
    assert_eq!(got[0].0, "worktree:sess-a:/wt1");
    assert_eq!(got[0].1, vec![p("/wt1")]);
    assert_eq!(got[1].0, "worktree:sess-b:/wt2");
    assert_eq!(got[1].1, vec![p("/wt2")]);
}

#[test]
fn contributors_with_prefix_no_match_is_empty() {
    let mut tracker = RootTracker::new();
    tracker.set_roots("mcp:10", vec![p("/foo")]);

    assert!(
        tracker.contributors_with_prefix("worktree:").is_empty(),
        "no worktree:* contributor: empty enumeration",
    );
}

#[test]
fn reap_missing_worktree_roots_reaps_only_gone_dirs() {
    let mut tracker = RootTracker::new();
    tracker.set_roots("worktree:sess:/base/existing", vec![p("/base/existing")]);
    tracker.set_roots("worktree:sess:/base/gone", vec![p("/base/gone")]);
    // A contributor that is no worktree: never inspected, always kept.
    tracker.set_roots("mcp:1", vec![p("/base/project")]);

    let removed =
        reap_missing_worktree_roots(&mut tracker, &[p("/base/gone"), p("/base/project")]);

    assert_eq!(
        removed,
        vec!["worktree:sess:/base/gone".to_string()],
        "exactly the worktree whose dir is gone is reaped",
    );
    let global = tracker.global_roots();
    assert!(global.contains(&p("/base/existing")));
    assert!(!global.contains(&p("/base/gone")));
    assert!(global.contains(&p("/base/project")));
}

#[test]
fn reap_missing_worktree_roots_noop_when_all_present() {
    let mut tracker = RootTracker::new();
    tracker.set_roots("worktree:sess:/base/wt", vec![p("/base/wt")]);
    tracker.set_roots("mcp:1", vec![p("/base/project")]);

    assert!(
        reap_missing_worktree_roots(&mut tracker, &[]).is_empty(),
        "no worktree dir gone: nothing reaped",
    );
    assert_eq!(tracker.global_roots().len(), 2, "both roots survive");
}

#[test]
fn worktree_contributor_session_id_extracts_the_session() {
    assert_eq!(
        worktree_contributor_session_id(
            "worktree:dc1bdd1b-7b18-4ab8-a42a-0dbea87a271d:/home/mark/wt"
        ),
        Some("dc1bdd1b-7b18-4ab8-a42a-0dbea87a271d"),
        "the session id between the first two colons is recovered",
    );
}

#[test]
fn worktree_contributor_session_id_stops_at_first_path_colon() {
    // A path may itself contain a colon; only the first segment is the id.
    assert_eq!(
        worktree_contributor_session_id("worktree:sess-a:/odd:path/wt"),
        Some("sess-a"),
        "only the segment before the first path colon is the session id",
    );
}

#[test]
fn worktree_contributor_session_id_rejects_malformed_keys() {
    assert_eq!(
        worktree_contributor_session_id("mcp:1"),
        None,
        "a non-worktree contributor has no worktree session id",
    );
    assert_eq!(
        worktree_contributor_session_id("worktree:/no-session-segment"),
        None,
        "a key without a session:path split yields no id",
    );
    assert_eq!(
        worktree_contributor_session_id("worktree::/empty-session"),
        None,
        "an empty session segment is not a usable scope",
    );
}

#[test]
fn worktree_watch_reap_drops_only_the_deleted_root() {
    let mut tracker = RootTracker::new();
    tracker.set_roots("worktree:sess:/base/agent-deleted", vec![p("/base/agent-deleted")]);
    tracker.set_roots("worktree:sess:/base/agent-kept", vec![p("/base/agent-kept")]);
    tracker.set_roots("hook", vec![p("/base/project")]);

    tracker.remove_contributor("worktree:sess:/base/agent-deleted");

    let global = tracker.global_roots();
    assert!(!global.contains(&p("/base/agent-deleted")));
    assert!(global.contains(&p("/base/agent-kept")), "the sibling worktree survives");
    assert!(global.contains(&p("/base/project")), "the pinned root is untouched");
}

#[test]
fn worktree_reap_is_idempotent_across_watch_gc_and_session_end() {
    let mut tracker = RootTracker::new();
    let key = "worktree:sess:/base/agent-x";
    tracker.set_roots(key, vec![p("/base/agent-x")]);
    tracker.set_roots("hook", vec![p("/base/project")]);

    tracker.remove_contributor(key);
    let after_first = tracker.global_roots();
    assert!(!after_first.contains(&p("/base/agent-x")), "reaped on the first pass");
    assert_eq!(after_first.len(), 1);

    tracker.remove_contributor(key);
    assert_eq!(
        tracker.remove_contributors_with_prefix("worktree:sess:"),
        0,
        "no worktree:sess:* contributors left to sweep",
    );
    let after_second = tracker.global_roots();
    assert_eq!(after_second.len(), after_first.len());
    assert!(!after_second.contains(&p("/base/agent-x")));
}

#[test]
fn worktree_mount_race_guard_reaps_dir_gone_at_registration() {
    let dir = tempfile::tempdir().expect("tempdir");
    let base = dir.path().canonicalize().expect("canonicalize");
    let worktree = base.join("agent-raced");
    let worktree_path = p(worktree.to_str().expect("utf8"));
    let project = p(base.join("project").to_str().expect("utf8"));

    let mut tracker = RootTracker::new();
    tracker.set_roots("hook", vec![project.clone()]);
    let contributor = format!("worktree:sess:{}", worktree.display());

    tracker.set_roots(&contributor, vec![worktree_path.clone()]);
    assert!(tracker.global_roots().contains(&worktree_path), "mounted");

    // The guard: the directory is gone, so the mount is taken down at once.
    assert!(!worktree.exists(), "the race-guard precondition holds");
    tracker.remove_contributor(&contributor);

    let global = tracker.global_roots();
    assert!(
        !global.contains(&worktree_path),
        "the dir-gone worktree is reaped immediately, not left mounted",
    );
    assert!(
        global.contains(&project),
        "the project root survives the immediate reap",
    );
}

fn touched(canonical: &str, enclosing: Option<&str>, sensitive: bool) -> TouchedPath {
    TouchedPath {
        canonical: p(canonical),
        enclosing: enclosing.map(p),
        sensitive,
    }
}

#[test]
fn ephemeral_root_to_mount_detects_enclosing_and_skips_covered() {
    let file = touched("/base/Lattice/notes.txt", Some("/base/Lattice"), false);
    assert_eq!(
        ephemeral_root_to_mount(&file, &[]),
        EphemeralMountVerdict::Mount(p("/base/Lattice")),
        "an out-of-root file mounts its enclosing project root",
    );
    assert_eq!(
        ephemeral_root_to_mount(&file, &[p("/base/Lattice")]),
        EphemeralMountVerdict::NoMount,
        "a file under a tracked root is already covered",
    );
    let orphan = touched("/base/loose.txt", None, false);
    assert_eq!(ephemeral_root_to_mount(&orphan, &[]), EphemeralMountVerdict::NoMount);
}

#[test]
fn ephemeral_mount_gate_refuses_sensitive_conversion_only() {
    let secret = touched("/base/Lattice/server.pem", Some("/base/Lattice"), true);
    let plain = touched("/base/Lattice/notes.txt", Some("/base/Lattice"), false);
    assert_eq!(
        ephemeral_root_to_mount(&secret, &[]),
        EphemeralMountVerdict::RefusedSensitive(p("/base/Lattice")),
        "a sensitive out-of-root path never converts into a mount",
    );
    assert_eq!(
        ephemeral_root_to_mount(&plain, &[]),
        EphemeralMountVerdict::Mount(p("/base/Lattice")),
        "a non-sensitive out-of-root path still mounts",
    );
    assert_eq!(
        ephemeral_root_to_mount(&secret, &[p("/base/Lattice")]),
        EphemeralMountVerdict::NoMount,
        "an in-root sensitive path changes nothing: no spurious refusal",
    );
}

#[test]
fn a_mounted_root_covers_the_paths_after_it() {
    let mut tracker = RootTracker::new();
    let mut ephemeral = EphemeralMounts::new();
    let mut worktrees = WorktreeMounts::new();
    let verdicts = ensure_ephemeral_mounts(
        &mut tracker,
        &mut ephemeral,
        &mut worktrees,
        &[
            touched("/a/src/x.rs", Some("/a"), false),
            touched("/a/y.rs", Some("/a"), false),
            touched("/b/key.pem", Some("/b"), true),
        ],
        7 * SECOND,
    );
    assert_eq!(
        verdicts,
        vec![
            EphemeralMountVerdict::Mount(p("/a")),
            EphemeralMountVerdict::NoMount,
            EphemeralMountVerdict::RefusedSensitive(p("/b")),
        ]
    );
    assert_eq!(tracker.global_roots(), vec![p("/a")]);
    assert_eq!(tracker.contributors_of_root(&p("/a")), vec!["ephemeral:/a".to_string()]);
    assert_eq!(
        ephemeral.idle_remaining(&p("/a"), 7 * SECOND, EPHEMERAL_ROOT_IDLE_TIMEOUT),
        Some(7 * MINUTE)
    );
}

#[test]
fn a_batch_touches_each_file_once() {
    let hits = [p("/b/x.rs"), p("/a/y.rs"), p("/b/x.rs"), p("/a/./y.rs")];
    assert_eq!(distinct_paths(&hits), vec![p("/a/y.rs"), p("/b/x.rs")]);
    assert_eq!(distinct_paths(&hits)[0].as_str(), "/a/y.rs");
}

#[test]
fn reap_idle_ephemeral_roots_expires_only_idle() {
    let mut tracker = RootTracker::new();
    let mut mounts = EphemeralMounts::new();
    let idle_root = p("/proj/idle");
    let fresh_root = p("/proj/fresh");
    tracker.set_roots(&ephemeral_contributor(&idle_root), vec![idle_root.clone()]);
    tracker.set_roots(
        &ephemeral_contributor(&fresh_root),
        vec![fresh_root.clone()],
    );

    // Both mounted at t0; only `fresh_root` is refreshed at `later`.
    let t0 = 1000 * SECOND;
    mounts.touch(&idle_root, t0);
    mounts.touch(&fresh_root, t0);
    let later = t0 + 10 * MINUTE;
    mounts.touch(&fresh_root, later);

    let expired = reap_idle_ephemeral_roots(&mut tracker, &mut mounts, later, 5 * MINUTE);
    assert_eq!(
        expired,
        vec![idle_root.clone()],
        "only the idle root expires"
    );

    let global = tracker.global_roots();
    assert!(!global.contains(&idle_root), "idle ephemeral root reaped");
    assert!(
        global.contains(&fresh_root),
        "fresh ephemeral root survives"
    );
    assert!(
        !mounts.roots().contains(&idle_root),
        "reaped clock entry gone"
    );
    assert!(
        mounts.roots().contains(&fresh_root),
        "fresh clock entry kept"
    );
}

#[test]
fn root_board_surfaces_sources_and_idle_remaining() {
    let mut tracker = RootTracker::new();
    let mut mounts = EphemeralMounts::new();

    let pinned = p("/p/Catenary");
    let ephemeral = p("/p/Scratch");
    tracker.add_roots("hook", std::slice::from_ref(&pinned));
    tracker.add_roots("mcp:3", std::slice::from_ref(&pinned));
    tracker.add_roots(
        &ephemeral_contributor(&ephemeral),
        std::slice::from_ref(&ephemeral),
    );
    // Only the ephemeral root carries an idle clock.
    let now = 50 * SECOND;
    mounts.touch(&ephemeral, now);

    // The board sorts by path: Catenary before Scratch.
    let roots = root_board(&tracker, &mounts, now);
    assert_eq!(roots.len(), 2);

    let cat = &roots[0];
    assert_eq!(cat.path, "/p/Catenary");
    assert!(!cat.ephemeral, "pinned root");
    assert_eq!(
        cat.sources,
        vec!["hook".to_string(), "mcp:3".to_string()],
        "the full contributor classes, not just the ephemeral bool",
    );
    assert!(
        cat.idle_remaining_secs.is_none(),
        "a pinned root has no idle clock",
    );

    let scratch = &roots[1];
    assert_eq!(scratch.path, "/p/Scratch");
    assert!(scratch.ephemeral, "ephemeral root");
    assert_eq!(scratch.sources, vec![ephemeral_contributor(&ephemeral)]);
    let remaining = scratch
        .idle_remaining_secs
        .expect("an ephemeral root carries an idle-remaining figure");
    assert!(
        remaining <= EPHEMERAL_ROOT_IDLE_TIMEOUT / SECOND
            && remaining + 5 >= EPHEMERAL_ROOT_IDLE_TIMEOUT / SECOND,
        "idle-remaining sits just under the full band: {remaining}",
    );
    assert_eq!(remaining, 420);
    assert_eq!(
        root_board(&tracker, &mounts, now + 20 * SECOND + 1)[1].idle_remaining_secs,
        Some(399)
    );
    assert_eq!(
        root_board(&tracker, &mounts, now + 60 * MINUTE)[1].idle_remaining_secs,
        Some(0)
    );
}

#[test]
fn worktree_root_is_pinned_class_never_ephemeral() {
    let root = p("/wt/pinned");
    let key = format!("worktree:sess:{}", root.as_str());
    assert!(
        !root_is_ephemeral(std::slice::from_ref(&key)),
        "a worktree-mounted root is pinned-class, never ephemeral",
    );
    assert!(
        !root_is_ephemeral(&[key, "ephemeral:/wt/pinned".to_string()]),
        "even alongside an ephemeral contributor, the worktree mount pins it",
    );
}

#[test]
fn root_is_ephemeral_classifies_by_contributor_prefix() {
    assert!(root_is_ephemeral(&["ephemeral:/p".to_string()]));
    assert!(!root_is_ephemeral(&["hook".to_string()]));
    assert!(
        !root_is_ephemeral(&["ephemeral:/p".to_string(), "hook".to_string()]),
        "any pinned contributor makes the root pinned (an upgraded root)",
    );
    assert!(
        !root_is_ephemeral(&[]),
        "no contributors is never ephemeral"
    );
}

#[test]
fn resolve_touched_paths_joins_relative_and_defaults_to_cwd() {
    let cwd = p("/home/w");
    assert_eq!(
        resolve_touched_paths(&[p("src/a.rs"), p("/abs/b.rs")], Some(&cwd)),
        vec![p("/home/w/src/a.rs"), p("/abs/b.rs")],
        "relative args join cwd; absolute args pass through",
    );
    assert_eq!(
        resolve_touched_paths(&[], Some(&cwd)),
        vec![p("/home/w")],
        "a bare query's touched target is its cwd",
    );
    assert!(
        resolve_touched_paths(&[], None).is_empty(),
        "no paths and no cwd: nothing to mount",
    );
}

#[test]
fn remove_root_from_hook_contributor() {
    let mut tracker = RootTracker::new();
    tracker.add_roots("hook", &[p("/foo"), p("/bar")]);

    assert!(
        tracker.remove_root("hook", &p("/foo")),
        "should return true when root was present",
    );
    let global = tracker.global_roots();
    assert_eq!(global.len(), 1);
    assert!(global.contains(&p("/bar")));
    assert!(!global.contains(&p("/foo")));
}

#[test]
fn remove_root_last_entry_removes_contributor() {
    let mut tracker = RootTracker::new();
    tracker.add_roots("hook", &[p("/only")]);

    assert!(tracker.remove_root("hook", &p("/only")));
    assert!(
        tracker.global_roots().is_empty(),
        "global roots should be empty after removing last root",
    );
    // Verify the contributor key is fully removed.
    assert_eq!(
        tracker.refcount(&p("/only")),
        0,
        "refcount should be 0",
    );
    assert!(tracker.contributors_with_prefix("hook").is_empty());
}

#[test]
fn remove_root_nonexistent_returns_false() {
    let mut tracker = RootTracker::new();
    tracker.add_roots("hook", &[p("/foo")]);

    assert!(
        !tracker.remove_root("hook", &p("/missing")),
        "should return false for missing root",
    );
    assert_eq!(tracker.global_roots().len(), 1);
}

#[test]
fn remove_root_nonexistent_contributor_returns_false() {
    let mut tracker = RootTracker::new();
    tracker.set_roots("mcp:10", vec![p("/foo")]);

    assert!(
        !tracker.remove_root("hook", &p("/foo")),
        "should return false for nonexistent contributor",
    );
    assert_eq!(tracker.global_roots().len(), 1);
}

#[test]
fn rm_root_removes_only_hook_roots() {
    let mut tracker = RootTracker::new();
    // Root is provided by both MCP and hook contributors.
    tracker.set_roots("mcp:10", vec![p("/shared")]);
    tracker.add_roots("hook", &[p("/shared")]);
    assert_eq!(tracker.refcount(&p("/shared")), 2);

    // rm-root removes only the hook entry.
    tracker.remove_root("hook", &p("/shared"));
    assert_eq!(
        tracker.refcount(&p("/shared")),
        1,
        "MCP contributor should still hold the root",
    );
    let global = tracker.global_roots();
    assert!(
        global.contains(&p("/shared")),
        "root should persist (MCP still holds it)",
    );
}

#[test]
fn add_root_hook_contributor() {
    let mut tracker = RootTracker::new();
    tracker.set_roots("mcp:10", vec![p("/existing")]);

    tracker.add_roots("hook", &[p("/new_root")]);

    let global = tracker.global_roots();
    assert_eq!(global.len(), 2);
    assert!(global.contains(&p("/existing")));
    assert!(global.contains(&p("/new_root")));
}

#[test]
fn list_roots_returns_sorted_with_sources() {
    let mut tracker = RootTracker::new();
    tracker.set_roots("mcp:10", vec![p("/b"), p("/a")]);
    tracker.add_roots("hook", &[p("/a")]);

    let listed = tracker.list_roots();
    assert_eq!(listed.len(), 2);
    // Sorted by path.
    assert_eq!(listed[0].0, p("/a"));
    assert_eq!(listed[0].1, vec!["hook", "mcp:10"]);
    assert_eq!(listed[1].0, p("/b"));
    assert_eq!(listed[1].1, vec!["mcp:10"]);
}

#[test]
fn list_roots_empty_tracker() {
    let tracker = RootTracker::new();
    assert!(tracker.list_roots().is_empty());
}

#[test]
fn a_root_keeps_its_configuration_while_it_is_served() {
    let mut tracker = RootTracker::new();
    tracker.set_roots("mcp:1", vec![p("/a")]);
    tracker.attach_config(&p("/a"), "lint = true".to_string());
    tracker.add_roots("hook", &[p("/a"), p("/b")]);
    tracker.remove_contributor("mcp:1");

    let rich = tracker.global_roots_rich();
    assert_eq!(rich.len(), 2);
    for root in &rich {
        if root.path == p("/a") {
            assert_eq!(root.config.as_deref(), Some("lint = true"));
        } else {
            assert_eq!(root.config, None);
        }
    }

    // Served anew, its configuration is read anew.
    tracker.remove_contributor("hook");
    tracker.set_roots("mcp:2", vec![p("/a")]);
    assert_eq!(tracker.global_roots_rich()[0].config, None);
}

#[test]
fn the_first_configuration_of_a_served_root_stays() {
    let mut tracker = RootTracker::new();
    tracker.attach_config(&p("/a"), "too early".to_string());
    tracker.set_roots("mcp:1", vec![p("/a")]);
    tracker.attach_config(&p("/a"), "lint = true".to_string());
    tracker.attach_config(&p("/a/"), "lint = false".to_string());
    tracker.set_roots("mcp:1", vec![p("/a"), p("/b")]);
    tracker.add_roots("hook", &[p("/a")]);
    tracker.remove_root("mcp:1", &p("/a"));
    tracker.remove_contributors_with_prefix("mcp:");

    let rich = tracker.global_roots_rich();
    assert_eq!(rich.len(), 1);
    assert_eq!(rich[0].path.as_str(), "/a");
    assert_eq!(rich[0].config.as_deref(), Some("lint = true"));
}

#[test]
fn a_root_is_spelled_as_it_was_declared() {
    let mut tracker = RootTracker::new();
    tracker.set_roots("mcp:2", vec![p("/a/"), p("/a")]);
    tracker.add_roots("mcp:1", &[p("/a/.")]);
    tracker.add_roots("mcp:1", &[p("//a")]);

    // What is served keeps the spelling it came with.
    let served: Vec<String> =
        tracker.global_roots().iter().map(|r| r.as_str().to_string()).collect();
    assert_eq!(served, vec!["/a/"]);
    assert_eq!(tracker.global_roots_rich()[0].path.as_str(), "/a/");

    // The listing and the board go by the first contributor.
    let listed = tracker.list_roots();
    assert_eq!(listed[0].0.as_str(), "/a/.");
    assert_eq!(listed[0].1, vec!["mcp:1", "mcp:2"]);
    assert_eq!(root_board(&tracker, &EphemeralMounts::new(), 0)[0].path, "/a/.");
    let declared = tracker.contributors_with_prefix("mcp:2");
    assert_eq!(declared[0].1[0].as_str(), "/a/");

    tracker.remove_contributor("mcp:1");
    assert_eq!(tracker.list_roots()[0].0.as_str(), "/a/");
}

#[test]
fn auto_mount_needs_a_served_project_and_a_new_worktree() {
    let facts = WorktreeFacts { worktree: p("/wt/agent"), project: p("/repo") };
    assert_eq!(worktree_to_auto_mount(Some(&facts), &[p("/repo")]), Some(p("/wt/agent")));
    assert_eq!(worktree_to_auto_mount(Some(&facts), &[p("/elsewhere")]), None);
    assert_eq!(worktree_to_auto_mount(Some(&facts), &[p("/repo"), p("/wt/agent")]), None);
    let main = WorktreeFacts { worktree: p("/repo"), project: p("/repo") };
    assert_eq!(worktree_to_auto_mount(Some(&main), &[]), None);
    assert_eq!(worktree_to_auto_mount(None, &[p("/repo")]), None);
}

#[test]
fn a_worktree_key_names_its_session() {
    let key = worktree_contributor("sess-1", &p("/wt/a"));
    assert_eq!(key, "worktree:sess-1:/wt/a");
    assert_eq!(worktree_contributor_session_id(&key), Some("sess-1"));
}
