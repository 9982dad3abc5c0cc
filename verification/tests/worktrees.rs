use catenary_router::mounts::WorktreeMounts;
use catenary_router::path::UnixPath;
use catenary_router::registry::{WorktreeMeta, WorktreeRegistry};
use catenary_router::tracker::RootTracker;
use catenary_router::worktree::{
    lingering_worktree_nag, merged_nudge_message, merged_worktree_nudge, retire_root,
    stop_owns_worktree, surface_dirty_kept, worktree_disposed, worktree_ls_row,
    worktree_owner_label, worktree_rm_removal, worktree_rm_request, worktree_rm_response,
    worktree_to_dispose, Disposition, Removal, RowFacts,
};

fn p(text: &str) -> UnixPath {
    UnixPath::new(text)
}

fn meta(worktree: &str, agent: &str, session: &str) -> WorktreeMeta {
    WorktreeMeta {
        worktree: p(worktree),
        source_repo: p("/repo"),
        base_commit: "deadbeef".to_string(),
        branch: format!("agent-{agent}"),
        name: format!("agent-{agent}"),
        agent_id: Some(agent.to_string()),
        session_id: session.to_string(),
        created_at: "2026-07-06T00:00:00.000Z".to_string(),
        class: "agent".to_string(),
        link: None,
        vcs: "git".to_string(),
    }
}

fn json(text: &str) -> serde_json::Value {
    serde_json::from_str(text).expect("json")
}

#[test]
fn worktree_registry_mark_nagged_is_once_per_worktree() {
    let mut registry = WorktreeRegistry::new();
    let wt = p("/state/catenary/worktrees/agents/s/a");
    assert!(registry.mark_nagged(&wt), "first nag marks");
    assert!(!registry.mark_nagged(&wt), "second nag is suppressed");
}

#[test]
fn merged_and_linger_oracles_share_the_once_ledger() {
    let mut registry = WorktreeRegistry::new();
    let wt = p("/state/catenary/worktrees/agents/s/b");
    assert!(registry.mark_nagged(&wt), "the first oracle draws the line");
    assert!(
        !registry.mark_nagged(&wt),
        "the second oracle is deduped for the same worktree",
    );
}

#[test]
fn a_worktree_is_reminded_of_by_one_oracle_only() {
    let mut registry = WorktreeRegistry::new();
    let mounts = WorktreeMounts::new();
    registry.register(meta("/wt/one", "one", "sess"));
    registry.register(meta("/wt/two", "two", "sess"));
    registry.register(meta("/wt/busy", "busy", "sess"));
    registry.register(meta("/wt/foreign", "foreign", "other"));
    let present = [p("/wt/one"), p("/wt/two"), p("/wt/busy"), p("/wt/foreign")];
    let raw = json(
        r#"{"host_payload":{"background_tasks":[{"id":"busy","status":"running"}]}}"#,
    );
    let nag = lingering_worktree_nag(&mut registry, &mounts, "sess", &raw, &present)
        .expect("two linger");
    assert_eq!(
        nag,
        "2 agent worktrees linger (root unmounted, owner not running):\n  /wt/one\n  /wt/two\n\
         Land their work or `catenary worktree rm <path>` each. (Nagged once per worktree.)"
    );
    assert_eq!(lingering_worktree_nag(&mut registry, &mounts, "sess", &raw, &present), None);

    let merged = merged_worktree_nudge(&mut registry, "sess", &present, &present)
        .expect("the busy one is merged");
    assert_eq!(
        merged,
        "1 worktree is already merged into main; `catenary worktree rm` it:\n  /wt/busy"
    );
    assert_eq!(merged_worktree_nudge(&mut registry, "sess", &present, &present), None);
}

#[test]
fn a_mounted_or_missing_worktree_does_not_linger() {
    let mut registry = WorktreeRegistry::new();
    let mut mounts = WorktreeMounts::new();
    registry.register(meta("/wt/mounted", "m", "sess"));
    registry.register(meta("/wt/missing", "x", "sess"));
    mounts.track("worktree:sess:/wt/mounted", &p("/wt/mounted"));
    let raw = json("{}");
    assert_eq!(
        lingering_worktree_nag(&mut registry, &mounts, "sess", &raw, &[p("/wt/mounted")]),
        None
    );
}

#[test]
fn merged_nudge_message_names_count_and_paths() {
    let one = merged_nudge_message(&[p("/wt/a")]);
    assert!(
        one.starts_with("1 worktree is already merged into main; `catenary worktree rm` it:"),
        "singular header: {one}"
    );
    assert!(one.contains("/wt/a"), "path listed: {one}");

    let two = merged_nudge_message(&[p("/wt/a"), p("/wt/b")]);
    assert!(
        two.starts_with(
            "2 worktrees are already merged into main; `catenary worktree rm` them:"
        ),
        "plural header: {two}"
    );
    assert!(
        two.contains("/wt/a") && two.contains("/wt/b"),
        "paths listed: {two}"
    );
}

#[test]
fn worktree_registry_mark_surfaced_is_once_per_worktree() {
    let mut registry = WorktreeRegistry::new();
    let wt = p("/state/catenary/worktrees/agents/s/a");
    assert!(registry.mark_surfaced(&wt), "first surfacing marks");
    assert!(
        !registry.mark_surfaced(&wt),
        "second surfacing is suppressed"
    );
}

#[test]
fn surface_dirty_kept_is_once_per_path() {
    let mut registry = WorktreeRegistry::new();
    let worktree = p("/state/catenary/worktrees/agents/sess-1/a8458e9e8f03be469");

    // The first call records and marks the path surfaced.
    let record = surface_dirty_kept(&mut registry, &worktree);
    assert_eq!(
        record.as_deref(),
        Some(
            "subagent `a8458e9e8f03be469` left a dirty worktree at \
             `/state/catenary/worktrees/agents/sess-1/a8458e9e8f03be469` \
             (kept; land its work or `catenary worktree rm` it)"
        )
    );
    assert!(
        !registry.mark_surfaced(&worktree),
        "the first surface_dirty_kept marked the path surfaced (deduped)",
    );
    assert_eq!(surface_dirty_kept(&mut registry, &worktree), None);
}

#[test]
fn worktree_registry_prune_missing_ages_out_gone_entries_and_clears_marks() {
    let mut registry = WorktreeRegistry::new();
    let present = p("/base/present");
    let gone = p("/base/gone");
    registry.register(meta("/base/present", "present", "sess-1"));
    registry.register(meta("/base/gone", "gone", "sess-1"));
    assert!(registry.mark_surfaced(&gone));
    assert!(registry.mark_nagged(&gone));
    assert!(registry.mark_surfaced(&present));

    let pruned = registry.prune_missing(&[gone.clone()]);
    assert_eq!(pruned, vec![gone.clone()], "only the gone dir is pruned");
    assert_eq!(registry.len(), 1, "the present registration survives");
    assert_eq!(
        registry.get(&present).map(|m| m.worktree),
        Some(present.clone()),
        "the present worktree is still registered",
    );
    assert!(
        registry.mark_surfaced(&gone),
        "the pruned path's surfaced mark was cleared (re-surface allowed)",
    );
    assert!(
        registry.mark_nagged(&gone),
        "the pruned path's nagged mark was cleared (re-nag allowed)",
    );
    assert!(
        !registry.mark_surfaced(&present),
        "the surviving worktree's surfaced mark is preserved (still deduped)",
    );
}

#[test]
fn surface_dirty_kept_always_reports_a_present_dirty_worktree() {
    let mut registry = WorktreeRegistry::new();
    let worktree = p("/base/agents/sess-1/owner-id");
    registry.register(meta("/base/agents/sess-1/owner-id", "owner-id", "sess-1"));

    assert!(surface_dirty_kept(&mut registry, &worktree).is_some());
    assert!(!registry.mark_surfaced(&worktree));

    assert_eq!(registry.prune_missing(&[worktree.clone()]), vec![worktree.clone()]);
    assert!(
        surface_dirty_kept(&mut registry, &worktree).is_some(),
        "a worktree recreated at a pruned path surfaces afresh",
    );
    assert!(!registry.mark_surfaced(&worktree));
}

#[test]
fn stop_owns_worktree_gates_dispose_by_owner_dirname() {
    let worktree = p("/state/catenary/worktrees/agents/sess-1/a8458e9e8f03be469");

    // Matching owner: the tree's own stop disposes.
    assert!(
        stop_owns_worktree("a8458e9e8f03be469", &worktree),
        "the owning agent's own stop may dispose its worktree",
    );
    // A nested/foreign subagent whose cwd merely encloses this tree: declined.
    assert!(
        !stop_owns_worktree("nested-guide-agent", &worktree),
        "a foreign/nested stop must NOT select this live sibling for disposal",
    );
    // An empty id can never prove ownership.
    assert!(
        !stop_owns_worktree("", &worktree),
        "an empty stop identity never owns a worktree",
    );
}

#[test]
fn a_worktree_without_a_name_has_a_label() {
    assert_eq!(worktree_owner_label(&p("/wt/agent-7")), "agent-7");
    assert!(!stop_owns_worktree("", &p("/")));
}

#[test]
fn dispose_background_foreign_stop_never_disposes_and_keeps_registry() {
    let mut registry = WorktreeRegistry::new();
    let worktree = p("/base/agents/sess-1/owner");
    registry.register(meta("/base/agents/sess-1/owner", "owner", "sess-1"));
    assert!(worktree_to_dispose(&registry, None, Some("foreign"), &worktree).is_none());
    assert!(worktree_to_dispose(&registry, None, Some(""), &worktree).is_none());
    assert_eq!(registry.len(), 1);
}

#[test]
fn dispose_background_matching_owner_stop_passes_the_gate() {
    let mut registry = WorktreeRegistry::new();
    let worktree = p("/base/agents/sess-1/owner");
    registry.register(meta("/base/agents/sess-1/owner", "owner", "sess-1"));
    let found = worktree_to_dispose(&registry, None, Some("owner"), &worktree).expect("owned");
    assert_eq!(found.worktree, worktree);
    assert_eq!(
        worktree_disposed(&mut registry, &worktree, &Disposition::Disposed, false),
        None
    );
    assert_eq!(registry.len(), 0, "a worktree that is gone is forgotten");
}

#[test]
fn dispose_background_host_initiated_removal_bypasses_the_identity_gate() {
    let mut registry = WorktreeRegistry::new();
    let worktree = p("/base/agents/sess-1/owner");
    // Not registered: the sidecar's record stands in.
    let sidecar = meta("/base/agents/sess-1/owner", "owner", "sess-1");
    assert!(worktree_to_dispose(&registry, Some(sidecar), None, &worktree).is_some());
    let kept = Disposition::KeptDirty { reason: "uncommitted work".to_string() };
    assert_eq!(worktree_disposed(&mut registry, &worktree, &kept, true), None);
    assert!(worktree_disposed(&mut registry, &worktree, &kept, false).is_some());
    assert_eq!(worktree_disposed(&mut registry, &worktree, &kept, false), None);
}

#[test]
fn worktree_registry_rehydrates_from_sidecars() {
    let mut registry = WorktreeRegistry::new();
    registry.rehydrate(vec![meta("/wt/a", "a", "one"), meta("/wt/b", "b", "two")]);
    assert_eq!(registry.len(), 2);
    assert_eq!(registry.worktrees().len(), 2);
    let one = registry.metas_for_session("one");
    assert_eq!(one.len(), 1);
    assert_eq!(one[0].worktree, p("/wt/a"));
    registry.forget(&p("/wt/a"));
    assert!(registry.metas_for_session("one").is_empty());
}

#[test]
fn a_retired_root_is_let_go_by_everyone() {
    let mut tracker = RootTracker::new();
    let mut mounts = WorktreeMounts::new();
    tracker.set_roots("worktree:s:/wt", vec![p("/wt")]);
    tracker.add_roots("hook", &[p("/wt"), p("/other")]);
    mounts.track("worktree:s:/wt", &p("/wt"));
    let mut released = retire_root(&mut tracker, &mut mounts, &p("/wt"));
    released.sort();
    assert_eq!(released, vec!["hook", "worktree:s:/wt"]);
    assert_eq!(tracker.global_roots(), vec![p("/other")]);
    assert!(mounts.mounted_roots().is_empty());
    assert!(retire_root(&mut tracker, &mut mounts, &p("/wt")).is_empty());
}

#[test]
fn the_listing_shows_a_worktree() {
    let mut mounts = WorktreeMounts::new();
    mounts.track("worktree:sess:/wt/a", &p("/wt/a"));
    let facts = RowFacts {
        present: true,
        status_dirty: false,
        disposable_clean: false,
        behind_ahead: Some((2, 1)),
    };
    let agent = worktree_ls_row(&meta("/wt/a", "a", "sess"), &mounts, &facts);
    assert_eq!(
        agent.to_string(),
        r#"{"class":"agent","created_at":"2026-07-06T00:00:00.000Z","creator":"sess / a","dirty":true,"path":"/wt/a","present":true,"root_state":"mounted"}"#
    );
    mounts.mark_blocked_covering(&p("/wt/a/src"));
    let blocked = worktree_ls_row(&meta("/wt/a", "a", "sess"), &mounts, &facts);
    assert_eq!(blocked["root_state"], "blocked");

    let mut feat = meta("/wt/f", "f", "sess");
    feat.class = "feat".to_string();
    let row = worktree_ls_row(&feat, &mounts, &facts);
    assert_eq!(row["creator"], "cli");
    assert_eq!(row["dirty"], false);
    assert_eq!(row["root_state"], "unmounted");
    assert_eq!(row["ahead"], 1);
    assert_eq!(row["behind"], 2);

    let missing = RowFacts {
        present: false,
        status_dirty: true,
        disposable_clean: false,
        behind_ahead: Some((2, 1)),
    };
    let gone = worktree_ls_row(&feat, &mounts, &missing);
    assert_eq!(gone["dirty"], false);
    assert_eq!(gone.get("ahead"), None);
}

#[test]
fn a_removal_goes_by_class_and_force() {
    let request = worktree_rm_request(&json(r#"{"path":"/wt/f","force":true}"#)).expect("path");
    assert_eq!(request.path, "/wt/f");
    assert!(request.force);
    let refused = worktree_rm_request(&json(r#"{"force":true}"#)).err().expect("no path");
    assert_eq!(refused.to_string(), r#"{"message":"missing path","status":"error"}"#);

    let mut feat = meta("/wt/f", "f", "sess");
    feat.class = "feat".to_string();
    assert_eq!(worktree_rm_removal(Some(&feat), &p("/wt/f"), false).ok(), Some(Removal::Guarded));
    assert_eq!(worktree_rm_removal(Some(&feat), &p("/wt/f"), true).ok(), Some(Removal::Asserted));
    let agent = meta("/wt/a", "a", "sess");
    assert_eq!(worktree_rm_removal(Some(&agent), &p("/wt/a"), false).ok(), Some(Removal::Asserted));
    let foreign = worktree_rm_removal(None, &p("/x"), false).err().expect("not ours");
    assert_eq!(
        foreign.to_string(),
        r#"{"message":"/x is not a Catenary-managed worktree","status":"not_ours"}"#
    );
}

#[test]
fn a_removal_is_answered() {
    let wt = p("/wt/a");
    assert_eq!(
        worktree_rm_response(&Disposition::Disposed, &wt, Some("M a.rs")).to_string(),
        r#"{"discarded":"M a.rs","path":"/wt/a","removed":true,"status":"ok"}"#
    );
    assert_eq!(
        worktree_rm_response(&Disposition::Remnant, &wt, None).to_string(),
        r#"{"discarded":null,"path":"/wt/a","removed":true,"status":"ok"}"#
    );
    let kept = Disposition::KeptDirty { reason: "unpushed".to_string() };
    assert_eq!(
        worktree_rm_response(&kept, &wt, None).to_string(),
        r#"{"message":"unpushed","removed":false,"status":"kept"}"#
    );
    let refused = Disposition::Refused { reason: "busy".to_string() };
    assert_eq!(
        worktree_rm_response(&refused, &wt, None).to_string(),
        r#"{"message":"busy","removed":false,"status":"refused"}"#
    );
    assert_eq!(
        worktree_rm_response(&Disposition::NotOurs, &wt, None).to_string(),
        r#"{"message":"not a Catenary-managed worktree","removed":false,"status":"not_ours"}"#
    );
}

#[test]
fn reminders_spell_a_worktree_as_it_was_recorded() {
    let mut registry = WorktreeRegistry::new();
    let mounts = WorktreeMounts::new();
    registry.register(meta("/wt/a/", "a", "sess"));
    registry.register(meta("/wt/b/.", "b", "sess"));
    let raw = json("{}");
    let nag = lingering_worktree_nag(&mut registry, &mounts, "sess", &raw, &[p("/wt/a")])
        .expect("one lingers");
    assert!(nag.contains("/wt/a/"), "{nag}");
    let advice = merged_worktree_nudge(&mut registry, "sess", &[p("/wt/b")], &[p("/wt/b")])
        .expect("one is merged");
    assert!(advice.contains("/wt/b/."), "{advice}");
}

#[test]
fn a_worktree_keeps_the_path_it_was_first_registered_under() {
    let mut registry = WorktreeRegistry::new();
    registry.register(meta("/wt/a/", "a", "one"));
    registry.register(meta("/wt/a", "a", "two"));
    assert_eq!(registry.len(), 1);
    assert_eq!(registry.worktrees()[0].as_str(), "/wt/a/");
    let record = registry.get(&p("/wt/a")).expect("registered");
    assert_eq!(record.session_id, "two");
    assert_eq!(record.worktree.as_str(), "/wt/a");
    let pruned = registry.prune_missing(&[p("/wt/a"), p("/wt/b")]);
    assert_eq!(pruned.len(), 1);
    assert_eq!(pruned[0].as_str(), "/wt/a/");
    assert!(registry.worktrees().is_empty());
}
