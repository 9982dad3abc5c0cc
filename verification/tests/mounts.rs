use catenary_router::clock::{MINUTE, SECOND, WORKTREE_KEPT_COUNTDOWN};
use catenary_router::mounts::{EphemeralMounts, WorktreeMounts};
use catenary_router::path::UnixPath;

fn p(text: &str) -> UnixPath {
    UnixPath::new(text)
}

#[test]
fn ephemeral_mounts_touch_covering_and_expiry() {
    let mut mounts = EphemeralMounts::new();
    let root = p("/proj/eph");
    let t0 = 100 * SECOND;
    mounts.touch(&root, t0);

    // Fresh: not idle.
    assert!(mounts.expired(t0, SECOND).is_empty());

    // A covering activity (a file under the root) refreshes the clock.
    let later = t0 + 5 * MINUTE;
    mounts.touch_covering(&root.join("src/x.rs"), later);
    assert!(
        mounts.expired(later, SECOND).is_empty(),
        "touch_covering refreshed the root: not idle at `later`",
    );

    // An unrelated path does NOT refresh it: idle past the threshold.
    let even_later = later + 10 * MINUTE;
    mounts.touch_covering(&p("/other/y.rs"), even_later);
    assert_eq!(
        mounts.expired(even_later, SECOND),
        vec![root.clone()],
        "an unrelated path left the clock stale: now idle",
    );

    // Removal drops the clock entry entirely.
    mounts.remove(&root);
    assert!(mounts.expired(even_later, SECOND).is_empty());
}

#[test]
fn ephemeral_mounts_idle_remaining_counts_down() {
    let mut mounts = EphemeralMounts::new();
    let root = p("/proj/eph");
    let t0 = 100 * SECOND;
    mounts.touch(&root, t0);

    // Full band remaining at t0; elapsed time subtracts; a past deadline
    // saturates to zero rather than underflowing.
    assert_eq!(
        mounts.idle_remaining(&root, t0, 90 * SECOND),
        Some(90 * SECOND),
    );
    assert_eq!(
        mounts.idle_remaining(&root, t0 + 40 * SECOND, 90 * SECOND),
        Some(50 * SECOND),
    );
    assert_eq!(
        mounts.idle_remaining(&root, t0 + 500 * SECOND, 90 * SECOND),
        Some(0),
    );
    // An untracked root carries no clock.
    assert_eq!(
        mounts.idle_remaining(&p("/proj/other"), t0, 90 * SECOND),
        None,
    );
}

#[test]
fn worktree_blocked_flag_marks_by_path_and_clears_on_activity() {
    let mut mounts = WorktreeMounts::new();
    let root = p("/wt/blocked");
    let key = format!("worktree:sess:{}", root.as_str());
    mounts.track(&key, &root);

    // A permission prompt resolving into the worktree marks it blocked.
    assert_eq!(
        mounts.mark_blocked_covering(&root.join("sub")),
        1,
        "the enclosing worktree is present and marked",
    );
    assert!(mounts.is_blocked(&key));

    // Qualifying activity resolving into the root clears the flag.
    mounts.touch_covering(&root.join("f.rs"), 5 * SECOND);
    assert!(
        !mounts.is_blocked(&key),
        "activity under the root clears the blocked flag",
    );

    // The root's mount entry is never dropped by any of this.
    assert_eq!(
        mounts.mounted_roots(),
        vec![(root, false)],
        "the root stays mounted (unblocked) throughout",
    );
}

#[test]
fn worktree_blocked_covering_marks_every_enclosing_root() {
    let mut mounts = WorktreeMounts::new();
    let outer = p("/wt/outer");
    let inner = p("/wt/outer/inner");
    let other = p("/wt/other");
    mounts.track("worktree:sess-1:outer", &outer);
    mounts.track("worktree:sess-1:inner", &inner);
    mounts.track("worktree:sess-2:x", &other);

    // A prompt cwd under `inner` encloses both `inner` and `outer`.
    assert_eq!(mounts.mark_blocked_covering(&inner.join("f.rs")), 2);
    assert!(mounts.is_blocked("worktree:sess-1:outer"));
    assert!(mounts.is_blocked("worktree:sess-1:inner"));
    assert!(
        !mounts.is_blocked("worktree:sess-2:x"),
        "a sibling root outside the prompt's cwd is untouched",
    );
}

#[test]
fn worktree_kept_countdown_expires_only_idle_armed_mounts() {
    let mut mounts = WorktreeMounts::new();
    let live = p("/wt/live");
    let idle = p("/wt/idle");
    let fresh = p("/wt/fresh");
    mounts.track("worktree:s:live", &live);
    mounts.track("worktree:s:idle", &idle);
    mounts.track("worktree:s:fresh", &fresh);

    let t0 = 100 * SECOND;
    // Arm the two kept mounts at t0; `live` stays LIVE (never armed).
    assert!(mounts.arm_countdown(&idle, t0));
    assert!(mounts.arm_countdown(&fresh, t0));
    assert!(mounts.kept_since("worktree:s:live").is_none());

    // Refresh `fresh` a moment after arming.
    let refresh = t0 + SECOND;
    mounts.touch_covering(&fresh.join("f.rs"), refresh);

    // Sweep at exactly `idle`'s deadline.
    let now = t0 + WORKTREE_KEPT_COUNTDOWN;
    let expired = mounts.expired_countdowns(now, WORKTREE_KEPT_COUNTDOWN);
    assert_eq!(
        expired,
        vec![("worktree:s:idle".to_string(), idle)],
        "only the idle armed mount expires; live + refreshed survive: {expired:?}",
    );
}

#[test]
fn worktree_kept_countdown_resets_on_covering_activity() {
    let mut mounts = WorktreeMounts::new();
    let root = p("/wt/kept");
    mounts.track("worktree:s:kept", &root);

    let t0 = 100 * SECOND;
    assert!(mounts.arm_countdown(&root, t0));

    // Activity at t0 + half the window refreshes the countdown to that instant.
    let mid = t0 + WORKTREE_KEPT_COUNTDOWN / 2;
    mounts.touch_covering(&root.join("src/main.rs"), mid);
    assert_eq!(mounts.kept_since("worktree:s:kept"), Some(mid));

    // At the ORIGINAL deadline the refreshed mount is not yet expired.
    let orig_deadline = t0 + WORKTREE_KEPT_COUNTDOWN;
    assert!(
        mounts
            .expired_countdowns(orig_deadline, WORKTREE_KEPT_COUNTDOWN)
            .is_empty(),
        "activity reset the countdown: not expired at the original deadline",
    );
    // A full window after the refresh, it expires.
    let after = mid + WORKTREE_KEPT_COUNTDOWN;
    assert_eq!(
        mounts
            .expired_countdowns(after, WORKTREE_KEPT_COUNTDOWN)
            .len(),
        1,
        "a full window after the last activity, the countdown expires",
    );
}

#[test]
fn worktree_countdown_activity_lines_up_after_canonicalizing_the_seam() {
    let mut mounts = WorktreeMounts::new();
    mounts.track("worktree:s:real", &p("/base/real"));
    let t0 = 100 * SECOND;
    assert!(mounts.arm_countdown(&p("/base/real"), t0));

    let later = t0 + MINUTE;
    mounts.touch_covering(&p("/base/alias/src"), later);
    assert_eq!(
        mounts.kept_since("worktree:s:real"),
        Some(t0),
        "another spelling misses the canonical root: no refresh",
    );
    mounts.touch_covering(&p("/base/real/src"), later);
    assert_eq!(mounts.kept_since("worktree:s:real"), Some(later));
}

#[test]
fn arming_touches_only_worktrees_above_the_path() {
    let mut mounts = WorktreeMounts::new();
    mounts.track("worktree:s:a", &p("/wt/a"));
    assert!(!mounts.arm_countdown(&p("/wt/b"), SECOND));
    assert_eq!(mounts.kept_since("worktree:s:a"), None);
    assert!(mounts.arm_countdown(&p("/wt/a/sub"), SECOND));
    assert_eq!(mounts.kept_since("worktree:s:a"), Some(SECOND));
}

#[test]
fn removing_by_prefix_spares_other_sessions() {
    let mut mounts = WorktreeMounts::new();
    mounts.track("worktree:one:/a", &p("/a"));
    mounts.track("worktree:two:/b", &p("/b"));
    mounts.remove_prefix("worktree:one:");
    assert_eq!(mounts.mounted_roots(), vec![(p("/b"), false)]);
    mounts.remove("worktree:two:/b");
    assert!(mounts.mounted_roots().is_empty());
}
