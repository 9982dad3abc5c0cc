//! When mounts come and when they go.

use crate::contributor::ephemeral_key;
use crate::ephemeral::reap_idle_ephemeral_roots;
use crate::hook::HookState;
use crate::json::{json_view, JsonView};
use crate::mounts::{EphemeralMounts, EphemeralMountsView, WorktreeMounts};
use crate::path::{components, keys, PathKey, UnixPath};
use crate::root_laws::{declares, declares_the_same, keeps_ledgers, keeps_sessions, lists};
use crate::session_laws::mount_unchanged;
use crate::text::{has_prefix, views};
use crate::tracker::{text_option, RootTracker, TrackerView};
use crate::worktree::{retire_root, Disposition};
use vstd::prelude::*;

verus! {

/// The clock of this root is as it was.
pub open spec fn clock_unchanged(
    m: EphemeralMountsView,
    n: EphemeralMountsView,
    root: PathKey,
) -> bool {
    &&& n.dom().contains(root) == m.dom().contains(root)
    &&& m.dom().contains(root) ==> n[root] == m[root]
}

/// The root is held no more, and everything else that was declared still is.
pub open spec fn lets_go_of(t: TrackerView, u: TrackerView, root: PathKey) -> bool {
    &&& !u.union().contains(root)
    &&& forall|k: Seq<char>| !#[trigger] declares(u, k, root)
    &&& forall|k: Seq<char>, p: PathKey|
        p != root ==> #[trigger] declares(u, k, p) == declares(t, k, p)
    &&& forall|p: PathKey|
        p != root && #[trigger] t.union().contains(p) ==> u.union().contains(p) && u.roots[p]
            == t.roots[p]
}

pub proof fn lemma_lets_go(t: TrackerView, root: PathKey)
    requires
        t.roots.dom() == t.union(),
    ensures
        lets_go_of(t, t.retired(root), root),
{
    let u = t.retired(root);
    assert forall|k: Seq<char>| !#[trigger] declares(u, k, root) by {
        if declares(u, k, root) {
            if declares(t, k, root) {
                assert(t.holders(root).contains(k));
            }
        }
    }
    if u.union().contains(root) {
        let k = choose|k: Seq<char>| #[trigger]
            u.contributors.dom().contains(k) && u.contributors[k].dom().contains(root);
        assert(declares(u, k, root));
    }
    assert forall|k: Seq<char>, p: PathKey| p != root implies #[trigger] declares(u, k, p)
        == declares(t, k, p) by {
        if declares(t, k, p) {
            assert(t.contributors[k].remove(root).dom().contains(p));
            if t.contributors[k].remove(root) == Map::<PathKey, Seq<char>>::empty() {
                assert(false);
            }
        }
    }
    assert forall|p: PathKey| p != root && #[trigger] t.union().contains(p) implies
        u.union().contains(p) && u.roots[p] == t.roots[p] by {
        let k = choose|k: Seq<char>| #[trigger]
            t.contributors.dom().contains(k) && t.contributors[k].dom().contains(p);
        assert(declares(t, k, p));
        assert(declares(u, k, p));
        assert(u.contributors.dom().contains(k) && u.contributors[k].dom().contains(p));
        assert(u.union().contains(p));
    }
}

/// A root that is retired is let go by everybody who declared it, whatever their key,
/// and by them alone; they keep their other roots, and every other root stays served.
/// The mounts of those who let go are forgotten and no other, and each of them is
/// told.
pub proof fn law_a_retired_root_is_let_go_by_all(
    tracker: &mut RootTracker,
    worktrees: &mut WorktreeMounts,
    root: &UnixPath,
    r: Vec<String>,
    contributor: Seq<char>,
)
    requires
        old(tracker).wf(),
        old(worktrees).wf(),
        call_ensures(retire_root, (tracker, worktrees, root), r),
    ensures
        lets_go_of(old(tracker)@, final(tracker)@, root.key()),
        views(r@).contains(contributor) == declares(old(tracker)@, contributor, root.key()),
        declares(old(tracker)@, contributor, root.key())
            ==> !final(worktrees)@.dom().contains(contributor),
        !declares(old(tracker)@, contributor, root.key()) ==> mount_unchanged(
            old(worktrees)@,
            final(worktrees)@,
            contributor,
        ),
{
    lemma_lets_go(old(tracker)@, root.key());
    assert(views(r@).to_set().contains(contributor) == views(r@).contains(contributor));
}

/// The same of the state behind the hooks; nothing but roots and their mounts changes.
pub proof fn law_retiring_takes_the_root_alone(
    state: &mut HookState,
    root: &UnixPath,
    r: Vec<String>,
    contributor: Seq<char>,
)
    requires
        old(state).wf(),
        old(state)@.tracker is Some,
        call_ensures(HookState::retire, (state, root), r),
    ensures
        ({
            let v = old(state)@;
            let w = final(state)@;
            let t = v.tracker->0;
            &&& w.tracker is Some && lets_go_of(t, w.tracker->0, root.key())
            &&& views(r@).contains(contributor) == declares(t, contributor, root.key())
            &&& declares(t, contributor, root.key()) ==> !w.worktrees.dom().contains(contributor)
            &&& !declares(t, contributor, root.key()) ==> mount_unchanged(
                v.worktrees,
                w.worktrees,
                contributor,
            )
            &&& w.ephemeral == v.ephemeral
            &&& keeps_sessions(v, w)
            &&& w.registry == v.registry
            &&& keeps_ledgers(v, w)
        }),
{
    lemma_lets_go(old(state)@.tracker->0, root.key());
    assert(views(r@).to_set().contains(contributor) == views(r@).contains(contributor));
}

/// The removal of a worktree retires its root exactly where the worktree is gone; where
/// it stays, nothing changes. What was dirty is told only where the removal was forced.
pub proof fn law_a_removed_worktree_takes_its_root(
    state: &mut HookState,
    worktree: &UnixPath,
    disposition: &Disposition,
    force: bool,
    summary: Option<&str>,
    r: (serde_json::Value, Vec<String>),
    contributor: Seq<char>,
)
    requires
        old(state).wf(),
        old(state)@.tracker is Some,
        call_ensures(
            HookState::handle_worktree_rm,
            (state, worktree, disposition, force, summary),
            r,
        ),
    ensures
        ({
            let v = old(state)@;
            let w = final(state)@;
            let t = v.tracker->0;
            let gone = disposition is Disposed || disposition is Remnant;
            &&& gone ==> w.tracker is Some && lets_go_of(t, w.tracker->0, worktree.key())
            &&& gone ==> views(r.1@).contains(contributor) == declares(
                t,
                contributor,
                worktree.key(),
            )
            &&& !gone ==> w == v && r.1@.len() == 0
            &&& json_view(r.0).field("removed"@) == Some(JsonView::Bool(gone))
            &&& gone && !force ==> json_view(r.0).field("discarded"@) == Some(JsonView::Null)
            &&& gone && force && summary is Some ==> json_view(r.0).text_field("discarded"@)
                == Some(summary->0@)
            &&& keeps_sessions(v, w)
            &&& w.ephemeral == v.ephemeral
            &&& w.registry == v.registry
            &&& keeps_ledgers(v, w)
        }),
{
    crate::words::lemma_answer_keys();
    lemma_lets_go(old(state)@.tracker->0, worktree.key());
    assert(views(r.1@).to_set().contains(contributor) == views(r.1@).contains(contributor));
    if !(disposition is Disposed || disposition is Remnant) {
        if r.1@.len() > 0 {
            assert(views(r.1@).to_set().contains(views(r.1@)[0]));
        }
    }
}

/// Taking a mount down removes that contributor and its mount and nothing else.
pub proof fn law_unmounting_takes_one_contributor(
    state: &mut HookState,
    contributor: &str,
    other: Seq<char>,
    root: PathKey,
)
    requires
        old(state).wf(),
        old(state)@.tracker is Some,
        call_ensures(HookState::unmount, (state, contributor), ()),
    ensures
        ({
            let v = old(state)@;
            let w = final(state)@;
            let t = v.tracker->0;
            &&& w.tracker is Some
            &&& !w.tracker->0.contributors.dom().contains(contributor@)
            &&& !w.worktrees.dom().contains(contributor@)
            &&& other != contributor@ ==> declares_the_same(t, w.tracker->0, other)
                && mount_unchanged(v.worktrees, w.worktrees, other)
            &&& other != contributor@ && declares(t, other, root) ==> w.tracker->0.union().contains(
                root,
            )
            &&& w.ephemeral == v.ephemeral
            &&& keeps_sessions(v, w)
            &&& w.registry == v.registry
            &&& keeps_ledgers(v, w)
        }),
{
    let u = final(state)@.tracker->0;
    if other != contributor@ && declares(old(state)@.tracker->0, other, root) {
        assert(u.contributors.dom().contains(other) && u.contributors[other].dom().contains(root));
    }
}

/// The removal of a worktree takes down a mount of it, one that declares it under a
/// worktree's key, whichever session mounted it; where there is none, only what the
/// session itself would have mounted it under. No other contributor changes.
pub proof fn law_a_removed_worktree_is_unmounted(
    state: &mut HookState,
    session: &str,
    worktree: &UnixPath,
    r: Option<String>,
    other: Seq<char>,
)
    requires
        old(state).wf(),
        old(state)@.tracker is Some,
        call_ensures(HookState::worktree_remove, (state, session, worktree), r),
    ensures
        ({
            let v = old(state)@;
            let w = final(state)@;
            let t = v.tracker->0;
            &&& r matches Some(c) && {
                &&& (exists|k: Seq<char>|
                    has_prefix(k, "worktree:"@) && #[trigger] declares(t, k, worktree.key()))
                    ==> has_prefix(c@, "worktree:"@) && declares(t, c@, worktree.key())
                &&& !(exists|k: Seq<char>|
                    has_prefix(k, "worktree:"@) && #[trigger] declares(t, k, worktree.key()))
                    ==> c@ == "worktree:"@ + session@ + ":"@ + worktree@
                &&& w.tracker is Some && !w.tracker->0.contributors.dom().contains(c@)
                &&& !w.worktrees.dom().contains(c@)
                &&& other != c@ ==> declares_the_same(t, w.tracker->0, other) && mount_unchanged(
                    v.worktrees,
                    w.worktrees,
                    other,
                )
            }
            &&& w.ephemeral == v.ephemeral
            &&& keeps_sessions(v, w)
            &&& w.registry == v.registry
            &&& keeps_ledgers(v, w)
        }),
{
    let t = old(state)@.tracker->0;
    let mounts = t.holders(worktree.key()).intersect(
        t.with_prefix(crate::contributor::WORKTREE_CONTRIBUTOR_PREFIX@),
    );
    assert forall|k: Seq<char>| #[trigger] mounts.contains(k) == (has_prefix(k, "worktree:"@)
        && declares(t, k, worktree.key())) by {}
    if exists|k: Seq<char>| has_prefix(k, "worktree:"@) && #[trigger] declares(
        t,
        k,
        worktree.key(),
    ) {
        let k = choose|k: Seq<char>|
            has_prefix(k, "worktree:"@) && #[trigger] declares(t, k, worktree.key());
        assert(mounts.contains(k));
    }
}

/// The root has a clock, and was idle for that long.
pub open spec fn idle_for(m: EphemeralMountsView, now: u64, idle: u64, root: PathKey) -> bool {
    m.dom().contains(root) && (if now >= m[root].last {
        now - m[root].last
    } else {
        0
    }) >= idle
}

/// The idle sweep takes the roots that activity mounted and that were idle for the
/// whole time, each from its own contributor alone: a root that was active meanwhile
/// stays, and so does every root that somebody else declares.
pub proof fn law_only_idle_roots_are_reaped(
    tracker: &mut RootTracker,
    mounts: &mut EphemeralMounts,
    now: u64,
    idle: u64,
    r: Vec<UnixPath>,
    root: PathKey,
    contributor: Seq<char>,
    other: PathKey,
)
    requires
        old(tracker).wf(),
        old(mounts).wf(),
        call_ensures(reap_idle_ephemeral_roots, (tracker, mounts, now, idle), r),
    ensures
        ({
            let m = old(mounts)@;
            let late = |k: PathKey| idle_for(m, now, idle, k);
            &&& lists(r@, root) == late(root)
            &&& late(root) ==> !final(mounts)@.dom().contains(root)
                && !final(tracker)@.contributors.dom().contains("ephemeral:"@ + m[root].root)
            &&& !late(root) ==> clock_unchanged(m, final(mounts)@, root)
            &&& !has_prefix(contributor, "ephemeral:"@) ==> declares_the_same(
                old(tracker)@,
                final(tracker)@,
                contributor,
            )
            &&& !has_prefix(contributor, "ephemeral:"@) && declares(
                old(tracker)@,
                contributor,
                other,
            ) ==> final(tracker)@.union().contains(other)
            &&& (forall|k: PathKey| #[trigger]
                idle_for(m, now, idle, k) ==> contributor != "ephemeral:"@ + m[k].root)
                ==> declares_the_same(old(tracker)@, final(tracker)@, contributor)
        }),
{
    let m = old(mounts)@;
    let gone = crate::mounts::ephemeral_expired(m, now, idle);
    assert forall|k: PathKey| #[trigger] gone.contains(k) == idle_for(m, now, idle, k) by {}
    if forall|k: PathKey| #[trigger]
        idle_for(m, now, idle, k) ==> contributor != "ephemeral:"@ + m[k].root {
        assert forall|k: PathKey| #[trigger] gone.contains(k) implies contributor
            != "ephemeral:"@ + m[k].root by {
            assert(idle_for(m, now, idle, k));
        }
    }
    lemma_reaped(old(tracker)@, m, now, idle, root, contributor, other);
    lemma_lists_key(r@, root);
}

proof fn lemma_lists_key(v: Seq<UnixPath>, path: PathKey)
    ensures
        lists(v, path) == keys(v).to_set().contains(path),
{
    if lists(v, path) {
        let i = choose|i: int| 0 <= i < v.len() && (#[trigger] v[i]).key() == path;
        assert(keys(v)[i] == path);
    }
    if keys(v).contains(path) {
        let i = choose|i: int| 0 <= i < keys(v).len() && keys(v)[i] == path;
        assert(v[i].key() == path);
    }
}

proof fn lemma_reaped(
    t: TrackerView,
    m: EphemeralMountsView,
    now: u64,
    idle: u64,
    root: PathKey,
    contributor: Seq<char>,
    other: PathKey,
)
    ensures
        ({
            let gone = crate::mounts::ephemeral_expired(m, now, idle);
            let names = crate::ephemeral::ephemeral_keys(m, gone);
            let u = t.removed_all(names);
            &&& gone.contains(root) ==> !u.contributors.dom().contains("ephemeral:"@ + m[root].root)
            &&& !has_prefix(contributor, "ephemeral:"@) ==> declares_the_same(t, u, contributor)
            &&& !has_prefix(contributor, "ephemeral:"@) && declares(t, contributor, other)
                ==> u.union().contains(other)
            &&& (forall|k: PathKey| #[trigger]
                gone.contains(k) ==> contributor != "ephemeral:"@ + m[k].root)
                ==> declares_the_same(t, u, contributor)
        }),
{
    let gone = crate::mounts::ephemeral_expired(m, now, idle);
    let names = crate::ephemeral::ephemeral_keys(m, gone);
    let u = t.removed_all(names);
    if gone.contains(root) {
        assert(names.contains(ephemeral_key(m[root].root)));
    }
    if !has_prefix(contributor, "ephemeral:"@) {
        if names.contains(contributor) {
            let k = choose|k: PathKey| #[trigger]
                gone.contains(k) && ephemeral_key(m[k].root) == contributor;
            let p = "ephemeral:"@;
            assert(contributor.subrange(0, p.len() as int) =~= p);
        }
        if declares(t, contributor, other) {
            assert(u.contributors.dom().contains(contributor)
                && u.contributors[contributor].dom().contains(other));
        }
    }
}

/// The idle sweep of the daemon takes what was idle for the whole of seven minutes and
/// changes nothing besides roots and their clocks.
pub proof fn law_the_daemon_reaps_idle_roots(
    state: &mut HookState,
    now: u64,
    r: Vec<UnixPath>,
    root: PathKey,
    contributor: Seq<char>,
    other: PathKey,
)
    requires
        old(state).wf(),
        old(state)@.tracker is Some,
        call_ensures(HookState::reap_idle, (state, now), r),
    ensures
        ({
            let v = old(state)@;
            let w = final(state)@;
            let m = v.ephemeral;
            let late = idle_for(m, now, 420_000_000_000, root);
            &&& lists(r@, root) == late
            &&& late ==> !w.ephemeral.dom().contains(root)
            &&& !late ==> clock_unchanged(m, w.ephemeral, root)
            &&& w.tracker is Some
            &&& late ==> !w.tracker->0.contributors.dom().contains("ephemeral:"@ + m[root].root)
            &&& !has_prefix(contributor, "ephemeral:"@) ==> declares_the_same(
                v.tracker->0,
                w.tracker->0,
                contributor,
            )
            &&& !has_prefix(contributor, "ephemeral:"@) && declares(
                v.tracker->0,
                contributor,
                other,
            ) ==> w.tracker->0.union().contains(other)
            &&& w.worktrees == v.worktrees
            &&& keeps_sessions(v, w)
            &&& w.registry == v.registry
            &&& keeps_ledgers(v, w)
        }),
{
    lemma_reaped(
        old(state)@.tracker->0,
        old(state)@.ephemeral,
        now,
        crate::clock::EPHEMERAL_ROOT_IDLE_TIMEOUT,
        root,
        contributor,
        other,
    );
    lemma_lists_key(r@, root);
}

/// A check against the disk reaps the worktree contributors none of whose roots is
/// there any more, and no other contributor; it forgets the worktrees that are gone
/// with their reminders, and keeps the others.
pub proof fn law_only_missing_worktrees_are_reaped(
    state: &mut HookState,
    missing: &[UnixPath],
    r: crate::daemon::DiskCheck,
    contributor: Seq<char>,
    worktree: PathKey,
)
    requires
        old(state).wf(),
        old(state)@.tracker is Some,
        call_ensures(HookState::check_disk, (state, missing), r),
    ensures
        ({
            let v = old(state)@;
            let w = final(state)@;
            let t = v.tracker->0;
            let lost = has_prefix(contributor, "worktree:"@) && t.contributors.dom().contains(
                contributor,
            ) && forall|p: PathKey| #[trigger]
                declares(t, contributor, p) ==> lists(missing@, p);
            let gone = v.registry.metas.dom().contains(worktree) && lists(missing@, worktree);
            &&& views(r.reaped@).contains(contributor) == lost
            &&& lost ==> w.tracker is Some && !w.tracker->0.contributors.dom().contains(contributor)
                && !w.worktrees.dom().contains(contributor)
            &&& !lost ==> w.tracker is Some && declares_the_same(t, w.tracker->0, contributor)
                && mount_unchanged(v.worktrees, w.worktrees, contributor)
            &&& lists(r.pruned@, worktree) == gone
            &&& w.registry.metas.dom().contains(worktree) == (v.registry.metas.dom().contains(
                worktree,
            ) && !gone)
            &&& w.registry.metas.dom().contains(worktree) ==> w.registry.metas[worktree]
                == v.registry.metas[worktree]
            &&& w.registry.nagged.contains(worktree) == (v.registry.nagged.contains(worktree)
                && !gone)
            &&& w.registry.surfaced.contains(worktree) == (v.registry.surfaced.contains(worktree)
                && !gone)
            &&& w.ephemeral == v.ephemeral
            &&& keeps_sessions(v, w)
            &&& keeps_ledgers(v, w)
        }),
{
    let t = old(state)@.tracker->0;
    let all = keys(missing@).to_set();
    assert(views(r.reaped@).to_set().contains(contributor) == views(r.reaped@).contains(
        contributor,
    ));
    lemma_lists_key(missing@, worktree);
    lemma_lists_key(r.pruned@, worktree);
    if t.contributors.dom().contains(contributor) {
        if t.contributors[contributor].dom().subset_of(all) {
            assert forall|p: PathKey| #[trigger] declares(t, contributor, p) implies lists(
                missing@,
                p,
            ) by {
                lemma_lists_key(missing@, p);
            }
        }
        if forall|p: PathKey| #[trigger] declares(t, contributor, p) ==> lists(missing@, p) {
            assert forall|p: PathKey| t.contributors[contributor].dom().contains(p) implies
                all.contains(p) by {
                assert(declares(t, contributor, p));
                lemma_lists_key(missing@, p);
            }
        }
    }
}

/// A creation that carries the whole record of its worktree registers it as it is said
/// there, and no other worktree changes; one that does not registers nothing.
pub proof fn law_a_created_worktree_is_registered(
    state: &mut HookState,
    raw: &serde_json::Value,
    r: bool,
    j: JsonView,
    path: Seq<char>,
    other: PathKey,
)
    requires
        old(state).wf(),
        call_ensures(HookState::worktree_create, (state, raw), r),
    ensures
        ({
            let v = old(state)@;
            let w = final(state)@;
            &&& !r ==> w == v
            &&& json_view(*raw).field("worktree_meta"@) is None ==> !r
            &&& r && json_view(*raw).field("worktree_meta"@) == Some(j) && j.text_field(
                "worktree"@,
            ) == Some(path) ==> {
                let m = w.registry.metas[components(path)];
                &&& w.registry.metas.dom().contains(components(path))
                &&& m.worktree@ == path
                &&& j.text_field("source_repo"@) == Some(m.source_repo@)
                &&& j.text_field("base_commit"@) == Some(m.base_commit@)
                &&& j.text_field("branch"@) == Some(m.branch@)
                &&& j.text_field("name"@) == Some(m.name@)
                &&& j.text_field("session_id"@) == Some(m.session_id@)
                &&& j.text_field("created_at"@) == Some(m.created_at@)
                &&& j.text_field("class"@) == Some(m.class@)
                &&& j.text_field("vcs"@) == Some(m.vcs@)
                &&& j.text_field("agent_id"@) == text_option(m.agent_id)
                &&& j.text_field("link"@) == text_option(m.link)
                &&& other != components(path) ==> w.registry.metas.dom().contains(other)
                    == v.registry.metas.dom().contains(other)
                &&& other != components(path) && v.registry.metas.dom().contains(other)
                    ==> w.registry.metas[other] == v.registry.metas[other]
            }
            &&& w.registry.nagged == v.registry.nagged
            &&& w.registry.surfaced == v.registry.surfaced
            &&& w.tracker == v.tracker
            &&& w.ephemeral == v.ephemeral
            &&& w.worktrees == v.worktrees
            &&& keeps_sessions(v, w)
            &&& keeps_ledgers(v, w)
        }),
{
}

/// A worktree that was disposed of at the end of its session is forgotten where it is
/// gone, and only it; nothing else changes.
pub proof fn law_the_disposed_are_forgotten(
    state: &mut HookState,
    worktree: &UnixPath,
    disposition: &Disposition,
    other: PathKey,
)
    requires
        old(state).wf(),
        call_ensures(HookState::session_end_disposed, (state, worktree, disposition), ()),
    ensures
        ({
            let v = old(state)@;
            let w = final(state)@;
            let gone = disposition is Disposed || disposition is Remnant;
            &&& w.registry.metas.dom().contains(other) == (v.registry.metas.dom().contains(other)
                && !(gone && other == worktree.key()))
            &&& w.registry.metas.dom().contains(other) ==> w.registry.metas[other]
                == v.registry.metas[other]
            &&& w.tracker == v.tracker
            &&& w.ephemeral == v.ephemeral
            &&& w.worktrees == v.worktrees
            &&& keeps_sessions(v, w)
            &&& keeps_ledgers(v, w)
        }),
{
}

} // verus!
