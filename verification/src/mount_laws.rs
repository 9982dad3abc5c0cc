//! What touches, clocks and countdowns do.

use crate::daemon::{Retirement, tracker_retired, mounts_retired, retired_names, retired_roots};
use crate::ephemeral::{ephemeral_root_to_mount, resolve_touched_paths, touched_views, verdict_views, worktree_to_auto_mount, EphemeralMountVerdict, MountState, TouchedPath, TouchedView, WorktreeFacts};
use crate::hook::HookState;
use crate::laws::law_joined_paths_lie_below;
use crate::lifetime_laws::{clock_unchanged, idle_for};
use crate::mounts::{EphemeralMounts, WorktreeClockView, WorktreeMounts, WorktreeMountsView};
use crate::path::{absolute, components, keys, named, segments, PathKey, UnixPath};
use crate::root_laws::{declares, declares_the_same, keeps_ledgers, keeps_sessions, lists};
use crate::session_laws::mount_unchanged;
use crate::text::has_prefix;
use crate::tracker::{only, TrackerView};
use vstd::prelude::*;

verus! {

/// One of the paths is `path` or lies above it.
pub open spec fn lies_below(roots: Seq<UnixPath>, path: PathKey) -> bool {
    exists|i: int| 0 <= i < roots.len() && (#[trigger] roots[i]).key().is_prefix_of(path)
}

/// A path that lies below no served root mounts the repository that encloses it, where
/// it has one that is not served; a sensitive path never mounts anything, and is told
/// from one that needs no mount.
pub proof fn law_an_uncovered_path_mounts_its_repository(
    touched: &TouchedPath,
    served: &[UnixPath],
    r: EphemeralMountVerdict,
)
    requires
        call_ensures(ephemeral_root_to_mount, (touched, served), r),
    ensures
        ({
            let open = !lies_below(served@, touched.canonical.key()) && touched.enclosing is Some
                && !lists(served@, touched.enclosing->0.key());
            &&& (r is Mount) == (open && !touched.sensitive)
            &&& (r is RefusedSensitive) == (open && touched.sensitive)
            &&& (r is NoMount) == !open
            &&& r matches EphemeralMountVerdict::Mount(root) ==> root@ == touched.enclosing->0@
            &&& r matches EphemeralMountVerdict::RefusedSensitive(root) ==> root@
                == touched.enclosing->0@
        }),
{
    lemma_covered(served@, touched.canonical.key());
    if touched.enclosing is Some {
        lemma_lists_key(served@, touched.enclosing->0.key());
    }
}

proof fn lemma_covered(v: Seq<UnixPath>, path: PathKey)
    ensures
        lies_below(v, path) == crate::ephemeral::covered(keys(v).to_set(), path),
{
    if lies_below(v, path) {
        let i = choose|i: int| 0 <= i < v.len() && (#[trigger] v[i]).key().is_prefix_of(path);
        assert(keys(v)[i] == v[i].key());
        assert(keys(v).to_set().contains(v[i].key()));
    }
    if crate::ephemeral::covered(keys(v).to_set(), path) {
        let r = choose|r: PathKey| #[trigger]
            keys(v).to_set().contains(r) && r.is_prefix_of(path);
        let i = choose|i: int| 0 <= i < keys(v).len() && keys(v)[i] == r;
        assert(v[i].key() == r);
    }
}

proof fn lemma_lists_key(v: Seq<UnixPath>, path: PathKey)
    ensures
        lists(v, path) == keys(v).to_set().contains(path),
        lists(v, path) == keys(v).contains(path),
{
    if lists(v, path) {
        let i = choose|i: int| 0 <= i < v.len() && (#[trigger] v[i]).key() == path;
        assert(keys(v)[i] == path);
    }
    if keys(v).contains(path) {
        let i = choose|i: int| 0 <= i < keys(v).len() && keys(v)[i] == path;
        assert(v[i].key() == path);
    }
}

/// A touched path refreshes the mounts above it; where it is to be mounted, the
/// repository above it is served from then on, declared by activity alone and fresh,
/// and nobody else's roots change. Where it is not, no root changes.
pub proof fn law_a_touched_path_is_served(
    state: &mut HookState,
    touched: &[TouchedPath],
    now: u64,
    r: Vec<EphemeralMountVerdict>,
    served: &[UnixPath],
    verdict: EphemeralMountVerdict,
    root: PathKey,
    contributor: Seq<char>,
)
    requires
        old(state).wf(),
        old(state)@.tracker is Some,
        touched.len() == 1,
        call_ensures(HookState::ensure_mounts, (state, touched, now), r),
        forall|p: PathKey| #[trigger]
            old(state)@.tracker->0.union().contains(p) == lists(served@, p),
        call_ensures(ephemeral_root_to_mount, (&touched@[0], served), verdict),
    ensures
        ({
            let v = old(state)@;
            let w = final(state)@;
            let t = v.tracker->0;
            let path = touched[0].canonical.key();
            &&& r.len() == 1 && r[0]@ == verdict@
            &&& w.tracker is Some
            &&& !(verdict is Mount) ==> w.tracker->0 == t && w.ephemeral.dom() == v.ephemeral.dom()
            &&& verdict matches EphemeralMountVerdict::Mount(mounted) ==> {
                let own = "ephemeral:"@ + mounted@;
                &&& declares(w.tracker->0, own, root) == (root == mounted.key())
                &&& contributor != own ==> declares_the_same(t, w.tracker->0, contributor)
                &&& w.tracker->0.union().contains(mounted.key())
                &&& w.ephemeral.dom().contains(mounted.key())
                &&& w.ephemeral[mounted.key()].last == now
                &&& root != mounted.key() ==> w.ephemeral.dom().contains(root)
                    == v.ephemeral.dom().contains(root)
            }
            &&& v.ephemeral.dom().contains(root) && root.is_prefix_of(path)
                ==> w.ephemeral.dom().contains(root) && w.ephemeral[root].last == now
            &&& v.ephemeral.dom().contains(root) && !root.is_prefix_of(path) && !(verdict is Mount)
                ==> w.ephemeral[root] == v.ephemeral[root]
            &&& w.worktrees.dom() == v.worktrees.dom()
            &&& v.worktrees.dom().contains(contributor) && components(
                v.worktrees[contributor].root,
            ).is_prefix_of(path) && v.worktrees[contributor].kept_since is Some
                ==> w.worktrees[contributor].kept_since == Some(now)
            &&& v.worktrees.dom().contains(contributor) && !components(
                v.worktrees[contributor].root,
            ).is_prefix_of(path) ==> w.worktrees[contributor] == v.worktrees[contributor]
            &&& keeps_sessions(v, w)
            &&& w.registry == v.registry
            &&& keeps_ledgers(v, w)
        }),
{
    let v = old(state)@;
    let w = final(state)@;
    let t = v.tracker->0;
    let ts = touched_views(touched@);
    assert(ts.len() == 1);
    assert(ts.drop_last() =~= Seq::<TouchedView>::empty());
    assert(ts.last() == touched@[0]@);
    let s = v.mount_state();
    assert(s.touched_all(ts.drop_last(), now) == s);
    assert(s.verdicts(ts.drop_last(), now) =~= Seq::empty());
    assert(keys(served@).to_set() =~= t.union()) by {
        assert forall|p: PathKey| keys(served@).to_set().contains(p) == t.union().contains(p) by {
            lemma_lists_key(served@, p);
        }
    }
    assert(verdict_views(r@).len() == r.len());
    assert(verdict_views(r@)[0] == r@[0]@);
    assert(w.worktrees.dom() =~= v.worktrees.dom());
    match verdict {
        EphemeralMountVerdict::Mount(mounted) => {
            let own = "ephemeral:"@ + mounted@;
            let u = w.tracker->0;
            assert(only(mounted@).dom() =~= set![mounted.key()]);
            assert(u.contributors.dom().contains(own) && u.contributors[own].dom().contains(
                mounted.key(),
            ));
            assert(u.union().contains(mounted.key()));
        },
        _ => {
            assert(w.ephemeral.dom() =~= v.ephemeral.dom());
        },
    }
}

proof fn lemma_passes_compose(s: MountState, a: Seq<TouchedView>, b: Seq<TouchedView>, now: u64)
    ensures
        s.touched_all(a + b, now) == s.touched_all(a, now).touched_all(b, now),
        s.verdicts(a + b, now) == s.verdicts(a, now) + s.touched_all(a, now).verdicts(b, now),
    decreases b.len(),
{
    if b.len() == 0 {
        assert(a + b =~= a);
        assert(s.verdicts(a, now) + s.touched_all(a, now).verdicts(b, now) =~= s.verdicts(a, now));
    } else {
        lemma_passes_compose(s, a, b.drop_last(), now);
        assert((a + b).drop_last() =~= a + b.drop_last());
        assert((a + b).last() == b.last());
        assert(s.verdicts(a + b, now) =~= s.verdicts(a, now) + s.touched_all(a, now).verdicts(
            b,
            now,
        ));
    }
}

/// Paths that are touched together are touched one after the other: a pass over two
/// lists is a pass over the first and then one over the second, verdict for verdict.
pub proof fn law_touched_paths_are_taken_in_turn(
    whole: &mut HookState,
    first: &mut HookState,
    second: &mut HookState,
    all: &[TouchedPath],
    a: &[TouchedPath],
    b: &[TouchedPath],
    now: u64,
    r: Vec<EphemeralMountVerdict>,
    ra: Vec<EphemeralMountVerdict>,
    rb: Vec<EphemeralMountVerdict>,
)
    requires
        old(whole).wf(),
        all@ == a@ + b@,
        *old(first) == *old(whole),
        *old(second) == *final(first),
        call_ensures(HookState::ensure_mounts, (whole, all, now), r),
        call_ensures(HookState::ensure_mounts, (first, a, now), ra),
        call_ensures(HookState::ensure_mounts, (second, b, now), rb),
    ensures
        final(whole)@ == final(second)@,
        verdict_views(r@) == verdict_views(ra@) + verdict_views(rb@),
{
    assert(touched_views(all@) =~= touched_views(a@) + touched_views(b@));
    if old(whole)@.tracker is Some {
        lemma_passes_compose(
            old(whole)@.mount_state(),
            touched_views(a@),
            touched_views(b@),
            now,
        );
    } else {
        assert(verdict_views(ra@) + verdict_views(rb@) =~= verdict_views(r@));
    }
}

/// Every argument of a query is touched where it leads: an absolute path as it is, a
/// relative one below the working directory; without arguments the query touches its
/// working directory.
pub proof fn law_a_query_touches_its_arguments(
    paths: &[UnixPath],
    cwd: Option<&UnixPath>,
    r: Vec<UnixPath>,
)
    requires
        call_ensures(resolve_touched_paths, (paths, cwd), r),
    ensures
        paths.len() > 0 ==> r.len() == paths.len(),
        paths.len() == 0 && cwd is Some ==> r.len() == 1 && r[0]@ == cwd->0@,
        paths.len() == 0 && cwd is None ==> r.len() == 0,
        forall|i: int|
            0 <= i < paths.len() ==> {
                &&& absolute((#[trigger] paths[i])@) || cwd is None ==> r[i]@ == paths[i]@
                &&& !absolute(paths[i]@) && cwd is Some && cwd->0@.len() > 0 ==> r[i].key()
                    == cwd->0.key() + named(segments(paths[i]@), false)
            },
{
    let out = crate::ephemeral::spellings(r@);
    let given = crate::ephemeral::spellings(paths@);
    assert(out.len() == r.len());
    assert(given.len() == paths.len());
    if paths.len() == 0 && cwd is Some {
        assert(out[0] == r@[0]@);
    }
    assert forall|i: int| 0 <= i < paths.len() implies {
        &&& absolute((#[trigger] paths[i])@) || cwd is None ==> r[i]@ == paths[i]@
        &&& !absolute(paths[i]@) && cwd is Some && cwd->0@.len() > 0 ==> r[i].key()
            == cwd->0.key() + named(segments(paths[i]@), false)
    } by {
        assert(out[i] == r@[i]@);
        assert(given[i] == paths@[i]@);
        if !absolute(paths[i]@) && cwd is Some && cwd->0@.len() > 0 {
            law_joined_paths_lie_below(cwd->0@, paths[i]@);
        }
    }
}

/// A worktree is mounted by itself exactly where its project is served and it is
/// neither served nor the project's own checkout.
pub proof fn law_a_worktree_of_a_served_project_is_mounted(
    facts: Option<&WorktreeFacts>,
    served: &[UnixPath],
    r: Option<UnixPath>,
)
    requires
        call_ensures(worktree_to_auto_mount, (facts, served), r),
    ensures
        r is Some == (facts is Some && lists(served@, facts->0.project.key()) && !lists(
            served@,
            facts->0.worktree.key(),
        ) && facts->0.project.key() != facts->0.worktree.key()),
        r is Some ==> r->0@ == facts->0.worktree@,
{
    if let Some(f) = facts {
        lemma_lists_key(served@, f.project.key());
        lemma_lists_key(served@, f.worktree.key());
    }
}

/// A clock that is started or touched reads the time of the touch, as does every clock
/// above a path that is touched; every other clock is left alone, and a clock is
/// dropped alone.
pub proof fn law_clocks_read_their_last_touch(
    own: &mut EphemeralMounts,
    above: &mut EphemeralMounts,
    dropped: &mut EphemeralMounts,
    path: &UnixPath,
    now: u64,
    root: PathKey,
)
    requires
        old(own).wf(),
        old(above).wf(),
        old(dropped).wf(),
        call_ensures(EphemeralMounts::touch, (own, path, now), ()),
        call_ensures(EphemeralMounts::touch_covering, (above, path, now), ()),
        call_ensures(EphemeralMounts::remove, (dropped, path), ()),
    ensures
        final(own)@.dom().contains(path.key()) && final(own)@[path.key()].last == now,
        root != path.key() ==> clock_unchanged(old(own)@, final(own)@, root),
        final(above)@.dom().contains(root) == old(above)@.dom().contains(root),
        old(above)@.dom().contains(root) && root.is_prefix_of(path.key()) ==> final(
            above)@[root].last == now && final(above)@[root].root == old(above)@[root].root,
        !root.is_prefix_of(path.key()) ==> clock_unchanged(old(above)@, final(above)@, root),
        !final(dropped)@.dom().contains(path.key()),
        root != path.key() ==> clock_unchanged(old(dropped)@, final(dropped)@, root),
{
}

/// A root expires once it was idle for the whole time, and the time that it has left is
/// what is missing from that: nothing is left exactly where it has expired.
pub proof fn law_a_root_expires_when_no_time_is_left(
    mounts: &EphemeralMounts,
    path: &UnixPath,
    now: u64,
    idle: u64,
    left: Option<u64>,
    r: Vec<UnixPath>,
    all: Vec<UnixPath>,
)
    requires
        mounts.wf(),
        call_ensures(EphemeralMounts::idle_remaining, (mounts, path, now, idle), left),
        call_ensures(EphemeralMounts::expired, (mounts, now, idle), r),
        call_ensures(EphemeralMounts::roots, (mounts,), all),
    ensures
        left is Some == mounts@.dom().contains(path.key()),
        lists(all@, path.key()) == mounts@.dom().contains(path.key()),
        lists(r@, path.key()) == idle_for(mounts@, now, idle, path.key()),
        lists(r@, path.key()) == (left == Some(0u64)),
        left matches Some(l) ==> l <= idle,
        left is Some && now >= mounts@[path.key()].last && now - mounts@[path.key()].last <= idle
            ==> left->0 == idle - (now - mounts@[path.key()].last),
{
    lemma_lists_key(r@, path.key());
    lemma_lists_key(all@, path.key());
}

/// A mount that is tracked is live and not blocked; one that is armed counts down from
/// that moment, one that is marked is blocked, and every other mount is left alone.
pub proof fn law_mounts_change_where_they_are_addressed(
    tracking: &mut WorktreeMounts,
    arming: &mut WorktreeMounts,
    marking: &mut WorktreeMounts,
    contributor: &str,
    path: &UnixPath,
    now: u64,
    armed: bool,
    marked: usize,
    other: Seq<char>,
)
    requires
        old(tracking).wf(),
        old(arming).wf(),
        old(marking).wf(),
        call_ensures(WorktreeMounts::track, (tracking, contributor, path), ()),
        call_ensures(WorktreeMounts::arm_countdown, (arming, path, now), armed),
        call_ensures(WorktreeMounts::mark_blocked_covering, (marking, path), marked),
    ensures
        final(tracking)@.dom().contains(contributor@),
        final(tracking)@[contributor@] == (WorktreeClockView {
            root: path@,
            blocked: false,
            kept_since: None,
        }),
        other != contributor@ ==> mount_unchanged(old(tracking)@, final(tracking)@, other),
        final(arming)@.dom() == old(arming)@.dom(),
        old(arming)@.dom().contains(other) ==> {
            let clock = old(arming)@[other];
            &&& components(clock.root).is_prefix_of(path.key()) ==> armed && final(arming)@[other]
                == (WorktreeClockView { kept_since: Some(now), ..clock })
            &&& !components(clock.root).is_prefix_of(path.key()) ==> final(arming)@[other] == clock
        },
        final(marking)@.dom() == old(marking)@.dom(),
        old(marking)@.dom().contains(other) ==> {
            let clock = old(marking)@[other];
            final(marking)@[other] == (WorktreeClockView {
                blocked: clock.blocked || components(clock.root).is_prefix_of(path.key()),
                ..clock
            })
        },
{
    assert(final(arming)@.dom() =~= old(arming)@.dom());
    assert(final(marking)@.dom() =~= old(marking)@.dom());
    if old(arming)@.dom().contains(other) && components(
        old(arming)@[other].root,
    ).is_prefix_of(path.key()) {
        assert(crate::mounts::worktrees_covering(old(arming)@, path.key()).contains(other));
    }
}

/// A countdown that lapsed.
pub open spec fn lapsed_for(m: WorktreeMountsView, now: u64, idle: u64, key: Seq<char>) -> bool {
    m.dom().contains(key) && m[key].kept_since is Some && (if now >= m[key].kept_since->0 {
        now - m[key].kept_since->0
    } else {
        0
    }) >= idle
}

/// The mounts that expire are those that were kept and idle for the whole time, each
/// with its root; a live mount never does. A mount is forgotten alone, a prefix with
/// every mount whose key begins so.
pub proof fn law_only_kept_mounts_expire(
    mounts: &WorktreeMounts,
    now: u64,
    idle: u64,
    r: Vec<(String, UnixPath)>,
    forgetting: &mut WorktreeMounts,
    sweeping: &mut WorktreeMounts,
    key: &str,
    other: Seq<char>,
)
    requires
        mounts.wf(),
        old(forgetting).wf(),
        old(sweeping).wf(),
        call_ensures(WorktreeMounts::expired_countdowns, (mounts, now, idle), r),
        call_ensures(WorktreeMounts::remove, (forgetting, key), ()),
        call_ensures(WorktreeMounts::remove_prefix, (sweeping, key), ()),
    ensures
        (exists|i: int| 0 <= i < r.len() && (#[trigger] r[i]).0@ == other) == lapsed_for(
            mounts@,
            now,
            idle,
            other,
        ),
        forall|i: int| 0 <= i < r.len() ==> (#[trigger] r[i]).1@ == mounts@[r[i].0@].root,
        !final(forgetting)@.dom().contains(key@),
        other != key@ ==> mount_unchanged(old(forgetting)@, final(forgetting)@, other),
        has_prefix(other, key@) ==> !final(sweeping)@.dom().contains(other),
        !has_prefix(other, key@) ==> mount_unchanged(old(sweeping)@, final(sweeping)@, other),
{
    let names = crate::mounts::lapsed_names(r@);
    assert(names.to_set().contains(other) == names.contains(other));
    if exists|i: int| 0 <= i < r.len() && (#[trigger] r[i]).0@ == other {
        let i = choose|i: int| 0 <= i < r.len() && (#[trigger] r[i]).0@ == other;
        assert(names[i] == other);
    }
    if names.contains(other) {
        let i = choose|i: int| 0 <= i < names.len() && names[i] == other;
        assert(r[i].0@ == other);
    }
}

proof fn lemma_retired_all(
    t: TrackerView,
    m: WorktreeMountsView,
    roots: Seq<PathKey>,
    contributor: Seq<char>,
    root: PathKey,
)
    requires
        t.roots.dom() == t.union(),
    ensures
        ({
            let u = tracker_retired(t, roots);
            let n = mounts_retired(m, t, roots);
            &&& u.roots.dom() == u.union()
            &&& declares(u, contributor, root) == (declares(t, contributor, root)
                && !roots.contains(root))
            &&& roots.contains(root) ==> !u.union().contains(root)
            &&& !roots.contains(root) ==> u.union().contains(root) == t.union().contains(root)
            &&& (exists|i: int|
                0 <= i < roots.len() && declares(t, contributor, #[trigger] roots[i]))
                ==> !n.dom().contains(contributor)
            &&& !(exists|i: int|
                0 <= i < roots.len() && declares(t, contributor, #[trigger] roots[i]))
                ==> mount_unchanged(m, n, contributor)
        }),
    decreases roots.len(),
{
    if roots.len() > 0 {
        let front = roots.drop_last();
        let last = roots.last();
        let mid = tracker_retired(t, front);
        let u = tracker_retired(t, roots);
        lemma_retired_all(t, m, front, contributor, root);
        lemma_retired_all(t, m, front, contributor, last);
        crate::lifetime_laws::lemma_lets_go(mid, last);
        assert(roots =~= front.push(last));
        assert(roots[roots.len() - 1] == last);
        assert(roots.contains(root) == (front.contains(root) || root == last)) by {
            if front.contains(root) {
                let i = choose|i: int| 0 <= i < front.len() && front[i] == root;
                assert(roots[i] == root);
            }
            if roots.contains(root) {
                let i = choose|i: int| 0 <= i < roots.len() && roots[i] == root;
                if i < front.len() {
                    assert(front[i] == root);
                }
            }
        }
        if root != last {
            assert(declares(u, contributor, root) == declares(mid, contributor, root));
            if u.union().contains(root) {
                let k = choose|k: Seq<char>| #[trigger]
                    u.contributors.dom().contains(k) && u.contributors[k].dom().contains(root);
                assert(declares(u, k, root));
                assert(declares(mid, k, root));
                assert(mid.contributors.dom().contains(k) && mid.contributors[k].dom().contains(
                    root,
                ));
                assert(mid.union().contains(root));
            }
        }
        assert(u.roots.dom() =~= u.union());
        assert(mid.holders(last).contains(contributor) == declares(mid, contributor, last));
        if exists|i: int| 0 <= i < front.len() && declares(t, contributor, #[trigger] front[i]) {
            let i = choose|i: int|
                0 <= i < front.len() && declares(t, contributor, #[trigger] front[i]);
            assert(declares(t, contributor, roots[i]));
        }
        if exists|i: int| 0 <= i < roots.len() && declares(t, contributor, #[trigger] roots[i]) {
            let i = choose|i: int|
                0 <= i < roots.len() && declares(t, contributor, #[trigger] roots[i]);
            if i < front.len() {
                assert(declares(t, contributor, front[i]));
            } else if front.contains(last) {
                let j = choose|j: int| 0 <= j < front.len() && front[j] == last;
                assert(declares(t, contributor, front[j]));
            }
        }
        if declares(t, contributor, last) {
            assert(declares(t, contributor, roots[roots.len() - 1]));
        }
    }
}

/// A kept worktree whose countdown has lapsed loses its mount: everybody lets its root
/// go. No other root is let go and no other contributor's mount forgotten, and nothing
/// but roots and mounts changes.
pub proof fn law_lapsed_worktrees_are_let_go(
    state: &mut HookState,
    now: u64,
    r: Vec<Retirement>,
    key: Seq<char>,
    contributor: Seq<char>,
    root: PathKey,
)
    requires
        old(state).wf(),
        old(state)@.tracker is Some,
        call_ensures(HookState::retire_lapsed, (state, now), r),
    ensures
        ({
            let v = old(state)@;
            let w = final(state)@;
            let t = v.tracker->0;
            let gone = exists|k: Seq<char>| #[trigger]
                lapsed_for(v.worktrees, now, 420_000_000_000, k) && components(
                    v.worktrees[k].root,
                ) == root;
            &&& (exists|i: int| 0 <= i < r.len() && (#[trigger] r[i]).contributor@ == key)
                == lapsed_for(v.worktrees, now, 420_000_000_000, key)
            &&& w.tracker is Some
            &&& gone ==> !w.tracker->0.union().contains(root)
            &&& !gone ==> w.tracker->0.union().contains(root) == t.union().contains(root)
            &&& declares(w.tracker->0, contributor, root) == (declares(t, contributor, root)
                && !gone)
            &&& w.ephemeral == v.ephemeral
            &&& keeps_sessions(v, w)
            &&& w.registry == v.registry
            &&& keeps_ledgers(v, w)
        }),
{
    let v = old(state)@;
    let t = v.tracker->0;
    let names = retired_names(r@);
    let roots = retired_roots(r@);
    lemma_retired_all(t, v.worktrees, roots, contributor, root);
    assert forall|k: Seq<char>| (exists|i: int|
        0 <= i < r.len() && (#[trigger] r[i]).contributor@ == k) == #[trigger] lapsed_for(
        v.worktrees,
        now,
        420_000_000_000,
        k,
    ) by {
        assert(names.to_set().contains(k) == names.contains(k));
        if exists|i: int| 0 <= i < r.len() && (#[trigger] r[i]).contributor@ == k {
            let i = choose|i: int| 0 <= i < r.len() && (#[trigger] r[i]).contributor@ == k;
            assert(names[i] == k);
        }
        if names.contains(k) {
            let i = choose|i: int| 0 <= i < names.len() && names[i] == k;
            assert(r[i].contributor@ == k);
        }
    }
    assert(lapsed_for(v.worktrees, now, 420_000_000_000, key) == lapsed_for(
        v.worktrees,
        now,
        420_000_000_000,
        key,
    ));
    let gone = exists|k: Seq<char>| #[trigger]
        lapsed_for(v.worktrees, now, 420_000_000_000, k) && components(v.worktrees[k].root) == root;
    if gone {
        let k = choose|k: Seq<char>| #[trigger]
            lapsed_for(v.worktrees, now, 420_000_000_000, k) && components(v.worktrees[k].root)
                == root;
        let i = choose|i: int| 0 <= i < r.len() && (#[trigger] r[i]).contributor@ == k;
        assert(r[i].root@ == v.worktrees[k].root);
        assert(roots[i] == root);
    }
    if roots.contains(root) {
        let i = choose|i: int| 0 <= i < roots.len() && roots[i] == root;
        let k = r[i].contributor@;
        assert(r[i].root@ == v.worktrees[k].root);
        assert(lapsed_for(v.worktrees, now, 420_000_000_000, k));
    }
}

} // verus!
