//! Roots that activity mounts and idleness reaps.

use crate::contributor::{ephemeral_contributor, ephemeral_key, WORKTREE_CONTRIBUTOR_PREFIX};
use crate::mounts::{ephemeral_covered, ephemeral_expired, ephemeral_touched, worktrees_changed, EphemeralMounts, EphemeralMountsView, WorktreeClockView, WorktreeMounts, WorktreeMountsView};
use crate::order::strictly_sorted;
use crate::path::{absolute, components, first_spellings, insert_path, joined, keys, lemma_first_spellings, lemma_path_strict_total, lemma_spelled_alike, lemma_spelled_next, path_lt, same_spellings, spelled_in, PathKey, UnixPath};
use crate::table::{lemma_push_set, lemma_take_next};
use crate::text::views;
use crate::tracker::{contributor_names, lemma_only, lemma_removed_all_next, lemma_removed_all_none, only, RootTracker, TrackerView};
use vstd::prelude::*;

verus! {

/// A path that a query touches, and what the file system says about it.
pub struct TouchedPath {
    /// The path, canonical where it exists.
    pub canonical: UnixPath,
    /// The canonical repository root above it.
    pub enclosing: Option<UnixPath>,
    /// Whether the path is a sensitive one.
    pub sensitive: bool,
}

/// A touched path by its spellings.
pub struct TouchedView {
    pub canonical: Seq<char>,
    pub enclosing: Option<Seq<char>>,
    pub sensitive: bool,
}

/// The view of an optional path.
pub open spec fn path_option(p: Option<UnixPath>) -> Option<Seq<char>> {
    match p {
        Some(q) => Some(q@),
        None => None,
    }
}

impl View for TouchedPath {
    type V = TouchedView;

    open spec fn view(&self) -> TouchedView {
        TouchedView {
            canonical: self.canonical@,
            enclosing: path_option(self.enclosing),
            sensitive: self.sensitive,
        }
    }
}

/// The views of a list of touched paths.
pub open spec fn touched_views(v: Seq<TouchedPath>) -> Seq<TouchedView> {
    v.map_values(|t: TouchedPath| t@)
}

/// What becomes of a touched path.
#[derive(Debug, PartialEq, Eq)]
pub enum EphemeralMountVerdict {
    /// This root is mounted.
    Mount(UnixPath),
    /// This root would have been mounted, were the path not sensitive.
    RefusedSensitive(UnixPath),
    /// There is nothing to mount.
    NoMount,
}

/// What becomes of a touched path, the roots by spelling.
pub enum VerdictView {
    Mount(Seq<char>),
    RefusedSensitive(Seq<char>),
    NoMount,
}

impl View for EphemeralMountVerdict {
    type V = VerdictView;

    open spec fn view(&self) -> VerdictView {
        match self {
            EphemeralMountVerdict::Mount(r) => VerdictView::Mount(r@),
            EphemeralMountVerdict::RefusedSensitive(r) => VerdictView::RefusedSensitive(r@),
            EphemeralMountVerdict::NoMount => VerdictView::NoMount,
        }
    }
}

/// Whether a path is one of the roots or lies below one.
pub open spec fn covered(roots: Set<PathKey>, path: PathKey) -> bool {
    exists|r: PathKey| #[trigger] roots.contains(r) && r.is_prefix_of(path)
}

/// A path below no served root mounts the repository root above it, unless that
/// root is served or the path is sensitive.
pub open spec fn mount_verdict(t: TouchedView, roots: Set<PathKey>) -> VerdictView {
    if covered(roots, components(t.canonical)) {
        VerdictView::NoMount
    } else {
        match t.enclosing {
            None => VerdictView::NoMount,
            Some(root) => if roots.contains(components(root)) {
                VerdictView::NoMount
            } else if t.sensitive {
                VerdictView::RefusedSensitive(root)
            } else {
                VerdictView::Mount(root)
            },
        }
    }
}

/// Whether the list holds the path.
pub fn contains_path(v: &[UnixPath], p: &UnixPath) -> (r: bool)
    ensures
        r == keys(v@).contains(p.key()),
{
    let mut i: usize = 0;
    while i < v.len()
        invariant
            i <= v.len(),
            forall|j: int| 0 <= j < i ==> #[trigger] keys(v@)[j] != p.key(),
        decreases v.len() - i,
    {
        assert(keys(v@)[i as int] == v@[i as int].key());
        if v[i].same(p) {
            return true;
        }
        i += 1;
    }
    false
}

/// Whether the path is one of the list or lies below one.
pub fn covered_by(v: &[UnixPath], p: &UnixPath) -> (r: bool)
    ensures
        r == covered(keys(v@).to_set(), p.key()),
{
    let mut i: usize = 0;
    while i < v.len()
        invariant
            i <= v.len(),
            forall|j: int| 0 <= j < i ==> !(#[trigger] keys(v@)[j]).is_prefix_of(p.key()),
        decreases v.len() - i,
    {
        assert(keys(v@)[i as int] == v@[i as int].key());
        if p.starts_with(&v[i]) {
            assert(keys(v@).to_set().contains(keys(v@)[i as int]));
            return true;
        }
        i += 1;
    }
    proof {
        assert forall|r: PathKey| #[trigger] keys(v@).to_set().contains(r) implies
            !r.is_prefix_of(p.key()) by {
            let j = choose|j: int| 0 <= j < keys(v@).len() && keys(v@)[j] == r;
        }
    }
    false
}

/// Decides whether a touched path mounts the repository root above it.
pub fn ephemeral_root_to_mount(touched: &TouchedPath, served: &[UnixPath]) -> (r:
    EphemeralMountVerdict)
    ensures
        r@ == mount_verdict(touched@, keys(served@).to_set()),
{
    if covered_by(served, &touched.canonical) {
        return EphemeralMountVerdict::NoMount;
    }
    match &touched.enclosing {
        None => EphemeralMountVerdict::NoMount,
        Some(root) => if contains_path(served, root) {
            EphemeralMountVerdict::NoMount
        } else if touched.sensitive {
            EphemeralMountVerdict::RefusedSensitive(root.duplicate())
        } else {
            EphemeralMountVerdict::Mount(root.duplicate())
        },
    }
}

/// The mounts of a daemon.
#[verifier::ext_equal]
pub struct MountState {
    pub tracker: TrackerView,
    pub ephemeral: EphemeralMountsView,
    pub worktrees: WorktreeMountsView,
}

impl MountState {
    /// After activity on `path`: every mount above it is fresh.
    pub open spec fn active(self, path: PathKey, now: u64) -> MountState {
        MountState {
            tracker: self.tracker,
            ephemeral: ephemeral_covered(self.ephemeral, path, now),
            worktrees: worktrees_changed(
                self.worktrees,
                path,
                |c: WorktreeClockView| c.touched(now),
            ),
        }
    }

    /// After `root` was mounted.
    pub open spec fn mounted(self, root: Seq<char>, now: u64) -> MountState {
        MountState {
            tracker: self.tracker.set(ephemeral_key(root), only(root)),
            ephemeral: ephemeral_touched(self.ephemeral, root, now),
            worktrees: self.worktrees,
        }
    }

    /// After one touched path.
    pub open spec fn touched(self, t: TouchedView, now: u64) -> MountState {
        let fresh = self.active(components(t.canonical), now);
        match mount_verdict(t, self.tracker.union()) {
            VerdictView::Mount(root) => fresh.mounted(root, now),
            _ => fresh,
        }
    }

    /// After a list of touched paths.
    pub open spec fn touched_all(self, ts: Seq<TouchedView>, now: u64) -> MountState
        decreases ts.len(),
    {
        if ts.len() == 0 {
            self
        } else {
            self.touched_all(ts.drop_last(), now).touched(ts.last(), now)
        }
    }

    /// What becomes of each touched path.
    pub open spec fn verdicts(self, ts: Seq<TouchedView>, now: u64) -> Seq<VerdictView>
        decreases ts.len(),
    {
        if ts.len() == 0 {
            Seq::empty()
        } else {
            self.verdicts(ts.drop_last(), now).push(
                mount_verdict(ts.last(), self.touched_all(ts.drop_last(), now).tracker.union()),
            )
        }
    }
}

/// The views of a list of verdicts.
pub open spec fn verdict_views(v: Seq<EphemeralMountVerdict>) -> Seq<VerdictView> {
    v.map_values(|e: EphemeralMountVerdict| e@)
}

/// Refreshes the mounts above every touched path, and mounts the repository root
/// of each that no served root covers. Returns what became of each path.
pub fn ensure_ephemeral_mounts(
    tracker: &mut RootTracker,
    ephemeral: &mut EphemeralMounts,
    worktrees: &mut WorktreeMounts,
    touched: &[TouchedPath],
    now: u64,
) -> (r: Vec<EphemeralMountVerdict>)
    requires
        old(tracker).wf(),
        old(ephemeral).wf(),
        old(worktrees).wf(),
    ensures
        final(tracker).wf(),
        final(ephemeral).wf(),
        final(worktrees).wf(),
        ({
            let before = MountState {
                tracker: old(tracker)@,
                ephemeral: old(ephemeral)@,
                worktrees: old(worktrees)@,
            };
            let after = before.touched_all(touched_views(touched@), now);
            &&& final(tracker)@ == after.tracker
            &&& final(ephemeral)@ == after.ephemeral
            &&& final(worktrees)@ == after.worktrees
            &&& verdict_views(r@) == before.verdicts(touched_views(touched@), now)
        }),
{
    let ghost before = MountState {
        tracker: tracker@,
        ephemeral: ephemeral@,
        worktrees: worktrees@,
    };
    let ghost all = touched_views(touched@);
    let mut r: Vec<EphemeralMountVerdict> = Vec::new();
    let mut i: usize = 0;
    assert(verdict_views(r@) =~= before.verdicts(all.take(0), now));
    while i < touched.len()
        invariant
            i <= touched.len(),
            all == touched_views(touched@),
            tracker.wf(),
            ephemeral.wf(),
            worktrees.wf(),
            tracker@ == before.touched_all(all.take(i as int), now).tracker,
            ephemeral@ == before.touched_all(all.take(i as int), now).ephemeral,
            worktrees@ == before.touched_all(all.take(i as int), now).worktrees,
            verdict_views(r@) == before.verdicts(all.take(i as int), now),
        decreases touched.len() - i,
    {
        let ghost mid = before.touched_all(all.take(i as int), now);
        let ghost told = verdict_views(r@);
        proof {
            assert(all.take(i + 1).drop_last() =~= all.take(i as int));
            assert(all.take(i + 1).last() == touched@[i as int]@);
        }
        let t = &touched[i];
        ephemeral.touch_covering(&t.canonical, now);
        worktrees.touch_covering(&t.canonical, now);
        let existing = tracker.global_roots();
        let verdict = ephemeral_root_to_mount(t, existing.as_slice());
        if let EphemeralMountVerdict::Mount(root) = &verdict {
            let contributor = ephemeral_contributor(root);
            let mut roots: Vec<UnixPath> = Vec::new();
            roots.push(root.duplicate());
            proof {
                lemma_only(roots@);
            }
            tracker.set_roots(contributor.as_str(), roots);
            ephemeral.touch(root, now);
        }
        r.push(verdict);
        assert(verdict_views(r@) =~= told.push(verdict@));
        i += 1;
    }
    assert(all.take(touched.len() as int) =~= all);
    r
}

/// The distinct paths among those that a batch of hits touches, in path order.
pub fn distinct_paths(hits: &[UnixPath]) -> (r: Vec<UnixPath>)
    ensures
        strictly_sorted(keys(r@), path_lt()),
        keys(r@).to_set() == keys(hits@).to_set(),
        spelled_in(r@, first_spellings(hits@)),
{
    let mut r: Vec<UnixPath> = Vec::new();
    let mut i: usize = 0;
    proof {
        lemma_path_strict_total();
        assert(keys(r@).to_set() =~= keys(hits@).take(0).to_set());
    }
    while i < hits.len()
        invariant
            i <= hits.len(),
            strictly_sorted(keys(r@), path_lt()),
            keys(r@).to_set() == keys(hits@).take(i as int).to_set(),
            spelled_in(r@, first_spellings(hits@.take(i as int))),
        decreases hits.len() - i,
    {
        let ghost seen = hits@.take(i as int);
        let ghost before = r@;
        let hit = hits[i].duplicate();
        let ghost p = hit;
        proof {
            lemma_take_next(keys(hits@), i as int);
            lemma_first_spellings(seen);
            assert(keys(seen) =~= keys(hits@).take(i as int));
            assert forall|k: PathKey| #[trigger] keys(before).contains(k) == first_spellings(
                seen,
            ).dom().contains(k) by {
                assert(keys(before).to_set().contains(k) == keys(before).contains(k));
            }
        }
        insert_path(&mut r, hit);
        proof {
            lemma_spelled_next(before, r@, seen, p);
            assert(same_spellings(seen.push(p), hits@.take(i + 1)));
            lemma_spelled_alike(seen.push(p), hits@.take(i + 1));
        }
        i += 1;
    }
    assert(hits@.take(hits.len() as int) =~= hits@);
    assert(keys(hits@).take(hits.len() as int) =~= keys(hits@));
    r
}

/// Resolves the path arguments of a query: relative ones are taken from `cwd`,
/// and without arguments the query touches `cwd`.
pub open spec fn touched_paths(paths: Seq<Seq<char>>, cwd: Option<Seq<char>>) -> Seq<Seq<char>> {
    if paths.len() == 0 {
        match cwd {
            Some(c) => seq![c],
            None => Seq::empty(),
        }
    } else {
        paths.map_values(
            |p: Seq<char>|
                match cwd {
                    Some(base) => if absolute(p) {
                        p
                    } else {
                        joined(base, p)
                    },
                    None => p,
                },
        )
    }
}

/// The spellings of a list of paths.
pub open spec fn spellings(v: Seq<UnixPath>) -> Seq<Seq<char>> {
    v.map_values(|p: UnixPath| p@)
}

/// Resolves the path arguments of a query to the paths it touches.
pub fn resolve_touched_paths(paths: &[UnixPath], cwd: Option<&UnixPath>) -> (r: Vec<UnixPath>)
    ensures
        spellings(r@) == touched_paths(
            spellings(paths@),
            match cwd {
                Some(c) => Some(c@),
                None => None,
            },
        ),
{
    let mut r: Vec<UnixPath> = Vec::new();
    if paths.len() == 0 {
        if let Some(c) = cwd {
            r.push(c.duplicate());
            assert(spellings(r@) =~= seq![c@]);
        } else {
            assert(spellings(r@) =~= Seq::empty());
        }
        return r;
    }
    let ghost want = touched_paths(
        spellings(paths@),
        match cwd {
            Some(c) => Some(c@),
            None => None,
        },
    );
    let mut i: usize = 0;
    while i < paths.len()
        invariant
            i <= paths.len(),
            paths.len() > 0,
            want == touched_paths(
                spellings(paths@),
                match cwd {
                    Some(c) => Some(c@),
                    None => None,
                },
            ),
            spellings(r@) == want.take(i as int),
        decreases paths.len() - i,
    {
        let ghost before = spellings(r@);
        let p = match cwd {
            Some(base) => if paths[i].is_absolute() {
                paths[i].duplicate()
            } else {
                base.join(paths[i].as_str())
            },
            None => paths[i].duplicate(),
        };
        proof {
            assert(spellings(paths@)[i as int] == paths@[i as int]@);
            assert(want[i as int] == p@);
            lemma_take_next(want, i as int);
        }
        r.push(p);
        assert(spellings(r@) =~= before.push(p@));
        i += 1;
    }
    assert(want.take(paths.len() as int) =~= want);
    r
}

/// The keys of the ephemeral contributors of the roots in `gone`.
pub open spec fn ephemeral_keys(m: EphemeralMountsView, gone: Set<PathKey>) -> Set<Seq<char>> {
    Set::new(
        |k: Seq<char>| exists|p: PathKey| #[trigger] gone.contains(p) && k == ephemeral_key(m[p].root),
    )
}

/// Reaps every ephemeral root that has been idle for at least `idle`, and returns
/// them.
pub fn reap_idle_ephemeral_roots(
    tracker: &mut RootTracker,
    mounts: &mut EphemeralMounts,
    now: u64,
    idle: u64,
) -> (r: Vec<UnixPath>)
    requires
        old(tracker).wf(),
        old(mounts).wf(),
    ensures
        final(tracker).wf(),
        final(mounts).wf(),
        keys(r@).no_duplicates(),
        keys(r@).to_set() == ephemeral_expired(old(mounts)@, now, idle),
        forall|i: int| 0 <= i < r.len() ==> (#[trigger] r[i])@ == old(mounts)@[r[i].key()].root,
        final(mounts)@ == old(mounts)@.remove_keys(ephemeral_expired(old(mounts)@, now, idle)),
        final(tracker)@ == old(tracker)@.removed_all(
            ephemeral_keys(old(mounts)@, ephemeral_expired(old(mounts)@, now, idle)),
        ),
{
    let expired = mounts.expired(now, idle);
    let ghost m = mounts@;
    let ghost all = keys(expired@);
    let mut i: usize = 0;
    proof {
        assert(ephemeral_keys(m, all.take(0).to_set()) =~= Set::empty());
        lemma_removed_all_none(tracker@);
        assert(m.remove_keys(all.take(0).to_set()) =~= m);
    }
    while i < expired.len()
        invariant
            i <= expired.len(),
            tracker.wf(),
            mounts.wf(),
            m == old(mounts)@,
            all == keys(expired@),
            all.no_duplicates(),
            forall|j: int| 0 <= j < expired.len() ==> (#[trigger] expired[j])@
                == m[expired[j].key()].root,
            mounts@ == m.remove_keys(all.take(i as int).to_set()),
            tracker@ == old(tracker)@.removed_all(ephemeral_keys(m, all.take(i as int).to_set())),
        decreases expired.len() - i,
    {
        let root = &expired[i];
        let contributor = ephemeral_contributor(root);
        proof {
            let before = all.take(i as int).to_set();
            lemma_take_next(all, i as int);
            assert(all[i as int] == root.key());
            lemma_removed_all_next(old(tracker)@, ephemeral_keys(m, before), contributor@);
            let next = all.take(i + 1).to_set();
            assert forall|k: Seq<char>| ephemeral_keys(m, next).contains(k) == ephemeral_keys(
                m,
                before,
            ).insert(contributor@).contains(k) by {
                if ephemeral_keys(m, before).contains(k) {
                    let p = choose|p: PathKey| #[trigger]
                        before.contains(p) && k == ephemeral_key(m[p].root);
                    assert(next.contains(p));
                }
                assert(next.contains(root.key()));
                if ephemeral_keys(m, next).contains(k) && k != contributor@ {
                    let p = choose|p: PathKey| #[trigger]
                        next.contains(p) && k == ephemeral_key(m[p].root);
                    assert(before.contains(p));
                }
            }
            assert(ephemeral_keys(m, next) =~= ephemeral_keys(m, before).insert(contributor@));
            assert(m.remove_keys(next) =~= m.remove_keys(before).remove(root.key()));
        }
        tracker.remove_contributor(contributor.as_str());
        mounts.remove(root);
        i += 1;
    }
    assert(all.take(expired.len() as int) =~= all);
    expired
}

/// The worktree contributors none of whose roots exists.
pub open spec fn missing_worktrees(v: TrackerView, missing: Set<PathKey>) -> Set<Seq<char>> {
    v.with_prefix(WORKTREE_CONTRIBUTOR_PREFIX@).filter(
        |k: Seq<char>| v.contributors[k].dom().subset_of(missing),
    )
}

/// Reaps every worktree contributor whose roots are all among the `missing`
/// paths, and returns their keys.
pub fn reap_missing_worktree_roots(tracker: &mut RootTracker, missing: &[UnixPath]) -> (r: Vec<
    String,
>)
    requires
        old(tracker).wf(),
    ensures
        final(tracker).wf(),
        views(r@).no_duplicates(),
        views(r@).to_set() == missing_worktrees(old(tracker)@, keys(missing@).to_set()),
        final(tracker)@ == old(tracker)@.removed_all(
            missing_worktrees(old(tracker)@, keys(missing@).to_set()),
        ),
{
    let ghost v = tracker@;
    let ghost lost = keys(missing@).to_set();
    let ghost gone = |k: Seq<char>| v.contributors[k].dom().subset_of(lost);
    let mounted = tracker.contributors_with_prefix(WORKTREE_CONTRIBUTOR_PREFIX);
    let ghost all = contributor_names(mounted@);
    let mut r: Vec<String> = Vec::new();
    let mut i: usize = 0;
    proof {
        assert(views(r@).to_set() =~= all.take(0).to_set().filter(gone));
        lemma_removed_all_none(v);
        assert(views(r@).to_set() =~= Set::empty());
    }
    while i < mounted.len()
        invariant
            i <= mounted.len(),
            tracker.wf(),
            v == old(tracker)@,
            lost == keys(missing@).to_set(),
            gone == (|k: Seq<char>| v.contributors[k].dom().subset_of(lost)),
            all == contributor_names(mounted@),
            all.no_duplicates(),
            forall|j: int|
                0 <= j < mounted.len() ==> keys((#[trigger] mounted[j]).1@).to_set()
                    == v.contributors[mounted[j].0@].dom(),
            views(r@).no_duplicates(),
            views(r@).to_set() == all.take(i as int).to_set().filter(gone),
            tracker@ == v.removed_all(views(r@).to_set()),
        decreases mounted.len() - i,
    {
        let key = &mounted[i].0;
        let roots = &mounted[i].1;
        let ghost before = views(r@);
        proof {
            lemma_take_next(all, i as int);
            assert(all[i as int] == key@);
        }
        let mut any = false;
        let mut j: usize = 0;
        while j < roots.len() && !any
            invariant
                j <= roots.len(),
                lost == keys(missing@).to_set(),
                any ==> exists|p: PathKey|
                    keys(roots@).to_set().contains(p) && !#[trigger] lost.contains(p),
                !any ==> forall|k: int| 0 <= k < j ==> lost.contains(#[trigger] keys(roots@)[k]),
            decreases roots.len() - j,
        {
            assert(keys(roots@)[j as int] == roots@[j as int].key());
            if !contains_path(missing, &roots[j]) {
                assert(keys(roots@).to_set().contains(roots[j as int].key()));
                assert(!lost.contains(roots[j as int].key()));
                any = true;
            }
            j += 1;
        }
        proof {
            if !any {
                assert forall|p: PathKey| keys(roots@).to_set().contains(p) implies lost.contains(
                    p,
                ) by {
                    let k = choose|k: int| 0 <= k < keys(roots@).len() && keys(roots@)[k] == p;
                }
            }
            assert(v.contributors[key@].dom().subset_of(lost) == !any);
        }
        if !any {
            tracker.remove_contributor(key.as_str());
            r.push(key.clone());
            proof {
                assert(views(r@) =~= before.push(key@));
                assert(!before.to_set().contains(key@));
                lemma_push_set(before, key@);
                lemma_removed_all_next(v, before.to_set(), key@);
                assert(all.take(i + 1).to_set().filter(gone) =~= all.take(i as int).to_set().filter(
                    gone,
                ).insert(key@));
            }
        } else {
            assert(all.take(i + 1).to_set().filter(gone) =~= all.take(i as int).to_set().filter(
                gone,
            ));
        }
        i += 1;
    }
    assert(all.take(mounted.len() as int) =~= all);
    assert(missing_worktrees(v, lost) =~= all.to_set().filter(gone));
    r
}

/// A worktree and the main checkout of its project, both canonical.
pub struct WorktreeFacts {
    pub worktree: UnixPath,
    pub project: UnixPath,
}

/// Decides whether a worktree is mounted: its project is served, it is not the
/// project's main checkout, and it is not served itself.
pub fn worktree_to_auto_mount(facts: Option<&WorktreeFacts>, served: &[UnixPath]) -> (r: Option<
    UnixPath,
>)
    ensures
        path_option(r) == match facts {
            None => None,
            Some(f) => if !keys(served@).contains(f.worktree.key()) && f.project.key()
                != f.worktree.key() && keys(served@).contains(f.project.key()) {
                Some(f.worktree@)
            } else {
                None
            },
        },
{
    match facts {
        None => None,
        Some(f) => {
            if contains_path(served, &f.worktree) {
                return None;
            }
            if !f.project.same(&f.worktree) && contains_path(served, &f.project) {
                Some(f.worktree.duplicate())
            } else {
                None
            }
        },
    }
}

} // verus!
