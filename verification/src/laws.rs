//! What holds across operations.

use crate::boards::order_without;
use crate::clock::elapsed;
use crate::contributor::{ephemeral_key, lemma_hook_is_not_ephemeral, worktree_key, worktree_prefix, worktree_session, EPHEMERAL_CONTRIBUTOR_PREFIX, HOOK_CONTRIBUTOR, SEED_ENV_CONTRIBUTOR, WORKTREE_CONTRIBUTOR_PREFIX};
use crate::daemon::{mcp_key, AcceptEvent, Census};
use crate::dispatch::{after_stop, SessionFacts};
use crate::ephemeral::{covered, mount_verdict, MountState, TouchedView, VerdictView};
use crate::handoff::HandoffView;
use crate::ledger::PromotionId;
use crate::mounts::{ephemeral_covered, ephemeral_expired, worktrees_changed, worktrees_lapsed, EphemeralMountsView, WorktreeClockView, WorktreeMountsView};
use crate::path::{absolute, components, joined, named, names_component, segments, PathKey};
use crate::payload::host_text;
use crate::permission::{declared_scope, promoted_after, settled, Decision};
use crate::registry::RegistryView;
use crate::subagents::{has_agent, started, subagents_of, SubagentsView};
use crate::hook::{due_nudge, first_owed, subagent_recorded, subagent_removed, HookCall, HookView, OwedNudge};
use crate::json::JsonView;
use crate::text::has_prefix;
use crate::tracker::{lists_served, only, root_keys, Declared, Root, RootView, TrackerView};
use crate::worktree::{lingering, merged_lingering, owns};
use vstd::prelude::*;

verus! {

/// The served roots are those that have a configuration entry.
pub open spec fn in_step(v: TrackerView) -> bool {
    v.roots.dom() == v.union()
}

/// A root is served exactly while some contributor declares it.
pub proof fn law_served_while_held(v: TrackerView, root: PathKey)
    ensures
        v.union().contains(root) <==> v.holders(root) != Set::<Seq<char>>::empty(),
{
    if v.union().contains(root) {
        let k = choose|k: Seq<char>| #[trigger]
            v.contributors.dom().contains(k) && v.contributors[k].dom().contains(root);
        assert(v.holders(root).contains(k));
    }
    if v.holders(root) != Set::<Seq<char>>::empty() {
        assert(exists|k: Seq<char>| v.holders(root).contains(k)) by {
            if forall|k: Seq<char>| !v.holders(root).contains(k) {
                assert(v.holders(root) =~= Set::empty());
            }
        }
        let k = choose|k: Seq<char>| v.holders(root).contains(k);
        assert(v.contributors.dom().contains(k) && v.contributors[k].dom().contains(root));
    }
}

/// Setting a contributor's roots replaces them and leaves every other contributor
/// alone; doing it twice changes nothing more.
pub proof fn law_set_replaces(
    v: TrackerView,
    contributor: Seq<char>,
    roots: Declared,
    other: Seq<char>,
)
    ensures
        v.set(contributor, roots).spelled(contributor) == roots,
        other != contributor ==> v.set(contributor, roots).spelled(other) == v.spelled(other),
        in_step(v.set(contributor, roots)),
        v.set(contributor, roots).set(contributor, roots) == v.set(contributor, roots),
{
    let a = v.set(contributor, roots);
    assert(a.contributors.insert(contributor, roots) =~= a.contributors);
    assert(a.roots.dom() =~= a.union());
    assert(a.set(contributor, roots).roots =~= a.roots);
}

/// Adding roots keeps those that were there as they were spelled, and adding what
/// is declared already changes nothing.
pub proof fn law_add_is_idempotent(v: TrackerView, contributor: Seq<char>, roots: Declared)
    requires
        in_step(v),
    ensures
        v.added(contributor, roots).declared(contributor) == v.declared(contributor).union(
            roots.dom(),
        ),
        forall|p: PathKey| #[trigger]
            v.declared(contributor).contains(p) ==> v.added(contributor, roots).spelled(
                contributor,
            )[p] == v.spelled(contributor)[p],
        v.added(contributor, roots).added(contributor, roots) == v.added(contributor, roots),
        v.contributors.dom().contains(contributor) && roots.dom().subset_of(
            v.declared(contributor),
        ) ==> v.added(contributor, roots) == v,
{
    let a = v.added(contributor, roots);
    let d = roots.union_prefer_right(v.spelled(contributor));
    assert(roots.union_prefer_right(a.spelled(contributor)) =~= d);
    assert(d.dom() =~= v.declared(contributor).union(roots.dom()));
    assert(a.contributors.insert(contributor, d) =~= a.contributors);
    assert(a.roots.dom() =~= a.union());
    assert(a.added(contributor, roots).roots =~= a.roots);
    if v.contributors.dom().contains(contributor) && roots.dom().subset_of(
        v.declared(contributor),
    ) {
        assert(d =~= v.contributors[contributor]);
        assert(v.contributors.insert(contributor, d) =~= v.contributors);
        assert(a.roots =~= v.roots);
    }
}

/// One change of a tracker.
pub enum Change {
    Declares(Seq<char>, Declared),
    Added(Seq<char>, Declared),
    Removed(Seq<char>),
    RemovedAll(Set<Seq<char>>),
    Released(Seq<char>, PathKey),
    Retired(PathKey),
    Configured(PathKey, Seq<char>),
}

/// The tracker after one change.
pub open spec fn changed(v: TrackerView, change: Change) -> TrackerView {
    match change {
        Change::Declares(contributor, roots) => v.set(contributor, roots),
        Change::Added(contributor, roots) => v.added(contributor, roots),
        Change::Removed(contributor) => v.removed(contributor),
        Change::RemovedAll(gone) => v.removed_all(gone),
        Change::Released(contributor, root) => v.released(contributor, root),
        Change::Retired(root) => v.retired(root),
        Change::Configured(root, text) => v.configured(root, text),
    }
}

/// The tracker after a number of changes.
pub open spec fn changed_all(v: TrackerView, changes: Seq<Change>) -> TrackerView
    decreases changes.len(),
{
    if changes.len() == 0 {
        v
    } else {
        changed(changed_all(v, changes.drop_last()), changes.last())
    }
}

/// The root is served before the changes and after each of them.
pub open spec fn stays_served(v: TrackerView, changes: Seq<Change>, root: PathKey) -> bool {
    forall|n: int|
        0 <= n <= changes.len() ==> (#[trigger] changed_all(v, changes.take(n))).union().contains(
            root,
        )
}

/// Whatever changes, the served roots are those that are declared. A root that
/// stays served keeps its spelling and, once its configuration was read, what was
/// read; one that appears has no configuration yet.
pub proof fn law_a_change_keeps_what_was_read(v: TrackerView, change: Change, root: PathKey)
    requires
        in_step(v),
    ensures
        in_step(changed(v, change)),
        v.union().contains(root) && changed(v, change).union().contains(root) ==> {
            &&& changed(v, change).roots[root].path == v.roots[root].path
            &&& changed(v, change).roots[root].config == match v.roots[root].config {
                Some(text) => Some(text),
                None => first_read(seq![change], root),
            }
        },
        !v.union().contains(root) && changed(v, change).union().contains(root)
            ==> changed(v, change).roots[root].config is None,
{
    let w = changed(v, change);
    assert(w.roots.dom() =~= w.union());
    assert(seq![change].drop_last() =~= Seq::empty());
    assert(first_read(seq![change].drop_last(), root) is None);
}

/// What is read for a root first, of what these changes read.
pub open spec fn first_read(changes: Seq<Change>, root: PathKey) -> Option<Seq<char>>
    decreases changes.len(),
{
    if changes.len() == 0 {
        None
    } else {
        match first_read(changes.drop_last(), root) {
            Some(text) => Some(text),
            None => match changes.last() {
                Change::Configured(r, text) => if r == root {
                    Some(text)
                } else {
                    None
                },
                _ => None,
            },
        }
    }
}

/// The configuration of a root is read once: however many changes come, while the
/// root stays served it keeps its spelling and what was first read for it.
pub proof fn law_configuration_is_read_once(v: TrackerView, changes: Seq<Change>, root: PathKey)
    requires
        in_step(v),
        stays_served(v, changes, root),
    ensures
        in_step(changed_all(v, changes)),
        changed_all(v, changes).roots[root] == (RootView {
            path: v.roots[root].path,
            config: match v.roots[root].config {
                Some(text) => Some(text),
                None => first_read(changes, root),
            },
        }),
    decreases changes.len(),
{
    assert(changes.take(0) =~= Seq::empty());
    assert(changed_all(v, changes.take(0)).union().contains(root));
    if changes.len() > 0 {
        let front = changes.drop_last();
        assert forall|n: int| 0 <= n <= front.len() implies (#[trigger] changed_all(
            v,
            front.take(n),
        )).union().contains(root) by {
            assert(front.take(n) =~= changes.take(n));
        }
        law_configuration_is_read_once(v, front, root);
        assert(front.take(front.len() as int) =~= front);
        assert(changes.take(changes.len() as int) =~= changes);
        assert(changed_all(v, front.take(front.len() as int)).union().contains(root));
        assert(changed_all(v, changes.take(changes.len() as int)).union().contains(root));
        law_a_change_keeps_what_was_read(changed_all(v, front), changes.last(), root);
    }
}

/// Of two listings of the served roots, each holds a root that stays served in
/// between exactly once, spelled the same; and the second shows the configuration
/// that the first shows, or the first one read since where it shows none.
pub proof fn law_listings_agree_on_what_stays(
    v: TrackerView,
    changes: Seq<Change>,
    root: PathKey,
    a: Seq<Root>,
    b: Seq<Root>,
) -> (at: (int, int))
    requires
        in_step(v),
        stays_served(v, changes, root),
        lists_served(a, v),
        lists_served(b, changed_all(v, changes)),
    ensures
        0 <= at.0 < a.len() && a[at.0].path.key() == root,
        0 <= at.1 < b.len() && b[at.1].path.key() == root,
        forall|i: int| 0 <= i < a.len() && (#[trigger] a[i]).path.key() == root ==> i == at.0,
        forall|i: int| 0 <= i < b.len() && (#[trigger] b[i]).path.key() == root ==> i == at.1,
        b[at.1]@.path == a[at.0]@.path,
        b[at.1]@.config == match a[at.0]@.config {
            Some(text) => Some(text),
            None => first_read(changes, root),
        },
{
    law_configuration_is_read_once(v, changes, root);
    assert(changes.take(0) =~= Seq::empty());
    assert(changes.take(changes.len() as int) =~= changes);
    assert(changed_all(v, changes.take(0)).union().contains(root));
    assert(changed_all(v, changes.take(changes.len() as int)).union().contains(root));
    (lemma_listed_once(a, v, root), lemma_listed_once(b, changed_all(v, changes), root))
}

/// Where a served root stands in a listing.
proof fn lemma_listed_once(r: Seq<Root>, v: TrackerView, root: PathKey) -> (at: int)
    requires
        lists_served(r, v),
        v.union().contains(root),
    ensures
        0 <= at < r.len() && r[at].path.key() == root,
        r[at]@ == v.roots[root],
        forall|i: int| 0 <= i < r.len() && (#[trigger] r[i]).path.key() == root ==> i == at,
{
    let ks = root_keys(r);
    assert(ks.to_set().contains(root));
    let at = choose|at: int| 0 <= at < ks.len() && ks[at] == root;
    assert forall|i: int| 0 <= i < r.len() && (#[trigger] r[i]).path.key() == root implies i
        == at by {
        assert(ks[i] == root);
    }
    at
}

/// Removing a contributor leaves every other one alone, and removing it again
/// changes nothing.
pub proof fn law_removal_is_idempotent(v: TrackerView, contributor: Seq<char>, other: Seq<char>)
    ensures
        !v.removed(contributor).contributors.dom().contains(contributor),
        other != contributor ==> v.removed(contributor).spelled(other) == v.spelled(other),
        v.removed(contributor).removed(contributor) == v.removed(contributor),
{
    let a = v.removed(contributor);
    assert(a.contributors.remove(contributor) =~= a.contributors);
    assert(a.removed(contributor).roots =~= a.roots);
}

/// A sweep by prefix takes exactly the contributors with that prefix.
pub proof fn law_sweep_is_exact(v: TrackerView, prefix: Seq<char>, contributor: Seq<char>)
    ensures
        ({
            let swept = v.removed_all(v.with_prefix(prefix));
            &&& has_prefix(contributor, prefix) ==> !swept.contributors.dom().contains(contributor)
            &&& !has_prefix(contributor, prefix) ==> swept.spelled(contributor) == v.spelled(
                contributor,
            )
            &&& swept.with_prefix(prefix) == Set::<Seq<char>>::empty()
        }),
{
    let swept = v.removed_all(v.with_prefix(prefix));
    assert(swept.with_prefix(prefix) =~= Set::empty());
}

/// Releasing a root from one contributor takes it from nobody else, and leaves
/// that contributor its other roots.
pub proof fn law_release_is_exact(
    v: TrackerView,
    contributor: Seq<char>,
    root: PathKey,
    other: PathKey,
)
    ensures
        v.released(contributor, root).holders(root) == v.holders(root).remove(contributor),
        other != root ==> v.released(contributor, root).holders(other) == v.holders(other),
{
    let a = v.released(contributor, root);
    assert(a.holders(root) =~= v.holders(root).remove(contributor));
    if other != root {
        if v.contributors.dom().contains(contributor) && v.contributors[contributor].remove(root)
            == Map::<PathKey, Seq<char>>::empty() {
            assert(!v.contributors[contributor].remove(root).dom().contains(other));
        }
        assert(a.holders(other) =~= v.holders(other));
    }
}

/// A retired root is served no more, every other root keeps its contributors and
/// its configuration, and retiring it again changes nothing.
pub proof fn law_retirement_is_exact(v: TrackerView, root: PathKey, other: PathKey)
    requires
        in_step(v),
    ensures
        v.retired(root).holders(root) == Set::<Seq<char>>::empty(),
        !v.retired(root).union().contains(root),
        other != root ==> v.retired(root).holders(other) == v.holders(other),
        other != root && v.union().contains(other) ==> v.retired(root).union().contains(other)
            && v.retired(root).roots[other] == v.roots[other],
        v.retired(root).retired(root) == v.retired(root),
{
    let a = v.retired(root);
    assert forall|k: Seq<char>| a.contributors.dom().contains(k) implies
        !a.contributors[k].dom().contains(root) by {
        if v.contributors[k].dom().contains(root) {
            assert(v.holders(root).contains(k));
        }
    }
    assert(a.holders(root) =~= Set::empty());
    if other != root {
        assert forall|k: Seq<char>| a.holders(other).contains(k) == v.holders(other).contains(
            k,
        ) by {
            if v.holders(other).contains(k) {
                assert(v.contributors[k].remove(root).dom().contains(other));
            }
        }
        assert(a.holders(other) =~= v.holders(other));
        law_served_while_held(v, other);
        law_served_while_held(a, other);
    }
    assert(a.let_go(root, a.holders(root)) =~= a.contributors);
    assert(a.retired(root).roots =~= a.roots);
}

/// Pinning a root that activity had mounted drops no root: the root stays served,
/// held by the pin, and no longer by activity.
pub proof fn law_pin_upgrades(v: TrackerView, root: Seq<char>)
    requires
        in_step(v),
    ensures
        ({
            let after = v.added(HOOK_CONTRIBUTOR@, only(root)).released(
                ephemeral_key(root),
                components(root),
            );
            &&& after.union() == v.union().insert(components(root))
            &&& after.holders(components(root)).contains(HOOK_CONTRIBUTOR@)
            &&& !after.holders(components(root)).contains(ephemeral_key(root))
            &&& declared_scope(after).contains(components(root))
        }),
{
    let key = components(root);
    let pinned = v.added(HOOK_CONTRIBUTOR@, only(root));
    let after = pinned.released(ephemeral_key(root), key);
    lemma_hook_is_not_ephemeral(root);
    law_release_is_exact(pinned, ephemeral_key(root), key, key);
    assert(pinned.holders(key).contains(HOOK_CONTRIBUTOR@));
    assert(after.holders(key).contains(HOOK_CONTRIBUTOR@));
    assert forall|p: PathKey| after.union().contains(p) == v.union().insert(key).contains(p) by {
        law_served_while_held(after, p);
        law_served_while_held(pinned, p);
        law_served_while_held(v, p);
        if p != key {
            law_release_is_exact(pinned, ephemeral_key(root), key, p);
            assert forall|k: Seq<char>| pinned.holders(p).contains(k) == v.holders(p).contains(
                k,
            ) by {}
            assert(pinned.holders(p) =~= v.holders(p));
        }
    }
    assert(after.union() =~= v.union().insert(key));
}

/// The roots a daemon was started with survive every pin and unpin.
pub proof fn law_seed_survives_pins(v: TrackerView, roots: Declared, root: PathKey)
    ensures
        v.added(HOOK_CONTRIBUTOR@, roots).declared(SEED_ENV_CONTRIBUTOR@) == v.declared(
            SEED_ENV_CONTRIBUTOR@,
        ),
        v.released(HOOK_CONTRIBUTOR@, root).declared(SEED_ENV_CONTRIBUTOR@) == v.declared(
            SEED_ENV_CONTRIBUTOR@,
        ),
        v.declared(SEED_ENV_CONTRIBUTOR@).subset_of(v.added(HOOK_CONTRIBUTOR@, roots).union()),
        v.declared(SEED_ENV_CONTRIBUTOR@).subset_of(v.released(HOOK_CONTRIBUTOR@, root).union()),
{
    lemma_hook_is_not_ephemeral(Seq::empty());
    let a = v.added(HOOK_CONTRIBUTOR@, roots);
    let b = v.released(HOOK_CONTRIBUTOR@, root);
    assert forall|p: PathKey| v.declared(SEED_ENV_CONTRIBUTOR@).contains(p) implies
        a.union().contains(p) && b.union().contains(p) by {
        assert(a.contributors.dom().contains(SEED_ENV_CONTRIBUTOR@)
            && a.contributors[SEED_ENV_CONTRIBUTOR@].dom().contains(p));
        assert(b.contributors.dom().contains(SEED_ENV_CONTRIBUTOR@)
            && b.contributors[SEED_ENV_CONTRIBUTOR@].dom().contains(p));
    }
}

/// A root that activity alone holds gives no quiet scope; with any other
/// contributor it does.
pub proof fn law_activity_gives_no_scope(v: TrackerView, root: Seq<char>, contributor: Seq<char>)
    ensures
        (forall|k: Seq<char>| #[trigger]
            v.holders(components(root)).contains(k) ==> has_prefix(
                k,
                EPHEMERAL_CONTRIBUTOR_PREFIX@,
            )) ==> !declared_scope(v).contains(components(root)),
        !has_prefix(contributor, EPHEMERAL_CONTRIBUTOR_PREFIX@) ==> declared_scope(
            v.added(contributor, only(root)),
        ).contains(components(root)),
{
    let a = v.added(contributor, only(root));
    assert(a.contributors.dom().contains(contributor)
        && a.contributors[contributor].dom().contains(components(root)));
    assert(a.holders(components(root)).contains(contributor));
}

/// A sensitive path never mounts anything, and neither does one below a served
/// root: the served roots stay as they are.
pub proof fn law_sensitive_and_covered_paths_never_mount(s: MountState, t: TouchedView, now: u64)
    ensures
        t.sensitive ==> !(mount_verdict(t, s.tracker.union()) is Mount) && s.touched(t, now).tracker
            == s.tracker,
        covered(s.tracker.union(), components(t.canonical)) ==> mount_verdict(t, s.tracker.union())
            is NoMount && s.touched(t, now).tracker == s.tracker,
{
}

/// Ephemeral contributors declare their own root alone.
pub open spec fn ephemeral_keys_are_own(v: TrackerView) -> bool {
    forall|root: Seq<char>| #[trigger]
        v.contributors.dom().contains(ephemeral_key(root)) ==> v.contributors[ephemeral_key(
            root,
        )].dom().subset_of(set![components(root)])
}

/// What a path mounts is served, held by its ephemeral contributor alone, and
/// fresh; no root that was served before is lost.
pub proof fn law_mounting_only_adds(s: MountState, t: TouchedView, now: u64)
    requires
        in_step(s.tracker),
        ephemeral_keys_are_own(s.tracker),
    ensures
        ({
            let after = s.touched(t, now);
            &&& s.tracker.union().subset_of(after.tracker.union())
            &&& in_step(after.tracker)
            &&& ephemeral_keys_are_own(after.tracker)
            &&& mount_verdict(t, s.tracker.union()) matches VerdictView::Mount(root) ==> {
                &&& after.tracker.union() == s.tracker.union().insert(components(root))
                &&& after.tracker.holders(components(root)) == set![ephemeral_key(root)]
                &&& after.ephemeral.dom().contains(components(root))
                &&& after.ephemeral[components(root)].last == now
            }
        }),
{
    let after = s.touched(t, now);
    match mount_verdict(t, s.tracker.union()) {
        VerdictView::Mount(root) => {
            let v = s.tracker;
            let w = after.tracker;
            let key = components(root);
            let own = ephemeral_key(root);
            assert(!v.union().contains(key));
            assert forall|p: PathKey| v.union().contains(p) implies w.union().contains(p) by {
                let k = choose|k: Seq<char>| #[trigger]
                    v.contributors.dom().contains(k) && v.contributors[k].dom().contains(p);
                if k == own {
                    assert(v.contributors[own].dom().subset_of(set![key]));
                    assert(set![key].contains(p));
                }
                assert(w.contributors.dom().contains(k) && w.contributors[k].dom().contains(p));
            }
            assert(w.contributors.dom().contains(own) && w.contributors[own].dom().contains(key));
            assert forall|p: PathKey| w.union().contains(p) implies v.union().insert(key).contains(
                p,
            ) by {
                let k = choose|k: Seq<char>| #[trigger]
                    w.contributors.dom().contains(k) && w.contributors[k].dom().contains(p);
                if k != own {
                    assert(v.contributors.dom().contains(k) && v.contributors[k].dom().contains(p));
                }
            }
            assert(w.union() =~= v.union().insert(key));
            assert forall|k: Seq<char>| w.holders(key).contains(k) == set![own].contains(k) by {
                if w.holders(key).contains(k) && k != own {
                    assert(v.contributors.dom().contains(k) && v.contributors[k].dom().contains(key));
                }
            }
            assert(w.holders(key) =~= set![own]);
            assert(w.roots.dom() =~= w.union());
            assert forall|r: Seq<char>| #[trigger]
                w.contributors.dom().contains(ephemeral_key(r)) implies w.contributors[ephemeral_key(
                r,
            )].dom().subset_of(set![components(r)]) by {
                if ephemeral_key(r) == own {
                    assert(r =~= root) by {
                        let n = EPHEMERAL_CONTRIBUTOR_PREFIX@.len() as int;
                        assert(ephemeral_key(r).skip(n) =~= r);
                        assert(ephemeral_key(root).skip(n) =~= root);
                    }
                } else {
                    assert(v.contributors.dom().contains(ephemeral_key(r)));
                }
            }
        },
        _ => {},
    }
}

/// A path that was touched mounts nothing when it is touched again, and at the
/// same time changes nothing: the root above it covers it now. The root above a
/// path is one of its own ancestors.
pub proof fn law_mounting_is_idempotent(s: MountState, t: TouchedView, now: u64)
    requires
        t.enclosing matches Some(root) ==> components(root).is_prefix_of(components(t.canonical)),
    ensures
        !(mount_verdict(t, s.touched(t, now).tracker.union()) is Mount),
        s.touched(t, now).touched(t, now) == s.touched(t, now),
{
    let after = s.touched(t, now);
    let path = components(t.canonical);
    let again = after.active(path, now);
    match mount_verdict(t, s.tracker.union()) {
        VerdictView::Mount(root) => {
            let key = components(root);
            let own = ephemeral_key(root);
            assert(after.tracker.contributors.dom().contains(own)
                && after.tracker.contributors[own].dom().contains(key));
            assert(after.tracker.union().contains(key));
            assert(covered(after.tracker.union(), path));
        },
        _ => {},
    }
    assert(again.ephemeral =~= after.ephemeral);
    assert(again.worktrees =~= after.worktrees);
}

/// However many paths are touched in a row, no root that was served is lost.
pub proof fn law_passes_only_add(s: MountState, ts: Seq<TouchedView>, now: u64)
    requires
        in_step(s.tracker),
        ephemeral_keys_are_own(s.tracker),
    ensures
        s.tracker.union().subset_of(s.touched_all(ts, now).tracker.union()),
        in_step(s.touched_all(ts, now).tracker),
        ephemeral_keys_are_own(s.touched_all(ts, now).tracker),
    decreases ts.len(),
{
    if ts.len() > 0 {
        law_passes_only_add(s, ts.drop_last(), now);
        law_mounting_only_adds(s.touched_all(ts.drop_last(), now), ts.last(), now);
    }
}

/// Activity at `now` on a path keeps every ephemeral root above it from expiring
/// until a full idle time has passed, and changes no other clock.
pub proof fn law_activity_restarts_the_idle_clock(
    m: EphemeralMountsView,
    path: PathKey,
    root: PathKey,
    now: u64,
    later: u64,
    idle: u64,
)
    requires
        m.dom().contains(root),
    ensures
        root.is_prefix_of(path) && 0 < idle && later < now + idle ==> !ephemeral_expired(
            ephemeral_covered(m, path, now),
            later,
            idle,
        ).contains(root),
        root.is_prefix_of(path) && later >= now + idle ==> ephemeral_expired(
            ephemeral_covered(m, path, now),
            later,
            idle,
        ).contains(root),
        !root.is_prefix_of(path) ==> ephemeral_covered(m, path, now)[root] == m[root],
        ephemeral_covered(m, path, now).dom() == m.dom(),
{
    assert(ephemeral_covered(m, path, now).dom() =~= m.dom());
}

/// A live worktree never lapses; a kept one lapses a full countdown after the
/// last activity in it, and any activity in it takes the block away.
pub proof fn law_only_kept_worktrees_lapse(
    m: WorktreeMountsView,
    contributor: Seq<char>,
    path: PathKey,
    now: u64,
    later: u64,
    idle: u64,
)
    requires
        m.dom().contains(contributor),
    ensures
        m[contributor].kept_since is None ==> !worktrees_lapsed(m, later, idle).contains(
            contributor,
        ),
        ({
            let after = worktrees_changed(m, path, |c: WorktreeClockView| c.touched(now));
            &&& after.dom() == m.dom()
            &&& m[contributor].covers(path) ==> !after[contributor].blocked
            &&& m[contributor].covers(path) && m[contributor].kept_since is None
                ==> after[contributor].kept_since is None
            &&& m[contributor].covers(path) && m[contributor].kept_since is Some ==> (
            worktrees_lapsed(after, later, idle).contains(contributor) <==> elapsed(later, now)
                >= idle)
            &&& !m[contributor].covers(path) ==> after[contributor] == m[contributor]
        }),
{
    let after = worktrees_changed(m, path, |c: WorktreeClockView| c.touched(now));
    assert(after.dom() =~= m.dom());
}

/// A worktree that one oracle has reminded of is not reminded of by the other.
pub proof fn law_one_reminder_for_both_oracles(
    v: RegistryView,
    session: Seq<char>,
    mounted: Set<PathKey>,
    running: Seq<Seq<char>>,
    merged: Set<PathKey>,
    present: Set<PathKey>,
    worktree: PathKey,
)
    requires
        lingering(v, session, mounted, running, present).contains(worktree),
    ensures
        ({
            let after = RegistryView {
                nagged: v.nagged.union(lingering(v, session, mounted, running, present)),
                ..v
            };
            &&& !merged_lingering(after, session, merged, present).contains(worktree)
            &&& !lingering(after, session, mounted, running, present).contains(worktree)
        }),
{
}

/// A worktree whose directory went loses its record and its reminders, so that
/// one made anew at the same path is reported again; the others keep theirs.
pub proof fn law_pruning_allows_a_fresh_report(
    v: RegistryView,
    gone: Set<PathKey>,
    worktree: PathKey,
)
    ensures
        gone.contains(worktree) ==> !v.pruned(gone).nagged.contains(worktree)
            && !v.pruned(gone).surfaced.contains(worktree) && !v.pruned(
            gone,
        ).metas.dom().contains(worktree),
        !gone.contains(worktree) ==> v.pruned(gone).nagged.contains(worktree)
            == v.nagged.contains(worktree) && v.pruned(gone).surfaced.contains(worktree)
            == v.surfaced.contains(worktree) && v.pruned(gone).metas.dom().contains(worktree)
            == v.metas.dom().contains(worktree),
{
}

/// Starting a subagent again changes nothing, and one session's subagents are not
/// another's.
pub proof fn law_subagents_are_recorded_once(
    m: SubagentsView,
    session: Seq<char>,
    agent: Seq<char>,
    first: Seq<char>,
    again: Seq<char>,
    other: Seq<char>,
)
    ensures
        ({
            let once = subagent_recorded(m, session, agent, first);
            &&& subagent_recorded(once, session, agent, again) == once
            &&& other != session ==> subagents_of(once, other) == subagents_of(m, other)
            &&& other != session ==> subagents_of(
                subagent_removed(m, session, agent),
                other,
            ) == subagents_of(m, other)
        }),
{
    let once = subagent_recorded(m, session, agent, first);
    if agent.len() > 0 {
        let list = subagents_of(m, session);
        let after = subagents_of(once, session);
        if !has_agent(list, agent) {
            assert(after == list.push(started(agent, first)));
            assert(after[list.len() as int].id == agent);
        }
        assert(has_agent(after, agent));
        assert(subagent_recorded(once, session, agent, again) =~= once);
    }
}

proof fn lemma_colon()
    ensures
        ":"@ == seq![':'],
{
    reveal_strlit(":");
    assert(":"@ =~= seq![':']);
}

/// The key of a worktree names the session that mounted it, and no other; this
/// is of session ids without a colon.
pub proof fn law_worktree_keys_name_their_session(
    session: Seq<char>,
    root: Seq<char>,
    named_session: Seq<char>,
)
    requires
        session.len() > 0,
        !session.contains(':'),
    ensures
        worktree_session(worktree_key(session, root), session),
        worktree_session(worktree_key(session, root), named_session) ==> named_session == session,
{
    lemma_colon();
    let key = worktree_key(session, root);
    let w = worktree_prefix(session);
    assert(key.subrange(0, w.len() as int) =~= w);
    if worktree_session(key, named_session) {
        lemma_prefix_decides(session, root, named_session);
    }
}

proof fn lemma_prefix_decides(session: Seq<char>, root: Seq<char>, other: Seq<char>)
    requires
        !session.contains(':'),
        !other.contains(':'),
        has_prefix(worktree_key(session, root), worktree_prefix(other)),
    ensures
        other == session,
{
    lemma_colon();
    let key = worktree_key(session, root);
    let n = WORKTREE_CONTRIBUTOR_PREFIX@.len() as int;
    let w = worktree_prefix(other);
    assert(key.subrange(0, w.len() as int) == w);
    assert forall|j: int| 0 <= j < other.len() && j < session.len() implies other[j]
        == session[j] by {
        assert(w[n + j] == other[j]);
        assert(key[n + j] == session[j]);
    }
    if other.len() < session.len() {
        assert(w[n + other.len()] == ':');
        assert(key[n + other.len()] == session[other.len() as int]);
        assert(session.contains(':'));
    } else if session.len() < other.len() {
        assert(key[n + session.len()] == ':');
        assert(w[n + session.len()] == other[session.len() as int]);
        assert(other.contains(':'));
    }
    assert(other =~= session);
}

/// The end of a session sweeps the worktrees of that session and no other's; this
/// is of session ids without a colon.
pub proof fn law_session_sweeps_are_separate(
    session: Seq<char>,
    other: Seq<char>,
    root: Seq<char>,
)
    requires
        !session.contains(':'),
        !other.contains(':'),
    ensures
        has_prefix(worktree_key(session, root), worktree_prefix(session)),
        other != session ==> !has_prefix(worktree_key(session, root), worktree_prefix(other)),
{
    let w = worktree_prefix(session);
    assert(worktree_key(session, root).subrange(0, w.len() as int) =~= w);
    if has_prefix(worktree_key(session, root), worktree_prefix(other)) {
        lemma_prefix_decides(session, root, other);
    }
}

/// The daemon exits of itself only where a window was open and no client is
/// connected when it closes; a client that connects closes the window, a further disconnect does not
/// move it, and a request neither.
pub proof fn law_exit_only_when_abandoned(c: Census, event: AcceptEvent, sessions: bool, now: u64)
    ensures
        c.action(event, sessions) is Exit ==> event is Shutdown || (event is GraceExpired
            && c.deadline is Some && c.count == 0),
        event is Shutdown ==> c.action(event, sessions) is Exit,
        c.after(AcceptEvent::McpAccepted, now).deadline is None,
        c.after(AcceptEvent::IpcAccepted, now) == c,
        c.deadline is Some ==> c.after(AcceptEvent::Disconnect, now) == c,
        c.count > 0 ==> c.after(AcceptEvent::Disconnect, now) == c,
        c.after(AcceptEvent::GraceExpired, now).deadline is None,
{
}

/// A client that left declares no root, and every other contributor keeps its own.
pub proof fn law_a_client_that_left_holds_nothing(
    v: HookView,
    fd: nat,
    root: PathKey,
    other: Seq<char>,
)
    ensures
        v.client_left(fd).tracker matches Some(t) ==> {
            &&& !t.holders(root).contains(mcp_key(fd))
            &&& other != mcp_key(fd) ==> t.spelled(other) == v.tracker->0.spelled(other)
        },
        v.client_left(fd).client_left(fd) == v.client_left(fd),
{
    if let Some(t) = v.tracker {
        law_removal_is_idempotent(t, mcp_key(fd), other);
    }
}

/// A client that connects and leaves again is counted once in between.
pub proof fn law_connections_are_counted(c: Census, now: u64)
    requires
        c.count < usize::MAX,
    ensures
        c.after(AcceptEvent::McpAccepted, now).count == c.count + 1,
        c.after(AcceptEvent::McpAccepted, now).closed().count == c.count,
        c.next_id < usize::MAX ==> c.after(AcceptEvent::McpAccepted, now).next_id == c.next_id + 1,
{
}

/// An answer that is left is what the command gets, once; until then nobody else
/// gets the permit, and afterwards it is free.
pub proof fn law_staged_answers_are_taken_once(v: HandoffView, answer: Seq<char>)
    ensures
        ({
            let staged = v.acquired().staging(answer);
            &&& v.acquired().held
            &&& staged.held
            &&& staged.staged == Some(answer)
            &&& !staged.consumed().held
            &&& staged.consumed().staged is None
            &&& staged.consumed().consumed().staged is None
        }),
{
}

/// An answer that nobody takes is discarded when its time is over, and its permit
/// is free then. The time of an answer that was taken runs out over no later one,
/// however many were left meanwhile, while fewer than there are tickets.
pub proof fn law_a_timer_discards_its_own_answer(
    v: HandoffView,
    answer: Seq<char>,
    later: Seq<Seq<char>>,
)
    requires
        later.len() <= u64::MAX,
    ensures
        ({
            let staged = v.acquired().staging(answer);
            let after = staged.restaged(later);
            &&& staged.expired(staged.ticket).staged is None
            &&& !staged.expired(staged.ticket).held
            &&& staged.consumed().expired(staged.ticket) == staged.consumed()
            &&& later.len() > 0 ==> {
                &&& after.staged == Some(later.last())
                &&& after.expired(staged.ticket) == after
                &&& after.consumed().acquired().expired(staged.ticket)
                    == after.consumed().acquired()
            }
        }),
{
    lemma_tickets_count(v.acquired().staging(answer), later);
}

/// Every answer that is left takes the next ticket.
proof fn lemma_tickets_count(v: HandoffView, answers: Seq<Seq<char>>)
    requires
        answers.len() <= u64::MAX,
    ensures
        v.restaged(answers).ticket == if v.ticket + answers.len() <= u64::MAX {
            v.ticket + answers.len()
        } else {
            v.ticket + answers.len() - u64::MAX - 1
        },
    decreases answers.len(),
{
    if answers.len() > 0 {
        lemma_tickets_count(v, answers.drop_last());
    }
}

/// A worktree belongs to one agent: no other owns it, and nobody without a name
/// owns any.
pub proof fn law_worktrees_have_one_owner(agent: Seq<char>, other: Seq<char>, worktree: Seq<char>)
    ensures
        owns(agent, worktree) && owns(other, worktree) ==> agent == other,
        !owns(Seq::empty(), worktree),
{
}

/// The end of a session leaves nothing of it behind, and nothing of any other
/// session is touched; ending it again changes nothing. The session ids are those
/// without a colon.
pub proof fn law_session_end_leaves_nothing_behind(
    v: HookView,
    session: Seq<char>,
    other: Seq<char>,
    root: Seq<char>,
)
    requires
        v.tracker is Some,
        !session.contains(':'),
        !other.contains(':'),
        other != session,
        v.connected.no_duplicates(),
    ensures
        ({
            let after = v.ended(session);
            &&& !after.sessions.dom().contains(session)
            &&& !after.connected.contains(session)
            &&& after.connected.contains(other) == v.connected.contains(other)
            &&& after.connected.no_duplicates()
            &&& !after.subagents.dom().contains(session)
            &&& !after.worktrees.dom().contains(worktree_key(session, root))
            &&& !after.tracker->0.contributors.dom().contains(worktree_key(session, root))
            &&& after.sessions.dom().contains(other) == v.sessions.dom().contains(other)
            &&& subagents_of(after.subagents, other) == subagents_of(v.subagents, other)
            &&& after.worktrees.dom().contains(worktree_key(other, root))
                == v.worktrees.dom().contains(worktree_key(other, root))
            &&& after.tracker->0.declared(worktree_key(other, root)) == v.tracker->0.declared(
                worktree_key(other, root),
            )
            &&& after.ended(session) == after
        }),
{
    let after = v.ended(session);
    let t = v.tracker->0;
    let prefix = worktree_prefix(session);
    law_session_sweeps_are_separate(session, other, root);
    law_session_sweeps_are_separate(other, session, root);
    law_sweep_is_exact(t, prefix, worktree_key(session, root));
    law_sweep_is_exact(t, prefix, worktree_key(other, root));
    let again = after.ended(session);
    let swept = t.removed_all(t.with_prefix(prefix));
    assert(swept.with_prefix(prefix) =~= Set::empty());
    assert(again.tracker->0.contributors =~= swept.contributors);
    assert(again.tracker->0.roots =~= swept.roots);
    assert(again.worktrees =~= after.worktrees);
    assert(again.subagents =~= after.subagents);
    assert(again.sessions =~= after.sessions);
    lemma_order_without(v.connected, session, other);
}

/// Without a session the order holds every other one, once each.
pub proof fn lemma_order_without(order: Seq<Seq<char>>, session: Seq<char>, other: Seq<char>)
    requires
        order.no_duplicates(),
        other != session,
    ensures
        !order_without(order, session).contains(session),
        order_without(order, session).contains(other) == order.contains(other),
        order_without(order, session).no_duplicates(),
{
    let left = order_without(order, session);
    if order.contains(session) {
        let at = order.index_of(session);
        assert forall|i: int| 0 <= i < left.len() implies #[trigger] left[i] == order[if i < at {
            i
        } else {
            i + 1
        }] by {}
        if order.contains(other) {
            let i = order.index_of(other);
            assert(left[if i < at {
                i
            } else {
                i - 1
            }] == other);
        }
    }
}

/// A conversation is taught once.
pub proof fn law_conversations_are_taught_once(v: HookView, session: Seq<char>, other: Seq<char>)
    ensures
        v.sighted(session).sightings.contains(session),
        v.sighted(session).sighted(session) == v.sighted(session),
        other != session ==> v.sighted(session).sightings.contains(other) == v.sightings.contains(
            other,
        ),
{
    assert(v.sightings.insert(session).insert(session) =~= v.sightings.insert(session));
}

proof fn lemma_first_owed_is_new(owed: Seq<OwedNudge>, nudged: Set<PathKey>)
    ensures
        first_owed(owed, nudged) matches Some(i) ==> 0 <= i < owed.len() && owed[i].line is Some
            && !nudged.contains(owed[i].root.key()),
        first_owed(owed, nudged) is None ==> forall|i: int|
            0 <= i < owed.len() ==> (#[trigger] owed[i]).line is None || nudged.contains(
                owed[i].root.key(),
            ),
    decreases owed.len(),
{
    if owed.len() > 0 {
        lemma_first_owed_is_new(owed.drop_last(), nudged);
        if first_owed(owed, nudged) is None {
            assert forall|i: int| 0 <= i < owed.len() implies (#[trigger] owed[i]).line is None
                || nudged.contains(owed[i].root.key()) by {
                if i < owed.len() - 1 {
                    assert(owed.drop_last()[i] == owed[i]);
                }
            }
        }
    }
}

/// A root's pointer is given once: what is due was not given before, and a
/// resumed session gets none.
pub proof fn law_pointers_are_given_once(
    raw: JsonView,
    owed: Seq<OwedNudge>,
    nudged: Set<PathKey>,
)
    ensures
        due_nudge(raw, owed, nudged) matches Some(i) ==> 0 <= i < owed.len()
            && owed[i].line is Some && !nudged.contains(owed[i].root.key()),
        host_text(raw, "source"@) == Some("resume"@) ==> due_nudge(raw, owed, nudged) is None,
        (forall|i: int|
            0 <= i < owed.len() ==> nudged.contains((#[trigger] owed[i]).root.key()))
            ==> due_nudge(raw, owed, nudged) is None,
{
    lemma_first_owed_is_new(owed, nudged);
}

/// An always-read prefix is promoted once per session; no other decision changes
/// the ledger.
pub proof fn law_prefixes_are_promoted_once(
    d: Decision,
    promoted: Set<PromotionId>,
    session: Seq<char>,
)
    ensures
        settled(d, promoted_after(d, promoted, session), session)
            matches Decision::AlwaysReadAllow { promote, .. } ==> !promote,
        !(d is AlwaysReadAllow) ==> promoted_after(d, promoted, session) == promoted && settled(
            d,
            promoted,
            session,
        ) == d,
{
}

/// A stop that is held up stops nothing: no countdown begins, and the subagent
/// stays on the board.
pub proof fn law_a_held_up_stop_changes_nothing(
    v: HookView,
    call: HookCall,
    raw: JsonView,
    facts: SessionFacts,
    now: u64,
)
    ensures
        after_stop(v, call, raw, true, facts, now) == v,
{
}

/// An unpin takes back a pin: the root is held by whom it was held before, but
/// for activity, which the pin replaced.
pub proof fn law_unpin_takes_back_a_pin(v: TrackerView, root: Seq<char>)
    requires
        !v.declared(HOOK_CONTRIBUTOR@).contains(components(root)),
    ensures
        v.added(HOOK_CONTRIBUTOR@, only(root)).released(
            ephemeral_key(root),
            components(root),
        ).released(HOOK_CONTRIBUTOR@, components(root)).holders(components(root)) == v.holders(
            components(root),
        ).remove(ephemeral_key(root)),
{
    let key = components(root);
    let pinned = v.added(HOOK_CONTRIBUTOR@, only(root));
    let upgraded = pinned.released(ephemeral_key(root), key);
    law_release_is_exact(pinned, ephemeral_key(root), key, key);
    law_release_is_exact(upgraded, HOOK_CONTRIBUTOR@, key, key);
    assert(pinned.holders(key) =~= v.holders(key).insert(HOOK_CONTRIBUTOR@));
    assert(upgraded.released(HOOK_CONTRIBUTOR@, key).holders(key) =~= v.holders(key).remove(
        ephemeral_key(root),
    ));
}

proof fn lemma_segments_len(s: Seq<char>)
    ensures
        segments(s).len() > 0,
    decreases s.len(),
{
    if s.len() > 0 {
        lemma_segments_len(s.drop_last());
    }
}

proof fn lemma_segments_join(a: Seq<char>, b: Seq<char>)
    ensures
        segments(a + seq!['/'] + b) == segments(a) + segments(b),
    decreases b.len(),
{
    let whole = a + seq!['/'] + b;
    if b.len() == 0 {
        assert(whole.drop_last() =~= a);
        assert(whole.last() == '/');
        assert(segments(whole) =~= segments(a) + segments(b));
    } else {
        lemma_segments_join(a, b.drop_last());
        lemma_segments_len(b.drop_last());
        assert(whole.drop_last() =~= a + seq!['/'] + b.drop_last());
        assert(whole.last() == b.last());
        assert(segments(whole) =~= segments(a) + segments(b));
    }
}

proof fn lemma_named_join(x: Seq<Seq<char>>, y: Seq<Seq<char>>)
    requires
        x.len() > 0,
    ensures
        named(x + y, true) == named(x, true) + named(y, false),
    decreases y.len(),
{
    if y.len() == 0 {
        assert(x + y =~= x);
        assert(named(x, true) + named(y, false) =~= named(x, true));
    } else {
        lemma_named_join(x, y.drop_last());
        assert((x + y).drop_last() =~= x + y.drop_last());
        assert((x + y).last() == y.last());
        assert(named(x + y, true) =~= named(x, true) + named(y, false));
    }
}

/// A relative path joined to a directory lies below it: its components are those
/// of the directory and then its own.
pub proof fn law_joined_paths_lie_below(base: Seq<char>, path: Seq<char>)
    requires
        base.len() > 0,
        !absolute(path),
    ensures
        components(joined(base, path)) == components(base) + named(segments(path), false),
        components(base).is_prefix_of(components(joined(base, path))),
{
    let whole = joined(base, path);
    assert(absolute(whole) == absolute(base)) by {
        assert(whole[0] == base[0]);
    }
    lemma_segments_len(base);
    if base.last() == '/' {
        let head = base.drop_last();
        lemma_segments_len(head);
        assert(base =~= head + seq!['/']);
        assert(whole =~= head + seq!['/'] + path);
        lemma_segments_join(head, path);
        lemma_named_join(segments(head), segments(path));
        let tail = segments(base);
        assert(tail.drop_last() =~= segments(head));
        assert(!names_component(tail.last(), false));
        assert(named(segments(base), true) == named(segments(head), true));
    } else {
        lemma_segments_join(base, path);
        lemma_named_join(segments(base), segments(path));
    }
    assert(components(whole) =~= components(base) + named(segments(path), false));
    assert(components(whole).subrange(0, components(base).len() as int) =~= components(base));
}

proof fn lemma_one_segment(name: Seq<char>)
    requires
        !name.contains('/'),
    ensures
        segments(name) == seq![name],
    decreases name.len(),
{
    if name.len() == 0 {
        assert(name =~= Seq::<char>::empty());
    } else {
        let front = name.drop_last();
        assert(!front.contains('/')) by {
            if front.contains('/') {
                let i = choose|i: int| 0 <= i < front.len() && front[i] == '/';
                assert(name[i] == '/');
            }
        }
        lemma_one_segment(front);
        assert(name.last() != '/') by {
            assert(name[name.len() - 1] == name.last());
        }
        assert(front.push(name.last()) =~= name);
        assert(segments(name) =~= seq![name]);
    }
}

/// A name below a directory is one more component, whatever the name but for the
/// directory itself; a slash behind a path changes nothing.
pub proof fn law_a_name_is_one_component(base: Seq<char>, name: Seq<char>)
    requires
        base.len() > 0,
        !name.contains('/'),
        name.len() > 0,
    ensures
        name != seq!['.'] ==> components(joined(base, name)) == components(base).push(name),
        name == seq!['.'] ==> components(joined(base, name)) == components(base),
        components(base + seq!['/']) == components(base),
{
    assert(!absolute(name)) by {
        if name[0] == '/' {
            assert(name.contains('/'));
        }
    }
    law_joined_paths_lie_below(base, name);
    lemma_one_segment(name);
    assert(seq![name].drop_last() =~= Seq::<Seq<char>>::empty());
    assert(seq![name].last() == name);
    assert(named(Seq::<Seq<char>>::empty(), false) =~= Seq::<Seq<char>>::empty());
    if name != seq!['.'] {
        assert(named(segments(name), false) =~= seq![name]);
        assert(components(joined(base, name)) =~= components(base).push(name));
    } else {
        assert(named(segments(name), false) =~= Seq::<Seq<char>>::empty());
        assert(components(joined(base, name)) =~= components(base));
    }
    let whole = base + seq!['/'];
    assert(whole.drop_last() =~= base);
    assert(whole.last() == '/');
    assert(whole[0] == base[0]);
    lemma_segments_len(base);
    let segs = segments(whole);
    assert(segs.drop_last() =~= segments(base));
    assert(!names_component(segs.last(), false));
    assert(named(segs, true) == named(segments(base), true));
}

} // verus!
