//! What the operations on workspace roots promise to those who call them.

use crate::contributor::{lemma_hook_is_not_ephemeral, HOOK_CONTRIBUTOR};
use crate::daemon::{boot, present_pins, register_env_seed, restore_pinned_roots, BootFacts, ReleasedClient, SessionManager};
use crate::hook::{roots_rm_answer, HookState, HookView};
use crate::json::json_view;
use crate::path::{first_spellings, keys, lemma_first_spellings, PathKey, UnixPath};
use crate::registry::{empty_registry, WorktreeMeta};
use crate::text::{decimal, has_prefix, views};
use crate::tracker::{listed_keys, only, RootTracker, TrackerView};
use crate::words::{lemma_answer_keys, lemma_status_words};
use vstd::prelude::*;

verus! {

/// The contributor declares in `u` what it declares in `t`.
pub open spec fn declares_the_same(t: TrackerView, u: TrackerView, contributor: Seq<char>) -> bool {
    &&& u.contributors.dom().contains(contributor) == t.contributors.dom().contains(contributor)
    &&& t.contributors.dom().contains(contributor) ==> u.contributors[contributor]
        == t.contributors[contributor]
}

/// The contributor declares the root.
pub open spec fn declares(t: TrackerView, contributor: Seq<char>, root: PathKey) -> bool {
    t.contributors.dom().contains(contributor) && t.contributors[contributor].dom().contains(root)
}

/// A contributor other than this one declares the root.
pub open spec fn held_besides(t: TrackerView, contributor: Seq<char>, root: PathKey) -> bool {
    exists|k: Seq<char>| k != contributor && #[trigger] declares(t, k, root)
}

/// The list holds the root.
pub open spec fn lists(roots: Seq<UnixPath>, root: PathKey) -> bool {
    exists|i: int| 0 <= i < roots.len() && (#[trigger] roots[i]).key() == root
}

/// The clocks of the mounts are as they were.
pub open spec fn keeps_clocks(v: HookView, w: HookView) -> bool {
    w.ephemeral == v.ephemeral && w.worktrees == v.worktrees
}

/// The sessions and their subagents are as they were.
pub open spec fn keeps_sessions(v: HookView, w: HookView) -> bool {
    w.sessions == v.sessions && w.connected == v.connected && w.subagents == v.subagents
}

/// What happens once is as it was, and so are the staged claim and the rounds.
pub open spec fn keeps_ledgers(v: HookView, w: HookView) -> bool {
    &&& w.sightings == v.sightings
    &&& w.promoted == v.promoted
    &&& w.nudges == v.nudges
    &&& w.claim == v.claim
    &&& w.patience == v.patience
    &&& w.rounds == v.rounds
}

/// Nothing but the roots has changed.
pub open spec fn changes_roots_alone(v: HookView, w: HookView) -> bool {
    &&& keeps_clocks(v, w)
    &&& keeps_sessions(v, w)
    &&& keeps_ledgers(v, w)
    &&& w.registry == v.registry
}

proof fn lemma_listed(roots: Seq<UnixPath>, root: PathKey)
    ensures
        first_spellings(roots).dom().contains(root) == lists(roots, root),
{
    lemma_first_spellings(roots);
    if lists(roots, root) {
        let i = choose|i: int| 0 <= i < roots.len() && (#[trigger] roots[i]).key() == root;
        assert(keys(roots)[i] == root);
        assert(keys(roots).to_set().contains(root));
    }
}

/// A root is served where someone declares it.
proof fn lemma_served(t: TrackerView, contributor: Seq<char>, root: PathKey)
    ensures
        t.union().contains(root) == (declares(t, contributor, root) || held_besides(
            t,
            contributor,
            root,
        )),
{
    if t.union().contains(root) {
        let k = choose|k: Seq<char>| #[trigger]
            t.contributors.dom().contains(k) && t.contributors[k].dom().contains(root);
        assert(declares(t, k, root));
    }
    if held_besides(t, contributor, root) {
        let k = choose|k: Seq<char>| k != contributor && #[trigger] declares(t, k, root);
        assert(t.contributors.dom().contains(k) && t.contributors[k].dom().contains(root));
    }
}

/// Where only one contributor changes, the others hold what they held.
proof fn lemma_others_hold(t: TrackerView, u: TrackerView, contributor: Seq<char>, root: PathKey)
    requires
        forall|k: Seq<char>| k != contributor ==> #[trigger] declares_the_same(t, u, k),
    ensures
        held_besides(u, contributor, root) == held_besides(t, contributor, root),
{
    if held_besides(u, contributor, root) {
        let k = choose|k: Seq<char>| k != contributor && #[trigger] declares(u, k, root);
        assert(declares_the_same(t, u, k));
        assert(declares(t, k, root));
    }
    if held_besides(t, contributor, root) {
        let k = choose|k: Seq<char>| k != contributor && #[trigger] declares(t, k, root);
        assert(declares_the_same(t, u, k));
        assert(declares(u, k, root));
    }
}

/// Setting a contributor's roots: it declares those of the list and no others,
/// however it declared before; a root is served exactly where the list has it or
/// somebody else declares it.
pub proof fn law_setting_roots_replaces_them(
    tracker: &mut RootTracker,
    contributor: &str,
    roots: Vec<UnixPath>,
    other: Seq<char>,
    root: PathKey,
)
    requires
        old(tracker).wf(),
        call_ensures(RootTracker::set_roots, (tracker, contributor, roots), ()),
    ensures
        declares(final(tracker)@, contributor@, root) == lists(roots@, root),
        other != contributor@ ==> declares_the_same(old(tracker)@, final(tracker)@, other),
        final(tracker)@.union().contains(root) == (lists(roots@, root) || held_besides(
            old(tracker)@,
            contributor@,
            root,
        )),
{
    lemma_listed(roots@, root);
    lemma_served(final(tracker)@, contributor@, root);
    assert forall|k: Seq<char>| k != contributor@ implies #[trigger] declares_the_same(
        old(tracker)@,
        final(tracker)@,
        k,
    ) by {}
    lemma_others_hold(old(tracker)@, final(tracker)@, contributor@, root);
}

/// Adding to a contributor's roots: it declares what it declared and those of the
/// list besides, and nothing that was served goes.
pub proof fn law_adding_roots_removes_none(
    tracker: &mut RootTracker,
    contributor: &str,
    roots: &[UnixPath],
    other: Seq<char>,
    root: PathKey,
)
    requires
        old(tracker).wf(),
        call_ensures(RootTracker::add_roots, (tracker, contributor, roots), ()),
    ensures
        declares(final(tracker)@, contributor@, root) == (declares(
            old(tracker)@,
            contributor@,
            root,
        ) || lists(roots@, root)),
        other != contributor@ ==> declares_the_same(old(tracker)@, final(tracker)@, other),
        final(tracker)@.union().contains(root) == (old(tracker)@.union().contains(root) || lists(
            roots@,
            root,
        )),
{
    lemma_listed(roots@, root);
    lemma_served(final(tracker)@, contributor@, root);
    lemma_served(old(tracker)@, contributor@, root);
    assert forall|k: Seq<char>| k != contributor@ implies #[trigger] declares_the_same(
        old(tracker)@,
        final(tracker)@,
        k,
    ) by {}
    lemma_others_hold(old(tracker)@, final(tracker)@, contributor@, root);
}

/// Removing a contributor: it declares nothing, everybody else what they did, and
/// what nobody else declares is served no more.
pub proof fn law_removing_a_contributor_frees_its_roots(
    tracker: &mut RootTracker,
    contributor: &str,
    other: Seq<char>,
    root: PathKey,
)
    requires
        old(tracker).wf(),
        call_ensures(RootTracker::remove_contributor, (tracker, contributor), ()),
    ensures
        !final(tracker)@.contributors.dom().contains(contributor@),
        other != contributor@ ==> declares_the_same(old(tracker)@, final(tracker)@, other),
        final(tracker)@.union().contains(root) == held_besides(
            old(tracker)@,
            contributor@,
            root,
        ),
{
    lemma_served(final(tracker)@, contributor@, root);
    assert forall|k: Seq<char>| k != contributor@ implies #[trigger] declares_the_same(
        old(tracker)@,
        final(tracker)@,
        k,
    ) by {}
    lemma_others_hold(old(tracker)@, final(tracker)@, contributor@, root);
}

/// Removing one root of a contributor: it keeps its other roots, is gone where it
/// has none, and tells whether it declared the root.
pub proof fn law_removing_a_root_leaves_the_others(
    tracker: &mut RootTracker,
    contributor: &str,
    root: &UnixPath,
    r: bool,
    other: Seq<char>,
    another: PathKey,
)
    requires
        old(tracker).wf(),
        call_ensures(RootTracker::remove_root, (tracker, contributor, root), r),
    ensures
        r == declares(old(tracker)@, contributor@, root.key()),
        !declares(final(tracker)@, contributor@, root.key()),
        another != root.key() ==> declares(final(tracker)@, contributor@, another) == declares(
            old(tracker)@,
            contributor@,
            another,
        ),
        other != contributor@ ==> declares_the_same(old(tracker)@, final(tracker)@, other),
        final(tracker)@.union().contains(root.key()) == held_besides(
            old(tracker)@,
            contributor@,
            root.key(),
        ),
        another != root.key() ==> final(tracker)@.union().contains(another) == old(
            tracker,
        )@.union().contains(another),
{
    let t = old(tracker)@;
    let u = final(tracker)@;
    assert forall|k: Seq<char>| k != contributor@ implies #[trigger] declares_the_same(
        t,
        u,
        k,
    ) by {}
    if t.contributors.dom().contains(contributor@) {
        let left = t.contributors[contributor@].remove(root.key());
        assert(left.dom() =~= t.contributors[contributor@].dom().remove(root.key()));
        if left == Map::<PathKey, Seq<char>>::empty() {
            assert(!left.dom().contains(another));
        }
    }
    lemma_served(u, contributor@, root.key());
    lemma_others_hold(t, u, contributor@, root.key());
    lemma_served(u, contributor@, another);
    lemma_served(t, contributor@, another);
    lemma_others_hold(t, u, contributor@, another);
}

/// A sweep by prefix takes the contributors whose key begins so, and nobody else:
/// everything that another one declares stays served.
pub proof fn law_sweeping_spares_other_keys(
    tracker: &mut RootTracker,
    prefix: &str,
    r: usize,
    contributor: Seq<char>,
    root: PathKey,
)
    requires
        old(tracker).wf(),
        call_ensures(RootTracker::remove_contributors_with_prefix, (tracker, prefix), r),
    ensures
        has_prefix(contributor, prefix@) ==> !final(tracker)@.contributors.dom().contains(
            contributor,
        ),
        !has_prefix(contributor, prefix@) ==> declares_the_same(
            old(tracker)@,
            final(tracker)@,
            contributor,
        ),
        !has_prefix(contributor, prefix@) && declares(old(tracker)@, contributor, root)
            ==> final(tracker)@.union().contains(root) && final(tracker)@.roots[root] == old(
            tracker,
        )@.roots[root],
        r == 0 ==> final(tracker)@ == old(tracker)@,
{
    let t = old(tracker)@;
    let u = final(tracker)@;
    if !has_prefix(contributor, prefix@) && declares(t, contributor, root) {
        lemma_served(u, contributor, root);
        lemma_served(t, contributor, root);
    }
    if r == 0 {
        assert(t.with_prefix(prefix@) =~= Set::empty());
        assert(t.contributors.remove_keys(t.with_prefix(prefix@)) =~= t.contributors);
        assert(u =~= t);
    }
}

/// Whoever asks after the contributors of a root is told of each that declares it,
/// and of nobody else; their number is how often the root is held.
pub proof fn law_contributors_are_all_told(
    tracker: &RootTracker,
    root: &UnixPath,
    r: Vec<String>,
    n: usize,
    contributor: Seq<char>,
)
    requires
        tracker.wf(),
        call_ensures(RootTracker::contributors_of_root, (tracker, root), r),
        call_ensures(RootTracker::refcount, (tracker, root), n),
    ensures
        views(r@).contains(contributor) == declares(tracker@, contributor, root.key()),
        n == r.len(),
{
    assert(views(r@).to_set().contains(contributor) == views(r@).contains(contributor));
    assert(views(r@).len() == r.len());
    views(r@).unique_seq_to_set();
}

/// The served roots are those that somebody declares, each listed once; the plain
/// list and the list with contributors name the same ones.
pub proof fn law_what_is_declared_is_served(
    tracker: &RootTracker,
    plain: Vec<UnixPath>,
    listed: Vec<(UnixPath, Vec<String>)>,
    root: PathKey,
)
    requires
        tracker.wf(),
        call_ensures(RootTracker::global_roots, (tracker,), plain),
        call_ensures(RootTracker::list_roots, (tracker,), listed),
    ensures
        keys(plain@).contains(root) == exists|k: Seq<char>| #[trigger]
            declares(tracker@, k, root),
        listed_keys(listed@).contains(root) == keys(plain@).contains(root),
        keys(plain@).no_duplicates(),
        forall|i: int, contributor: Seq<char>|
            0 <= i < listed.len() ==> views((#[trigger] listed[i]).1@).contains(contributor)
                == #[trigger] declares(tracker@, contributor, listed[i].0.key()),
{
    assert(keys(plain@).to_set().contains(root) == keys(plain@).contains(root));
    assert(listed_keys(listed@).to_set().contains(root) == listed_keys(listed@).contains(root));
    lemma_served(tracker@, Seq::empty(), root);
    assert forall|i: int, contributor: Seq<char>| 0 <= i < listed.len() implies views(
        (#[trigger] listed[i]).1@,
    ).contains(contributor) == #[trigger] declares(tracker@, contributor, listed[i].0.key()) by {
        assert(views(listed[i].1@).to_set().contains(contributor) == views(
            listed[i].1@,
        ).contains(contributor));
    }
}

/// A client that announces its roots declares exactly those: what it declared
/// before and did not announce it holds no more. Nobody else's roots change.
pub proof fn law_a_client_replaces_its_roots(
    state: &mut HookState,
    fd: u64,
    roots: Vec<UnixPath>,
    other: Seq<char>,
    root: PathKey,
)
    requires
        old(state).wf(),
        old(state)@.tracker is Some,
        call_ensures(HookState::client_roots_changed, (state, fd, roots), ()),
    ensures
        ({
            let own = "mcp:"@ + decimal(fd as nat);
            let t = old(state)@.tracker->0;
            &&& final(state)@.tracker matches Some(u) && {
                &&& declares(u, own, root) == lists(roots@, root)
                &&& other != own ==> declares_the_same(t, u, other)
                &&& u.union().contains(root) == (lists(roots@, root) || held_besides(t, own, root))
                &&& t.union().contains(root) && u.union().contains(root) ==> u.roots[root]
                    == t.roots[root]
            }
            &&& changes_roots_alone(old(state)@, final(state)@)
        }),
{
    let own = "mcp:"@ + decimal(fd as nat);
    let t = old(state)@.tracker->0;
    let u = final(state)@.tracker->0;
    lemma_listed(roots@, root);
    lemma_served(u, own, root);
    assert forall|k: Seq<char>| k != own implies #[trigger] declares_the_same(t, u, k) by {}
    lemma_others_hold(t, u, own, root);
}

/// A client that announces its roots twice declares those of the second time,
/// whatever it announced before.
pub proof fn law_the_last_announcement_counts(
    first: &mut HookState,
    second: &mut HookState,
    fd: u64,
    before: Vec<UnixPath>,
    after: Vec<UnixPath>,
    root: PathKey,
)
    requires
        old(first).wf(),
        old(first)@.tracker is Some,
        call_ensures(HookState::client_roots_changed, (first, fd, before), ()),
        *old(second) == *final(first),
        call_ensures(HookState::client_roots_changed, (second, fd, after), ()),
        lists(before@, root),
        !lists(after@, root),
        !held_besides(old(first)@.tracker->0, "mcp:"@ + decimal(fd as nat), root),
    ensures
        final(first)@.tracker->0.union().contains(root),
        !final(second)@.tracker->0.union().contains(root),
{
    let own = "mcp:"@ + decimal(fd as nat);
    law_a_client_replaces_its_roots(first, fd, before, own, root);
    law_a_client_replaces_its_roots(second, fd, after, own, root);
    assert forall|k: Seq<char>| k != own implies #[trigger] declares_the_same(
        old(first)@.tracker->0,
        final(first)@.tracker->0,
        k,
    ) by {}
    lemma_others_hold(old(first)@.tracker->0, final(first)@.tracker->0, own, root);
}

/// A client that goes lets its roots go: those that nobody else declares are
/// served no more, and nothing else changes.
pub proof fn law_a_client_that_goes_lets_go(
    state: &mut HookState,
    fd: u64,
    other: Seq<char>,
    root: PathKey,
)
    requires
        old(state).wf(),
        old(state)@.tracker is Some,
        call_ensures(HookState::client_gone, (state, fd), ()),
    ensures
        ({
            let own = "mcp:"@ + decimal(fd as nat);
            let t = old(state)@.tracker->0;
            &&& final(state)@.tracker matches Some(u) && {
                &&& !u.contributors.dom().contains(own)
                &&& other != own ==> declares_the_same(t, u, other)
                &&& u.union().contains(root) == held_besides(t, own, root)
            }
            &&& changes_roots_alone(old(state)@, final(state)@)
        }),
{
    let own = "mcp:"@ + decimal(fd as nat);
    let t = old(state)@.tracker->0;
    let u = final(state)@.tracker->0;
    lemma_served(u, own, root);
    assert forall|k: Seq<char>| k != own implies #[trigger] declares_the_same(t, u, k) by {}
    lemma_others_hold(t, u, own, root);
}

/// A client that is released from the daemon lets its roots go and is still
/// counted; handing in the release counts one client less and touches no root.
pub proof fn law_clients_let_go_before_they_leave(
    leaving: &mut SessionManager,
    closing: &mut SessionManager,
    fd: u64,
    released: ReleasedClient,
    root: PathKey,
)
    requires
        old(leaving).wf(),
        old(leaving).hooks() matches Some(h) && h.tracker is Some,
        call_ensures(SessionManager::release_client, (leaving, fd), released),
        *old(closing) == *final(leaving),
        call_ensures(SessionManager::connection_closed, (closing, released), ()),
    ensures
        final(leaving).clients() == old(leaving).clients(),
        final(leaving).hooks() matches Some(h) && h.tracker matches Some(u)
            && u.union().contains(root) == held_besides(
            old(leaving).hooks()->0.tracker->0,
            "mcp:"@ + decimal(fd as nat),
            root,
        ),
        old(leaving).clients().count > 0 ==> final(closing).clients().count == old(
            leaving,
        ).clients().count - 1,
        final(closing).hooks() == final(leaving).hooks(),
{
    let own = "mcp:"@ + decimal(fd as nat);
    let t = old(leaving).hooks()->0.tracker->0;
    let u = final(leaving).hooks()->0.tracker->0;
    lemma_served(u, own, root);
    assert forall|k: Seq<char>| k != own implies #[trigger] declares_the_same(t, u, k) by {}
    lemma_others_hold(t, u, own, root);
}

/// A pin adds a root to those that commands declare and drops none of them; every
/// other contributor but the root's own activity keeps what it declared, and that
/// one keeps its other roots. What was served stays served.
pub proof fn law_a_pin_drops_no_other_pin(
    state: &mut HookState,
    root: &UnixPath,
    r: bool,
    other: Seq<char>,
    another: PathKey,
)
    requires
        old(state).wf(),
        old(state)@.tracker is Some,
        call_ensures(HookState::roots_add, (state, root), r),
    ensures
        ({
            let t = old(state)@.tracker->0;
            let activity = "ephemeral:"@ + root@;
            let before = old(state)@.ephemeral;
            let after = final(state)@.ephemeral;
            &&& final(state)@.tracker matches Some(u) && {
                &&& declares(u, "hook"@, another) == (declares(t, "hook"@, another) || another
                    == root.key())
                &&& other != "hook"@ && other != activity ==> declares_the_same(t, u, other)
                &&& !declares(u, activity, root.key())
                &&& another != root.key() ==> declares(u, activity, another) == declares(
                    t,
                    activity,
                    another,
                )
                &&& u.union().contains(another) == (t.union().contains(another) || another
                    == root.key())
                &&& t.union().contains(another) ==> u.roots[another] == t.roots[another]
            }
            &&& r == declares(t, activity, root.key())
            &&& r ==> !after.dom().contains(root.key())
            &&& !r ==> after == before
            &&& another != root.key() ==> after.dom().contains(another) == before.dom().contains(
                another,
            )
            &&& another != root.key() && before.dom().contains(another) ==> after[another]
                == before[another]
            &&& final(state)@.worktrees == old(state)@.worktrees
            &&& keeps_sessions(old(state)@, final(state)@)
            &&& keeps_ledgers(old(state)@, final(state)@)
            &&& final(state)@.registry == old(state)@.registry
        }),
{
    let t = old(state)@.tracker->0;
    let u = final(state)@.tracker->0;
    let activity = "ephemeral:"@ + root@;
    lemma_hook_is_not_ephemeral(root@);
    let pinned = t.added(HOOK_CONTRIBUTOR@, only(root@));
    assert(only(root@).dom() =~= set![root.key()]);
    if pinned.contributors.dom().contains(activity) {
        let left = pinned.contributors[activity].remove(root.key());
        assert(left.dom() =~= pinned.contributors[activity].dom().remove(root.key()));
        if left == Map::<PathKey, Seq<char>>::empty() {
            assert(!left.dom().contains(another));
        }
    }
    assert forall|k: Seq<char>| k != "hook"@ && k != activity implies #[trigger] declares_the_same(
        t,
        u,
        k,
    ) by {}
    assert(declares(u, "hook"@, root.key()));
    lemma_served(t, "hook"@, another);
    lemma_served(u, "hook"@, another);
    if held_besides(u, "hook"@, another) {
        let k = choose|k: Seq<char>| k != "hook"@ && #[trigger] declares(u, k, another);
        assert(declares(t, k, another));
    }
    if held_besides(t, "hook"@, another) && another != root.key() {
        let k = choose|k: Seq<char>| k != "hook"@ && #[trigger] declares(t, k, another);
        assert(declares(u, k, another));
    }
}

/// An unpin takes one root from those that commands declare and leaves the others;
/// it tells whether the root was there. Nobody else's roots change.
pub proof fn law_an_unpin_drops_that_pin_alone(
    state: &mut HookState,
    root: &UnixPath,
    r: Option<bool>,
    other: Seq<char>,
    another: PathKey,
)
    requires
        old(state).wf(),
        old(state)@.tracker is Some,
        call_ensures(HookState::roots_rm, (state, root), r),
    ensures
        ({
            let t = old(state)@.tracker->0;
            &&& final(state)@.tracker matches Some(u) && {
                &&& !declares(u, "hook"@, root.key())
                &&& another != root.key() ==> declares(u, "hook"@, another) == declares(
                    t,
                    "hook"@,
                    another,
                )
                &&& other != "hook"@ ==> declares_the_same(t, u, other)
                &&& u.union().contains(root.key()) == held_besides(t, "hook"@, root.key())
                &&& another != root.key() ==> u.union().contains(another) == t.union().contains(
                    another,
                )
            }
            &&& r == Some(declares(t, "hook"@, root.key()))
            &&& changes_roots_alone(old(state)@, final(state)@)
        }),
{
    let t = old(state)@.tracker->0;
    let u = final(state)@.tracker->0;
    let own = "hook"@;
    assert forall|k: Seq<char>| k != own implies #[trigger] declares_the_same(t, u, k) by {}
    if t.contributors.dom().contains(own) {
        let left = t.contributors[own].remove(root.key());
        assert(left.dom() =~= t.contributors[own].dom().remove(root.key()));
        if left == Map::<PathKey, Seq<char>>::empty() {
            assert(!left.dom().contains(another));
        }
    }
    lemma_served(u, own, root.key());
    lemma_others_hold(t, u, own, root.key());
    lemma_served(u, own, another);
    lemma_served(t, own, another);
    lemma_others_hold(t, u, own, another);
}

/// The answer to an unpin: it succeeds where the live pin or the configured one
/// was there, names the root then, and says otherwise that it was not found.
pub proof fn law_an_unpin_is_answered(
    released: Option<bool>,
    configured: bool,
    root: &UnixPath,
    r: serde_json::Value,
)
    requires
        call_ensures(roots_rm_answer, (released, configured, root), r),
    ensures
        (json_view(r).text_field("status"@) == Some("ok"@)) == (released is Some && (released
            == Some(true) || configured)),
        json_view(r).text_field("status"@) == Some("ok"@) ==> json_view(r).text_field("path"@)
            == Some(root@),
        (json_view(r).text_field("status"@) == Some("not_found"@)) == (released == Some(false)
            && !configured),
        (json_view(r).text_field("status"@) == Some("error"@)) == (released is None),
{
    lemma_answer_keys();
    lemma_status_words();
}

/// A daemon boots with what it was started with and what is pinned: the seed
/// declares the roots it was started with, the commands the pins that are on disk,
/// and nobody else declares anything. The worktrees on record are known.
pub proof fn law_boot_serves_seed_and_pins(
    facts: BootFacts,
    r: HookState,
    contributor: Seq<char>,
    root: PathKey,
)
    requires
        call_ensures(boot, (facts,), r),
    ensures
        r.wf(),
        r@.tracker matches Some(t) && {
            &&& declares(t, "seed:env"@, root) == lists(facts.seed@, root)
            &&& declares(t, "hook"@, root) == pins(facts.pins@, root)
            &&& contributor != "seed:env"@ && contributor != "hook"@
                ==> !t.contributors.dom().contains(contributor)
            &&& t.union().contains(root) == (lists(facts.seed@, root) || pins(facts.pins@, root))
            &&& t.union().contains(root) ==> t.roots[root].config is None
        },
        r@.registry.metas.dom().contains(root) == exists|i: int|
            0 <= i < facts.worktrees.len() && (#[trigger] facts.worktrees[i]).worktree.key()
                == root,
        r@.ephemeral.dom() == Set::<PathKey>::empty(),
        r@.worktrees.dom() == Set::<Seq<char>>::empty(),
        r@.sessions.dom() == Set::<Seq<char>>::empty(),
        r@.subagents.dom() == Set::<Seq<char>>::empty(),
        r@.rounds == Set::<Seq<char>>::empty(),
        r@.registry.nagged == Set::<PathKey>::empty(),
        r@.registry.surfaced == Set::<PathKey>::empty(),
        !r@.claim.held && r@.claim.staged is None,
{
    let t = r@.tracker->0;
    lemma_hook_is_not_ephemeral(Seq::empty());
    lemma_listed(facts.seed@, root);
    lemma_listed(present_pins(facts.pins@), root);
    lemma_pins(facts.pins@, root);
    lemma_served(t, "hook"@, root);
    if held_besides(t, "hook"@, root) {
        let k = choose|k: Seq<char>| k != "hook"@ && #[trigger] declares(t, k, root);
        assert(k == "seed:env"@);
    }
    if lists(facts.seed@, root) {
        assert(declares(t, "seed:env"@, root));
    }
    lemma_with_all(facts.worktrees@, root);
}

/// A pin that is on disk names the root.
pub open spec fn pins(pins: Seq<Option<UnixPath>>, root: PathKey) -> bool {
    exists|i: int|
        0 <= i < pins.len() && (#[trigger] pins[i]) is Some && pins[i]->0.key() == root
}

proof fn lemma_pins(v: Seq<Option<UnixPath>>, root: PathKey)
    ensures
        lists(present_pins(v), root) == pins(v, root),
    decreases v.len(),
{
    if v.len() > 0 {
        let front = v.drop_last();
        lemma_pins(front, root);
        let before = present_pins(front);
        if pins(front, root) {
            let i = choose|i: int|
                0 <= i < front.len() && (#[trigger] front[i]) is Some && front[i]->0.key() == root;
            assert(v[i] is Some);
            let j = choose|j: int| 0 <= j < before.len() && (#[trigger] before[j]).key() == root;
            assert(present_pins(v)[j].key() == root);
        }
        if v.last() is Some && v.last()->0.key() == root {
            assert(v[v.len() - 1] is Some);
            assert(present_pins(v)[before.len() as int].key() == root);
        }
        if lists(present_pins(v), root) && !pins(front, root) {
            let j = choose|j: int|
                0 <= j < present_pins(v).len() && (#[trigger] present_pins(v)[j]).key() == root;
            if j < before.len() {
                assert(before[j].key() == root);
            }
        }
        if pins(v, root) && !pins(front, root) {
            let i = choose|i: int|
                0 <= i < v.len() && (#[trigger] v[i]) is Some && v[i]->0.key() == root;
            if i < front.len() {
                assert(front[i] is Some);
            }
        }
    }
}

proof fn lemma_with_all(v: Seq<WorktreeMeta>, root: PathKey)
    ensures
        empty_registry().with_all(v).metas.dom().contains(root) == exists|i: int|
            0 <= i < v.len() && (#[trigger] v[i]).worktree.key() == root,
        empty_registry().with_all(v).nagged == Set::<PathKey>::empty(),
        empty_registry().with_all(v).surfaced == Set::<PathKey>::empty(),
    decreases v.len(),
{
    if v.len() > 0 {
        let front = v.drop_last();
        lemma_with_all(front, root);
        if exists|i: int| 0 <= i < front.len() && (#[trigger] front[i]).worktree.key() == root {
            let i = choose|i: int|
                0 <= i < front.len() && (#[trigger] front[i]).worktree.key() == root;
            assert(v[i].worktree.key() == root);
        }
        if v.last().worktree.key() == root {
            assert(v[v.len() - 1].worktree.key() == root);
        }
        if exists|i: int| 0 <= i < v.len() && (#[trigger] v[i]).worktree.key() == root {
            let i = choose|i: int| 0 <= i < v.len() && (#[trigger] v[i]).worktree.key() == root;
            if i < front.len() {
                assert(front[i].worktree.key() == root);
            }
        }
    }
}

/// A restart brings the seed and the pins back and takes nothing that was declared:
/// the seed replaces the seed alone, pins are added to the pins, and the number of
/// restored pins is that of the pins on disk.
pub proof fn law_restoring_keeps_what_is_declared(
    seeding: &mut RootTracker,
    pinning: &mut RootTracker,
    seed: Vec<UnixPath>,
    pinned: &[Option<UnixPath>],
    n: usize,
    other: Seq<char>,
    root: PathKey,
)
    requires
        old(seeding).wf(),
        old(pinning).wf(),
        call_ensures(register_env_seed, (seeding, seed), ()),
        call_ensures(restore_pinned_roots, (pinning, pinned), n),
    ensures
        seed.len() > 0 ==> declares(final(seeding)@, "seed:env"@, root) == lists(seed@, root),
        seed.len() == 0 ==> final(seeding)@ == old(seeding)@,
        other != "seed:env"@ ==> declares_the_same(old(seeding)@, final(seeding)@, other),
        declares(final(pinning)@, "hook"@, root) == (declares(old(pinning)@, "hook"@, root)
            || pins(pinned@, root)),
        other != "hook"@ ==> declares_the_same(old(pinning)@, final(pinning)@, other),
        n <= pinned.len(),
        (n == 0) == (forall|i: int| 0 <= i < pinned.len() ==> (#[trigger] pinned[i]) is None),
{
    lemma_listed(seed@, root);
    lemma_listed(present_pins(pinned@), root);
    lemma_pins(pinned@, root);
    lemma_pin_count(pinned@);
}

proof fn lemma_pin_count(v: Seq<Option<UnixPath>>)
    ensures
        present_pins(v).len() <= v.len(),
        (present_pins(v).len() == 0) == (forall|i: int|
            0 <= i < v.len() ==> (#[trigger] v[i]) is None),
    decreases v.len(),
{
    if v.len() > 0 {
        let front = v.drop_last();
        lemma_pin_count(front);
        if forall|i: int| 0 <= i < v.len() ==> (#[trigger] v[i]) is None {
            assert(v[v.len() - 1] is None);
            assert forall|i: int| 0 <= i < front.len() implies (#[trigger] front[i]) is None by {
                assert(v[i] is None);
            }
        }
        if present_pins(v).len() == 0 {
            assert forall|i: int| 0 <= i < v.len() implies (#[trigger] v[i]) is None by {
                if i < front.len() {
                    assert(front[i] is None);
                }
            }
        }
    }
}

} // verus!
