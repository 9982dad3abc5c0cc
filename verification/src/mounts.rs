//! Mount lifetimes: the idle clocks of ephemeral roots and the kept countdowns of
//! worktrees.

use crate::clock::{elapsed, elapsed_since};
use crate::path::{keys, PathKey, UnixPath};
use crate::table::{entry_ids, lemma_push_set, lemma_take_next, Key, Table};
use crate::text::{has_prefix, starts_with};
use vstd::prelude::*;

verus! {

/// An ephemeral root as it was first spelled, and its last activity.
pub struct EphemeralClock {
    pub root: UnixPath,
    pub last: u64,
}

/// The spelling of an ephemeral root and its last activity.
pub struct EphemeralClockView {
    pub root: Seq<char>,
    pub last: u64,
}

impl View for EphemeralClock {
    type V = EphemeralClockView;

    open spec fn view(&self) -> EphemeralClockView {
        EphemeralClockView { root: self.root@, last: self.last }
    }
}

/// The idle clocks by root.
pub type EphemeralMountsView = Map<PathKey, EphemeralClockView>;

/// The state after activity at `now` on the root itself.
pub open spec fn ephemeral_touched(
    m: EphemeralMountsView,
    root: Seq<char>,
    now: u64,
) -> EphemeralMountsView {
    let key = crate::path::components(root);
    m.insert(
        key,
        EphemeralClockView {
            root: if m.dom().contains(key) {
                m[key].root
            } else {
                root
            },
            last: now,
        },
    )
}

/// The state after activity at `now` on `path`: every root above it is fresh.
pub open spec fn ephemeral_covered(
    m: EphemeralMountsView,
    path: PathKey,
    now: u64,
) -> EphemeralMountsView {
    Map::new(
        |k: PathKey| m.dom().contains(k),
        |k: PathKey|
            if k.is_prefix_of(path) {
                EphemeralClockView { root: m[k].root, last: now }
            } else {
                m[k]
            },
    )
}

/// The roots that have been idle for at least `idle`.
pub open spec fn ephemeral_expired(m: EphemeralMountsView, now: u64, idle: u64) -> Set<PathKey> {
    m.dom().filter(|k: PathKey| elapsed(now, m[k].last) >= idle)
}

/// Per-root idle clocks of the roots that activity mounted.
pub struct EphemeralMounts {
    clocks: Table<UnixPath, EphemeralClock>,
}

impl View for EphemeralMounts {
    type V = EphemeralMountsView;

    closed spec fn view(&self) -> EphemeralMountsView {
        self.clocks@.map_values(|c: EphemeralClock| c@)
    }
}

impl EphemeralMounts {
    /// Each clock belongs to the root it is filed under.
    pub closed spec fn wf(&self) -> bool {
        &&& self.clocks.wf()
        &&& forall|k: PathKey| #[trigger]
            self.clocks@.dom().contains(k) ==> self.clocks@[k].root.key() == k
    }

    /// No clocks.
    pub fn new() -> (r: EphemeralMounts)
        ensures
            r.wf(),
            r@ == Map::<PathKey, EphemeralClockView>::empty(),
    {
        let r = EphemeralMounts { clocks: Table::new() };
        assert(r@ =~= Map::<PathKey, EphemeralClockView>::empty());
        r
    }

    /// Records activity on `root` at `now`.
    pub fn touch(&mut self, root: &UnixPath, now: u64)
        requires
            old(self).wf(),
        ensures
            final(self).wf(),
            final(self)@ == ephemeral_touched(old(self)@, root@, now),
    {
        match self.clocks.find(root) {
            Some(i) => {
                let spelling = self.clocks.value_at(i).root.duplicate();
                self.clocks.set_value(i, EphemeralClock { root: spelling, last: now });
            },
            None => {
                self.clocks.insert(
                    root.duplicate(),
                    EphemeralClock { root: root.duplicate(), last: now },
                );
            },
        }
        assert(self@ =~= ephemeral_touched(old(self)@, root@, now));
    }

    /// Refreshes every root that is `path` or lies above it.
    pub fn touch_covering(&mut self, path: &UnixPath, now: u64)
        requires
            old(self).wf(),
        ensures
            final(self).wf(),
            final(self)@ == ephemeral_covered(old(self)@, path.key(), now),
    {
        let n: usize = self.clocks.len();
        let mut i: usize = 0;
        let ghost start = self.clocks;
        while i < n
            invariant
                i <= n,
                n == start.order().len(),
                n == self.clocks.order().len(),
                start.wf(),
                self.wf(),
                self.clocks.wf(),
                start == old(self).clocks,
                self.clocks@.dom() == start@.dom(),
                forall|j: int|
                    0 <= j < n ==> (#[trigger] self.clocks.order()[j]).0 == start.order()[j].0,
                forall|j: int|
                    i <= j < n ==> (#[trigger] self.clocks.order()[j]).1 == start.order()[j].1,
                forall|j: int|
                    0 <= j < i ==> (#[trigger] self.clocks.order()[j]).1@ == (
                    if start.order()[j].0.key().is_prefix_of(path.key()) {
                        EphemeralClockView { root: start.order()[j].1.root@, last: now }
                    } else {
                        start.order()[j].1@
                    }),
            decreases n - i,
        {
            let ghost before = self.clocks;
            proof {
                before.lemma_order();
            }
            if path.starts_with(self.clocks.key_at(i)) {
                let spelling = self.clocks.value_at(i).root.duplicate();
                self.clocks.set_value(i, EphemeralClock { root: spelling, last: now });
                assert(self.clocks@.dom() =~= start@.dom());
            }
            i += 1;
        }
        proof {
            assert forall|k: PathKey| #[trigger] start@.dom().contains(k) implies self@[k]
                == ephemeral_covered(old(self)@, path.key(), now)[k] by {
                let j = self.clocks.lemma_entry(k);
                start.lemma_order();
                assert(start.order()[j].0.id() == k);
            }
            assert(self@ =~= ephemeral_covered(old(self)@, path.key(), now));
        }
    }

    /// Drops the clock of `root`.
    pub fn remove(&mut self, root: &UnixPath)
        requires
            old(self).wf(),
        ensures
            final(self).wf(),
            final(self)@ == old(self)@.remove(root.key()),
    {
        let _gone = self.clocks.remove(root);
        assert(self@ =~= old(self)@.remove(root.key()));
    }

    /// The time until the root expires, nothing where it has no clock.
    pub fn idle_remaining(&self, path: &UnixPath, now: u64, timeout: u64) -> (r: Option<u64>)
        requires
            self.wf(),
        ensures
            r == if self@.dom().contains(path.key()) {
                Some(elapsed(timeout, elapsed(now, self@[path.key()].last)))
            } else {
                None
            },
    {
        match self.clocks.get(path) {
            Some(c) => Some(elapsed_since(timeout, elapsed_since(now, c.last))),
            None => None,
        }
    }

    /// The roots that have been idle for at least `idle`.
    pub fn expired(&self, now: u64, idle: u64) -> (r: Vec<UnixPath>)
        requires
            self.wf(),
        ensures
            keys(r@).no_duplicates(),
            keys(r@).to_set() == ephemeral_expired(self@, now, idle),
            forall|i: int| 0 <= i < r.len() ==> (#[trigger] r[i])@ == self@[r[i].key()].root,
    {
        let mut r: Vec<UnixPath> = Vec::new();
        let n: usize = self.clocks.len();
        let mut i: usize = 0;
        let ghost all = entry_ids(self.clocks.order());
        let ghost late = |k: PathKey| elapsed(now, self@[k].last) >= idle;
        proof {
            self.clocks.lemma_order();
            assert(keys(r@).to_set() =~= all.take(0).to_set().filter(late));
        }
        while i < n
            invariant
                self.wf(),
                self.clocks.wf(),
                i <= n,
                n == self.clocks.order().len(),
                all == entry_ids(self.clocks.order()),
                all.no_duplicates(),
                late == (|k: PathKey| elapsed(now, self@[k].last) >= idle),
                keys(r@).no_duplicates(),
                keys(r@).to_set() == all.take(i as int).to_set().filter(late),
                forall|j: int| 0 <= j < r.len() ==> (#[trigger] r[j])@ == self@[r[j].key()].root,
            decreases n - i,
        {
            let clock = self.clocks.value_at(i);
            let ghost before = keys(r@);
            let ghost id = all[i as int];
            proof {
                self.clocks.lemma_order();
                lemma_take_next(all, i as int);
                assert(self.clocks@.dom().contains(self.clocks.order()[i as int].0.id()));
                assert(self@[id] == clock@);
            }
            if elapsed_since(now, clock.last) >= idle {
                r.push(clock.root.duplicate());
                proof {
                    assert(keys(r@) =~= before.push(id));
                    assert(!before.to_set().contains(id));
                    lemma_push_set(before, id);
                    assert(all.take(i + 1).to_set().filter(late) =~= all.take(
                        i as int,
                    ).to_set().filter(late).insert(id));
                }
            } else {
                assert(all.take(i + 1).to_set().filter(late) =~= all.take(
                    i as int,
                ).to_set().filter(late));
            }
            i += 1;
        }
        assert(all.take(n as int) =~= all);
        assert(ephemeral_expired(self@, now, idle) =~= all.to_set().filter(late));
        r
    }

    /// The roots that carry a clock.
    pub fn roots(&self) -> (r: Vec<UnixPath>)
        requires
            self.wf(),
        ensures
            keys(r@).no_duplicates(),
            keys(r@).to_set() == self@.dom(),
            forall|i: int| 0 <= i < r.len() ==> (#[trigger] r[i])@ == self@[r[i].key()].root,
    {
        let r = self.expired(0, 0);
        assert(ephemeral_expired(self@, 0, 0) =~= self@.dom());
        r
    }
}

/// The mount state of one worktree.
pub struct WorktreeClock {
    /// The mounted root.
    pub root: UnixPath,
    /// An agent in it waits for a permission.
    pub blocked: bool,
    /// The last activity since the worktree was kept, nothing while it is live.
    pub kept_since: Option<u64>,
}

/// The mount state of one worktree, its root by spelling.
pub struct WorktreeClockView {
    pub root: Seq<char>,
    pub blocked: bool,
    pub kept_since: Option<u64>,
}

impl View for WorktreeClock {
    type V = WorktreeClockView;

    open spec fn view(&self) -> WorktreeClockView {
        WorktreeClockView {
            root: self.root@,
            blocked: self.blocked,
            kept_since: self.kept_since,
        }
    }
}

impl WorktreeClockView {
    /// Whether the root is `path` or lies above it.
    pub open spec fn covers(self, path: PathKey) -> bool {
        crate::path::components(self.root).is_prefix_of(path)
    }

    /// After activity at `now`: no longer blocked, and a countdown begins anew.
    pub open spec fn touched(self, now: u64) -> WorktreeClockView {
        WorktreeClockView {
            root: self.root,
            blocked: false,
            kept_since: if self.kept_since is Some {
                Some(now)
            } else {
                None
            },
        }
    }

    /// After the countdown was armed at `now`.
    pub open spec fn armed(self, now: u64) -> WorktreeClockView {
        WorktreeClockView { root: self.root, blocked: self.blocked, kept_since: Some(now) }
    }

    /// After a permission prompt.
    pub open spec fn marked_blocked(self) -> WorktreeClockView {
        WorktreeClockView { root: self.root, blocked: true, kept_since: self.kept_since }
    }

    /// Whether a countdown runs and has lapsed.
    pub open spec fn lapsed(self, now: u64, idle: u64) -> bool {
        self.kept_since matches Some(since) && elapsed(now, since) >= idle
    }
}

/// The mount states by contributor.
pub type WorktreeMountsView = Map<Seq<char>, WorktreeClockView>;

/// `change` applied to every worktree whose root covers `path`.
pub open spec fn worktrees_changed(
    m: WorktreeMountsView,
    path: PathKey,
    change: spec_fn(WorktreeClockView) -> WorktreeClockView,
) -> WorktreeMountsView {
    Map::new(
        |k: Seq<char>| m.dom().contains(k),
        |k: Seq<char>|
            if m[k].covers(path) {
                change(m[k])
            } else {
                m[k]
            },
    )
}

/// The contributors whose root covers `path`.
pub open spec fn worktrees_covering(m: WorktreeMountsView, path: PathKey) -> Set<Seq<char>> {
    m.dom().filter(|k: Seq<char>| m[k].covers(path))
}

/// The contributors whose countdown has lapsed.
pub open spec fn worktrees_lapsed(m: WorktreeMountsView, now: u64, idle: u64) -> Set<Seq<char>> {
    m.dom().filter(|k: Seq<char>| m[k].lapsed(now, idle))
}

/// What is done to the worktrees above a path.
enum Change {
    Touch(u64),
    Arm(u64),
    Block,
}

impl Change {
    spec fn of(self) -> spec_fn(WorktreeClockView) -> WorktreeClockView {
        match self {
            Change::Touch(now) => |c: WorktreeClockView| c.touched(now),
            Change::Arm(now) => |c: WorktreeClockView| c.armed(now),
            Change::Block => |c: WorktreeClockView| c.marked_blocked(),
        }
    }

    fn apply(&self, c: &WorktreeClock) -> (r: WorktreeClock)
        ensures
            r@ == self.of()(c@),
    {
        match self {
            Change::Touch(now) => WorktreeClock {
                root: c.root.duplicate(),
                blocked: false,
                kept_since: if c.kept_since.is_some() {
                    Some(*now)
                } else {
                    None
                },
            },
            Change::Arm(now) => WorktreeClock {
                root: c.root.duplicate(),
                blocked: c.blocked,
                kept_since: Some(*now),
            },
            Change::Block => WorktreeClock {
                root: c.root.duplicate(),
                blocked: true,
                kept_since: c.kept_since,
            },
        }
    }
}

/// The pairs of a listing of lapsed worktrees.
pub open spec fn lapsed_names(v: Seq<(String, UnixPath)>) -> Seq<Seq<char>> {
    v.map_values(|e: (String, UnixPath)| e.0@)
}

/// The list gives, for each mount once, its root and its blocked flag; `names`
/// are the contributors in the order of the list.
pub open spec fn lists_mounts(
    r: Seq<(UnixPath, bool)>,
    names: Seq<Seq<char>>,
    m: WorktreeMountsView,
) -> bool {
    &&& names.no_duplicates()
    &&& names.to_set() == m.dom()
    &&& names.len() == r.len()
    &&& forall|i: int|
        0 <= i < r.len() ==> (#[trigger] r[i]).0@ == m[names[i]].root && r[i].1
            == m[names[i]].blocked
}

/// Mount states of the mounted worktrees.
pub struct WorktreeMounts {
    clocks: Table<String, WorktreeClock>,
}

impl View for WorktreeMounts {
    type V = WorktreeMountsView;

    closed spec fn view(&self) -> WorktreeMountsView {
        self.clocks@.map_values(|c: WorktreeClock| c@)
    }
}

impl WorktreeMounts {
    /// No contributor is held twice.
    pub closed spec fn wf(&self) -> bool {
        self.clocks.wf()
    }

    /// No mounts.
    pub fn new() -> (r: WorktreeMounts)
        ensures
            r.wf(),
            r@ == Map::<Seq<char>, WorktreeClockView>::empty(),
    {
        let r = WorktreeMounts { clocks: Table::new() };
        assert(r@ =~= Map::<Seq<char>, WorktreeClockView>::empty());
        r
    }

    /// Notes a mount, live and not blocked; what stood under the key is
    /// forgotten.
    pub fn track(&mut self, contributor: &str, root: &UnixPath)
        requires
            old(self).wf(),
        ensures
            final(self).wf(),
            final(self)@ == old(self)@.insert(
                contributor@,
                (WorktreeClockView { root: root@, blocked: false, kept_since: None }),
            ),
    {
        let clock = WorktreeClock { root: root.duplicate(), blocked: false, kept_since: None };
        let ghost view = clock@;
        self.clocks.insert(contributor.to_owned(), clock);
        assert(self@ =~= old(self)@.insert(contributor@, view));
    }

    fn change_covering(&mut self, path: &UnixPath, change: &Change) -> (r: usize)
        requires
            old(self).wf(),
        ensures
            final(self).wf(),
            final(self)@ == worktrees_changed(old(self)@, path.key(), change.of()),
            r == worktrees_covering(old(self)@, path.key()).len(),
    {
        let n: usize = self.clocks.len();
        let mut i: usize = 0;
        let mut changed: usize = 0;
        let ghost start = self.clocks;
        let ghost all = entry_ids(start.order());
        let ghost covers = |k: Seq<char>| old(self)@[k].covers(path.key());
        proof {
            start.lemma_order();
            assert(all.take(0).to_set().filter(covers) =~= Set::empty());
        }
        while i < n
            invariant
                i <= n,
                n == start.order().len(),
                n == self.clocks.order().len(),
                start.wf(),
                self.wf(),
                self.clocks.wf(),
                start == old(self).clocks,
                all == entry_ids(start.order()),
                all.no_duplicates(),
                covers == (|k: Seq<char>| old(self)@[k].covers(path.key())),
                all.take(i as int).to_set().filter(covers).finite(),
                changed == all.take(i as int).to_set().filter(covers).len(),
                changed <= i,
                self.clocks@.dom() == start@.dom(),
                forall|j: int|
                    0 <= j < n ==> (#[trigger] self.clocks.order()[j]).0 == start.order()[j].0,
                forall|j: int|
                    i <= j < n ==> (#[trigger] self.clocks.order()[j]).1 == start.order()[j].1,
                forall|j: int|
                    0 <= j < i ==> (#[trigger] self.clocks.order()[j]).1@ == (
                    if start.order()[j].1@.covers(path.key()) {
                        change.of()(start.order()[j].1@)
                    } else {
                        start.order()[j].1@
                    }),
            decreases n - i,
        {
            let ghost before = self.clocks;
            let ghost id = all[i as int];
            proof {
                before.lemma_order();
                start.lemma_order();
                lemma_take_next(all, i as int);
                assert(id == start.order()[i as int].0.id());
                assert(old(self)@[id] == start.order()[i as int].1@);
            }
            let clock = self.clocks.value_at(i);
            if path.starts_with(&clock.root) {
                let next = change.apply(clock);
                self.clocks.set_value(i, next);
                assert(self.clocks@.dom() =~= start@.dom());
                changed += 1;
                assert(all.take(i + 1).to_set().filter(covers) =~= all.take(
                    i as int,
                ).to_set().filter(covers).insert(id));
            } else {
                assert(all.take(i + 1).to_set().filter(covers) =~= all.take(
                    i as int,
                ).to_set().filter(covers));
            }
            i += 1;
        }
        proof {
            assert forall|k: Seq<char>| #[trigger] start@.dom().contains(k) implies self@[k]
                == worktrees_changed(old(self)@, path.key(), change.of())[k] by {
                let j = self.clocks.lemma_entry(k);
                start.lemma_order();
                assert(start.order()[j].0.id() == k);
            }
            assert(self@ =~= worktrees_changed(old(self)@, path.key(), change.of()));
            start.lemma_order();
            assert(all.take(n as int) =~= all);
            assert(worktrees_covering(old(self)@, path.key()) =~= all.to_set().filter(covers));
        }
        changed
    }

    /// Activity on `path` at `now`: the worktrees above it are not blocked, and
    /// their countdowns begin anew.
    pub fn touch_covering(&mut self, path: &UnixPath, now: u64)
        requires
            old(self).wf(),
        ensures
            final(self).wf(),
            final(self)@ == worktrees_changed(
                old(self)@,
                path.key(),
                |c: WorktreeClockView| c.touched(now),
            ),
    {
        let _n: usize = self.change_covering(path, &Change::Touch(now));
    }

    /// Arms the countdown of the worktrees above `path`; returns whether there
    /// is one.
    pub fn arm_countdown(&mut self, path: &UnixPath, now: u64) -> (r: bool)
        requires
            old(self).wf(),
        ensures
            final(self).wf(),
            final(self)@ == worktrees_changed(
                old(self)@,
                path.key(),
                |c: WorktreeClockView| c.armed(now),
            ),
            r == (worktrees_covering(old(self)@, path.key()) != Set::<Seq<char>>::empty()),
    {
        let n: usize = self.change_covering(path, &Change::Arm(now));
        proof {
            old(self).clocks.lemma_order();
            let s = worktrees_covering(old(self)@, path.key());
            assert(s.subset_of(old(self).clocks@.dom()));
            vstd::set_lib::lemma_len_subset(s, old(self).clocks@.dom());
            assert(s.len() == 0 <==> s =~= Set::empty());
        }
        n > 0
    }

    /// Marks the worktrees above `path` as blocked; returns how many there are.
    pub fn mark_blocked_covering(&mut self, path: &UnixPath) -> (r: usize)
        requires
            old(self).wf(),
        ensures
            final(self).wf(),
            final(self)@ == worktrees_changed(
                old(self)@,
                path.key(),
                |c: WorktreeClockView| c.marked_blocked(),
            ),
            r == worktrees_covering(old(self)@, path.key()).len(),
    {
        self.change_covering(path, &Change::Block)
    }

    /// The worktrees whose countdown has lapsed.
    pub fn expired_countdowns(&self, now: u64, idle: u64) -> (r: Vec<(String, UnixPath)>)
        requires
            self.wf(),
        ensures
            lapsed_names(r@).no_duplicates(),
            lapsed_names(r@).to_set() == worktrees_lapsed(self@, now, idle),
            forall|i: int| 0 <= i < r.len() ==> (#[trigger] r[i]).1@ == self@[r[i].0@].root,
    {
        let mut r: Vec<(String, UnixPath)> = Vec::new();
        let n: usize = self.clocks.len();
        let mut i: usize = 0;
        let ghost all = entry_ids(self.clocks.order());
        let ghost late = |k: Seq<char>| self@[k].lapsed(now, idle);
        proof {
            self.clocks.lemma_order();
            assert(lapsed_names(r@).to_set() =~= all.take(0).to_set().filter(late));
        }
        while i < n
            invariant
                self.wf(),
                self.clocks.wf(),
                i <= n,
                n == self.clocks.order().len(),
                all == entry_ids(self.clocks.order()),
                all.no_duplicates(),
                late == (|k: Seq<char>| self@[k].lapsed(now, idle)),
                lapsed_names(r@).no_duplicates(),
                lapsed_names(r@).to_set() == all.take(i as int).to_set().filter(late),
                forall|j: int| 0 <= j < r.len() ==> (#[trigger] r[j]).1@ == self@[r[j].0@].root,
            decreases n - i,
        {
            let clock = self.clocks.value_at(i);
            let ghost before = lapsed_names(r@);
            let ghost id = all[i as int];
            proof {
                self.clocks.lemma_order();
                lemma_take_next(all, i as int);
                assert(self.clocks@.dom().contains(self.clocks.order()[i as int].0.id()));
                assert(self@[id] == clock@);
            }
            let gone = match clock.kept_since {
                Some(since) => elapsed_since(now, since) >= idle,
                None => false,
            };
            if gone {
                r.push((self.clocks.key_at(i).clone(), clock.root.duplicate()));
                proof {
                    assert(lapsed_names(r@) =~= before.push(id));
                    assert(!before.to_set().contains(id));
                    lemma_push_set(before, id);
                    assert(all.take(i + 1).to_set().filter(late) =~= all.take(
                        i as int,
                    ).to_set().filter(late).insert(id));
                }
            } else {
                assert(all.take(i + 1).to_set().filter(late) =~= all.take(
                    i as int,
                ).to_set().filter(late));
            }
            i += 1;
        }
        assert(all.take(n as int) =~= all);
        assert(worktrees_lapsed(self@, now, idle) =~= all.to_set().filter(late));
        r
    }

    /// Forgets a mount.
    pub fn remove(&mut self, contributor: &str)
        requires
            old(self).wf(),
        ensures
            final(self).wf(),
            final(self)@ == old(self)@.remove(contributor@),
    {
        let _gone = self.clocks.remove(&contributor.to_owned());
        assert(self@ =~= old(self)@.remove(contributor@));
    }

    /// Forgets every mount whose key begins with `prefix`.
    pub fn remove_prefix(&mut self, prefix: &str)
        requires
            old(self).wf(),
        ensures
            final(self).wf(),
            final(self)@ == old(self)@.remove_keys(
                old(self)@.dom().filter(|k: Seq<char>| has_prefix(k, prefix@)),
            ),
    {
        let mut i: usize = 0;
        let ghost start = self.clocks@;
        while i < self.clocks.len()
            invariant
                self.wf(),
                self.clocks.wf(),
                i <= self.clocks.order().len(),
                start == old(self).clocks@,
                forall|k: Seq<char>| #[trigger]
                    self.clocks@.dom().contains(k) ==> start.dom().contains(k) && self.clocks@[k]
                        == start[k],
                forall|k: Seq<char>| #[trigger]
                    start.dom().contains(k) && !has_prefix(k, prefix@)
                        ==> self.clocks@.dom().contains(k),
                forall|j: int|
                    0 <= j < i ==> !has_prefix((#[trigger] self.clocks.order()[j]).0@, prefix@),
            decreases self.clocks.order().len() - i,
        {
            proof {
                self.clocks.lemma_order();
            }
            if starts_with(self.clocks.key_at(i).as_str(), prefix) {
                let _gone = self.clocks.remove_at(i);
            } else {
                i += 1;
            }
        }
        proof {
            assert forall|k: Seq<char>| #[trigger] self.clocks@.dom().contains(k) implies
                !has_prefix(k, prefix@) by {
                let j = self.clocks.lemma_entry(k);
            }
            assert(self@ =~= old(self)@.remove_keys(
                old(self)@.dom().filter(|k: Seq<char>| has_prefix(k, prefix@)),
            ));
        }
    }

    /// The mounted roots, each with its blocked flag.
    pub fn mounted_roots(&self) -> (r: Vec<(UnixPath, bool)>)
        requires
            self.wf(),
        ensures
            exists|names: Seq<Seq<char>>| lists_mounts(r@, names, self@),
    {
        let mut r: Vec<(UnixPath, bool)> = Vec::new();
        let n: usize = self.clocks.len();
        let mut i: usize = 0;
        proof {
            self.clocks.lemma_order();
            assert(self@.dom() =~= self.clocks@.dom());
        }
        while i < n
            invariant
                self.wf(),
                self.clocks.wf(),
                i <= n,
                n == self.clocks.order().len(),
                r.len() == i,
                forall|j: int|
                    0 <= j < i ==> (#[trigger] r[j]).0@ == self.clocks.order()[j].1.root@
                        && r[j].1 == self.clocks.order()[j].1.blocked,
            decreases n - i,
        {
            let clock = self.clocks.value_at(i);
            r.push((clock.root.duplicate(), clock.blocked));
            i += 1;
        }
        proof {
            let names = entry_ids(self.clocks.order());
            assert forall|j: int| 0 <= j < r.len() implies (#[trigger] r@[j]).0@
                == self@[names[j]].root && r@[j].1 == self@[names[j]].blocked by {
                assert(names[j] == self.clocks.order()[j].0.id());
                assert(self@[names[j]] == self.clocks.order()[j].1@);
            }
            assert(lists_mounts(r@, names, self@));
        }
        r
    }

    /// Whether the worktree under this key is blocked.
    pub fn is_blocked(&self, contributor: &str) -> (r: bool)
        requires
            self.wf(),
        ensures
            r == (self@.dom().contains(contributor@) && self@[contributor@].blocked),
    {
        match self.clocks.get(&contributor.to_owned()) {
            Some(c) => c.blocked,
            None => false,
        }
    }

    /// The last activity of a kept worktree, nothing for a live or absent one.
    pub fn kept_since(&self, contributor: &str) -> (r: Option<u64>)
        requires
            self.wf(),
        ensures
            r == if self@.dom().contains(contributor@) {
                self@[contributor@].kept_since
            } else {
                None
            },
    {
        match self.clocks.get(&contributor.to_owned()) {
            Some(c) => c.kept_since,
            None => None,
        }
    }
}

} // verus!
