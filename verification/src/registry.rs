//! The worktrees the daemon has made, and the reminders given about them.

use crate::ephemeral::contains_path;
use crate::path::{keys, spelled_in, PathKey, Spelled, UnixPath};
use crate::table::{entry_ids, lemma_push_set, lemma_take_next, Key, KeySet, Table};
use crate::text::text_eq;
use vstd::prelude::*;

verus! {

/// What is known of a worktree.
#[derive(Debug)]
pub struct WorktreeMeta {
    pub worktree: UnixPath,
    pub source_repo: UnixPath,
    pub base_commit: String,
    pub branch: String,
    pub name: String,
    pub agent_id: Option<String>,
    pub session_id: String,
    pub created_at: String,
    pub class: String,
    pub link: Option<String>,
    pub vcs: String,
}

fn again(s: &Option<String>) -> (r: Option<String>)
    ensures
        r == *s,
{
    match s {
        Some(t) => Some(t.clone()),
        None => None,
    }
}

impl WorktreeMeta {
    /// The same record once more.
    pub fn duplicate(&self) -> (r: WorktreeMeta)
        ensures
            r == *self,
    {
        WorktreeMeta {
            worktree: self.worktree.duplicate(),
            source_repo: self.source_repo.duplicate(),
            base_commit: self.base_commit.clone(),
            branch: self.branch.clone(),
            name: self.name.clone(),
            agent_id: again(&self.agent_id),
            session_id: self.session_id.clone(),
            created_at: self.created_at.clone(),
            class: self.class.clone(),
            link: again(&self.link),
            vcs: self.vcs.clone(),
        }
    }
}

/// The registered worktrees with the paths they were first registered under, those
/// reminded of, and those reported as kept.
#[verifier::ext_equal]
pub struct RegistryView {
    pub metas: Map<PathKey, WorktreeMeta>,
    pub paths: Spelled,
    pub nagged: Set<PathKey>,
    pub surfaced: Set<PathKey>,
}

impl RegistryView {
    /// The worktrees in `gone` are forgotten, and so are their reminders.
    pub open spec fn pruned(self, gone: Set<PathKey>) -> RegistryView {
        RegistryView {
            metas: self.metas.remove_keys(gone),
            paths: self.paths.remove_keys(gone),
            nagged: self.nagged.difference(gone),
            surfaced: self.surfaced.difference(gone),
        }
    }

    /// With this record; the path of an earlier one stays.
    pub open spec fn with(self, meta: WorktreeMeta) -> RegistryView {
        let key = meta.worktree.key();
        RegistryView {
            metas: self.metas.insert(key, meta),
            paths: if self.paths.dom().contains(key) {
                self.paths
            } else {
                self.paths.insert(key, meta.worktree@)
            },
            ..self
        }
    }

    /// With these records, one after the other.
    pub open spec fn with_all(self, metas: Seq<WorktreeMeta>) -> RegistryView
        decreases metas.len(),
    {
        if metas.len() == 0 {
            self
        } else {
            self.with_all(metas.drop_last()).with(metas.last())
        }
    }

    /// Without the record of this worktree; the reminders about it stay.
    pub open spec fn forgotten(self, worktree: PathKey) -> RegistryView {
        RegistryView {
            metas: self.metas.remove(worktree),
            paths: self.paths.remove(worktree),
            ..self
        }
    }

    /// The worktrees of a session.
    pub open spec fn of_session(self, session: Seq<char>) -> Set<PathKey> {
        self.metas.dom().filter(|k: PathKey| self.metas[k].session_id@ == session)
    }
}

/// The keys of a list of worktrees.
pub open spec fn meta_keys(v: Seq<WorktreeMeta>) -> Seq<PathKey> {
    v.map_values(|m: WorktreeMeta| m.worktree.key())
}

/// No worktrees and no reminders.
pub open spec fn empty_registry() -> RegistryView {
    RegistryView {
        metas: Map::empty(),
        paths: Map::empty(),
        nagged: Set::empty(),
        surfaced: Set::empty(),
    }
}

/// A registered worktree: the path it was first registered under, and its record.
struct Registration {
    path: UnixPath,
    meta: WorktreeMeta,
}

/// The worktrees the daemon has made.
pub struct WorktreeRegistry {
    entries: Table<UnixPath, Registration>,
    nagged: KeySet<UnixPath>,
    surfaced: KeySet<UnixPath>,
}

impl View for WorktreeRegistry {
    type V = RegistryView;

    closed spec fn view(&self) -> RegistryView {
        RegistryView {
            metas: self.entries@.map_values(|e: Registration| e.meta),
            paths: self.entries@.map_values(|e: Registration| e.path@),
            nagged: self.nagged@,
            surfaced: self.surfaced@,
        }
    }
}

impl WorktreeRegistry {
    /// Every worktree stands under its own path.
    pub closed spec fn wf(&self) -> bool {
        &&& self.entries.wf()
        &&& self.nagged.wf()
        &&& self.surfaced.wf()
        &&& forall|k: PathKey| #[trigger]
            self.entries@.dom().contains(k) ==> self.entries@[k].meta.worktree.key() == k
                && self.entries@[k].path.key() == k
    }

    /// No worktrees.
    pub fn new() -> (r: WorktreeRegistry)
        ensures
            r.wf(),
            r@ == empty_registry(),
    {
        let r = WorktreeRegistry {
            entries: Table::new(),
            nagged: KeySet::new(),
            surfaced: KeySet::new(),
        };
        assert(r@ =~= empty_registry());
        r
    }

    /// Records a reminder about a worktree; returns whether it is the first.
    pub fn mark_nagged(&mut self, worktree: &UnixPath) -> (r: bool)
        requires
            old(self).wf(),
        ensures
            final(self).wf(),
            final(self)@ == (RegistryView {
                nagged: old(self)@.nagged.insert(worktree.key()),
                ..old(self)@
            }),
            r == !old(self)@.nagged.contains(worktree.key()),
    {
        self.nagged.insert(worktree.duplicate())
    }

    /// Records that a worktree was reported as kept; returns whether it is the
    /// first time.
    pub fn mark_surfaced(&mut self, worktree: &UnixPath) -> (r: bool)
        requires
            old(self).wf(),
        ensures
            final(self).wf(),
            final(self)@ == (RegistryView {
                surfaced: old(self)@.surfaced.insert(worktree.key()),
                ..old(self)@
            }),
            r == !old(self)@.surfaced.contains(worktree.key()),
    {
        self.surfaced.insert(worktree.duplicate())
    }

    /// Registers a worktree under its path; an earlier record gives way.
    pub fn register(&mut self, meta: WorktreeMeta)
        requires
            old(self).wf(),
        ensures
            final(self).wf(),
            final(self)@ == old(self)@.with(meta),
    {
        let ghost key = meta.worktree.key();
        let path = match self.entries.get(&meta.worktree) {
            Some(earlier) => earlier.path.duplicate(),
            None => meta.worktree.duplicate(),
        };
        assert(path.key() == key);
        let ghost entry = Registration { path, meta };
        self.entries.insert(meta.worktree.duplicate(), Registration { path, meta });
        proof {
            assert(self.entries@ == old(self).entries@.insert(key, entry));
            assert(self@ =~= old(self)@.with(meta));
        }
    }

    /// Registers a list of worktrees.
    pub fn rehydrate(&mut self, metas: Vec<WorktreeMeta>)
        requires
            old(self).wf(),
        ensures
            final(self).wf(),
            final(self)@ == old(self)@.with_all(metas@),
    {
        let mut i: usize = 0;
        while i < metas.len()
            invariant
                i <= metas.len(),
                self.wf(),
                self@ == old(self)@.with_all(metas@.take(i as int)),
            decreases metas.len() - i,
        {
            proof {
                assert(metas@.take(i + 1).drop_last() =~= metas@.take(i as int));
            }
            self.register(metas[i].duplicate());
            i += 1;
        }
        assert(metas@.take(metas.len() as int) =~= metas@);
    }

    /// The record of a worktree.
    pub fn get(&self, worktree: &UnixPath) -> (r: Option<WorktreeMeta>)
        requires
            self.wf(),
        ensures
            r == if self@.metas.dom().contains(worktree.key()) {
                Some(self@.metas[worktree.key()])
            } else {
                None
            },
    {
        match self.entries.get(worktree) {
            Some(e) => Some(e.meta.duplicate()),
            None => None,
        }
    }

    /// Forgets a worktree; the reminders about it stay.
    pub fn forget(&mut self, worktree: &UnixPath)
        requires
            old(self).wf(),
        ensures
            final(self).wf(),
            final(self)@ == old(self)@.forgotten(worktree.key()),
    {
        let _gone = self.entries.remove(worktree);
        assert(self@ =~= old(self)@.forgotten(worktree.key()));
    }

    /// How many worktrees are registered.
    pub fn len(&self) -> (r: usize)
        requires
            self.wf(),
        ensures
            r == self@.metas.dom().len(),
    {
        proof {
            self.entries.lemma_order();
            assert(self@.metas.dom() =~= self.entries@.dom());
        }
        self.entries.len()
    }

    /// The paths of the registered worktrees.
    pub fn worktrees(&self) -> (r: Vec<UnixPath>)
        requires
            self.wf(),
        ensures
            keys(r@).no_duplicates(),
            keys(r@).to_set() == self@.metas.dom(),
            spelled_in(r@, self@.paths),
    {
        let mut r: Vec<UnixPath> = Vec::new();
        let n: usize = self.entries.len();
        let mut i: usize = 0;
        let ghost all = entry_ids(self.entries.order());
        proof {
            self.entries.lemma_order();
        }
        while i < n
            invariant
                self.wf(),
                self.entries.wf(),
                i <= n,
                n == self.entries.order().len(),
                all == entry_ids(self.entries.order()),
                keys(r@) == all.take(i as int),
                spelled_in(r@, self@.paths),
            decreases n - i,
        {
            let ghost before = keys(r@);
            let entry = self.entries.value_at(i);
            proof {
                self.entries.lemma_order();
                lemma_take_next(all, i as int);
                assert(self.entries@.dom().contains(self.entries.order()[i as int].0.id()));
                assert(entry.path.key() == all[i as int]);
            }
            r.push(entry.path.duplicate());
            assert(keys(r@) =~= before.push(all[i as int]));
            i += 1;
        }
        assert(all.take(n as int) =~= all);
        assert(self@.metas.dom() =~= self.entries@.dom());
        r
    }

    /// The registered worktrees of a session.
    pub fn metas_for_session(&self, session_id: &str) -> (r: Vec<WorktreeMeta>)
        requires
            self.wf(),
        ensures
            meta_keys(r@).no_duplicates(),
            meta_keys(r@).to_set() == self@.of_session(session_id@),
            forall|i: int| 0 <= i < r.len() ==> (#[trigger] r[i])
                == self@.metas[r[i].worktree.key()],
    {
        let mut r: Vec<WorktreeMeta> = Vec::new();
        let n: usize = self.entries.len();
        let mut i: usize = 0;
        let ghost all = entry_ids(self.entries.order());
        let ghost own = |k: PathKey| self@.metas[k].session_id@ == session_id@;
        proof {
            self.entries.lemma_order();
            assert(meta_keys(r@).to_set() =~= all.take(0).to_set().filter(own));
        }
        while i < n
            invariant
                self.wf(),
                self.entries.wf(),
                i <= n,
                n == self.entries.order().len(),
                all == entry_ids(self.entries.order()),
                all.no_duplicates(),
                own == (|k: PathKey| self@.metas[k].session_id@ == session_id@),
                meta_keys(r@).no_duplicates(),
                meta_keys(r@).to_set() == all.take(i as int).to_set().filter(own),
                forall|j: int| 0 <= j < r.len() ==> (#[trigger] r[j])
                    == self@.metas[r[j].worktree.key()],
            decreases n - i,
        {
            let meta = &self.entries.value_at(i).meta;
            let ghost before = meta_keys(r@);
            let ghost id = all[i as int];
            proof {
                self.entries.lemma_order();
                lemma_take_next(all, i as int);
                assert(self.entries@.dom().contains(self.entries.order()[i as int].0.id()));
                assert(meta.worktree.key() == id);
            }
            if text_eq(meta.session_id.as_str(), session_id) {
                r.push(meta.duplicate());
                proof {
                    assert(meta_keys(r@) =~= before.push(id));
                    assert(!before.to_set().contains(id));
                    lemma_push_set(before, id);
                    assert(all.take(i + 1).to_set().filter(own) =~= all.take(
                        i as int,
                    ).to_set().filter(own).insert(id));
                }
            } else {
                assert(all.take(i + 1).to_set().filter(own) =~= all.take(i as int).to_set().filter(
                    own,
                ));
            }
            i += 1;
        }
        assert(all.take(n as int) =~= all);
        assert(self@.of_session(session_id@) =~= all.to_set().filter(own));
        r
    }

    /// Forgets every registered worktree among the `missing` paths, together with
    /// the reminders about it, and returns them.
    pub fn prune_missing(&mut self, missing: &[UnixPath]) -> (r: Vec<UnixPath>)
        requires
            old(self).wf(),
        ensures
            final(self).wf(),
            keys(r@).no_duplicates(),
            keys(r@).to_set() == old(self)@.metas.dom().intersect(keys(missing@).to_set()),
            spelled_in(r@, old(self)@.paths),
            final(self)@ == old(self)@.pruned(keys(r@).to_set()),
    {
        let known = self.worktrees();
        let ghost all = keys(known@);
        let ghost lost = |k: PathKey| keys(missing@).contains(k);
        let mut r: Vec<UnixPath> = Vec::new();
        let mut i: usize = 0;
        proof {
            assert(keys(r@).to_set() =~= all.take(0).to_set().filter(lost));
            assert(keys(r@).to_set() =~= Set::empty());
            assert(self@ =~= self@.pruned(Set::empty()));
        }
        while i < known.len()
            invariant
                self.wf(),
                i <= known.len(),
                all == keys(known@),
                all.no_duplicates(),
                lost == (|k: PathKey| keys(missing@).contains(k)),
                keys(r@).no_duplicates(),
                keys(r@).to_set() == all.take(i as int).to_set().filter(lost),
                self@ == old(self)@.pruned(keys(r@).to_set()),
                spelled_in(known@, old(self)@.paths),
                spelled_in(r@, old(self)@.paths),
            decreases known.len() - i,
        {
            let ghost before = keys(r@);
            let ghost id = all[i as int];
            proof {
                lemma_take_next(all, i as int);
                assert(id == known@[i as int].key());
            }
            if contains_path(missing, &known[i]) {
                let ghost held = self@;
                let _entry = self.entries.remove(&known[i]);
                let _nag = self.nagged.remove(&known[i]);
                let _kept = self.surfaced.remove(&known[i]);
                r.push(known[i].duplicate());
                proof {
                    assert(keys(r@) =~= before.push(id));
                    assert(!before.to_set().contains(id));
                    lemma_push_set(before, id);
                    assert(all.take(i + 1).to_set().filter(lost) =~= all.take(
                        i as int,
                    ).to_set().filter(lost).insert(id));
                    let gone = before.to_set().insert(id);
                    assert(self@.metas =~= held.metas.remove(id));
                    assert(self@.paths =~= held.paths.remove(id));
                    assert(self@.metas =~= old(self)@.metas.remove_keys(gone));
                    assert(self@.paths =~= old(self)@.paths.remove_keys(gone));
                    assert(self@ =~= old(self)@.pruned(gone));
                }
            } else {
                assert(all.take(i + 1).to_set().filter(lost) =~= all.take(
                    i as int,
                ).to_set().filter(lost));
            }
            i += 1;
        }
        assert(all.take(known.len() as int) =~= all);
        assert(all.to_set().filter(lost) =~= old(self)@.metas.dom().intersect(
            keys(missing@).to_set(),
        ));
        r
    }
}

} // verus!
