//! Workspace roots and who declares them.
//!
//! Every connection and command contributes a set of roots under a key of its
//! own. The roots the daemon serves are the union of these sets: a root appears
//! with the first contributor that declares it and goes with the last.

use crate::order::{lemma_insert_sorted, strictly_sorted};
use crate::path::{components, first_spellings, keys, lemma_path_strict_total, path_lt, PathKey, UnixPath};
use crate::table::{entry_ids, ids, lemma_push_set, lemma_take_next, Key, KeySet, Table};
use crate::text::{has_prefix, insert_sorted, starts_with, text_lt, views};
use vstd::prelude::*;

verus! {

/// Roots by what identifies them, each as it was spelled.
pub type Declared = Map<PathKey, Seq<char>>;

/// This root alone.
pub open spec fn only(root: Seq<char>) -> Declared {
    map![components(root) => root]
}

/// The roots that some contributor declares.
pub open spec fn union_of(contributors: Map<Seq<char>, Declared>) -> Set<PathKey> {
    Set::new(
        |p: PathKey|
            exists|k: Seq<char>| #[trigger]
                contributors.dom().contains(k) && contributors[k].dom().contains(p),
    )
}

/// A served root: how it is spelled, and its configuration text, once that has
/// been read.
#[verifier::ext_equal]
pub struct RootView {
    pub path: Seq<char>,
    pub config: Option<Seq<char>>,
}

/// What a tracker holds: the roots each contributor declares, and the served
/// roots.
#[verifier::ext_equal]
pub struct TrackerView {
    pub contributors: Map<Seq<char>, Declared>,
    pub roots: Map<PathKey, RootView>,
}

impl TrackerView {
    /// The served roots.
    pub open spec fn union(self) -> Set<PathKey> {
        union_of(self.contributors)
    }

    /// The roots that `contributor` declares, as it spelled them.
    pub open spec fn spelled(self, contributor: Seq<char>) -> Declared {
        if self.contributors.dom().contains(contributor) {
            self.contributors[contributor]
        } else {
            Map::empty()
        }
    }

    /// The roots that `contributor` declares.
    pub open spec fn declared(self, contributor: Seq<char>) -> Set<PathKey> {
        self.spelled(contributor).dom()
    }

    /// The contributors that declare `root`.
    pub open spec fn holders(self, root: PathKey) -> Set<Seq<char>> {
        self.contributors.dom().filter(
            |k: Seq<char>| self.contributors[k].dom().contains(root),
        )
    }

    /// The contributors whose key begins with `prefix`.
    pub open spec fn with_prefix(self, prefix: Seq<char>) -> Set<Seq<char>> {
        self.contributors.dom().filter(|k: Seq<char>| has_prefix(k, prefix))
    }

    /// The state with other contributors: a root served before and still keeps
    /// its spelling and its configuration, a new one is spelled as in `born` and
    /// has no configuration yet, the others are gone.
    pub open spec fn reconciled(
        self,
        contributors: Map<Seq<char>, Declared>,
        born: Declared,
    ) -> TrackerView {
        TrackerView {
            contributors,
            roots: Map::new(
                |p: PathKey| union_of(contributors).contains(p),
                |p: PathKey|
                    if self.roots.dom().contains(p) {
                        self.roots[p]
                    } else {
                        RootView { path: born[p], config: None }
                    },
            ),
        }
    }

    /// The state with fewer declarations: nothing new is served.
    pub open spec fn reduced(self, contributors: Map<Seq<char>, Declared>) -> TrackerView {
        self.reconciled(contributors, Map::empty())
    }

    /// `contributor` declares exactly `roots`.
    pub open spec fn set(self, contributor: Seq<char>, roots: Declared) -> TrackerView {
        self.reconciled(self.contributors.insert(contributor, roots), roots)
    }

    /// `contributor` declares `roots` besides what it declared before; what it
    /// declared before keeps its spelling.
    pub open spec fn added(self, contributor: Seq<char>, roots: Declared) -> TrackerView {
        self.set(contributor, roots.union_prefer_right(self.spelled(contributor)))
    }

    /// `contributor` is gone.
    pub open spec fn removed(self, contributor: Seq<char>) -> TrackerView {
        self.reduced(self.contributors.remove(contributor))
    }

    /// The contributors in `gone` are gone.
    pub open spec fn removed_all(self, gone: Set<Seq<char>>) -> TrackerView {
        self.reduced(self.contributors.remove_keys(gone))
    }

    /// The declarations once the contributors in `done` have let go of `root`.
    pub open spec fn let_go(self, root: PathKey, done: Set<Seq<char>>) -> Map<Seq<char>, Declared> {
        Map::new(
            |k: Seq<char>|
                self.contributors.dom().contains(k) && !(done.contains(k)
                    && self.contributors[k].remove(root) == Map::<PathKey, Seq<char>>::empty()),
            |k: Seq<char>|
                if done.contains(k) {
                    self.contributors[k].remove(root)
                } else {
                    self.contributors[k]
                },
        )
    }

    /// Every contributor has let go of `root`, and those that declared nothing
    /// else are gone.
    pub open spec fn retired(self, root: PathKey) -> TrackerView {
        self.reduced(self.let_go(root, self.holders(root)))
    }

    /// `contributor` no longer declares `root`, and is gone where it declares
    /// nothing else.
    pub open spec fn released(self, contributor: Seq<char>, root: PathKey) -> TrackerView {
        if !self.contributors.dom().contains(contributor) {
            self
        } else if self.contributors[contributor].remove(root) == Map::<
            PathKey,
            Seq<char>,
        >::empty() {
            self.removed(contributor)
        } else {
            self.reduced(
                self.contributors.insert(contributor, self.contributors[contributor].remove(root)),
            )
        }
    }

    /// The configuration text of `root` was read: it is kept where the root is
    /// served and none was read for it before.
    pub open spec fn configured(self, root: PathKey, text: Seq<char>) -> TrackerView {
        if self.roots.dom().contains(root) && self.roots[root].config is None {
            TrackerView {
                roots: self.roots.insert(
                    root,
                    RootView { config: Some(text), ..self.roots[root] },
                ),
                ..self
            }
        } else {
            self
        }
    }

    /// How the listing spells `root`: as the first of its contributors does, in
    /// string order.
    pub open spec fn listed_as(self, root: PathKey, sources: Seq<Seq<char>>) -> Seq<char> {
        self.contributors[sources[0]][root]
    }

    /// The path names a root as the listing spells it.
    pub open spec fn lists_as(self, path: Seq<char>) -> bool {
        exists|sources: Seq<Seq<char>>|
            strictly_sorted(sources, text_lt()) && #[trigger] sources.to_set() == self.holders(
                components(path),
            ) && path == self.listed_as(components(path), sources)
    }
}

/// A served root with its configuration text, once that has been read.
pub struct Root {
    pub path: UnixPath,
    pub config: Option<String>,
}

impl View for Root {
    type V = RootView;

    open spec fn view(&self) -> RootView {
        RootView { path: self.path@, config: text_option(self.config) }
    }
}

impl Root {
    /// The same root once more.
    fn again(&self) -> (r: Root)
        ensures
            r@ == self@,
    {
        let config: Option<String> = match &self.config {
            Some(t) => Some(t.clone()),
            None => None,
        };
        Root { path: self.path.duplicate(), config }
    }
}

/// The view of an optional string.
pub open spec fn text_option(s: Option<String>) -> Option<Seq<char>> {
    match s {
        Some(t) => Some(t@),
        None => None,
    }
}

/// The keys of listed roots.
pub open spec fn listed_keys(v: Seq<(UnixPath, Vec<String>)>) -> Seq<PathKey> {
    v.map_values(|e: (UnixPath, Vec<String>)| e.0.key())
}

/// The list holds exactly these roots, once each and as they are spelled.
pub open spec fn lists_declared(v: Seq<UnixPath>, roots: Declared) -> bool {
    &&& keys(v).no_duplicates()
    &&& keys(v).to_set() == roots.dom()
    &&& forall|i: int| 0 <= i < v.len() ==> (#[trigger] v[i])@ == roots[v[i].key()]
}

/// The list holds exactly the served roots, once each, with the configuration that
/// was read for them.
pub open spec fn lists_served(r: Seq<Root>, v: TrackerView) -> bool {
    &&& root_keys(r).no_duplicates()
    &&& root_keys(r).to_set() == v.union()
    &&& forall|i: int| 0 <= i < r.len() ==> (#[trigger] r[i])@ == v.roots[r[i].path.key()]
}

/// The contributor keys of a listing by contributor.
pub open spec fn contributor_names(v: Seq<(String, Vec<UnixPath>)>) -> Seq<Seq<char>> {
    v.map_values(|e: (String, Vec<UnixPath>)| e.0@)
}

/// The workspace roots of a daemon.
pub struct RootTracker {
    contributors: Table<String, KeySet<UnixPath>>,
    roots: Table<UnixPath, Root>,
}

/// The roots of a set, as they are spelled.
pub open spec fn spellings_of(s: KeySet<UnixPath>) -> Declared {
    s.entries().map_values(|p: UnixPath| p@)
}

impl View for RootTracker {
    type V = TrackerView;

    closed spec fn view(&self) -> TrackerView {
        TrackerView {
            contributors: self.contributors@.map_values(|s: KeySet<UnixPath>| spellings_of(s)),
            roots: self.roots@.map_values(|r: Root| r@),
        }
    }
}

impl RootTracker {
    /// Every served root is declared by a contributor, and every declared root
    /// is served.
    pub open spec fn wf(&self) -> bool {
        &&& self.tables_wf()
        &&& self@.roots.dom() == self@.union()
    }

    /// The two tables are in order.
    pub closed spec fn tables_wf(&self) -> bool {
        &&& self.contributors.wf()
        &&& self.roots.wf()
        &&& forall|k: Seq<char>| #[trigger]
            self.contributors@.dom().contains(k) ==> self.contributors@[k].wf()
        &&& forall|p: PathKey| #[trigger]
            self.roots@.dom().contains(p) ==> self.roots@[p].path.key() == p
    }

    /// A tracker without roots.
    pub fn new() -> (r: RootTracker)
        ensures
            r.wf(),
            r@.contributors == Map::<Seq<char>, Declared>::empty(),
            r@.roots == Map::<PathKey, RootView>::empty(),
    {
        let r = RootTracker { contributors: Table::new(), roots: Table::new() };
        assert(r@.contributors =~= Map::<Seq<char>, Declared>::empty());
        assert(r@.roots =~= Map::<PathKey, RootView>::empty());
        assert(r@.roots.dom() =~= r@.union());
        r
    }

    /// Whether some contributor declares `root`.
    fn declared_by_any(&self, root: &UnixPath) -> (r: bool)
        requires
            self.tables_wf(),
        ensures
            r == self@.union().contains(root.key()),
    {
        let mut i: usize = 0;
        proof {
            self.contributors.lemma_order();
        }
        let n: usize = self.contributors.len();
        while i < n
            invariant
                i <= n,
                n == self.contributors.order().len(),
                self.tables_wf(),
                entry_ids(self.contributors.order()).to_set() == self.contributors@.dom(),
                forall|k: int|
                    0 <= k < n ==> self.contributors@.dom().contains(
                        (#[trigger] self.contributors.order()[k]).0.id(),
                    ) && self.contributors@[self.contributors.order()[k].0.id()]
                        == self.contributors.order()[k].1,
                forall|k: int|
                    0 <= k < i ==> !(#[trigger] self.contributors.order()[k]).1@.contains(
                        root.key(),
                    ),
            decreases n - i,
        {
            let set = self.contributors.value_at(i);
            if set.contains(root) {
                let ghost name = self.contributors.order()[i as int].0.id();
                proof {
                    set.lemma_order();
                }
                assert(self@.contributors.dom().contains(name)
                    && self@.contributors[name].dom().contains(root.key()));
                return true;
            }
            i += 1;
        }
        proof {
            assert forall|k: Seq<char>| #[trigger]
                self@.contributors.dom().contains(k) implies
                !self@.contributors[k].dom().contains(root.key()) by {
                self.contributors@[k].lemma_order();
                assert(entry_ids(self.contributors.order()).contains(k));
                let j = choose|j: int|
                    0 <= j < entry_ids(self.contributors.order()).len() && entry_ids(
                        self.contributors.order(),
                    )[j] == k;
                assert(self.contributors.order()[j].0.id() == k);
            }
        }
        false
    }

    /// Brings the served roots in line with what the contributors declare. A new
    /// one is spelled as one of its contributors spells it.
    fn reconcile_roots(&mut self, Ghost(born): Ghost<Declared>)
        requires
            old(self).tables_wf(),
            forall|k: Seq<char>, p: PathKey|
                #![trigger old(self)@.contributors[k].dom().contains(p)]
                old(self)@.contributors.dom().contains(k) && old(
                    self,
                )@.contributors[k].dom().contains(p) && !old(self)@.roots.dom().contains(p)
                    ==> old(self)@.contributors[k][p] == born[p],
        ensures
            final(self).wf(),
            final(self)@ == old(self)@.reconciled(old(self)@.contributors, born),
    {
        let mut roots: Table<UnixPath, Root> = Table::new();
        let ghost start = *self;
        let mut i: usize = 0;
        let n: usize = self.roots.len();
        proof {
            self.roots.lemma_order();
        }
        // The survivors keep what they have.
        while i < n
            invariant
                *self == start,
                start.tables_wf(),
                i <= n,
                n == start.roots.order().len(),
                roots.wf(),
                start.roots.wf(),
                forall|k: int|
                    0 <= k < n ==> start.roots@.dom().contains(
                        (#[trigger] start.roots.order()[k]).0.id(),
                    ) && start.roots@[start.roots.order()[k].0.id()] == start.roots.order()[k].1,
                forall|p: PathKey| #[trigger]
                    roots@.dom().contains(p) ==> start.roots@.dom().contains(p) && roots@[p]@
                        == start.roots@[p]@ && start@.union().contains(p),
                forall|k: int|
                    0 <= k < i && start@.union().contains(
                        (#[trigger] start.roots.order()[k]).0.id(),
                    ) ==> roots@.dom().contains(start.roots.order()[k].0.id()),
            decreases n - i,
        {
            let path = self.roots.key_at(i);
            if self.declared_by_any(path) {
                roots.insert(path.duplicate(), self.roots.value_at(i).again());
            }
            i += 1;
        }
        assert forall|p: PathKey| start.roots@.dom().contains(p) && start@.union().contains(
            p,
        ) implies #[trigger] roots@.dom().contains(p) by {
            start.roots.lemma_order();
            assert(entry_ids(start.roots.order()).contains(p));
            let j = choose|j: int|
                0 <= j < entry_ids(start.roots.order()).len() && entry_ids(start.roots.order())[j]
                    == p;
            assert(start.roots.order()[j].0.id() == p);
        }
        assert forall|p: PathKey| #[trigger] roots@.dom().contains(p) implies
            roots@[p].path.key() == p by {
            assert(start.roots@[p].path.key() == p);
            assert(roots@[p]@.path == start.roots@[p]@.path);
        }
        // Every declared root that is not there yet appears.
        let m: usize = self.contributors.len();
        let mut i: usize = 0;
        proof {
            self.contributors.lemma_order();
        }
        while i < m
            invariant
                *self == start,
                start.tables_wf(),
                start.contributors.wf(),
                i <= m,
                m == start.contributors.order().len(),
                roots.wf(),
                forall|k: int|
                    0 <= k < m ==> start.contributors@.dom().contains(
                        (#[trigger] start.contributors.order()[k]).0.id(),
                    ) && start.contributors@[start.contributors.order()[k].0.id()]
                        == start.contributors.order()[k].1,
                forall|p: PathKey|
                    start.roots@.dom().contains(p) && start@.union().contains(p)
                        ==> #[trigger] roots@.dom().contains(p),
                forall|p: PathKey| #[trigger]
                    roots@.dom().contains(p) ==> start@.union().contains(p) && roots@[p]@ == (
                    if start.roots@.dom().contains(p) {
                        start.roots@[p]@
                    } else {
                        RootView { path: born[p], config: None }
                    }) && roots@[p].path.key() == p,
                forall|k: int, p: PathKey|
                    0 <= k < i && (#[trigger] start.contributors.order()[k]).1@.contains(p)
                        ==> #[trigger] roots@.dom().contains(p),
                forall|k: Seq<char>, p: PathKey|
                    #![trigger start@.contributors[k].dom().contains(p)]
                    start@.contributors.dom().contains(k) && start@.contributors[k].dom().contains(
                        p,
                    ) && !start@.roots.dom().contains(p) ==> start@.contributors[k][p] == born[p],
            decreases m - i,
        {
            let set = self.contributors.value_at(i);
            let ghost name = start.contributors.order()[i as int].0.id();
            assert(set.wf());
            let c: usize = set.len();
            let mut j: usize = 0;
            proof {
                set.lemma_order();
            }
            while j < c
                invariant
                    start.tables_wf(),
                    j <= c,
                    c == set.order().len(),
                    set.wf(),
                    start.contributors@.dom().contains(name),
                    start.contributors@[name] == *set,
                    ids(set.order()).to_set() == set@,
                    set.entries().dom() == set@,
                    forall|k: int|
                        0 <= k < c ==> set@.contains((#[trigger] set.order()[k]).id())
                            && set.entries()[set.order()[k].id()] == set.order()[k],
                    i < m,
                    m == start.contributors.order().len(),
                    start.contributors.order()[i as int].1 == *set,
                    roots.wf(),
                    forall|p: PathKey|
                        start.roots@.dom().contains(p) && start@.union().contains(p)
                            ==> #[trigger] roots@.dom().contains(p),
                    forall|p: PathKey| #[trigger]
                        roots@.dom().contains(p) ==> start@.union().contains(p) && roots@[p]@ == (
                        if start.roots@.dom().contains(p) {
                            start.roots@[p]@
                        } else {
                            RootView { path: born[p], config: None }
                        }) && roots@[p].path.key() == p,
                    forall|k: int, p: PathKey|
                        0 <= k < i && (#[trigger] start.contributors.order()[k]).1@.contains(p)
                            ==> #[trigger] roots@.dom().contains(p),
                    forall|k: int|
                        0 <= k < j ==> roots@.dom().contains((#[trigger] set.order()[k]).key()),
                    forall|k: Seq<char>, p: PathKey|
                        #![trigger start@.contributors[k].dom().contains(p)]
                        start@.contributors.dom().contains(k)
                            && start@.contributors[k].dom().contains(p)
                            && !start@.roots.dom().contains(p) ==> start@.contributors[k][p]
                            == born[p],
                decreases c - j,
            {
                let path = set.at(j);
                assert(start@.contributors.dom().contains(name)
                    && start@.contributors[name].dom().contains(path.key()));
                assert(start@.contributors[name][path.key()] == path@);
                if !roots.contains_key(path) {
                    roots.insert(
                        path.duplicate(),
                        Root { path: path.duplicate(), config: None },
                    );
                }
                j += 1;
            }
            assert forall|p: PathKey| set@.contains(p) implies #[trigger] roots@.dom().contains(
                p,
            ) by {
                assert(ids(set.order()).contains(p));
                let k = choose|k: int| 0 <= k < ids(set.order()).len() && ids(set.order())[k] == p;
                assert(set.order()[k].key() == p);
            }
            i += 1;
        }
        assert forall|p: PathKey| start@.union().contains(p) implies roots@.dom().contains(p) by {
            let name = choose|k: Seq<char>| #[trigger]
                start@.contributors.dom().contains(k) && start@.contributors[k].dom().contains(p);
            start.contributors.lemma_order();
            start.contributors@[name].lemma_order();
            assert(entry_ids(start.contributors.order()).contains(name));
            let j = choose|j: int|
                0 <= j < entry_ids(start.contributors.order()).len() && entry_ids(
                    start.contributors.order(),
                )[j] == name;
            assert(start.contributors.order()[j].0.id() == name);
            assert(start.contributors.order()[j].1@.contains(p));
        }
        self.roots = roots;
        assert(self@.contributors =~= start@.contributors);
        assert(self@.roots.dom() =~= start@.union());
        assert(self@.roots =~= start@.reconciled(start@.contributors, born).roots);
    }

    /// Replaces a contributor's root set.
    pub fn set_roots(&mut self, contributor: &str, roots: Vec<UnixPath>)
        requires
            old(self).wf(),
        ensures
            final(self).wf(),
            final(self)@ == old(self)@.set(contributor@, first_spellings(roots@)),
    {
        let mut set: KeySet<UnixPath> = KeySet::new();
        assert(spellings_of(set) =~= Map::empty());
        extend(&mut set, roots.as_slice());
        let ghost now = first_spellings(roots@);
        assert(spellings_of(set) =~= now);
        self.contributors.insert(contributor.to_owned(), set);
        assert(self@.contributors =~= old(self)@.contributors.insert(contributor@, now));
        assert(self@.roots =~= old(self)@.roots);
        proof {
            lemma_born(old(self)@, contributor@, now);
        }
        self.reconcile_roots(Ghost(now));
    }

    /// Adds roots to a contributor's set; those it declared before stay.
    pub fn add_roots(&mut self, contributor: &str, roots: &[UnixPath])
        requires
            old(self).wf(),
        ensures
            final(self).wf(),
            final(self)@ == old(self)@.added(contributor@, first_spellings(roots@)),
    {
        let name = contributor.to_owned();
        let mut set: KeySet<UnixPath> = match self.contributors.get(&name) {
            Some(s) => s.again(),
            None => KeySet::new(),
        };
        assert(spellings_of(set) =~= self@.spelled(contributor@));
        extend(&mut set, roots);
        let ghost now = first_spellings(roots@).union_prefer_right(old(self)@.spelled(contributor@));
        assert(spellings_of(set) == now);
        self.contributors.insert(name, set);
        assert(self@.contributors =~= old(self)@.contributors.insert(contributor@, now));
        assert(self@.roots =~= old(self)@.roots);
        proof {
            lemma_born(old(self)@, contributor@, now);
        }
        self.reconcile_roots(Ghost(now));
    }

    /// Removes a contributor.
    pub fn remove_contributor(&mut self, contributor: &str)
        requires
            old(self).wf(),
        ensures
            final(self).wf(),
            final(self)@ == old(self)@.removed(contributor@),
    {
        let _gone = self.contributors.remove(&contributor.to_owned());
        assert(self@.contributors =~= old(self)@.contributors.remove(contributor@));
        assert(self@.roots =~= old(self)@.roots);
        proof {
            lemma_none_born(old(self)@, self@.contributors);
        }
        self.reconcile_roots(Ghost(Map::empty()));
    }

    /// Removes a single root from a contributor's set; the contributor goes with
    /// its last root. Returns whether the root was there.
    pub fn remove_root(&mut self, contributor: &str, root: &UnixPath) -> (r: bool)
        requires
            old(self).wf(),
        ensures
            final(self).wf(),
            final(self)@ == old(self)@.released(contributor@, root.key()),
            r == old(self)@.declared(contributor@).contains(root.key()),
    {
        let name = contributor.to_owned();
        let at: usize = match self.contributors.find(&name) {
            Some(i) => i,
            None => {
                return false;
            },
        };
        let mut set = self.contributors.value_at(at).again();
        proof {
            set.lemma_order();
        }
        let removed = set.remove(root);
        let ghost left = self@.contributors[contributor@].remove(root.key());
        assert(spellings_of(set) =~= left);
        proof {
            set.lemma_order();
            assert(set@.len() == 0 <==> set@ =~= Set::empty());
            assert(set@ == left.dom());
            assert(left.dom() =~= Set::empty() <==> left =~= Map::empty());
        }
        if set.len() == 0 {
            let _gone = self.contributors.remove_at(at);
            assert(self@.contributors =~= old(self)@.contributors.remove(contributor@));
        } else {
            self.contributors.set_value(at, set);
            assert(self@.contributors =~= old(self)@.contributors.insert(contributor@, left));
        }
        assert(self@.roots =~= old(self)@.roots);
        proof {
            lemma_none_born(old(self)@, self@.contributors);
        }
        self.reconcile_roots(Ghost(Map::empty()));
        removed
    }

    /// Removes every contributor whose key begins with `prefix`; returns how many
    /// there were.
    pub fn remove_contributors_with_prefix(&mut self, prefix: &str) -> (r: usize)
        requires
            old(self).wf(),
        ensures
            final(self).wf(),
            final(self)@ == old(self)@.removed_all(old(self)@.with_prefix(prefix@)),
            old(self)@.with_prefix(prefix@).finite(),
            r == old(self)@.with_prefix(prefix@).len(),
    {
        let mut removed: usize = 0;
        let mut i: usize = 0;
        let ghost mut gone: Set<Seq<char>> = Set::empty();
        let ghost start = self.contributors@;
        let n: usize = self.contributors.len();
        assert(start.remove_keys(gone) =~= start);
        while i < self.contributors.len()
            invariant
                self.tables_wf(),
                self.contributors.wf(),
                self.roots == old(self).roots,
                old(self).tables_wf(),
                start == old(self).contributors@,
                self.contributors@ == start.remove_keys(gone),
                gone.finite(),
                gone.len() == removed,
                gone.subset_of(start.dom()),
                removed + self.contributors.order().len() == n,
                i <= self.contributors.order().len(),
                forall|k: Seq<char>| #[trigger] gone.contains(k) ==> has_prefix(k, prefix@),
                forall|j: int|
                    0 <= j < i ==> !has_prefix(
                        (#[trigger] self.contributors.order()[j]).0@,
                        prefix@,
                    ),
            decreases self.contributors.order().len() - i,
        {
            let ghost before = *self;
            proof {
                self.contributors.lemma_order();
            }
            if starts_with(self.contributors.key_at(i).as_str(), prefix) {
                let e = self.contributors.remove_at(i);
                removed += 1;
                proof {
                    assert(before.contributors@.dom().contains(e.0@));
                    assert(!gone.contains(e.0@));
                    let next = gone.insert(e.0@);
                    assert(start.remove_keys(next) =~= start.remove_keys(gone).remove(e.0@));
                    gone = next;
                }
            } else {
                i += 1;
            }
        }
        proof {
            self.contributors.lemma_order();
            assert forall|k: Seq<char>| old(self)@.with_prefix(prefix@).contains(k)
                == gone.contains(k) by {
                if start.dom().contains(k) && has_prefix(k, prefix@) && !gone.contains(k) {
                    assert(self.contributors@.dom().contains(k));
                    assert(entry_ids(self.contributors.order()).contains(k));
                    let j = choose|j: int|
                        0 <= j < entry_ids(self.contributors.order()).len() && entry_ids(
                            self.contributors.order(),
                        )[j] == k;
                    assert(self.contributors.order()[j].0@ == k);
                }
            }
            assert(old(self)@.with_prefix(prefix@) =~= gone);
            assert(self@.contributors =~= old(self)@.contributors.remove_keys(gone));
        }
        if removed > 0 {
            proof {
                lemma_none_born(old(self)@, self@.contributors);
            }
            self.reconcile_roots(Ghost(Map::empty()));
        } else {
            proof {
                assert(gone =~= Set::empty());
                assert(self@.contributors =~= old(self)@.contributors);
                assert(self@ =~= old(self)@.removed_all(gone));
            }
        }
        removed
    }

    /// The contributors whose key begins with `prefix`, each with its roots.
    pub fn contributors_with_prefix(&self, prefix: &str) -> (r: Vec<(String, Vec<UnixPath>)>)
        requires
            self.wf(),
        ensures
            contributor_names(r@).no_duplicates(),
            contributor_names(r@).to_set() == self@.with_prefix(prefix@),
            forall|i: int|
                0 <= i < r.len() ==> lists_declared(
                    (#[trigger] r[i]).1@,
                    self@.contributors[r[i].0@],
                ),
    {
        let mut r: Vec<(String, Vec<UnixPath>)> = Vec::new();
        let mut i: usize = 0;
        let n: usize = self.contributors.len();
        let ghost all = entry_ids(self.contributors.order());
        let ghost fits = |k: Seq<char>| has_prefix(k, prefix@);
        proof {
            self.contributors.lemma_order();
            assert(contributor_names(r@).to_set() =~= all.take(0).to_set().filter(fits));
        }
        while i < n
            invariant
                self.wf(),
                self.contributors.wf(),
                i <= n,
                n == self.contributors.order().len(),
                all == entry_ids(self.contributors.order()),
                all.no_duplicates(),
                fits == (|k: Seq<char>| has_prefix(k, prefix@)),
                contributor_names(r@).no_duplicates(),
                contributor_names(r@).to_set() == all.take(i as int).to_set().filter(fits),
                forall|j: int|
                    0 <= j < r.len() ==> lists_declared(
                        (#[trigger] r[j]).1@,
                        self@.contributors[r[j].0@],
                    ),
            decreases n - i,
        {
            let key = self.contributors.key_at(i);
            let ghost before = contributor_names(r@);
            proof {
                self.contributors.lemma_order();
                lemma_take_next(all, i as int);
                assert(all[i as int] == key@);
            }
            if starts_with(key.as_str(), prefix) {
                let set = self.contributors.value_at(i);
                assert(self.contributors@.dom().contains(key@));
                assert(set.wf());
                let paths = set.to_vec();
                proof {
                    set.lemma_order();
                    assert(ids(paths@) =~= keys(paths@));
                    assert(self@.contributors[key@] == spellings_of(*set));
                    assert(spellings_of(*set).dom() =~= set@);
                    assert forall|k: int| 0 <= k < paths.len() implies (#[trigger] paths[k])@
                        == spellings_of(*set)[paths[k].key()] by {
                        assert(set.order()[k].id() == paths[k].key());
                    }
                    assert(lists_declared(paths@, self@.contributors[key@]));
                }
                r.push((key.clone(), paths));
                proof {
                    assert(contributor_names(r@) =~= before.push(key@));
                    assert(!before.to_set().contains(key@));
                    lemma_push_set(before, key@);
                    assert(all.take(i + 1).to_set().filter(fits) =~= all.take(
                        i as int,
                    ).to_set().filter(fits).insert(key@));
                }
            } else {
                assert(all.take(i + 1).to_set().filter(fits) =~= all.take(
                    i as int,
                ).to_set().filter(fits));
            }
            i += 1;
        }
        assert(all.take(n as int) =~= all);
        assert(self@.with_prefix(prefix@) =~= all.to_set().filter(fits));
        r
    }

    /// Every contributor that declares `root`.
    pub fn contributors_of_root(&self, root: &UnixPath) -> (r: Vec<String>)
        requires
            self.wf(),
        ensures
            views(r@).no_duplicates(),
            views(r@).to_set() == self@.holders(root.key()),
    {
        let mut r: Vec<String> = Vec::new();
        let mut i: usize = 0;
        let n: usize = self.contributors.len();
        let ghost all = entry_ids(self.contributors.order());
        let ghost fits = |k: Seq<char>| self@.contributors[k].dom().contains(root.key());
        proof {
            self.contributors.lemma_order();
            assert(views(r@).to_set() =~= all.take(0).to_set().filter(fits));
        }
        while i < n
            invariant
                self.wf(),
                self.contributors.wf(),
                i <= n,
                n == self.contributors.order().len(),
                all == entry_ids(self.contributors.order()),
                all.no_duplicates(),
                fits == (|k: Seq<char>| self@.contributors[k].dom().contains(root.key())),
                views(r@).no_duplicates(),
                views(r@).to_set() == all.take(i as int).to_set().filter(fits),
            decreases n - i,
        {
            let key = self.contributors.key_at(i);
            let ghost before = views(r@);
            proof {
                self.contributors.lemma_order();
                lemma_take_next(all, i as int);
                assert(all[i as int] == key@);
            }
            let set = self.contributors.value_at(i);
            assert(self.contributors@.dom().contains(key@));
            proof {
                set.lemma_order();
                assert(self@.contributors[key@] == spellings_of(*set));
            }
            if set.contains(root) {
                r.push(key.clone());
                proof {
                    assert(views(r@) =~= before.push(key@));
                    assert(!before.to_set().contains(key@));
                    lemma_push_set(before, key@);
                    assert(all.take(i + 1).to_set().filter(fits) =~= all.take(
                        i as int,
                    ).to_set().filter(fits).insert(key@));
                }
            } else {
                assert(all.take(i + 1).to_set().filter(fits) =~= all.take(
                    i as int,
                ).to_set().filter(fits));
            }
            i += 1;
        }
        assert(all.take(n as int) =~= all);
        assert(self@.holders(root.key()) =~= all.to_set().filter(fits));
        r
    }

    /// How many contributors declare `root`.
    pub fn refcount(&self, root: &UnixPath) -> (r: usize)
        requires
            self.wf(),
        ensures
            r == self@.holders(root.key()).len(),
    {
        let holders = self.contributors_of_root(root);
        proof {
            views(holders@).unique_seq_to_set();
        }
        holders.len()
    }

    /// The served roots, as they are spelled.
    pub fn global_roots(&self) -> (r: Vec<UnixPath>)
        requires
            self.wf(),
        ensures
            keys(r@).no_duplicates(),
            keys(r@).to_set() == self@.union(),
            forall|i: int|
                0 <= i < r.len() ==> (#[trigger] r[i])@ == self@.roots[r[i].key()].path,
    {
        let rich = self.global_roots_rich();
        let mut r: Vec<UnixPath> = Vec::new();
        let mut i: usize = 0;
        while i < rich.len()
            invariant
                i <= rich.len(),
                r.len() == i,
                forall|j: int| 0 <= j < i ==> (#[trigger] r[j])@ == rich[j].path@,
            decreases rich.len() - i,
        {
            r.push(rich[i].path.duplicate());
            i += 1;
        }
        assert(keys(r@) =~= root_keys(rich@));
        assert forall|j: int| 0 <= j < r.len() implies (#[trigger] r[j])@
            == self@.roots[r[j].key()].path by {
            assert(rich[j]@ == self@.roots[rich[j].path.key()]);
        }
        r
    }

    /// The served roots with their configuration.
    pub fn global_roots_rich(&self) -> (r: Vec<Root>)
        requires
            self.wf(),
        ensures
            lists_served(r@, self@),
    {
        let mut r: Vec<Root> = Vec::new();
        let mut i: usize = 0;
        let n: usize = self.roots.len();
        proof {
            self.roots.lemma_order();
        }
        let ghost all = entry_ids(self.roots.order());
        while i < n
            invariant
                self.roots.wf(),
                self.tables_wf(),
                i <= n,
                n == self.roots.order().len(),
                all == entry_ids(self.roots.order()),
                root_keys(r@) == all.take(i as int),
                forall|j: int|
                    0 <= j < r.len() ==> (#[trigger] r[j])@ == self@.roots[r[j].path.key()],
            decreases n - i,
        {
            let ghost before = root_keys(r@);
            proof {
                self.roots.lemma_order();
                assert(self.roots@.dom().contains(self.roots.order()[i as int].0.id()));
            }
            let root = self.roots.value_at(i).again();
            assert(root.path@ == self.roots.order()[i as int].1.path@);
            assert(root.path.key() == all[i as int]);
            r.push(root);
            proof {
                lemma_take_next(all, i as int);
                assert(root_keys(r@) =~= before.push(all[i as int]));
            }
            i += 1;
        }
        assert(all.take(n as int) =~= all);
        assert(self.roots@.dom() =~= self@.roots.dom());
        r
    }

    /// Notes the configuration text read for a served root, empty where it has
    /// none. The first one stays; a path that is not served is left alone.
    pub fn attach_config(&mut self, root: &UnixPath, config: String)
        requires
            old(self).wf(),
        ensures
            final(self).wf(),
            final(self)@ == old(self)@.configured(root.key(), config@),
    {
        if let Some(i) = self.roots.find(root) {
            assert(old(self)@.roots.dom().contains(root.key()));
            let entry = self.roots.value_at(i);
            if entry.config.is_none() {
                let path = entry.path.duplicate();
                self.roots.set_value(i, Root { path, config: Some(config) });
                assert(self@.contributors =~= old(self)@.contributors);
                assert(self@ =~= old(self)@.configured(root.key(), config@));
                assert(self@.roots.dom() =~= old(self)@.roots.dom());
            }
        } else {
            assert(!old(self)@.roots.dom().contains(root.key()));
        }
    }

    /// The served roots in path order, each with its contributors in string
    /// order.
    pub fn list_roots(&self) -> (r: Vec<(UnixPath, Vec<String>)>)
        requires
            self.wf(),
        ensures
            strictly_sorted(listed_keys(r@), path_lt()),
            listed_keys(r@).to_set() == self@.union(),
            forall|i: int|
                0 <= i < r.len() ==> strictly_sorted(views((#[trigger] r[i]).1@), text_lt())
                    && views(r[i].1@).to_set() == self@.holders(r[i].0.key()) && r[i].0@
                    == self@.listed_as(r[i].0.key(), views(r[i].1@)),
    {
        let mut r: Vec<(UnixPath, Vec<String>)> = Vec::new();
        let roots = self.global_roots();
        let mut i: usize = 0;
        let ghost all = keys(roots@);
        assert(listed_keys(r@).to_set() =~= all.take(0).to_set());
        while i < roots.len()
            invariant
                self.wf(),
                i <= roots.len(),
                all == keys(roots@),
                all.no_duplicates(),
                strictly_sorted(listed_keys(r@), path_lt()),
                listed_keys(r@).to_set() == all.take(i as int).to_set(),
                forall|j: int|
                    0 <= j < r.len() ==> strictly_sorted(views((#[trigger] r[j]).1@), text_lt())
                        && views(r[j].1@).to_set() == self@.holders(r[j].0.key()) && r[j].0@
                        == self@.listed_as(r[j].0.key(), views(r[j].1@)),
                all.to_set() == self@.union(),
            decreases roots.len() - i,
        {
            let sources = self.sources_of(&roots[i]);
            proof {
                lemma_take_next(all, i as int);
                assert(all[i as int] == roots@[i as int].key());
                assert(!listed_keys(r@).to_set().contains(all[i as int]));
                assert(all.to_set().contains(all[i as int]));
            }
            let path = self.spelling_by(&roots[i], &sources);
            insert_listed(&mut r, path, sources);
            i += 1;
        }
        assert(all.take(roots.len() as int) =~= all);
        r
    }

    /// A served root as the first of its contributors spells it.
    fn spelling_by(&self, root: &UnixPath, sources: &Vec<String>) -> (r: UnixPath)
        requires
            self.wf(),
            self@.union().contains(root.key()),
            views(sources@).to_set() == self@.holders(root.key()),
        ensures
            r.key() == root.key(),
            r@ == self@.listed_as(root.key(), views(sources@)),
    {
        proof {
            let k = choose|k: Seq<char>| #[trigger]
                self@.contributors.dom().contains(k) && self@.contributors[k].dom().contains(
                    root.key(),
                );
            assert(self@.holders(root.key()).contains(k));
            assert(views(sources@).to_set().contains(k));
            assert(views(sources@).len() > 0);
            assert(views(sources@)[0] == sources@[0]@);
            assert(views(sources@).to_set().contains(views(sources@)[0]));
            assert(self@.holders(root.key()).contains(sources@[0]@));
        }
        match self.contributors.get(&sources[0]) {
            Some(set) => {
                proof {
                    set.lemma_order();
                    assert(self.contributors@[sources@[0]@] == *set);
                    assert(self@.contributors[sources@[0]@] == spellings_of(*set));
                }
                set.key_like(root)
            },
            None => root.duplicate(),
        }
    }

    /// The contributors of one root in string order.
    fn sources_of(&self, root: &UnixPath) -> (r: Vec<String>)
        requires
            self.wf(),
        ensures
            strictly_sorted(views(r@), text_lt()),
            views(r@).to_set() == self@.holders(root.key()),
    {
        let holders = self.contributors_of_root(root);
        let mut r: Vec<String> = Vec::new();
        let mut i: usize = 0;
        assert(views(r@).to_set() =~= views(holders@).take(0).to_set());
        while i < holders.len()
            invariant
                i <= holders.len(),
                strictly_sorted(views(r@), text_lt()),
                views(r@).to_set() == views(holders@).take(i as int).to_set(),
            decreases holders.len() - i,
        {
            proof {
                lemma_take_next(views(holders@), i as int);
            }
            insert_sorted(&mut r, holders[i].clone());
            i += 1;
        }
        assert(views(holders@).take(holders.len() as int) =~= views(holders@));
        r
    }
}

/// The keys of roots with their configuration.
pub open spec fn root_keys(v: Seq<Root>) -> Seq<PathKey> {
    v.map_values(|e: Root| e.path.key())
}

/// Puts a root that is not listed yet into its place.
fn insert_listed(r: &mut Vec<(UnixPath, Vec<String>)>, path: UnixPath, sources: Vec<String>)
    requires
        strictly_sorted(listed_keys(old(r)@), path_lt()),
        !listed_keys(old(r)@).to_set().contains(path.key()),
    ensures
        strictly_sorted(listed_keys(final(r)@), path_lt()),
        listed_keys(final(r)@).to_set() == listed_keys(old(r)@).to_set().insert(path.key()),
        forall|j: int|
            0 <= j < final(r)@.len() ==> (#[trigger] final(r)@[j]) == (path, sources) || old(
                r,
            )@.contains(final(r)@[j]),
{
    let mut at: usize = 0;
    let ghost k = path.key();
    proof {
        lemma_path_strict_total();
    }
    while at < r.len() && r[at].0.precedes(&path)
        invariant
            at <= r.len(),
            r@ == old(r)@,
            k == path.key(),
            forall|i: int| 0 <= i < at ==> path_lt()(#[trigger] listed_keys(r@)[i], k),
        decreases r.len() - at,
    {
        assert(listed_keys(r@)[at as int] == r@[at as int].0.key());
        at += 1;
    }
    proof {
        let s = listed_keys(r@);
        assert forall|i: int| at <= i < s.len() implies path_lt()(k, #[trigger] s[i]) by {
            assert(s[at as int] == r@[at as int].0.key());
            assert(s.contains(s[at as int]));
            assert(path_lt()(k, s[at as int]) || path_lt()(s[at as int], k));
            if i > at {
                assert(path_lt()(s[at as int], s[i]));
            }
        }
        lemma_insert_sorted(s, at as int, k, path_lt());
    }
    let ghost before = r@;
    r.insert(at, (path, sources));
    proof {
        assert(listed_keys(r@) =~= listed_keys(before).insert(at as int, k));
        assert forall|j: int| 0 <= j < r@.len() implies (#[trigger] r@[j]) == (path, sources)
            || before.contains(r@[j]) by {
            if j < at {
                assert(r@[j] == before[j]);
            } else if j > at {
                assert(r@[j] == before[j - 1]);
            }
        }
    }
}

/// Adds every path of a list to a set.
fn extend(set: &mut KeySet<UnixPath>, paths: &[UnixPath])
    requires
        old(set).wf(),
    ensures
        final(set).wf(),
        spellings_of(*final(set)) == first_spellings(paths@).union_prefer_right(
            spellings_of(*old(set)),
        ),
{
    let mut i: usize = 0;
    let ghost start = spellings_of(*set);
    assert(spellings_of(*set) =~= first_spellings(paths@.take(0)).union_prefer_right(start));
    while i < paths.len()
        invariant
            i <= paths.len(),
            set.wf(),
            start == spellings_of(*old(set)),
            spellings_of(*set) == first_spellings(paths@.take(i as int)).union_prefer_right(start),
        decreases paths.len() - i,
    {
        let ghost before = spellings_of(*set);
        proof {
            set.lemma_order();
            assert(paths@.take(i + 1).drop_last() =~= paths@.take(i as int));
            assert(paths@.take(i + 1).last() == paths@[i as int]);
            assert(before.dom() =~= set@);
        }
        let new = set.insert(paths[i].duplicate());
        proof {
            let id = paths@[i as int].key();
            if new {
                assert(spellings_of(*set) =~= before.insert(id, paths@[i as int]@));
            }
            assert(spellings_of(*set) =~= first_spellings(paths@.take(i + 1)).union_prefer_right(
                start,
            ));
        }
        i += 1;
    }
    assert(paths@.take(paths.len() as int) =~= paths@);
}

/// A list of one root declares that root alone.
pub proof fn lemma_only(roots: Seq<UnixPath>)
    requires
        roots.len() == 1,
    ensures
        first_spellings(roots) == only(roots[0]@),
{
    assert(roots.drop_last().len() == 0);
    assert(first_spellings(roots.drop_last()) =~= Map::empty());
    assert(first_spellings(roots) =~= only(roots[0]@));
}

/// A root that appears when a contributor declares other roots is declared by
/// that contributor alone.
proof fn lemma_born(v: TrackerView, contributor: Seq<char>, roots: Declared)
    requires
        v.roots.dom() == v.union(),
    ensures
        forall|k: Seq<char>, p: PathKey|
            #![trigger v.contributors.insert(contributor, roots)[k].dom().contains(p)]
            v.contributors.insert(contributor, roots).dom().contains(k) && v.contributors.insert(
                contributor,
                roots,
            )[k].dom().contains(p) && !v.roots.dom().contains(p) ==> v.contributors.insert(
                contributor,
                roots,
            )[k][p] == roots[p],
{
    let m = v.contributors.insert(contributor, roots);
    assert forall|k: Seq<char>, p: PathKey|
        #![trigger m[k].dom().contains(p)]
        m.dom().contains(k) && m[k].dom().contains(p) && !v.roots.dom().contains(p) implies m[k][p]
        == roots[p] by {
        if k != contributor {
            assert(v.contributors.dom().contains(k) && v.contributors[k].dom().contains(p));
            assert(v.union().contains(p));
        }
    }
}

/// Where contributors declare less, nothing appears.
proof fn lemma_none_born(v: TrackerView, contributors: Map<Seq<char>, Declared>)
    requires
        v.roots.dom() == v.union(),
        forall|k: Seq<char>| #[trigger]
            contributors.dom().contains(k) ==> v.contributors.dom().contains(k)
                && contributors[k].dom().subset_of(v.contributors[k].dom()),
    ensures
        forall|k: Seq<char>, p: PathKey|
            #![trigger contributors[k].dom().contains(p)]
            contributors.dom().contains(k) && contributors[k].dom().contains(p)
                ==> v.roots.dom().contains(p),
{
    assert forall|k: Seq<char>, p: PathKey|
        #![trigger contributors[k].dom().contains(p)]
        contributors.dom().contains(k) && contributors[k].dom().contains(p) implies
        v.roots.dom().contains(p) by {
        assert(v.contributors.dom().contains(k) && v.contributors[k].dom().contains(p));
        assert(v.union().contains(p));
    }
}

/// Fewer contributors declare fewer roots.
pub proof fn lemma_union_monotonic(
    a: Map<Seq<char>, Declared>,
    b: Map<Seq<char>, Declared>,
)
    requires
        forall|k: Seq<char>| #[trigger]
            a.dom().contains(k) ==> b.dom().contains(k) && a[k].dom().subset_of(b[k].dom()),
    ensures
        union_of(a).subset_of(union_of(b)),
{
    assert forall|p: PathKey| union_of(a).contains(p) implies union_of(b).contains(p) by {
        let k = choose|k: Seq<char>| #[trigger] a.dom().contains(k) && a[k].dom().contains(p);
        assert(b.dom().contains(k) && b[k].dom().contains(p));
    }
}

/// Removing contributors one after the other comes to removing them all.
pub proof fn lemma_removed_all_next(v: TrackerView, gone: Set<Seq<char>>, next: Seq<char>)
    ensures
        v.removed_all(gone).removed(next) == v.removed_all(gone.insert(next)),
{
    let a = v.removed_all(gone);
    let m = v.contributors.remove_keys(gone).remove(next);
    assert(m =~= v.contributors.remove_keys(gone.insert(next)));
    lemma_union_monotonic(m, a.contributors);
    assert(a.removed(next).roots =~= v.removed_all(gone.insert(next)).roots);
}

/// Removing nobody changes nothing.
pub proof fn lemma_removed_all_none(v: TrackerView)
    requires
        v.roots.dom() == v.union(),
    ensures
        v.removed_all(Set::empty()) == v,
{
    assert(v.contributors.remove_keys(Set::empty()) =~= v.contributors);
    assert(v.removed_all(Set::empty()).roots =~= v.roots);
}

/// Letting go one after the other comes to letting go together.
pub proof fn lemma_let_go_next(
    v: TrackerView,
    root: PathKey,
    done: Set<Seq<char>>,
    next: Seq<char>,
)
    requires
        v.holders(root).contains(next),
        !done.contains(next),
    ensures
        v.reduced(v.let_go(root, done)).released(next, root) == v.reduced(
            v.let_go(root, done.insert(next)),
        ),
{
    let a = v.reduced(v.let_go(root, done));
    let left = v.contributors[next].remove(root);
    let b = v.let_go(root, done.insert(next));
    assert(a.contributors[next] == v.contributors[next]);
    if left == Map::<PathKey, Seq<char>>::empty() {
        assert(a.contributors.remove(next) =~= b);
    } else {
        assert(a.contributors.insert(next, left) =~= b);
    }
    lemma_union_monotonic(b, a.contributors);
    assert(a.released(next, root).roots =~= v.reduced(b).roots);
}

/// Nobody letting go changes nothing.
pub proof fn lemma_let_go_none(v: TrackerView, root: PathKey)
    requires
        v.roots.dom() == v.union(),
    ensures
        v.reduced(v.let_go(root, Set::empty())) == v,
{
    assert(v.let_go(root, Set::empty()) =~= v.contributors);
    assert(v.reduced(v.contributors).roots =~= v.roots);
}

} // verus!
