//! Worktrees: who owns them, when they are disposed of, and what is said about
//! them.

use crate::ephemeral::{contains_path, spellings};
use crate::json::{json_view, str_field, flag_field, str_option, value_null, JsonView, ObjectBuilder};
use crate::mounts::{lists_mounts, WorktreeMounts, WorktreeMountsView};
use crate::path::{components, key_file_name, keys, PathKey, UnixPath};
use crate::payload::{background_tasks, running_background_agent_ids, running_ids};
use crate::registry::{meta_keys, RegistryView, WorktreeMeta, WorktreeRegistry};
use crate::table::{lemma_push_set, lemma_take_next};
use crate::text::{concat2, concat3, contains_text, decimal, decimal_text, join_lines, join_lines_text, text_eq, views};
use crate::tracker::{lemma_let_go_next, lemma_let_go_none, text_option, RootTracker};
use vstd::prelude::*;

verus! {

/// The class of worktrees that people make for themselves.
pub const WORKTREE_CLASS_FEAT: &'static str = "feat";

/// The owner of a worktree: the name of its directory, else its spelling.
pub open spec fn owner_label(worktree: Seq<char>) -> Seq<char> {
    match key_file_name(components(worktree)) {
        Some(name) => name,
        None => worktree,
    }
}

/// The owner of a worktree, from the name of its directory.
pub fn worktree_owner_label(worktree: &UnixPath) -> (r: String)
    ensures
        r@ == owner_label(worktree@),
{
    match worktree.file_name() {
        Some(name) => name,
        None => worktree.as_str().to_owned(),
    }
}

/// An agent owns the worktree whose directory bears its id.
pub open spec fn owns(agent: Seq<char>, worktree: Seq<char>) -> bool {
    agent.len() > 0 && agent == owner_label(worktree)
}

/// Whether the agent that stops owns the worktree.
pub fn stop_owns_worktree(stopping_agent_id: &str, worktree: &UnixPath) -> (r: bool)
    ensures
        r == owns(stopping_agent_id@, worktree@),
{
    !stopping_agent_id.is_empty() && text_eq(
        stopping_agent_id,
        worktree_owner_label(worktree).as_str(),
    )
}

/// What is recorded of a dirty worktree that is kept.
pub open spec fn kept_message(worktree: Seq<char>) -> Seq<char> {
    "subagent `"@ + owner_label(worktree) + "` left a dirty worktree at `"@ + worktree
        + "` (kept; land its work or `catenary worktree rm` it)"@
}

/// Records a dirty worktree that is kept, once per worktree.
pub fn surface_dirty_kept(registry: &mut WorktreeRegistry, worktree: &UnixPath) -> (r: Option<
    String,
>)
    requires
        old(registry).wf(),
    ensures
        final(registry).wf(),
        final(registry)@ == (RegistryView {
            surfaced: old(registry)@.surfaced.insert(worktree.key()),
            ..old(registry)@
        }),
        text_option(r) == if old(registry)@.surfaced.contains(worktree.key()) {
            None
        } else {
            Some(kept_message(worktree@))
        },
{
    if !registry.mark_surfaced(worktree) {
        return None;
    }
    let mut m = concat2("subagent `", worktree_owner_label(worktree).as_str());
    m.append("` left a dirty worktree at `");
    m.append(worktree.as_str());
    m.append("` (kept; land its work or `catenary worktree rm` it)");
    Some(m)
}

/// What became of a worktree that was to be disposed of.
#[derive(Debug)]
pub enum Disposition {
    /// It is gone.
    Disposed,
    /// Only a remnant was there, and is gone.
    Remnant,
    /// It is dirty and stays.
    KeptDirty { reason: String },
    /// The removal was refused.
    Refused { reason: String },
    /// It is none of the daemon's worktrees.
    NotOurs,
}

impl Disposition {
    /// Whether the worktree is gone.
    pub open spec fn gone(self) -> bool {
        self is Disposed || self is Remnant
    }

    /// Whether the worktree is gone.
    pub fn is_disposed(&self) -> (r: bool)
        ensures
            r == self.gone(),
    {
        match self {
            Disposition::Disposed => true,
            Disposition::Remnant => true,
            _ => false,
        }
    }
}

/// The worktree to dispose of, nothing where there is none: its record is the
/// registered one or else that of its sidecar, and a stopping agent disposes of
/// its own worktree only.
pub fn worktree_to_dispose(
    registry: &WorktreeRegistry,
    sidecar: Option<WorktreeMeta>,
    stopping_agent_id: Option<&str>,
    worktree: &UnixPath,
) -> (r: Option<WorktreeMeta>)
    requires
        registry.wf(),
    ensures
        r == if stopping_agent_id is Some && !owns(stopping_agent_id->0@, worktree@) {
            None
        } else if registry@.metas.dom().contains(worktree.key()) {
            Some(registry@.metas[worktree.key()])
        } else {
            sidecar
        },
{
    if let Some(agent) = stopping_agent_id {
        if !stop_owns_worktree(agent, worktree) {
            return None;
        }
    }
    match registry.get(worktree) {
        Some(meta) => Some(meta),
        None => sidecar,
    }
}

/// Draws the consequences of a disposal: a worktree that is gone is forgotten; a
/// dirty one that is kept is recorded once, unless the host asked for the
/// removal. Returns the record.
pub fn worktree_disposed(
    registry: &mut WorktreeRegistry,
    worktree: &UnixPath,
    disposition: &Disposition,
    host_initiated: bool,
) -> (r: Option<String>)
    requires
        old(registry).wf(),
    ensures
        final(registry).wf(),
        final(registry)@ == if disposition.gone() {
            old(registry)@.forgotten(worktree.key())
        } else if disposition is KeptDirty && !host_initiated {
            RegistryView {
                surfaced: old(registry)@.surfaced.insert(worktree.key()),
                ..old(registry)@
            }
        } else {
            old(registry)@
        },
        text_option(r) == if disposition is KeptDirty && !host_initiated && !old(
            registry,
        )@.surfaced.contains(worktree.key()) {
            Some(kept_message(worktree@))
        } else {
            None
        },
{
    match disposition {
        Disposition::Disposed => {
            registry.forget(worktree);
            None
        },
        Disposition::Remnant => {
            registry.forget(worktree);
            None
        },
        Disposition::KeptDirty { reason: _ } => if host_initiated {
            None
        } else {
            surface_dirty_kept(registry, worktree)
        },
        _ => None,
    }
}

/// The paths one below the other, indented.
pub open spec fn indented(paths: Seq<Seq<char>>) -> Seq<char> {
    join_lines(paths.map_values(|p: Seq<char>| "  "@ + p))
}

fn indented_list(paths: &[UnixPath]) -> (r: String)
    ensures
        r@ == indented(spellings(paths@)),
{
    let mut lines: Vec<String> = Vec::new();
    let mut i: usize = 0;
    while i < paths.len()
        invariant
            i <= paths.len(),
            lines.len() == i,
            forall|j: int| 0 <= j < i ==> (#[trigger] lines[j])@ == "  "@ + paths[j]@,
        decreases paths.len() - i,
    {
        lines.push(concat2("  ", paths[i].as_str()));
        i += 1;
    }
    assert(views(lines@) =~= spellings(paths@).map_values(|p: Seq<char>| "  "@ + p));
    join_lines_text(&lines)
}

/// The advice about worktrees that are merged.
pub open spec fn merged_message(paths: Seq<Seq<char>>) -> Seq<char> {
    if paths.len() == 1 {
        "1 worktree is already merged into main; `catenary worktree rm` it:\n"@ + indented(paths)
    } else {
        decimal(paths.len())
            + " worktrees are already merged into main; `catenary worktree rm` them:\n"@ + indented(
            paths,
        )
    }
}

/// Renders the advice about worktrees that are merged.
pub fn merged_nudge_message(merged: &[UnixPath]) -> (r: String)
    ensures
        r@ == merged_message(spellings(merged@)),
{
    let list = indented_list(merged);
    if merged.len() == 1 {
        concat2(
            "1 worktree is already merged into main; `catenary worktree rm` it:\n",
            list.as_str(),
        )
    } else {
        let mut m = decimal_text(merged.len() as u64);
        m.append(" worktrees are already merged into main; `catenary worktree rm` them:\n");
        m.append(list.as_str());
        m
    }
}

/// The reminder of lingering worktrees.
pub open spec fn linger_message(paths: Seq<Seq<char>>) -> Seq<char> {
    decimal(paths.len()) + " agent "@ + (if paths.len() == 1 {
        "worktree"@
    } else {
        "worktrees"@
    }) + " linger (root unmounted, owner not running):\n"@ + indented(paths)
        + "\nLand their work or `catenary worktree rm <path>` each. (Nagged once per worktree.)"@
}

fn linger_text(paths: &[UnixPath]) -> (r: String)
    ensures
        r@ == linger_message(spellings(paths@)),
{
    let list = indented_list(paths);
    let mut m = decimal_text(paths.len() as u64);
    m.append(" agent ");
    if paths.len() == 1 {
        m.append("worktree");
    } else {
        m.append("worktrees");
    }
    m.append(" linger (root unmounted, owner not running):\n");
    m.append(list.as_str());
    m.append(
        "\nLand their work or `catenary worktree rm <path>` each. (Nagged once per worktree.)",
    );
    m
}

/// The agent a worktree belongs to.
pub open spec fn meta_owner(meta: WorktreeMeta) -> Seq<char> {
    match meta.agent_id {
        Some(id) => id@,
        None => meta.name@,
    }
}

/// Whether the agent of a worktree is among the running ones.
pub open spec fn owner_runs(meta: WorktreeMeta, running: Seq<Seq<char>>) -> bool {
    ||| running.contains(meta_owner(meta))
    ||| running.contains(meta.name@)
    ||| running.contains("agent-"@ + meta_owner(meta))
}

/// The roots of the mounted worktrees.
pub open spec fn mounted_keys(m: WorktreeMountsView) -> Set<PathKey> {
    Set::new(
        |p: PathKey|
            exists|k: Seq<char>| #[trigger] m.dom().contains(k) && components(m[k].root) == p,
    )
}

/// The running agents that a stop payload reports.
pub open spec fn reported_running(raw: JsonView) -> Seq<Seq<char>> {
    match background_tasks(raw) {
        Some(JsonView::Array(tasks)) => running_ids(tasks),
        _ => Seq::empty(),
    }
}

/// The worktrees of a session that linger: present, not mounted, their agent not
/// running, and not reminded of yet.
pub open spec fn lingering(
    v: RegistryView,
    session: Seq<char>,
    mounted: Set<PathKey>,
    running: Seq<Seq<char>>,
    present: Set<PathKey>,
) -> Set<PathKey> {
    v.of_session(session).filter(
        |k: PathKey|
            present.contains(k) && !mounted.contains(k) && !owner_runs(v.metas[k], running)
                && !v.nagged.contains(k),
    )
}

/// The worktrees of a session that are merged, present and not reminded of yet.
pub open spec fn merged_lingering(
    v: RegistryView,
    session: Seq<char>,
    merged: Set<PathKey>,
    present: Set<PathKey>,
) -> Set<PathKey> {
    v.of_session(session).filter(
        |k: PathKey| present.contains(k) && merged.contains(k) && !v.nagged.contains(k),
    )
}

/// `paths` names each worktree of the set once, as its record spells it.
pub open spec fn names_all(
    paths: Seq<Seq<char>>,
    set: Set<PathKey>,
    metas: Map<PathKey, WorktreeMeta>,
) -> bool {
    let ks = paths.map_values(|p: Seq<char>| components(p));
    &&& ks.no_duplicates()
    &&& ks.to_set() == set
    &&& forall|i: int|
        0 <= i < paths.len() ==> (#[trigger] paths[i]) == metas[components(paths[i])].worktree@
}

/// The paths are spelled as in the records.
spec fn spelled_as_recorded(v: Seq<UnixPath>, metas: Map<PathKey, WorktreeMeta>) -> bool {
    forall|i: int| 0 <= i < v.len() ==> (#[trigger] v[i])@ == metas[v[i].key()].worktree@
}

/// Reminds of every worktree in the list that has not been reminded of, and
/// returns those.
fn nag_all(registry: &mut WorktreeRegistry, candidates: &Vec<UnixPath>) -> (r: Vec<UnixPath>)
    requires
        old(registry).wf(),
        keys(candidates@).no_duplicates(),
        spelled_as_recorded(candidates@, old(registry)@.metas),
    ensures
        final(registry).wf(),
        final(registry)@ == (RegistryView {
            nagged: old(registry)@.nagged.union(keys(candidates@).to_set()),
            ..old(registry)@
        }),
        keys(r@).no_duplicates(),
        keys(r@).to_set() == keys(candidates@).to_set().difference(old(registry)@.nagged),
        spelled_as_recorded(r@, old(registry)@.metas),
{
    let ghost all = keys(candidates@);
    let ghost told = old(registry)@.nagged;
    let mut r: Vec<UnixPath> = Vec::new();
    let mut i: usize = 0;
    proof {
        assert(all.take(0).to_set() =~= Set::empty());
        assert(keys(r@).to_set() =~= all.take(0).to_set().difference(told));
        assert(registry@ =~= RegistryView {
            nagged: told.union(all.take(0).to_set()),
            ..old(registry)@
        });
    }
    while i < candidates.len()
        invariant
            i <= candidates.len(),
            registry.wf(),
            all == keys(candidates@),
            all.no_duplicates(),
            told == old(registry)@.nagged,
            registry@ == (RegistryView {
                nagged: told.union(all.take(i as int).to_set()),
                ..old(registry)@
            }),
            keys(r@).no_duplicates(),
            keys(r@).to_set() == all.take(i as int).to_set().difference(told),
            spelled_as_recorded(candidates@, old(registry)@.metas),
            spelled_as_recorded(r@, old(registry)@.metas),
        decreases candidates.len() - i,
    {
        let ghost before = keys(r@);
        let ghost id = all[i as int];
        proof {
            lemma_take_next(all, i as int);
            assert(id == candidates@[i as int].key());
            assert(told.union(all.take(i + 1).to_set()) =~= told.union(
                all.take(i as int).to_set(),
            ).insert(id));
        }
        if registry.mark_nagged(&candidates[i]) {
            r.push(candidates[i].duplicate());
            proof {
                assert(keys(r@) =~= before.push(id));
                assert(!before.to_set().contains(id));
                lemma_push_set(before, id);
                assert(all.take(i + 1).to_set().difference(told) =~= all.take(
                    i as int,
                ).to_set().difference(told).insert(id));
            }
        } else {
            assert(all.take(i + 1).to_set().difference(told) =~= all.take(
                i as int,
            ).to_set().difference(told));
        }
        i += 1;
    }
    assert(all.take(candidates.len() as int) =~= all);
    r
}

fn running_owner(meta: &WorktreeMeta, running: &Vec<String>) -> (r: bool)
    ensures
        r == owner_runs(*meta, views(running@)),
{
    let owner = match &meta.agent_id {
        Some(id) => id.as_str(),
        None => meta.name.as_str(),
    };
    contains_text(running, owner) || contains_text(running, meta.name.as_str()) || contains_text(
        running,
        concat2("agent-", owner).as_str(),
    )
}

fn mounted_paths(mounts: &WorktreeMounts) -> (r: Vec<UnixPath>)
    requires
        mounts.wf(),
    ensures
        keys(r@).to_set() == mounted_keys(mounts@),
{
    let listed = mounts.mounted_roots();
    let ghost names = choose|names: Seq<Seq<char>>| lists_mounts(listed@, names, mounts@);
    let mut r: Vec<UnixPath> = Vec::new();
    let mut i: usize = 0;
    while i < listed.len()
        invariant
            i <= listed.len(),
            r.len() == i,
            forall|j: int| 0 <= j < i ==> (#[trigger] r[j])@ == listed[j].0@,
        decreases listed.len() - i,
    {
        r.push(listed[i].0.duplicate());
        i += 1;
    }
    proof {
        let m = mounts@;
        assert forall|p: PathKey| keys(r@).to_set().contains(p) == mounted_keys(m).contains(p) by {
            if keys(r@).contains(p) {
                let j = choose|j: int| 0 <= j < keys(r@).len() && keys(r@)[j] == p;
                assert(listed@[j].0@ == m[names[j]].root);
                assert(names.to_set().contains(names[j]));
                assert(m.dom().contains(names[j]) && components(m[names[j]].root) == p);
            }
            if mounted_keys(m).contains(p) {
                let k = choose|k: Seq<char>| #[trigger]
                    m.dom().contains(k) && components(m[k].root) == p;
                assert(names.to_set().contains(k));
                let j = choose|j: int| 0 <= j < names.len() && names[j] == k;
                assert(listed@[j].0@ == m[names[j]].root);
                assert(keys(r@)[j] == p);
            }
        }
        assert(keys(r@).to_set() =~= mounted_keys(m));
    }
    r
}

/// The reminder of the session's lingering worktrees, nothing where none linger.
/// `present` lists the paths that exist.
pub fn lingering_worktree_nag(
    registry: &mut WorktreeRegistry,
    mounts: &WorktreeMounts,
    session_id: &str,
    raw: &serde_json::Value,
    present: &[UnixPath],
) -> (r: Option<String>)
    requires
        old(registry).wf(),
        mounts.wf(),
    ensures
        final(registry).wf(),
        ({
            let set = lingering(
                old(registry)@,
                session_id@,
                mounted_keys(mounts@),
                reported_running(json_view(*raw)),
                keys(present@).to_set(),
            );
            &&& final(registry)@ == (RegistryView {
                nagged: old(registry)@.nagged.union(set),
                ..old(registry)@
            })
            &&& match r {
                None => set == Set::<PathKey>::empty(),
                Some(m) => set != Set::<PathKey>::empty() && exists|paths: Seq<Seq<char>>| #[trigger]
                    names_all(paths, set, old(registry)@.metas) && m@ == linger_message(paths),
            }
        }),
{
    let ghost v = registry@;
    let running = running_background_agent_ids(raw);
    let mounted = mounted_paths(mounts);
    let metas = registry.metas_for_session(session_id);
    let ghost all = meta_keys(metas@);
    let ghost fits = |k: PathKey|
        keys(present@).contains(k) && !keys(mounted@).contains(k) && !owner_runs(
            v.metas[k],
            views(running@),
        );
    let mut candidates: Vec<UnixPath> = Vec::new();
    let mut i: usize = 0;
    assert(keys(candidates@).to_set() =~= all.take(0).to_set().filter(fits));
    while i < metas.len()
        invariant
            i <= metas.len(),
            registry.wf(),
            registry@ == v,
            all == meta_keys(metas@),
            all.no_duplicates(),
            forall|j: int| 0 <= j < metas.len() ==> (#[trigger] metas[j])
                == v.metas[metas[j].worktree.key()],
            fits == (|k: PathKey|
                keys(present@).contains(k) && !keys(mounted@).contains(k) && !owner_runs(
                    v.metas[k],
                    views(running@),
                )),
            keys(candidates@).no_duplicates(),
            keys(candidates@).to_set() == all.take(i as int).to_set().filter(fits),
            spelled_as_recorded(candidates@, v.metas),
        decreases metas.len() - i,
    {
        let meta = &metas[i];
        let ghost before = keys(candidates@);
        let ghost id = all[i as int];
        proof {
            lemma_take_next(all, i as int);
            assert(id == meta.worktree.key());
        }
        if contains_path(present, &meta.worktree) && !contains_path(
            mounted.as_slice(),
            &meta.worktree,
        ) && !running_owner(meta, &running) {
            candidates.push(meta.worktree.duplicate());
            proof {
                assert(keys(candidates@) =~= before.push(id));
                assert(!before.to_set().contains(id));
                lemma_push_set(before, id);
                assert(all.take(i + 1).to_set().filter(fits) =~= all.take(i as int).to_set().filter(
                    fits,
                ).insert(id));
            }
        } else {
            assert(all.take(i + 1).to_set().filter(fits) =~= all.take(i as int).to_set().filter(
                fits,
            ));
        }
        i += 1;
    }
    let told = nag_all(registry, &candidates);
    proof {
        assert(all.take(metas.len() as int) =~= all);
        let set = lingering(
            v,
            session_id@,
            mounted_keys(mounts@),
            views(running@),
            keys(present@).to_set(),
        );
        assert forall|k: PathKey| set.contains(k) == keys(told@).to_set().contains(k) by {
            assert(keys(mounted@).to_set().contains(k) == keys(mounted@).contains(k));
        }
        assert(set =~= keys(told@).to_set());
        assert(v.nagged.union(keys(candidates@).to_set()) =~= v.nagged.union(set));
        assert(names_all(spellings(told@), set, v.metas)) by {
            assert(spellings(told@).map_values(|p: Seq<char>| components(p)) =~= keys(told@));
        }
        if told.len() > 0 {
            assert(set.contains(keys(told@)[0]));
        }
    }
    if told.len() == 0 {
        return None;
    }
    Some(linger_text(told.as_slice()))
}

/// The advice about the session's merged worktrees, nothing where there are
/// none. `present` lists the paths that exist, `merged` those whose branch is
/// merged.
pub fn merged_worktree_nudge(
    registry: &mut WorktreeRegistry,
    session_id: &str,
    present: &[UnixPath],
    merged: &[UnixPath],
) -> (r: Option<String>)
    requires
        old(registry).wf(),
    ensures
        final(registry).wf(),
        ({
            let set = merged_lingering(
                old(registry)@,
                session_id@,
                keys(merged@).to_set(),
                keys(present@).to_set(),
            );
            &&& final(registry)@ == (RegistryView {
                nagged: old(registry)@.nagged.union(set),
                ..old(registry)@
            })
            &&& match r {
                None => set == Set::<PathKey>::empty(),
                Some(m) => set != Set::<PathKey>::empty() && exists|paths: Seq<Seq<char>>| #[trigger]
                    names_all(paths, set, old(registry)@.metas) && m@ == merged_message(paths),
            }
        }),
{
    let ghost v = registry@;
    let metas = registry.metas_for_session(session_id);
    let ghost all = meta_keys(metas@);
    let ghost fits = |k: PathKey| keys(present@).contains(k) && keys(merged@).contains(k);
    let mut candidates: Vec<UnixPath> = Vec::new();
    let mut i: usize = 0;
    assert(keys(candidates@).to_set() =~= all.take(0).to_set().filter(fits));
    while i < metas.len()
        invariant
            i <= metas.len(),
            registry.wf(),
            registry@ == v,
            all == meta_keys(metas@),
            all.no_duplicates(),
            fits == (|k: PathKey| keys(present@).contains(k) && keys(merged@).contains(k)),
            forall|j: int| 0 <= j < metas.len() ==> (#[trigger] metas[j])
                == v.metas[metas[j].worktree.key()],
            keys(candidates@).no_duplicates(),
            keys(candidates@).to_set() == all.take(i as int).to_set().filter(fits),
            spelled_as_recorded(candidates@, v.metas),
        decreases metas.len() - i,
    {
        let meta = &metas[i];
        let ghost before = keys(candidates@);
        let ghost id = all[i as int];
        proof {
            lemma_take_next(all, i as int);
            assert(id == meta.worktree.key());
        }
        if contains_path(present, &meta.worktree) && contains_path(merged, &meta.worktree) {
            candidates.push(meta.worktree.duplicate());
            proof {
                assert(keys(candidates@) =~= before.push(id));
                assert(!before.to_set().contains(id));
                lemma_push_set(before, id);
                assert(all.take(i + 1).to_set().filter(fits) =~= all.take(i as int).to_set().filter(
                    fits,
                ).insert(id));
            }
        } else {
            assert(all.take(i + 1).to_set().filter(fits) =~= all.take(i as int).to_set().filter(
                fits,
            ));
        }
        i += 1;
    }
    let told = nag_all(registry, &candidates);
    proof {
        assert(all.take(metas.len() as int) =~= all);
        let set = merged_lingering(v, session_id@, keys(merged@).to_set(), keys(present@).to_set());
        assert(set =~= keys(told@).to_set());
        assert(v.nagged.union(keys(candidates@).to_set()) =~= v.nagged.union(set));
        assert(names_all(spellings(told@), set, v.metas)) by {
            assert(spellings(told@).map_values(|p: Seq<char>| components(p)) =~= keys(told@));
        }
        if told.len() > 0 {
            assert(set.contains(keys(told@)[0]));
        }
    }
    if told.len() == 0 {
        return None;
    }
    Some(merged_nudge_message(told.as_slice()))
}

/// Retires a root: every contributor that declares it lets go of it, and their
/// mount states are forgotten. Returns those contributors.
pub fn retire_root(
    tracker: &mut RootTracker,
    worktrees: &mut WorktreeMounts,
    root: &UnixPath,
) -> (r: Vec<String>)
    requires
        old(tracker).wf(),
        old(worktrees).wf(),
    ensures
        final(tracker).wf(),
        final(worktrees).wf(),
        views(r@).no_duplicates(),
        views(r@).to_set() == old(tracker)@.holders(root.key()),
        final(tracker)@ == old(tracker)@.retired(root.key()),
        final(worktrees)@ == old(worktrees)@.remove_keys(old(tracker)@.holders(root.key())),
{
    let ghost v = tracker@;
    let ghost k = root.key();
    let holders = tracker.contributors_of_root(root);
    let ghost all = views(holders@);
    let mut i: usize = 0;
    proof {
        assert(all.take(0).to_set() =~= Set::empty());
        lemma_let_go_none(v, k);
        assert(worktrees@.remove_keys(Set::empty()) =~= worktrees@);
    }
    while i < holders.len()
        invariant
            i <= holders.len(),
            tracker.wf(),
            worktrees.wf(),
            k == root.key(),
            all == views(holders@),
            all.no_duplicates(),
            all.to_set() == v.holders(k),
            tracker@ == v.reduced(v.let_go(k, all.take(i as int).to_set())),
            worktrees@ == old(worktrees)@.remove_keys(all.take(i as int).to_set()),
        decreases holders.len() - i,
    {
        let ghost done = all.take(i as int).to_set();
        proof {
            lemma_take_next(all, i as int);
            assert(all[i as int] == holders@[i as int]@);
            assert(all.to_set().contains(all[i as int]));
            lemma_let_go_next(v, k, done, all[i as int]);
            assert(old(worktrees)@.remove_keys(all.take(i + 1).to_set()) =~= old(
                worktrees,
            )@.remove_keys(done).remove(all[i as int]));
        }
        let _released = tracker.remove_root(holders[i].as_str(), root);
        worktrees.remove(holders[i].as_str());
        i += 1;
    }
    assert(all.take(holders.len() as int) =~= all);
    holders
}

/// Tears down the mount under one contributor.
pub fn reap_worktree_root(
    tracker: &mut RootTracker,
    worktrees: &mut WorktreeMounts,
    contributor: &str,
)
    requires
        old(tracker).wf(),
        old(worktrees).wf(),
    ensures
        final(tracker).wf(),
        final(worktrees).wf(),
        final(tracker)@ == old(tracker)@.removed(contributor@),
        final(worktrees)@ == old(worktrees)@.remove(contributor@),
{
    tracker.remove_contributor(contributor);
    worktrees.remove(contributor);
}

/// What git says about a worktree in a listing.
pub struct RowFacts {
    /// The directory is there.
    pub present: bool,
    /// Its working tree has changes.
    pub status_dirty: bool,
    /// It could be disposed of without losing work.
    pub disposable_clean: bool,
    /// How far its branch is behind and ahead of its upstream.
    pub behind_ahead: Option<(u64, u64)>,
}

/// The state of a worktree's root: `unmounted`, or, as some mount of it is
/// blocked or not, `blocked` or `mounted`.
pub open spec fn root_state(
    m: WorktreeMountsView,
    worktree: PathKey,
    present: bool,
    state: Seq<char>,
) -> bool {
    if present && mounted_keys(m).contains(worktree) {
        exists|k: Seq<char>| #[trigger]
            m.dom().contains(k) && components(m[k].root) == worktree && state == if m[k].blocked {
                "blocked"@
            } else {
                "mounted"@
            }
    } else {
        state == "unmounted"@
    }
}

/// The members of a row of the listing.
pub open spec fn row_members(
    meta: WorktreeMeta,
    facts: RowFacts,
    state: Seq<char>,
) -> Map<Seq<char>, JsonView> {
    let feat = meta.class@ == WORKTREE_CLASS_FEAT@;
    let creator = if feat {
        "cli"@
    } else {
        meta.session_id@ + " / "@ + meta_owner(meta)
    };
    let dirty = facts.present && if feat {
        facts.status_dirty
    } else {
        !facts.disposable_clean
    };
    let row = map![
        "path"@ => JsonView::Text(meta.worktree@),
        "class"@ => JsonView::Text(meta.class@),
        "creator"@ => JsonView::Text(creator),
        "created_at"@ => JsonView::Text(meta.created_at@),
        "present"@ => JsonView::Bool(facts.present),
        "dirty"@ => JsonView::Bool(dirty),
        "root_state"@ => JsonView::Text(state),
    ];
    match facts.behind_ahead {
        Some((behind, ahead)) => if feat && facts.present {
            row.insert("ahead"@, JsonView::Number(decimal(ahead as nat))).insert(
                "behind"@,
                JsonView::Number(decimal(behind as nat)),
            )
        } else {
            row
        },
        None => row,
    }
}

fn find_root_state(mounts: &WorktreeMounts, worktree: &UnixPath, present: bool) -> (r: &'static str)
    requires
        mounts.wf(),
    ensures
        root_state(mounts@, worktree.key(), present, r@),
{
    if !present {
        return "unmounted";
    }
    let listed = mounts.mounted_roots();
    let ghost names = choose|names: Seq<Seq<char>>| lists_mounts(listed@, names, mounts@);
    let ghost m = mounts@;
    let mut i: usize = 0;
    while i < listed.len()
        invariant
            i <= listed.len(),
            m == mounts@,
            present,
            lists_mounts(listed@, names, m),
            forall|j: int| 0 <= j < i ==> (#[trigger] listed[j]).0.key() != worktree.key(),
        decreases listed.len() - i,
    {
        if listed[i].0.same(worktree) {
            proof {
                assert(listed@[i as int].0@ == m[names[i as int]].root);
                assert(names.to_set().contains(names[i as int]));
                assert(m.dom().contains(names[i as int]) && components(m[names[i as int]].root)
                    == worktree.key());
            }
            return if listed[i].1 {
                "blocked"
            } else {
                "mounted"
            };
        }
        i += 1;
    }
    proof {
        if mounted_keys(m).contains(worktree.key()) {
            let k = choose|k: Seq<char>| #[trigger]
                m.dom().contains(k) && components(m[k].root) == worktree.key();
            assert(names.to_set().contains(k));
            let j = choose|j: int| 0 <= j < names.len() && names[j] == k;
            assert(listed@[j].0@ == m[names[j]].root);
        }
    }
    "unmounted"
}

/// One row of the listing of worktrees.
pub fn worktree_ls_row(meta: &WorktreeMeta, mounts: &WorktreeMounts, facts: &RowFacts) -> (r:
    serde_json::Value)
    requires
        mounts.wf(),
    ensures
        exists|state: Seq<char>| #[trigger]
            root_state(mounts@, meta.worktree.key(), facts.present, state) && json_view(r)
                == JsonView::Object(row_members(*meta, *facts, state)),
{
    let feat = text_eq(meta.class.as_str(), WORKTREE_CLASS_FEAT);
    let dirty = facts.present && if feat {
        facts.status_dirty
    } else {
        !facts.disposable_clean
    };
    let state = find_root_state(mounts, &meta.worktree, facts.present);
    let creator = if feat {
        "cli".to_owned()
    } else {
        let owner = match &meta.agent_id {
            Some(id) => id.as_str(),
            None => meta.name.as_str(),
        };
        concat3(meta.session_id.as_str(), " / ", owner)
    };
    let row = ObjectBuilder::new().text("path", meta.worktree.as_str()).text(
        "class",
        meta.class.as_str(),
    ).text("creator", creator.as_str()).text("created_at", meta.created_at.as_str()).flag(
        "present",
        facts.present,
    ).flag("dirty", dirty).text("root_state", state);
    match facts.behind_ahead {
        Some((behind, ahead)) => if feat && facts.present {
            row.count("ahead", ahead).count("behind", behind).finish()
        } else {
            row.finish()
        },
        None => row.finish(),
    }
}

/// How a worktree is removed.
#[derive(Clone, Copy, Debug, PartialEq, Eq, Structural)]
pub enum Removal {
    /// On the caller's word, whatever its state.
    Asserted,
    /// Only where nothing would be lost.
    Guarded,
}

/// A request to remove a worktree.
#[derive(Debug)]
pub struct RemovalRequest {
    pub path: String,
    pub force: bool,
}

/// The members of an error answer.
pub open spec fn error_members(message: Seq<char>) -> Map<Seq<char>, JsonView> {
    map!["status"@ => JsonView::Text("error"@), "message"@ => JsonView::Text(message)]
}

/// An error answer.
pub fn error_answer(message: &str) -> (r: serde_json::Value)
    ensures
        json_view(r) == JsonView::Object(error_members(message@)),
{
    ObjectBuilder::new().text("status", "error").text("message", message).finish()
}

/// Reads a request to remove a worktree; without a path it is answered at once.
pub fn worktree_rm_request(raw: &serde_json::Value) -> (r: Result<RemovalRequest, serde_json::Value>)
    ensures
        match json_view(*raw).text_field("path"@) {
            Some(path) => r matches Ok(q) && q.path@ == path && q.force == (json_view(*raw).field(
                "force"@,
            ) matches Some(f) && f.boolean() == Some(true)),
            None => r matches Err(a) && json_view(a) == JsonView::Object(
                error_members("missing path"@),
            ),
        },
{
    match str_field(raw, "path") {
        Some(path) => Ok(
            RemovalRequest { path: path.to_owned(), force: flag_field(raw, "force") },
        ),
        None => Err(error_answer("missing path")),
    }
}

/// How the worktree of a request is removed: a forced removal and that of an
/// agent's worktree on the caller's word, any other one guarded. Without a
/// record the worktree is none of the daemon's.
pub fn worktree_rm_removal(meta: Option<&WorktreeMeta>, worktree: &UnixPath, force: bool) -> (r:
    Result<Removal, serde_json::Value>)
    ensures
        match meta {
            None => r matches Err(a) && json_view(a) == JsonView::Object(
                map![
                    "status"@ => JsonView::Text("not_ours"@),
                    "message"@ => JsonView::Text(
                        worktree@ + " is not a Catenary-managed worktree"@,
                    ),
                ],
            ),
            Some(m) => r == Ok::<Removal, serde_json::Value>(
                if !force && m.class@ == WORKTREE_CLASS_FEAT@ {
                    Removal::Guarded
                } else {
                    Removal::Asserted
                },
            ),
        },
{
    match meta {
        None => {
            let message = concat2(worktree.as_str(), " is not a Catenary-managed worktree");
            Err(
                ObjectBuilder::new().text("status", "not_ours").text(
                    "message",
                    message.as_str(),
                ).finish(),
            )
        },
        Some(m) => if !force && text_eq(m.class.as_str(), WORKTREE_CLASS_FEAT) {
            Ok(Removal::Guarded)
        } else {
            Ok(Removal::Asserted)
        },
    }
}

/// The members of the answer to a removal.
pub open spec fn removal_members(
    disposition: Disposition,
    worktree: Seq<char>,
    discarded: Option<Seq<char>>,
) -> Map<Seq<char>, JsonView> {
    match disposition {
        Disposition::KeptDirty { reason } => map![
            "status"@ => JsonView::Text("kept"@),
            "removed"@ => JsonView::Bool(false),
            "message"@ => JsonView::Text(reason@),
        ],
        Disposition::Refused { reason } => map![
            "status"@ => JsonView::Text("refused"@),
            "removed"@ => JsonView::Bool(false),
            "message"@ => JsonView::Text(reason@),
        ],
        Disposition::NotOurs => map![
            "status"@ => JsonView::Text("not_ours"@),
            "removed"@ => JsonView::Bool(false),
            "message"@ => JsonView::Text("not a Catenary-managed worktree"@),
        ],
        _ => map![
            "status"@ => JsonView::Text("ok"@),
            "removed"@ => JsonView::Bool(true),
            "path"@ => JsonView::Text(worktree),
            "discarded"@ => match discarded {
                Some(d) => JsonView::Text(d),
                None => JsonView::Null,
            },
        ],
    }
}

/// The answer to a removal.
pub fn worktree_rm_response(
    disposition: &Disposition,
    worktree: &UnixPath,
    discarded: Option<&str>,
) -> (r: serde_json::Value)
    ensures
        json_view(r) == JsonView::Object(
            removal_members(*disposition, worktree@, str_option(discarded)),
        ),
{
    match disposition {
        Disposition::KeptDirty { reason } => ObjectBuilder::new().text("status", "kept").flag(
            "removed",
            false,
        ).text("message", reason.as_str()).finish(),
        Disposition::Refused { reason } => ObjectBuilder::new().text("status", "refused").flag(
            "removed",
            false,
        ).text("message", reason.as_str()).finish(),
        Disposition::NotOurs => ObjectBuilder::new().text("status", "not_ours").flag(
            "removed",
            false,
        ).text("message", "not a Catenary-managed worktree").finish(),
        _ => {
            let b = ObjectBuilder::new().text("status", "ok").flag("removed", true).text(
                "path",
                worktree.as_str(),
            );
            match discarded {
                Some(d) => b.text("discarded", d).finish(),
                None => b.put("discarded", value_null()).finish(),
            }
        },
    }
}

} // verus!
