//! Answers to permission prompts for reads.

use crate::contributor::{only_ephemeral, root_is_ephemeral, EPHEMERAL_CONTRIBUTOR_PREFIX};
use crate::json::json_view;
use crate::ledger::{PromotedPrefixes, PromotionId};
use crate::order::strictly_sorted;
use crate::path::{keys, lemma_path_strict_total, path_lt, PathKey, UnixPath};
use crate::payload::{permission_read_target, read_target};
use crate::table::{lemma_push_set, lemma_take_next};
use crate::text::{has_prefix, text_lt, views};
use crate::tracker::{listed_keys, RootTracker, TrackerView};
use vstd::prelude::*;

verus! {

/// What the desk decides about a read.
#[derive(Debug)]
pub enum Decision {
    /// It is denied, with this lesson.
    Deny { lesson: String },
    /// It is in declared scope.
    QuietAllow { realpath: UnixPath },
    /// It is below an always-read prefix; `promote` where that prefix is to be
    /// opened for the whole session.
    AlwaysReadAllow { realpath: UnixPath, prefix: UnixPath, promote: bool },
    /// It is out of scope: allowed and recorded.
    LoudAllow { realpath: UnixPath },
}

/// The roots that count as declared: those that not activity alone holds.
pub open spec fn declared_scope(v: TrackerView) -> Set<PathKey> {
    v.union().filter(
        |p: PathKey|
            exists|k: Seq<char>| #[trigger]
                v.holders(p).contains(k) && !has_prefix(k, EPHEMERAL_CONTRIBUTOR_PREFIX@),
    )
}

proof fn lemma_only_ephemeral(sources: Seq<Seq<char>>, holders: Set<Seq<char>>)
    requires
        sources.to_set() == holders,
        exists|k: Seq<char>| holders.contains(k),
    ensures
        only_ephemeral(sources) == !(exists|k: Seq<char>| #[trigger]
            holders.contains(k) && !has_prefix(k, EPHEMERAL_CONTRIBUTOR_PREFIX@)),
{
    let some = choose|k: Seq<char>| holders.contains(k);
    assert(sources.to_set().contains(some));
    let at = choose|i: int| 0 <= i < sources.len() && sources[i] == some;
    if only_ephemeral(sources) {
        assert forall|k: Seq<char>| #[trigger] holders.contains(k) implies has_prefix(
            k,
            EPHEMERAL_CONTRIBUTOR_PREFIX@,
        ) by {
            assert(sources.to_set().contains(k));
            let i = choose|i: int| 0 <= i < sources.len() && sources[i] == k;
        }
    } else {
        let i = choose|i: int|
            0 <= i < sources.len() && !has_prefix(
                #[trigger] sources[i],
                EPHEMERAL_CONTRIBUTOR_PREFIX@,
            );
        assert(sources.to_set().contains(sources[i]));
        assert(holders.contains(sources[i]));
    }
}

/// The roots that count as declared, in path order.
pub fn declared_roots(tracker: &RootTracker) -> (r: Vec<UnixPath>)
    requires
        tracker.wf(),
    ensures
        scope_listed(r@, tracker@),
{
    let listed = tracker.list_roots();
    let ghost all = listed_keys(listed@);
    let ghost v = tracker@;
    let ghost own = |p: PathKey|
        exists|k: Seq<char>| #[trigger]
            v.holders(p).contains(k) && !has_prefix(k, EPHEMERAL_CONTRIBUTOR_PREFIX@);
    let mut r: Vec<UnixPath> = Vec::new();
    let mut i: usize = 0;
    proof {
        lemma_path_strict_total();
        assert(keys(r@).to_set() =~= all.take(0).to_set().filter(own));
    }
    while i < listed.len()
        invariant
            i <= listed.len(),
            all == listed_keys(listed@),
            v == tracker@,
            own == (|p: PathKey|
                exists|k: Seq<char>| #[trigger]
                    v.holders(p).contains(k) && !has_prefix(k, EPHEMERAL_CONTRIBUTOR_PREFIX@)),
            strictly_sorted(all, path_lt()),
            all.to_set() == v.union(),
            forall|j: int|
                0 <= j < listed.len() ==> strictly_sorted(
                    views((#[trigger] listed[j]).1@),
                    text_lt(),
                ) && views(listed[j].1@).to_set() == v.holders(listed[j].0.key()) && listed[j].0@
                    == v.listed_as(listed[j].0.key(), views(listed[j].1@)),
            forall|j: int| 0 <= j < r.len() ==> v.lists_as((#[trigger] r[j])@),
            strictly_sorted(keys(r@), path_lt()),
            keys(r@).to_set() == all.take(i as int).to_set().filter(own),
        decreases listed.len() - i,
    {
        let ghost before = keys(r@);
        let ghost id = all[i as int];
        proof {
            lemma_take_next(all, i as int);
            assert(id == listed@[i as int].0.key());
            assert(all.to_set().contains(id));
            let k = choose|k: Seq<char>| #[trigger]
                v.contributors.dom().contains(k) && v.contributors[k].dom().contains(id);
            assert(v.holders(id).contains(k));
            lemma_only_ephemeral(views(listed@[i as int].1@), v.holders(id));
        }
        if !root_is_ephemeral(listed[i].1.as_slice()) {
            r.push(listed[i].0.duplicate());
            proof {
                assert(v.lists_as(listed[i as int].0@)) by {
                    assert(views(listed[i as int].1@).to_set() == v.holders(id));
                }
                assert(keys(r@) =~= before.push(id));
                lemma_push_set(before, id);
                assert(all.take(i + 1).to_set().filter(own) =~= all.take(i as int).to_set().filter(
                    own,
                ).insert(id));
                assert forall|a: int, b: int| 0 <= a < b < keys(r@).len() implies #[trigger] path_lt()(
                    keys(r@)[a],
                    keys(r@)[b],
                ) by {
                    if b == before.len() {
                        assert(before.to_set().contains(before[a]));
                        assert(all.take(i as int).contains(before[a]));
                        let c = choose|c: int|
                            0 <= c < all.take(i as int).len() && all.take(i as int)[c] == before[a];
                        assert(path_lt()(all[c], all[i as int]));
                    } else {
                        assert(path_lt()(before[a], before[b]));
                    }
                }
            }
        } else {
            assert(all.take(i + 1).to_set().filter(own) =~= all.take(i as int).to_set().filter(
                own,
            ));
        }
        i += 1;
    }
    assert(all.take(listed.len() as int) =~= all);
    assert(declared_scope(v) =~= all.to_set().filter(own));
    r
}

/// The scope in which reads are answered quietly.
pub struct ReadScope {
    pub prefixes: Vec<UnixPath>,
    pub always_read: Vec<UnixPath>,
}

/// The paths are the declared roots, in path order and as the listing spells them.
pub open spec fn scope_listed(v: Seq<UnixPath>, t: TrackerView) -> bool {
    &&& strictly_sorted(keys(v), path_lt())
    &&& keys(v).to_set() == declared_scope(t)
    &&& forall|i: int| 0 <= i < v.len() ==> t.lists_as((#[trigger] v[i])@)
}

/// Builds the declared scope: the declared roots, or what `expanded` made of
/// them where companions are configured, then the directory of the agents'
/// worktrees; and the always-read prefixes.
pub fn build_read_scope(
    tracker: Option<&RootTracker>,
    expanded: Option<Vec<UnixPath>>,
    agents_dir: UnixPath,
    always_read: Vec<UnixPath>,
) -> (r: ReadScope)
    requires
        tracker is Some ==> tracker->0.wf(),
    ensures
        r.always_read == always_read,
        r.prefixes@.len() > 0,
        r.prefixes@.last() == agents_dir,
        match expanded {
            Some(e) => r.prefixes@.drop_last() == e@,
            None => match tracker {
                Some(t) => scope_listed(r.prefixes@.drop_last(), t@),
                None => r.prefixes@.len() == 1,
            },
        },
{
    let mut prefixes: Vec<UnixPath> = match expanded {
        Some(e) => e,
        None => match tracker {
            Some(t) => declared_roots(t),
            None => Vec::new(),
        },
    };
    let ghost before = prefixes@;
    prefixes.push(agents_dir);
    assert(prefixes@.drop_last() =~= before);
    ReadScope { prefixes, always_read }
}

/// The decision that stands in a session: an always-read prefix is promoted the
/// first time only.
pub open spec fn settled(d: Decision, promoted: Set<PromotionId>, session: Seq<char>) -> Decision {
    match d {
        Decision::AlwaysReadAllow { realpath, prefix, promote } => Decision::AlwaysReadAllow {
            realpath,
            prefix,
            promote: !promoted.contains((session, prefix@)),
        },
        other => other,
    }
}

/// The ledger after a decision.
pub open spec fn promoted_after(
    d: Decision,
    promoted: Set<PromotionId>,
    session: Seq<char>,
) -> Set<PromotionId> {
    match d {
        Decision::AlwaysReadAllow { prefix, .. } => promoted.insert((session, prefix@)),
        _ => promoted,
    }
}

/// Settles the desk's decision on a forwarded permission request. Nothing is
/// answered where the payload asks for no read, and the ledger is then left
/// alone. Returns the decision and the tool.
pub fn resolve_permission_decision(
    hp: &serde_json::Value,
    desk: Decision,
    promoted: &mut PromotedPrefixes,
    session_id: &str,
) -> (r: Option<(Decision, String)>)
    requires
        old(promoted).wf(),
    ensures
        final(promoted).wf(),
        match read_target(json_view(*hp)) {
            None => r is None && final(promoted)@ == old(promoted)@,
            Some((tool, path)) => r matches Some((d, t)) && t@ == tool && d == settled(
                desk,
                old(promoted)@,
                session_id@,
            ) && final(promoted)@ == promoted_after(desk, old(promoted)@, session_id@),
        },
{
    match permission_read_target(hp) {
        None => None,
        Some((tool, _path)) => {
            let decision = match desk {
                Decision::AlwaysReadAllow { realpath, prefix, promote: _ } => {
                    let first = promoted.promote(session_id, &prefix);
                    Decision::AlwaysReadAllow { realpath, prefix, promote: first }
                },
                other => other,
            };
            Some((decision, tool))
        },
    }
}

/// The read to record loudly, nothing where the decision is any other.
pub fn record_loud_read(decision: &Decision) -> (r: Option<&UnixPath>)
    ensures
        match decision {
            Decision::LoudAllow { realpath } => r == Some(realpath),
            _ => r is None,
        },
{
    match decision {
        Decision::LoudAllow { realpath } => Some(realpath),
        _ => None,
    }
}

} // verus!
