//! What sessions and their subagents can rely on.

use crate::boards::{SessionLive, SessionRow, Sessions};
use crate::dispatch::SessionEntered;
use crate::ephemeral::WorktreeFacts;
use crate::hook::{HookCall, HookState, MountedWorktree, SessionEnd, SubagentStop};
use crate::json::{json_view, JsonView};
use crate::laws::lemma_order_without;
use crate::mounts::{WorktreeClockView, WorktreeMountsView};
use crate::path::{components, PathKey, UnixPath};
use crate::payload::extract_session_roots;
use crate::registry::meta_keys;
use crate::root_laws::{declares, declares_the_same, keeps_clocks, keeps_ledgers, keeps_sessions};
use crate::subagents::{subagents_of, without_agent, Subagent, SubagentRegistry, SubagentView, SubagentsView};
use crate::text::{has_prefix, views};
use crate::tracker::only;
use vstd::prelude::*;

verus! {

/// A subagent of this id is recorded under the session.
pub open spec fn at_work(m: SubagentsView, session: Seq<char>, agent: Seq<char>) -> bool {
    m.dom().contains(session) && exists|i: int|
        0 <= i < m[session].len() && (#[trigger] m[session][i]).id == agent
}

/// The mount under this key is as it was.
pub open spec fn mount_unchanged(
    m: WorktreeMountsView,
    n: WorktreeMountsView,
    contributor: Seq<char>,
) -> bool {
    &&& n.dom().contains(contributor) == m.dom().contains(contributor)
    &&& m.dom().contains(contributor) ==> n[contributor] == m[contributor]
}

/// The end of a session takes the roots that its worktrees contributed and nobody
/// else's: every contributor whose key does not begin with the session's prefix
/// declares what it did, and all that one of them declares stays served as it was.
/// The session, its subagents and its mounts are forgotten, those of others stay, and
/// the records of its worktrees are handed over, all of them and no others.
pub proof fn law_the_end_of_a_session_spares_everybody_else(
    state: &mut HookState,
    session: &str,
    r: SessionEnd,
    contributor: Seq<char>,
    root: PathKey,
    other: Seq<char>,
)
    requires
        old(state).wf(),
        old(state)@.tracker is Some,
        old(state)@.connected.no_duplicates(),
        call_ensures(HookState::session_end, (state, session), r),
    ensures
        ({
            let v = old(state)@;
            let w = final(state)@;
            let t = v.tracker->0;
            let own = has_prefix(contributor, "worktree:"@ + session@ + ":"@);
            &&& w.tracker matches Some(u) && {
                &&& own ==> !u.contributors.dom().contains(contributor)
                &&& !own ==> declares_the_same(t, u, contributor)
                &&& !own && declares(t, contributor, root) ==> u.union().contains(root)
                    && u.roots[root] == t.roots[root]
                &&& u.union().contains(root) ==> t.union().contains(root)
            }
            &&& own ==> !w.worktrees.dom().contains(contributor)
            &&& !own ==> mount_unchanged(v.worktrees, w.worktrees, contributor)
            &&& !w.sessions.dom().contains(session@)
            &&& !w.connected.contains(session@)
            &&& !w.subagents.dom().contains(session@)
            &&& other != session@ ==> {
                &&& w.sessions.dom().contains(other) == v.sessions.dom().contains(other)
                &&& v.sessions.dom().contains(other) ==> w.sessions[other] == v.sessions[other]
                &&& w.connected.contains(other) == v.connected.contains(other)
                &&& w.subagents.dom().contains(other) == v.subagents.dom().contains(other)
                &&& v.subagents.dom().contains(other) ==> w.subagents[other] == v.subagents[other]
            }
            &&& w.ephemeral == v.ephemeral
            &&& w.registry == v.registry
            &&& keeps_ledgers(v, w)
            &&& meta_keys(r.worktrees@).contains(root) == (v.registry.metas.dom().contains(root)
                && v.registry.metas[root].session_id@ == session@)
            &&& forall|i: int|
                0 <= i < r.worktrees.len() ==> (#[trigger] r.worktrees[i])
                    == v.registry.metas[r.worktrees[i].worktree.key()]
        }),
{
    let v = old(state)@;
    let w = final(state)@;
    let t = v.tracker->0;
    let u = w.tracker->0;
    let own = has_prefix(contributor, "worktree:"@ + session@ + ":"@);
    if !own && declares(t, contributor, root) {
        assert(t.contributors.dom().contains(contributor)
            && t.contributors[contributor].dom().contains(root));
        assert(u.contributors.dom().contains(contributor)
            && u.contributors[contributor].dom().contains(root));
        assert(u.union().contains(root));
        assert(t.union().contains(root));
    }
    if u.union().contains(root) {
        let k = choose|k: Seq<char>| #[trigger]
            u.contributors.dom().contains(k) && u.contributors[k].dom().contains(root);
        assert(t.contributors.dom().contains(k) && t.contributors[k].dom().contains(root));
    }
    lemma_order_without(v.connected, session@, if other != session@ {
        other
    } else {
        session@.push('x')
    });
    assert(meta_keys(r.worktrees@).to_set().contains(root) == meta_keys(
        r.worktrees@,
    ).contains(root));
}

/// A pinned root outlives every session.
pub proof fn law_pins_outlive_sessions(
    state: &mut HookState,
    session: &str,
    r: SessionEnd,
    root: PathKey,
)
    requires
        old(state).wf(),
        old(state)@.tracker is Some,
        call_ensures(HookState::session_end, (state, session), r),
        declares(old(state)@.tracker->0, "hook"@, root),
    ensures
        final(state)@.tracker matches Some(u) && declares(u, "hook"@, root) && u.union().contains(
            root,
        ),
{
    reveal_strlit("hook");
    reveal_strlit("worktree:");
    assert("hook"@.len() == 4);
    assert("worktree:"@.len() == 9);
    let t = old(state)@.tracker->0;
    let u = final(state)@.tracker->0;
    assert(!has_prefix("hook"@, "worktree:"@ + session@ + ":"@));
    assert(u.contributors.dom().contains("hook"@) && u.contributors["hook"@].dom().contains(root));
    assert(u.union().contains(root));
}

/// A session is known from its first hook on, by what that says: the name of its
/// client, its roots and the time. What later hooks say changes nothing, and the
/// connection is announced once. Nothing else changes.
pub proof fn law_a_session_is_known_by_its_first_hook(
    state: &mut HookState,
    call: &HookCall,
    raw: &serde_json::Value,
    at: String,
    r: SessionEntered,
    roots: Vec<String>,
    other: Seq<char>,
)
    requires
        old(state).wf(),
        call_ensures(HookState::enter_session, (state, call, raw, at), r),
        call_ensures(extract_session_roots, (raw,), roots),
    ensures
        ({
            let v = old(state)@;
            let w = final(state)@;
            let own = call.session_id@;
            &&& w.sessions.dom().contains(own)
            &&& v.sessions.dom().contains(own) ==> w.sessions[own] == v.sessions[own]
                && r.connected is None
            &&& !v.sessions.dom().contains(own) ==> {
                &&& w.sessions[own].client_name == json_view(*raw).text_field("format"@)
                &&& w.sessions[own].roots == views(roots@)
                &&& w.sessions[own].started_at == at@
                &&& r.connected is Some
            }
            &&& other != own ==> {
                &&& w.sessions.dom().contains(other) == v.sessions.dom().contains(other)
                &&& v.sessions.dom().contains(other) ==> w.sessions[other] == v.sessions[other]
            }
            &&& w.connected.len() >= v.connected.len() && w.connected.take(
                v.connected.len() as int,
            ) == v.connected
            &&& w.connected.contains(own)
            &&& w.tracker == v.tracker
            &&& w.subagents == v.subagents
            &&& keeps_clocks(v, w)
            &&& w.registry == v.registry
            &&& keeps_ledgers(v, w)
        }),
{
    let v = old(state)@;
    let w = final(state)@;
    assert(w.connected.take(v.connected.len() as int) =~= v.connected);
    if !v.connected.contains(call.session_id@) {
        assert(w.connected[v.connected.len() as int] == call.session_id@);
    }
}

/// A conversation is told to teach at its first sighting and at no later one, and one
/// conversation's sighting is not another's.
pub proof fn law_the_first_sighting_teaches(
    state: &mut HookState,
    session: &str,
    r: serde_json::Value,
    other: Seq<char>,
)
    requires
        old(state).wf(),
        call_ensures(HookState::first_sighting, (state, session), r),
    ensures
        json_view(r).field("inject"@) == Some(
            JsonView::Bool(!old(state)@.sightings.contains(session@)),
        ),
        final(state)@.sightings.contains(other) == (old(state)@.sightings.contains(other) || other
            == session@),
        final(state)@.tracker == old(state)@.tracker,
        keeps_clocks(old(state)@, final(state)@),
        keeps_sessions(old(state)@, final(state)@),
        final(state)@.registry == old(state)@.registry,
        final(state)@.promoted == old(state)@.promoted,
        final(state)@.nudges == old(state)@.nudges,
        final(state)@.rounds == old(state)@.rounds,
        final(state)@.claim == old(state)@.claim,
{
}

/// A subagent that starts is recorded under its session, once, beside those that are
/// there; one without an id is not recorded. The worktree it starts in is mounted
/// where its project is served, it is not itself the project's own checkout and not
/// served yet: its session's contributor then declares it alone, nobody else's roots
/// change, and its mount is live. Else no root changes.
pub proof fn law_a_subagent_starts_in_its_worktree(
    state: &mut HookState,
    session: &str,
    agent: Option<&str>,
    at: String,
    facts: Option<&WorktreeFacts>,
    r: Option<MountedWorktree>,
    other: Seq<char>,
    another: Seq<char>,
    root: PathKey,
)
    requires
        old(state).wf(),
        old(state)@.tracker is Some,
        call_ensures(HookState::subagent_start, (state, session, agent, at, facts), r),
    ensures
        ({
            let v = old(state)@;
            let w = final(state)@;
            let t = v.tracker->0;
            &&& at_work(w.subagents, other, another) == (at_work(v.subagents, other, another)
                || other == session@ && agent is Some && agent->0@ == another && another.len() > 0)
            &&& r is Some == (facts is Some && t.union().contains(facts->0.project.key())
                && !t.union().contains(facts->0.worktree.key()) && facts->0.project.key()
                != facts->0.worktree.key())
            &&& w.tracker matches Some(u) && {
                &&& r is None ==> u == t && w.worktrees == v.worktrees
                &&& r matches Some(m) ==> {
                    let own = "worktree:"@ + session@ + ":"@ + facts->0.worktree@;
                    &&& m.contributor@ == own
                    &&& m.worktree@ == facts->0.worktree@
                    &&& declares(u, own, root) == (root == facts->0.worktree.key())
                    &&& other != own ==> declares_the_same(t, u, other)
                    &&& u.union().contains(facts->0.worktree.key())
                    &&& w.worktrees.dom().contains(own)
                    &&& w.worktrees[own] == (WorktreeClockView {
                        root: facts->0.worktree@,
                        blocked: false,
                        kept_since: None,
                    })
                    &&& other != own ==> mount_unchanged(v.worktrees, w.worktrees, other)
                }
            }
            &&& w.ephemeral == v.ephemeral
            &&& w.sessions == v.sessions
            &&& w.connected == v.connected
            &&& w.registry == v.registry
            &&& keeps_ledgers(v, w)
        }),
{
    let v = old(state)@;
    let w = final(state)@;
    if let Some(id) = agent {
        lemma_recorded(v.subagents, w.subagents, session@, id@, at@, other, another);
    }
    if r is Some {
        let f = facts->0;
        let own = "worktree:"@ + session@ + ":"@ + f.worktree@;
        let u = w.tracker->0;
        assert(only(f.worktree@).dom() =~= set![f.worktree.key()]);
        assert(u.contributors.dom().contains(own) && u.contributors[own].dom().contains(
            f.worktree.key(),
        ));
        assert(u.union().contains(f.worktree.key()));
    }
}

proof fn lemma_recorded(
    m: SubagentsView,
    n: SubagentsView,
    session: Seq<char>,
    agent: Seq<char>,
    at: Seq<char>,
    other: Seq<char>,
    another: Seq<char>,
)
    requires
        n == crate::hook::subagent_recorded(m, session, agent, at),
    ensures
        at_work(n, other, another) == (at_work(m, other, another) || other == session && another
            == agent && agent.len() > 0),
{
    let list = subagents_of(m, session);
    if agent.len() > 0 && other == session {
        if at_work(m, session, another) {
            let i = choose|i: int| 0 <= i < m[session].len() && (#[trigger] m[session][i]).id
                == another;
            assert(n[session][i].id == another);
        }
        if another == agent && !crate::subagents::has_agent(list, agent) {
            assert(n[session][list.len() as int].id == agent);
        } else if another == agent {
            let i = choose|i: int| 0 <= i < list.len() && (#[trigger] list[i]).id == agent;
            assert(n[session][i].id == agent);
        }
        if at_work(n, session, another) && another != agent {
            let i = choose|i: int| 0 <= i < n[session].len() && (#[trigger] n[session][i]).id
                == another;
            assert(i < list.len());
            assert(m[session][i].id == another);
        }
    }
}

proof fn lemma_without(list: Seq<SubagentView>, id: Seq<char>, other: Seq<char>)
    ensures
        (exists|i: int|
            0 <= i < without_agent(list, id).len() && (#[trigger] without_agent(list, id)[i]).id
                == other) == (other != id && exists|i: int|
            0 <= i < list.len() && (#[trigger] list[i]).id == other),
    decreases list.len(),
{
    if list.len() > 0 {
        let front = list.drop_last();
        lemma_without(front, id, other);
        let before = without_agent(front, id);
        let all = without_agent(list, id);
        if exists|i: int| 0 <= i < before.len() && (#[trigger] before[i]).id == other {
            let i = choose|i: int| 0 <= i < before.len() && (#[trigger] before[i]).id == other;
            assert(all[i].id == other);
            let j = choose|j: int| 0 <= j < front.len() && (#[trigger] front[j]).id == other;
            assert(list[j].id == other);
        }
        if list.last().id == other {
            assert(list[list.len() - 1].id == other);
            if other != id {
                assert(all[before.len() as int].id == other);
            }
        }
        if exists|i: int| 0 <= i < all.len() && (#[trigger] all[i]).id == other {
            let i = choose|i: int| 0 <= i < all.len() && (#[trigger] all[i]).id == other;
            if i < before.len() {
                assert(before[i].id == other);
            }
        }
        if exists|i: int| 0 <= i < list.len() && (#[trigger] list[i]).id == other {
            let i = choose|i: int| 0 <= i < list.len() && (#[trigger] list[i]).id == other;
            if i < front.len() {
                assert(front[i].id == other);
            }
        }
    }
}

proof fn lemma_removed(
    m: SubagentsView,
    n: SubagentsView,
    session: Seq<char>,
    agent: Seq<char>,
    other: Seq<char>,
    another: Seq<char>,
)
    requires
        n == crate::hook::subagent_removed(m, session, agent),
    ensures
        at_work(n, other, another) == (at_work(m, other, another) && !(other == session && another
            == agent && agent.len() > 0)),
{
    if agent.len() > 0 && m.dom().contains(session) && other == session {
        let list = without_agent(m[session], agent);
        lemma_without(m[session], agent, another);
        if list.len() > 0 {
            assert(n[session] == list);
        } else {
            assert(!(exists|i: int| 0 <= i < list.len() && (#[trigger] list[i]).id == another));
        }
    }
}

/// Recording and removing subagents: exactly the one that starts comes, exactly the
/// one that stops goes, and clearing a session clears that session alone.
pub proof fn law_subagents_come_and_go_alone(
    starting: &mut SubagentRegistry,
    stopping: &mut SubagentRegistry,
    clearing: &mut SubagentRegistry,
    session: &str,
    agent: &str,
    at: String,
    other: Seq<char>,
    another: Seq<char>,
)
    requires
        old(starting).wf(),
        old(stopping).wf(),
        old(clearing).wf(),
        call_ensures(SubagentRegistry::start, (starting, session, agent, at), ()),
        call_ensures(SubagentRegistry::stop, (stopping, session, agent), ()),
        call_ensures(SubagentRegistry::clear_session, (clearing, session), ()),
    ensures
        at_work(final(starting)@, other, another) == (at_work(old(starting)@, other, another)
            || other == session@ && another == agent@ && agent@.len() > 0),
        at_work(final(stopping)@, other, another) == (at_work(old(stopping)@, other, another) && !(
        other == session@ && another == agent@ && agent@.len() > 0)),
        at_work(final(clearing)@, other, another) == (at_work(old(clearing)@, other, another)
            && other != session@),
{
    lemma_recorded(old(starting)@, final(starting)@, session@, agent@, at@, other, another);
    lemma_removed(old(stopping)@, final(stopping)@, session@, agent@, other, another);
}

/// The stop of a subagent that nothing holds up takes that subagent from the board and
/// no other, and starts the countdown of the mounts above the worktree it stopped in;
/// every other mount stays as it is, no root changes, and the worktree is handed on.
/// Any other request stops nobody.
pub proof fn law_a_subagent_stops_alone(
    state: &mut HookState,
    call: &HookCall,
    raw: &serde_json::Value,
    blocked: bool,
    worktree: Option<&UnixPath>,
    now: u64,
    r: Option<SubagentStop>,
    hp: JsonView,
    other: Seq<char>,
    another: Seq<char>,
    contributor: Seq<char>,
)
    requires
        old(state).wf(),
        call_ensures(HookState::subagent_stop, (state, call, raw, blocked, worktree, now), r),
        json_view(*raw).field("host_payload"@) == Some(hp),
    ensures
        ({
            let v = old(state)@;
            let w = final(state)@;
            let agent = json_view(*raw).text_field("agent_id"@);
            &&& r is Some == (call.name@ == "post-agent/require-release"@ && hp.text_field(
                "hook_event_name"@,
            ) == Some("SubagentStop"@) && !blocked)
            &&& r is None ==> w == v
            &&& r matches Some(s) ==> {
                &&& agent is Some ==> s.agent_id@ == agent->0
                &&& agent is None ==> s.agent_id@.len() == 0
                &&& s.worktree is Some == worktree is Some
                &&& worktree is Some ==> s.worktree->0@ == worktree->0@
                &&& at_work(w.subagents, other, another) == (at_work(v.subagents, other, another)
                    && !(other == call.session_id@ && agent == Some(another) && another.len() > 0))
                &&& w.worktrees.dom() == v.worktrees.dom()
                &&& v.worktrees.dom().contains(contributor) ==> {
                    let clock = v.worktrees[contributor];
                    let above = worktree is Some && components(clock.root).is_prefix_of(
                        worktree->0.key(),
                    );
                    &&& above ==> w.worktrees[contributor] == (WorktreeClockView {
                        kept_since: Some(now),
                        ..clock
                    })
                    &&& !above ==> w.worktrees[contributor] == clock
                }
                &&& w.tracker == v.tracker
                &&& w.ephemeral == v.ephemeral
                &&& w.sessions == v.sessions
                &&& w.connected == v.connected
                &&& w.registry == v.registry
                &&& keeps_ledgers(v, w)
            }
        }),
{
    let v = old(state)@;
    let w = final(state)@;
    if r is Some {
        lemma_removed(
            v.subagents,
            w.subagents,
            call.session_id@,
            (r->0).agent_id@,
            other,
            another,
        );
        assert(w.worktrees.dom() =~= v.worktrees.dom());
    }
}

/// Activity in a directory makes every mount above it fresh and unblocked, and no
/// other; it mounts nothing, takes nothing down and changes nothing else.
pub proof fn law_activity_refreshes_what_lies_above(
    state: &mut HookState,
    dir: &UnixPath,
    now: u64,
    root: PathKey,
    contributor: Seq<char>,
)
    requires
        old(state).wf(),
        call_ensures(HookState::touch, (state, dir, now), ()),
    ensures
        ({
            let v = old(state)@;
            let w = final(state)@;
            &&& w.ephemeral.dom() == v.ephemeral.dom()
            &&& v.ephemeral.dom().contains(root) ==> w.ephemeral[root].root
                == v.ephemeral[root].root && w.ephemeral[root].last == if root.is_prefix_of(
                dir.key(),
            ) {
                now
            } else {
                v.ephemeral[root].last
            }
            &&& w.worktrees.dom() == v.worktrees.dom()
            &&& v.worktrees.dom().contains(contributor) ==> {
                let clock = v.worktrees[contributor];
                let after = w.worktrees[contributor];
                let above = components(clock.root).is_prefix_of(dir.key());
                &&& !above ==> after == clock
                &&& above ==> after.root == clock.root && !after.blocked
                &&& above && clock.kept_since is Some ==> after.kept_since == Some(now)
                &&& clock.kept_since is None ==> after.kept_since is None
            }
            &&& w.tracker == v.tracker
            &&& keeps_sessions(v, w)
            &&& w.registry == v.registry
            &&& keeps_ledgers(v, w)
        }),
{
    assert(final(state)@.ephemeral.dom() =~= old(state)@.ephemeral.dom());
    assert(final(state)@.worktrees.dom() =~= old(state)@.worktrees.dom());
}

/// A permission prompt blocks the mounts above its directory and no other; a blocked
/// mount keeps its countdown. Nothing else changes.
pub proof fn law_a_prompt_blocks_what_lies_above(
    state: &mut HookState,
    dir: &UnixPath,
    r: usize,
    contributor: Seq<char>,
)
    requires
        old(state).wf(),
        call_ensures(HookState::permission_blocked, (state, dir), r),
    ensures
        ({
            let v = old(state)@;
            let w = final(state)@;
            &&& w.worktrees.dom() == v.worktrees.dom()
            &&& v.worktrees.dom().contains(contributor) ==> {
                let clock = v.worktrees[contributor];
                let above = components(clock.root).is_prefix_of(dir.key());
                w.worktrees[contributor] == (WorktreeClockView {
                    blocked: clock.blocked || above,
                    ..clock
                })
            }
            &&& w.tracker == v.tracker
            &&& w.ephemeral == v.ephemeral
            &&& keeps_sessions(v, w)
            &&& w.registry == v.registry
            &&& keeps_ledgers(v, w)
        }),
{
    assert(final(state)@.worktrees.dom() =~= old(state)@.worktrees.dom());
}

/// The board shows every session that is connected, once and in the order of
/// connecting, as its first payload named it and as it does now, with all its
/// subagents in the order of their start.
pub proof fn law_the_board_shows_every_session(
    sessions: &Sessions,
    subagents: &SubagentRegistry,
    live: &[SessionLive],
    r: Vec<SessionRow>,
    i: int,
    id: &str,
    listed: Vec<Subagent>,
)
    requires
        sessions.wf(),
        subagents.wf(),
        call_ensures(Sessions::board, (sessions, subagents, live), r),
        0 <= i < r.len(),
        id@ == sessions.order()[i],
        call_ensures(SubagentRegistry::for_session, (subagents, id), listed),
    ensures
        r.len() == sessions@.dom().len(),
        sessions@.dom().contains(r[i].id@),
        r[i].id@ == sessions.order()[i],
        forall|j: int| 0 <= j < r.len() && j != i ==> (#[trigger] r[j]).id@ != r[i].id@,
        ({
            let meta = sessions@[r[i].id@];
            &&& meta.client_name is Some ==> r[i].client@ == meta.client_name->0
            &&& meta.client_name is None ==> r[i].client@ == "unknown"@
            &&& r[i].started_at@ == meta.started_at
            &&& views(r[i].roots@) == meta.roots
            &&& r[i].last_seen@ == live[i].last_seen@
            &&& r[i].status == live[i].status
            &&& r[i].last_action is Some == live[i].last_action is Some
            &&& r[i].subagents.len() == listed.len()
            &&& forall|j: int|
                0 <= j < listed.len() ==> (#[trigger] r[i].subagents[j]).id@ == listed[j].id@
                    && r[i].subagents[j].started_at@ == listed[j].started_at@
                    && r[i].subagents[j].status == live[i].subagents[j]
        }),
{
    sessions.lemma_order();
    let order = sessions.order();
    assert(order.to_set().contains(order[i]));
    assert forall|j: int| 0 <= j < r.len() && j != i implies (#[trigger] r[j]).id@ != r[i].id@ by {
        assert(r[j].id@ == order[j]);
    }
    let shown = crate::subagents::subagent_views(r[i].subagents@);
    let all = crate::subagents::subagent_views(listed@);
    assert(shown == crate::boards::with_statuses(all, live@[i].subagents@));
    assert(shown.len() == all.len());
    assert forall|j: int| 0 <= j < listed.len() implies (#[trigger] r[i].subagents[j]).id@
        == listed[j].id@ && r[i].subagents[j].started_at@ == listed[j].started_at@
        && r[i].subagents[j].status == live[i].subagents[j] by {
        assert(shown[j] == r[i].subagents@[j]@);
        assert(all[j] == listed@[j]@);
    }
}

} // verus!
