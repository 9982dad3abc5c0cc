//! The live subagents of each session.

use crate::table::{Key, Table};
use crate::text::{chars_lt, chars_of, lemma_text_strict_total, text_eq, text_lt};
use vstd::prelude::*;

verus! {

/// How a session or a subagent is doing.
#[derive(Clone, Copy, Debug, PartialEq, Eq, Structural)]
pub enum SessionStatus {
    Idle,
    Working,
    Editing,
    Diagnostics,
}

/// A live subagent.
#[derive(Clone, Debug, PartialEq, Eq)]
pub struct Subagent {
    pub id: String,
    /// When it started, as an ISO time stamp.
    pub started_at: String,
    pub status: SessionStatus,
    pub last_seen: String,
}

/// A live subagent, by its texts.
pub struct SubagentView {
    pub id: Seq<char>,
    pub started_at: Seq<char>,
    pub status: SessionStatus,
    pub last_seen: Seq<char>,
}

impl View for Subagent {
    type V = SubagentView;

    open spec fn view(&self) -> SubagentView {
        SubagentView {
            id: self.id@,
            started_at: self.started_at@,
            status: self.status,
            last_seen: self.last_seen@,
        }
    }
}

impl Subagent {
    /// The same subagent once more.
    pub fn duplicate(&self) -> (r: Subagent)
        ensures
            r@ == self@,
    {
        Subagent {
            id: self.id.clone(),
            started_at: self.started_at.clone(),
            status: self.status,
            last_seen: self.last_seen.clone(),
        }
    }
}

/// A subagent that has just started.
pub open spec fn started(id: Seq<char>, started_at: Seq<char>) -> SubagentView {
    SubagentView { id, started_at, status: SessionStatus::Idle, last_seen: Seq::empty() }
}

/// The views of a list of subagents.
pub open spec fn subagent_views(v: Seq<Subagent>) -> Seq<SubagentView> {
    v.map_values(|s: Subagent| s@)
}

/// Whether a subagent of this id is in the list.
pub open spec fn has_agent(list: Seq<SubagentView>, id: Seq<char>) -> bool {
    exists|i: int| 0 <= i < list.len() && (#[trigger] list[i]).id == id
}

/// The list without the subagents of this id.
pub open spec fn without_agent(list: Seq<SubagentView>, id: Seq<char>) -> Seq<SubagentView>
    decreases list.len(),
{
    if list.len() == 0 {
        Seq::empty()
    } else {
        let before = without_agent(list.drop_last(), id);
        if list.last().id == id {
            before
        } else {
            before.push(list.last())
        }
    }
}

/// Puts a subagent into a list ordered by start, behind those that started at
/// the same time.
pub open spec fn insert_by_start(list: Seq<SubagentView>, s: SubagentView) -> Seq<SubagentView>
    decreases list.len(),
{
    if list.len() > 0 && text_lt()(s.started_at, list.last().started_at) {
        insert_by_start(list.drop_last(), s).push(list.last())
    } else {
        list.push(s)
    }
}

/// The list in the order of starting; those that started together keep their
/// order.
pub open spec fn by_start(list: Seq<SubagentView>) -> Seq<SubagentView>
    decreases list.len(),
{
    if list.len() == 0 {
        Seq::empty()
    } else {
        insert_by_start(by_start(list.drop_last()), list.last())
    }
}

/// No element starts after a later one.
pub open spec fn start_sorted(list: Seq<SubagentView>) -> bool {
    forall|i: int, j: int|
        0 <= i < j < list.len() ==> !text_lt()(
            (#[trigger] list[j]).started_at,
            (#[trigger] list[i]).started_at,
        )
}

proof fn lemma_insert_by_start(list: Seq<SubagentView>, s: SubagentView)
    requires
        start_sorted(list),
    ensures
        start_sorted(insert_by_start(list, s)),
        insert_by_start(list, s).to_multiset() == list.to_multiset().insert(s),
    decreases list.len(),
{
    broadcast use vstd::seq_lib::group_to_multiset_ensures;

    lemma_text_strict_total();
    if list.len() > 0 && text_lt()(s.started_at, list.last().started_at) {
        let head = list.drop_last();
        lemma_insert_by_start(head, s);
        let tail = insert_by_start(head, s);
        let r = tail.push(list.last());
        assert(list =~= head.push(list.last()));
        assert(r.to_multiset() =~= list.to_multiset().insert(s));
        assert forall|i: int, j: int| 0 <= i < j < r.len() implies !text_lt()(
            (#[trigger] r[j]).started_at,
            (#[trigger] r[i]).started_at,
        ) by {
            if j == tail.len() {
                assert(r[i] == tail[i]);
                assert(tail.to_multiset().count(tail[i]) > 0) by {
                    assert(tail.contains(tail[i]));
                }
                if tail[i] != s {
                    assert(head.to_multiset().count(tail[i]) > 0);
                    assert(head.contains(tail[i]));
                    let k = choose|k: int| 0 <= k < head.len() && head[k] == tail[i];
                    assert(list[k] == tail[i]);
                    assert(list[list.len() - 1] == list.last());
                }
            } else {
                assert(r[i] == tail[i] && r[j] == tail[j]);
            }
        }
    } else {
        let r = list.push(s);
        assert forall|i: int, j: int| 0 <= i < j < r.len() implies !text_lt()(
            (#[trigger] r[j]).started_at,
            (#[trigger] r[i]).started_at,
        ) by {
            if j == list.len() {
                assert(r[i] == list[i]);
                let last = list[list.len() - 1];
                if i < list.len() - 1 {
                    assert(!text_lt()(last.started_at, list[i].started_at));
                }
                if text_lt()(s.started_at, list[i].started_at) {
                    assert(last.started_at == list[i].started_at || text_lt()(
                        list[i].started_at,
                        last.started_at,
                    ) || text_lt()(last.started_at, list[i].started_at));
                }
            } else {
                assert(r[i] == list[i] && r[j] == list[j]);
            }
        }
    }
}

/// The listing of a session's subagents is ordered by their start and holds
/// exactly those that were recorded.
pub proof fn law_listing_is_sorted_and_complete(list: Seq<SubagentView>)
    ensures
        start_sorted(by_start(list)),
        by_start(list).to_multiset() == list.to_multiset(),
    decreases list.len(),
{
    broadcast use vstd::seq_lib::group_to_multiset_ensures;

    if list.len() > 0 {
        law_listing_is_sorted_and_complete(list.drop_last());
        lemma_insert_by_start(by_start(list.drop_last()), list.last());
        assert(list =~= list.drop_last().push(list.last()));
    } else {
        assert(by_start(list) =~= list);
    }
}

/// The live subagents by session; a session without any has no entry.
pub type SubagentsView = Map<Seq<char>, Seq<SubagentView>>;

/// The subagents of a session.
pub open spec fn subagents_of(m: SubagentsView, session: Seq<char>) -> Seq<SubagentView> {
    if m.dom().contains(session) {
        m[session]
    } else {
        Seq::empty()
    }
}

/// The live subagents of each session.
pub struct SubagentRegistry {
    sessions: Table<String, Vec<Subagent>>,
}

impl View for SubagentRegistry {
    type V = SubagentsView;

    closed spec fn view(&self) -> SubagentsView {
        self.sessions@.map_values(|v: Vec<Subagent>| subagent_views(v@))
    }
}

fn duplicate_all(v: &Vec<Subagent>) -> (r: Vec<Subagent>)
    ensures
        subagent_views(r@) == subagent_views(v@),
{
    let mut r: Vec<Subagent> = Vec::new();
    let mut i: usize = 0;
    while i < v.len()
        invariant
            i <= v.len(),
            r.len() == i,
            forall|j: int| 0 <= j < i ==> (#[trigger] r[j])@ == v[j]@,
        decreases v.len() - i,
    {
        r.push(v[i].duplicate());
        i += 1;
    }
    assert(subagent_views(r@) =~= subagent_views(v@));
    r
}

impl SubagentRegistry {
    pub closed spec fn wf(&self) -> bool {
        self.sessions.wf()
    }

    /// No subagents.
    pub fn new() -> (r: SubagentRegistry)
        ensures
            r.wf(),
            r@ == Map::<Seq<char>, Seq<SubagentView>>::empty(),
    {
        let r = SubagentRegistry { sessions: Table::new() };
        assert(r@ =~= Map::<Seq<char>, Seq<SubagentView>>::empty());
        r
    }

    /// Records a subagent under its session, once per id; a blank id records
    /// nothing.
    pub fn start(&mut self, session_id: &str, agent_id: &str, started_at: String)
        requires
            old(self).wf(),
        ensures
            final(self).wf(),
            ({
                let list = subagents_of(old(self)@, session_id@);
                final(self)@ == if agent_id@.len() == 0 {
                    old(self)@
                } else if has_agent(list, agent_id@) {
                    old(self)@.insert(session_id@, list)
                } else {
                    old(self)@.insert(session_id@, list.push(started(agent_id@, started_at@)))
                }
            }),
    {
        if agent_id.is_empty() {
            return;
        }
        let name = session_id.to_owned();
        let mut list: Vec<Subagent> = match self.sessions.get(&name) {
            Some(v) => duplicate_all(v),
            None => Vec::new(),
        };
        let ghost before = subagent_views(list@);
        assert(before =~= subagents_of(self@, session_id@));
        let mut known = false;
        let mut i: usize = 0;
        while i < list.len() && !known
            invariant
                i <= list.len(),
                before == subagent_views(list@),
                known ==> has_agent(before, agent_id@),
                !known ==> forall|j: int| 0 <= j < i ==> (#[trigger] before[j]).id != agent_id@,
            decreases list.len() - i,
        {
            assert(before[i as int] == list@[i as int]@);
            if text_eq(list[i].id.as_str(), agent_id) {
                known = true;
            }
            i += 1;
        }
        if !known {
            list.push(
                Subagent {
                    id: agent_id.to_owned(),
                    started_at,
                    status: SessionStatus::Idle,
                    last_seen: String::new(),
                },
            );
            assert(subagent_views(list@) =~= before.push(started(agent_id@, started_at@)));
        }
        let ghost after = subagent_views(list@);
        self.sessions.insert(name, list);
        assert(self@ =~= old(self)@.insert(session_id@, after));
    }

    /// Removes a subagent; the session's entry goes with the last one.
    pub fn stop(&mut self, session_id: &str, agent_id: &str)
        requires
            old(self).wf(),
        ensures
            final(self).wf(),
            ({
                let list = without_agent(subagents_of(old(self)@, session_id@), agent_id@);
                final(self)@ == if agent_id@.len() == 0 || !old(self)@.dom().contains(session_id@) {
                    old(self)@
                } else if list.len() == 0 {
                    old(self)@.remove(session_id@)
                } else {
                    old(self)@.insert(session_id@, list)
                }
            }),
    {
        if agent_id.is_empty() {
            return;
        }
        let name = session_id.to_owned();
        let at: usize = match self.sessions.find(&name) {
            Some(i) => i,
            None => {
                return;
            },
        };
        let list = self.sessions.value_at(at);
        let ghost all = subagent_views(list@);
        let mut kept: Vec<Subagent> = Vec::new();
        let mut i: usize = 0;
        assert(subagent_views(kept@) =~= without_agent(all.take(0), agent_id@));
        while i < list.len()
            invariant
                i <= list.len(),
                all == subagent_views(list@),
                subagent_views(kept@) == without_agent(all.take(i as int), agent_id@),
            decreases list.len() - i,
        {
            let ghost before = subagent_views(kept@);
            proof {
                assert(all.take(i + 1).drop_last() =~= all.take(i as int));
                assert(all.take(i + 1).last() == list@[i as int]@);
            }
            if !text_eq(list[i].id.as_str(), agent_id) {
                kept.push(list[i].duplicate());
                assert(subagent_views(kept@) =~= before.push(list@[i as int]@));
            }
            i += 1;
        }
        assert(all.take(list.len() as int) =~= all);
        let ghost after = subagent_views(kept@);
        assert(after.len() == kept.len());
        if kept.len() == 0 {
            let _gone = self.sessions.remove_at(at);
            assert(self@ =~= old(self)@.remove(session_id@));
        } else {
            self.sessions.set_value(at, kept);
            assert(self@ =~= old(self)@.insert(session_id@, after));
        }
    }

    /// Drops every subagent of a session.
    pub fn clear_session(&mut self, session_id: &str)
        requires
            old(self).wf(),
        ensures
            final(self).wf(),
            final(self)@ == old(self)@.remove(session_id@),
    {
        let _gone = self.sessions.remove(&session_id.to_owned());
        assert(self@ =~= old(self)@.remove(session_id@));
    }

    /// The live subagents of a session in the order of their start.
    pub fn for_session(&self, session_id: &str) -> (r: Vec<Subagent>)
        requires
            self.wf(),
        ensures
            subagent_views(r@) == by_start(subagents_of(self@, session_id@)),
    {
        let mut r: Vec<Subagent> = Vec::new();
        let list = match self.sessions.get(&session_id.to_owned()) {
            Some(v) => v,
            None => {
                assert(subagent_views(r@) =~= Seq::empty());
                return r;
            },
        };
        let ghost all = subagent_views(list@);
        let mut i: usize = 0;
        assert(subagent_views(r@) =~= by_start(all.take(0)));
        while i < list.len()
            invariant
                i <= list.len(),
                all == subagent_views(list@),
                subagent_views(r@) == by_start(all.take(i as int)),
            decreases list.len() - i,
        {
            proof {
                assert(all.take(i + 1).drop_last() =~= all.take(i as int));
                assert(all.take(i + 1).last() == list@[i as int]@);
            }
            insert_started(&mut r, list[i].duplicate());
            i += 1;
        }
        assert(all.take(list.len() as int) =~= all);
        r
    }
}

/// Whether `p` is where a subagent goes in a list ordered by start.
proof fn lemma_insert_at(list: Seq<SubagentView>, s: SubagentView, p: int)
    requires
        0 <= p <= list.len(),
        forall|i: int| p <= i < list.len() ==> text_lt()(
            s.started_at,
            (#[trigger] list[i]).started_at,
        ),
        p > 0 ==> !text_lt()(s.started_at, list[p - 1].started_at),
    ensures
        insert_by_start(list, s) == list.insert(p, s),
    decreases list.len(),
{
    if p < list.len() {
        let head = list.drop_last();
        lemma_insert_at(head, s, p);
        assert(list.insert(p, s) =~= head.insert(p, s).push(list.last()));
    } else {
        assert(list.insert(p, s) =~= list.push(s));
    }
}

fn insert_started(r: &mut Vec<Subagent>, s: Subagent)
    ensures
        subagent_views(final(r)@) == insert_by_start(subagent_views(old(r)@), s@),
{
    let start = chars_of(s.started_at.as_str());
    let mut p: usize = r.len();
    let ghost list = subagent_views(r@);
    while p > 0
        invariant
            p <= r.len(),
            r@ == old(r)@,
            list == subagent_views(r@),
            start@ == s.started_at@,
            forall|i: int| p <= i < list.len() ==> text_lt()(
                s@.started_at,
                (#[trigger] list[i]).started_at,
            ),
        ensures
            p <= r.len(),
            r@ == old(r)@,
            forall|i: int| p <= i < list.len() ==> text_lt()(
                s@.started_at,
                (#[trigger] list[i]).started_at,
            ),
            p > 0 ==> !text_lt()(s@.started_at, list[p - 1].started_at),
        decreases p,
    {
        let other = chars_of(r[p - 1].started_at.as_str());
        assert(list[p - 1] == r@[p - 1]@);
        if !chars_lt(&start, &other) {
            break;
        }
        p -= 1;
    }
    proof {
        lemma_insert_at(list, s@, p as int);
    }
    r.insert(p, s);
    assert(subagent_views(r@) =~= list.insert(p as int, s@));
}

} // verus!
