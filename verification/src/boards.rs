//! The sessions of a daemon, and the boards that show sessions and roots.

use crate::clock::{elapsed, EPHEMERAL_ROOT_IDLE_TIMEOUT, SECOND};
use crate::contributor::{only_ephemeral, root_is_ephemeral};
use crate::json::{json_view, str_field, JsonView};
use crate::mounts::EphemeralMounts;
use crate::order::strictly_sorted;
use crate::path::{components, path_lt, PathKey};
use crate::payload::{extract_session_roots, session_roots};
use crate::subagents::{by_start, subagent_views, subagents_of, SessionStatus, Subagent, SubagentRegistry, SubagentView};
use crate::table::{entry_ids, Key, Table};
use crate::text::{concat3, text_lt, views};
use crate::tracker::{listed_keys, text_option, RootTracker};
use vstd::prelude::*;

verus! {

/// What a session's first payload says about it.
pub struct SessionMeta {
    pub client_name: Option<String>,
    pub started_at: String,
    pub roots: Vec<String>,
}

/// What a session's first payload says about it.
#[verifier::ext_equal]
pub struct SessionMetaView {
    pub client_name: Option<Seq<char>>,
    pub started_at: Seq<char>,
    pub roots: Seq<Seq<char>>,
}

impl View for SessionMeta {
    type V = SessionMetaView;

    open spec fn view(&self) -> SessionMetaView {
        SessionMetaView {
            client_name: text_option(self.client_name),
            started_at: self.started_at@,
            roots: views(self.roots@),
        }
    }
}

/// The name a client goes by.
pub open spec fn client_label(name: Option<Seq<char>>) -> Seq<char> {
    match name {
        Some(n) => n,
        None => "unknown"@,
    }
}

/// The line that announces a session.
pub open spec fn connected_text(raw: JsonView) -> Seq<char> {
    "session connected ("@ + client_label(raw.text_field("format"@)) + ")"@
}

/// The sessions once this one is known: what its first payload says stays.
pub open spec fn sessions_with(
    sessions: Map<Seq<char>, SessionMetaView>,
    session: Seq<char>,
    raw: JsonView,
    started_at: Seq<char>,
) -> Map<Seq<char>, SessionMetaView> {
    if sessions.dom().contains(session) {
        sessions
    } else {
        sessions.insert(
            session,
            SessionMetaView {
                client_name: raw.text_field("format"@),
                started_at,
                roots: session_roots(raw),
            },
        )
    }
}

/// The ids in the order of connecting, once this session is known.
pub open spec fn order_with(order: Seq<Seq<char>>, session: Seq<char>) -> Seq<Seq<char>> {
    if order.contains(session) {
        order
    } else {
        order.push(session)
    }
}

/// The ids in the order of connecting, without this session.
pub open spec fn order_without(order: Seq<Seq<char>>, session: Seq<char>) -> Seq<Seq<char>> {
    if order.contains(session) {
        order.remove(order.index_of(session))
    } else {
        order
    }
}

/// What is known of a session now.
pub struct SessionLive {
    pub last_seen: String,
    pub status: SessionStatus,
    /// What it did last, and when.
    pub last_action: Option<(String, String)>,
    /// How its subagents do, in the order of their start.
    pub subagents: Vec<SessionStatus>,
}

/// A session on the board.
#[derive(Debug)]
pub struct SessionRow {
    pub id: String,
    pub client: String,
    pub started_at: String,
    pub last_seen: String,
    pub roots: Vec<String>,
    pub status: SessionStatus,
    pub last_action: Option<(String, String)>,
    pub subagents: Vec<Subagent>,
}

/// The view of a last action.
pub open spec fn action_view(a: Option<(String, String)>) -> Option<(Seq<char>, Seq<char>)> {
    match a {
        Some((what, at)) => Some((what@, at@)),
        None => None,
    }
}

/// The subagents with the given statuses.
pub open spec fn with_statuses(
    list: Seq<SubagentView>,
    statuses: Seq<SessionStatus>,
) -> Seq<SubagentView> {
    Seq::new(list.len(), |i: int| SubagentView { status: statuses[i], ..list[i] })
}

/// The row shows the session `id` with what its first payload said, what is
/// known of it now, and its subagents.
pub open spec fn row_shows(
    row: SessionRow,
    id: Seq<char>,
    meta: SessionMetaView,
    live: SessionLive,
    subagents: Seq<SubagentView>,
) -> bool {
    &&& row.id@ == id
    &&& row.client@ == client_label(meta.client_name)
    &&& row.started_at@ == meta.started_at
    &&& views(row.roots@) == meta.roots
    &&& row.last_seen@ == live.last_seen@
    &&& row.status == live.status
    &&& action_view(row.last_action) == action_view(live.last_action)
    &&& subagent_views(row.subagents@) == with_statuses(by_start(subagents), live.subagents@)
}

fn duplicate_texts(v: &Vec<String>) -> (r: Vec<String>)
    ensures
        views(r@) == views(v@),
{
    let mut r: Vec<String> = Vec::new();
    let mut i: usize = 0;
    while i < v.len()
        invariant
            i <= v.len(),
            r.len() == i,
            forall|j: int| 0 <= j < i ==> (#[trigger] r[j])@ == v[j]@,
        decreases v.len() - i,
    {
        r.push(v[i].clone());
        i += 1;
    }
    assert(views(r@) =~= views(v@));
    r
}

/// The sessions of a daemon.
pub struct Sessions {
    entries: Table<String, SessionMeta>,
}

impl View for Sessions {
    type V = Map<Seq<char>, SessionMetaView>;

    closed spec fn view(&self) -> Map<Seq<char>, SessionMetaView> {
        self.entries@.map_values(|m: SessionMeta| m@)
    }
}

impl Sessions {
    pub closed spec fn wf(&self) -> bool {
        self.entries.wf()
    }

    /// The ids in the order of connecting.
    pub closed spec fn order(&self) -> Seq<Seq<char>> {
        entry_ids(self.entries.order())
    }

    /// What the order and the map have to do with each other.
    pub proof fn lemma_order(&self)
        requires
            self.wf(),
        ensures
            self.order().no_duplicates(),
            self.order().to_set() == self@.dom(),
            self.order().len() == self@.dom().len(),
    {
        self.entries.lemma_order();
        assert(self@.dom() =~= self.entries@.dom());
    }

    /// No sessions.
    pub fn new() -> (r: Sessions)
        ensures
            r.wf(),
            r@ == Map::<Seq<char>, SessionMetaView>::empty(),
            r.order() == Seq::<Seq<char>>::empty(),
    {
        let r = Sessions { entries: Table::new() };
        assert(r.order() =~= Seq::<Seq<char>>::empty()) by {
            r.entries.lemma_order();
            assert(r.entries@.dom().len() == 0);
        }
        assert(r@ =~= Map::<Seq<char>, SessionMetaView>::empty());
        r
    }

    /// How many sessions there are.
    pub fn len(&self) -> (r: usize)
        requires
            self.wf(),
        ensures
            r == self@.dom().len(),
            r == self.order().len(),
    {
        proof {
            self.lemma_order();
        }
        self.entries.len()
    }

    /// The id of the `i`-th session.
    pub fn id_at(&self, i: usize) -> (r: &str)
        requires
            self.wf(),
            i < self.order().len(),
        ensures
            r@ == self.order()[i as int],
    {
        self.entries.key_at(i).as_str()
    }

    /// Records a session with its first payload, where it is not known yet.
    /// Returns the line that announces it.
    pub fn get_or_create(&mut self, session_id: &str, raw: &serde_json::Value, started_at: String) -> (r:
        Option<String>)
        requires
            old(self).wf(),
        ensures
            final(self).wf(),
            final(self)@ == sessions_with(old(self)@, session_id@, json_view(*raw), started_at@),
            final(self).order() == order_with(old(self).order(), session_id@),
            text_option(r) == if old(self)@.dom().contains(session_id@) {
                None
            } else {
                Some(connected_text(json_view(*raw)))
            },
    {
        let name = session_id.to_owned();
        proof {
            self.lemma_order();
            assert(self.order().contains(session_id@) == self.order().to_set().contains(
                session_id@,
            ));
        }
        if self.entries.contains_key(&name) {
            return None;
        }
        let format = str_field(raw, "format");
        let label = match format {
            Some(f) => f,
            None => "unknown",
        };
        let summary = concat3("session connected (", label, ")");
        let meta = SessionMeta {
            client_name: match format {
                Some(f) => Some(f.to_owned()),
                None => None,
            },
            started_at,
            roots: extract_session_roots(raw),
        };
        let ghost view = meta@;
        self.entries.insert(name, meta);
        assert(self@ =~= old(self)@.insert(session_id@, view));
        assert(self.order() =~= old(self).order().push(session_id@));
        Some(summary)
    }

    /// Forgets a session.
    pub fn remove(&mut self, session_id: &str)
        requires
            old(self).wf(),
        ensures
            final(self).wf(),
            final(self)@ == old(self)@.remove(session_id@),
            final(self).order() == order_without(old(self).order(), session_id@),
    {
        let _gone = self.entries.remove(&session_id.to_owned());
        assert(self@ =~= old(self)@.remove(session_id@));
        assert(self.order() =~= order_without(old(self).order(), session_id@));
    }

    /// The board: one row per session. `live` gives, in the order of connecting,
    /// what is known of each session now.
    pub fn board(&self, subagents: &SubagentRegistry, live: &[SessionLive]) -> (r: Vec<SessionRow>)
        requires
            self.wf(),
            subagents.wf(),
            live@.len() == self.order().len(),
            forall|i: int|
                0 <= i < live@.len() ==> (#[trigger] live@[i]).subagents@.len() == by_start(
                    subagents_of(subagents@, self.order()[i]),
                ).len(),
        ensures
            r.len() == self.order().len(),
            forall|i: int|
                0 <= i < r.len() ==> row_shows(
                    #[trigger] r[i],
                    self.order()[i],
                    self@[self.order()[i]],
                    live@[i],
                    subagents_of(subagents@, self.order()[i]),
                ),
    {
        let mut r: Vec<SessionRow> = Vec::new();
        let n: usize = self.entries.len();
        let mut i: usize = 0;
        while i < n
            invariant
                self.wf(),
                self.entries.wf(),
                subagents.wf(),
                i <= n,
                n == self.order().len(),
                n == self.entries.order().len(),
                live@.len() == n,
                r.len() == i,
                forall|j: int|
                    0 <= j < live@.len() ==> (#[trigger] live@[j]).subagents@.len() == by_start(
                        subagents_of(subagents@, self.order()[j]),
                    ).len(),
                forall|j: int|
                    0 <= j < i ==> row_shows(
                        #[trigger] r[j],
                        self.order()[j],
                        self@[self.order()[j]],
                        live@[j],
                        subagents_of(subagents@, self.order()[j]),
                    ),
            decreases n - i,
        {
            let id = self.entries.key_at(i);
            let meta = self.entries.value_at(i);
            let now = &live[i];
            proof {
                self.entries.lemma_order();
                assert(self.order()[i as int] == id@);
                assert(self@[id@] == meta@);
            }
            let client = match &meta.client_name {
                Some(name) => name.clone(),
                None => "unknown".to_owned(),
            };
            let last_action: Option<(String, String)> = match &now.last_action {
                Some(a) => Some((a.0.clone(), a.1.clone())),
                None => None,
            };
            let rows = enrich(subagents.for_session(id.as_str()), &now.subagents);
            r.push(
                SessionRow {
                    id: id.clone(),
                    client,
                    started_at: meta.started_at.clone(),
                    last_seen: now.last_seen.clone(),
                    roots: duplicate_texts(&meta.roots),
                    status: now.status,
                    last_action,
                    subagents: rows,
                },
            );
            i += 1;
        }
        r
    }
}

/// Gives each subagent its status.
fn enrich(list: Vec<Subagent>, statuses: &Vec<SessionStatus>) -> (r: Vec<Subagent>)
    requires
        list.len() == statuses.len(),
    ensures
        subagent_views(r@) == with_statuses(subagent_views(list@), statuses@),
{
    let mut r: Vec<Subagent> = Vec::new();
    let mut i: usize = 0;
    while i < list.len()
        invariant
            i <= list.len(),
            list.len() == statuses.len(),
            r.len() == i,
            forall|j: int|
                0 <= j < i ==> (#[trigger] r[j])@ == (SubagentView {
                    status: statuses[j],
                    ..list[j]@
                }),
        decreases list.len() - i,
    {
        let mut s = list[i].duplicate();
        s.status = statuses[i];
        r.push(s);
        i += 1;
    }
    assert(subagent_views(r@) =~= with_statuses(subagent_views(list@), statuses@));
    r
}

/// A root on the board.
#[derive(Debug)]
pub struct RootRow {
    pub path: String,
    pub ephemeral: bool,
    pub sources: Vec<String>,
    /// The whole seconds until it expires, nothing where it does not.
    pub idle_remaining_secs: Option<u64>,
}

/// The keys of the roots on the board.
pub open spec fn row_keys(v: Seq<RootRow>) -> Seq<PathKey> {
    v.map_values(|e: RootRow| components(e.path@))
}

/// The board of roots: every served root in path order, with its contributors in
/// string order, whether activity alone holds it, and how long it has left.
pub fn root_board(tracker: &RootTracker, mounts: &EphemeralMounts, now: u64) -> (r: Vec<RootRow>)
    requires
        tracker.wf(),
        mounts.wf(),
    ensures
        strictly_sorted(row_keys(r@), path_lt()),
        row_keys(r@).to_set() == tracker@.union(),
        forall|i: int|
            0 <= i < r.len() ==> {
                let row = #[trigger] r[i];
                let key = components(row.path@);
                &&& strictly_sorted(views(row.sources@), text_lt())
                &&& views(row.sources@).to_set() == tracker@.holders(key)
                &&& row.path@ == tracker@.listed_as(key, views(row.sources@))
                &&& row.ephemeral == only_ephemeral(views(row.sources@))
                &&& row.idle_remaining_secs == if mounts@.dom().contains(key) {
                    Some(
                        (elapsed(
                            EPHEMERAL_ROOT_IDLE_TIMEOUT,
                            elapsed(now, mounts@[key].last),
                        ) / SECOND) as u64,
                    )
                } else {
                    None
                }
            },
{
    let listed = tracker.list_roots();
    let mut r: Vec<RootRow> = Vec::new();
    let mut i: usize = 0;
    while i < listed.len()
        invariant
            i <= listed.len(),
            mounts.wf(),
            r.len() == i,
            forall|j: int|
                0 <= j < listed.len() ==> strictly_sorted(
                    views((#[trigger] listed[j]).1@),
                    text_lt(),
                ) && views(listed[j].1@).to_set() == tracker@.holders(listed[j].0.key())
                    && listed[j].0@ == tracker@.listed_as(listed[j].0.key(), views(listed[j].1@)),
            forall|j: int|
                0 <= j < i ==> {
                    let row = #[trigger] r[j];
                    let key = components(row.path@);
                    &&& row.path@ == listed[j].0@
                    &&& views(row.sources@) == views(listed[j].1@)
                    &&& row.ephemeral == only_ephemeral(views(row.sources@))
                    &&& row.idle_remaining_secs == if mounts@.dom().contains(key) {
                        Some(
                            (elapsed(
                                EPHEMERAL_ROOT_IDLE_TIMEOUT,
                                elapsed(now, mounts@[key].last),
                            ) / SECOND) as u64,
                        )
                    } else {
                        None
                    }
                },
        decreases listed.len() - i,
    {
        let idle_remaining_secs: Option<u64> = match mounts.idle_remaining(
            &listed[i].0,
            now,
            EPHEMERAL_ROOT_IDLE_TIMEOUT,
        ) {
            Some(left) => Some(left / SECOND),
            None => None,
        };
        let sources = duplicate_texts(&listed[i].1);
        r.push(
            RootRow {
                path: listed[i].0.as_str().to_owned(),
                ephemeral: root_is_ephemeral(sources.as_slice()),
                sources,
                idle_remaining_secs,
            },
        );
        i += 1;
    }
    proof {
        assert(row_keys(r@) =~= listed_keys(listed@));
        assert forall|j: int| 0 <= j < r.len() implies strictly_sorted(
            views((#[trigger] r[j]).sources@),
            text_lt(),
        ) && views(r[j].sources@).to_set() == tracker@.holders(components(r[j].path@)) by {
            assert(views(r[j].sources@) == views(listed[j].1@));
        }
    }
    r
}

} // verus!
