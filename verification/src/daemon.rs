//! The daemon: its sockets, its clients, and its life from boot to exit.

use crate::boards::Sessions;
use crate::clock::{DISCONNECT_GRACE, EPHEMERAL_ROOT_IDLE_TIMEOUT, HANDOFF_TIMEOUT, WORKTREE_KEPT_COUNTDOWN};
use crate::contributor::{HOOK_CONTRIBUTOR, SEED_ENV_CONTRIBUTOR};
use crate::ephemeral::{ephemeral_keys, missing_worktrees, path_option, reap_idle_ephemeral_roots, reap_missing_worktree_roots, spellings};
use crate::handoff::{DiagRoundRegistry, HandoffView, KeyedHandoff};
use crate::hook::{HookState, HookView};
use crate::ledger::{FirstSightings, MismatchInterrupts, ProjectConfigNudges, PromotedPrefixes};
use crate::mounts::{ephemeral_expired, lapsed_names, worktrees_lapsed, EphemeralMounts, WorktreeMounts, WorktreeMountsView};
use crate::path::{first_spellings, keys, lemma_spelled_alike, same_spellings, spelled_in, PathKey, UnixPath};
use crate::registry::{empty_registry, WorktreeMeta, WorktreeRegistry};
use crate::subagents::SubagentRegistry;
use crate::table::lemma_take_next;
use crate::text::{concat2, decimal, decimal_text, has_prefix, starts_with, strip_prefix, views};
use crate::tracker::{Declared, RootTracker, TrackerView};
use crate::worktree::retire_root;
use vstd::prelude::*;

verus! {

/// The daemon's directory and a file in it, below the state directory.
pub open spec fn daemon_file(state_dir: Seq<char>, name: Seq<char>) -> Seq<char> {
    crate::path::joined(crate::path::joined(state_dir, "catenary"@), name)
}

/// The path of the socket for bridges.
pub fn mcp_socket_path(state_dir: &UnixPath) -> (r: UnixPath)
    ensures
        r@ == daemon_file(state_dir@, "catenary-mcp.sock"@),
{
    state_dir.join("catenary").join("catenary-mcp.sock")
}

/// The path of the socket for hooks and commands.
pub fn socket_path(state_dir: &UnixPath) -> (r: UnixPath)
    ensures
        r@ == daemon_file(state_dir@, "catenary.sock"@),
{
    state_dir.join("catenary").join("catenary.sock")
}

/// The path of the user's configuration below the configuration directory.
pub fn user_config_path(config_dir: &UnixPath) -> (r: UnixPath)
    ensures
        r@ == daemon_file(config_dir@, "config.toml"@),
{
    config_dir.join("catenary").join("config.toml")
}

/// Remembers which socket files an aborted boot has to remove.
pub struct SocketCleanupGuard {
    pub mcp_path: UnixPath,
    pub ipc_path: UnixPath,
    pub armed: bool,
}

impl SocketCleanupGuard {
    /// Leaves the files in place from now on.
    pub fn disarm(&mut self)
        ensures
            !final(self).armed,
            final(self).mcp_path == old(self).mcp_path,
            final(self).ipc_path == old(self).ipc_path,
    {
        self.armed = false;
    }

    /// The files to remove when the guard is dropped: both while it is armed,
    /// none afterwards.
    pub fn on_drop(&self) -> (r: Vec<UnixPath>)
        ensures
            spellings(r@) == if self.armed {
                seq![self.mcp_path@, self.ipc_path@]
            } else {
                Seq::empty()
            },
    {
        let mut r: Vec<UnixPath> = Vec::new();
        if self.armed {
            r.push(self.mcp_path.duplicate());
            r.push(self.ipc_path.duplicate());
            assert(spellings(r@) =~= seq![self.mcp_path@, self.ipc_path@]);
        } else {
            assert(spellings(r@) =~= Seq::empty());
        }
        r
    }
}

/// The sockets of a daemon that is booting.
pub struct DaemonSockets {
    pub mcp_path: UnixPath,
    pub ipc_path: UnixPath,
    pub guard: SocketCleanupGuard,
}

/// The first step of binding the sockets that failed.
#[derive(Debug)]
pub enum BindFailure {
    /// A directory for a socket could not be created.
    Directory(UnixPath),
    /// The socket for bridges could not be bound.
    McpSocket,
    /// The socket for hooks and commands could not be bound.
    IpcSocket,
}

/// What a failed boot reports.
pub open spec fn bind_report(f: BindFailure, mcp: Seq<char>, ipc: Seq<char>) -> Seq<char> {
    match f {
        BindFailure::Directory(parent) => "create socket directory: "@ + parent@,
        BindFailure::McpSocket => "bind MCP socket: "@ + mcp,
        BindFailure::IpcSocket => "bind IPC socket: "@ + ipc,
    }
}

fn report_bind_failure(f: &BindFailure, mcp_path: &UnixPath, ipc_path: &UnixPath) -> (r: String)
    ensures
        r@ == bind_report(*f, mcp_path@, ipc_path@),
{
    match f {
        BindFailure::Directory(parent) => concat2("create socket directory: ", parent.as_str()),
        BindFailure::McpSocket => concat2("bind MCP socket: ", mcp_path.as_str()),
        BindFailure::IpcSocket => concat2("bind IPC socket: ", ipc_path.as_str()),
    }
}

/// The sockets at these paths, to be removed again if the boot is aborted; the
/// report where `bound` says that binding them failed.
pub fn bind_daemon_sockets_at(
    mcp_path: &UnixPath,
    ipc_path: &UnixPath,
    bound: Result<(), BindFailure>,
) -> (r: Result<DaemonSockets, String>)
    ensures
        match bound {
            Ok(_) => r matches Ok(s) && s.mcp_path@ == mcp_path@ && s.ipc_path@ == ipc_path@
                && s.guard.armed && s.guard.mcp_path@ == mcp_path@ && s.guard.ipc_path@
                == ipc_path@,
            Err(f) => r matches Err(m) && m@ == bind_report(f, mcp_path@, ipc_path@),
        },
{
    match bound {
        Err(f) => Err(report_bind_failure(&f, mcp_path, ipc_path)),
        Ok(_) => Ok(
            DaemonSockets {
                mcp_path: mcp_path.duplicate(),
                ipc_path: ipc_path.duplicate(),
                guard: SocketCleanupGuard {
                    mcp_path: mcp_path.duplicate(),
                    ipc_path: ipc_path.duplicate(),
                    armed: true,
                },
            },
        ),
    }
}

/// The sockets below the state directory.
pub fn bind_daemon_sockets(state_dir: &UnixPath, bound: Result<(), BindFailure>) -> (r: Result<
    DaemonSockets,
    String,
>)
    ensures
        ({
            let mcp = daemon_file(state_dir@, "catenary-mcp.sock"@);
            let ipc = daemon_file(state_dir@, "catenary.sock"@);
            match bound {
                Ok(_) => r matches Ok(s) && s.mcp_path@ == mcp && s.ipc_path@ == ipc
                    && s.guard.armed && s.guard.mcp_path@ == mcp && s.guard.ipc_path@ == ipc,
                Err(f) => r matches Err(m) && m@ == bind_report(f, mcp, ipc),
            }
        }),
{
    bind_daemon_sockets_at(&mcp_socket_path(state_dir), &socket_path(state_dir), bound)
}

/// The clients of a daemon, and the window in which it waits for one to come
/// back.
#[derive(Clone, Copy)]
pub struct Census {
    /// The connected clients.
    pub count: usize,
    /// The number of the next connection.
    pub next_id: usize,
    /// When the daemon exits unless a client connects, nothing while it need not.
    pub deadline: Option<u64>,
    /// How long it waits.
    pub grace: u64,
}

/// The next number, back to zero after the largest.
pub open spec fn wrapping_next(n: usize) -> usize {
    if n == usize::MAX {
        0
    } else {
        (n + 1) as usize
    }
}

/// The previous number, the largest before zero.
pub open spec fn wrapping_previous(n: usize) -> usize {
    if n == 0 {
        usize::MAX
    } else {
        (n - 1) as usize
    }
}

/// What the accept loop hears.
#[derive(Clone, Copy, Debug, PartialEq, Eq, Structural)]
pub enum AcceptEvent {
    /// A bridge connected.
    McpAccepted,
    /// A hook or a command connected.
    IpcAccepted,
    /// The daemon is told to shut down.
    Shutdown,
    /// A client went, as far as the loop was notified.
    Disconnect,
    /// The deadline has passed.
    GraceExpired,
}

/// What the accept loop does.
#[derive(Clone, Copy, Debug, PartialEq, Eq, Structural)]
pub enum AcceptAction {
    /// Serve the connection of this number.
    ServeMcp(usize),
    /// Serve the request with the sessions' state.
    Dispatch,
    /// Serve the request without a session.
    Passthrough,
    /// Go on.
    Continue,
    /// Remove the sockets and return.
    Exit,
}

impl Census {
    /// A disconnect opens the window: no client is left, and it is not open yet.
    pub open spec fn arms(self) -> bool {
        self.count == 0 && self.deadline is None
    }

    /// After an event at `now`.
    pub open spec fn after(self, event: AcceptEvent, now: u64) -> Census {
        match event {
            AcceptEvent::McpAccepted => Census {
                count: wrapping_next(self.count),
                next_id: wrapping_next(self.next_id),
                deadline: None,
                ..self
            },
            AcceptEvent::Disconnect => if self.arms() {
                Census { deadline: Some((now + self.grace) as u64), ..self }
            } else {
                self
            },
            AcceptEvent::GraceExpired => Census { deadline: None, ..self },
            _ => self,
        }
    }

    /// What an event leads to.
    pub open spec fn action(self, event: AcceptEvent, sessions: bool) -> AcceptAction {
        match event {
            AcceptEvent::McpAccepted => AcceptAction::ServeMcp(self.next_id),
            AcceptEvent::IpcAccepted => if sessions {
                AcceptAction::Dispatch
            } else {
                AcceptAction::Passthrough
            },
            AcceptEvent::Shutdown => AcceptAction::Exit,
            AcceptEvent::Disconnect => AcceptAction::Continue,
            AcceptEvent::GraceExpired => if self.deadline is Some && self.count == 0 {
                AcceptAction::Exit
            } else {
                AcceptAction::Continue
            },
        }
    }

    /// After a connection was closed.
    pub open spec fn closed(self) -> Census {
        Census { count: wrapping_previous(self.count), ..self }
    }
}

/// What a booting daemon finds.
pub struct BootFacts {
    /// The roots it was started with.
    pub seed: Vec<UnixPath>,
    /// The pinned roots of the user's configuration, canonical; nothing for one
    /// that is missing.
    pub pins: Vec<Option<UnixPath>>,
    /// The records of worktrees on disk.
    pub worktrees: Vec<WorktreeMeta>,
}

/// Registers the roots the daemon was started with.
pub fn register_env_seed(tracker: &mut RootTracker, seed: Vec<UnixPath>)
    requires
        old(tracker).wf(),
    ensures
        final(tracker).wf(),
        final(tracker)@ == seeded(old(tracker)@, seed@),
{
    if seed.len() == 0 {
        return;
    }
    tracker.set_roots(SEED_ENV_CONTRIBUTOR, seed);
}

/// The tracker with the seed; an empty seed changes nothing.
pub open spec fn seeded(v: TrackerView, seed: Seq<UnixPath>) -> TrackerView {
    if seed.len() == 0 {
        v
    } else {
        v.set(SEED_ENV_CONTRIBUTOR@, first_spellings(seed))
    }
}

/// The pins that are on disk.
pub open spec fn present_pins(pins: Seq<Option<UnixPath>>) -> Seq<UnixPath>
    decreases pins.len(),
{
    if pins.len() == 0 {
        Seq::empty()
    } else {
        match pins.last() {
            Some(p) => present_pins(pins.drop_last()).push(p),
            None => present_pins(pins.drop_last()),
        }
    }
}

/// The tracker with the pins; where none is on disk nothing changes.
pub open spec fn pinned(v: TrackerView, pins: Seq<Option<UnixPath>>) -> TrackerView {
    if present_pins(pins).len() == 0 {
        v
    } else {
        v.added(HOOK_CONTRIBUTOR@, first_spellings(present_pins(pins)))
    }
}

/// Declares the pinned roots that are on disk; a missing one is left alone.
/// Returns how many were restored.
pub fn restore_pinned_roots(tracker: &mut RootTracker, pins: &[Option<UnixPath>]) -> (r: usize)
    requires
        old(tracker).wf(),
    ensures
        final(tracker).wf(),
        final(tracker)@ == pinned(old(tracker)@, pins@),
        r == present_pins(pins@).len(),
{
    let mut restored: Vec<UnixPath> = Vec::new();
    let mut i: usize = 0;
    assert(restored@ =~= present_pins(pins@.take(0)));
    while i < pins.len()
        invariant
            i <= pins.len(),
            same_spellings(restored@, present_pins(pins@.take(i as int))),
        decreases pins.len() - i,
    {
        proof {
            assert(pins@.take(i + 1).drop_last() =~= pins@.take(i as int));
            assert(pins@.take(i + 1).last() == pins@[i as int]);
        }
        if let Some(p) = &pins[i] {
            restored.push(p.duplicate());
        }
        i += 1;
    }
    assert(pins@.take(pins.len() as int) =~= pins@);
    proof {
        lemma_spelled_alike(restored@, present_pins(pins@));
    }
    if restored.len() > 0 {
        tracker.add_roots(HOOK_CONTRIBUTOR, restored.as_slice());
    }
    restored.len()
}

/// A tracker without roots.
pub open spec fn empty_tracker() -> TrackerView {
    TrackerView { contributors: Map::empty(), roots: Map::empty() }
}

/// The state behind the hooks after boot.
pub open spec fn booted(
    seed: Seq<UnixPath>,
    pins: Seq<Option<UnixPath>>,
    worktrees: Seq<WorktreeMeta>,
) -> HookView {
    HookView {
        tracker: Some(pinned(seeded(empty_tracker(), seed), pins)),
        ephemeral: Map::empty(),
        worktrees: Map::empty(),
        registry: empty_registry().with_all(worktrees),
        sightings: Set::empty(),
        promoted: Set::empty(),
        nudges: Set::empty(),
        subagents: Map::empty(),
        sessions: Map::empty(),
        connected: Seq::empty(),
        claim: HandoffView { held: false, staged: None, ticket: 0 },
        patience: HANDOFF_TIMEOUT,
        rounds: Set::empty(),
    }
}

/// Boots the state behind the hooks: the seed first, then the pins, then the
/// records of worktrees.
pub fn boot(facts: BootFacts) -> (r: HookState)
    ensures
        r.wf(),
        r@ == booted(facts.seed@, facts.pins@, facts.worktrees@),
{
    let mut tracker = RootTracker::new();
    proof {
        assert(tracker@.roots.dom() =~= Set::empty()) by {
            assert(tracker@.union() =~= Set::empty());
        }
        assert(tracker@ =~= empty_tracker());
    }
    register_env_seed(&mut tracker, facts.seed);
    let _n: usize = restore_pinned_roots(&mut tracker, facts.pins.as_slice());
    let mut registry = WorktreeRegistry::new();
    registry.rehydrate(facts.worktrees);
    HookState {
        tracker: Some(tracker),
        ephemeral: EphemeralMounts::new(),
        worktrees: WorktreeMounts::new(),
        registry,
        sightings: FirstSightings::new(),
        promoted: PromotedPrefixes::new(),
        nudges: ProjectConfigNudges::new(),
        subagents: SubagentRegistry::new(),
        sessions: Sessions::new(),
        handoff: KeyedHandoff::new(),
        rounds: DiagRoundRegistry::new(),
    }
}

/// A client that let go of its roots and is still counted. There is no other way
/// to get one than to let them go, and no other way to stop counting than to hand
/// it in.
pub struct ReleasedClient {
    fd: u64,
}

impl ReleasedClient {
    /// The connection that the client was on.
    pub closed spec fn connection(&self) -> u64 {
        self.fd
    }
}

/// The daemon's own state.
pub struct SessionManager {
    mcp_socket_path: UnixPath,
    ipc_socket_path: UnixPath,
    census: Census,
    mismatches: MismatchInterrupts,
    hook_state: Option<HookState>,
}

impl SessionManager {
    /// Every part is in order.
    pub closed spec fn wf(&self) -> bool {
        self.mismatches.wf() && (self.hook_state is Some ==> self.hook_state->0.wf())
    }

    /// The clients.
    pub closed spec fn clients(&self) -> Census {
        self.census
    }

    /// The socket paths.
    pub closed spec fn paths(&self) -> (Seq<char>, Seq<char>) {
        (self.mcp_socket_path@, self.ipc_socket_path@)
    }

    /// The state behind the hooks, nothing while there are no sessions.
    pub closed spec fn hooks(&self) -> Option<HookView> {
        match self.hook_state {
            Some(h) => Some(h@),
            None => None,
        }
    }

    /// The pairings that an interrupt has fired for.
    pub closed spec fn interrupted(&self) -> Set<crate::ledger::PairingId> {
        self.mismatches@
    }

    /// A daemon without clients and sessions, on the sockets at these paths.
    pub open spec fn is_fresh(&self, mcp: Seq<char>, ipc: Seq<char>) -> bool {
        &&& self.wf()
        &&& self.paths() == (mcp, ipc)
        &&& self.clients() == (Census {
            count: 0,
            next_id: 0,
            deadline: None,
            grace: DISCONNECT_GRACE,
        })
        &&& self.hooks() is None
        &&& self.interrupted() == Set::<crate::ledger::PairingId>::empty()
    }

    fn on(mcp_path: &UnixPath, ipc_path: &UnixPath) -> (r: SessionManager)
        ensures
            r.is_fresh(mcp_path@, ipc_path@),
    {
        SessionManager {
            mcp_socket_path: mcp_path.duplicate(),
            ipc_socket_path: ipc_path.duplicate(),
            census: Census { count: 0, next_id: 0, deadline: None, grace: DISCONNECT_GRACE },
            mismatches: MismatchInterrupts::new(),
            hook_state: None,
        }
    }

    /// A daemon on the sockets at these paths; the report where `bound` says that
    /// binding them failed.
    pub fn bind_at(
        mcp_path: &UnixPath,
        ipc_path: &UnixPath,
        bound: Result<(), BindFailure>,
    ) -> (r: Result<SessionManager, String>)
        ensures
            match bound {
                Ok(_) => r matches Ok(m) && m.is_fresh(mcp_path@, ipc_path@),
                Err(f) => r matches Err(m) && m@ == bind_report(f, mcp_path@, ipc_path@),
            },
    {
        match bound {
            Ok(_) => Ok(Self::on(mcp_path, ipc_path)),
            Err(f) => Err(report_bind_failure(&f, mcp_path, ipc_path)),
        }
    }

    /// A daemon on the sockets below the state directory.
    pub fn bind(state_dir: &UnixPath, bound: Result<(), BindFailure>) -> (r: Result<
        SessionManager,
        String,
    >)
        ensures
            ({
                let mcp = daemon_file(state_dir@, "catenary-mcp.sock"@);
                let ipc = daemon_file(state_dir@, "catenary.sock"@);
                match bound {
                    Ok(_) => r matches Ok(m) && m.is_fresh(mcp, ipc),
                    Err(f) => r matches Err(m) && m@ == bind_report(f, mcp, ipc),
                }
            }),
    {
        Self::bind_at(&mcp_socket_path(state_dir), &socket_path(state_dir), bound)
    }

    /// A daemon on sockets that are bound already: it takes over their files, and
    /// the guard of the boot lets go of them.
    pub fn from_sockets(sockets: &mut DaemonSockets) -> (r: SessionManager)
        ensures
            r.is_fresh(old(sockets).mcp_path@, old(sockets).ipc_path@),
            !final(sockets).guard.armed,
            final(sockets).mcp_path == old(sockets).mcp_path,
            final(sockets).ipc_path == old(sockets).ipc_path,
    {
        sockets.guard.disarm();
        Self::on(&sockets.mcp_path, &sockets.ipc_path)
    }

    /// The same daemon with another grace window.
    pub fn with_grace(self, grace: u64) -> (r: SessionManager)
        requires
            self.wf(),
        ensures
            r.wf(),
            r.paths() == self.paths(),
            r.clients() == (Census { grace, ..self.clients() }),
            r.hooks() == self.hooks(),
            r.interrupted() == self.interrupted(),
    {
        let mut m = self;
        m.census.grace = grace;
        m
    }

    /// The same daemon with sessions.
    pub fn with_session(self, facts: BootFacts) -> (r: SessionManager)
        requires
            self.wf(),
        ensures
            r.wf(),
            r.paths() == self.paths(),
            r.clients() == self.clients(),
            r.interrupted() == self.interrupted(),
            r.hooks() == Some(booted(facts.seed@, facts.pins@, facts.worktrees@)),
    {
        let mut m = self;
        m.hook_state = Some(boot(facts));
        m
    }

    /// The state behind the hooks.
    pub fn hook_state(&mut self) -> (r: Option<&mut HookState>)
        requires
            old(self).wf(),
        ensures
            old(self).hooks() is None ==> r is None && *final(self) == *old(self),
            old(self).hooks() is Some ==> {
                &&& r is Some
                &&& (*r->0).wf()
                &&& Some((*r->0)@) == old(self).hooks()
                &&& final(self).paths() == old(self).paths()
                &&& final(self).clients() == old(self).clients()
                &&& final(self).interrupted() == old(self).interrupted()
                &&& final(self).hooks() == Some((*final(r->0))@)
                &&& (*final(r->0)).wf() ==> final(self).wf()
            },
    {
        self.hook_state.as_mut()
    }

    /// One turn of the accept loop: what an event changes, and what to do about it.
    pub fn accept_loop(&mut self, event: AcceptEvent, now: u64) -> (r: AcceptAction)
        requires
            old(self).wf(),
            event is Disconnect && old(self).clients().arms() ==> now + old(self).clients().grace
                <= u64::MAX,
        ensures
            final(self).wf(),
            final(self).paths() == old(self).paths(),
            final(self).hooks() == old(self).hooks(),
            final(self).interrupted() == old(self).interrupted(),
            final(self).clients() == old(self).clients().after(event, now),
            r == old(self).clients().action(event, old(self).hooks() is Some),
    {
        match event {
            AcceptEvent::McpAccepted => {
                let id = self.census.next_id;
                self.census.deadline = None;
                self.census.next_id = self.census.next_id.wrapping_add(1);
                self.census.count = self.census.count.wrapping_add(1);
                AcceptAction::ServeMcp(id)
            },
            AcceptEvent::IpcAccepted => if self.hook_state.is_some() {
                AcceptAction::Dispatch
            } else {
                AcceptAction::Passthrough
            },
            AcceptEvent::Shutdown => AcceptAction::Exit,
            AcceptEvent::Disconnect => {
                if self.census.count == 0 && self.census.deadline.is_none() {
                    self.census.deadline = Some(now + self.census.grace);
                }
                AcceptAction::Continue
            },
            AcceptEvent::GraceExpired => {
                let armed = self.census.deadline.is_some();
                self.census.deadline = None;
                if armed && self.census.count == 0 {
                    AcceptAction::Exit
                } else {
                    AcceptAction::Continue
                }
            },
        }
    }

    /// The client on the connection `fd` is leaving: its roots are let go. It
    /// counts until the roots that are left are in force.
    pub fn release_client(&mut self, fd: u64) -> (r: ReleasedClient)
        requires
            old(self).wf(),
        ensures
            final(self).wf(),
            final(self).paths() == old(self).paths(),
            final(self).clients() == old(self).clients(),
            final(self).interrupted() == old(self).interrupted(),
            final(self).hooks() == match old(self).hooks() {
                Some(h) => Some(h.client_left(fd as nat)),
                None => None,
            },
            r.connection() == fd,
    {
        if let Some(h) = &mut self.hook_state {
            h.client_gone(fd);
        }
        ReleasedClient { fd }
    }

    /// The connection of a client whose roots were let go is closed: it counts no
    /// more.
    pub fn connection_closed(&mut self, released: ReleasedClient)
        requires
            old(self).wf(),
        ensures
            final(self).wf(),
            final(self).paths() == old(self).paths(),
            final(self).hooks() == old(self).hooks(),
            final(self).interrupted() == old(self).interrupted(),
            final(self).clients() == old(self).clients().closed(),
    {
        self.census.count = self.census.count.wrapping_sub(1);
    }

    /// A bridge says hello. Returns whether the version interrupt fires.
    pub fn bridge_hello(&mut self, bridge: Option<&str>, daemon: &str) -> (r: bool)
        requires
            old(self).wf(),
        ensures
            final(self).wf(),
            final(self).paths() == old(self).paths(),
            final(self).clients() == old(self).clients(),
            final(self).hooks() == old(self).hooks(),
            ({
                let pairing = (crate::json::str_option(bridge), daemon@);
                if pairing.0 == Some(daemon@) {
                    final(self).interrupted() == old(self).interrupted() && !r
                } else {
                    final(self).interrupted() == old(self).interrupted().insert(pairing) && r
                        == !old(self).interrupted().contains(pairing)
                }
            }),
    {
        self.mismatches.handle_bridge_hello(bridge, daemon)
    }

    /// How many clients are connected.
    pub fn connection_count(&self) -> (r: usize)
        ensures
            r == self.clients().count,
    {
        self.census.count
    }

    /// How long the daemon waits for a client to come back.
    pub fn grace(&self) -> (r: u64)
        ensures
            r == self.clients().grace,
    {
        self.census.grace
    }

    /// When the daemon exits unless a client connects.
    pub fn grace_deadline(&self) -> (r: Option<u64>)
        ensures
            r == self.clients().deadline,
    {
        self.census.deadline
    }

    /// The socket for bridges.
    pub fn mcp_path(&self) -> (r: &UnixPath)
        ensures
            r@ == self.paths().0,
    {
        &self.mcp_socket_path
    }

    /// The socket for hooks and commands.
    pub fn ipc_path(&self) -> (r: &UnixPath)
        ensures
            r@ == self.paths().1,
    {
        &self.ipc_socket_path
    }

    /// How many sessions there are.
    pub fn session_count(&self) -> (r: usize)
        requires
            self.wf(),
        ensures
            r == match self.hooks() {
                Some(h) => h.sessions.dom().len(),
                None => 0,
            },
    {
        match &self.hook_state {
            Some(h) => h.sessions.len(),
            None => 0,
        }
    }
}

/// The key of an MCP connection's log and of its roots.
pub open spec fn mcp_key(n: nat) -> Seq<char> {
    "mcp:"@ + decimal(n)
}

/// The key of an MCP connection.
pub fn mcp_contributor(n: u64) -> (r: String)
    ensures
        r@ == mcp_key(n as nat),
{
    concat2("mcp:", decimal_text(n).as_str())
}

/// Where a connection's root changes go.
#[derive(Clone, Copy, Debug, PartialEq, Eq, Structural)]
pub enum RootsWiring {
    /// To the tracker, and from there to the session.
    ThroughTracker,
    /// To the language servers.
    Direct,
    /// Nowhere.
    Nowhere,
}

/// Where a connection's root changes go, by what the daemon has.
pub fn roots_wiring(tracker: bool, lsp: bool, session: bool) -> (r: RootsWiring)
    ensures
        r == if tracker && lsp && session {
            RootsWiring::ThroughTracker
        } else if !tracker && lsp {
            RootsWiring::Direct
        } else {
            RootsWiring::Nowhere
        },
{
    if tracker && lsp && session {
        RootsWiring::ThroughTracker
    } else if !tracker && lsp {
        RootsWiring::Direct
    } else {
        RootsWiring::Nowhere
    }
}

/// Who is told of the roots that are left when a connection closes.
#[derive(Clone, Copy, Debug, PartialEq, Eq, Structural)]
pub enum SyncTarget {
    Session,
    Lsp,
    Nobody,
}

/// Who is told of the roots that are left: the session before the language
/// servers.
pub fn cleanup_target(session: bool, lsp: bool) -> (r: SyncTarget)
    ensures
        r == if session {
            SyncTarget::Session
        } else if lsp {
            SyncTarget::Lsp
        } else {
            SyncTarget::Nobody
        },
{
    if session {
        SyncTarget::Session
    } else if lsp {
        SyncTarget::Lsp
    } else {
        SyncTarget::Nobody
    }
}

/// A root as an MCP client names it.
#[derive(Debug)]
pub struct McpRoot {
    pub uri: String,
    pub name: Option<String>,
}

/// The path of a file URI.
pub fn root_uri_path(root: &McpRoot) -> (r: Option<UnixPath>)
    ensures
        r is Some == has_prefix(root.uri@, "file://"@),
        r is Some ==> root.uri@ == "file://"@ + r->0@,
{
    match strip_prefix(root.uri.as_str(), "file://") {
        Some(p) => Some(UnixPath::new(p)),
        None => None,
    }
}

/// The canonical paths of the file URIs among the roots, in order.
pub open spec fn canonical_roots(roots: Seq<McpRoot>, canonical: Seq<Option<UnixPath>>) -> Seq<
    Seq<char>,
>
    decreases roots.len(),
{
    if roots.len() == 0 {
        Seq::empty()
    } else {
        let before = canonical_roots(roots.drop_last(), canonical);
        if has_prefix(roots.last().uri@, "file://"@) {
            match canonical[roots.len() - 1] {
                Some(p) => before.push(p@),
                None => before,
            }
        } else {
            before
        }
    }
}

/// The canonical paths of an MCP client's roots: those of its file URIs that can
/// be resolved. `canonical` gives what each root's path resolves to.
pub fn parse_root_uris(roots: &[McpRoot], canonical: &[Option<UnixPath>]) -> (r: Vec<UnixPath>)
    requires
        roots@.len() == canonical@.len(),
    ensures
        spellings(r@) == canonical_roots(roots@, canonical@),
{
    let mut r: Vec<UnixPath> = Vec::new();
    let mut i: usize = 0;
    assert(spellings(r@) =~= canonical_roots(roots@.take(0), canonical@));
    while i < roots.len()
        invariant
            i <= roots.len(),
            roots@.len() == canonical@.len(),
            spellings(r@) == canonical_roots(roots@.take(i as int), canonical@),
        decreases roots.len() - i,
    {
        let ghost before = spellings(r@);
        proof {
            assert(roots@.take(i + 1).drop_last() =~= roots@.take(i as int));
            assert(roots@.take(i + 1).last() == roots@[i as int]);
        }
        if starts_with(roots[i].uri.as_str(), "file://") {
            if let Some(p) = &canonical[i] {
                r.push(p.duplicate());
                assert(spellings(r@) =~= before.push(p@));
            }
        }
        i += 1;
    }
    assert(roots@.take(roots.len() as int) =~= roots@);
    r
}

/// The path of the running program: where its file was replaced, the path of the
/// new file. `living` says whether a file is at the path without the mark.
pub fn heal_swapped_exe(exe: UnixPath, living: bool) -> (r: UnixPath)
    ensures
        r@ == match unmarked(exe@) {
            Some(p) => if living {
                p
            } else {
                exe@
            },
            None => exe@,
        },
{
    match unmarked_exe(&exe) {
        Some(p) => if living {
            p
        } else {
            exe
        },
        None => exe,
    }
}

/// The path without the mark that a replaced program's path bears.
pub open spec fn unmarked(exe: Seq<char>) -> Option<Seq<char>> {
    let mark = " (deleted)"@;
    if exe.len() >= mark.len() && exe.skip(exe.len() - mark.len()) == mark {
        Some(exe.take(exe.len() - mark.len()))
    } else {
        None
    }
}

/// The path without the mark that a replaced program's path bears; nothing where
/// it bears none.
pub fn unmarked_exe(exe: &UnixPath) -> (r: Option<UnixPath>)
    ensures
        path_option(r) == unmarked(exe@),
{
    let mark = " (deleted)";
    let n: usize = exe.as_str().unicode_len();
    let m: usize = mark.unicode_len();
    if n < m {
        return None;
    }
    let tail = exe.as_str().substring_char(n - m, n);
    assert(tail@ =~= exe@.skip(n - m));
    if crate::text::text_eq(tail, mark) {
        let head = exe.as_str().substring_char(0, n - m);
        assert(head@ =~= exe@.take(n - m));
        Some(UnixPath::new(head))
    } else {
        None
    }
}

/// A mount whose countdown lapsed: who mounted it, what it was, and who let go.
pub struct Retirement {
    pub contributor: String,
    pub root: UnixPath,
    pub released: Vec<String>,
}

/// The roots of a list of retirements.
pub open spec fn retired_roots(v: Seq<Retirement>) -> Seq<PathKey> {
    v.map_values(|e: Retirement| e.root.key())
}

/// The tracker after roots were retired one after the other.
pub open spec fn tracker_retired(v: TrackerView, roots: Seq<PathKey>) -> TrackerView
    decreases roots.len(),
{
    if roots.len() == 0 {
        v
    } else {
        tracker_retired(v, roots.drop_last()).retired(roots.last())
    }
}

/// The mount states after roots were retired one after the other.
pub open spec fn mounts_retired(
    m: WorktreeMountsView,
    v: TrackerView,
    roots: Seq<PathKey>,
) -> WorktreeMountsView
    decreases roots.len(),
{
    if roots.len() == 0 {
        m
    } else {
        mounts_retired(m, v, roots.drop_last()).remove_keys(
            tracker_retired(v, roots.drop_last()).holders(roots.last()),
        )
    }
}

/// The names of a list of retirements.
pub open spec fn retired_names(v: Seq<Retirement>) -> Seq<Seq<char>> {
    v.map_values(|e: Retirement| e.contributor@)
}

/// What a check against the disk removed.
pub struct DiskCheck {
    /// The worktrees that were forgotten.
    pub pruned: Vec<UnixPath>,
    /// The contributors that were reaped.
    pub reaped: Vec<String>,
}

/// Retires the roots of a list one after the other.
fn retire_all(
    tracker: &mut RootTracker,
    worktrees: &mut WorktreeMounts,
    lapsed: &Vec<(String, UnixPath)>,
) -> (r: Vec<Retirement>)
    requires
        old(tracker).wf(),
        old(worktrees).wf(),
    ensures
        final(tracker).wf(),
        final(worktrees).wf(),
        r.len() == lapsed.len(),
        retired_names(r@) == lapsed_names(lapsed@),
        forall|i: int|
            0 <= i < r.len() ==> (#[trigger] r[i]).root@ == lapsed[i].1@ && r[i].contributor@
                == lapsed[i].0@,
        final(tracker)@ == tracker_retired(old(tracker)@, retired_roots(r@)),
        final(worktrees)@ == mounts_retired(old(worktrees)@, old(tracker)@, retired_roots(r@)),
        forall|i: int|
            0 <= i < r.len() ==> views((#[trigger] r[i]).released@).to_set() == tracker_retired(
                old(tracker)@,
                retired_roots(r@).take(i),
            ).holders(r[i].root.key()),
{
    let mut r: Vec<Retirement> = Vec::new();
    let ghost v = tracker@;
    let ghost m = worktrees@;
    let mut i: usize = 0;
    assert(retired_roots(r@) =~= Seq::empty());
    while i < lapsed.len()
        invariant
            i <= lapsed.len(),
            tracker.wf(),
            worktrees.wf(),
            r.len() == i,
            v == old(tracker)@,
            m == old(worktrees)@,
            forall|j: int|
                0 <= j < i ==> (#[trigger] r[j]).root@ == lapsed[j].1@ && r[j].contributor@
                    == lapsed[j].0@,
            tracker@ == tracker_retired(v, retired_roots(r@)),
            worktrees@ == mounts_retired(m, v, retired_roots(r@)),
            forall|j: int|
                0 <= j < r.len() ==> views((#[trigger] r[j]).released@).to_set() == tracker_retired(
                    v,
                    retired_roots(r@).take(j),
                ).holders(r[j].root.key()),
        decreases lapsed.len() - i,
    {
        let ghost roots = retired_roots(r@);
        let ghost done = r@;
        let root = lapsed[i].1.duplicate();
        let released = retire_root(tracker, worktrees, &root);
        r.push(Retirement { contributor: lapsed[i].0.clone(), root, released });
        proof {
            assert(retired_roots(r@) =~= roots.push(root.key()));
            assert(retired_roots(r@).drop_last() =~= roots);
            assert forall|j: int| 0 <= j < r.len() implies views(
                (#[trigger] r[j]).released@,
            ).to_set() == tracker_retired(v, retired_roots(r@).take(j)).holders(
                r[j].root.key(),
            ) by {
                if j < i {
                    assert(r[j] == done[j]);
                    assert(retired_roots(r@).take(j) =~= roots.take(j));
                } else {
                    assert(retired_roots(r@).take(j) =~= roots);
                }
            }
        }
        i += 1;
    }
    assert(retired_names(r@) =~= lapsed_names(lapsed@));
    r
}

/// Forgets the mount states of a list of contributors.
fn forget_mounts(worktrees: &mut WorktreeMounts, names: &Vec<String>)
    requires
        old(worktrees).wf(),
    ensures
        final(worktrees).wf(),
        final(worktrees)@ == old(worktrees)@.remove_keys(views(names@).to_set()),
{
    let ghost all = views(names@);
    let ghost m = worktrees@;
    let mut i: usize = 0;
    assert(all.take(0).to_set() =~= Set::empty());
    assert(m.remove_keys(Set::empty()) =~= m);
    while i < names.len()
        invariant
            i <= names.len(),
            all == views(names@),
            m == old(worktrees)@,
            worktrees.wf(),
            worktrees@ == m.remove_keys(all.take(i as int).to_set()),
        decreases names.len() - i,
    {
        proof {
            lemma_take_next(all, i as int);
            assert(all[i as int] == names@[i as int]@);
            assert(m.remove_keys(all.take(i + 1).to_set()) =~= m.remove_keys(
                all.take(i as int).to_set(),
            ).remove(all[i as int]));
        }
        worktrees.remove(names[i].as_str());
        i += 1;
    }
    assert(all.take(names.len() as int) =~= all);
}

impl HookView {
    /// After a client declared its roots.
    pub open spec fn client_declared(self, fd: nat, roots: Declared) -> HookView {
        match self.tracker {
            Some(t) => HookView { tracker: Some(t.set(mcp_key(fd), roots)), ..self },
            None => self,
        }
    }

    /// After a client went.
    pub open spec fn client_left(self, fd: nat) -> HookView {
        match self.tracker {
            Some(t) => HookView { tracker: Some(t.removed(mcp_key(fd))), ..self },
            None => self,
        }
    }
}

impl HookState {
    /// The client on the connection `fd` declares its roots: they replace those
    /// that it declared before.
    pub fn client_roots_changed(&mut self, fd: u64, roots: Vec<UnixPath>)
        requires
            old(self).wf(),
        ensures
            final(self).wf(),
            final(self)@ == old(self)@.client_declared(fd as nat, first_spellings(roots@)),
    {
        if let Some(t) = &mut self.tracker {
            t.set_roots(mcp_contributor(fd).as_str(), roots);
        }
    }

    /// The client on the connection `fd` went: its roots are let go.
    pub fn client_gone(&mut self, fd: u64)
        requires
            old(self).wf(),
        ensures
            final(self).wf(),
            final(self)@ == old(self)@.client_left(fd as nat),
    {
        if let Some(t) = &mut self.tracker {
            t.remove_contributor(mcp_contributor(fd).as_str());
        }
    }

    /// Retires a root whose directory is gone or whose worktree was removed.
    /// Returns the contributors that let go.
    pub fn retire(&mut self, root: &UnixPath) -> (r: Vec<String>)
        requires
            old(self).wf(),
        ensures
            final(self).wf(),
            final(self)@ == old(self)@.retired(root.key()),
            views(r@).no_duplicates(),
            views(r@).to_set() == match old(self)@.tracker {
                Some(t) => t.holders(root.key()),
                None => Set::empty(),
            },
    {
        if let Some(t) = &mut self.tracker {
            retire_root(t, &mut self.worktrees, root)
        } else {
            Vec::new()
        }
    }

    /// Retires the mounts of the kept worktrees whose countdown has lapsed at
    /// `now`, one after the other.
    pub fn retire_lapsed(&mut self, now: u64) -> (r: Vec<Retirement>)
        requires
            old(self).wf(),
        ensures
            final(self).wf(),
            retired_names(r@).no_duplicates(),
            retired_names(r@).to_set() == if old(self)@.tracker is Some {
                worktrees_lapsed(old(self)@.worktrees, now, WORKTREE_KEPT_COUNTDOWN)
            } else {
                Set::empty()
            },
            forall|i: int|
                0 <= i < r.len() ==> (#[trigger] r[i]).root@
                    == old(self)@.worktrees[r[i].contributor@].root,
            match old(self)@.tracker {
                Some(t) => {
                    &&& final(self)@ == (HookView {
                        tracker: Some(tracker_retired(t, retired_roots(r@))),
                        worktrees: mounts_retired(old(self)@.worktrees, t, retired_roots(r@)),
                        ..old(self)@
                    })
                    &&& forall|i: int|
                        0 <= i < r.len() ==> views((#[trigger] r[i]).released@).to_set()
                            == tracker_retired(t, retired_roots(r@).take(i)).holders(
                            r[i].root.key(),
                        )
                },
                None => final(self)@ == old(self)@,
            },
    {
        let lapsed = self.worktrees.expired_countdowns(now, WORKTREE_KEPT_COUNTDOWN);
        if let Some(t) = &mut self.tracker {
            retire_all(t, &mut self.worktrees, &lapsed)
        } else {
            let r: Vec<Retirement> = Vec::new();
            assert(retired_names(r@).to_set() =~= Set::empty());
            r
        }
    }

    /// Reaps the ephemeral roots that have been idle too long at `now`.
    pub fn reap_idle(&mut self, now: u64) -> (r: Vec<UnixPath>)
        requires
            old(self).wf(),
        ensures
            final(self).wf(),
            ({
                let gone = ephemeral_expired(
                    old(self)@.ephemeral,
                    now,
                    EPHEMERAL_ROOT_IDLE_TIMEOUT,
                );
                match old(self)@.tracker {
                    Some(t) => {
                        &&& keys(r@).no_duplicates()
                        &&& keys(r@).to_set() == gone
                        &&& forall|i: int|
                            0 <= i < r.len() ==> (#[trigger] r[i])@
                                == old(self)@.ephemeral[r[i].key()].root
                        &&& final(self)@ == (HookView {
                            tracker: Some(
                                t.removed_all(ephemeral_keys(old(self)@.ephemeral, gone)),
                            ),
                            ephemeral: old(self)@.ephemeral.remove_keys(gone),
                            ..old(self)@
                        })
                    },
                    None => r@.len() == 0 && final(self)@ == old(self)@,
                }
            }),
    {
        if let Some(t) = &mut self.tracker {
            reap_idle_ephemeral_roots(t, &mut self.ephemeral, now, EPHEMERAL_ROOT_IDLE_TIMEOUT)
        } else {
            Vec::new()
        }
    }

    /// Checks worktrees against the disk: those among the `missing` paths are
    /// forgotten, and the contributors that have no other root are reaped.
    pub fn check_disk(&mut self, missing: &[UnixPath]) -> (r: DiskCheck)
        requires
            old(self).wf(),
        ensures
            final(self).wf(),
            keys(r.pruned@).no_duplicates(),
            ({
                let lost = keys(missing@).to_set();
                match old(self)@.tracker {
                    Some(t) => {
                        &&& keys(r.pruned@).to_set() == old(self)@.registry.metas.dom().intersect(
                            lost,
                        )
                        &&& spelled_in(r.pruned@, old(self)@.registry.paths)
                        &&& views(r.reaped@).no_duplicates()
                        &&& views(r.reaped@).to_set() == missing_worktrees(t, lost)
                        &&& final(self)@ == (HookView {
                            tracker: Some(t.removed_all(missing_worktrees(t, lost))),
                            worktrees: old(self)@.worktrees.remove_keys(missing_worktrees(t, lost)),
                            registry: old(self)@.registry.pruned(keys(r.pruned@).to_set()),
                            ..old(self)@
                        })
                    },
                    None => r.pruned@.len() == 0 && r.reaped@.len() == 0 && final(self)@ == old(
                        self,
                    )@,
                }
            }),
    {
        if let Some(t) = &mut self.tracker {
            let pruned = self.registry.prune_missing(missing);
            let reaped = reap_missing_worktree_roots(t, missing);
            forget_mounts(&mut self.worktrees, &reaped);
            DiskCheck { pruned, reaped }
        } else {
            let pruned: Vec<UnixPath> = Vec::new();
            assert(keys(pruned@) =~= Seq::empty());
            DiskCheck { pruned, reaped: Vec::new() }
        }
    }
}

} // verus!
