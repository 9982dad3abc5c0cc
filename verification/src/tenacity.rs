//! The bridge's indefinite wait for a daemon.

use vstd::prelude::*;

verus! {

/// The backoff begins here.
pub const CONNECT_BACKOFF_FLOOR: u64 = 100_000_000;

/// The backoff grows no further.
pub const CONNECT_BACKOFF_CAP: u64 = 5_000_000_000;

/// How much waiting lies between two progress reports.
pub const WAIT_PROGRESS_INTERVAL: u64 = 30_000_000_000;

/// How much waiting a spawned daemon is given before another is spawned.
pub const SPAWN_RETRY_INTERVAL: u64 = 30_000_000_000;

/// How often `catenary start` looks for the daemon it spawned.
pub const MAX_CONNECT_ATTEMPTS: u32 = 10;

/// The pause between two looks.
pub const CONNECT_RETRY_DELAY: u64 = 100_000_000;

/// What the intent marker says.
#[derive(Clone, Copy, Debug, PartialEq, Eq, Structural)]
pub enum Intent {
    /// The daemon is down on purpose.
    Stop,
    /// The bridges are to end.
    Quit,
}

/// How a wait ends, or that it goes on with an attempt to connect.
#[derive(Clone, Copy, Debug, PartialEq, Eq, Structural)]
pub enum TickStart {
    /// The host's standard input is closed.
    StdinClosed,
    /// The marker says to quit.
    QuitRequested,
    /// Try the socket.
    TryConnect,
}

/// The outcome of the wait.
#[derive(Debug, PartialEq, Eq)]
pub enum TenaciousOutcome<T> {
    /// A daemon answered.
    Connected(T),
    /// The host hung up.
    StdinClosed,
    /// The marker said to quit.
    QuitRequested,
}

/// The state of a wait.
#[derive(Clone, Copy)]
pub struct Tenacity {
    /// The next sleep.
    pub backoff: u64,
    /// The waiting so far.
    pub waited_total: u64,
    /// The waiting since the last progress report.
    pub since_progress: u64,
    /// The waiting since the last spawn, nothing where none is under way.
    pub since_spawn: Option<u64>,
    /// Whether an attempt has failed.
    pub waiting: bool,
}

/// The sum, capped at the largest number.
pub open spec fn saturating_sum(a: u64, b: u64) -> u64 {
    if a + b > u64::MAX {
        u64::MAX
    } else {
        (a + b) as u64
    }
}

/// The next backoff: twice the last one, up to the cap.
pub open spec fn next_backoff(b: u64) -> u64 {
    if 2 * b > CONNECT_BACKOFF_CAP {
        CONNECT_BACKOFF_CAP
    } else {
        (2 * b) as u64
    }
}

/// What a tick begins with: a closed standard input ends the wait, then a quit
/// marker, both before the socket is tried.
pub open spec fn tick_start(stdin_open: bool, intent: Option<Intent>) -> TickStart {
    if !stdin_open {
        TickStart::StdinClosed
    } else if intent == Some(Intent::Quit) {
        TickStart::QuitRequested
    } else {
        TickStart::TryConnect
    }
}

impl Tenacity {
    /// The backoff is between floor and cap.
    pub open spec fn wf(self) -> bool {
        CONNECT_BACKOFF_FLOOR <= self.backoff <= CONNECT_BACKOFF_CAP
    }

    /// A spawn is due: none is under way, or the last one has had its time.
    pub open spec fn spawn_due(self) -> bool {
        match self.since_spawn {
            None => true,
            Some(since) => since >= SPAWN_RETRY_INTERVAL,
        }
    }

    /// After an attempt that failed under `intent`.
    pub open spec fn failed(self, intent: Option<Intent>) -> Tenacity {
        Tenacity {
            waiting: true,
            since_spawn: if intent is None {
                self.since_spawn
            } else {
                None
            },
            ..self
        }
    }

    /// After a spawn.
    pub open spec fn spawned(self, launched: bool) -> Tenacity {
        Tenacity {
            since_spawn: if launched {
                Some(0u64)
            } else {
                self.since_spawn
            },
            ..self
        }
    }

    /// After the sleep that ends a tick.
    pub open spec fn slept(self) -> Tenacity {
        Tenacity {
            backoff: next_backoff(self.backoff),
            waited_total: saturating_sum(self.waited_total, self.backoff),
            since_progress: if saturating_sum(self.since_progress, self.backoff)
                >= WAIT_PROGRESS_INTERVAL {
                0
            } else {
                saturating_sum(self.since_progress, self.backoff)
            },
            since_spawn: match self.since_spawn {
                Some(since) => Some(saturating_sum(since, self.backoff)),
                None => None,
            },
            waiting: self.waiting,
        }
    }

    /// What is reported after the sleep that ends a tick: how much has been waited
    /// in all, where it is time for a report.
    pub open spec fn report(self) -> Option<u64> {
        if saturating_sum(self.since_progress, self.backoff) >= WAIT_PROGRESS_INTERVAL {
            Some(saturating_sum(self.waited_total, self.backoff))
        } else {
            None
        }
    }

    /// A wait that begins.
    pub fn new() -> (r: Tenacity)
        ensures
            r.wf(),
            r == (Tenacity {
                backoff: CONNECT_BACKOFF_FLOOR,
                waited_total: 0,
                since_progress: 0,
                since_spawn: None,
                waiting: false,
            }),
    {
        Tenacity {
            backoff: CONNECT_BACKOFF_FLOOR,
            waited_total: 0,
            since_progress: 0,
            since_spawn: None,
            waiting: false,
        }
    }

    /// Begins a tick.
    pub fn start_tick(&self, stdin_open: bool, intent: Option<Intent>) -> (r: TickStart)
        ensures
            r == tick_start(stdin_open, intent),
    {
        if !stdin_open {
            return TickStart::StdinClosed;
        }
        match intent {
            Some(Intent::Quit) => TickStart::QuitRequested,
            _ => TickStart::TryConnect,
        }
    }

    /// The socket could not be reached. Returns whether a daemon is to be
    /// spawned: never while a marker stands, and otherwise when one is due.
    pub fn connect_failed(&mut self, intent: Option<Intent>) -> (r: bool)
        ensures
            *final(self) == old(self).failed(intent),
            r == (intent is None && old(self).spawn_due()),
    {
        self.waiting = true;
        match intent {
            None => match self.since_spawn {
                None => true,
                Some(since) => since >= SPAWN_RETRY_INTERVAL,
            },
            Some(_) => {
                self.since_spawn = None;
                false
            },
        }
    }

    /// A spawn was tried; where it launched nothing, the next tick tries again.
    pub fn spawn_tried(&mut self, launched: bool)
        ensures
            *final(self) == old(self).spawned(launched),
    {
        if launched {
            self.since_spawn = Some(0);
        }
    }

    /// Ends a tick: the sleep is over. Returns what to report.
    pub fn back_off(&mut self) -> (r: Option<u64>)
        requires
            old(self).wf(),
        ensures
            final(self).wf(),
            *final(self) == old(self).slept(),
            r == old(self).report(),
    {
        let sleep = self.backoff;
        self.waited_total = self.waited_total.saturating_add(sleep);
        self.since_progress = self.since_progress.saturating_add(sleep);
        if let Some(since) = self.since_spawn {
            self.since_spawn = Some(since.saturating_add(sleep));
        }
        let mut progress: Option<u64> = None;
        if self.since_progress >= WAIT_PROGRESS_INTERVAL {
            self.since_progress = 0;
            progress = Some(self.waited_total);
        }
        let doubled: u64 = sleep * 2;
        self.backoff = if doubled > CONNECT_BACKOFF_CAP {
            CONNECT_BACKOFF_CAP
        } else {
            doubled
        };
        progress
    }
}

/// Where a wait stands: what its caller is doing.
#[derive(Clone, Copy, Debug, PartialEq, Eq, Structural)]
pub enum WaitPhase {
    /// Looking at the standard input and the marker.
    Looking,
    /// Trying the socket, under this marker.
    Connecting(Option<Intent>),
    /// Spawning a daemon.
    Spawning,
    /// Sleeping.
    Sleeping,
    /// Nothing: the wait is over.
    Over,
}

/// What a wait hears from its caller.
#[derive(Clone, Copy, Debug, PartialEq, Eq, Structural)]
pub enum WaitEvent {
    /// Whether the standard input is open, and what the marker says.
    Looked { stdin_open: bool, intent: Option<Intent> },
    /// The socket answered.
    Connected,
    /// The socket did not answer.
    Unreachable,
    /// A spawn was tried, and launched a daemon or not.
    SpawnTried { launched: bool },
    /// The sleep is over.
    Slept,
}

/// What a wait asks of its caller.
#[derive(Clone, Copy, Debug, PartialEq, Eq, Structural)]
pub enum WaitAction {
    /// Look at the standard input and the marker. Where the wait has lasted so
    /// long since the last report, report first that so much has been waited.
    Look { progress: Option<u64> },
    /// Try the socket.
    Connect,
    /// Clear stale sockets and spawn a daemon.
    Spawn,
    /// Sleep this long.
    Sleep(u64),
    /// The wait is over: a daemon answered.
    Connected,
    /// The wait is over: the host hung up.
    StdinClosed,
    /// The wait is over: the marker said to quit.
    QuitRequested,
}

impl WaitAction {
    /// The wait is over.
    pub open spec fn ends(self) -> bool {
        self is Connected || self is StdinClosed || self is QuitRequested
    }
}

/// A wait for a daemon, one step at a time.
#[derive(Clone, Copy)]
pub struct ConnectWait {
    pub tenacity: Tenacity,
    pub phase: WaitPhase,
}

impl ConnectWait {
    /// The backoff is in order.
    pub open spec fn wf(self) -> bool {
        self.tenacity.wf()
    }

    /// The event is one that the wait is waiting for.
    pub open spec fn expects(self, event: WaitEvent) -> bool {
        match self.phase {
            WaitPhase::Looking => event is Looked,
            WaitPhase::Connecting(_) => event is Connected || event is Unreachable,
            WaitPhase::Spawning => event is SpawnTried,
            WaitPhase::Sleeping => event is Slept,
            WaitPhase::Over => false,
        }
    }

    /// The wait in another phase.
    pub open spec fn at(self, tenacity: Tenacity, phase: WaitPhase) -> ConnectWait {
        ConnectWait { tenacity, phase }
    }

    /// The wait after an event, and what it asks for.
    pub open spec fn next(self, event: WaitEvent) -> (ConnectWait, WaitAction) {
        let t = self.tenacity;
        match (self.phase, event) {
            (WaitPhase::Looking, WaitEvent::Looked { stdin_open, intent }) => match tick_start(
                stdin_open,
                intent,
            ) {
                TickStart::StdinClosed => (self.at(t, WaitPhase::Over), WaitAction::StdinClosed),
                TickStart::QuitRequested => (
                    self.at(t, WaitPhase::Over),
                    WaitAction::QuitRequested,
                ),
                TickStart::TryConnect => (
                    self.at(t, WaitPhase::Connecting(intent)),
                    WaitAction::Connect,
                ),
            },
            (WaitPhase::Connecting(_), WaitEvent::Connected) => (
                self.at(t, WaitPhase::Over),
                WaitAction::Connected,
            ),
            (WaitPhase::Connecting(intent), WaitEvent::Unreachable) => if intent is None
                && t.spawn_due() {
                (self.at(t.failed(intent), WaitPhase::Spawning), WaitAction::Spawn)
            } else {
                (self.at(t.failed(intent), WaitPhase::Sleeping), WaitAction::Sleep(t.backoff))
            },
            (WaitPhase::Spawning, WaitEvent::SpawnTried { launched }) => (
                self.at(t.spawned(launched), WaitPhase::Sleeping),
                WaitAction::Sleep(t.backoff),
            ),
            (WaitPhase::Sleeping, WaitEvent::Slept) => (
                self.at(t.slept(), WaitPhase::Looking),
                WaitAction::Look { progress: t.report() },
            ),
            _ => (self, WaitAction::Look { progress: None }),
        }
    }

    /// A wait that begins, with a look at the standard input and the marker.
    pub fn new() -> (r: ConnectWait)
        ensures
            r.wf(),
            r.phase is Looking,
            r.tenacity.backoff == CONNECT_BACKOFF_FLOOR,
            r.tenacity.waited_total == 0,
            r.tenacity.since_progress == 0,
            r.tenacity.since_spawn is None,
            !r.tenacity.waiting,
    {
        ConnectWait { tenacity: Tenacity::new(), phase: WaitPhase::Looking }
    }

    /// One step of the wait. The order of a tick is fixed: the standard input,
    /// the marker, the socket, a spawn where one is due, and the sleep.
    pub fn connect_with_tenacity(&mut self, event: WaitEvent) -> (r: WaitAction)
        requires
            old(self).wf(),
            old(self).expects(event),
        ensures
            final(self).wf(),
            (*final(self), r) == old(self).next(event),
    {
        match (self.phase, event) {
            (WaitPhase::Looking, WaitEvent::Looked { stdin_open, intent }) => {
                match self.tenacity.start_tick(stdin_open, intent) {
                    TickStart::StdinClosed => {
                        self.phase = WaitPhase::Over;
                        WaitAction::StdinClosed
                    },
                    TickStart::QuitRequested => {
                        self.phase = WaitPhase::Over;
                        WaitAction::QuitRequested
                    },
                    TickStart::TryConnect => {
                        self.phase = WaitPhase::Connecting(intent);
                        WaitAction::Connect
                    },
                }
            },
            (WaitPhase::Connecting(_), WaitEvent::Connected) => {
                self.phase = WaitPhase::Over;
                WaitAction::Connected
            },
            (WaitPhase::Connecting(intent), WaitEvent::Unreachable) => {
                if self.tenacity.connect_failed(intent) {
                    self.phase = WaitPhase::Spawning;
                    WaitAction::Spawn
                } else {
                    self.phase = WaitPhase::Sleeping;
                    WaitAction::Sleep(self.tenacity.backoff)
                }
            },
            (WaitPhase::Spawning, WaitEvent::SpawnTried { launched }) => {
                self.tenacity.spawn_tried(launched);
                self.phase = WaitPhase::Sleeping;
                WaitAction::Sleep(self.tenacity.backoff)
            },
            (WaitPhase::Sleeping, WaitEvent::Slept) => {
                let progress = self.tenacity.back_off();
                self.phase = WaitPhase::Looking;
                WaitAction::Look { progress }
            },
            _ => WaitAction::Look { progress: None },
        }
    }
}

/// The bridge never ends itself: a wait is over only where a daemon answered, the
/// host hung up, or the marker said to quit; and then it is over at once.
pub proof fn law_only_three_things_end_a_wait(w: ConnectWait, event: WaitEvent)
    requires
        w.expects(event),
    ensures
        w.next(event).1 is Connected <==> event is Connected,
        w.next(event).1 is StdinClosed <==> (event matches WaitEvent::Looked { stdin_open, .. }
            && !stdin_open),
        w.next(event).1 is QuitRequested <==> (event matches WaitEvent::Looked {
            stdin_open,
            intent,
        } && stdin_open && intent == Some(Intent::Quit)),
        w.next(event).1.ends() <==> w.next(event).0.phase is Over,
{
}

/// A daemon is spawned only where no marker stands, the socket did not answer,
/// and the last spawn has had its time.
pub proof fn law_spawns_need_a_clear_marker(w: ConnectWait, event: WaitEvent)
    requires
        w.expects(event),
    ensures
        w.next(event).1 is Spawn <==> event is Unreachable && w.phase == WaitPhase::Connecting(
            None,
        ) && w.tenacity.spawn_due(),
        w.next(event).1 is Connect <==> w.next(event).0.phase is Connecting,
        w.next(event).1 is Sleep ==> w.next(event).1 == WaitAction::Sleep(w.tenacity.backoff),
{
}

/// The `n`-th sleep of a wait.
pub open spec fn backoff_at(n: nat) -> u64
    decreases n,
{
    if n == 0 {
        CONNECT_BACKOFF_FLOOR
    } else {
        next_backoff(backoff_at((n - 1) as nat))
    }
}

/// The backoff doubles up to the cap and stays there: from the seventh sleep on
/// it is the cap, and no sleep is longer.
pub proof fn law_backoff_doubles_to_the_cap(n: nat)
    ensures
        backoff_at(n) <= CONNECT_BACKOFF_CAP,
        n >= 6 ==> backoff_at(n) == CONNECT_BACKOFF_CAP,
        n < 6 ==> backoff_at(n) == CONNECT_BACKOFF_FLOOR * vstd::arithmetic::power2::pow2(n),
    decreases n,
{
    reveal_with_fuel(backoff_at, 8);
    vstd::arithmetic::power2::lemma2_to64();
    if n > 6 {
        law_backoff_doubles_to_the_cap((n - 1) as nat);
    }
}

/// Whatever happens in between, the sleep of the `n`-th tick is the `n`-th
/// backoff.
pub proof fn law_sleeps_follow_the_backoff(
    t: Tenacity,
    n: nat,
    intent: Option<Intent>,
    launched: bool,
)
    requires
        t.backoff == backoff_at(n),
    ensures
        t.failed(intent).backoff == backoff_at(n),
        t.failed(intent).spawned(launched).backoff == backoff_at(n),
        t.failed(intent).spawned(launched).slept().backoff == backoff_at(n + 1),
{
}

/// A stop marker lets nothing be spawned, and once it is cleared the very next
/// tick may spawn.
pub proof fn law_stop_never_spawns(t: Tenacity)
    ensures
        t.failed(Some(Intent::Stop)).slept().spawn_due(),
        t.failed(Some(Intent::Stop)).since_spawn is None,
{
}

/// The state after `n` ticks without a marker in which nothing is spawned.
pub open spec fn quiet_ticks(t: Tenacity, n: nat) -> Tenacity
    decreases n,
{
    if n == 0 {
        t
    } else {
        quiet_ticks(t, (n - 1) as nat).failed(None).slept()
    }
}

/// The sum of the sleeps of `n` quiet ticks.
pub open spec fn quiet_sleep(t: Tenacity, n: nat) -> int
    decreases n,
{
    if n == 0 {
        0
    } else {
        quiet_sleep(t, (n - 1) as nat) + quiet_ticks(t, (n - 1) as nat).backoff
    }
}

/// After a spawn that launched a daemon, the next one is due exactly when the
/// sleeps since then come to the retry interval.
pub proof fn law_respawns_are_paced(t: Tenacity, n: nat)
    requires
        t.wf(),
    ensures
        quiet_ticks(t.spawned(true), n).spawn_due() == (quiet_sleep(t.spawned(true), n)
            >= SPAWN_RETRY_INTERVAL),
        quiet_ticks(t.spawned(true), n).wf(),
        quiet_ticks(t.spawned(true), n).since_spawn matches Some(since) && since == if quiet_sleep(
            t.spawned(true),
            n,
        ) > u64::MAX {
            u64::MAX as int
        } else {
            quiet_sleep(t.spawned(true), n)
        },
    decreases n,
{
    if n > 0 {
        law_respawns_are_paced(t, (n - 1) as nat);
    }
}

/// What `catenary start` found or did.
#[derive(Clone, Copy, Debug, PartialEq, Eq, Structural)]
pub enum DaemonStartOutcome {
    /// A daemon was up already.
    AlreadyRunning,
    /// A daemon was started and answers.
    Started,
}

/// What `catenary start` does next.
#[derive(Debug)]
pub enum StartStep {
    /// It is done.
    Done(DaemonStartOutcome),
    /// Clear stale sockets and spawn a daemon.
    Spawn,
    /// Sleep, then look again.
    Sleep(u64),
    /// Give up with this message.
    GiveUp(String),
}

/// A start of the daemon under way: nothing before the spawn, then the number of
/// looks.
pub struct DaemonStart {
    /// The looks since the spawn, nothing before it.
    pub looks: Option<u32>,
}

/// The message of a start that failed.
pub open spec fn start_failure(socket: Seq<char>) -> Seq<char> {
    "daemon spawned but did not bind its socket after "@ + crate::text::decimal(
        MAX_CONNECT_ATTEMPTS as nat,
    ) + " attempts ("@ + socket + ")"@
}

/// The looks after a step.
pub open spec fn looks_after(looks: Option<u32>, reachable: bool) -> Option<u32> {
    if reachable {
        looks
    } else {
        match looks {
            None => Some(0u32),
            Some(n) => if n >= MAX_CONNECT_ATTEMPTS {
                looks
            } else {
                Some((n + 1) as u32)
            },
        }
    }
}

/// The looks after `n` steps without an answer.
pub open spec fn looks_in_vain(n: nat) -> Option<u32>
    decreases n,
{
    if n == 0 {
        None
    } else {
        looks_after(looks_in_vain((n - 1) as nat), false)
    }
}

/// A start is bounded: after the spawn it looks for the daemon so often and no
/// more.
pub proof fn law_a_start_is_bounded(n: nat)
    requires
        n > 0,
    ensures
        looks_in_vain(n) == Some(
            if n - 1 < MAX_CONNECT_ATTEMPTS {
                (n - 1) as u32
            } else {
                MAX_CONNECT_ATTEMPTS
            },
        ),
    decreases n,
{
    if n > 1 {
        law_a_start_is_bounded((n - 1) as nat);
    } else {
        assert(looks_in_vain(0) is None);
    }
}

impl DaemonStart {
    /// Nothing has been done.
    pub fn new() -> (r: DaemonStart)
        ensures
            r.looks is None,
    {
        DaemonStart { looks: None }
    }

    /// One step: `reachable` says whether the daemon's socket at `socket` answers
    /// now. Where the looks are used up it is not asked any more.
    pub fn ensure_daemon_running(&mut self, reachable: bool, socket: &crate::path::UnixPath) -> (r:
        StartStep)
        ensures
            final(self).looks == looks_after(old(self).looks, reachable),
            match old(self).looks {
                None => if reachable {
                    r == StartStep::Done(DaemonStartOutcome::AlreadyRunning)
                } else {
                    r == StartStep::Spawn
                },
                Some(n) => if n >= MAX_CONNECT_ATTEMPTS {
                    r matches StartStep::GiveUp(m) && m@ == start_failure(socket@)
                } else if reachable {
                    r == StartStep::Done(DaemonStartOutcome::Started)
                } else {
                    r == StartStep::Sleep(CONNECT_RETRY_DELAY)
                },
            },
    {
        match self.looks {
            None => {
                if reachable {
                    StartStep::Done(DaemonStartOutcome::AlreadyRunning)
                } else {
                    self.looks = Some(0);
                    StartStep::Spawn
                }
            },
            Some(n) => {
                if n >= MAX_CONNECT_ATTEMPTS {
                    let mut m = "daemon spawned but did not bind its socket after ".to_owned();
                    m.append(crate::text::decimal_text(MAX_CONNECT_ATTEMPTS as u64).as_str());
                    m.append(" attempts (");
                    m.append(socket.as_str());
                    m.append(")");
                    StartStep::GiveUp(m)
                } else if reachable {
                    StartStep::Done(DaemonStartOutcome::Started)
                } else {
                    self.looks = Some(n + 1);
                    StartStep::Sleep(CONNECT_RETRY_DELAY)
                }
            },
        }
    }
}

} // verus!
