//! What bridges, the accept loop and the start of a daemon promise.

use crate::daemon::{bind_daemon_sockets_at, cleanup_target, heal_swapped_exe, mcp_socket_path, parse_root_uris, roots_wiring, socket_path, AcceptAction, AcceptEvent, BindFailure, DaemonSockets, McpRoot, RootsWiring, SessionManager, SocketCleanupGuard, SyncTarget};
use crate::ephemeral::spellings;
use crate::json::str_option;
use crate::path::UnixPath;
use crate::proxy::{host_step, proxy_with_reconnect, read_json_line, reconnect_daemon, DaemonAction, DaemonEvent, DaemonPhase, HostAction, HostEvent, HostPhase, LineReader, ReconnectStep, SocketSlot};
use crate::tenacity::{ConnectWait, DaemonStart, DaemonStartOutcome, Intent, StartStep, TenaciousOutcome, WaitAction, WaitEvent, WaitPhase};
use crate::text::{decimal, digit, has_prefix};
use vstd::prelude::*;

verus! {

/// A line from the host is written as soon as the daemon is there, kept while it is
/// not, and given up only where the proxy is over; the next line is read only once this
/// one was written. A line whose write failed waits for another connection than the one
/// it failed on. The host's end is the proxy's end.
pub proof fn law_no_line_of_the_host_is_lost(
    phase: &mut HostPhase,
    slot: &mut SocketSlot,
    event: HostEvent,
    r: HostAction,
)
    requires
        old(phase).expects(event),
        call_ensures(host_step, (phase, slot, event), r),
    ensures
        ({
            let s = *old(slot);
            let ready = s.healthy && s.writer && !s.done;
            &&& event is Closed ==> r == (HostAction::Hangup { socket: s.writer }) && *final(phase)
                is Over && final(slot).done && !final(slot).writer
            &&& !(event is Closed) ==> *final(slot) == s
            &&& event is Written ==> r is ReadLine && *final(phase) is Reading
            &&& (r is ReadLine) == (event is Written)
            &&& (r is Stop) ==> s.done
            &&& s.done && !(event is Written) && !(event is Closed) ==> r is Stop && *final(phase)
                is Over
            &&& r is Write ==> ready && r == HostAction::Write(s.generation) && *final(phase)
                == HostPhase::Writing(s.generation)
            &&& event is Line && ready ==> r is Write
            &&& *old(phase) is Holding && ready ==> r is Write
            &&& !s.done && !(event is Written) && !(event is Closed) ==> *final(phase) is Holding
                || *final(phase) is Writing || *final(phase) is Failed
            &&& event is WriteFailed && *old(phase) == HostPhase::Writing(s.generation) ==> !(
            r is Write)
            &&& *old(phase) matches HostPhase::Failed(g) ==> (s.generation > g && ready
                ==> r is Write) && (s.generation <= g && !s.done ==> r is Wait)
        }),
{
}

/// What the daemon sends is forwarded before more is read; a daemon that is lost is
/// waited for while the host is there, and nothing is written to it meanwhile; a new
/// connection gets a new number and is written to. Only a connection that cannot be
/// used is a failure; a host that is gone ends the proxy for both directions.
pub proof fn law_the_proxy_outlives_its_daemon(
    phase: &mut DaemonPhase,
    slot: &mut SocketSlot,
    event: DaemonEvent,
    r: DaemonAction,
)
    requires
        old(phase).expects(event),
        event is Reconnected && !old(slot).done ==> old(slot).generation < u64::MAX,
        call_ensures(proxy_with_reconnect, (phase, slot, event), r),
    ensures
        ({
            let s = *old(slot);
            let t = *final(slot);
            &&& event is Bytes ==> r is Forward && *final(phase) is Forwarding && t == s
            &&& event is Forwarded ==> r is Read && *final(phase) is Reading && t == s
            &&& event is Lost && !s.done ==> r is Reconnect && *final(phase) is Reconnecting
                && !t.healthy && !t.done && t.generation == s.generation
            &&& event is Reconnected && !s.done ==> r is Resume && *final(phase) is Reading
                && t.healthy && t.writer && !t.done && t.generation == s.generation + 1
            &&& (event is Lost || event is Reconnected) && s.done ==> r is Finish && *final(phase)
                is Over && t == s
            &&& event is ForwardFailed || event is StdinClosed || event is QuitRequested
                ==> r is Finish && *final(phase) is Over && t.done && !t.writer
            &&& (r is Fail) == (event is Unusable)
            &&& s.done ==> t.done
        }),
{
}

/// A reconnect has come to an end where the first exchange was replayed; where it could
/// not be, it is tried again; a host that is gone and a quit are no reconnect.
pub proof fn law_a_reconnect_replays_the_first_exchange<T>(
    outcome: &TenaciousOutcome<T>,
    replayed: bool,
    r: ReconnectStep,
)
    requires
        call_ensures(reconnect_daemon::<T>, (outcome, replayed), r),
    ensures
        (r is Reconnected) == (outcome is Connected && replayed),
        (r is Again) == (outcome is Connected && !replayed),
        (r is StdinClosed) == (outcome is StdinClosed),
        (r is QuitRequested) == (outcome is QuitRequested),
{
}

/// A wait goes on until a daemon answers, the host hangs up or the marker says to quit,
/// which are looked at before the socket is tried; a daemon is spawned only where none
/// answers and no marker stands. Every tick that ends otherwise sleeps, never shorter
/// than the one before and never longer than the cap.
pub proof fn law_a_wait_goes_on(
    wait: &mut ConnectWait,
    event: WaitEvent,
    r: WaitAction,
)
    requires
        old(wait).wf(),
        old(wait).expects(event),
        call_ensures(ConnectWait::connect_with_tenacity, (wait, event), r),
    ensures
        ({
            let t = old(wait).tenacity;
            let u = final(wait).tenacity;
            &&& event matches WaitEvent::Looked { stdin_open, intent } ==> {
                &&& !stdin_open ==> r is StdinClosed
                &&& stdin_open && intent == Some(Intent::Quit) ==> r is QuitRequested
                &&& stdin_open && intent != Some(Intent::Quit) ==> r is Connect
                    && final(wait).phase == WaitPhase::Connecting(intent)
                &&& u == t
            }
            &&& event is Connected ==> r is Connected
            &&& event is Unreachable ==> r is Spawn || r == WaitAction::Sleep(t.backoff)
            &&& r is Spawn ==> event is Unreachable && old(wait).phase == WaitPhase::Connecting(
                None,
            )
            &&& event is Unreachable && old(wait).phase == WaitPhase::Connecting(None)
                && t.since_spawn is None ==> r is Spawn
            &&& event is Unreachable && old(wait).phase == WaitPhase::Connecting(None)
                && t.since_spawn is Some && t.since_spawn->0 >= 30_000_000_000 ==> r is Spawn
            &&& event is Unreachable && t.since_spawn is Some && t.since_spawn->0
                < 30_000_000_000 ==> !(r is Spawn)
            &&& event is Unreachable && old(wait).phase != WaitPhase::Connecting(None)
                ==> u.since_spawn is None
            &&& event matches WaitEvent::SpawnTried { launched } ==> r == WaitAction::Sleep(
                t.backoff,
            ) && (launched ==> u.since_spawn == Some(0u64)) && (!launched ==> u.since_spawn
                == t.since_spawn)
            &&& event is Slept ==> r is Look && u.backoff >= t.backoff && u.backoff <= 5_000_000_000
                && (2 * t.backoff <= 5_000_000_000 ==> u.backoff == 2 * t.backoff)
            &&& event is Slept && t.waited_total + t.backoff <= u64::MAX ==> u.waited_total
                == t.waited_total + t.backoff
            &&& r matches WaitAction::Look { progress } ==> (progress is Some ==> progress->0
                == u.waited_total && u.since_progress == 0)
            &&& (final(wait).phase is Over) == (r is Connected || r is StdinClosed
                || r is QuitRequested)
        }),
{
}

/// A start finds a daemon that is up, or spawns one and looks for it until it answers,
/// ten times and no more; where it never answers, the start says so and names the
/// socket.
pub proof fn law_a_start_spawns_once(
    start: &mut DaemonStart,
    reachable: bool,
    socket: &UnixPath,
    r: StartStep,
)
    requires
        call_ensures(DaemonStart::ensure_daemon_running, (start, reachable, socket), r),
    ensures
        (r is Spawn) == (old(start).looks is None && !reachable),
        r is Spawn ==> final(start).looks == Some(0u32),
        r == StartStep::Done(DaemonStartOutcome::AlreadyRunning) <==> old(start).looks is None
            && reachable,
        r == StartStep::Done(DaemonStartOutcome::Started) <==> old(start).looks is Some && old(
            start,
        ).looks->0 < 10 && reachable,
        (r is Sleep) == (old(start).looks is Some && old(start).looks->0 < 10 && !reachable),
        r is Sleep ==> final(start).looks == Some((old(start).looks->0 + 1) as u32),
        (r is GiveUp) == (old(start).looks is Some && old(start).looks->0 >= 10),
        r is GiveUp ==> crate::worktree_laws::holds(r->GiveUp_0@, socket@),
{
    if r is GiveUp {
        let m = r->GiveUp_0@;
        let head = "daemon spawned but did not bind its socket after "@ + crate::text::decimal(10)
            + " attempts ("@;
        assert(m == head + socket@ + ")"@);
    }
}

/// The accept loop gives every client a number of its own and counts it, and closes the
/// window that it came in; the last one that goes opens a window, a further disconnect
/// does not move it, and the daemon exits where it closes and nobody is there, or where
/// it is told to. Requests change nothing of this.
pub proof fn law_the_daemon_waits_for_its_clients(
    manager: &mut SessionManager,
    event: AcceptEvent,
    now: u64,
    r: AcceptAction,
)
    requires
        old(manager).wf(),
        event is Disconnect && old(manager).clients().arms() ==> now + old(manager).clients().grace
            <= u64::MAX,
        call_ensures(SessionManager::accept_loop, (manager, event, now), r),
    ensures
        ({
            let c = old(manager).clients();
            let d = final(manager).clients();
            let abandoned = event is GraceExpired && c.deadline is Some && c.count == 0;
            &&& (r is Exit) == (event is Shutdown || abandoned)
            &&& event is McpAccepted ==> r == AcceptAction::ServeMcp(c.next_id) && d.deadline
                is None
            &&& event is McpAccepted && c.count < usize::MAX ==> d.count == c.count + 1
            &&& event is McpAccepted && c.next_id < usize::MAX ==> d.next_id == c.next_id + 1
            &&& !(event is McpAccepted) ==> d.count == c.count && d.next_id == c.next_id
            &&& event is IpcAccepted ==> d == c && (r is Dispatch) == (old(manager).hooks() is Some)
                && (r is Passthrough) == (old(manager).hooks() is None)
            &&& event is Disconnect && c.count == 0 && c.deadline is None ==> d.deadline == Some(
                (now + c.grace) as u64,
            )
            &&& event is Disconnect && (c.count > 0 || c.deadline is Some) ==> d == c
            &&& event is GraceExpired ==> d.deadline is None
            &&& event is Disconnect ==> r is Continue
            &&& d.grace == c.grace
            &&& final(manager).hooks() == old(manager).hooks()
            &&& final(manager).paths() == old(manager).paths()
        }),
{
}

/// The interrupt over versions fires for a pairing that differs, once, and never for one
/// that agrees; a bridge that names no version differs.
pub proof fn law_versions_are_told_apart_once(
    manager: &mut SessionManager,
    bridge: Option<&str>,
    own: &str,
    r: bool,
    pairing: (Option<Seq<char>>, Seq<char>),
)
    requires
        old(manager).wf(),
        call_ensures(SessionManager::bridge_hello, (manager, bridge, own), r),
    ensures
        ({
            let this = (str_option(bridge), own@);
            let differs = bridge is None || bridge->0@ != own@;
            &&& r == (differs && !old(manager).interrupted().contains(this))
            &&& final(manager).interrupted().contains(pairing) == (old(
                manager,
            ).interrupted().contains(pairing) || differs && pairing == this)
            &&& final(manager).hooks() == old(manager).hooks()
            &&& final(manager).clients() == old(manager).clients()
        }),
{
}

/// A client's roots are the canonical paths of its file addresses that lead somewhere,
/// in their order: those of two lists are those of the one and then those of the other,
/// and any other address gives none.
pub proof fn law_file_addresses_become_roots(
    all: &[McpRoot],
    resolved: &[Option<UnixPath>],
    r: Vec<UnixPath>,
    path: Seq<char>,
)
    requires
        all@.len() == resolved@.len(),
        call_ensures(parse_root_uris, (all, resolved), r),
    ensures
        spellings(r@).contains(path) == exists|i: int|
            0 <= i < all.len() && is_root(#[trigger] all[i], resolved[i], path),
        r.len() <= all.len(),
        (forall|i: int|
            0 <= i < all.len() ==> has_prefix((#[trigger] all[i]).uri@, "file://"@)
                && resolved[i] is Some) ==> r.len() == all.len() && forall|i: int|
            0 <= i < all.len() ==> (#[trigger] r[i])@ == resolved[i]->0@,
{
    lemma_roots(all@, resolved@, path);
    let out = spellings(r@);
    assert(out.len() == r.len());
    if forall|i: int|
        0 <= i < all.len() ==> has_prefix((#[trigger] all[i]).uri@, "file://"@) && resolved[i]
            is Some {
        lemma_all_roots(all@, resolved@);
        assert forall|i: int| 0 <= i < all.len() implies (#[trigger] r[i])@ == resolved[i]->0@ by {
            assert(out[i] == r@[i]@);
        }
    }
}

/// The address is a file's and leads to the path.
pub open spec fn is_root(root: McpRoot, resolved: Option<UnixPath>, path: Seq<char>) -> bool {
    has_prefix(root.uri@, "file://"@) && resolved is Some && resolved->0@ == path
}

proof fn lemma_roots(all: Seq<McpRoot>, resolved: Seq<Option<UnixPath>>, path: Seq<char>)
    requires
        all.len() <= resolved.len(),
    ensures
        crate::daemon::canonical_roots(all, resolved).contains(path) == exists|i: int|
            0 <= i < all.len() && is_root(#[trigger] all[i], resolved[i], path),
        crate::daemon::canonical_roots(all, resolved).len() <= all.len(),
    decreases all.len(),
{
    if all.len() > 0 {
        let front = all.drop_last();
        lemma_roots(front, resolved, path);
        let before = crate::daemon::canonical_roots(front, resolved);
        let now = crate::daemon::canonical_roots(all, resolved);
        let n = all.len() - 1;
        if before.contains(path) {
            let i = choose|i: int|
                0 <= i < front.len() && is_root(#[trigger] front[i], resolved[i], path);
            assert(is_root(all[i], resolved[i], path));
            let j = choose|j: int| 0 <= j < before.len() && before[j] == path;
            assert(now[j] == path);
        }
        if is_root(all[n], resolved[n], path) {
            assert(now[before.len() as int] == path);
        }
        if now.contains(path) && !before.contains(path) {
            let j = choose|j: int| 0 <= j < now.len() && now[j] == path;
            if j < before.len() {
                assert(before[j] == path);
            }
            assert(is_root(all[n], resolved[n], path));
        }
        if exists|i: int| 0 <= i < all.len() && is_root(#[trigger] all[i], resolved[i], path) {
            let i = choose|i: int|
                0 <= i < all.len() && is_root(#[trigger] all[i], resolved[i], path);
            if i < front.len() {
                assert(is_root(front[i], resolved[i], path));
            }
        }
    }
}

proof fn lemma_all_roots(all: Seq<McpRoot>, resolved: Seq<Option<UnixPath>>)
    requires
        all.len() <= resolved.len(),
        forall|i: int|
            0 <= i < all.len() ==> has_prefix((#[trigger] all[i]).uri@, "file://"@) && resolved[i]
                is Some,
    ensures
        crate::daemon::canonical_roots(all, resolved).len() == all.len(),
        forall|i: int|
            0 <= i < all.len() ==> #[trigger] crate::daemon::canonical_roots(all, resolved)[i]
                == resolved[i]->0@,
    decreases all.len(),
{
    if all.len() > 0 {
        let front = all.drop_last();
        assert forall|i: int| 0 <= i < front.len() implies has_prefix(
            (#[trigger] front[i]).uri@,
            "file://"@,
        ) && resolved[i] is Some by {
            assert(front[i] == all[i]);
        }
        lemma_all_roots(front, resolved);
        assert(all[all.len() - 1] == all.last());
    }
}

/// A program whose file was replaced is found at the path of the new file, where there
/// is one; a path that bears no mark is left as it is.
pub proof fn law_a_replaced_program_is_found_again(
    exe: UnixPath,
    living: bool,
    r: UnixPath,
    base: Seq<char>,
)
    requires
        call_ensures(heal_swapped_exe, (exe, living), r),
    ensures
        exe@ == base + " (deleted)"@ && living ==> r@ == base,
        !living ==> r@ == exe@,
        r@ != exe@ ==> exe@ == r@ + " (deleted)"@,
{
    let mark = " (deleted)"@;
    if exe@ == base + mark {
        assert(exe@.skip(exe@.len() - mark.len()) =~= mark);
        assert(exe@.take(exe@.len() - mark.len()) =~= base);
    }
    if r@ != exe@ {
        assert(exe@ =~= exe@.take(exe@.len() - mark.len()) + exe@.skip(exe@.len() - mark.len()));
    }
}

/// An aborted boot removes both of its sockets; one that was taken over removes none.
pub proof fn law_an_aborted_boot_removes_its_sockets(
    mcp: &UnixPath,
    ipc: &UnixPath,
    bound: Result<(), BindFailure>,
    r: Result<DaemonSockets, String>,
    guard: &SocketCleanupGuard,
    gone: Vec<UnixPath>,
    taken: &mut DaemonSockets,
    manager: SessionManager,
)
    requires
        call_ensures(bind_daemon_sockets_at, (mcp, ipc, bound), r),
        r is Ok ==> *guard == r->Ok_0.guard && *old(taken) == r->Ok_0,
        call_ensures(SocketCleanupGuard::on_drop, (guard,), gone),
        call_ensures(SessionManager::from_sockets, (taken,), manager),
    ensures
        r is Ok == bound is Ok,
        r is Ok ==> gone.len() == 2 && gone[0]@ == mcp@ && gone[1]@ == ipc@,
        r is Ok ==> !final(taken).guard.armed && manager.paths() == (mcp@, ipc@)
            && manager.hooks() is None && manager.clients().count == 0,
{
    let out = spellings(gone@);
    assert(out.len() == gone.len());
    if r is Ok {
        assert(out[0] == gone@[0]@);
        assert(out[1] == gone@[1]@);
    }
}

/// The two sockets of a daemon lie in its own directory below the state directory, and
/// are not the same.
pub proof fn law_the_sockets_lie_below_the_state(dir: &UnixPath, mcp: UnixPath, ipc: UnixPath)
    requires
        call_ensures(mcp_socket_path, (dir,), mcp),
        call_ensures(socket_path, (dir,), ipc),
        dir@.len() > 0,
        dir@.last() != '/',
    ensures
        mcp@ == dir@ + "/catenary/catenary-mcp.sock"@,
        ipc@ == dir@ + "/catenary/catenary.sock"@,
{
    reveal_strlit("catenary");
    reveal_strlit("catenary-mcp.sock");
    reveal_strlit("catenary.sock");
    reveal_strlit("/catenary/catenary-mcp.sock");
    reveal_strlit("/catenary/catenary.sock");
    assert("catenary"@.len() == 8);
    assert("catenary"@[0] == 'c' && "catenary"@.last() == 'y');
    assert("catenary-mcp.sock"@[0] == 'c');
    assert("catenary.sock"@[0] == 'c');
    assert("/catenary/catenary-mcp.sock"@ =~= seq!['/'] + "catenary"@ + seq!['/']
        + "catenary-mcp.sock"@);
    assert("/catenary/catenary.sock"@ =~= seq!['/'] + "catenary"@ + seq!['/'] + "catenary.sock"@);
    let base = dir@ + seq!['/'] + "catenary"@;
    assert(base.last() == 'y');
    assert(mcp@ =~= dir@ + "/catenary/catenary-mcp.sock"@);
    assert(ipc@ =~= dir@ + "/catenary/catenary.sock"@);
}

/// Root changes go through the tracker where there is all of it, to the language servers
/// alone only where there is no tracker, and else nowhere; what is left at a disconnect
/// is told to the session before the language servers.
pub proof fn law_root_changes_reach_someone(
    tracker: bool,
    lsp: bool,
    session: bool,
    wiring: RootsWiring,
    target: SyncTarget,
)
    requires
        call_ensures(roots_wiring, (tracker, lsp, session), wiring),
        call_ensures(cleanup_target, (session, lsp), target),
    ensures
        (wiring is ThroughTracker) == (tracker && lsp && session),
        (wiring is Direct) == (!tracker && lsp),
        (target is Session) == session,
        (target is Lsp) == (!session && lsp),
        (target is Nobody) == (!session && !lsp),
{
}

/// A line is handed out whole, with its break, and exactly when it is complete; its text
/// has the very bytes of the line.
pub proof fn law_a_line_is_read_whole(
    reader: &mut LineReader,
    byte: u8,
    r: Option<Vec<u8>>,
    line: Vec<u8>,
    text: Result<String, crate::proxy::NotUtf8>,
)
    requires
        call_ensures(LineReader::push, (reader, byte), r),
        r is Some ==> line == r->0,
        call_ensures(read_json_line, (line,), text),
    ensures
        r is Some == (byte == 10),
        r is Some ==> line@ == old(reader)@.push(byte) && final(reader)@.len() == 0,
        r is None ==> final(reader)@ == old(reader)@.push(byte),
        text is Ok ==> vstd::utf8::encode_utf8(text->Ok_0@) == line@,
        text is Err ==> !vstd::utf8::valid_utf8(line@),
{
}

/// The number that a numeral stands for.
pub open spec fn numeral(text: Seq<char>) -> int
    decreases text.len(),
{
    if text.len() == 0 {
        0
    } else {
        10 * numeral(text.drop_last()) + (text.last() as u32 - '0' as u32)
    }
}

/// A number is written so that it can be read again: no two numbers look alike, and no
/// two connections have the same key.
pub proof fn law_numerals_stand_for_their_numbers(n: nat, m: nat)
    ensures
        numeral(decimal(n)) == n,
        decimal(n) == decimal(m) ==> n == m,
        "mcp:"@ + decimal(n) == "mcp:"@ + decimal(m) ==> n == m,
{
    lemma_numeral(n);
    lemma_numeral(m);
    if "mcp:"@ + decimal(n) == "mcp:"@ + decimal(m) {
        let k = "mcp:"@.len() as int;
        assert(("mcp:"@ + decimal(n)).skip(k) =~= decimal(n));
        assert(("mcp:"@ + decimal(m)).skip(k) =~= decimal(m));
    }
}

proof fn lemma_digit(d: nat)
    requires
        d < 10,
    ensures
        digit(d).len() == 1,
        digit(d)[0] as u32 - '0' as u32 == d,
{
    reveal_strlit("0");
    reveal_strlit("1");
    reveal_strlit("2");
    reveal_strlit("3");
    reveal_strlit("4");
    reveal_strlit("5");
    reveal_strlit("6");
    reveal_strlit("7");
    reveal_strlit("8");
    reveal_strlit("9");
}

proof fn lemma_numeral(n: nat)
    ensures
        numeral(decimal(n)) == n,
    decreases n,
{
    let last = n % 10;
    lemma_digit(last);
    if n < 10 {
        assert(digit(n).drop_last() =~= Seq::<char>::empty());
        assert(numeral(Seq::<char>::empty()) == 0);
    } else {
        lemma_numeral(n / 10);
        let text = decimal(n / 10) + digit(last);
        assert(text.drop_last() =~= decimal(n / 10));
        assert(text.last() == digit(last)[0]);
    }
}

} // verus!
