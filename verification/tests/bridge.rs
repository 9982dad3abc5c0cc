use catenary_router::path::UnixPath;
use catenary_router::proxy::{
    bridge_hello_line, host_step, proxy_with_reconnect, read_json_line, reconnect_daemon,
    DaemonAction, DaemonEvent, DaemonPhase, HostAction, HostEvent, HostPhase, LineReader,
    ReconnectStep, SocketSlot,
};
use catenary_router::tenacity::{
    ConnectWait, DaemonStart, DaemonStartOutcome, Intent, StartStep, TenaciousOutcome, WaitAction,
    WaitEvent, CONNECT_BACKOFF_FLOOR, CONNECT_RETRY_DELAY,
};
use std::cell::{Cell, RefCell};

/// Runs a wait to its end with these actions.
fn connect_with_tenacity<T>(
    mut try_connect: impl FnMut() -> Option<T>,
    mut spawn: impl FnMut() -> Result<(), String>,
    mut stdin_open: impl FnMut() -> bool,
    mut read_intent: impl FnMut() -> Option<Intent>,
    mut sleep: impl FnMut(u64),
) -> TenaciousOutcome<T> {
    let mut wait = ConnectWait::new();
    let mut connection: Option<T> = None;
    let mut action = WaitAction::Look { progress: None };
    loop {
        let event = match action {
            WaitAction::Look { .. } => {
                if stdin_open() {
                    WaitEvent::Looked { stdin_open: true, intent: read_intent() }
                } else {
                    WaitEvent::Looked { stdin_open: false, intent: None }
                }
            }
            WaitAction::Connect => {
                connection = try_connect();
                if connection.is_some() {
                    WaitEvent::Connected
                } else {
                    WaitEvent::Unreachable
                }
            }
            WaitAction::Spawn => WaitEvent::SpawnTried { launched: spawn().is_ok() },
            WaitAction::Sleep(d) => {
                sleep(d);
                WaitEvent::Slept
            }
            WaitAction::Connected => {
                return TenaciousOutcome::Connected(connection.expect("connected"));
            }
            WaitAction::StdinClosed => return TenaciousOutcome::StdinClosed,
            WaitAction::QuitRequested => return TenaciousOutcome::QuitRequested,
        };
        action = wait.connect_with_tenacity(event);
    }
}

#[test]
fn tenacity_outlives_the_retired_budgets_and_respawns() {
    let connects = Cell::new(0u32);
    let spawns = Cell::new(0u32);

    let outcome = connect_with_tenacity(
        || {
            connects.set(connects.get() + 1);
            (connects.get() > 350).then_some(())
        },
        || {
            spawns.set(spawns.get() + 1);
            Ok(())
        },
        || true,
        || None,
        |_| {},
    );

    assert_eq!(outcome, TenaciousOutcome::Connected(()));
    assert_eq!(
        connects.get(),
        351,
        "every tick tries the socket: no budget cuts the loop short",
    );
    assert!(spawns.get() >= 1, "the no-marker crash path may spawn");
}

#[test]
fn tenacity_backoff_doubles_to_cap() {
    let connects = Cell::new(0u32);
    let sleeps = RefCell::new(Vec::new());

    let outcome = connect_with_tenacity(
        || {
            connects.set(connects.get() + 1);
            (connects.get() > 10).then_some(())
        },
        || Ok(()),
        || true,
        || None,
        |d| sleeps.borrow_mut().push(d),
    );

    assert_eq!(outcome, TenaciousOutcome::Connected(()));
    let millis: Vec<u64> = sleeps.borrow().iter().map(|d| d / 1_000_000).collect();
    assert_eq!(
        millis,
        vec![100, 200, 400, 800, 1600, 3200, 5000, 5000, 5000, 5000],
        "capped exponential backoff: 100 ms doubling to a 5 s cap",
    );
}

#[test]
fn tenacity_stop_marker_never_spawns_and_reattaches() {
    let connects = Cell::new(0u32);
    let spawns = Cell::new(0u32);

    let outcome = connect_with_tenacity(
        || {
            connects.set(connects.get() + 1);
            (connects.get() > 50).then_some(())
        },
        || {
            spawns.set(spawns.get() + 1);
            Ok(())
        },
        || true,
        || Some(Intent::Stop),
        |_| {},
    );

    assert_eq!(
        outcome,
        TenaciousOutcome::Connected(()),
        "a socket appearing under `stop` is reattached to",
    );
    assert_eq!(spawns.get(), 0, "`stop` means never spawn");
}

#[test]
fn tenacity_cleared_stop_marker_reenables_spawn() {
    let connects = Cell::new(0u32);
    let spawns = Cell::new(0u32);
    let intent_reads = Cell::new(0u32);

    let outcome = connect_with_tenacity(
        || {
            connects.set(connects.get() + 1);
            (connects.get() > 10).then_some(())
        },
        || {
            spawns.set(spawns.get() + 1);
            Ok(())
        },
        || true,
        || {
            intent_reads.set(intent_reads.get() + 1);
            (intent_reads.get() <= 5).then_some(Intent::Stop)
        },
        |_| {},
    );

    assert_eq!(outcome, TenaciousOutcome::Connected(()));
    assert_eq!(
        spawns.get(),
        1,
        "no spawn while stopped; exactly one after the marker cleared",
    );
}

#[test]
fn tenacity_quit_marker_exits_promptly() {
    let connects = Cell::new(0u32);
    let spawns = Cell::new(0u32);
    let sleeps = Cell::new(0u32);

    let outcome = connect_with_tenacity(
        || {
            connects.set(connects.get() + 1);
            Some(())
        },
        || {
            spawns.set(spawns.get() + 1);
            Ok(())
        },
        || true,
        || Some(Intent::Quit),
        |_| sleeps.set(sleeps.get() + 1),
    );

    assert_eq!(outcome, TenaciousOutcome::QuitRequested);
    assert_eq!(connects.get(), 0, "quit wins before the connect attempt");
    assert_eq!(spawns.get(), 0, "quit never spawns");
    assert_eq!(sleeps.get(), 0, "quit never waits");
}

#[test]
fn tenacity_quit_marker_mid_wait_takes_next_tick() {
    let intent_reads = Cell::new(0u32);
    let sleeps = Cell::new(0u32);

    let outcome = connect_with_tenacity(
        || None::<()>,
        || Ok(()),
        || true,
        || {
            intent_reads.set(intent_reads.get() + 1);
            (intent_reads.get() > 3).then_some(Intent::Quit)
        },
        |_| sleeps.set(sleeps.get() + 1),
    );

    assert_eq!(outcome, TenaciousOutcome::QuitRequested);
    assert_eq!(
        sleeps.get(),
        3,
        "three no-marker waiting ticks, then the quit is obeyed",
    );
}

#[test]
fn tenacity_stdin_eof_exits_clean() {
    let stdin_polls = Cell::new(0u32);
    let sleeps = Cell::new(0u32);

    let outcome = connect_with_tenacity(
        || None::<()>,
        || Ok(()),
        || {
            stdin_polls.set(stdin_polls.get() + 1);
            stdin_polls.get() <= 5
        },
        || None,
        |_| sleeps.set(sleeps.get() + 1),
    );

    assert_eq!(outcome, TenaciousOutcome::StdinClosed);
    assert_eq!(sleeps.get(), 5, "the loop exits the tick stdin closes");
}

#[test]
fn tenacity_respawn_paced_by_grace_interval() {
    let connects = Cell::new(0u32);
    let spawns = Cell::new(0u32);

    let outcome = connect_with_tenacity(
        || {
            connects.set(connects.get() + 1);
            // Backoff accumulates 31.3 s over ticks 0-10, so the grace
            // (30 s) lapses exactly once before the tick-12 connect.
            (connects.get() > 12).then_some(())
        },
        || {
            spawns.set(spawns.get() + 1);
            Ok(())
        },
        || true,
        || None,
        |_| {},
    );

    assert_eq!(outcome, TenaciousOutcome::Connected(()));
    assert_eq!(
        spawns.get(),
        2,
        "one spawn up front, one respawn after the grace lapsed",
    );
}

#[test]
fn tenacity_failed_spawn_retries_next_tick() {
    let connects = Cell::new(0u32);
    let spawns = Cell::new(0u32);

    let outcome = connect_with_tenacity(
        || {
            connects.set(connects.get() + 1);
            (connects.get() > 3).then_some(())
        },
        || {
            spawns.set(spawns.get() + 1);
            Err("exe missing mid-swap".to_string())
        },
        || true,
        || None,
        |_| {},
    );

    assert_eq!(outcome, TenaciousOutcome::Connected(()));
    assert_eq!(
        spawns.get(),
        3,
        "a spawn that launched nothing is retried every tick",
    );
}

#[test]
fn a_long_wait_is_reported_every_half_minute() {
    let mut wait = ConnectWait::new();
    let mut reports = Vec::new();
    let mut slept = 0;
    for _ in 0..20 {
        let connect = wait.connect_with_tenacity(WaitEvent::Looked {
            stdin_open: true,
            intent: Some(Intent::Stop),
        });
        assert_eq!(connect, WaitAction::Connect);
        match wait.connect_with_tenacity(WaitEvent::Unreachable) {
            WaitAction::Sleep(d) => slept += d,
            other => panic!("expected a sleep, got {other:?}"),
        }
        match wait.connect_with_tenacity(WaitEvent::Slept) {
            WaitAction::Look { progress: Some(total) } => {
                assert_eq!(total, slept);
                reports.push(total / 100_000_000);
            }
            WaitAction::Look { progress: None } => {}
            other => panic!("expected a look, got {other:?}"),
        }
    }
    // 6.3 s over six sleeps, then five seconds each.
    assert_eq!(reports, vec![313, 613]);
}

#[test]
fn a_start_finds_the_daemon_or_gives_up() {
    let socket = UnixPath::new("/state/catenary/catenary.sock");

    let mut running = DaemonStart::new();
    assert!(matches!(
        running.ensure_daemon_running(true, &socket),
        StartStep::Done(DaemonStartOutcome::AlreadyRunning)
    ));

    let mut start = DaemonStart::new();
    assert!(matches!(start.ensure_daemon_running(false, &socket), StartStep::Spawn));
    assert!(matches!(
        start.ensure_daemon_running(false, &socket),
        StartStep::Sleep(d) if d == CONNECT_RETRY_DELAY
    ));
    assert!(matches!(
        start.ensure_daemon_running(true, &socket),
        StartStep::Done(DaemonStartOutcome::Started)
    ));

    let mut dead = DaemonStart::new();
    assert!(matches!(dead.ensure_daemon_running(false, &socket), StartStep::Spawn));
    for _ in 0..10 {
        assert!(matches!(dead.ensure_daemon_running(false, &socket), StartStep::Sleep(_)));
    }
    match dead.ensure_daemon_running(false, &socket) {
        StartStep::GiveUp(message) => assert_eq!(
            message,
            "daemon spawned but did not bind its socket after 10 attempts \
             (/state/catenary/catenary.sock)"
        ),
        other => panic!("expected to give up, got {other:?}"),
    }
}

#[test]
fn a_line_survives_a_reconnect() {
    let mut slot = SocketSlot::new();
    let mut host = HostPhase::Reading;
    let mut daemon = DaemonPhase::Reading;

    // The line is written, but the daemon is gone by then.
    assert_eq!(host_step(&mut host, &mut slot, HostEvent::Line), HostAction::Write(0));
    assert_eq!(host_step(&mut host, &mut slot, HostEvent::WriteFailed), HostAction::Wait);

    // The other direction notices, and reconnects.
    assert_eq!(
        proxy_with_reconnect(&mut daemon, &mut slot, DaemonEvent::Lost),
        DaemonAction::Reconnect
    );
    assert_eq!(host_step(&mut host, &mut slot, HostEvent::Changed), HostAction::Wait);
    assert_eq!(
        proxy_with_reconnect(&mut daemon, &mut slot, DaemonEvent::Reconnected),
        DaemonAction::Resume
    );

    // The same line goes to the new daemon, and only then the next one is read.
    assert_eq!(host_step(&mut host, &mut slot, HostEvent::Changed), HostAction::Write(1));
    assert_eq!(host_step(&mut host, &mut slot, HostEvent::Written), HostAction::ReadLine);
}

#[test]
fn nothing_is_written_while_the_daemon_is_lost() {
    let mut slot = SocketSlot::new();
    let mut host = HostPhase::Reading;
    let mut daemon = DaemonPhase::Reading;
    assert_eq!(
        proxy_with_reconnect(&mut daemon, &mut slot, DaemonEvent::Bytes),
        DaemonAction::Forward
    );
    assert_eq!(
        proxy_with_reconnect(&mut daemon, &mut slot, DaemonEvent::Forwarded),
        DaemonAction::Read
    );
    assert_eq!(
        proxy_with_reconnect(&mut daemon, &mut slot, DaemonEvent::Lost),
        DaemonAction::Reconnect
    );
    assert_eq!(host_step(&mut host, &mut slot, HostEvent::Line), HostAction::Wait);

    // A quit ends both directions.
    assert_eq!(
        proxy_with_reconnect(&mut daemon, &mut slot, DaemonEvent::QuitRequested),
        DaemonAction::Finish
    );
    assert_eq!(host_step(&mut host, &mut slot, HostEvent::Changed), HostAction::Stop);
}

#[test]
fn a_closed_host_ends_the_proxy() {
    let mut slot = SocketSlot::new();
    let mut host = HostPhase::Reading;
    let mut daemon = DaemonPhase::Reading;
    assert_eq!(
        host_step(&mut host, &mut slot, HostEvent::Closed),
        HostAction::Hangup { socket: true }
    );
    assert_eq!(
        proxy_with_reconnect(&mut daemon, &mut slot, DaemonEvent::Lost),
        DaemonAction::Finish
    );

    let mut open = SocketSlot::new();
    let mut failing = DaemonPhase::Forwarding;
    assert_eq!(
        proxy_with_reconnect(&mut failing, &mut open, DaemonEvent::ForwardFailed),
        DaemonAction::Finish
    );
    assert_eq!(failing, DaemonPhase::Over);
    assert!(open.done);

    let mut unusable = SocketSlot::new();
    let mut reconnecting = DaemonPhase::Reconnecting;
    assert_eq!(
        proxy_with_reconnect(&mut reconnecting, &mut unusable, DaemonEvent::Unusable),
        DaemonAction::Fail
    );
}

#[test]
fn a_reconnect_round_ends_four_ways() {
    let connected: TenaciousOutcome<u8> = TenaciousOutcome::Connected(7);
    assert_eq!(reconnect_daemon(&connected, true), ReconnectStep::Reconnected);
    assert_eq!(
        reconnect_daemon(&connected, false),
        ReconnectStep::Again(CONNECT_BACKOFF_FLOOR)
    );
    let closed: TenaciousOutcome<u8> = TenaciousOutcome::StdinClosed;
    assert_eq!(reconnect_daemon(&closed, true), ReconnectStep::StdinClosed);
    let quit: TenaciousOutcome<u8> = TenaciousOutcome::QuitRequested;
    assert_eq!(reconnect_daemon(&quit, false), ReconnectStep::QuitRequested);
}

#[test]
fn bytes_are_cut_into_lines() {
    let mut reader = LineReader::new();
    let mut lines = Vec::new();
    for byte in b"{\"id\":1}\n\nrest" {
        if let Some(line) = reader.push(*byte) {
            lines.push(line);
        }
    }
    assert_eq!(lines, vec![b"{\"id\":1}\n".to_vec(), b"\n".to_vec()]);
}

#[test]
fn a_line_must_be_utf8() {
    assert_eq!(read_json_line("h\u{e9}\n".as_bytes().to_vec()).ok().as_deref(), Some("h\u{e9}\n"));
    assert!(read_json_line(vec![0xff, b'\n']).is_err());
}

#[test]
fn the_hello_names_the_bridge_version() {
    let line = bridge_hello_line("catenary/bridgeHello", "1.2.3");
    assert!(line.ends_with('\n'));
    let hello: serde_json::Value = serde_json::from_str(line.trim()).expect("json");
    assert_eq!(hello["jsonrpc"], "2.0");
    assert_eq!(hello["method"], "catenary/bridgeHello");
    assert_eq!(hello["params"]["bridgeVersion"], "1.2.3");
}
