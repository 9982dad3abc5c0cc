use catenary_router::handoff::{DiagRoundRegistry, HandoffKey, KeyedHandoff};
use catenary_router::clock::{HANDOFF_TIMEOUT, MILLISECOND};
use catenary_router::ledger::{
    FirstSightings, MismatchInterrupts, ProjectConfigNudges, PromotedPrefixes,
};
use catenary_router::path::UnixPath;
use catenary_router::subagents::SubagentRegistry;

#[test]
fn first_sightings_see_is_true_once_per_conversation() {
    let mut ledger = FirstSightings::new();
    assert!(ledger.see("conv-a"), "first sighting of conv-a injects");
    assert!(
        !ledger.see("conv-a"),
        "second sighting of conv-a injects nothing"
    );
    assert!(!ledger.see("conv-a"), "and every later one, too");
    assert!(
        ledger.see("conv-b"),
        "a different conversation is its own first sighting"
    );
}

#[test]
fn project_config_nudges_fire_once_per_root() {
    let mut ledger = ProjectConfigNudges::new();
    let root_a = UnixPath::new("/ws/project-a");
    let root_b = UnixPath::new("/ws/project-b");
    assert!(ledger.mark(&root_a), "first SessionStart on root-a nudges");
    assert!(
        !ledger.mark(&root_a),
        "second SessionStart on root-a is silent"
    );
    assert!(!ledger.mark(&root_a), "and every later one, too");
    assert!(
        ledger.mark(&root_b),
        "a different root rings its own bell once"
    );
}

#[test]
fn subagent_registry_start_stop_and_clear() {
    let mut reg = SubagentRegistry::new();
    reg.start("sess-1", "agent-a", "2026-06-08T13:10:00.000Z".to_string());
    reg.start("sess-1", "agent-b", "2026-06-08T13:11:00.000Z".to_string());
    // Idempotent per agent id: a duplicate start is ignored.
    reg.start("sess-1", "agent-a", "2026-06-08T13:12:00.000Z".to_string());
    // A blank agent id (path-keyed session) records nothing.
    reg.start("sess-1", "", "2026-06-08T13:13:00.000Z".to_string());

    let live = reg.for_session("sess-1");
    assert_eq!(live.len(), 2, "two distinct subagents, start-time sorted");
    assert_eq!(live[0].id, "agent-a");
    assert_eq!(live[1].id, "agent-b");
    assert!(reg.for_session("other").is_empty(), "no cross-session leak");

    reg.stop("sess-1", "agent-a");
    assert_eq!(reg.for_session("sess-1"), vec![live[1].clone()]);

    reg.clear_session("sess-1");
    assert!(
        reg.for_session("sess-1").is_empty(),
        "session sweep drops all"
    );
}

#[test]
fn subagents_are_listed_by_their_start() {
    let mut reg = SubagentRegistry::new();
    reg.start("s", "late", "2026-06-08T13:12:00.000Z".to_string());
    reg.start("s", "early", "2026-06-08T13:10:00.000Z".to_string());
    let ids: Vec<String> = reg.for_session("s").into_iter().map(|a| a.id).collect();
    assert_eq!(ids, vec!["early", "late"]);
    reg.stop("s", "nobody");
    assert_eq!(reg.for_session("s").len(), 2);
}

#[test]
fn handle_bridge_hello_matching_version_records_nothing() {
    let mut dedup = MismatchInterrupts::new();

    assert!(!dedup.handle_bridge_hello(Some("1.2.3"), "1.2.3"));

    assert_eq!(dedup.len(), 0, "a matching version fires no interrupt");
}

#[test]
fn handle_bridge_hello_mismatch_fires_once_per_pairing() {
    let mut dedup = MismatchInterrupts::new();

    // Same mismatched pairing observed three times across "session starts".
    let mut fired = 0;
    for _ in 0..3 {
        if dedup.handle_bridge_hello(Some("0.0.0-older"), "1.2.3") {
            fired += 1;
        }
    }
    assert_eq!(fired, 1);
    assert_eq!(
        dedup.len(),
        1,
        "the interrupt dedups to one entry per (bridge, daemon) pairing",
    );

    // A pre-handshake bridge (no version) is a distinct pairing: a second
    // interrupt entry, but still only once for that pairing.
    for _ in 0..2 {
        dedup.handle_bridge_hello(None, "1.2.3");
    }
    assert_eq!(
        dedup.len(),
        2,
        "a new (pre-handshake, daemon) pairing fires its own single interrupt",
    );
}

#[test]
fn a_prefix_is_promoted_once_per_session() {
    let mut promoted = PromotedPrefixes::new();
    let docs = UnixPath::new("/docs");
    assert!(promoted.promote("one", &docs));
    assert!(!promoted.promote("one", &docs));
    assert!(promoted.promote("two", &docs));
    assert!(promoted.promote("one", &UnixPath::new("/docs/more")));
    assert!(promoted.promote("s", &UnixPath::new("/x::/y")));
    assert!(promoted.promote("s::/x", &UnixPath::new("/y")));
    assert!(!promoted.promote("s::/x", &UnixPath::new("/y")));
}

#[test]
fn keyed_handoff_same_key_serializes() {
    let mut handoff = KeyedHandoff::new();
    assert!(handoff.acquire(HandoffKey::Claim), "first acquire");
    assert!(
        !handoff.acquire(HandoffKey::Claim),
        "second claim acquire must block while the first is held",
    );
    handoff.stage(HandoffKey::Claim, "claimed /x".to_string());
    assert!(handoff.consume(HandoffKey::Claim).is_some());
    assert!(
        handoff.acquire(HandoffKey::Claim),
        "second claim acquire must proceed once the first is released",
    );
}

#[test]
fn keyed_handoff_stage_consume_roundtrip() {
    let mut handoff = KeyedHandoff::new();
    assert!(handoff.acquire(HandoffKey::Claim));
    let staged = handoff.stage(
        HandoffKey::Claim,
        "claimed /repo (previous editor last seen 3m ago)".to_string(),
    );
    assert_eq!(staged.patience, HANDOFF_TIMEOUT);
    assert_eq!(
        handoff.consume(HandoffKey::Claim).as_deref(),
        Some("claimed /repo (previous editor last seen 3m ago)")
    );
    assert!(
        handoff.consume(HandoffKey::Claim).is_none(),
        "double consume must yield None",
    );
    assert!(handoff.acquire(HandoffKey::Claim), "permit must be free after consume");
}

#[test]
fn keyed_handoff_timeout_clears_stage() {
    let mut handoff = KeyedHandoff::with_timeout(50 * MILLISECOND);
    assert!(handoff.acquire(HandoffKey::Claim));
    let staged = handoff.stage(HandoffKey::Claim, "claimed /x".to_string());
    assert_eq!(staged.patience, 50 * MILLISECOND);
    assert!(handoff.expire(HandoffKey::Claim, staged.ticket));
    assert!(
        handoff.consume(HandoffKey::Claim).is_none(),
        "claim stage must be cleared after its timeout",
    );
    assert!(handoff.acquire(HandoffKey::Claim), "permit released on timeout");
    assert!(!handoff.expire(HandoffKey::Claim, staged.ticket), "nothing waits any more");
}

#[test]
fn the_timer_of_a_taken_answer_spares_the_next_one() {
    let mut handoff = KeyedHandoff::new();
    assert!(handoff.acquire(HandoffKey::Claim));
    let first = handoff.stage(HandoffKey::Claim, "claimed /x".to_string());
    assert_eq!(handoff.consume(HandoffKey::Claim).as_deref(), Some("claimed /x"));
    assert!(handoff.acquire(HandoffKey::Claim));
    let second = handoff.stage(HandoffKey::Claim, "claimed /y".to_string());
    assert_ne!(first.ticket, second.ticket);
    assert!(!handoff.expire(HandoffKey::Claim, first.ticket), "another answer waits now");
    assert!(!handoff.acquire(HandoffKey::Claim), "its permit is still held");
    assert_eq!(handoff.consume(HandoffKey::Claim).as_deref(), Some("claimed /y"));
}

#[test]
fn one_diagnose_round_per_root() {
    let mut rounds = DiagRoundRegistry::new();
    assert!(!rounds.any_in_flight());
    let mut first = false;
    assert!(rounds.claim("/a", &mut first));
    assert!(!first, "a free seat is taken without waiting");
    let mut second = false;
    assert!(!rounds.claim("/a", &mut second));
    assert!(second);
    let mut other = false;
    assert!(rounds.claim("/b", &mut other), "another root has a seat of its own");
    rounds.release("/a");
    assert!(rounds.claim("/a", &mut second));
    assert!(second, "that it had to wait is remembered");
    rounds.release("/a");
    rounds.release("/b");
    assert!(!rounds.any_in_flight());
}
