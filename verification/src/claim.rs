//! Claiming a root from its previous editor.

use crate::handoff::{DiagRoundRegistry, HandoffKey, KeyedHandoff, Staged};
use crate::json::{json_view, str_field, JsonView, ObjectBuilder};
use crate::path::UnixPath;
use crate::payload::{str_or_empty, text_or_empty};
use crate::text::concat3;
use crate::worktree::{error_answer, error_members};
use vstd::prelude::*;

verus! {

/// A request to claim a root, and who makes it.
#[derive(Debug)]
pub struct ClaimRequest {
    pub root: String,
    pub format: String,
    pub session_id: String,
    pub agent_id: String,
}

/// Reads a request to claim a root; without a root it is answered at once.
pub fn claim_request(raw: &serde_json::Value) -> (r: Result<ClaimRequest, serde_json::Value>)
    ensures
        match json_view(*raw).text_field("root"@) {
            Some(root) => r matches Ok(q) && q.root@ == root && q.format@ == text_or_empty(
                json_view(*raw).text_field("format"@),
            ) && q.session_id@ == text_or_empty(json_view(*raw).text_field("session_id"@))
                && q.agent_id@ == text_or_empty(json_view(*raw).text_field("agent_id"@)),
            None => r matches Err(a) && json_view(a) == JsonView::Object(
                error_members("missing root"@),
            ),
        },
{
    match str_field(raw, "root") {
        Some(root) => Ok(
            ClaimRequest {
                root: root.to_owned(),
                format: str_or_empty(str_field(raw, "format")),
                session_id: str_or_empty(str_field(raw, "session_id")),
                agent_id: str_or_empty(str_field(raw, "agent_id")),
            },
        ),
        None => Err(error_answer("missing root")),
    }
}

/// Why a claim is refused while a diagnose round is in flight.
pub open spec fn refusal(root: Seq<char>) -> Seq<char> {
    "a diagnose round is in flight — "@ + root
        + " is actively being diagnosed; try `catenary claim` again once it settles"@
}

/// The guard of a claim: while any diagnose round is in flight the claim is
/// refused. Returns the refusal.
pub fn claim_guard(rounds: &DiagRoundRegistry, root: &UnixPath) -> (r: Option<serde_json::Value>)
    requires
        rounds.wf(),
    ensures
        match r {
            None => rounds@ == Set::<Seq<char>>::empty(),
            Some(a) => rounds@ != Set::<Seq<char>>::empty() && json_view(a) == JsonView::Object(
                map![
                    "status"@ => JsonView::Text("refused"@),
                    "message"@ => JsonView::Text(refusal(root@)),
                ],
            ),
        },
{
    if !rounds.any_in_flight() {
        return None;
    }
    let message = concat3(
        "a diagnose round is in flight — ",
        root.as_str(),
        " is actively being diagnosed; try `catenary claim` again once it settles",
    );
    Some(ObjectBuilder::new().text("status", "refused").text("message", message.as_str()).finish())
}

/// What the durable lock made of a claim.
#[derive(Debug)]
pub enum Claimed {
    /// The root changed hands; this is what the claimant is told.
    Taken { answer: String },
    /// Nobody holds the root.
    Unlocked,
    /// The claimant holds it already.
    AlreadyOurs,
}

/// The members of the answer to a claim.
pub open spec fn claim_members(c: Claimed) -> Map<Seq<char>, JsonView> {
    match c {
        Claimed::Taken { answer } => map![
            "status"@ => JsonView::Text("staged"@),
            "answer"@ => JsonView::Text(answer@),
        ],
        Claimed::Unlocked => map!["status"@ => JsonView::Text("unlocked"@)],
        Claimed::AlreadyOurs => map!["status"@ => JsonView::Text("already_ours"@)],
    }
}

/// Answers a claim. Where the root changed hands, the same answer is left for
/// the command that follows, and the permit for it is held already; returns its
/// ticket and how long it then waits.
pub fn handle_claim_stage(handoff: &mut KeyedHandoff, claimed: &Claimed) -> (r: (
    serde_json::Value,
    Option<Staged>,
))
    requires
        old(handoff).wf(),
        claimed is Taken ==> old(handoff).slot(HandoffKey::Claim).held,
    ensures
        final(handoff).wf(),
        final(handoff).patience() == old(handoff).patience(),
        json_view(r.0) == JsonView::Object(claim_members(*claimed)),
        match claimed {
            Claimed::Taken { answer } => {
                &&& r.1 == Some(
                    Staged {
                        ticket: final(handoff).slot(HandoffKey::Claim).ticket,
                        patience: old(handoff).patience(),
                    },
                )
                &&& final(handoff).slot(HandoffKey::Claim) == old(handoff).slot(
                    HandoffKey::Claim,
                ).staging(answer@)
            },
            _ => r.1 is None && *final(handoff) == *old(handoff),
        },
{
    match claimed {
        Claimed::Taken { answer } => {
            let staged = handoff.stage(HandoffKey::Claim, answer.clone());
            (
                ObjectBuilder::new().text("status", "staged").text(
                    "answer",
                    answer.as_str(),
                ).finish(),
                Some(staged),
            )
        },
        Claimed::Unlocked => (ObjectBuilder::new().text("status", "unlocked").finish(), None),
        Claimed::AlreadyOurs => (
            ObjectBuilder::new().text("status", "already_ours").finish(),
            None,
        ),
    }
}

/// The members of the answer to the command that claims a root.
pub open spec fn taken_members(staged: Option<Seq<char>>) -> Map<Seq<char>, JsonView> {
    match staged {
        Some(answer) => map![
            "status"@ => JsonView::Text("ok"@),
            "answer"@ => JsonView::Text(answer),
        ],
        None => map!["status"@ => JsonView::Text("not_staged"@)],
    }
}

/// Hands the staged answer to the command, once.
pub fn take_claim(handoff: &mut KeyedHandoff) -> (r: serde_json::Value)
    requires
        old(handoff).wf(),
    ensures
        final(handoff).wf(),
        final(handoff).patience() == old(handoff).patience(),
        json_view(r) == JsonView::Object(
            taken_members(old(handoff).slot(HandoffKey::Claim).staged),
        ),
        final(handoff).slot(HandoffKey::Claim) == old(handoff).slot(HandoffKey::Claim).consumed(),
{
    match handoff.consume(HandoffKey::Claim) {
        Some(answer) => ObjectBuilder::new().text("status", "ok").text(
            "answer",
            answer.as_str(),
        ).finish(),
        None => ObjectBuilder::new().text("status", "not_staged").finish(),
    }
}

} // verus!
