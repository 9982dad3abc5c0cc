//! Answers handed from a hook to the command that follows it, and the seats of
//! diagnose rounds.

use crate::clock::HANDOFF_TIMEOUT;
use crate::table::KeySet;
use crate::tracker::text_option;
use vstd::prelude::*;

verus! {

/// What a handoff is about.
#[derive(Clone, Copy, Debug, PartialEq, Eq, Hash, Structural)]
pub enum HandoffKey {
    /// The answer to a claim.
    Claim,
}

/// One handoff: whether its permit is held, the answer that waits, and the ticket
/// of the answer that was left last.
pub struct HandoffView {
    pub held: bool,
    pub staged: Option<Seq<char>>,
    pub ticket: u64,
}

/// The ticket after a ticket. They come round again after all of them were given.
pub open spec fn next_ticket(ticket: u64) -> u64 {
    if ticket == u64::MAX {
        0
    } else {
        (ticket + 1) as u64
    }
}

impl HandoffView {
    /// Once the permit is taken.
    pub open spec fn acquired(self) -> HandoffView {
        HandoffView { held: true, ..self }
    }

    /// Once an answer is left, under a ticket of its own.
    pub open spec fn staging(self, answer: Seq<char>) -> HandoffView {
        HandoffView { held: true, staged: Some(answer), ticket: next_ticket(self.ticket) }
    }

    /// Once the answer is taken or discarded: the permit is free, unless nothing
    /// waited.
    pub open spec fn consumed(self) -> HandoffView {
        HandoffView { held: self.held && self.staged is None, staged: None, ..self }
    }

    /// The answer that was left under `ticket` still waits.
    pub open spec fn waits(self, ticket: u64) -> bool {
        self.staged is Some && self.ticket == ticket
    }

    /// Once the patience with the answer under `ticket` is over: it is discarded
    /// where it still waits, and no other is.
    pub open spec fn expired(self, ticket: u64) -> HandoffView {
        if self.waits(ticket) {
            self.consumed()
        } else {
            self
        }
    }

    /// Once these answers were left one after the other, each after the one
    /// before it was taken or discarded.
    pub open spec fn restaged(self, answers: Seq<Seq<char>>) -> HandoffView
        decreases answers.len(),
    {
        if answers.len() == 0 {
            self
        } else {
            self.restaged(answers.drop_last()).consumed().acquired().staging(answers.last())
        }
    }
}

/// An answer that was left: the ticket to discard it by, and how long it waits
/// before that.
#[derive(Clone, Copy, Debug, PartialEq, Eq, Structural)]
pub struct Staged {
    pub ticket: u64,
    pub patience: u64,
}

/// The handoffs, one per [`HandoffKey`]. A permit admits one stage at a time; it
/// is held from before the stage until the answer is taken or discarded.
pub struct KeyedHandoff {
    held: bool,
    staged: Option<String>,
    ticket: u64,
    timeout: u64,
}

impl KeyedHandoff {
    /// What stands under a key.
    pub closed spec fn slot(&self, key: HandoffKey) -> HandoffView {
        HandoffView {
            held: self.held,
            staged: text_option(self.staged),
            ticket: self.ticket,
        }
    }

    /// How long a staged answer waits.
    pub closed spec fn patience(&self) -> u64 {
        self.timeout
    }

    /// An answer waits only while its permit is held.
    pub open spec fn wf(&self) -> bool {
        forall|key: HandoffKey| (#[trigger] self.slot(key)).staged is Some ==> self.slot(key).held
    }

    /// Every permit is free and nothing waits.
    pub fn new() -> (r: KeyedHandoff)
        ensures
            r.wf(),
            r.patience() == HANDOFF_TIMEOUT,
            forall|key: HandoffKey| #[trigger]
                r.slot(key) == (HandoffView { held: false, staged: None, ticket: 0 }),
    {
        Self::with_timeout(HANDOFF_TIMEOUT)
    }

    /// The same, with a patience of `timeout`.
    pub fn with_timeout(timeout: u64) -> (r: KeyedHandoff)
        ensures
            r.wf(),
            r.patience() == timeout,
            forall|key: HandoffKey| #[trigger]
                r.slot(key) == (HandoffView { held: false, staged: None, ticket: 0 }),
    {
        KeyedHandoff { held: false, staged: None, ticket: 0, timeout }
    }

    /// Takes the permit of `key` where it is free; where it is held, the caller
    /// waits and tries again.
    pub fn acquire(&mut self, key: HandoffKey) -> (r: bool)
        requires
            old(self).wf(),
        ensures
            final(self).wf(),
            final(self).patience() == old(self).patience(),
            r == !old(self).slot(key).held,
            final(self).slot(key) == old(self).slot(key).acquired(),
    {
        let free = !self.held;
        self.held = true;
        free
    }

    /// Leaves an answer under `key`, whose permit the caller holds. Returns its
    /// ticket and how long it waits before it is discarded.
    pub fn stage(&mut self, key: HandoffKey, answer: String) -> (r: Staged)
        requires
            old(self).wf(),
            old(self).slot(key).held,
        ensures
            final(self).wf(),
            final(self).patience() == old(self).patience(),
            final(self).slot(key) == old(self).slot(key).staging(answer@),
            r.ticket == final(self).slot(key).ticket,
            r.patience == old(self).patience(),
    {
        self.staged = Some(answer);
        self.ticket =
        if self.ticket == u64::MAX {
            0
        } else {
            self.ticket + 1
        };
        Staged { ticket: self.ticket, patience: self.timeout }
    }

    /// Takes the answer under `key` and frees its permit; nothing where none
    /// waits.
    pub fn consume(&mut self, key: HandoffKey) -> (r: Option<String>)
        requires
            old(self).wf(),
        ensures
            final(self).wf(),
            final(self).patience() == old(self).patience(),
            text_option(r) == old(self).slot(key).staged,
            final(self).slot(key) == old(self).slot(key).consumed(),
    {
        let taken = self.staged.take();
        if taken.is_some() {
            self.held = false;
        }
        taken
    }

    /// The patience with the answer that was left under `key` with this ticket is
    /// over: discards it where it still waits. Returns whether it did.
    pub fn expire(&mut self, key: HandoffKey, ticket: u64) -> (r: bool)
        requires
            old(self).wf(),
        ensures
            final(self).wf(),
            final(self).patience() == old(self).patience(),
            r == old(self).slot(key).waits(ticket),
            final(self).slot(key) == old(self).slot(key).expired(ticket),
    {
        if self.ticket != ticket {
            return false;
        }
        self.consume(key).is_some()
    }
}

/// The roots with a diagnose round in flight.
pub struct DiagRoundRegistry {
    in_flight: KeySet<String>,
}

impl View for DiagRoundRegistry {
    type V = Set<Seq<char>>;

    closed spec fn view(&self) -> Set<Seq<char>> {
        self.in_flight@
    }
}

impl DiagRoundRegistry {
    pub closed spec fn wf(&self) -> bool {
        self.in_flight.wf()
    }

    /// No round is in flight.
    pub fn new() -> (r: DiagRoundRegistry)
        ensures
            r.wf(),
            r@ == Set::<Seq<char>>::empty(),
    {
        DiagRoundRegistry { in_flight: KeySet::new() }
    }

    /// Whether any round is in flight.
    pub fn any_in_flight(&self) -> (r: bool)
        requires
            self.wf(),
        ensures
            r == (self@ != Set::<Seq<char>>::empty()),
    {
        proof {
            self.in_flight.lemma_order();
            assert(self@.len() == 0 <==> self@ =~= Set::empty());
        }
        self.in_flight.len() > 0
    }

    /// Takes the seat of `key` where it is free. Where it is taken, the caller
    /// waits for it and tries again; `waited` then says so.
    pub fn claim(&mut self, key: &str, waited: &mut bool) -> (r: bool)
        requires
            old(self).wf(),
        ensures
            final(self).wf(),
            r == !old(self)@.contains(key@),
            final(self)@ == old(self)@.insert(key@),
            *final(waited) == (*old(waited) || !r),
    {
        let free = self.in_flight.insert(key.to_owned());
        if !free {
            *waited = true;
        }
        free
    }

    /// Frees the seat of `key`.
    pub fn release(&mut self, key: &str)
        requires
            old(self).wf(),
        ensures
            final(self).wf(),
            final(self)@ == old(self)@.remove(key@),
    {
        let _was = self.in_flight.remove(&key.to_owned());
    }
}

} // verus!
