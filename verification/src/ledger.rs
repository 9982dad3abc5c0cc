//! Ledgers: things that happen once.

use crate::path::{PathKey, UnixPath};
use crate::json::str_option;
use crate::table::{Key, KeySet};
use crate::text::text_eq;
use crate::tracker::text_option;
use vstd::prelude::*;

verus! {

/// The conversations that have been taught.
pub struct FirstSightings {
    seen: KeySet<String>,
}

impl View for FirstSightings {
    type V = Set<Seq<char>>;

    closed spec fn view(&self) -> Set<Seq<char>> {
        self.seen@
    }
}

impl FirstSightings {
    pub closed spec fn wf(&self) -> bool {
        self.seen.wf()
    }

    /// Nothing has been seen.
    pub fn new() -> (r: FirstSightings)
        ensures
            r.wf(),
            r@ == Set::<Seq<char>>::empty(),
    {
        FirstSightings { seen: KeySet::new() }
    }

    /// Records a conversation; returns whether this is its first sighting.
    pub fn see(&mut self, conversation_id: &str) -> (r: bool)
        requires
            old(self).wf(),
        ensures
            final(self).wf(),
            final(self)@ == old(self)@.insert(conversation_id@),
            r == !old(self)@.contains(conversation_id@),
    {
        self.seen.insert(conversation_id.to_owned())
    }
}

/// A prefix in a session.
pub struct Promotion {
    pub session: String,
    pub prefix: UnixPath,
}

/// What identifies a promotion: the session, and the prefix as it is spelled.
pub type PromotionId = (Seq<char>, Seq<char>);

impl Key for Promotion {
    type Id = PromotionId;

    open spec fn id(&self) -> PromotionId {
        (self.session@, self.prefix@)
    }

    fn same_id(&self, other: &Self) -> (r: bool) {
        text_eq(self.session.as_str(), other.session.as_str()) && text_eq(
            self.prefix.as_str(),
            other.prefix.as_str(),
        )
    }

    fn again(&self) -> (r: Self) {
        Promotion { session: self.session.clone(), prefix: self.prefix.duplicate() }
    }
}

/// The always-read prefixes that have been promoted, by session.
pub struct PromotedPrefixes {
    promoted: KeySet<Promotion>,
}

impl View for PromotedPrefixes {
    type V = Set<PromotionId>;

    closed spec fn view(&self) -> Set<PromotionId> {
        self.promoted@
    }
}

impl PromotedPrefixes {
    pub closed spec fn wf(&self) -> bool {
        self.promoted.wf()
    }

    /// Nothing has been promoted.
    pub fn new() -> (r: PromotedPrefixes)
        ensures
            r.wf(),
            r@ == Set::<PromotionId>::empty(),
    {
        PromotedPrefixes { promoted: KeySet::new() }
    }

    /// Records a prefix in a session; returns whether it is the first time.
    pub fn promote(&mut self, session_id: &str, prefix: &UnixPath) -> (r: bool)
        requires
            old(self).wf(),
        ensures
            final(self).wf(),
            final(self)@ == old(self)@.insert((session_id@, prefix@)),
            r == !old(self)@.contains((session_id@, prefix@)),
    {
        self.promoted.insert(
            Promotion { session: session_id.to_owned(), prefix: prefix.duplicate() },
        )
    }
}

/// The roots that have been pointed at their missing configuration.
pub struct ProjectConfigNudges {
    nudged: KeySet<UnixPath>,
}

impl View for ProjectConfigNudges {
    type V = Set<PathKey>;

    closed spec fn view(&self) -> Set<PathKey> {
        self.nudged@
    }
}

impl ProjectConfigNudges {
    pub closed spec fn wf(&self) -> bool {
        self.nudged.wf()
    }

    /// No root has been nudged.
    pub fn new() -> (r: ProjectConfigNudges)
        ensures
            r.wf(),
            r@ == Set::<PathKey>::empty(),
    {
        ProjectConfigNudges { nudged: KeySet::new() }
    }

    /// Records a root; returns whether it is the first time.
    pub fn mark(&mut self, root: &UnixPath) -> (r: bool)
        requires
            old(self).wf(),
        ensures
            final(self).wf(),
            final(self)@ == old(self)@.insert(root.key()),
            r == !old(self)@.contains(root.key()),
    {
        self.nudged.insert(root.duplicate())
    }
}

/// A bridge's version, nothing where it did not say, and the daemon's.
pub struct Pairing {
    pub bridge: Option<String>,
    pub daemon: String,
}

/// What identifies a pairing: the two versions.
pub type PairingId = (Option<Seq<char>>, Seq<char>);

fn same_text_option(a: &Option<String>, b: &Option<String>) -> (r: bool)
    ensures
        r == (text_option(*a) == text_option(*b)),
{
    match (a, b) {
        (Some(x), Some(y)) => text_eq(x.as_str(), y.as_str()),
        (None, None) => true,
        _ => false,
    }
}

impl Key for Pairing {
    type Id = PairingId;

    open spec fn id(&self) -> PairingId {
        (text_option(self.bridge), self.daemon@)
    }

    fn same_id(&self, other: &Self) -> (r: bool) {
        same_text_option(&self.bridge, &other.bridge) && text_eq(
            self.daemon.as_str(),
            other.daemon.as_str(),
        )
    }

    fn again(&self) -> (r: Self) {
        Pairing {
            bridge: match &self.bridge {
                Some(b) => Some(b.clone()),
                None => None,
            },
            daemon: self.daemon.clone(),
        }
    }
}

/// The mismatched pairings of bridge and daemon that an interrupt has fired for.
pub struct MismatchInterrupts {
    fired: KeySet<Pairing>,
}

impl View for MismatchInterrupts {
    type V = Set<PairingId>;

    closed spec fn view(&self) -> Set<PairingId> {
        self.fired@
    }
}

impl MismatchInterrupts {
    pub closed spec fn wf(&self) -> bool {
        self.fired.wf()
    }

    /// No interrupt has fired.
    pub fn new() -> (r: MismatchInterrupts)
        ensures
            r.wf(),
            r@ == Set::<PairingId>::empty(),
    {
        MismatchInterrupts { fired: KeySet::new() }
    }

    /// How many pairings have fired.
    pub fn len(&self) -> (r: usize)
        requires
            self.wf(),
        ensures
            r == self@.len(),
    {
        self.fired.len()
    }

    /// Takes note of a bridge's hello: versions that differ, or a bridge that
    /// does not name one, are a mismatch. Returns whether the interrupt fires,
    /// which it does on the first sighting of a mismatched pairing.
    pub fn handle_bridge_hello(&mut self, bridge: Option<&str>, daemon: &str) -> (r: bool)
        requires
            old(self).wf(),
        ensures
            final(self).wf(),
            ({
                let pairing = (str_option(bridge), daemon@);
                if pairing.0 == Some(daemon@) {
                    final(self)@ == old(self)@ && !r
                } else {
                    final(self)@ == old(self)@.insert(pairing) && r == !old(self)@.contains(pairing)
                }
            }),
    {
        let named: Option<String> = match bridge {
            Some(b) => {
                if text_eq(b, daemon) {
                    return false;
                }
                Some(b.to_owned())
            },
            None => None,
        };
        self.fired.insert(Pairing { bridge: named, daemon: daemon.to_owned() })
    }
}

} // verus!
