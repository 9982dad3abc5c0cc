//! The keys under which roots are contributed.

use crate::path::UnixPath;
use crate::text::{chars_of, concat2, has_prefix, starts_with, strip_prefix, views};
use vstd::prelude::*;

verus! {

/// Prefix of the keys of roots that activity alone keeps mounted.
pub const EPHEMERAL_CONTRIBUTOR_PREFIX: &'static str = "ephemeral:";

/// Prefix of the keys of mounted worktrees.
pub const WORKTREE_CONTRIBUTOR_PREFIX: &'static str = "worktree:";

/// Key of the roots the daemon was started with.
pub const SEED_ENV_CONTRIBUTOR: &'static str = "seed:env";

/// Key of the roots that commands pin.
pub const HOOK_CONTRIBUTOR: &'static str = "hook";

/// The key `ephemeral:{root}`.
pub open spec fn ephemeral_key(root: Seq<char>) -> Seq<char> {
    EPHEMERAL_CONTRIBUTOR_PREFIX@ + root
}

/// The key prefix `worktree:{session}:` of a session's worktrees.
pub open spec fn worktree_prefix(session: Seq<char>) -> Seq<char> {
    WORKTREE_CONTRIBUTOR_PREFIX@ + session + ":"@
}

/// The key `worktree:{session}:{root}`.
pub open spec fn worktree_key(session: Seq<char>, root: Seq<char>) -> Seq<char> {
    worktree_prefix(session) + root
}

/// Builds the `ephemeral:{root}` key.
pub fn ephemeral_contributor(root: &UnixPath) -> (r: String)
    ensures
        r@ == ephemeral_key(root@),
{
    concat2(EPHEMERAL_CONTRIBUTOR_PREFIX, root.as_str())
}

/// Builds the `worktree:{session}:` prefix.
pub fn worktree_contributor_prefix(session_id: &str) -> (r: String)
    ensures
        r@ == worktree_prefix(session_id@),
{
    let mut r = concat2(WORKTREE_CONTRIBUTOR_PREFIX, session_id);
    r.append(":");
    r
}

/// Builds the `worktree:{session}:{root}` key.
pub fn worktree_contributor(session_id: &str, worktree: &UnixPath) -> (r: String)
    ensures
        r@ == worktree_key(session_id@, worktree@),
{
    let mut r = worktree_contributor_prefix(session_id);
    r.append(worktree.as_str());
    r
}

/// The session of a worktree key: what stands between `worktree:` and the next
/// colon, where that is not empty.
pub open spec fn worktree_session(key: Seq<char>, session: Seq<char>) -> bool {
    &&& session.len() > 0
    &&& !session.contains(':')
    &&& has_prefix(key, worktree_prefix(session))
}

/// The session that a worktree key names, or nothing for any other key.
pub fn worktree_contributor_session_id(contributor: &str) -> (r: Option<&str>)
    ensures
        match r {
            Some(session) => worktree_session(contributor@, session@),
            None => forall|session: Seq<char>| !worktree_session(contributor@, session),
        },
{
    let rest = match strip_prefix(contributor, WORKTREE_CONTRIBUTOR_PREFIX) {
        Some(rest) => rest,
        None => {
            proof {
                assert forall|session: Seq<char>| !worktree_session(contributor@, session) by {
                    if has_prefix(contributor@, worktree_prefix(session)) {
                        let p = WORKTREE_CONTRIBUTOR_PREFIX@;
                        let w = worktree_prefix(session);
                        assert(w.subrange(0, p.len() as int) =~= p);
                        assert(contributor@.subrange(0, p.len() as int) =~= contributor@.subrange(
                            0,
                            w.len() as int,
                        ).subrange(0, p.len() as int));
                    }
                }
            }
            return None;
        },
    };
    let ghost p = WORKTREE_CONTRIBUTOR_PREFIX@;
    proof {
        reveal_strlit(":");
        assert(":"@ =~= seq![':']);
    }
    let c = chars_of(rest);
    let mut i: usize = 0;
    while i < c.len() && c[i] != ':'
        invariant
            i <= c.len(),
            forall|j: int| 0 <= j < i ==> c[j] != ':',
        decreases c.len() - i,
    {
        i += 1;
    }
    proof {
        assert forall|session: Seq<char>| worktree_session(contributor@, session) implies i
            < c.len() && session == c@.take(i as int) by {
            let w = worktree_prefix(session);
            assert(contributor@.subrange(0, w.len() as int) == w);
            assert forall|j: int| 0 <= j < session.len() implies c[j] == session[j] by {
                assert(w[p.len() + j] == session[j]);
                assert(contributor@[p.len() + j] == rest@[j]);
            }
            assert(w[(p.len() + session.len()) as int] == ':');
            assert(c[session.len() as int] == ':');
            if i > session.len() {
                assert(c[session.len() as int] != ':');
            } else if i < session.len() {
                assert(session[i as int] == ':');
                assert(session.contains(':'));
            }
            assert(session =~= c@.take(i as int));
        }
    }
    if i == c.len() || i == 0 {
        return None;
    }
    let session = rest.substring_char(0, i);
    proof {
        assert(!session@.contains(':'));
        let w = worktree_prefix(session@);
        assert(contributor@.subrange(0, w.len() as int) =~= w);
    }
    Some(session)
}

/// Whether every contributor in `sources` is an ephemeral one, and there is one.
pub open spec fn only_ephemeral(sources: Seq<Seq<char>>) -> bool {
    sources.len() > 0 && forall|i: int|
        0 <= i < sources.len() ==> has_prefix(
            #[trigger] sources[i],
            EPHEMERAL_CONTRIBUTOR_PREFIX@,
        )
}

/// Whether a root with these contributors is held by activity alone.
pub fn root_is_ephemeral(sources: &[String]) -> (r: bool)
    ensures
        r == only_ephemeral(views(sources@)),
{
    if sources.len() == 0 {
        return false;
    }
    let mut i: usize = 0;
    while i < sources.len()
        invariant
            i <= sources.len(),
            sources.len() > 0,
            forall|j: int|
                0 <= j < i ==> has_prefix(
                    #[trigger] views(sources@)[j],
                    EPHEMERAL_CONTRIBUTOR_PREFIX@,
                ),
        decreases sources.len() - i,
    {
        assert(views(sources@)[i as int] == sources@[i as int]@);
        if !starts_with(sources[i].as_str(), EPHEMERAL_CONTRIBUTOR_PREFIX) {
            return false;
        }
        i += 1;
    }
    true
}

/// The commands' contributor is neither an ephemeral one nor the seed.
pub proof fn lemma_hook_is_not_ephemeral(root: Seq<char>)
    ensures
        HOOK_CONTRIBUTOR@ != ephemeral_key(root),
        !has_prefix(HOOK_CONTRIBUTOR@, EPHEMERAL_CONTRIBUTOR_PREFIX@),
        SEED_ENV_CONTRIBUTOR@ != HOOK_CONTRIBUTOR@,
{
    reveal_strlit("hook");
    reveal_strlit("ephemeral:");
    reveal_strlit("seed:env");
    assert(HOOK_CONTRIBUTOR@.len() == 4);
    assert(EPHEMERAL_CONTRIBUTOR_PREFIX@.len() == 10);
    assert(ephemeral_key(root).len() >= 10);
    assert(SEED_ENV_CONTRIBUTOR@.len() == 8);
}

} // verus!
