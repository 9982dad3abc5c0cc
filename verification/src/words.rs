//! Words of the protocol: which of them differ.

use vstd::prelude::*;

verus! {

/// The members of answers.
pub proof fn lemma_answer_keys()
    ensures
        "status"@ != "path"@,
        "status"@ != "message"@,
        "status"@ != "removed"@,
        "status"@ != "discarded"@,
        "status"@ != "output"@,
        "status"@ != "covered"@,
        "status"@ != "answer"@,
        "status"@ != "connections"@,
        "status"@ != "version"@,
        "status"@ != "inject"@,
        "status"@ != "roots"@,
        "status"@ != "worktrees"@,
        "path"@ != "message"@,
        "path"@ != "removed"@,
        "path"@ != "discarded"@,
        "path"@ != "output"@,
        "path"@ != "covered"@,
        "path"@ != "answer"@,
        "path"@ != "connections"@,
        "path"@ != "version"@,
        "path"@ != "inject"@,
        "path"@ != "roots"@,
        "path"@ != "worktrees"@,
        "message"@ != "removed"@,
        "message"@ != "discarded"@,
        "message"@ != "output"@,
        "message"@ != "covered"@,
        "message"@ != "answer"@,
        "message"@ != "connections"@,
        "message"@ != "version"@,
        "message"@ != "inject"@,
        "message"@ != "roots"@,
        "message"@ != "worktrees"@,
        "removed"@ != "discarded"@,
        "removed"@ != "output"@,
        "removed"@ != "covered"@,
        "removed"@ != "answer"@,
        "removed"@ != "connections"@,
        "removed"@ != "version"@,
        "removed"@ != "inject"@,
        "removed"@ != "roots"@,
        "removed"@ != "worktrees"@,
        "discarded"@ != "output"@,
        "discarded"@ != "covered"@,
        "discarded"@ != "answer"@,
        "discarded"@ != "connections"@,
        "discarded"@ != "version"@,
        "discarded"@ != "inject"@,
        "discarded"@ != "roots"@,
        "discarded"@ != "worktrees"@,
        "output"@ != "covered"@,
        "output"@ != "answer"@,
        "output"@ != "connections"@,
        "output"@ != "version"@,
        "output"@ != "inject"@,
        "output"@ != "roots"@,
        "output"@ != "worktrees"@,
        "covered"@ != "answer"@,
        "covered"@ != "connections"@,
        "covered"@ != "version"@,
        "covered"@ != "inject"@,
        "covered"@ != "roots"@,
        "covered"@ != "worktrees"@,
        "answer"@ != "connections"@,
        "answer"@ != "version"@,
        "answer"@ != "inject"@,
        "answer"@ != "roots"@,
        "answer"@ != "worktrees"@,
        "connections"@ != "version"@,
        "connections"@ != "inject"@,
        "connections"@ != "roots"@,
        "connections"@ != "worktrees"@,
        "version"@ != "inject"@,
        "version"@ != "roots"@,
        "version"@ != "worktrees"@,
        "inject"@ != "roots"@,
        "inject"@ != "worktrees"@,
        "roots"@ != "worktrees"@,
{
    reveal_strlit("status");
    reveal_strlit("path");
    reveal_strlit("message");
    reveal_strlit("removed");
    reveal_strlit("discarded");
    reveal_strlit("output");
    reveal_strlit("covered");
    reveal_strlit("answer");
    reveal_strlit("connections");
    reveal_strlit("version");
    reveal_strlit("inject");
    reveal_strlit("roots");
    reveal_strlit("worktrees");
    assert("status"@.len() == 6);
    assert("path"@.len() == 4);
    assert("message"@.len() == 7);
    assert("removed"@.len() == 7);
    assert("discarded"@.len() == 9);
    assert("output"@.len() == 6);
    assert("covered"@.len() == 7);
    assert("answer"@.len() == 6);
    assert("connections"@.len() == 11);
    assert("version"@.len() == 7);
    assert("inject"@.len() == 6);
    assert("roots"@.len() == 5);
    assert("worktrees"@.len() == 9);
    assert("status"@[0] != "output"@[0]);
    assert("status"@[0] != "answer"@[0]);
    assert("status"@[0] != "inject"@[0]);
    assert("message"@[0] != "removed"@[0]);
    assert("message"@[0] != "covered"@[0]);
    assert("message"@[0] != "version"@[0]);
    assert("removed"@[0] != "covered"@[0]);
    assert("removed"@[0] != "version"@[0]);
    assert("discarded"@[0] != "worktrees"@[0]);
    assert("output"@[0] != "answer"@[0]);
    assert("output"@[0] != "inject"@[0]);
    assert("covered"@[0] != "version"@[0]);
    assert("answer"@[0] != "inject"@[0]);
}

/// The statuses of answers.
pub proof fn lemma_status_words()
    ensures
        "ok"@ != "not_found"@,
        "ok"@ != "error"@,
        "ok"@ != "kept"@,
        "ok"@ != "refused"@,
        "ok"@ != "not_ours"@,
        "ok"@ != "staged"@,
        "ok"@ != "unlocked"@,
        "ok"@ != "already_ours"@,
        "ok"@ != "not_staged"@,
        "ok"@ != "dirty"@,
        "ok"@ != "clean"@,
        "not_found"@ != "error"@,
        "not_found"@ != "kept"@,
        "not_found"@ != "refused"@,
        "not_found"@ != "not_ours"@,
        "not_found"@ != "staged"@,
        "not_found"@ != "unlocked"@,
        "not_found"@ != "already_ours"@,
        "not_found"@ != "not_staged"@,
        "not_found"@ != "dirty"@,
        "not_found"@ != "clean"@,
        "error"@ != "kept"@,
        "error"@ != "refused"@,
        "error"@ != "not_ours"@,
        "error"@ != "staged"@,
        "error"@ != "unlocked"@,
        "error"@ != "already_ours"@,
        "error"@ != "not_staged"@,
        "error"@ != "dirty"@,
        "error"@ != "clean"@,
        "kept"@ != "refused"@,
        "kept"@ != "not_ours"@,
        "kept"@ != "staged"@,
        "kept"@ != "unlocked"@,
        "kept"@ != "already_ours"@,
        "kept"@ != "not_staged"@,
        "kept"@ != "dirty"@,
        "kept"@ != "clean"@,
        "refused"@ != "not_ours"@,
        "refused"@ != "staged"@,
        "refused"@ != "unlocked"@,
        "refused"@ != "already_ours"@,
        "refused"@ != "not_staged"@,
        "refused"@ != "dirty"@,
        "refused"@ != "clean"@,
        "not_ours"@ != "staged"@,
        "not_ours"@ != "unlocked"@,
        "not_ours"@ != "already_ours"@,
        "not_ours"@ != "not_staged"@,
        "not_ours"@ != "dirty"@,
        "not_ours"@ != "clean"@,
        "staged"@ != "unlocked"@,
        "staged"@ != "already_ours"@,
        "staged"@ != "not_staged"@,
        "staged"@ != "dirty"@,
        "staged"@ != "clean"@,
        "unlocked"@ != "already_ours"@,
        "unlocked"@ != "not_staged"@,
        "unlocked"@ != "dirty"@,
        "unlocked"@ != "clean"@,
        "already_ours"@ != "not_staged"@,
        "already_ours"@ != "dirty"@,
        "already_ours"@ != "clean"@,
        "not_staged"@ != "dirty"@,
        "not_staged"@ != "clean"@,
        "dirty"@ != "clean"@,
{
    reveal_strlit("ok");
    reveal_strlit("not_found");
    reveal_strlit("error");
    reveal_strlit("kept");
    reveal_strlit("refused");
    reveal_strlit("not_ours");
    reveal_strlit("staged");
    reveal_strlit("unlocked");
    reveal_strlit("already_ours");
    reveal_strlit("not_staged");
    reveal_strlit("dirty");
    reveal_strlit("clean");
    assert("ok"@.len() == 2);
    assert("not_found"@.len() == 9);
    assert("error"@.len() == 5);
    assert("kept"@.len() == 4);
    assert("refused"@.len() == 7);
    assert("not_ours"@.len() == 8);
    assert("staged"@.len() == 6);
    assert("unlocked"@.len() == 8);
    assert("already_ours"@.len() == 12);
    assert("not_staged"@.len() == 10);
    assert("dirty"@.len() == 5);
    assert("clean"@.len() == 5);
    assert("error"@[0] != "dirty"@[0]);
    assert("error"@[0] != "clean"@[0]);
    assert("not_ours"@[0] != "unlocked"@[0]);
    assert("dirty"@[0] != "clean"@[0]);
}

/// The members of a row of the worktree listing.
pub proof fn lemma_row_keys()
    ensures
        "path"@ != "class"@,
        "path"@ != "creator"@,
        "path"@ != "created_at"@,
        "path"@ != "present"@,
        "path"@ != "dirty"@,
        "path"@ != "root_state"@,
        "path"@ != "ahead"@,
        "path"@ != "behind"@,
        "class"@ != "creator"@,
        "class"@ != "created_at"@,
        "class"@ != "present"@,
        "class"@ != "dirty"@,
        "class"@ != "root_state"@,
        "class"@ != "ahead"@,
        "class"@ != "behind"@,
        "creator"@ != "created_at"@,
        "creator"@ != "present"@,
        "creator"@ != "dirty"@,
        "creator"@ != "root_state"@,
        "creator"@ != "ahead"@,
        "creator"@ != "behind"@,
        "created_at"@ != "present"@,
        "created_at"@ != "dirty"@,
        "created_at"@ != "root_state"@,
        "created_at"@ != "ahead"@,
        "created_at"@ != "behind"@,
        "present"@ != "dirty"@,
        "present"@ != "root_state"@,
        "present"@ != "ahead"@,
        "present"@ != "behind"@,
        "dirty"@ != "root_state"@,
        "dirty"@ != "ahead"@,
        "dirty"@ != "behind"@,
        "root_state"@ != "ahead"@,
        "root_state"@ != "behind"@,
        "ahead"@ != "behind"@,
{
    reveal_strlit("path");
    reveal_strlit("class");
    reveal_strlit("creator");
    reveal_strlit("created_at");
    reveal_strlit("present");
    reveal_strlit("dirty");
    reveal_strlit("root_state");
    reveal_strlit("ahead");
    reveal_strlit("behind");
    assert("path"@.len() == 4);
    assert("class"@.len() == 5);
    assert("creator"@.len() == 7);
    assert("created_at"@.len() == 10);
    assert("present"@.len() == 7);
    assert("dirty"@.len() == 5);
    assert("root_state"@.len() == 10);
    assert("ahead"@.len() == 5);
    assert("behind"@.len() == 6);
    assert("class"@[0] != "dirty"@[0]);
    assert("class"@[0] != "ahead"@[0]);
    assert("creator"@[0] != "present"@[0]);
    assert("created_at"@[0] != "root_state"@[0]);
    assert("dirty"@[0] != "ahead"@[0]);
}

/// The states of a worktree's root.
pub proof fn lemma_root_states()
    ensures
        "unmounted"@ != "blocked"@,
        "unmounted"@ != "mounted"@,
        "blocked"@ != "mounted"@,
{
    reveal_strlit("unmounted");
    reveal_strlit("blocked");
    reveal_strlit("mounted");
    assert("unmounted"@.len() == 9);
    assert("blocked"@.len() == 7);
    assert("mounted"@.len() == 7);
    assert("blocked"@[0] != "mounted"@[0]);
}

/// The members of a row of the root listing.
pub proof fn lemma_listing_keys()
    ensures
        "path"@ != "sources"@,
        "path"@ != "ephemeral"@,
        "sources"@ != "ephemeral"@,
{
    reveal_strlit("path");
    reveal_strlit("sources");
    reveal_strlit("ephemeral");
    assert("path"@.len() == 4);
    assert("sources"@.len() == 7);
    assert("ephemeral"@.len() == 9);
}

/// The nudges that ride along with a response.
pub proof fn lemma_nudge_keys()
    ensures
        "session_start_nudge"@ != "merged_nudge"@,
        "session_start_nudge"@ != "auto_install_announcement"@,
        "merged_nudge"@ != "auto_install_announcement"@,
{
    reveal_strlit("session_start_nudge");
    reveal_strlit("merged_nudge");
    reveal_strlit("auto_install_announcement");
    assert("session_start_nudge"@.len() == 19);
    assert("merged_nudge"@.len() == 12);
    assert("auto_install_announcement"@.len() == 25);
}

/// The names of requests.
pub proof fn lemma_request_names()
    ensures
        "tool/shutdown"@ != "tool/version"@,
        "tool/shutdown"@ != "tool/roots-ls"@,
        "tool/shutdown"@ != "tool/worktree-ls"@,
        "tool/shutdown"@ != "tool/worktree-rm"@,
        "tool/shutdown"@ != "pre-invocation/first-sighting"@,
        "tool/shutdown"@ != "session-end/cleanup"@,
        "tool/shutdown"@ != "worktree-create/log-payload"@,
        "tool/shutdown"@ != "subagent-start/mount-worktree"@,
        "tool/shutdown"@ != "worktree-remove/unmount-worktree"@,
        "tool/shutdown"@ != "permission-request/blocked"@,
        "tool/shutdown"@ != "tool/editing-start"@,
        "tool/shutdown"@ != "tool/hitstream"@,
        "tool/shutdown"@ != "tool/editing-stop"@,
        "tool/shutdown"@ != "pre-tool/claim"@,
        "tool/shutdown"@ != "tool/claim"@,
        "tool/shutdown"@ != "tool/roots-add"@,
        "tool/shutdown"@ != "tool/roots-rm"@,
        "tool/version"@ != "tool/roots-ls"@,
        "tool/version"@ != "tool/worktree-ls"@,
        "tool/version"@ != "tool/worktree-rm"@,
        "tool/version"@ != "pre-invocation/first-sighting"@,
        "tool/version"@ != "session-end/cleanup"@,
        "tool/version"@ != "worktree-create/log-payload"@,
        "tool/version"@ != "subagent-start/mount-worktree"@,
        "tool/version"@ != "worktree-remove/unmount-worktree"@,
        "tool/version"@ != "permission-request/blocked"@,
        "tool/version"@ != "tool/editing-start"@,
        "tool/version"@ != "tool/hitstream"@,
        "tool/version"@ != "tool/editing-stop"@,
        "tool/version"@ != "pre-tool/claim"@,
        "tool/version"@ != "tool/claim"@,
        "tool/version"@ != "tool/roots-add"@,
        "tool/version"@ != "tool/roots-rm"@,
        "tool/roots-ls"@ != "tool/worktree-ls"@,
        "tool/roots-ls"@ != "tool/worktree-rm"@,
        "tool/roots-ls"@ != "pre-invocation/first-sighting"@,
        "tool/roots-ls"@ != "session-end/cleanup"@,
        "tool/roots-ls"@ != "worktree-create/log-payload"@,
        "tool/roots-ls"@ != "subagent-start/mount-worktree"@,
        "tool/roots-ls"@ != "worktree-remove/unmount-worktree"@,
        "tool/roots-ls"@ != "permission-request/blocked"@,
        "tool/roots-ls"@ != "tool/editing-start"@,
        "tool/roots-ls"@ != "tool/hitstream"@,
        "tool/roots-ls"@ != "tool/editing-stop"@,
        "tool/roots-ls"@ != "pre-tool/claim"@,
        "tool/roots-ls"@ != "tool/claim"@,
        "tool/roots-ls"@ != "tool/roots-add"@,
        "tool/roots-ls"@ != "tool/roots-rm"@,
        "tool/worktree-ls"@ != "tool/worktree-rm"@,
        "tool/worktree-ls"@ != "pre-invocation/first-sighting"@,
        "tool/worktree-ls"@ != "session-end/cleanup"@,
        "tool/worktree-ls"@ != "worktree-create/log-payload"@,
        "tool/worktree-ls"@ != "subagent-start/mount-worktree"@,
        "tool/worktree-ls"@ != "worktree-remove/unmount-worktree"@,
        "tool/worktree-ls"@ != "permission-request/blocked"@,
        "tool/worktree-ls"@ != "tool/editing-start"@,
        "tool/worktree-ls"@ != "tool/hitstream"@,
        "tool/worktree-ls"@ != "tool/editing-stop"@,
        "tool/worktree-ls"@ != "pre-tool/claim"@,
        "tool/worktree-ls"@ != "tool/claim"@,
        "tool/worktree-ls"@ != "tool/roots-add"@,
        "tool/worktree-ls"@ != "tool/roots-rm"@,
        "tool/worktree-rm"@ != "pre-invocation/first-sighting"@,
        "tool/worktree-rm"@ != "session-end/cleanup"@,
        "tool/worktree-rm"@ != "worktree-create/log-payload"@,
        "tool/worktree-rm"@ != "subagent-start/mount-worktree"@,
        "tool/worktree-rm"@ != "worktree-remove/unmount-worktree"@,
        "tool/worktree-rm"@ != "permission-request/blocked"@,
        "tool/worktree-rm"@ != "tool/editing-start"@,
        "tool/worktree-rm"@ != "tool/hitstream"@,
        "tool/worktree-rm"@ != "tool/editing-stop"@,
        "tool/worktree-rm"@ != "pre-tool/claim"@,
        "tool/worktree-rm"@ != "tool/claim"@,
        "tool/worktree-rm"@ != "tool/roots-add"@,
        "tool/worktree-rm"@ != "tool/roots-rm"@,
        "pre-invocation/first-sighting"@ != "session-end/cleanup"@,
        "pre-invocation/first-sighting"@ != "worktree-create/log-payload"@,
        "pre-invocation/first-sighting"@ != "subagent-start/mount-worktree"@,
        "pre-invocation/first-sighting"@ != "worktree-remove/unmount-worktree"@,
        "pre-invocation/first-sighting"@ != "permission-request/blocked"@,
        "pre-invocation/first-sighting"@ != "tool/editing-start"@,
        "pre-invocation/first-sighting"@ != "tool/hitstream"@,
        "pre-invocation/first-sighting"@ != "tool/editing-stop"@,
        "pre-invocation/first-sighting"@ != "pre-tool/claim"@,
        "pre-invocation/first-sighting"@ != "tool/claim"@,
        "pre-invocation/first-sighting"@ != "tool/roots-add"@,
        "pre-invocation/first-sighting"@ != "tool/roots-rm"@,
        "session-end/cleanup"@ != "worktree-create/log-payload"@,
        "session-end/cleanup"@ != "subagent-start/mount-worktree"@,
        "session-end/cleanup"@ != "worktree-remove/unmount-worktree"@,
        "session-end/cleanup"@ != "permission-request/blocked"@,
        "session-end/cleanup"@ != "tool/editing-start"@,
        "session-end/cleanup"@ != "tool/hitstream"@,
        "session-end/cleanup"@ != "tool/editing-stop"@,
        "session-end/cleanup"@ != "pre-tool/claim"@,
        "session-end/cleanup"@ != "tool/claim"@,
        "session-end/cleanup"@ != "tool/roots-add"@,
        "session-end/cleanup"@ != "tool/roots-rm"@,
        "worktree-create/log-payload"@ != "subagent-start/mount-worktree"@,
        "worktree-create/log-payload"@ != "worktree-remove/unmount-worktree"@,
        "worktree-create/log-payload"@ != "permission-request/blocked"@,
        "worktree-create/log-payload"@ != "tool/editing-start"@,
        "worktree-create/log-payload"@ != "tool/hitstream"@,
        "worktree-create/log-payload"@ != "tool/editing-stop"@,
        "worktree-create/log-payload"@ != "pre-tool/claim"@,
        "worktree-create/log-payload"@ != "tool/claim"@,
        "worktree-create/log-payload"@ != "tool/roots-add"@,
        "worktree-create/log-payload"@ != "tool/roots-rm"@,
        "subagent-start/mount-worktree"@ != "worktree-remove/unmount-worktree"@,
        "subagent-start/mount-worktree"@ != "permission-request/blocked"@,
        "subagent-start/mount-worktree"@ != "tool/editing-start"@,
        "subagent-start/mount-worktree"@ != "tool/hitstream"@,
        "subagent-start/mount-worktree"@ != "tool/editing-stop"@,
        "subagent-start/mount-worktree"@ != "pre-tool/claim"@,
        "subagent-start/mount-worktree"@ != "tool/claim"@,
        "subagent-start/mount-worktree"@ != "tool/roots-add"@,
        "subagent-start/mount-worktree"@ != "tool/roots-rm"@,
        "worktree-remove/unmount-worktree"@ != "permission-request/blocked"@,
        "worktree-remove/unmount-worktree"@ != "tool/editing-start"@,
        "worktree-remove/unmount-worktree"@ != "tool/hitstream"@,
        "worktree-remove/unmount-worktree"@ != "tool/editing-stop"@,
        "worktree-remove/unmount-worktree"@ != "pre-tool/claim"@,
        "worktree-remove/unmount-worktree"@ != "tool/claim"@,
        "worktree-remove/unmount-worktree"@ != "tool/roots-add"@,
        "worktree-remove/unmount-worktree"@ != "tool/roots-rm"@,
        "permission-request/blocked"@ != "tool/editing-start"@,
        "permission-request/blocked"@ != "tool/hitstream"@,
        "permission-request/blocked"@ != "tool/editing-stop"@,
        "permission-request/blocked"@ != "pre-tool/claim"@,
        "permission-request/blocked"@ != "tool/claim"@,
        "permission-request/blocked"@ != "tool/roots-add"@,
        "permission-request/blocked"@ != "tool/roots-rm"@,
        "tool/editing-start"@ != "tool/hitstream"@,
        "tool/editing-start"@ != "tool/editing-stop"@,
        "tool/editing-start"@ != "pre-tool/claim"@,
        "tool/editing-start"@ != "tool/claim"@,
        "tool/editing-start"@ != "tool/roots-add"@,
        "tool/editing-start"@ != "tool/roots-rm"@,
        "tool/hitstream"@ != "tool/editing-stop"@,
        "tool/hitstream"@ != "pre-tool/claim"@,
        "tool/hitstream"@ != "tool/claim"@,
        "tool/hitstream"@ != "tool/roots-add"@,
        "tool/hitstream"@ != "tool/roots-rm"@,
        "tool/editing-stop"@ != "pre-tool/claim"@,
        "tool/editing-stop"@ != "tool/claim"@,
        "tool/editing-stop"@ != "tool/roots-add"@,
        "tool/editing-stop"@ != "tool/roots-rm"@,
        "pre-tool/claim"@ != "tool/claim"@,
        "pre-tool/claim"@ != "tool/roots-add"@,
        "pre-tool/claim"@ != "tool/roots-rm"@,
        "tool/claim"@ != "tool/roots-add"@,
        "tool/claim"@ != "tool/roots-rm"@,
        "tool/roots-add"@ != "tool/roots-rm"@,
{
    reveal_strlit("tool/shutdown");
    reveal_strlit("tool/version");
    reveal_strlit("tool/roots-ls");
    reveal_strlit("tool/worktree-ls");
    reveal_strlit("tool/worktree-rm");
    reveal_strlit("pre-invocation/first-sighting");
    reveal_strlit("session-end/cleanup");
    reveal_strlit("worktree-create/log-payload");
    reveal_strlit("subagent-start/mount-worktree");
    reveal_strlit("worktree-remove/unmount-worktree");
    reveal_strlit("permission-request/blocked");
    reveal_strlit("tool/editing-start");
    reveal_strlit("tool/hitstream");
    reveal_strlit("tool/editing-stop");
    reveal_strlit("pre-tool/claim");
    reveal_strlit("tool/claim");
    reveal_strlit("tool/roots-add");
    reveal_strlit("tool/roots-rm");
    assert("tool/shutdown"@.len() == 13);
    assert("tool/version"@.len() == 12);
    assert("tool/roots-ls"@.len() == 13);
    assert("tool/worktree-ls"@.len() == 16);
    assert("tool/worktree-rm"@.len() == 16);
    assert("pre-invocation/first-sighting"@.len() == 29);
    assert("session-end/cleanup"@.len() == 19);
    assert("worktree-create/log-payload"@.len() == 27);
    assert("subagent-start/mount-worktree"@.len() == 29);
    assert("worktree-remove/unmount-worktree"@.len() == 32);
    assert("permission-request/blocked"@.len() == 26);
    assert("tool/editing-start"@.len() == 18);
    assert("tool/hitstream"@.len() == 14);
    assert("tool/editing-stop"@.len() == 17);
    assert("pre-tool/claim"@.len() == 14);
    assert("tool/claim"@.len() == 10);
    assert("tool/roots-add"@.len() == 14);
    assert("tool/roots-rm"@.len() == 13);
    assert("tool/shutdown"@[5] != "tool/roots-ls"@[5]);
    assert("tool/shutdown"@[5] != "tool/roots-rm"@[5]);
    assert("tool/roots-ls"@[11] != "tool/roots-rm"@[11]);
    assert("tool/worktree-ls"@[14] != "tool/worktree-rm"@[14]);
    assert("pre-invocation/first-sighting"@[0] != "subagent-start/mount-worktree"@[0]);
    assert("tool/hitstream"@[0] != "pre-tool/claim"@[0]);
    assert("tool/hitstream"@[5] != "tool/roots-add"@[5]);
    assert("pre-tool/claim"@[0] != "tool/roots-add"@[0]);
}

} // verus!
