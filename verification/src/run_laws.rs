//! What a diagnose run promises: which files it covers, what it tells of them, and
//! which debts it pays.

use crate::diagnose::{delivered_files, diagnose_batch, diagnose_reply, due_spellings, named_roots, render_receipt, requested_files, DiagnoseBatch, DiagnoseReply, DueRoot, NamedFile, RoundOutcome, CLAIMED_RECEIPT_LEAD, DIAG_FOLLOWED_NOTE};
use crate::dispatch::RunStart;
use crate::ephemeral::{spellings, TouchedPath};
use crate::hook::{HookState, HookView};
use crate::json::{json_view, JsonView};
use crate::path::{keys, PathKey, UnixPath};
use crate::payload::texts_of;
use crate::root_laws::{keeps_clocks, keeps_sessions, lists};
use crate::text::{decimal, views};
use crate::tracker::text_option;
use crate::words::{lemma_answer_keys, lemma_status_words};
use vstd::prelude::*;

verus! {

/// The text ends with `tail`.
pub open spec fn ends_with(text: Seq<char>, tail: Seq<char>) -> bool {
    text.len() >= tail.len() && text.skip(text.len() - tail.len()) == tail
}

/// The lines that lead a receipt, each with its line break.
pub open spec fn leading_lines(followed: bool, claimed: bool) -> Seq<char> {
    (if claimed {
        CLAIMED_RECEIPT_LEAD@ + "\n"@
    } else {
        Seq::empty()
    }) + (if followed {
        DIAG_FOLLOWED_NOTE@ + "\n"@
    } else {
        Seq::empty()
    })
}

/// The text is what a round found, led by one line for each thing that is noted:
/// that the root was claimed, then that the round waited.
pub open spec fn tells(text: Seq<char>, found: Seq<char>, followed: bool, claimed: bool) -> bool {
    &&& ends_with(text, found)
    &&& !followed && !claimed ==> text == found
    &&& found.len() > 0 ==> text == leading_lines(followed, claimed) + found
    &&& found.len() == 0 && (followed || claimed) ==> text + "\n"@ == leading_lines(
        followed,
        claimed,
    )
}

proof fn lemma_receipt(output: Seq<char>, followed: bool, claimed: bool, text: Seq<char>)
    requires
        text == crate::diagnose::receipt(output, followed, claimed),
    ensures
        tells(text, output, followed, claimed),
{
    let lines = leading_lines(followed, claimed);
    reveal_strlit("\n");
    reveal_strlit("another diagnose was in flight; this run followed it");
    assert(DIAG_FOLLOWED_NOTE@.len() > 0);
    if output.len() > 0 {
        assert(text =~= lines + output);
    } else {
        if followed || claimed {
            assert(text + "\n"@ =~= lines);
        }
    }
    assert(text.skip(text.len() - output.len()) =~= output);
}

/// A receipt holds what the round found, whole and at its end; nothing but the
/// lines that are due stands before it.
pub proof fn law_a_receipt_keeps_what_was_found(
    output: String,
    followed: bool,
    claimed: bool,
    r: String,
)
    requires
        call_ensures(render_receipt, (output, followed, claimed), r),
    ensures
        tells(r@, output@, followed, claimed),
{
    lemma_receipt(output@, followed, claimed, r@);
}

/// The answer of a run tells what the round found and whether it is dirty, and
/// counts the files that were covered.
pub open spec fn answers_run(
    answer: JsonView,
    files: nat,
    outcome: RoundOutcome,
    followed: bool,
    claimed: bool,
) -> bool {
    &&& answer.text_field("output"@) matches Some(text) && tells(
        text,
        outcome.output@,
        followed,
        claimed,
    )
    &&& (answer.text_field("status"@) == Some("dirty"@)) == outcome.dirty
    &&& (answer.text_field("status"@) == Some("clean"@)) == !outcome.dirty
    &&& answer.field("covered"@) == Some(JsonView::Number(decimal(files)))
}

/// The debts that are paid: those of the files that were covered or served, each
/// once, and of no directory and no other file.
pub open spec fn pays(
    delivered: Seq<UnixPath>,
    files: Seq<UnixPath>,
    served: Seq<UnixPath>,
    dirs: Seq<UnixPath>,
    path: PathKey,
) -> bool {
    &&& lists(delivered, path) == ((lists(files, path) || lists(served, path)) && !lists(
        dirs,
        path,
    ))
    &&& forall|i: int, j: int|
        0 <= i < j < delivered.len() ==> (#[trigger] delivered[i]).key() != (
        #[trigger] delivered[j]).key()
}

proof fn lemma_lists(v: Seq<UnixPath>, path: PathKey)
    ensures
        lists(v, path) == keys(v).to_set().contains(path),
        keys(v).contains(path) == keys(v).to_set().contains(path),
{
    if lists(v, path) {
        let i = choose|i: int| 0 <= i < v.len() && (#[trigger] v[i]).key() == path;
        assert(keys(v)[i] == path);
    }
    if keys(v).contains(path) {
        let i = choose|i: int| 0 <= i < keys(v).len() && keys(v)[i] == path;
        assert(v[i].key() == path);
    }
}

proof fn lemma_pays(
    delivered: Seq<UnixPath>,
    files: Seq<UnixPath>,
    served: Seq<UnixPath>,
    dirs: Seq<UnixPath>,
    path: PathKey,
)
    requires
        crate::order::strictly_sorted(keys(delivered), crate::path::path_lt()),
        keys(delivered).to_set() == keys(files).to_set().union(
            keys(served).to_set(),
        ).difference(keys(dirs).to_set()),
    ensures
        pays(delivered, files, served, dirs, path),
{
    lemma_lists(delivered, path);
    lemma_lists(files, path);
    lemma_lists(served, path);
    lemma_lists(dirs, path);
    crate::path::lemma_path_strict_total();
    let ks = keys(delivered);
    assert forall|i: int, j: int| 0 <= i < j < delivered.len() implies (
    #[trigger] delivered[i]).key() != (#[trigger] delivered[j]).key() by {
        assert(ks[i] == delivered[i].key() && ks[j] == delivered[j].key());
        assert(crate::path::path_lt()(ks[i], ks[j]));
    }
}

/// Whichever way a run is answered, it tells all that the round found and pays the
/// debts of what it covered and served.
pub proof fn law_a_reply_tells_and_pays(
    files: &[UnixPath],
    outcome: RoundOutcome,
    followed: bool,
    claimed: bool,
    dirs: &[UnixPath],
    r: DiagnoseReply,
    path: PathKey,
)
    requires
        call_ensures(diagnose_reply, (files, outcome, followed, claimed, dirs), r),
    ensures
        answers_run(json_view(r.answer), files.len() as nat, outcome, followed, claimed),
        pays(r.delivered@, files@, outcome.served@, dirs@, path),
{
    lemma_answer_keys();
    lemma_status_words();
    lemma_receipt(
        outcome.output@,
        followed,
        claimed,
        json_view(r.answer).text_field("output"@)->0,
    );
    lemma_pays(r.delivered@, files@, outcome.served@, dirs@, path);
}

/// The end of a run: where its client is there it is answered, tells all that the
/// round found and pays its debts; where it is gone nothing is answered. Either way
/// the seat of its root is free, those of other roots are as they were, and nothing
/// else changes.
pub proof fn law_a_run_ends_with_its_receipt(
    state: &mut HookState,
    batch: &DiagnoseBatch,
    outcome: Option<RoundOutcome>,
    followed: bool,
    claimed: bool,
    dirs: &[UnixPath],
    r: Option<DiagnoseReply>,
    root: Seq<char>,
    path: PathKey,
)
    requires
        old(state).wf(),
        call_ensures(HookState::end_run, (state, batch, outcome, followed, claimed, dirs), r),
    ensures
        r is Some == outcome is Some,
        outcome matches Some(o) ==> answers_run(
            json_view(r->0.answer),
            batch.files.len() as nat,
            o,
            followed,
            claimed,
        ) && pays(r->0.delivered@, batch.files@, o.served@, dirs@, path),
        text_option(batch.doc_owner) == Some(root) ==> !final(state)@.rounds.contains(root),
        text_option(batch.doc_owner) != Some(root) ==> final(state)@.rounds.contains(root) == old(
            state,
        )@.rounds.contains(root),
        changes_rounds_alone(old(state)@, final(state)@),
{
    if let Some(o) = outcome {
        let reply = r->0;
        lemma_answer_keys();
        lemma_status_words();
        lemma_receipt(
            o.output@,
            followed,
            claimed,
            json_view(reply.answer).text_field("output"@)->0,
        );
        lemma_pays(reply.delivered@, batch.files@, o.served@, dirs@, path);
    }
}

/// Nothing but the seats of runs has changed.
pub open spec fn changes_rounds_alone(v: HookView, w: HookView) -> bool {
    &&& w.tracker == v.tracker
    &&& keeps_clocks(v, w)
    &&& keeps_sessions(v, w)
    &&& w.registry == v.registry
    &&& w.sightings == v.sightings
    &&& w.promoted == v.promoted
    &&& w.nudges == v.nudges
    &&& w.claim == v.claim
    &&& w.patience == v.patience
}

/// A run is admitted where no run on its root is under way, and takes the seat of
/// its root then; a run that has no root is always admitted. One that is not
/// admitted remembers that it waited. No other seat changes, and nothing else.
pub proof fn law_runs_on_a_root_take_turns(
    state: &mut HookState,
    batch: &DiagnoseBatch,
    waited: &mut bool,
    r: bool,
    root: Seq<char>,
)
    requires
        old(state).wf(),
        call_ensures(HookState::admit_run, (state, batch, waited), r),
    ensures
        r == (text_option(batch.doc_owner) matches Some(own) ==> !old(state)@.rounds.contains(own)),
        final(state)@.rounds.contains(root) == (old(state)@.rounds.contains(root) || text_option(
            batch.doc_owner,
        ) == Some(root)),
        changes_rounds_alone(old(state)@, final(state)@),
        *final(waited) == (*old(waited) || !r),
{
}

/// A run that covers nothing is answered at once: clean, nothing covered, no debt
/// paid, and no text but that of a claim. Any other run goes on, and no root that
/// was served is lost by it.
pub proof fn law_a_run_with_nothing_due_is_answered(
    state: &mut HookState,
    batch: &DiagnoseBatch,
    touched: &[TouchedPath],
    claimed: bool,
    now: u64,
    r: RunStart,
)
    requires
        old(state).wf(),
        call_ensures(HookState::begin_run, (state, batch, touched, claimed, now), r),
    ensures
        (r is Answered) == (batch.files.len() == 0),
        r matches RunStart::Answered(reply) ==> {
            &&& json_view(reply.answer).text_field("status"@) == Some("clean"@)
            &&& json_view(reply.answer).field("covered"@) == Some(JsonView::Number(decimal(0)))
            &&& json_view(reply.answer).text_field("output"@) matches Some(text) && tells(
                text,
                Seq::empty(),
                false,
                claimed,
            )
            &&& reply.delivered.len() == 0
            &&& final(state)@ == old(state)@
        },
{
    lemma_answer_keys();
    lemma_status_words();
    if let RunStart::Answered(reply) = r {
        lemma_receipt(
            Seq::empty(),
            false,
            claimed,
            json_view(reply.answer).text_field("output"@)->0,
        );
    }
}

/// A run that names files covers those, in their order, and nothing that is due
/// besides; it is booked on the root of the first, and the takeover of every root
/// of a named file is announced.
pub proof fn law_named_files_are_what_is_covered(
    named: &[NamedFile],
    roots: &[DueRoot],
    r: DiagnoseBatch,
    root: PathKey,
)
    requires
        call_ensures(diagnose_batch, (named, roots), r),
        named.len() > 0,
    ensures
        r.files.len() == named.len(),
        forall|i: int| 0 <= i < named.len() ==> (#[trigger] r.files[i])@ == named[i].path@,
        r.doc_owner is Some == named[0].root is Some,
        r.doc_owner matches Some(owner) ==> owner@ == named[0].root->0@,
        lists(r.claimed_roots@, root) == exists|i: int|
            0 <= i < named.len() && (#[trigger] named[i]).root is Some && named[i].root->0.key()
                == root,
{
    assert(spellings(r.files@).len() == named.len());
    assert forall|i: int| 0 <= i < named.len() implies (#[trigger] r.files[i])@
        == named[i].path@ by {
        assert(spellings(r.files@)[i] == named@[i].path@);
    }
    lemma_lists(r.claimed_roots@, root);
    lemma_lists(named_roots(named@), root);
    lemma_named_roots(named@, root);
}

proof fn lemma_named_roots(v: Seq<NamedFile>, root: PathKey)
    ensures
        lists(named_roots(v), root) == exists|i: int|
            0 <= i < v.len() && (#[trigger] v[i]).root is Some && v[i].root->0.key() == root,
    decreases v.len(),
{
    if v.len() > 0 {
        let front = v.drop_last();
        let before = named_roots(front);
        lemma_named_roots(front, root);
        if lists(before, root) {
            let i = choose|i: int|
                0 <= i < front.len() && (#[trigger] front[i]).root is Some
                    && front[i].root->0.key() == root;
            assert(v[i].root is Some);
            let j = choose|j: int| 0 <= j < before.len() && (#[trigger] before[j]).key() == root;
            assert(named_roots(v)[j].key() == root);
        }
        if v.last().root is Some && v.last().root->0.key() == root {
            assert(v[v.len() - 1].root is Some);
            assert(named_roots(v)[before.len() as int].key() == root);
        }
        if lists(named_roots(v), root) && !lists(before, root) {
            let j = choose|j: int|
                0 <= j < named_roots(v).len() && (#[trigger] named_roots(v)[j]).key() == root;
            if j < before.len() {
                assert(before[j].key() == root);
            }
        }
        if exists|i: int|
            0 <= i < v.len() && (#[trigger] v[i]).root is Some && v[i].root->0.key() == root {
            let i = choose|i: int|
                0 <= i < v.len() && (#[trigger] v[i]).root is Some && v[i].root->0.key() == root;
            if i < front.len() {
                assert(front[i].root is Some);
            }
        }
    }
}

/// A run that names no files covers every file that is due in a root of its
/// caller, and no other; it is booked on the first root, and the takeover of each
/// of the roots is announced.
pub proof fn law_a_bare_run_covers_what_is_due(
    named: &[NamedFile],
    roots: &[DueRoot],
    r: DiagnoseBatch,
    file: Seq<char>,
)
    requires
        call_ensures(diagnose_batch, (named, roots), r),
        named.len() == 0,
    ensures
        spellings(r.files@).contains(file) == exists|i: int, j: int|
            0 <= i < roots.len() && 0 <= j < roots[i].due.len() && (#[trigger] roots[i].due[j])@
                == file,
        r.doc_owner is Some == (roots.len() > 0),
        r.doc_owner matches Some(owner) ==> owner@ == roots[0].root@,
        r.claimed_roots.len() == roots.len(),
        forall|i: int| 0 <= i < roots.len() ==> (#[trigger] r.claimed_roots[i])@ == roots[i].root@,
{
    lemma_due(roots@, file);
    let told = spellings(r.claimed_roots@);
    assert(told.len() == roots.len());
    assert forall|i: int| 0 <= i < roots.len() implies (#[trigger] r.claimed_roots[i])@
        == roots[i].root@ by {
        assert(told[i] == roots@[i].root@);
    }
}

proof fn lemma_due(v: Seq<DueRoot>, file: Seq<char>)
    ensures
        due_spellings(v).contains(file) == exists|i: int, j: int|
            0 <= i < v.len() && 0 <= j < v[i].due.len() && (#[trigger] v[i].due[j])@ == file,
    decreases v.len(),
{
    if v.len() > 0 {
        let front = v.drop_last();
        let before = due_spellings(front);
        let own = spellings(v.last().due@);
        lemma_due(front, file);
        let whole = due_spellings(v);
        assert(whole == before + own);
        if before.contains(file) {
            let (i, j) = choose|i: int, j: int|
                0 <= i < front.len() && 0 <= j < front[i].due.len() && (
                #[trigger] front[i].due[j])@ == file;
            assert(v[i].due[j]@ == file);
            let n = choose|n: int| 0 <= n < before.len() && before[n] == file;
            assert(whole[n] == file);
        }
        if own.contains(file) {
            let j = choose|j: int| 0 <= j < own.len() && own[j] == file;
            assert(v[v.len() - 1].due[j]@ == file);
            assert(whole[before.len() + j] == file);
        }
        if whole.contains(file) {
            let n = choose|n: int| 0 <= n < whole.len() && whole[n] == file;
            if n < before.len() {
                assert(before[n] == file);
            } else {
                assert(own[n - before.len()] == file);
            }
        }
        if exists|i: int, j: int|
            0 <= i < v.len() && 0 <= j < v[i].due.len() && (#[trigger] v[i].due[j])@ == file {
            let (i, j) = choose|i: int, j: int|
                0 <= i < v.len() && 0 <= j < v[i].due.len() && (#[trigger] v[i].due[j])@ == file;
            if i < front.len() {
                assert(front[i].due[j]@ == file);
            } else {
                assert(own[j] == file);
            }
        }
    }
}

/// Every text among the items is taken, in its order, and nothing else: the texts of
/// two lists are those of the one and then those of the other.
pub proof fn law_texts_are_taken_in_order(a: Seq<JsonView>, b: Seq<JsonView>, item: JsonView)
    ensures
        texts_of(a + b) == texts_of(a) + texts_of(b),
        item matches JsonView::Text(t) ==> texts_of(seq![item]) == seq![t],
        !(item is Text) ==> texts_of(seq![item]) == Seq::<Seq<char>>::empty(),
    decreases b.len(),
{
    assert(seq![item].drop_last() =~= Seq::<JsonView>::empty());
    assert(seq![item].last() == item);
    assert(texts_of(Seq::<JsonView>::empty()) =~= Seq::empty());
    if item is Text {
        assert(texts_of(seq![item]) =~= seq![item->Text_0]);
    }
    if b.len() == 0 {
        assert(a + b =~= a);
        assert(texts_of(a) + texts_of(b) =~= texts_of(a));
    } else {
        law_texts_are_taken_in_order(a, b.drop_last(), item);
        assert((a + b).drop_last() =~= a + b.drop_last());
        assert((a + b).last() == b.last());
        assert(texts_of(a + b) =~= texts_of(a) + texts_of(b));
    }
}

/// The files that a request names are the texts of its list; without a list it
/// names none.
pub proof fn law_a_request_names_its_files(raw: &serde_json::Value, r: Vec<String>, file: Seq<char>)
    requires
        call_ensures(requested_files, (raw,), r),
    ensures
        views(r@).contains(file) == (json_view(*raw).field("files"@) matches Some(
            JsonView::Array(items),
        ) && items.contains(JsonView::Text(file))),
        json_view(*raw).field("files"@) matches Some(JsonView::Array(items)) ==> (all_texts(items)
            ==> r.len() == items.len() && forall|i: int|
            0 <= i < items.len() ==> (#[trigger] items[i]) == JsonView::Text(views(r@)[i])),
{
    if let Some(JsonView::Array(items)) = json_view(*raw).field("files"@) {
        lemma_texts(items, file);
        if all_texts(items) {
            lemma_all_texts(items);
            assert(views(r@).len() == r.len());
        }
    } else {
        assert(!views(r@).contains(file));
    }
}

/// The texts among the items are those that are taken.
pub proof fn lemma_texts(items: Seq<JsonView>, text: Seq<char>)
    ensures
        texts_of(items).contains(text) == items.contains(JsonView::Text(text)),
    decreases items.len(),
{
    if items.len() > 0 {
        let front = items.drop_last();
        lemma_texts(front, text);
        let before = texts_of(front);
        if before.contains(text) {
            let n = choose|n: int| 0 <= n < before.len() && before[n] == text;
            assert(texts_of(items)[n] == text);
            let i = choose|i: int| 0 <= i < front.len() && front[i] == JsonView::Text(text);
            assert(items[i] == JsonView::Text(text));
        }
        if items.last() == JsonView::Text(text) {
            assert(texts_of(items)[before.len() as int] == text);
            assert(items[items.len() - 1] == JsonView::Text(text));
        }
        if texts_of(items).contains(text) && !before.contains(text) {
            let n = choose|n: int| 0 <= n < texts_of(items).len() && texts_of(items)[n] == text;
            if n < before.len() {
                assert(before[n] == text);
            }
        }
        if items.contains(JsonView::Text(text)) {
            let i = choose|i: int| 0 <= i < items.len() && items[i] == JsonView::Text(text);
            if i < front.len() {
                assert(front[i] == JsonView::Text(text));
            }
        }
    }
}

/// Every item is a text.
pub open spec fn all_texts(items: Seq<JsonView>) -> bool {
    forall|i: int| 0 <= i < items.len() ==> (#[trigger] items[i]) is Text
}

/// Where every item is a text, they are taken one for one.
pub proof fn lemma_all_texts(items: Seq<JsonView>)
    requires
        all_texts(items),
    ensures
        texts_of(items).len() == items.len(),
        forall|i: int| 0 <= i < items.len() ==> (#[trigger] items[i]) == JsonView::Text(
            texts_of(items)[i],
        ),
    decreases items.len(),
{
    if items.len() > 0 {
        let front = items.drop_last();
        assert forall|i: int| 0 <= i < front.len() implies (#[trigger] front[i]) is Text by {
            assert(items[i] is Text);
        }
        lemma_all_texts(front);
        assert(items[items.len() - 1] is Text);
        assert forall|i: int| 0 <= i < items.len() implies (#[trigger] items[i])
            == JsonView::Text(texts_of(items)[i]) by {
            if i < front.len() {
                assert(front[i] == items[i]);
            }
        }
    }
}

/// The debts that are paid are those of what was covered and served.
pub proof fn law_debts_are_paid_for_files(
    files: &[UnixPath],
    served: &[UnixPath],
    dirs: &[UnixPath],
    r: Vec<UnixPath>,
    path: PathKey,
)
    requires
        call_ensures(delivered_files, (files, served, dirs), r),
    ensures
        pays(r@, files@, served@, dirs@, path),
{
    lemma_pays(r@, files@, served@, dirs@, path);
}

} // verus!
