//! Serving a diagnose run: which files it covers, what it answers, and which
//! debts it pays.

use crate::ephemeral::{contains_path, path_option, spellings};
use crate::json::{json_view, value_as_array, value_get, JsonView, ObjectBuilder};
use crate::order::strictly_sorted;
use crate::path::{first_spellings, insert_path, keys, lemma_first_spellings, lemma_path_strict_total, lemma_spelled_alike, lemma_spelled_next, lemma_spelled_still, path_lt, same_spellings, spelled_in, PathKey, UnixPath};
use crate::payload::{text_items, texts_of};
use crate::table::{lemma_push_set, lemma_take_next};
use crate::text::{concat2, concat3, decimal, decimal_text, views};
use crate::tracker::text_option;
use vstd::prelude::*;

verus! {

/// The line of a receipt whose round waited for another.
pub const DIAG_FOLLOWED_NOTE: &'static str = "another diagnose was in flight; this run followed it";

/// The line of the first receipt after a claim.
pub const CLAIMED_RECEIPT_LEAD: &'static str = "root claimed from a prior editor";

/// The files that a request names.
pub open spec fn named_files(raw: JsonView) -> Seq<Seq<char>> {
    match raw.field("files"@) {
        Some(JsonView::Array(items)) => texts_of(items),
        _ => Seq::empty(),
    }
}

/// The files that a request names.
pub fn requested_files(raw: &serde_json::Value) -> (r: Vec<String>)
    ensures
        views(r@) == named_files(json_view(*raw)),
{
    if let Some(files) = value_get(raw, "files") {
        if let Some(items) = value_as_array(files) {
            return text_items(items);
        }
    }
    let r: Vec<String> = Vec::new();
    assert(views(r@) =~= Seq::empty());
    r
}

/// A named file, and the root whose ledger it is booked in.
pub struct NamedFile {
    pub path: UnixPath,
    pub root: Option<UnixPath>,
}

/// A root, and the files that are due in its ledger.
pub struct DueRoot {
    pub root: UnixPath,
    pub due: Vec<UnixPath>,
}

/// What a run covers.
pub struct DiagnoseBatch {
    /// The files to diagnose.
    pub files: Vec<UnixPath>,
    /// The root that owns the documents the run opens, and its seat.
    pub doc_owner: Option<String>,
    /// The roots whose takeover the receipt announces.
    pub claimed_roots: Vec<UnixPath>,
}

/// The spellings of the named files.
pub open spec fn named_spellings(v: Seq<NamedFile>) -> Seq<Seq<char>> {
    v.map_values(|f: NamedFile| f.path@)
}

/// The due files of the roots, one root after the other.
pub open spec fn due_spellings(v: Seq<DueRoot>) -> Seq<Seq<char>>
    decreases v.len(),
{
    if v.len() == 0 {
        Seq::empty()
    } else {
        due_spellings(v.drop_last()) + spellings(v.last().due@)
    }
}

/// The roots of the named files, one after the other.
pub open spec fn named_roots(v: Seq<NamedFile>) -> Seq<UnixPath>
    decreases v.len(),
{
    if v.len() == 0 {
        Seq::empty()
    } else {
        match v.last().root {
            Some(r) => named_roots(v.drop_last()).push(r),
            None => named_roots(v.drop_last()),
        }
    }
}

/// What a run covers: the named files where there are any, else every file that
/// is due in the caller's roots.
pub fn diagnose_batch(named: &[NamedFile], roots: &[DueRoot]) -> (r: DiagnoseBatch)
    ensures
        named@.len() > 0 ==> {
            &&& spellings(r.files@) == named_spellings(named@)
            &&& text_option(r.doc_owner) == path_option(named@[0].root)
            &&& strictly_sorted(keys(r.claimed_roots@), path_lt())
            &&& keys(r.claimed_roots@).to_set() == keys(named_roots(named@)).to_set()
            &&& spelled_in(r.claimed_roots@, first_spellings(named_roots(named@)))
        },
        named@.len() == 0 ==> {
            &&& spellings(r.files@) == due_spellings(roots@)
            &&& text_option(r.doc_owner) == if roots@.len() > 0 {
                Some(roots@[0].root@)
            } else {
                None
            }
            &&& spellings(r.claimed_roots@) == roots@.map_values(|d: DueRoot| d.root@)
        },
{
    let mut files: Vec<UnixPath> = Vec::new();
    let mut claimed_roots: Vec<UnixPath> = Vec::new();
    let mut i: usize = 0;
    if named.len() > 0 {
        proof {
            lemma_path_strict_total();
            assert(keys(claimed_roots@).to_set() =~= keys(named_roots(named@.take(0))).to_set());
        }
        while i < named.len()
            invariant
                i <= named.len(),
                files.len() == i,
                forall|j: int| 0 <= j < i ==> (#[trigger] files[j])@ == named[j].path@,
                strictly_sorted(keys(claimed_roots@), path_lt()),
                keys(claimed_roots@).to_set() == keys(
                    named_roots(named@.take(i as int)),
                ).to_set(),
                spelled_in(
                    claimed_roots@,
                    first_spellings(named_roots(named@.take(i as int))),
                ),
            decreases named.len() - i,
        {
            proof {
                assert(named@.take(i + 1).drop_last() =~= named@.take(i as int));
                assert(named@.take(i + 1).last() == named@[i as int]);
            }
            files.push(named[i].path.duplicate());
            if let Some(root) = &named[i].root {
                put_spelled(
                    &mut claimed_roots,
                    root,
                    Ghost(named_roots(named@.take(i as int))),
                );
            }
            i += 1;
        }
        assert(named@.take(named.len() as int) =~= named@);
        assert(spellings(files@) =~= named_spellings(named@));
        let doc_owner: Option<String> = match &named[0].root {
            Some(root) => Some(root.as_str().to_owned()),
            None => None,
        };
        return DiagnoseBatch { files, doc_owner, claimed_roots };
    }
    assert(spellings(files@) =~= due_spellings(roots@.take(0)));
    while i < roots.len()
        invariant
            i <= roots.len(),
            claimed_roots.len() == i,
            forall|j: int| 0 <= j < i ==> (#[trigger] claimed_roots[j])@ == roots[j].root@,
            spellings(files@) == due_spellings(roots@.take(i as int)),
        decreases roots.len() - i,
    {
        let ghost before = spellings(files@);
        proof {
            assert(roots@.take(i + 1).drop_last() =~= roots@.take(i as int));
            assert(roots@.take(i + 1).last() == roots@[i as int]);
        }
        claimed_roots.push(roots[i].root.duplicate());
        let due = &roots[i].due;
        let mut j: usize = 0;
        assert(spellings(files@) =~= before + spellings(due@).take(0));
        while j < due.len()
            invariant
                j <= due.len(),
                spellings(files@) == before + spellings(due@).take(j as int),
            decreases due.len() - j,
        {
            let ghost mid = spellings(files@);
            files.push(due[j].duplicate());
            proof {
                lemma_take_next(spellings(due@), j as int);
                assert(spellings(files@) =~= mid.push(due@[j as int]@));
                assert(before + spellings(due@).take(j + 1) =~= mid.push(due@[j as int]@));
            }
            j += 1;
        }
        assert(spellings(due@).take(due.len() as int) =~= spellings(due@));
        i += 1;
    }
    assert(roots@.take(roots.len() as int) =~= roots@);
    assert(spellings(claimed_roots@) =~= roots@.map_values(|d: DueRoot| d.root@));
    let doc_owner: Option<String> = if roots.len() > 0 {
        Some(roots[0].root.as_str().to_owned())
    } else {
        None
    };
    DiagnoseBatch { files, doc_owner, claimed_roots }
}

/// What a diagnose round found.
pub struct RoundOutcome {
    pub dirty: bool,
    pub output: String,
    /// The files it served.
    pub served: Vec<UnixPath>,
    pub errors: u64,
    pub warnings: u64,
}

/// `text` led by the line `lead`.
pub open spec fn led(lead: Seq<char>, text: Seq<char>) -> Seq<char> {
    if text.len() == 0 {
        lead
    } else {
        lead + "\n"@ + text
    }
}

/// The receipt: the claim's line leads, then that of a round that waited, then
/// what the round found.
pub open spec fn receipt(output: Seq<char>, followed: bool, claimed: bool) -> Seq<char> {
    let noted = if followed {
        led(DIAG_FOLLOWED_NOTE@, output)
    } else {
        output
    };
    if claimed {
        led(CLAIMED_RECEIPT_LEAD@, noted)
    } else {
        noted
    }
}

fn lead_with(lead: &str, text: String) -> (r: String)
    ensures
        r@ == led(lead@, text@),
{
    if text.as_str().is_empty() {
        lead.to_owned()
    } else {
        concat3(lead, "\n", text.as_str())
    }
}

/// Renders the receipt.
pub fn render_receipt(output: String, followed: bool, claimed: bool) -> (r: String)
    ensures
        r@ == receipt(output@, followed, claimed),
{
    let noted = if followed {
        lead_with(DIAG_FOLLOWED_NOTE, output)
    } else {
        output
    };
    if claimed {
        lead_with(CLAIMED_RECEIPT_LEAD, noted)
    } else {
        noted
    }
}

/// The files whose debt is paid, in path order: those that were named or due and
/// those that were served, but no directories.
pub fn delivered_files(files: &[UnixPath], served: &[UnixPath], dirs: &[UnixPath]) -> (r: Vec<
    UnixPath,
>)
    ensures
        strictly_sorted(keys(r@), path_lt()),
        keys(r@).to_set() == keys(files@).to_set().union(keys(served@).to_set()).difference(
            keys(dirs@).to_set(),
        ),
        spelled_in(r@, first_spellings(files@ + served@)),
{
    let mut r: Vec<UnixPath> = Vec::new();
    proof {
        lemma_path_strict_total();
        assert(keys(r@).to_set() =~= Set::empty());
    }
    let ghost none = Seq::<UnixPath>::empty();
    proof {
        assert(keys(none).to_set().difference(keys(dirs@).to_set()) =~= Set::empty());
        assert(none + files@ =~= files@);
    }
    add_files(&mut r, files, dirs, Ghost(none));
    assert(keys(r@).to_set() =~= keys(files@).to_set().difference(keys(dirs@).to_set()));
    add_files(&mut r, served, dirs, Ghost(files@));
    assert(keys(r@).to_set() =~= keys(files@).to_set().union(keys(served@).to_set()).difference(
        keys(dirs@).to_set(),
    ));
    r
}

/// Puts a path among those in path order. They are the `seen` ones.
fn put_spelled(v: &mut Vec<UnixPath>, p: &UnixPath, Ghost(seen): Ghost<Seq<UnixPath>>)
    requires
        strictly_sorted(keys(old(v)@), path_lt()),
        keys(old(v)@).to_set() == keys(seen).to_set(),
        spelled_in(old(v)@, first_spellings(seen)),
    ensures
        strictly_sorted(keys(final(v)@), path_lt()),
        keys(final(v)@).to_set() == keys(seen.push(*p)).to_set(),
        spelled_in(final(v)@, first_spellings(seen.push(*p))),
{
    let ghost before = v@;
    proof {
        lemma_first_spellings(seen);
        assert forall|k: PathKey| #[trigger] keys(before).contains(k) == first_spellings(
            seen,
        ).dom().contains(k) by {
            assert(keys(before).to_set().contains(k) == keys(before).contains(k));
        }
        assert(keys(seen.push(*p)) =~= keys(seen).push(p.key()));
        lemma_push_set(keys(seen), p.key());
    }
    let one = p.duplicate();
    let ghost q = one;
    insert_path(v, one);
    proof {
        lemma_spelled_next(before, v@, seen, q);
        assert(same_spellings(seen.push(q), seen.push(*p)));
        lemma_spelled_alike(seen.push(q), seen.push(*p));
    }
}

/// Puts the files that are no directories among those in path order. The ones
/// that are there are the `seen` ones that are no directories.
fn add_files(
    r: &mut Vec<UnixPath>,
    files: &[UnixPath],
    dirs: &[UnixPath],
    Ghost(seen): Ghost<Seq<UnixPath>>,
)
    requires
        strictly_sorted(keys(old(r)@), path_lt()),
        keys(old(r)@).to_set() == keys(seen).to_set().difference(keys(dirs@).to_set()),
        spelled_in(old(r)@, first_spellings(seen)),
    ensures
        strictly_sorted(keys(final(r)@), path_lt()),
        spelled_in(final(r)@, first_spellings(seen + files@)),
        keys(final(r)@).to_set() == keys(old(r)@).to_set().union(
            keys(files@).to_set().difference(keys(dirs@).to_set()),
        ),
{
    let ghost all = keys(files@);
    let ghost not = keys(dirs@).to_set();
    let ghost start = keys(r@).to_set();
    let mut i: usize = 0;
    assert(keys(r@).to_set() =~= start.union(all.take(0).to_set().difference(not)));
    assert(seen + files@.take(0) =~= seen);
    while i < files.len()
        invariant
            start == keys(seen).to_set().difference(not),
            spelled_in(r@, first_spellings(seen + files@.take(i as int))),
            i <= files.len(),
            all == keys(files@),
            not == keys(dirs@).to_set(),
            strictly_sorted(keys(r@), path_lt()),
            keys(r@).to_set() == start.union(all.take(i as int).to_set().difference(not)),
        decreases files.len() - i,
    {
        proof {
            lemma_take_next(all, i as int);
            assert(all[i as int] == files@[i as int].key());
        }
        let ghost before = r@;
        let ghost prior = seen + files@.take(i as int);
        let file = files[i].duplicate();
        let ghost q = file;
        proof {
            lemma_first_spellings(prior);
            assert(keys(prior) =~= keys(seen) + all.take(i as int));
            assert forall|k: PathKey| #[trigger] keys(before).contains(k) == (first_spellings(
                prior,
            ).dom().contains(k) && !not.contains(k)) by {
                assert(keys(before).to_set().contains(k) == keys(before).contains(k));
                assert(keys(prior).to_set().contains(k) == (keys(seen).contains(k) || all.take(
                    i as int,
                ).contains(k))) by {
                    lemma_concat_holds(keys(seen), all.take(i as int), k);
                }
            }
            assert(same_spellings(prior.push(q), seen + files@.take(i + 1)));
            lemma_spelled_alike(prior.push(q), seen + files@.take(i + 1));
            lemma_spelled_still(before, prior, q);
        }
        if !contains_path(dirs, &files[i]) {
            insert_path(r, file);
            proof {
                lemma_spelled_next(before, r@, prior, q);
            }
            assert(start.union(all.take(i + 1).to_set().difference(not)) =~= start.union(
                all.take(i as int).to_set().difference(not),
            ).insert(all[i as int]));
        } else {
            assert(start.union(all.take(i + 1).to_set().difference(not)) =~= start.union(
                all.take(i as int).to_set().difference(not),
            ));
        }
        i += 1;
    }
    assert(all.take(files.len() as int) =~= all);
    assert(files@.take(files.len() as int) =~= files@);
}

/// Two lists one after the other hold what either holds.
proof fn lemma_concat_holds(a: Seq<PathKey>, b: Seq<PathKey>, k: PathKey)
    ensures
        (a + b).contains(k) == (a.contains(k) || b.contains(k)),
{
    if a.contains(k) {
        let i = choose|i: int| 0 <= i < a.len() && a[i] == k;
        assert((a + b)[i] == k);
    }
    if b.contains(k) {
        let i = choose|i: int| 0 <= i < b.len() && b[i] == k;
        assert((a + b)[a.len() + i] == k);
    }
}

/// What a run answers and which debts it pays.
pub struct DiagnoseReply {
    pub answer: serde_json::Value,
    pub delivered: Vec<UnixPath>,
}

/// The members of the answer to a run.
pub open spec fn run_members(dirty: bool, output: Seq<char>, covered: nat) -> Map<
    Seq<char>,
    JsonView,
> {
    map![
        "status"@ => JsonView::Text(
            if dirty {
                "dirty"@
            } else {
                "clean"@
            },
        ),
        "output"@ => JsonView::Text(output),
        "covered"@ => JsonView::Number(decimal(covered)),
    ]
}

fn run_answer(dirty: bool, output: &str, covered: usize) -> (r: serde_json::Value)
    ensures
        json_view(r) == JsonView::Object(run_members(dirty, output@, covered as nat)),
{
    let status = if dirty {
        "dirty"
    } else {
        "clean"
    };
    ObjectBuilder::new().text("status", status).text("output", output).count(
        "covered",
        covered as u64,
    ).finish()
}

/// The answer where nothing is due: an empty receipt, or the claim's line.
pub fn nothing_due_reply(claimed: bool) -> (r: DiagnoseReply)
    ensures
        json_view(r.answer) == JsonView::Object(
            run_members(false, receipt(Seq::empty(), false, claimed), 0),
        ),
        r.delivered@.len() == 0,
{
    let output = render_receipt(String::new(), false, claimed);
    DiagnoseReply { answer: run_answer(false, output.as_str(), 0), delivered: Vec::new() }
}

/// The answer of a run that covered `files`, and the debts it pays, in path order:
/// those of the files it covered or served, not of directories.
pub open spec fn replies(
    r: DiagnoseReply,
    files: Seq<UnixPath>,
    outcome: RoundOutcome,
    followed: bool,
    claimed: bool,
    dirs: Seq<UnixPath>,
) -> bool {
    &&& json_view(r.answer) == JsonView::Object(
        run_members(outcome.dirty, receipt(outcome.output@, followed, claimed), files.len()),
    )
    &&& strictly_sorted(keys(r.delivered@), path_lt())
    &&& keys(r.delivered@).to_set() == keys(files).to_set().union(
        keys(outcome.served@).to_set(),
    ).difference(keys(dirs).to_set())
    &&& spelled_in(r.delivered@, first_spellings(files + outcome.served@))
}

/// The answer of a run that covered `files`; `dirs` lists the directories among
/// what it covered and served.
pub fn diagnose_reply(
    files: &[UnixPath],
    outcome: RoundOutcome,
    followed: bool,
    claimed: bool,
    dirs: &[UnixPath],
) -> (r: DiagnoseReply)
    ensures
        replies(r, files@, outcome, followed, claimed, dirs@),
{
    let delivered = delivered_files(files, outcome.served.as_slice(), dirs);
    let dirty = outcome.dirty;
    let output = render_receipt(outcome.output, followed, claimed);
    DiagnoseReply { answer: run_answer(dirty, output.as_str(), files.len()), delivered }
}

/// The line that records a run as a session's last action.
pub fn run_action_text(errors: u64, warnings: u64) -> (r: String)
    ensures
        r@ == "diagnostics: "@ + decimal(errors as nat) + " errors, "@ + decimal(warnings as nat)
            + " warnings"@,
{
    let mut m = concat2("diagnostics: ", decimal_text(errors).as_str());
    m.append(" errors, ");
    m.append(decimal_text(warnings).as_str());
    m.append(" warnings");
    m
}

/// The milestone of a run.
pub fn run_milestone_text(errors: u64, warnings: u64, files: usize) -> (r: String)
    ensures
        r@ == decimal(errors as nat) + " errors, "@ + decimal(warnings as nat) + " warnings · "@
            + decimal(files as nat) + " files"@,
{
    let mut m = decimal_text(errors);
    m.append(" errors, ");
    m.append(decimal_text(warnings).as_str());
    m.append(" warnings · ");
    m.append(decimal_text(files as u64).as_str());
    m.append(" files");
    m
}

} // verus!
