//! Unix paths, spelled as text and compared component by component.

use crate::order::{lemma_insert_sorted, lemma_lex_strict_total, lex, lex_lt, strict_total, strictly_sorted};
use crate::table::lemma_push_set;
use crate::text::{chars_eq, chars_lt, chars_of, concat2, lemma_text_strict_total, text_lt, text_of};
use vstd::prelude::*;

verus! {

/// What identifies a path: its components. The root directory is the component
/// `/`, a leading current directory `.`; empty components and every other `.`
/// are dropped, `..` is kept.
pub type PathKey = Seq<Seq<char>>;

/// The text cut at every slash.
pub open spec fn segments(s: Seq<char>) -> Seq<Seq<char>>
    decreases s.len(),
{
    if s.len() == 0 {
        seq![Seq::empty()]
    } else {
        let before = segments(s.drop_last());
        if s.last() == '/' {
            before.push(Seq::empty())
        } else {
            before.update(before.len() - 1, before.last().push(s.last()))
        }
    }
}

/// Whether a segment names a component; `first` marks the segment that begins
/// the text, where `.` counts.
pub open spec fn names_component(segment: Seq<char>, first: bool) -> bool {
    segment.len() > 0 && (segment != seq!['.'] || first)
}

/// The segments that name a component; `first` marks that they begin the text.
pub open spec fn named(segs: Seq<Seq<char>>, first: bool) -> Seq<Seq<char>>
    decreases segs.len(),
{
    if segs.len() == 0 {
        Seq::empty()
    } else {
        let before = named(segs.drop_last(), first);
        if names_component(segs.last(), first && segs.len() == 1) {
            before.push(segs.last())
        } else {
            before
        }
    }
}

/// Whether the text spells an absolute path.
pub open spec fn absolute(s: Seq<char>) -> bool {
    s.len() > 0 && s[0] == '/'
}

/// The components of the path that a text spells.
pub open spec fn components(s: Seq<char>) -> PathKey {
    if absolute(s) {
        seq![seq!['/']] + named(segments(s), true)
    } else {
        named(segments(s), true)
    }
}

/// The spelling of `path` taken relative to the directory `base`.
pub open spec fn joined(base: Seq<char>, path: Seq<char>) -> Seq<char> {
    if absolute(path) {
        path
    } else if base.len() > 0 && base.last() != '/' {
        base + seq!['/'] + path
    } else {
        base + path
    }
}

/// Where a component stands in the order of paths before its text is compared:
/// the root directory, the current, the parent, then names.
pub open spec fn component_rank(c: Seq<char>) -> int {
    if c == seq!['/'] {
        0
    } else if c == seq!['.'] {
        1
    } else if c == seq!['.', '.'] {
        2
    } else {
        3
    }
}

/// The order of components.
pub open spec fn component_lt() -> spec_fn(Seq<char>, Seq<char>) -> bool {
    |x: Seq<char>, y: Seq<char>|
        component_rank(x) < component_rank(y) || (component_rank(x) == component_rank(y)
            && text_lt()(x, y))
}

/// The order of paths: lexicographic by component.
pub open spec fn path_lt() -> spec_fn(PathKey, PathKey) -> bool {
    lex(component_lt())
}

pub proof fn lemma_path_strict_total()
    ensures
        strict_total(path_lt()),
{
    lemma_text_strict_total();
    assert(strict_total(component_lt()));
    lemma_lex_strict_total(component_lt());
}

/// The last component where it is a name: what a path calls its file.
pub open spec fn key_file_name(k: PathKey) -> Option<Seq<char>> {
    if k.len() > 0 && component_rank(k.last()) == 3 {
        Some(k.last())
    } else {
        None
    }
}

/// A Unix path.
#[derive(Clone, Debug)]
pub struct UnixPath {
    text: String,
}

impl View for UnixPath {
    type V = Seq<char>;

    /// The spelling.
    closed spec fn view(&self) -> Seq<char> {
        self.text@
    }
}

/// The components of a list of component texts.
pub open spec fn component_views(v: Seq<Vec<char>>) -> PathKey {
    v.map_values(|c: Vec<char>| c@)
}

/// The keys of a list of paths.
pub open spec fn keys(v: Seq<UnixPath>) -> Seq<PathKey> {
    v.map_values(|p: UnixPath| p.key())
}

impl UnixPath {
    /// What identifies the path.
    pub open spec fn key(&self) -> PathKey {
        components(self@)
    }

    /// The path that `text` spells.
    pub fn new(text: &str) -> (r: UnixPath)
        ensures
            r@ == text@,
    {
        UnixPath { text: text.to_owned() }
    }

    /// The spelling.
    pub fn as_str(&self) -> (r: &str)
        ensures
            r@ == self@,
    {
        self.text.as_str()
    }

    /// The same path, spelled alike.
    pub fn duplicate(&self) -> (r: UnixPath)
        ensures
            r == *self,
    {
        UnixPath { text: self.text.clone() }
    }

    /// Whether the path is absolute.
    pub fn is_absolute(&self) -> (r: bool)
        ensures
            r == absolute(self@),
    {
        let n: usize = self.text.as_str().unicode_len();
        n > 0 && self.text.as_str().get_char(0) == '/'
    }

    /// `path` taken relative to this directory.
    pub fn join(&self, path: &str) -> (r: UnixPath)
        ensures
            r@ == joined(self@, path@),
    {
        let n: usize = path.unicode_len();
        if n > 0 && path.get_char(0) == '/' {
            return UnixPath { text: path.to_owned() };
        }
        let m: usize = self.text.as_str().unicode_len();
        if m > 0 && self.text.as_str().get_char(m - 1) != '/' {
            let mut s = self.text.clone();
            proof {
                reveal_strlit("/");
            }
            s.append("/");
            assert(s@ =~= self@ + seq!['/']);
            s.append(path);
            UnixPath { text: s }
        } else {
            UnixPath { text: concat2(self.text.as_str(), path) }
        }
    }

    /// The components, each as its characters.
    pub fn component_list(&self) -> (r: Vec<Vec<char>>)
        ensures
            component_views(r@) == self.key(),
    {
        let s = chars_of(self.text.as_str());
        let mut out: Vec<Vec<char>> = Vec::new();
        let ghost mut root: PathKey = Seq::empty();
        if s.len() > 0 && s[0] == '/' {
            let mut slash: Vec<char> = Vec::new();
            slash.push('/');
            out.push(slash);
            proof {
                root = seq![seq!['/']];
            }
            assert(slash@ =~= seq!['/']);
        }
        let mut cur: Vec<char> = Vec::new();
        let mut first: bool = true;
        let ghost mut done: Seq<Seq<char>> = Seq::empty();
        let mut i: usize = 0;
        assert(s@.take(0) =~= Seq::empty());
        assert(seq![cur@] =~= done.push(cur@));
        assert(component_views(out@) =~= root + named(done, true));
        while i < s.len()
            invariant
                i <= s.len(),
                segments(s@.take(i as int)) == done.push(cur@),
                component_views(out@) == root + named(done, true),
                first == (done.len() == 0),
            decreases s.len() - i,
        {
            let ghost t = s@.take(i + 1);
            assert(t.drop_last() =~= s@.take(i as int));
            assert(t.last() == s[i as int]);
            let c = s[i];
            if c == '/' {
                let ghost next = done.push(cur@);
                assert(next.drop_last() =~= done);
                let ghost before = component_views(out@);
                Self::keep(&mut out, cur, first);
                assert(component_views(out@) =~= root + named(next, true));
                proof {
                    done = next;
                }
                cur = Vec::new();
                first = false;
                assert(segments(t) =~= done.push(cur@));
            } else {
                assert(done.push(cur@).last() == cur@);
                cur.push(c);
                assert(segments(t) =~= done.push(cur@));
            }
            i += 1;
        }
        assert(s@.take(s.len() as int) =~= s@);
        let ghost last = done.push(cur@);
        assert(last.drop_last() =~= done);
        Self::keep(&mut out, cur, first);
        assert(component_views(out@) =~= root + named(last, true));
        assert(component_views(out@) =~= self.key());
        out
    }

    fn keep(out: &mut Vec<Vec<char>>, segment: Vec<char>, first: bool)
        ensures
            component_views(final(out)@) == if names_component(segment@, first) {
                component_views(old(out)@).push(segment@)
            } else {
                component_views(old(out)@)
            },
    {
        let ghost before = component_views(out@);
        if segment.len() > 0 {
            let dot = segment.len() == 1 && segment[0] == '.';
            assert(dot == (segment@ =~= seq!['.']));
            if !dot || first {
                out.push(segment);
                assert(component_views(out@) =~= before.push(segment@));
            }
        }
    }

    /// Whether the two paths are the same, component by component.
    pub fn same(&self, other: &UnixPath) -> (r: bool)
        ensures
            r == (self.key() == other.key()),
    {
        let a = self.component_list();
        let b = other.component_list();
        assert(self.key() == other.key() ==> a.len() == b.len()) by {
            assert(component_views(a@).len() == a.len());
            assert(component_views(b@).len() == b.len());
        }
        a.len() == b.len() && Self::leads(&a, &b)
    }

    /// Whether the path is `base` or lies below it.
    pub fn starts_with(&self, base: &UnixPath) -> (r: bool)
        ensures
            r == base.key().is_prefix_of(self.key()),
    {
        let a = base.component_list();
        let b = self.component_list();
        Self::leads(&a, &b)
    }

    fn leads(a: &Vec<Vec<char>>, b: &Vec<Vec<char>>) -> (r: bool)
        ensures
            r == component_views(a@).is_prefix_of(component_views(b@)),
            a.len() == b.len() ==> r == (component_views(a@) == component_views(b@)),
    {
        if a.len() > b.len() {
            return false;
        }
        assert(a.len() == b.len() ==> component_views(b@).subrange(0, a@.len() as int)
            =~= component_views(b@));
        let mut i: usize = 0;
        while i < a.len()
            invariant
                i <= a.len() <= b.len(),
                a.len() == b.len() ==> component_views(b@).subrange(0, a@.len() as int)
                    == component_views(b@),
                forall|j: int| 0 <= j < i ==> a[j]@ == b[j]@,
            decreases a.len() - i,
        {
            if !chars_eq(&a[i], &b[i]) {
                assert(component_views(a@)[i as int] != component_views(b@).subrange(
                    0,
                    a@.len() as int,
                )[i as int]);
                return false;
            }
            i += 1;
        }
        assert(component_views(a@) =~= component_views(b@).subrange(0, a@.len() as int));
        assert(a.len() == b.len() ==> component_views(a@) =~= component_views(b@));
        true
    }

    /// The name of the file or directory the path leads to.
    pub fn file_name(&self) -> (r: Option<String>)
        ensures
            r is Some == key_file_name(self.key()) is Some,
            r is Some ==> key_file_name(self.key()) == Some(r->0@),
    {
        let a = self.component_list();
        let n: usize = a.len();
        if n == 0 {
            return None;
        }
        assert(self.key().last() == a[n - 1]@);
        if Self::rank(&a[n - 1]) == 3 {
            Some(text_of(&a[n - 1]))
        } else {
            None
        }
    }

    fn rank(c: &Vec<char>) -> (r: u8)
        ensures
            r == component_rank(c@),
    {
        if c.len() == 1 && c[0] == '/' {
            assert(c@ =~= seq!['/']);
            0
        } else if c.len() == 1 && c[0] == '.' {
            assert(c@ =~= seq!['.']);
            1
        } else if c.len() == 2 && c[0] == '.' && c[1] == '.' {
            assert(c@ =~= seq!['.', '.']);
            2
        } else {
            3
        }
    }

    /// Whether the path comes before `other`.
    pub fn precedes(&self, other: &UnixPath) -> (r: bool)
        ensures
            r == path_lt()(self.key(), other.key()),
    {
        let a = self.component_list();
        let b = other.component_list();
        let ghost x = component_views(a@);
        let ghost y = component_views(b@);
        let mut i: usize = 0;
        assert(x.skip(0) =~= x);
        assert(y.skip(0) =~= y);
        while i < a.len() && i < b.len()
            invariant
                i <= a.len(),
                i <= b.len(),
                x == component_views(a@),
                y == component_views(b@),
                x == self.key(),
                y == other.key(),
                path_lt()(x, y) == lex_lt(x.skip(i as int), y.skip(i as int), component_lt()),
            decreases a.len() - i,
        {
            assert(x.skip(i as int)[0] == a[i as int]@);
            assert(y.skip(i as int)[0] == b[i as int]@);
            if !chars_eq(&a[i], &b[i]) {
                let p = Self::rank(&a[i]);
                let q = Self::rank(&b[i]);
                return p < q || (p == q && chars_lt(&a[i], &b[i]));
            }
            assert(x.skip(i as int).drop_first() =~= x.skip(i + 1));
            assert(y.skip(i as int).drop_first() =~= y.skip(i + 1));
            i += 1;
        }
        i < b.len()
    }
}

/// Paths by what identifies them, each as it is spelled.
pub type Spelled = Map<PathKey, Seq<char>>;

/// The paths of a list by what identifies them, each as it is spelled. Of two that
/// are the same the first one's spelling stays.
pub open spec fn first_spellings(v: Seq<UnixPath>) -> Spelled
    decreases v.len(),
{
    if v.len() == 0 {
        Map::empty()
    } else {
        let before = first_spellings(v.drop_last());
        if before.dom().contains(v.last().key()) {
            before
        } else {
            before.insert(v.last().key(), v.last()@)
        }
    }
}

/// The two lists hold paths of the same text.
pub open spec fn same_spellings(a: Seq<UnixPath>, b: Seq<UnixPath>) -> bool {
    &&& a.len() == b.len()
    &&& forall|i: int| 0 <= i < a.len() ==> (#[trigger] a[i])@ == b[i]@
}

/// Lists of the same text spell the same.
pub proof fn lemma_spelled_alike(a: Seq<UnixPath>, b: Seq<UnixPath>)
    requires
        same_spellings(a, b),
    ensures
        first_spellings(a) == first_spellings(b),
    decreases a.len(),
{
    if a.len() > 0 {
        lemma_spelled_alike(a.drop_last(), b.drop_last());
        assert(a.last() == a[a.len() - 1]);
    }
}

/// Every path of a list is there, spelled as one of them.
pub proof fn lemma_first_spellings(v: Seq<UnixPath>)
    ensures
        first_spellings(v).dom() == keys(v).to_set(),
        forall|p: PathKey| #[trigger]
            first_spellings(v).dom().contains(p) ==> exists|i: int|
                0 <= i < v.len() && (#[trigger] v[i]).key() == p && v[i]@
                    == first_spellings(v)[p],
    decreases v.len(),
{
    if v.len() == 0 {
        assert(keys(v).to_set() =~= Set::empty());
    } else {
        let front = v.drop_last();
        lemma_first_spellings(front);
        assert(keys(v) =~= keys(front).push(v.last().key()));
        lemma_push_set(keys(front), v.last().key());
        assert(first_spellings(v).dom() =~= keys(v).to_set());
        assert forall|p: PathKey| #[trigger] first_spellings(v).dom().contains(p) implies exists|
            i: int,
        |
            0 <= i < v.len() && (#[trigger] v[i]).key() == p && v[i]@ == first_spellings(
                v,
            )[p] by {
            if first_spellings(front).dom().contains(p) {
                let i = choose|i: int|
                    0 <= i < front.len() && (#[trigger] front[i]).key() == p && front[i]@
                        == first_spellings(front)[p];
                assert(v[i] == front[i]);
            } else {
                assert(v[v.len() - 1].key() == p);
            }
        }
    }
}

/// The paths are spelled so.
pub open spec fn spelled_in(v: Seq<UnixPath>, m: Spelled) -> bool {
    forall|i: int| 0 <= i < v.len() ==> (#[trigger] v[i])@ == m[v[i].key()]
}

/// One more path in the list changes no spelling that is there.
pub proof fn lemma_spelled_still(v: Seq<UnixPath>, seen: Seq<UnixPath>, p: UnixPath)
    requires
        spelled_in(v, first_spellings(seen)),
        forall|k: PathKey| #[trigger] keys(v).contains(k) ==> first_spellings(seen).dom().contains(k),
    ensures
        spelled_in(v, first_spellings(seen.push(p))),
{
    assert(seen.push(p).drop_last() =~= seen);
    assert forall|i: int| 0 <= i < v.len() implies (#[trigger] v[i])@ == first_spellings(
        seen.push(p),
    )[v[i].key()] by {
        assert(keys(v)[i] == v[i].key());
        assert(keys(v).contains(v[i].key()));
    }
}

/// A path that is put among those that came before it is spelled as it came
/// first.
pub proof fn lemma_spelled_next(
    before: Seq<UnixPath>,
    after: Seq<UnixPath>,
    seen: Seq<UnixPath>,
    p: UnixPath,
)
    requires
        spelled_in(before, first_spellings(seen)),
        forall|k: PathKey| #[trigger]
            keys(before).contains(k) ==> first_spellings(seen).dom().contains(k),
        first_spellings(seen).dom().contains(p.key()) ==> keys(before).contains(p.key()),
        put_in(before, after, p),
    ensures
        spelled_in(after, first_spellings(seen.push(p))),
{
    lemma_spelled_still(before, seen, p);
    assert(seen.push(p).drop_last() =~= seen);
    if !keys(before).contains(p.key()) {
        let at = choose|at: int|
            0 <= at <= before.len() && after == #[trigger] before.insert(at, p);
        assert forall|i: int| 0 <= i < after.len() implies (#[trigger] after[i])@
            == first_spellings(seen.push(p))[after[i].key()] by {
            if i < at {
                assert(after[i] == before[i]);
            } else if i > at {
                assert(after[i] == before[i - 1]);
            }
        }
    }
}

/// `p` is put into the list, unless it is there already.
pub open spec fn put_in(before: Seq<UnixPath>, after: Seq<UnixPath>, p: UnixPath) -> bool {
    if keys(before).contains(p.key()) {
        after == before
    } else {
        exists|at: int| 0 <= at <= before.len() && after == #[trigger] before.insert(at, p)
    }
}

/// Puts a path into its place in an ordered list; a path already there is not
/// repeated.
pub fn insert_path(v: &mut Vec<UnixPath>, p: UnixPath)
    requires
        strictly_sorted(keys(old(v)@), path_lt()),
    ensures
        strictly_sorted(keys(final(v)@), path_lt()),
        keys(final(v)@).to_set() == keys(old(v)@).to_set().insert(p.key()),
        put_in(old(v)@, final(v)@, p),
{
    let mut at: usize = 0;
    let ghost k = p.key();
    proof {
        lemma_path_strict_total();
    }
    while at < v.len() && v[at].precedes(&p)
        invariant
            at <= v.len(),
            v@ == old(v)@,
            k == p.key(),
            forall|i: int| 0 <= i < at ==> path_lt()(#[trigger] keys(v@)[i], k),
        decreases v.len() - at,
    {
        assert(keys(v@)[at as int] == v@[at as int].key());
        at += 1;
    }
    if at < v.len() && v[at].same(&p) {
        assert(keys(v@)[at as int] == k);
        assert(keys(v@).to_set() =~= keys(v@).to_set().insert(k));
        return;
    }
    proof {
        let s = keys(v@);
        assert forall|i: int| at <= i < s.len() implies path_lt()(k, #[trigger] s[i]) by {
            assert(s[at as int] == v@[at as int].key());
            assert(path_lt()(k, s[at as int]) || path_lt()(s[at as int], k));
            if i > at {
                assert(path_lt()(s[at as int], s[i]));
            }
        }
        lemma_insert_sorted(s, at as int, k, path_lt());
    }
    let ghost before = v@;
    proof {
        if keys(before).contains(k) {
            let i = choose|i: int| 0 <= i < keys(before).len() && keys(before)[i] == k;
            assert(path_lt()(k, k));
        }
    }
    v.insert(at, p);
    assert(keys(v@) =~= keys(before).insert(at as int, k));
    assert(v@ == before.insert(at as int, p));
}

/// Two paths are equal where their components are.
impl PartialEq for UnixPath {
    fn eq(&self, other: &UnixPath) -> (r: bool) {
        self.same(other)
    }
}

impl vstd::std_specs::cmp::PartialEqSpecImpl for UnixPath {
    open spec fn obeys_eq_spec() -> bool {
        true
    }

    open spec fn eq_spec(&self, other: &UnixPath) -> bool {
        self.key() == other.key()
    }
}

impl Eq for UnixPath {

}

} // verus!
