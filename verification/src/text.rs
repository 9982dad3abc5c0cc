//! Text: comparison, prefixes, decimal numerals and sorted lists of strings.

use crate::order::{lemma_insert_sorted, lemma_lex_strict_total, lex, lex_lt, strict_total, strictly_sorted};
use vstd::prelude::*;

verus! {

/// Code point order.
pub open spec fn char_lt() -> spec_fn(char, char) -> bool {
    |x: char, y: char| x < y
}

/// The order of strings: lexicographic by code point, which on UTF-8 text is the
/// order of the bytes.
pub open spec fn text_lt() -> spec_fn(Seq<char>, Seq<char>) -> bool {
    lex(char_lt())
}

pub proof fn lemma_text_strict_total()
    ensures
        strict_total(text_lt()),
{
    assert(strict_total(char_lt()));
    lemma_lex_strict_total(char_lt());
}

/// The views of a list of strings.
pub open spec fn views(v: Seq<String>) -> Seq<Seq<char>> {
    v.map_values(|s: String| s@)
}

/// The characters of a text, in order.
pub fn chars_of(s: &str) -> (v: Vec<char>)
    ensures
        v@ == s@,
{
    let mut v: Vec<char> = Vec::new();
    for c in it: s.chars()
        invariant
            v@ == it.seq().take(it.index() as int),
            it.seq() == s@,
    {
        v.push(c);
    }
    v
}

/// `String::push` appends one character.
pub assume_specification[ String::push ](s: &mut String, c: char)
    ensures
        final(s)@ == old(s)@.push(c),
;

/// The text of a character list.
pub fn text_of(c: &Vec<char>) -> (r: String)
    ensures
        r@ == c@,
{
    let mut r = String::new();
    let mut i: usize = 0;
    while i < c.len()
        invariant
            i <= c.len(),
            r@ == c@.take(i as int),
        decreases c.len() - i,
    {
        r.push(c[i]);
        assert(c@.take(i as int).push(c[i as int]) =~= c@.take(i + 1));
        i += 1;
    }
    assert(c@.take(c.len() as int) =~= c@);
    r
}

/// Whether two texts are the same.
pub fn text_eq(a: &str, b: &str) -> (r: bool)
    ensures
        r == (a@ == b@),
{
    let x = chars_of(a);
    let y = chars_of(b);
    chars_eq(&x, &y)
}

/// Whether two character lists are the same.
pub fn chars_eq(x: &Vec<char>, y: &Vec<char>) -> (r: bool)
    ensures
        r == (x@ == y@),
{
    if x.len() != y.len() {
        return false;
    }
    let mut i: usize = 0;
    while i < x.len()
        invariant
            i <= x.len(),
            x.len() == y.len(),
            forall|j: int| 0 <= j < i ==> x[j] == y[j],
        decreases x.len() - i,
    {
        if x[i] != y[i] {
            assert(x@[i as int] != y@[i as int]);
            return false;
        }
        i += 1;
    }
    assert(x@ =~= y@);
    true
}

/// Whether `x` comes before `y` in string order.
pub fn chars_lt(x: &Vec<char>, y: &Vec<char>) -> (r: bool)
    ensures
        r == text_lt()(x@, y@),
{
    let mut i: usize = 0;
    assert(x@.skip(0) =~= x@);
    assert(y@.skip(0) =~= y@);
    while i < x.len() && i < y.len()
        invariant
            i <= x.len(),
            i <= y.len(),
            text_lt()(x@, y@) == lex_lt(x@.skip(i as int), y@.skip(i as int), char_lt()),
        decreases x.len() - i,
    {
        let ghost a = x@.skip(i as int);
        let ghost b = y@.skip(i as int);
        assert(a[0] == x[i as int] && b[0] == y[i as int]);
        if x[i] != y[i] {
            return x[i] < y[i];
        }
        assert(a.drop_first() =~= x@.skip(i + 1));
        assert(b.drop_first() =~= y@.skip(i + 1));
        i += 1;
    }
    i < y.len()
}

/// Whether `s` begins with `prefix`.
pub open spec fn has_prefix(s: Seq<char>, prefix: Seq<char>) -> bool {
    prefix.is_prefix_of(s)
}

/// `str::starts_with` on a string pattern.
pub fn starts_with(s: &str, prefix: &str) -> (r: bool)
    ensures
        r == has_prefix(s@, prefix@),
{
    let x = chars_of(s);
    let p = chars_of(prefix);
    if p.len() > x.len() {
        return false;
    }
    let mut i: usize = 0;
    while i < p.len()
        invariant
            i <= p.len() <= x.len(),
            p@ == prefix@,
            x@ == s@,
            forall|j: int| 0 <= j < i ==> x[j] == p[j],
        decreases p.len() - i,
    {
        if x[i] != p[i] {
            assert(x@.subrange(0, p@.len() as int)[i as int] != p@[i as int]);
            return false;
        }
        i += 1;
    }
    assert(x@.subrange(0, p@.len() as int) =~= p@);
    true
}

/// What is left of `s` behind `prefix`, where it begins with it.
pub fn strip_prefix<'a>(s: &'a str, prefix: &str) -> (r: Option<&'a str>)
    ensures
        r is Some == has_prefix(s@, prefix@),
        r is Some ==> s@ == prefix@ + r->0@,
{
    if starts_with(s, prefix) {
        let n: usize = prefix.unicode_len();
        let m: usize = s.unicode_len();
        let rest = s.substring_char(n, m);
        assert(s@ =~= prefix@ + rest@);
        Some(rest)
    } else {
        None
    }
}

/// Two texts one after the other.
pub fn concat2(a: &str, b: &str) -> (r: String)
    ensures
        r@ == a@ + b@,
{
    let mut s = a.to_owned();
    s.append(b);
    s
}

/// Three texts one after the other.
pub fn concat3(a: &str, b: &str, c: &str) -> (r: String)
    ensures
        r@ == a@ + b@ + c@,
{
    let mut s = a.to_owned();
    s.append(b);
    s.append(c);
    s
}

/// The numeral of a digit.
pub open spec fn digit(d: nat) -> Seq<char> {
    if d == 0 {
        "0"@
    } else if d == 1 {
        "1"@
    } else if d == 2 {
        "2"@
    } else if d == 3 {
        "3"@
    } else if d == 4 {
        "4"@
    } else if d == 5 {
        "5"@
    } else if d == 6 {
        "6"@
    } else if d == 7 {
        "7"@
    } else if d == 8 {
        "8"@
    } else {
        "9"@
    }
}

/// A number in decimal, without leading zeros.
pub open spec fn decimal(n: nat) -> Seq<char>
    decreases n,
{
    if n < 10 {
        digit(n)
    } else {
        decimal(n / 10) + digit(n % 10)
    }
}

fn digit_text(d: u64) -> (r: &'static str)
    requires
        d < 10,
    ensures
        r@ == digit(d as nat),
{
    if d == 0 {
        "0"
    } else if d == 1 {
        "1"
    } else if d == 2 {
        "2"
    } else if d == 3 {
        "3"
    } else if d == 4 {
        "4"
    } else if d == 5 {
        "5"
    } else if d == 6 {
        "6"
    } else if d == 7 {
        "7"
    } else if d == 8 {
        "8"
    } else {
        "9"
    }
}

/// `n` in decimal.
pub fn decimal_text(n: u64) -> (r: String)
    ensures
        r@ == decimal(n as nat),
    decreases n,
{
    if n < 10 {
        digit_text(n).to_owned()
    } else {
        let mut s = decimal_text(n / 10);
        s.append(digit_text(n % 10));
        s
    }
}

/// The lines one after the other, each followed by a line break but the last.
pub open spec fn join_lines(lines: Seq<Seq<char>>) -> Seq<char>
    decreases lines.len(),
{
    if lines.len() == 0 {
        Seq::empty()
    } else if lines.len() == 1 {
        lines[0]
    } else {
        join_lines(lines.drop_last()) + "\n"@ + lines.last()
    }
}

/// Joins lines with line breaks.
pub fn join_lines_text(lines: &Vec<String>) -> (r: String)
    ensures
        r@ == join_lines(views(lines@)),
{
    let mut r = String::new();
    let mut i: usize = 0;
    while i < lines.len()
        invariant
            i <= lines.len(),
            r@ == join_lines(views(lines@).take(i as int)),
        decreases lines.len() - i,
    {
        let ghost next = views(lines@).take(i + 1);
        assert(next.drop_last() =~= views(lines@).take(i as int));
        if i > 0 {
            r.append("\n");
        } else {
            assert(r@ + lines@[0]@ =~= lines@[0]@);
        }
        r.append(lines[i].as_str());
        i += 1;
    }
    assert(views(lines@).take(lines.len() as int) =~= views(lines@));
    r
}

/// Puts `s` into its place in a sorted list; a string already there is not
/// repeated.
pub fn insert_sorted(v: &mut Vec<String>, s: String)
    requires
        strictly_sorted(views(old(v)@), text_lt()),
    ensures
        strictly_sorted(views(final(v)@), text_lt()),
        views(final(v)@).to_set() == views(old(v)@).to_set().insert(s@),
{
    let x = chars_of(s.as_str());
    let mut at: usize = 0;
    proof {
        lemma_text_strict_total();
    }
    while at < v.len()
        invariant
            at <= v.len(),
            v@ == old(v)@,
            x@ == s@,
            strict_total(text_lt()),
            strictly_sorted(views(v@), text_lt()),
            forall|i: int| 0 <= i < at ==> text_lt()(#[trigger] views(v@)[i], s@),
        ensures
            at <= v.len(),
            v@ == old(v)@,
            forall|i: int| 0 <= i < at ==> text_lt()(#[trigger] views(v@)[i], s@),
            forall|i: int| at <= i < v.len() ==> text_lt()(s@, #[trigger] views(v@)[i]),
        decreases v.len() - at,
    {
        let y = chars_of(v[at].as_str());
        assert(views(v@)[at as int] == y@);
        if chars_lt(&x, &y) {
            assert forall|i: int| at <= i < v.len() implies text_lt()(
                s@,
                #[trigger] views(v@)[i],
            ) by {
                if i > at {
                    assert(text_lt()(views(v@)[at as int], views(v@)[i]));
                }
            }
            break;
        }
        if chars_eq(&x, &y) {
            assert(views(v@).contains(s@));
            assert(views(v@).to_set() =~= views(v@).to_set().insert(s@));
            return;
        }
        assert(text_lt()(y@, x@) || text_lt()(x@, y@));
        at += 1;
    }
    proof {
        lemma_insert_sorted(views(v@), at as int, s@, text_lt());
    }
    let ghost old_v = v@;
    v.insert(at, s);
    assert(views(v@) =~= views(old_v).insert(at as int, s@));
}

/// Whether the list holds `s`.
pub fn contains_text(v: &Vec<String>, s: &str) -> (r: bool)
    ensures
        r == views(v@).contains(s@),
{
    let mut i: usize = 0;
    while i < v.len()
        invariant
            i <= v.len(),
            forall|j: int| 0 <= j < i ==> #[trigger] views(v@)[j] != s@,
        decreases v.len() - i,
    {
        assert(views(v@)[i as int] == v@[i as int]@);
        if text_eq(v[i].as_str(), s) {
            return true;
        }
        i += 1;
    }
    false
}

/// The characters with the property `White_Space`.
pub open spec fn white(c: char) -> bool {
    ||| '\u{9}' <= c <= '\u{d}'
    ||| c == ' '
    ||| c == '\u{85}'
    ||| c == '\u{a0}'
    ||| c == '\u{1680}'
    ||| '\u{2000}' <= c <= '\u{200a}'
    ||| c == '\u{2028}'
    ||| c == '\u{2029}'
    ||| c == '\u{202f}'
    ||| c == '\u{205f}'
    ||| c == '\u{3000}'
}

/// The text without white space at its end.
pub open spec fn trimmed_end(s: Seq<char>) -> Seq<char>
    decreases s.len(),
{
    if s.len() > 0 && white(s.last()) {
        trimmed_end(s.drop_last())
    } else {
        s
    }
}

/// The text without white space at its beginning.
pub open spec fn trimmed_start(s: Seq<char>) -> Seq<char>
    decreases s.len(),
{
    if s.len() > 0 && white(s[0]) {
        trimmed_start(s.drop_first())
    } else {
        s
    }
}

/// The text without white space at either end.
pub open spec fn trimmed(s: Seq<char>) -> Seq<char> {
    trimmed_end(trimmed_start(s))
}

fn is_white(c: char) -> (r: bool)
    ensures
        r == white(c),
{
    ('\u{9}' <= c && c <= '\u{d}') || c == ' ' || c == '\u{85}' || c == '\u{a0}' || c
        == '\u{1680}' || ('\u{2000}' <= c && c <= '\u{200a}') || c == '\u{2028}' || c == '\u{2029}'
        || c == '\u{202f}' || c == '\u{205f}' || c == '\u{3000}'
}

/// `str::trim`.
pub fn trim(s: &str) -> (r: &str)
    ensures
        r@ == trimmed(s@),
{
    let c = chars_of(s);
    let n: usize = c.len();
    let mut a: usize = 0;
    assert(s@.skip(0) =~= s@);
    while a < n && is_white(c[a])
        invariant
            a <= n,
            n == c.len(),
            c@ == s@,
            trimmed_start(s@) == trimmed_start(s@.skip(a as int)),
        decreases n - a,
    {
        assert(s@.skip(a as int).drop_first() =~= s@.skip(a + 1));
        a += 1;
    }
    let ghost start = s@.skip(a as int);
    assert(trimmed_start(s@) == start);
    let mut b: usize = n;
    assert(start.take(n - a) =~= start);
    while b > a && is_white(c[b - 1])
        invariant
            a <= b <= n,
            n == c.len(),
            c@ == s@,
            start == s@.skip(a as int),
            trimmed_end(start) == trimmed_end(start.take(b - a)),
        decreases b - a,
    {
        assert(start.take(b - a).last() == c[b - 1]);
        assert(start.take(b - a).drop_last() =~= start.take(b - 1 - a));
        b -= 1;
    }
    assert(b > a ==> start.take(b - a).last() == c[b - 1]);
    let r = s.substring_char(a, b);
    assert(r@ =~= start.take(b - a));
    r
}

} // verus!
