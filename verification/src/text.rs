//! Character-level access to strings, and the splitting and trimming that the
//! topic rules and the credential files need, all specified over `Seq<char>`.

use vstd::prelude::*;
use vstd::std_specs::iter::IteratorSpec;
use vstd::string::StrSliceExecFns;
use vstd::utf8::{decode_utf8, valid_utf8};

verus! {

broadcast use vstd::string::group_string_axioms;

/// The characters of a string, in order.
pub fn chars_of(s: &str) -> (v: Vec<char>)
    ensures
        v@ == s@,
{
    let mut v: Vec<char> = Vec::new();
    let mut it = s.chars();
    assert(it.remaining() == s@);
    loop
        invariant
            v@ + it.remaining() == s@,
            it.obeys_prophetic_iter_laws(),
            it.decrease() is Some,
        ensures
            v@ == s@,
        decreases it.decrease()->0,
    {
        let ghost before = it.remaining();
        match it.next() {
            Some(c) => {
                v.push(c);
                assert(v@ + it.remaining() =~= s@) by {
                    assert(before =~= seq![c] + it.remaining());
                }
            },
            None => {
                assert(v@ =~= s@);
                break;
            },
        }
    }
    v
}

/// Whether two character slices hold the same characters.
pub fn chars_equal(a: &[char], b: &[char]) -> (r: bool)
    ensures
        r == (a@ == b@),
{
    if a.len() != b.len() {
        return false;
    }
    let mut i: usize = 0;
    while i < a.len()
        invariant
            a@.len() == b@.len(),
            i <= a@.len(),
            forall|j: int| 0 <= j < i ==> a@[j] == b@[j],
        decreases a@.len() - i,
    {
        if a[i] != b[i] {
            return false;
        }
        i += 1;
    }
    assert(a@ =~= b@);
    true
}

/// Whether a character slice holds the character `c`.
pub fn contains_char(s: &[char], c: char) -> (r: bool)
    ensures
        r == s@.contains(c),
{
    let mut i: usize = 0;
    while i < s.len()
        invariant
            i <= s@.len(),
            forall|j: int| 0 <= j < i ==> s@[j] != c,
        decreases s@.len() - i,
    {
        if s[i] == c {
            assert(s@[i as int] == c);
            return true;
        }
        i += 1;
    }
    false
}


/// The pieces of `s` between occurrences of `sep`; a string without `sep` is
/// one piece, the empty string one empty piece.
pub open spec fn split_on(s: Seq<char>, sep: char) -> Seq<Seq<char>>
    decreases s.len(),
{
    if s.len() == 0 {
        seq![Seq::empty()]
    } else {
        let r = split_on(s.drop_last(), sep);
        if s.last() == sep {
            r.push(Seq::empty())
        } else {
            r.update(r.len() - 1, r.last().push(s.last()))
        }
    }
}

/// The lines of a text: its pieces between line feeds, without the empty
/// piece after a final line feed.
pub open spec fn text_lines(s: Seq<char>) -> Seq<Seq<char>> {
    if s.len() == 0 {
        Seq::empty()
    } else if s.last() == '\n' {
        split_on(s, '\n').drop_last()
    } else {
        split_on(s, '\n')
    }
}

/// White space as `char::is_whitespace` defines it (the Unicode White_Space
/// property).
pub open spec fn is_ws(c: char) -> bool {
    c == ' ' || ('\t' <= c <= '\r') || c == '\u{85}' || c == '\u{A0}' || c == '\u{1680}' || (
    '\u{2000}' <= c <= '\u{200A}') || c == '\u{2028}' || c == '\u{2029}' || c == '\u{202F}' || c
        == '\u{205F}' || c == '\u{3000}'
}

/// How many white-space characters `s` starts with.
pub open spec fn leading_ws(s: Seq<char>) -> nat
    decreases s.len(),
{
    if s.len() > 0 && is_ws(s[0]) {
        1 + leading_ws(s.drop_first())
    } else {
        0
    }
}

/// How many white-space characters `s` ends with.
pub open spec fn trailing_ws(s: Seq<char>) -> nat
    decreases s.len(),
{
    if s.len() > 0 && is_ws(s.last()) {
        1 + trailing_ws(s.drop_last())
    } else {
        0
    }
}

/// `s` without leading and trailing white space.
pub open spec fn trim(s: Seq<char>) -> Seq<char> {
    let t = s.skip(leading_ws(s) as int);
    t.take(t.len() - trailing_ws(t))
}

/// The first index of `c` in `s`.
pub open spec fn first_at(s: Seq<char>, c: char, i: int) -> bool {
    0 <= i < s.len() && s[i] == c && forall|k: int| 0 <= k < i ==> #[trigger] s[k] != c
}

/// `s` split at its first `c`: the part before and the part after.
pub open spec fn split_once(s: Seq<char>, c: char) -> Option<(Seq<char>, Seq<char>)> {
    if s.contains(c) {
        let i = choose|i: int| first_at(s, c, i);
        Some((s.take(i), s.skip(i + 1)))
    } else {
        None
    }
}

/// Every string has at least one piece.
pub proof fn lemma_split_on_nonempty(s: Seq<char>, sep: char)
    ensures
        split_on(s, sep).len() >= 1,
    decreases s.len(),
{
    if s.len() > 0 {
        lemma_split_on_nonempty(s.drop_last(), sep);
    }
}

proof fn lemma_leading_ws_bound(s: Seq<char>)
    ensures
        leading_ws(s) <= s.len(),
    decreases s.len(),
{
    if s.len() > 0 && is_ws(s[0]) {
        lemma_leading_ws_bound(s.drop_first());
    }
}

proof fn lemma_trailing_ws_bound(s: Seq<char>)
    ensures
        trailing_ws(s) <= s.len(),
    decreases s.len(),
{
    if s.len() > 0 && is_ws(s.last()) {
        lemma_trailing_ws_bound(s.drop_last());
    }
}

/// The bounds of the lines of `s`, as index ranges.
pub fn line_ranges(s: &[char]) -> (r: Vec<(usize, usize)>)
    ensures
        r@.len() == text_lines(s@).len(),
        forall|k: int| 0 <= k < r@.len() ==> (#[trigger] r@[k]).0 <= r@[k].1 && r@[k].1 <= s@.len(),
        forall|k: int|
            0 <= k < r@.len() ==> #[trigger] text_lines(s@)[k] == s@.subrange(
                r@[k].0 as int,
                r@[k].1 as int,
            ),
{
    let n = s.len();
    if n == 0 {
        return Vec::new();
    }
    let mut done: Vec<(usize, usize)> = Vec::new();
    let mut start: usize = 0;
    let mut i: usize = 0;
    assert(s@.take(0) =~= Seq::<char>::empty());
    while i < n
        invariant
            n == s@.len(),
            start <= i <= n,
            done@.len() + 1 == split_on(s@.take(i as int), '\n').len(),
            forall|k: int| 0 <= k < done@.len() ==> (#[trigger] done@[k]).0 <= done@[k].1 && done@[k].1 <= i,
            forall|k: int|
                0 <= k < done@.len() ==> #[trigger] split_on(s@.take(i as int), '\n')[k] == s@.subrange(
                    done@[k].0 as int,
                    done@[k].1 as int,
                ),
            split_on(s@.take(i as int), '\n').last() == s@.subrange(start as int, i as int),
        decreases n - i,
    {
        let ghost prev = split_on(s@.take(i as int), '\n');
        let ghost cur = split_on(s@.take(i + 1), '\n');
        proof {
            lemma_split_on_nonempty(s@.take(i as int), '\n');
        }
        assert(s@.take(i + 1).drop_last() =~= s@.take(i as int));
        assert(s@.take(i + 1).last() == s@[i as int]);
        let ghost d0 = done@;
        let ghost i0 = i;
        let ghost st0 = start;
        if s[i] == '\n' {
            assert(cur == prev.push(Seq::<char>::empty()));
            done.push((start, i));
            start = i + 1;
            assert(s@.subrange(start as int, i + 1) =~= Seq::<char>::empty());
            i += 1;
            assert(split_on(s@.take(i as int), '\n') == cur);
            assert forall|k: int| 0 <= k < done@.len() implies #[trigger] split_on(s@.take(i as int), '\n')[k] == s@.subrange(done@[k].0 as int, done@[k].1 as int) by {
                if k < d0.len() {
                    assert(done@[k] == d0[k]);
                    assert(prev[k] == s@.subrange(d0[k].0 as int, d0[k].1 as int));
                    assert(cur[k] == prev[k]);
                } else {
                    assert(done@[k] == (st0, i0));
                    assert(cur[k] == prev.last());
                }
            }
        } else {
            assert(cur == prev.update(prev.len() - 1, prev.last().push(s@[i as int])));
            assert(s@.subrange(start as int, i + 1) =~= s@.subrange(start as int, i as int).push(s@[i as int]));
            i += 1;
            assert(split_on(s@.take(i as int), '\n') == cur);
            assert forall|k: int| 0 <= k < done@.len() implies #[trigger] split_on(s@.take(i as int), '\n')[k] == s@.subrange(done@[k].0 as int, done@[k].1 as int) by {
                assert(prev[k] == s@.subrange(d0[k].0 as int, d0[k].1 as int));
                assert(cur[k] == prev[k]);
            }
        }
    }
    assert(s@.take(n as int) =~= s@);
    let ghost all = split_on(s@, '\n');
    assert(split_on(s@.take(n as int), '\n') == all);
    let ghost d0 = done@;
    if s[n - 1] != '\n' {
        done.push((start, n));
        assert(text_lines(s@) == all);
        assert forall|k: int| 0 <= k < done@.len() implies #[trigger] text_lines(s@)[k] == s@.subrange(done@[k].0 as int, done@[k].1 as int) by {
            if k < d0.len() {
                assert(done@[k] == d0[k]);
                assert(split_on(s@.take(i as int), '\n')[k] == all[k]);
            } else {
                assert(all[k] == all.last());
            }
        }
    } else {
        assert(s@.last() == '\n');
        assert(text_lines(s@) == all.drop_last());
        assert forall|k: int| 0 <= k < done@.len() implies #[trigger] text_lines(s@)[k] == s@.subrange(done@[k].0 as int, done@[k].1 as int) by {
            assert(split_on(s@.take(i as int), '\n')[k] == all[k]);
            assert(all.drop_last()[k] == all[k]);
        }
    }
    done
}

/// The bounds of `s[a..b]` without leading and trailing white space.
pub fn trim_range(s: &[char], a: usize, b: usize) -> (r: (usize, usize))
    requires
        a <= b <= s@.len(),
    ensures
        a <= r.0 <= r.1 <= b,
        s@.subrange(r.0 as int, r.1 as int) == trim(s@.subrange(a as int, b as int)),
{
    let ghost t0 = s@.subrange(a as int, b as int);
    let mut i = a;
    while i < b && is_whitespace(s[i])
        invariant
            a <= i <= b <= s@.len(),
            t0 == s@.subrange(a as int, b as int),
            leading_ws(t0) == (i - a) + leading_ws(s@.subrange(i as int, b as int)),
        decreases b - i,
    {
        assert(s@.subrange(i as int, b as int).drop_first() =~= s@.subrange(i + 1, b as int));
        i += 1;
    }
    assert(leading_ws(s@.subrange(i as int, b as int)) == 0);
    let ghost t = s@.subrange(i as int, b as int);
    assert(t0.skip(leading_ws(t0) as int) =~= t);
    let mut j = b;
    while j > i && is_whitespace(s[j - 1])
        invariant
            a <= i <= j <= b <= s@.len(),
            t == s@.subrange(i as int, b as int),
            trailing_ws(t) == (b - j) + trailing_ws(s@.subrange(i as int, j as int)),
        decreases j - i,
    {
        assert(s@.subrange(i as int, j as int).drop_last() =~= s@.subrange(i as int, j - 1));
        j -= 1;
    }
    assert(trailing_ws(s@.subrange(i as int, j as int)) == 0);
    assert(t.take(t.len() - trailing_ws(t)) =~= s@.subrange(i as int, j as int));
    (i, j)
}

/// Whether `c` is white space; see `is_ws`.
pub fn is_whitespace(c: char) -> (r: bool)
    ensures
        r == is_ws(c),
{
    c == ' ' || ('\t' <= c && c <= '\r') || c == '\u{85}' || c == '\u{A0}' || c == '\u{1680}' || (
    '\u{2000}' <= c && c <= '\u{200A}') || c == '\u{2028}' || c == '\u{2029}' || c == '\u{202F}'
        || c == '\u{205F}' || c == '\u{3000}'
}

/// The index of the first `c` in `s[a..b]`, relative to `a`.
pub fn find_char(s: &[char], a: usize, b: usize, c: char) -> (r: Option<usize>)
    requires
        a <= b <= s@.len(),
    ensures
        match r {
            Some(i) => a + i < b && first_at(s@.subrange(a as int, b as int), c, i as int) && i == (
            choose|k: int| first_at(s@.subrange(a as int, b as int), c, k)),
            None => !s@.subrange(a as int, b as int).contains(c),
        },
{
    let ghost t = s@.subrange(a as int, b as int);
    let mut i = a;
    while i < b
        invariant
            a <= i <= b <= s@.len(),
            t == s@.subrange(a as int, b as int),
            forall|k: int| 0 <= k < i - a ==> #[trigger] t[k] != c,
        decreases b - i,
    {
        if s[i] == c {
            let ghost f = (i - a) as int;
            assert(t[f] == c);
            assert(first_at(t, c, f));
            let ghost ch = choose|k: int| first_at(t, c, k);
            assert(ch == f) by {
                if ch < f {
                    assert(t[ch] != c);
                } else if ch > f {
                    assert(t[f] != c);
                }
            }
            return Some(i - a);
        }
        i += 1;
    }
    assert(!t.contains(c)) by {
        if t.contains(c) {
            let k = choose|k: int| 0 <= k < t.len() && t[k] == c;
            assert(t[k] != c);
        }
    }
    None
}

/// The characters of `s` in `a..b` as a string.
pub fn substring(s: &str, a: usize, b: usize) -> (r: String)
    requires
        a <= b <= s@.len(),
    ensures
        r@ == s@.subrange(a as int, b as int),
{
    s.substring_char(a, b).to_owned()
}
/// `String::from_utf8`: `Some` exactly for valid UTF-8, holding its decoding.
#[verifier::external_body]
pub(crate) fn string_from_utf8(v: Vec<u8>) -> (r: Option<String>)
    ensures
        r is Some <==> valid_utf8(v@),
        r matches Some(s) ==> s@ == decode_utf8(v@),
{
    String::from_utf8(v).ok()
}

/// `String: FromIterator<char>`: the string of the characters, in order.
#[verifier::external_body]
pub(crate) fn string_from_chars(v: Vec<char>) -> (r: String)
    ensures
        r@ == v@,
{
    v.into_iter().collect()
}

} // verus!
