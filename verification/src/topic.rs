//! MQTT topic names and topic filters: splitting into levels, matching a topic
//! against a filter with the `+` and `#` wildcards, and validation.

use crate::text::chars_equal;
use vstd::prelude::*;

verus! {

/// The levels of a topic or filter: the pieces between `/` separators. A
/// string without separators is one level; the empty string is one empty level.
pub open spec fn levels(s: Seq<char>) -> Seq<Seq<char>>
    decreases s.len(),
{
    if s.len() == 0 {
        seq![Seq::empty()]
    } else {
        let r = levels(s.drop_last());
        if s.last() == '/' {
            r.push(Seq::empty())
        } else {
            r.update(r.len() - 1, r.last().push(s.last()))
        }
    }
}

/// The level `#`: the multi-level wildcard.
pub open spec fn is_hash(l: Seq<char>) -> bool {
    l == seq!['#']
}

/// The level `+`: the single-level wildcard.
pub open spec fn is_plus(l: Seq<char>) -> bool {
    l == seq!['+']
}

/// Whether the topic levels `t` match the filter levels `f`: `+` matches one
/// non-empty level, `#` as the last filter level matches all that remain
/// (also none, after a parent level), any other level matches itself.
pub open spec fn match_levels(t: Seq<Seq<char>>, f: Seq<Seq<char>>) -> bool
    decreases f.len(),
{
    if f.len() == 0 {
        t.len() == 0
    } else if t.len() == 0 {
        f.len() == 1 && is_hash(f[0])
    } else if is_hash(f[0]) {
        f.len() == 1
    } else if is_plus(f[0]) {
        t[0].len() > 0 && match_levels(t.drop_first(), f.drop_first())
    } else {
        t[0] == f[0] && match_levels(t.drop_first(), f.drop_first())
    }
}

/// Whether a topic matches a filter: they are equal, or their levels match.
pub open spec fn topic_matches_spec(topic: Seq<char>, filter: Seq<char>) -> bool {
    topic == filter || match_levels(levels(topic), levels(filter))
}

/// A topic name a client may publish to: not empty, no NUL character.
pub open spec fn valid_topic_name(t: Seq<char>) -> bool {
    t.len() > 0 && !t.contains('\0')
}

/// A filter level in its place: `#` only alone and last, `+` only alone.
pub open spec fn valid_filter_level(l: Seq<char>, last: bool) -> bool {
    &&& (l.contains('#') ==> is_hash(l) && last)
    &&& (l.contains('+') ==> is_plus(l))
}

/// A topic filter a client may subscribe to: not empty, no NUL character,
/// wildcards only as whole levels and `#` only as the last level.
pub open spec fn valid_topic_filter(f: Seq<char>) -> bool {
    &&& f.len() > 0
    &&& !f.contains('\0')
    &&& forall|i: int|
        0 <= i < levels(f).len() ==> valid_filter_level(
            #[trigger] levels(f)[i],
            i == levels(f).len() - 1,
        )
}

/// A string without separators is a single level.
pub proof fn lemma_single_level(s: Seq<char>)
    requires
        !s.contains('/'),
    ensures
        levels(s) == seq![s],
    decreases s.len(),
{
    if s.len() > 0 {
        assert(!s.drop_last().contains('/')) by {
            if s.drop_last().contains('/') {
                let j = choose|j: int| 0 <= j < s.drop_last().len() && s.drop_last()[j] == '/';
                assert(s[j] == '/');
            }
        }
        lemma_single_level(s.drop_last());
        assert(s[s.len() - 1] != '/');
        assert(s.drop_last().push(s.last()) =~= s);
        assert(levels(s) =~= seq![s]);
    } else {
        assert(s =~= Seq::<char>::empty());
    }
}

/// Every string has at least one level.
pub proof fn lemma_levels_nonempty(s: Seq<char>)
    ensures
        levels(s).len() >= 1,
    decreases s.len(),
{
    if s.len() > 0 {
        lemma_levels_nonempty(s.drop_last());
    }
}

pub open spec fn chars_view(v: Seq<Vec<char>>) -> Seq<Seq<char>> {
    v.map_values(|c: Vec<char>| c@)
}

/// Splits characters into levels at each `/`.
pub fn split_levels(s: &[char]) -> (r: Vec<Vec<char>>)
    ensures
        chars_view(r@) == levels(s@),
{
    let mut done: Vec<Vec<char>> = Vec::new();
    let mut cur: Vec<char> = Vec::new();
    let mut i: usize = 0;
    assert(s@.take(0) =~= Seq::<char>::empty());
    assert(chars_view(done@).push(cur@) =~= levels(s@.take(0)));
    while i < s.len()
        invariant
            i <= s@.len(),
            chars_view(done@).push(cur@) == levels(s@.take(i as int)),
        decreases s@.len() - i,
    {
        let c = s[i];
        assert(s@.take(i + 1).drop_last() =~= s@.take(i as int));
        assert(s@.take(i + 1).last() == c);
        proof {
            lemma_levels_nonempty(s@.take(i as int));
        }
        if c == '/' {
            let old_cur = cur;
            cur = Vec::new();
            let ghost d0 = done@;
            done.push(old_cur);
            assert(chars_view(done@) =~= chars_view(d0).push(old_cur@));
        } else {
            let ghost d0 = done@;
            let ghost c0 = cur@;
            cur.push(c);
            assert(chars_view(done@).push(cur@) =~= chars_view(d0).push(c0).update(
                chars_view(d0).push(c0).len() - 1,
                chars_view(d0).push(c0).last().push(c),
            ));
        }
        i += 1;
    }
    assert(s@.take(s@.len() as int) =~= s@);
    let ghost d0 = done@;
    done.push(cur);
    assert(chars_view(done@) =~= chars_view(d0).push(done@[done@.len() - 1]@));
    done
}

pub(crate) fn is_single(l: &[char], c: char) -> (r: bool)
    ensures
        r == (l@ == seq![c]),
{
    if l.len() == 1 && l[0] == c {
        assert(l@ =~= seq![c]);
        true
    } else {
        false
    }
}

/// Matches topic levels from `ti` on against filter levels from `fi` on.
pub(crate) fn match_parts(
    topic_parts: &Vec<Vec<char>>,
    filter_parts: &Vec<Vec<char>>,
    topic_idx: usize,
    filter_idx: usize,
) -> (r: bool)
    requires
        topic_idx <= topic_parts@.len(),
        filter_idx <= filter_parts@.len(),
    ensures
        r == match_levels(
            chars_view(topic_parts@).skip(topic_idx as int),
            chars_view(filter_parts@).skip(filter_idx as int),
        ),
    decreases filter_parts@.len() - filter_idx,
{
    let ghost t = chars_view(topic_parts@).skip(topic_idx as int);
    let ghost f = chars_view(filter_parts@).skip(filter_idx as int);
    if filter_idx >= filter_parts.len() {
        return topic_idx >= topic_parts.len();
    }
    if topic_idx >= topic_parts.len() {
        return filter_idx == filter_parts.len() - 1 && is_single(
            filter_parts[filter_idx].as_slice(),
            '#',
        );
    }
    let filter_part = filter_parts[filter_idx].as_slice();
    let topic_part = topic_parts[topic_idx].as_slice();
    assert(f[0] == filter_part@);
    assert(t[0] == topic_part@);
    assert(t.drop_first() =~= chars_view(topic_parts@).skip(topic_idx + 1));
    assert(f.drop_first() =~= chars_view(filter_parts@).skip(filter_idx + 1));
    if is_single(filter_part, '#') {
        filter_idx == filter_parts.len() - 1
    } else if is_single(filter_part, '+') {
        if topic_part.len() == 0 {
            false
        } else {
            match_parts(topic_parts, filter_parts, topic_idx + 1, filter_idx + 1)
        }
    } else {
        if chars_equal(topic_part, filter_part) {
            match_parts(topic_parts, filter_parts, topic_idx + 1, filter_idx + 1)
        } else {
            false
        }
    }
}

// ---------------------------------------------------------------------------
// Laws
// ---------------------------------------------------------------------------

/// A topic always matches itself used as a filter.
pub proof fn lemma_topic_matches_itself(t: Seq<char>)
    ensures
        topic_matches_spec(t, t),
{
}

/// The filter `#` matches every topic.
pub proof fn lemma_hash_matches_all(t: Seq<char>)
    ensures
        topic_matches_spec(t, seq!['#']),
{
    lemma_levels_nonempty(t);
    lemma_single_level(seq!['#']);
}

/// A string holding a `/` has at least two levels.
proof fn lemma_separator_splits(s: Seq<char>)
    requires
        s.contains('/'),
    ensures
        levels(s).len() >= 2,
    decreases s.len(),
{
    lemma_levels_nonempty(s.drop_last());
    if s.last() != '/' {
        assert(s.drop_last().contains('/')) by {
            let j = choose|j: int| 0 <= j < s.len() && s[j] == '/';
            assert(j != s.len() - 1);
            assert(s.drop_last()[j] == '/');
        }
        lemma_separator_splits(s.drop_last());
    }
}

/// The filter `+` matches exactly the topics of one non-empty level.
pub proof fn lemma_plus_matches_one_level(t: Seq<char>)
    ensures
        topic_matches_spec(t, seq!['+']) <==> (t.len() > 0 && !t.contains('/')),
{
    let f = seq![seq!['+']];
    lemma_single_level(seq!['+']);
    assert(!is_hash(seq!['+'])) by {
        assert(seq!['+'][0] != seq!['#'][0]);
    }
    assert(is_plus(f[0]));
    assert(f.drop_first() =~= Seq::<Seq<char>>::empty());
    lemma_levels_nonempty(t);
    let lt = levels(t);
    if t.contains('/') {
        lemma_separator_splits(t);
        assert(t != seq!['+']) by {
            if t == seq!['+'] {
                let j = choose|j: int| 0 <= j < t.len() && t[j] == '/';
                assert(t[j] == '+');
            }
        }
        assert(lt.drop_first().len() >= 1);
        assert(!match_levels(lt.drop_first(), f.drop_first()));
        assert(!match_levels(lt, f));
    } else {
        lemma_single_level(t);
        assert(lt.drop_first() =~= Seq::<Seq<char>>::empty());
        assert(match_levels(lt.drop_first(), f.drop_first()));
        assert(match_levels(lt, f) == (t.len() > 0));
        if t == seq!['+'] {
            assert(t.len() > 0);
        }
    }
}

/// A filter whose last level is `#` matches every topic below its other
/// levels, and the topic of those levels itself.
pub proof fn lemma_hash_matches_subtree(prefix: Seq<Seq<char>>, rest: Seq<Seq<char>>)
    requires
        forall|i: int| 0 <= i < prefix.len() ==> !is_hash(#[trigger] prefix[i]),
    ensures
        match_levels(prefix + rest, prefix.push(seq!['#'])),
    decreases prefix.len(),
{
    if prefix.len() == 0 {
        assert(prefix.push(seq!['#']) =~= seq![seq!['#']]);
        assert(prefix + rest =~= rest);
    } else {
        assert(!is_hash(prefix[0]));
        lemma_hash_matches_subtree(prefix.drop_first(), rest);
        assert((prefix + rest).drop_first() =~= prefix.drop_first() + rest);
        assert(prefix.push(seq!['#']).drop_first() =~= prefix.drop_first().push(seq!['#']));
        assert((prefix + rest)[0] == prefix[0]);
        assert(prefix.push(seq!['#'])[0] == prefix[0]);
        if is_plus(prefix[0]) {
            assert(prefix[0].len() == 1);
        }
    }
}

} // verus!
