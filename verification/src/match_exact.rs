//! Locate an edit's search text in the source by exact equality.
//!
//! [`match_exact`] counts the positions at which the search text occurs in the
//! source (overlapping occurrences count separately) and partitions the
//! outcome: none is [`ExactMatch::NoMatch`], exactly one is
//! [`ExactMatch::Unique`] carrying the matched byte range, and two or more is
//! [`ExactMatch::Ambiguous`]. Matching is exact and the source is never mutated.
use std::ops::Range;
use vstd::prelude::*;
use vstd::utf8::*;

use crate::text::{chars_of, occurs_at, occurs_at_exec};

verus! {

// ---------------------------------------------------------------------------
// Specifications
// ---------------------------------------------------------------------------

/// The leftmost position at or after `i` where `t` occurs in `s`, or `-1`.
pub open spec fn first_occurrence_from(s: Seq<char>, t: Seq<char>, i: int) -> int
    decreases s.len() + 1 - i,
{
    if 0 <= i && i + t.len() <= s.len() {
        if occurs_at(s, t, i) {
            i
        } else {
            first_occurrence_from(s, t, i + 1)
        }
    } else {
        -1
    }
}

/// The outcome of exact matching, with positions counted in characters.
pub enum MatchView {
    Unique(int),
    NoMatch,
    Ambiguous,
}

/// The outcome of locating `t` in `s`: no occurrence, exactly one (its
/// character position), or occurrences at two or more positions.
pub open spec fn exact_match(s: Seq<char>, t: Seq<char>) -> MatchView {
    let p = first_occurrence_from(s, t, 0);
    if p < 0 {
        MatchView::NoMatch
    } else if first_occurrence_from(s, t, p + 1) >= 0 {
        MatchView::Ambiguous
    } else {
        MatchView::Unique(p)
    }
}

/// The number of bytes in the UTF-8 encoding of `c`.
pub open spec fn char_width(c: char) -> nat {
    if (c as u32) < 0x80 {
        1
    } else if (c as u32) < 0x800 {
        2
    } else if (c as u32) < 0x10000 {
        3
    } else {
        4
    }
}

/// The number of bytes in the UTF-8 encoding of `s`.
pub open spec fn utf8_len(s: Seq<char>) -> nat
    decreases s.len(),
{
    if s.len() == 0 {
        0
    } else {
        char_width(s[0]) + utf8_len(s.drop_first())
    }
}

// ---------------------------------------------------------------------------
// Lemmas
// ---------------------------------------------------------------------------

/// What `first_occurrence_from` finds: the leftmost occurrence at or after `i`.
pub proof fn lemma_first_occurrence_from(s: Seq<char>, t: Seq<char>, i: int)
    requires
        0 <= i,
    ensures
        first_occurrence_from(s, t, i) >= 0 ==> {
            let r = first_occurrence_from(s, t, i);
            &&& i <= r
            &&& occurs_at(s, t, r)
            &&& forall|j: int| i <= j < r ==> !occurs_at(s, t, j)
        },
        first_occurrence_from(s, t, i) < 0 ==> forall|j: int| i <= j ==> !occurs_at(s, t, j),
    decreases s.len() + 1 - i,
{
    if i + t.len() <= s.len() {
        if !occurs_at(s, t, i) {
            lemma_first_occurrence_from(s, t, i + 1);
        }
    }
}

/// The byte length is additive over concatenation.
pub proof fn lemma_utf8_len_concat(a: Seq<char>, b: Seq<char>)
    ensures
        utf8_len(a + b) == utf8_len(a) + utf8_len(b),
    decreases a.len(),
{
    if a.len() > 0 {
        assert((a + b).drop_first() == a.drop_first() + b);
        lemma_utf8_len_concat(a.drop_first(), b);
    } else {
        assert(a + b == b);
    }
}

/// The byte length of a prefix grows by the width of the next character.
pub proof fn lemma_utf8_len_take(s: Seq<char>, i: int)
    requires
        0 <= i < s.len(),
    ensures
        utf8_len(s.take(i + 1)) == utf8_len(s.take(i)) + char_width(s[i]),
{
    assert(s.take(i + 1) == s.take(i) + seq![s[i]]);
    lemma_utf8_len_concat(s.take(i), seq![s[i]]);
    assert(seq![s[i]].drop_first().len() == 0);
    assert(utf8_len(seq![s[i]].drop_first()) == 0);
    assert(utf8_len(seq![s[i]]) == char_width(s[i]));
}

/// A prefix is no longer in bytes than the whole.
pub proof fn lemma_utf8_len_prefix(s: Seq<char>, i: int)
    requires
        0 <= i <= s.len(),
    ensures
        utf8_len(s.take(i)) <= utf8_len(s),
{
    assert(s == s.take(i) + s.skip(i));
    lemma_utf8_len_concat(s.take(i), s.skip(i));
}

/// `utf8_len` is the length of std's UTF-8 encoding.
pub proof fn lemma_utf8_len_encoding(s: Seq<char>)
    ensures
        utf8_len(s) == encode_utf8(s).len(),
    decreases s.len(),
{
    if s.len() > 0 {
        let c = s[0];
        char_is_scalar(c);
        lemma_utf8_len_encoding(s.drop_first());
    }
}

// ---------------------------------------------------------------------------
// Executable matching
// ---------------------------------------------------------------------------

/// The leftmost occurrence of `t` in `s` at or after `from`, if any.
pub fn find_from(s: &[char], t: &[char], from: usize) -> (r: Option<usize>)
    ensures
        match r {
            Some(p) => first_occurrence_from(s@, t@, from as int) == p,
            None => first_occurrence_from(s@, t@, from as int) < 0,
        },
{
    if t.len() > s.len() || from > s.len() - t.len() {
        return None;
    }
    let limit = s.len() - t.len();
    let mut i: usize = from;
    loop
        invariant
            t@.len() <= s@.len(),
            limit == s@.len() - t@.len(),
            from <= i <= limit,
            first_occurrence_from(s@, t@, from as int) == first_occurrence_from(s@, t@, i as int),
        decreases limit - i,
    {
        if occurs_at_exec(s, t, i) {
            return Some(i);
        }
        if i == limit {
            assert(first_occurrence_from(s@, t@, i + 1) == -1);
            return None;
        }
        i += 1;
    }
}

/// The outcome of exact matching, with positions counted in characters.
pub enum CharMatch {
    /// The only occurrence starts at this character position.
    Unique(usize),
    /// The search text does not occur.
    NoMatch,
    /// The search text occurs at least twice.
    Ambiguous,
}

/// The mathematical value of a [`CharMatch`].
pub open spec fn char_match_view(m: CharMatch) -> MatchView {
    match m {
        CharMatch::Unique(p) => MatchView::Unique(p as int),
        CharMatch::NoMatch => MatchView::NoMatch,
        CharMatch::Ambiguous => MatchView::Ambiguous,
    }
}

/// Locate `t` in `s` by exact equality, counting positions in characters.
pub fn match_chars(s: &[char], t: &[char]) -> (r: CharMatch)
    ensures
        char_match_view(r) == exact_match(s@, t@),
{
    match find_from(s, t, 0) {
        None => CharMatch::NoMatch,
        Some(p) => {
            proof {
                lemma_first_occurrence_from(s@, t@, 0);
            }
            let n = s.len();
            if p == n {
                return CharMatch::Unique(p);
            }
            let next = p + 1;
            match find_from(s, t, next) {
                Some(_) => CharMatch::Ambiguous,
                None => CharMatch::Unique(p),
            }
        },
    }
}

/// The UTF-8 width of `c` in bytes.
pub fn char_width_exec(c: char) -> (w: usize)
    ensures
        w == char_width(c),
{
    let u = c as u32;
    if u < 0x80 {
        1
    } else if u < 0x800 {
        2
    } else if u < 0x10000 {
        3
    } else {
        4
    }
}

/// The byte offset of character position `i` in `s`.
fn byte_offset(s: &str, chars: &[char], i: usize) -> (b: usize)
    requires
        chars@ == s@,
        i <= chars@.len(),
    ensures
        b == utf8_len(s@.take(i as int)),
{
    let total = s.as_bytes().len();
    proof {
        lemma_utf8_len_encoding(s@);
    }
    let mut b: usize = 0;
    let mut j: usize = 0;
    while j < i
        invariant
            j <= i <= chars@.len(),
            chars@ == s@,
            total == utf8_len(s@),
            b == utf8_len(s@.take(j as int)),
        decreases i - j,
    {
        proof {
            lemma_utf8_len_take(s@, j as int);
            lemma_utf8_len_prefix(s@, j + 1);
        }
        b = b + char_width_exec(chars[j]);
        j += 1;
    }
    b
}

/// The outcome of locating a search text in the source.
///
/// The occurrence count alone decides the variant: none is `NoMatch`, one is
/// `Unique`, two or more is `Ambiguous`.
#[derive(Debug)]
pub enum ExactMatch {
    /// The search text occurs exactly once; carries its byte range in the source.
    Unique(Range<usize>),
    /// The search text does not occur in the source.
    NoMatch,
    /// The search text occurs more than once, so no single range is meant.
    Ambiguous,
}

/// Locate `search` in `source` by exact equality.
///
/// Returns [`ExactMatch::Unique`] with the byte range of the sole occurrence,
/// [`ExactMatch::NoMatch`] if `search` is absent, or [`ExactMatch::Ambiguous`]
/// if it occurs at more than one position (overlapping occurrences count).
pub fn match_exact(source: &str, search: &str) -> (r: ExactMatch)
    ensures
        match exact_match(source@, search@) {
            MatchView::NoMatch => r is NoMatch,
            MatchView::Ambiguous => r is Ambiguous,
            MatchView::Unique(p) => r matches ExactMatch::Unique(range) && range.start == utf8_len(
                source@.take(p),
            ) && range.end == range.start + utf8_len(search@),
        },
{
    let s = chars_of(source);
    let t = chars_of(search);
    match match_chars(&s, &t) {
        CharMatch::NoMatch => ExactMatch::NoMatch,
        CharMatch::Ambiguous => ExactMatch::Ambiguous,
        CharMatch::Unique(p) => {
            proof {
                lemma_first_occurrence_from(s@, t@, 0);
                assert(s@.subrange(p as int, p + t@.len()) == t@);
                assert(s@.take(p + t@.len()) == s@.take(p as int) + t@);
                lemma_utf8_len_concat(s@.take(p as int), t@);
            }
            let n = s.len();
            let start = byte_offset(source, &s, p);
            let end = byte_offset(source, &s, p + t.len());
            ExactMatch::Unique(start..end)
        },
    }
}

} // verus!
