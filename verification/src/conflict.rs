//! Detect conflicts in an ordered edit set before any application.
//!
//! An empty conflict list is the success signal: a set on which the pass
//! reports nothing applies in full (see [`law_clean_set_applies`]).
//!
//! Two independent checks make up the pass:
//!   - **Overlap**: two search/replace edits whose uniquely matched source ranges
//!     intersect (ranges that merely touch are fine).
//!   - **Stale match**: a search/replace edit whose search text no longer matches
//!     uniquely once the edits before it (whole-file ones included) apply in
//!     order.
//! Positions are counted in characters; since UTF-8 byte offsets grow strictly
//! with character positions, two ranges intersect in bytes exactly when they
//! intersect in characters.
use vstd::prelude::*;

use crate::apply::{
    apply_all, lemma_apply_all_take, lemma_apply_none_persists, splice, splice_unique,
};
use crate::match_exact::{
    CharMatch, MatchView, exact_match, first_occurrence_from, lemma_first_occurrence_from,
    match_chars,
};
use crate::parsed_edit::{EditView, ParsedEdit, edits_view};
use crate::text::chars_of;

verus! {

/// A reason an edit set cannot apply cleanly, named by edit position.
#[derive(Debug)]
pub enum Conflict {
    /// Two edits whose matched source ranges overlap; `first < second` are their
    /// positions in the edit slice.
    Overlap {
        /// Position of the earlier edit in the slice.
        first: usize,
        /// Position of the later edit in the slice.
        second: usize,
    },
    /// An edit whose search text no longer matches uniquely once the prior edits
    /// apply; `index` is its position in the edit slice.
    StaleMatch {
        /// Position of the stale edit in the slice.
        index: usize,
    },
}

// ---------------------------------------------------------------------------
// Specifications
// ---------------------------------------------------------------------------

/// The character range a search/replace edit uniquely matches in `s`.
pub open spec fn matched_range(s: Seq<char>, e: EditView) -> Option<(int, int)> {
    match e {
        EditView::SearchReplace { search, .. } => match exact_match(s, search) {
            MatchView::Unique(p) => Some((p, p + search.len())),
            _ => None,
        },
        EditView::WholeFile { .. } => None,
    }
}

/// Two ranges share at least one position.
pub open spec fn ranges_intersect(a: (int, int), b: (int, int)) -> bool {
    (if a.0 > b.0 {
        a.0
    } else {
        b.0
    }) < (if a.1 < b.1 {
        a.1
    } else {
        b.1
    })
}

/// Edits `i` and `j` both match uniquely in `s` and their ranges intersect.
pub open spec fn overlap_pair(s: Seq<char>, edits: Seq<EditView>, i: int, j: int) -> bool {
    &&& matched_range(s, edits[i]) is Some
    &&& matched_range(s, edits[j]) is Some
    &&& ranges_intersect(matched_range(s, edits[i])->0, matched_range(s, edits[j])->0)
}

/// The overlaps of edit `first` with the edits after it and before `upto`, in
/// ascending order.
pub open spec fn overlap_row(s: Seq<char>, edits: Seq<EditView>, first: int, upto: int) -> Seq<
    Conflict,
>
    decreases upto - first,
{
    if upto <= first + 1 {
        Seq::empty()
    } else {
        overlap_row(s, edits, first, upto - 1) + if overlap_pair(s, edits, first, upto - 1) {
            seq![Conflict::Overlap { first: first as usize, second: (upto - 1) as usize }]
        } else {
            Seq::empty()
        }
    }
}

/// The overlaps whose earlier edit is before `first_end`, in ascending order.
pub open spec fn overlaps_before(s: Seq<char>, edits: Seq<EditView>, first_end: int) -> Seq<
    Conflict,
>
    decreases first_end,
{
    if first_end <= 0 {
        Seq::empty()
    } else {
        overlaps_before(s, edits, first_end - 1) + overlap_row(
            s,
            edits,
            first_end - 1,
            edits.len() as int,
        )
    }
}

/// One edit applied to the working copy: a whole-file edit replaces it; a
/// search/replace edit is spliced in when its search text matches uniquely,
/// and otherwise (it is then reported stale) leaves the copy unchanged.
pub open spec fn conflict_step(w: Seq<char>, e: EditView) -> Seq<char> {
    match e {
        EditView::SearchReplace { search, replace } => match exact_match(w, search) {
            MatchView::Unique(p) => splice(w, p, search.len() as int, replace),
            _ => w,
        },
        EditView::WholeFile { body } => body,
    }
}

/// The working copy after the first `k` edits.
pub open spec fn working_copy(s: Seq<char>, edits: Seq<EditView>, k: int) -> Seq<char>
    decreases k,
{
    if k <= 0 {
        s
    } else {
        conflict_step(working_copy(s, edits, k - 1), edits[k - 1])
    }
}

/// Edit `i` is a search/replace edit with no unique match in the working copy
/// left by the edits before it.
pub open spec fn is_stale(s: Seq<char>, edits: Seq<EditView>, i: int) -> bool {
    match edits[i] {
        EditView::SearchReplace { search, .. } => !(exact_match(
            working_copy(s, edits, i),
            search,
        ) is Unique),
        EditView::WholeFile { .. } => false,
    }
}

/// The stale edits before position `k`, in ascending order.
pub open spec fn stale_before(s: Seq<char>, edits: Seq<EditView>, k: int) -> Seq<Conflict>
    decreases k,
{
    if k <= 0 {
        Seq::empty()
    } else {
        stale_before(s, edits, k - 1) + if is_stale(s, edits, k - 1) {
            seq![Conflict::StaleMatch { index: (k - 1) as usize }]
        } else {
            Seq::empty()
        }
    }
}

/// Every conflict of the edit set: all overlaps (by ascending first, then
/// second position), followed by all stale matches (by ascending position).
pub open spec fn conflicts(s: Seq<char>, edits: Seq<EditView>) -> Seq<Conflict> {
    overlaps_before(s, edits, edits.len() as int) + stale_before(s, edits, edits.len() as int)
}

// ---------------------------------------------------------------------------
// Executable detection
// ---------------------------------------------------------------------------

/// The character range edit `e` uniquely matches in `s`.
fn edit_range(s: &Vec<char>, e: &ParsedEdit) -> (r: Option<(usize, usize)>)
    ensures
        match r {
            Some((a, b)) => matched_range(s@, e@) == Some((a as int, b as int)),
            None => matched_range(s@, e@) is None,
        },
{
    match e {
        ParsedEdit::SearchReplace { search, .. } => {
            let t = chars_of(search.as_str());
            match match_chars(s, &t) {
                CharMatch::Unique(p) => {
                    let n = s.len();
                    proof {
                        lemma_first_occurrence_from(s@, t@, 0);
                        assert(first_occurrence_from(s@, t@, 0) == p);
                    }
                    Some((p, p + t.len()))
                },
                _ => None,
            }
        },
        ParsedEdit::WholeFile { .. } => None,
    }
}

/// Validate an ordered edit set against `source`, returning every conflict.
///
/// Returns an empty `Vec` exactly when no two search/replace edits' matched
/// ranges overlap and every search/replace edit still matches uniquely once the
/// edits before it apply in order. Never mutates `source`.
pub fn detect_conflicts(source: &str, edits: &[ParsedEdit]) -> (r: Vec<Conflict>)
    ensures
        r@ == conflicts(source@, edits_view(edits@)),
{
    let ghost ev = edits_view(edits@);
    let s = chars_of(source);
    let n = edits.len();

    // The matched range of each edit in the original source.
    let mut ranges: Vec<Option<(usize, usize)>> = Vec::new();
    let mut k: usize = 0;
    while k < n
        invariant
            n == edits@.len(),
            ev == edits_view(edits@),
            s@ == source@,
            k <= n,
            ranges@.len() == k,
            forall|j: int|
                0 <= j < k ==> match #[trigger] ranges@[j] {
                    Some((a, b)) => matched_range(s@, ev[j]) == Some((a as int, b as int)),
                    None => matched_range(s@, ev[j]) is None,
                },
        decreases n - k,
    {
        proof {
            assert(ev[k as int] == edits@[k as int]@);
        }
        let r = edit_range(&s, &edits[k]);
        ranges.push(r);
        k += 1;
    }

    let mut out: Vec<Conflict> = Vec::new();
    let mut first: usize = 0;
    while first < n
        invariant
            n == edits@.len(),
            ev == edits_view(edits@),
            s@ == source@,
            first <= n,
            ranges@.len() == n,
            forall|j: int|
                0 <= j < n ==> match #[trigger] ranges@[j] {
                    Some((a, b)) => matched_range(s@, ev[j]) == Some((a as int, b as int)),
                    None => matched_range(s@, ev[j]) is None,
                },
            out@ == overlaps_before(s@, ev, first as int),
        decreases n - first,
    {
        let ghost before = out@;
        let mut second: usize = first + 1;
        while second < n
            invariant
                n == edits@.len(),
                first < n,
                first + 1 <= second <= n,
                ranges@.len() == n,
                forall|j: int|
                    0 <= j < n ==> match #[trigger] ranges@[j] {
                        Some((a, b)) => matched_range(s@, ev[j]) == Some((a as int, b as int)),
                        None => matched_range(s@, ev[j]) is None,
                    },
                out@ == before + overlap_row(s@, ev, first as int, second as int),
            decreases n - second,
        {
            let ghost prev = out@;
            match (ranges[first], ranges[second]) {
                (Some((a0, a1)), Some((b0, b1))) => {
                    let lo = if a0 > b0 {
                        a0
                    } else {
                        b0
                    };
                    let hi = if a1 < b1 {
                        a1
                    } else {
                        b1
                    };
                    if lo < hi {
                        out.push(Conflict::Overlap { first, second });
                    }
                },
                _ => {},
            }
            proof {
                let _ = ranges@[first as int];
                let _ = ranges@[second as int];
                assert(overlap_row(s@, ev, first as int, second + 1) == overlap_row(
                    s@,
                    ev,
                    first as int,
                    second as int,
                ) + if overlap_pair(s@, ev, first as int, second as int) {
                    seq![Conflict::Overlap { first: first, second: second }]
                } else {
                    Seq::empty()
                });
                if overlap_pair(s@, ev, first as int, second as int) {
                    assert(out@ == prev.push(Conflict::Overlap { first, second }));
                } else {
                    assert(out@ == prev);
                }
            }
            second += 1;
        }
        first += 1;
    }

    let mut w = s.clone();
    let mut index: usize = 0;
    proof {
        assert(w@ == working_copy(s@, ev, 0));
    }
    while index < n
        invariant
            n == edits@.len(),
            ev == edits_view(edits@),
            s@ == source@,
            index <= n,
            w@ == working_copy(s@, ev, index as int),
            out@ == overlaps_before(s@, ev, n as int) + stale_before(s@, ev, index as int),
        decreases n - index,
    {
        let ghost prev = out@;
        proof {
            assert(ev[index as int] == edits@[index as int]@);
        }
        match &edits[index] {
            ParsedEdit::SearchReplace { search, replace } => {
                match splice_unique(&w, search.as_str(), replace.as_str()) {
                    Some(v) => {
                        w = v;
                    },
                    None => {
                        out.push(Conflict::StaleMatch { index });
                    },
                }
            },
            ParsedEdit::WholeFile { body } => {
                w = chars_of(body.as_str());
            },
        }
        proof {
            if is_stale(s@, ev, index as int) {
                assert(out@ == prev.push(Conflict::StaleMatch { index }));
            } else {
                assert(out@ == prev);
            }
        }
        index += 1;
    }
    out
}

// ---------------------------------------------------------------------------
// Laws
// ---------------------------------------------------------------------------

/// No stale match is reported before `k` exactly when no edit before `k` is stale.
proof fn lemma_stale_before_empty(s: Seq<char>, edits: Seq<EditView>, k: int)
    requires
        0 <= k,
    ensures
        stale_before(s, edits, k).len() == 0 <==> forall|i: int| 0 <= i < k ==> !is_stale(s, edits, i),
    decreases k,
{
    if k > 0 {
        lemma_stale_before_empty(s, edits, k - 1);
    }
}

/// While no edit is stale, the working copy is the applied prefix.
proof fn lemma_working_copy_is_applied(s: Seq<char>, edits: Seq<EditView>, k: int)
    requires
        0 <= k <= edits.len(),
        forall|i: int| 0 <= i < k ==> !is_stale(s, edits, i),
    ensures
        apply_all(s, edits.take(k)) == Some(working_copy(s, edits, k)),
    decreases k,
{
    if k == 0 {
        assert(edits.take(0).len() == 0);
    } else {
        lemma_working_copy_is_applied(s, edits, k - 1);
        lemma_apply_all_take(s, edits, k - 1);
        assert(!is_stale(s, edits, k - 1));
    }
}

/// Law: the conflict pass reports no stale match exactly when the whole edit
/// set applies.
pub proof fn law_no_stale_match_iff_applies(s: Seq<char>, edits: Seq<EditView>)
    ensures
        stale_before(s, edits, edits.len() as int).len() == 0 <==> apply_all(s, edits) is Some,
{
    let n = edits.len() as int;
    lemma_stale_before_empty(s, edits, n);
    if stale_before(s, edits, n).len() == 0 {
        lemma_working_copy_is_applied(s, edits, n);
        assert(edits.take(n) == edits);
    } else {
        let k = choose|k: int| 0 <= k < n && is_stale(s, edits, k);
        lemma_first_stale(s, edits, k);
        let f = choose|f: int| 0 <= f <= k && is_stale(s, edits, f) && forall|i: int|
            0 <= i < f ==> !is_stale(s, edits, i);
        lemma_working_copy_is_applied(s, edits, f);
        lemma_apply_all_take(s, edits, f);
        assert(edits[f] is SearchReplace);
        lemma_apply_none_persists(s, edits, f + 1);
    }
}

/// Some stale edit comes first.
proof fn lemma_first_stale(s: Seq<char>, edits: Seq<EditView>, k: int)
    requires
        0 <= k,
        is_stale(s, edits, k),
    ensures
        exists|f: int|
            0 <= f <= k && is_stale(s, edits, f) && forall|i: int|
                0 <= i < f ==> !is_stale(s, edits, i),
    decreases k,
{
    if exists|i: int| 0 <= i < k && is_stale(s, edits, i) {
        let i = choose|i: int| 0 <= i < k && is_stale(s, edits, i);
        lemma_first_stale(s, edits, i);
    } else {
        assert(forall|i: int| 0 <= i < k ==> !is_stale(s, edits, i));
    }
}

/// Law: an edit set on which the conflict pass reports nothing applies in
/// full; so a set that fails to apply always has a conflict.
pub proof fn law_clean_set_applies(s: Seq<char>, edits: Seq<EditView>)
    requires
        conflicts(s, edits).len() == 0,
    ensures
        apply_all(s, edits) is Some,
{
    law_no_stale_match_iff_applies(s, edits);
}

/// Position `k` lies in the `len` characters from `start`.
pub open spec fn in_span(k: int, start: int, len: int) -> bool {
    start <= k < start + len
}

/// Two search/replace edits both match uniquely in `s`, at ranges that share
/// at least one character position.
pub open spec fn unique_matches_share_position(s: Seq<char>, x: EditView, y: EditView) -> bool {
    match (x, y) {
        (
            EditView::SearchReplace { search: a, .. },
            EditView::SearchReplace { search: b, .. },
        ) => match (exact_match(s, a), exact_match(s, b)) {
            (MatchView::Unique(p), MatchView::Unique(q)) => exists|k: int|
                #[trigger] in_span(k, p, a.len() as int) && in_span(k, q, b.len() as int),
            _ => false,
        },
        _ => false,
    }
}

/// Membership in a concatenation.
proof fn lemma_contains_concat(a: Seq<Conflict>, b: Seq<Conflict>, x: Conflict)
    ensures
        (a + b).contains(x) <==> a.contains(x) || b.contains(x),
{
    if (a + b).contains(x) {
        let k = choose|k: int| 0 <= k < (a + b).len() && (a + b)[k] == x;
        if k >= a.len() {
            assert(b[k - a.len()] == x);
        }
    }
    if a.contains(x) {
        let k = choose|k: int| 0 <= k < a.len() && a[k] == x;
        assert((a + b)[k] == x);
    }
    if b.contains(x) {
        let k = choose|k: int| 0 <= k < b.len() && b[k] == x;
        assert((a + b)[a.len() + k] == x);
    }
}

/// Intersecting ranges are exactly those sharing a position.
proof fn lemma_intersect_shares(s: Seq<char>, edits: Seq<EditView>, i: int, j: int)
    requires
        0 <= i < edits.len(),
        0 <= j < edits.len(),
    ensures
        overlap_pair(s, edits, i, j) <==> unique_matches_share_position(s, edits[i], edits[j]),
{
    if overlap_pair(s, edits, i, j) {
        let a = matched_range(s, edits[i])->0;
        let b = matched_range(s, edits[j])->0;
        let k = if a.0 > b.0 {
            a.0
        } else {
            b.0
        };
        assert(a.0 <= k < a.1 && b.0 <= k < b.1);
        assert(in_span(k, a.0, a.1 - a.0) && in_span(k, b.0, b.1 - b.0));
    }
}

/// The overlap row of `first` holds the pair `(i, j)` exactly when `i` is
/// `first` and `j` is a later edit before `upto` overlapping it.
proof fn lemma_row_contains(s: Seq<char>, edits: Seq<EditView>, first: int, upto: int, i: int, j: int)
    requires
        0 <= first,
        upto <= edits.len() <= usize::MAX + 1,
        0 <= i <= usize::MAX,
        0 <= j <= usize::MAX,
    ensures
        overlap_row(s, edits, first, upto).contains(
            Conflict::Overlap { first: i as usize, second: j as usize },
        ) <==> (i == first && first < j < upto && overlap_pair(s, edits, i, j)),
    decreases upto - first,
{
    let c = Conflict::Overlap { first: i as usize, second: j as usize };
    if upto <= first + 1 {
        assert(!overlap_row(s, edits, first, upto).contains(c));
    } else {
        lemma_row_contains(s, edits, first, upto - 1, i, j);
        let tail = if overlap_pair(s, edits, first, upto - 1) {
            seq![Conflict::Overlap { first: first as usize, second: (upto - 1) as usize }]
        } else {
            Seq::empty()
        };
        lemma_contains_concat(overlap_row(s, edits, first, upto - 1), tail, c);
        if tail.contains(c) {
            assert(tail[0] == c);
        }
        if i == first && j == upto - 1 && overlap_pair(s, edits, i, j) {
            assert(tail[0] == c);
        }
    }
}

/// The overlaps before `first_end` hold the pair `(i, j)` exactly when
/// `i < first_end` and edits `i < j` overlap.
proof fn lemma_overlaps_contains(s: Seq<char>, edits: Seq<EditView>, first_end: int, i: int, j: int)
    requires
        first_end <= edits.len() <= usize::MAX + 1,
        0 <= i <= usize::MAX,
        0 <= j <= usize::MAX,
    ensures
        overlaps_before(s, edits, first_end).contains(
            Conflict::Overlap { first: i as usize, second: j as usize },
        ) <==> (i < first_end && i < j < edits.len() && overlap_pair(s, edits, i, j)),
    decreases first_end,
{
    let c = Conflict::Overlap { first: i as usize, second: j as usize };
    if first_end <= 0 {
        assert(!overlaps_before(s, edits, first_end).contains(c));
    } else {
        lemma_overlaps_contains(s, edits, first_end - 1, i, j);
        lemma_row_contains(s, edits, first_end - 1, edits.len() as int, i, j);
        lemma_contains_concat(
            overlaps_before(s, edits, first_end - 1),
            overlap_row(s, edits, first_end - 1, edits.len() as int),
            c,
        );
    }
}

/// Stale matches are never overlaps.
proof fn lemma_stale_not_overlap(s: Seq<char>, edits: Seq<EditView>, k: int, c: Conflict)
    requires
        c is Overlap,
    ensures
        !stale_before(s, edits, k).contains(c),
    decreases k,
{
    if k > 0 {
        lemma_stale_not_overlap(s, edits, k - 1, c);
        let tail = if is_stale(s, edits, k - 1) {
            seq![Conflict::StaleMatch { index: (k - 1) as usize }]
        } else {
            Seq::empty()
        };
        lemma_contains_concat(stale_before(s, edits, k - 1), tail, c);
        if tail.contains(c) {
            assert(tail[0] == c);
        }
    }
}

/// Law: an overlap is reported for edits `i < j` exactly when both match
/// uniquely in the source at ranges sharing a character position. Ranges
/// that merely touch (one ends where the other starts) are never reported.
pub proof fn law_overlap_iff_shared_position(
    s: Seq<char>,
    edits: Seq<EditView>,
    i: int,
    j: int,
)
    requires
        0 <= i < j < edits.len(),
        edits.len() <= usize::MAX,
    ensures
        conflicts(s, edits).contains(Conflict::Overlap { first: i as usize, second: j as usize })
            <==> unique_matches_share_position(s, edits[i], edits[j]),
{
    let c = Conflict::Overlap { first: i as usize, second: j as usize };
    let n = edits.len() as int;
    lemma_overlaps_contains(s, edits, n, i, j);
    lemma_stale_not_overlap(s, edits, n, c);
    lemma_contains_concat(overlaps_before(s, edits, n), stale_before(s, edits, n), c);
    lemma_intersect_shares(s, edits, i, j);
}

/// Law: every reported overlap names two edits of the set, the earlier first,
/// and these two match uniquely at ranges sharing a character position.
pub proof fn law_overlaps_share_position(s: Seq<char>, edits: Seq<EditView>, c: Conflict)
    requires
        edits.len() <= usize::MAX,
        conflicts(s, edits).contains(c),
        c is Overlap,
    ensures
        c->first < c->second < edits.len(),
        unique_matches_share_position(s, edits[c->first as int], edits[c->second as int]),
{
    let n = edits.len() as int;
    let i = c->first as int;
    let j = c->second as int;
    assert(c == Conflict::Overlap { first: i as usize, second: j as usize });
    lemma_stale_not_overlap(s, edits, n, c);
    lemma_contains_concat(overlaps_before(s, edits, n), stale_before(s, edits, n), c);
    lemma_overlaps_contains(s, edits, n, i, j);
    lemma_intersect_shares(s, edits, i, j);
}

} // verus!
