//! Apply a validated, ordered edit set to source text, in memory.
//!
//! [`apply_edits`] folds the edits over a working copy of the source in order.
//! Application is all-or-nothing: the first search/replace edit whose search
//! text has no unique match aborts the whole pass with `MendError::Patch`.
use vstd::prelude::*;

use crate::match_exact::{
    CharMatch, MatchView, exact_match, first_occurrence_from, lemma_first_occurrence_from,
    match_chars,
};
use crate::parsed_edit::{EditView, ParsedEdit, edits_view};
use crate::quoting::{debug_quote, debug_quoted};
use crate::text::{append, chars_of, string_of, subrange};
use crate::{MendError, Result};

verus! {

/// `s` with the `len` characters at position `p` replaced by `r`.
pub open spec fn splice(s: Seq<char>, p: int, len: int, r: Seq<char>) -> Seq<char> {
    s.take(p) + r + s.skip(p + len)
}

/// One edit applied to the working copy `w`: a whole-file edit replaces it; a
/// search/replace edit splices its replacement over the unique occurrence of its
/// search text, and fails (`None`) when there is no unique occurrence.
pub open spec fn apply_edit(w: Seq<char>, e: EditView) -> Option<Seq<char>> {
    match e {
        EditView::WholeFile { body } => Some(body),
        EditView::SearchReplace { search, replace } => match exact_match(w, search) {
            MatchView::Unique(p) => Some(splice(w, p, search.len() as int, replace)),
            _ => None,
        },
    }
}

/// The edits applied to `s` in order, or `None` when one of them fails.
pub open spec fn apply_all(s: Seq<char>, edits: Seq<EditView>) -> Option<Seq<char>>
    decreases edits.len(),
{
    if edits.len() == 0 {
        Some(s)
    } else {
        match apply_all(s, edits.drop_last()) {
            Some(w) => apply_edit(w, edits.last()),
            None => None,
        }
    }
}

/// The position of the first edit that fails to apply, or `-1` when all apply.
pub open spec fn first_failure(s: Seq<char>, edits: Seq<EditView>) -> int
    decreases edits.len(),
{
    if edits.len() == 0 {
        -1
    } else if first_failure(s, edits.drop_last()) >= 0 {
        first_failure(s, edits.drop_last())
    } else if apply_all(s, edits) is None {
        edits.len() - 1
    } else {
        -1
    }
}

/// The search text of a search/replace edit (empty for a whole-file edit).
pub open spec fn search_of(e: EditView) -> Seq<char> {
    match e {
        EditView::SearchReplace { search, .. } => search,
        EditView::WholeFile { .. } => Seq::empty(),
    }
}

/// The message of the `Patch` error for an edit whose search text has no unique
/// match.
pub open spec fn no_unique_match_message(search: Seq<char>) -> Seq<char> {
    "search text has no unique match: "@ + debug_quoted(search)
}

/// Applying a prefix of the edits one more step.
pub proof fn lemma_apply_all_take(s: Seq<char>, edits: Seq<EditView>, i: int)
    requires
        0 <= i < edits.len(),
    ensures
        apply_all(s, edits.take(i + 1)) == match apply_all(s, edits.take(i)) {
            Some(w) => apply_edit(w, edits[i]),
            None => None,
        },
        first_failure(s, edits.take(i + 1)) == if first_failure(s, edits.take(i)) >= 0 {
            first_failure(s, edits.take(i))
        } else if apply_all(s, edits.take(i + 1)) is None {
            i
        } else {
            -1
        },
{
    assert(edits.take(i + 1).drop_last() == edits.take(i));
}

/// The failure index of a failing edit list points at a failing edit.
pub proof fn lemma_first_failure(s: Seq<char>, edits: Seq<EditView>)
    ensures
        apply_all(s, edits) is None <==> first_failure(s, edits) >= 0,
        first_failure(s, edits) < edits.len(),
    decreases edits.len(),
{
    if edits.len() > 0 {
        lemma_first_failure(s, edits.drop_last());
    }
}

/// Apply one search/replace edit to the working copy, if its search text has a
/// unique match.
pub(crate) fn splice_unique(w: &Vec<char>, search: &str, replace: &str) -> (r: Option<Vec<char>>)
    ensures
        match r {
            Some(v) => apply_edit(
                w@,
                EditView::SearchReplace { search: search@, replace: replace@ },
            ) == Some(v@),
            None => apply_edit(
                w@,
                EditView::SearchReplace { search: search@, replace: replace@ },
            ) is None,
        },
{
    let t = chars_of(search);
    match match_chars(w, &t) {
        CharMatch::Unique(p) => {
            let n = w.len();
            proof {
                lemma_first_occurrence_from(w@, t@, 0);
                assert(first_occurrence_from(w@, t@, 0) == p);
                assert(p + t@.len() <= n);
            }
            let rep = chars_of(replace);
            let mut out = subrange(w, 0, p);
            append(&mut out, &rep);
            let tail = subrange(w, p + t.len(), w.len());
            append(&mut out, &tail);
            proof {
                assert(w@.take(p as int) == w@.subrange(0, p as int));
                assert(w@.skip(p + t@.len()) == w@.subrange(p + t@.len(), w@.len() as int));
            }
            Some(out)
        },
        _ => None,
    }
}

/// Apply an ordered edit set to `source`, returning the rewritten text.
///
/// The edits are applied in order to a working copy of `source`. A whole-file
/// edit replaces the working copy with its body; a search/replace edit splices
/// its `replace` over the unique occurrence of its `search`. If any
/// search/replace edit has no unique match against the working copy at its turn,
/// the whole application aborts with `MendError::Patch` naming that search text.
pub fn apply_edits(source: &str, edits: &[ParsedEdit]) -> (r: Result<String>)
    ensures
        match r {
            Ok(out) => apply_all(source@, edits_view(edits@)) == Some(out@),
            Err(e) => {
                let k = first_failure(source@, edits_view(edits@));
                &&& apply_all(source@, edits_view(edits@)) is None
                &&& 0 <= k < edits@.len()
                &&& e matches MendError::Patch(m) && m@ == no_unique_match_message(
                    search_of(edits_view(edits@)[k]),
                )
            },
        },
{
    let ghost ev = edits_view(edits@);
    let mut result = chars_of(source);
    let mut i: usize = 0;
    proof {
        assert(ev.take(0).len() == 0);
    }
    while i < edits.len()
        invariant
            i <= edits@.len(),
            ev == edits_view(edits@),
            apply_all(source@, ev.take(i as int)) == Some(result@),
            first_failure(source@, ev.take(i as int)) == -1,
        decreases edits@.len() - i,
    {
        proof {
            lemma_apply_all_take(source@, ev, i as int);
            assert(ev[i as int] == edits@[i as int]@);
        }
        match &edits[i] {
            ParsedEdit::WholeFile { body } => {
                result = chars_of(body.as_str());
            },
            ParsedEdit::SearchReplace { search, replace } => {
                match splice_unique(&result, search.as_str(), replace.as_str()) {
                    Some(v) => {
                        result = v;
                    },
                    None => {
                        proof {
                            lemma_apply_all_take(source@, ev, i as int);
                            lemma_first_failure(source@, ev);
                            assert(ev.take(edits@.len() as int) == ev);
                            assert(first_failure(source@, ev) == i) by {
                                lemma_failure_prefix(source@, ev, i as int + 1);
                            }
                        }
                        let q = debug_quote(search.as_str());
                        let mut m = chars_of("search text has no unique match: ");
                        let qc = chars_of(q.as_str());
                        append(&mut m, &qc);
                        return Err(MendError::Patch(string_of(&m)));
                    },
                }
            },
        }
        i += 1;
    }
    proof {
        assert(ev.take(edits@.len() as int) == ev);
    }
    Ok(string_of(&result))
}

/// Once a prefix of the edits fails, the failure index is fixed for every longer
/// prefix.
pub proof fn lemma_failure_prefix(s: Seq<char>, edits: Seq<EditView>, j: int)
    requires
        0 <= j <= edits.len(),
        first_failure(s, edits.take(j)) >= 0,
    ensures
        first_failure(s, edits) == first_failure(s, edits.take(j)),
        apply_all(s, edits) is None,
    decreases edits.len() - j,
{
    if j == edits.len() {
        assert(edits.take(j) == edits);
        lemma_first_failure(s, edits);
    } else {
        lemma_apply_all_take(s, edits, j);
        lemma_first_failure(s, edits.take(j));
        lemma_failure_prefix(s, edits, j + 1);
    }
}

/// Once a prefix of the edits fails to apply, every longer prefix fails too.
pub proof fn lemma_apply_none_persists(s: Seq<char>, edits: Seq<EditView>, j: int)
    requires
        0 <= j <= edits.len(),
        apply_all(s, edits.take(j)) is None,
    ensures
        apply_all(s, edits) is None,
    decreases edits.len() - j,
{
    if j == edits.len() {
        assert(edits.take(j) == edits);
    } else {
        lemma_apply_all_take(s, edits, j);
        lemma_apply_none_persists(s, edits, j + 1);
    }
}

} // verus!
