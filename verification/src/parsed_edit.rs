//! The parsed-edit model: the shared currency every response parser emits and
//! the patch engine consumes.
use vstd::prelude::*;

use crate::{MendError, Result};

verus! {

/// A single edit recovered from a model response.
///
/// An edit is either a targeted search/replace pair or a whole-file body. A
/// multi-hunk response is a `Vec<ParsedEdit>`, with order preserved.
#[derive(Debug, PartialEq)]
pub enum ParsedEdit {
    /// A targeted edit: replace the occurrence of `search` with `replace`.
    SearchReplace {
        /// The text to find.
        search: String,
        /// The text to substitute in its place.
        replace: String,
    },
    /// A whole-file replacement: `body` becomes the file's entire new contents.
    WholeFile {
        /// The complete new file contents.
        body: String,
    },
}

/// The mathematical value of a [`ParsedEdit`]: its texts as character sequences.
pub enum EditView {
    SearchReplace { search: Seq<char>, replace: Seq<char> },
    WholeFile { body: Seq<char> },
}

impl View for ParsedEdit {
    type V = EditView;

    open spec fn view(&self) -> EditView {
        match self {
            ParsedEdit::SearchReplace { search, replace } => EditView::SearchReplace {
                search: search@,
                replace: replace@,
            },
            ParsedEdit::WholeFile { body } => EditView::WholeFile { body: body@ },
        }
    }
}

/// The views of a sequence of edits.
pub open spec fn edits_view(edits: Seq<ParsedEdit>) -> Seq<EditView> {
    edits.map_values(|e: ParsedEdit| e@)
}

/// Pushing onto a sequence of edits pushes the view.
pub proof fn lemma_edits_view_push(prev: Seq<ParsedEdit>, e: ParsedEdit)
    ensures
        edits_view(prev.push(e)) == edits_view(prev).push(e@),
{
    let l = edits_view(prev.push(e));
    let r = edits_view(prev).push(e@);
    assert(l.len() == prev.len() + 1);
    assert forall|j: int| 0 <= j < l.len() implies l[j] == r[j] by {
        if j < prev.len() {
            assert(prev.push(e)[j] == prev[j]);
        }
    }
    assert(l =~= r);
}

/// A copy of `e` with the same view.
pub fn copy_edit(e: &ParsedEdit) -> (r: ParsedEdit)
    ensures
        r@ == e@,
{
    match e {
        ParsedEdit::SearchReplace { search, replace } => ParsedEdit::SearchReplace {
            search: search.clone(),
            replace: replace.clone(),
        },
        ParsedEdit::WholeFile { body } => ParsedEdit::WholeFile { body: body.clone() },
    }
}

/// `r` is the outcome of a response parser whose specification gives
/// `expected`: the edits when parsing succeeds, or a `Parse` error carrying
/// `msg` when it does not.
pub open spec fn parse_outcome(
    r: Result<Vec<ParsedEdit>>,
    expected: Option<Seq<EditView>>,
    msg: Seq<char>,
) -> bool {
    match expected {
        Some(es) => r matches Ok(v) && edits_view(v@) == es,
        None => r matches Err(MendError::Parse(m)) && m@ == msg,
    }
}

} // verus!
