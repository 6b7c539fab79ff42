//! Detect which edit format a model response is in and route it to its parser.
//!
//! [`parse_response`] inspects a raw response for each known format's marker and
//! hands the whole response to the matching parser, with a fixed precedence:
//! search/replace, then unified diff, then fenced. A response carrying none of
//! the three markers is a parse error.
use vstd::prelude::*;

use crate::fenced::{fenced_edits, parse_fenced};
use crate::parsed_edit::{ParsedEdit, parse_outcome};
use crate::search_replace::{law_search_replace_ignores_prose, parse_search_replace, search_replace_edits};
use crate::text::{chars_of, contains, contains_exec, lines, occurs_at};
use crate::unified_diff::{parse_unified_diff, unified_diff_edits};
use crate::{MendError, Result};

verus! {

/// The edit formats a response can be in.
pub enum ResponseFormat {
    SearchReplace,
    UnifiedDiff,
    Fenced,
    Unknown,
}

/// The format of `response`, by the first marker found in precedence order:
/// `<<<<<<< SEARCH`, then `@@ `, then three backticks.
pub open spec fn response_format(response: Seq<char>) -> ResponseFormat {
    if contains(response, "<<<<<<< SEARCH"@) {
        ResponseFormat::SearchReplace
    } else if contains(response, "@@ "@) {
        ResponseFormat::UnifiedDiff
    } else if contains(response, "```"@) {
        ResponseFormat::Fenced
    } else {
        ResponseFormat::Unknown
    }
}

/// Auto-detect `response`'s format and route it to the matching parser.
///
/// A `<<<<<<< SEARCH` marker routes to `parse_search_replace`, else a `@@ ` hunk
/// marker routes to `parse_unified_diff`, else a fence routes to `parse_fenced`;
/// the selected parser's outcome is returned verbatim. A response matching none
/// of the three is `MendError::Parse`.
pub fn parse_response(response: &str) -> (r: Result<Vec<ParsedEdit>>)
    ensures
        match response_format(response@) {
            ResponseFormat::SearchReplace => parse_outcome(
                r,
                search_replace_edits(response@),
                "search/replace block missing ======= divider"@,
            ),
            ResponseFormat::UnifiedDiff => parse_outcome(
                r,
                unified_diff_edits(response@),
                "malformed hunk header: missing closing ` @@` delimiter"@,
            ),
            ResponseFormat::Fenced => parse_outcome(
                r,
                fenced_edits(response@),
                "unterminated fenced code block"@,
            ),
            ResponseFormat::Unknown => r matches Err(MendError::Parse(m))
                && m@ == "response matches no known edit format"@,
        },
{
    let text = chars_of(response);
    if contains_exec(&text, &chars_of("<<<<<<< SEARCH")) {
        parse_search_replace(response)
    } else if contains_exec(&text, &chars_of("@@ ")) {
        parse_unified_diff(response)
    } else if contains_exec(&text, &chars_of("```")) {
        parse_fenced(response)
    } else {
        Err(MendError::Parse("response matches no known edit format".to_owned()))
    }
}

/// Law: the search/replace format is chosen wherever its marker occurs in the
/// response, not only at its start.
pub proof fn law_search_marker_anywhere(response: Seq<char>, i: int)
    requires
        occurs_at(response, "<<<<<<< SEARCH"@, i),
    ensures
        response_format(response) is SearchReplace,
{
}

/// Law: prose before a search/replace answer changes nothing. When `response`
/// holds the search marker, prepending whole lines none of which is the marker
/// line keeps the format and gives the same edits (or the same error).
pub proof fn law_prose_before_search_replace(prose: Seq<char>, response: Seq<char>)
    requires
        prose.len() == 0 || prose.last() == '\n',
        forall|i: int| 0 <= i < lines(prose).len() ==> #[trigger] lines(prose)[i]
            != "<<<<<<< SEARCH"@,
        contains(response, "<<<<<<< SEARCH"@),
    ensures
        response_format(response) is SearchReplace,
        response_format(prose + response) is SearchReplace,
        search_replace_edits(prose + response) == search_replace_edits(response),
{
    let m = "<<<<<<< SEARCH"@;
    let i = choose|i: int| occurs_at(response, m, i);
    let whole = prose + response;
    let j = prose.len() + i;
    assert(whole.subrange(j, j + m.len()) =~= response.subrange(i, i + m.len()));
    assert(occurs_at(whole, m, j));
    law_search_replace_ignores_prose(prose, response);
}

} // verus!
