//! The `edit` subcommand, and the steps every file-editing subcommand shares.
//!
//! An edit reads the target file's public structure and imports into a
//! budget-bounded context, asks the completer to apply an instruction to it,
//! parses the response into edits, applies them to the source and routes the
//! outcome through [`dispatch_output`]. Reading and writing the file is the
//! caller's part: the handlers take the source text and hand back an
//! [`Output`].
use vstd::prelude::*;

use crate::apply::{apply_all, apply_edits, first_failure, no_unique_match_message, search_of};
use crate::config::Config;
use crate::context::{assemble_context, context_text};
use crate::dispatch::{ResponseFormat, parse_response, response_format};
use crate::dispatch_output::{Output, OutputMode, OutputView, dispatch_output, dispatched, output_result};
use crate::fenced::fenced_edits;
use crate::imports::{extract_imports, imports_of};
use crate::parsed_edit::EditView;
use crate::prompt::{edit_prompt, edit_prompt_text};
use crate::search_replace::search_replace_edits;
use crate::structure::{extract_structure, structure_of};
use crate::syntax::parsed_items;
use crate::unified_diff::unified_diff_edits;
use crate::{Completer, ErrorView, Result, one_exchange, text_result};

verus! {

/// The context of a source file within a token budget: its public structure
/// then its imports, or the parse error.
pub open spec fn source_context(source: Seq<char>, budget: nat) -> std::result::Result<
    Seq<char>,
    ErrorView,
> {
    match parsed_items(source) {
        Ok(items) => Ok(context_text(structure_of(items), imports_of(items), budget)),
        Err(m) => Err(ErrorView::Parse(m)),
    }
}

/// A prompt built from a source file's context, or the context's error.
pub open spec fn prompt_from(
    context: std::result::Result<Seq<char>, ErrorView>,
    build: spec_fn(Seq<char>) -> Seq<char>,
) -> std::result::Result<Seq<char>, ErrorView> {
    match context {
        Ok(c) => Ok(build(c)),
        Err(e) => Err(e),
    }
}

/// The edits a parser's specification gives, or the parse error `msg`.
pub open spec fn edits_or(found: Option<Seq<EditView>>, msg: Seq<char>) -> std::result::Result<
    Seq<EditView>,
    ErrorView,
> {
    match found {
        Some(es) => Ok(es),
        None => Err(ErrorView::Parse(msg)),
    }
}

/// What `parse_response` reads from a response.
pub open spec fn parsed_response(response: Seq<char>) -> std::result::Result<
    Seq<EditView>,
    ErrorView,
> {
    match response_format(response) {
        ResponseFormat::SearchReplace => edits_or(
            search_replace_edits(response),
            "search/replace block missing ======= divider"@,
        ),
        ResponseFormat::UnifiedDiff => edits_or(
            unified_diff_edits(response),
            "malformed hunk header: missing closing ` @@` delimiter"@,
        ),
        ResponseFormat::Fenced => edits_or(fenced_edits(response), "unterminated fenced code block"@),
        ResponseFormat::Unknown => Err(ErrorView::Parse("response matches no known edit format"@)),
    }
}

/// What `apply_edits` makes of a source and edits.
pub open spec fn applied_edits(source: Seq<char>, edits: Seq<EditView>) -> std::result::Result<
    Seq<char>,
    ErrorView,
> {
    match apply_all(source, edits) {
        Some(p) => Ok(p),
        None => Err(
            ErrorView::Patch(no_unique_match_message(search_of(edits[first_failure(source, edits)]))),
        ),
    }
}

/// The outcome of an editing subcommand once the completer has answered: the
/// answer parsed into edits, applied to the source, and dispatched.
pub open spec fn edit_after(
    path: Seq<char>,
    source: Seq<char>,
    response: std::result::Result<Seq<char>, ErrorView>,
    mode: OutputMode,
    color: bool,
) -> std::result::Result<OutputView, ErrorView> {
    match response {
        Err(e) => Err(e),
        Ok(text) => match parsed_response(text) {
            Err(e) => Err(e),
            Ok(es) => dispatched(path, source, applied_edits(source, es), es, mode, color),
        },
    }
}

/// The context of a source file: its public signatures then its imports,
/// joined and kept within the configured token budget.
pub fn file_context(source: &str, config: &Config) -> (r: Result<String>)
    ensures
        text_result(r) == source_context(source@, config.token_budget as nat),
{
    let structure = match extract_structure(source) {
        Ok(s) => s,
        Err(e) => {
            return Err(e);
        },
    };
    let imports = match extract_imports(source) {
        Ok(i) => i,
        Err(e) => {
            return Err(e);
        },
    };
    Ok(assemble_context(&structure, &imports, config.token_budget as usize))
}

/// The prompt an `edit` of `source` sends.
pub fn edit_request(source: &str, instruction: &str, config: &Config) -> (r: Result<String>)
    ensures
        text_result(r) == prompt_from(
            source_context(source@, config.token_budget as nat),
            |c: Seq<char>| edit_prompt_text(c, instruction@),
        ),
{
    match file_context(source, config) {
        Ok(context) => Ok(edit_prompt(context.as_str(), instruction)),
        Err(e) => Err(e),
    }
}

/// Finish an editing subcommand with the completer's answer: parse it into
/// edits, apply them to `source`, and dispatch the outcome for `path`.
pub fn finish_edit(
    path: &str,
    source: &str,
    response: Result<String>,
    mode: OutputMode,
    color: bool,
) -> (r: Result<Output>)
    ensures
        output_result(r) == edit_after(path@, source@, text_result(response), mode, color),
{
    let text = match response {
        Ok(t) => t,
        Err(e) => {
            return Err(e);
        },
    };
    let edits = match parse_response(text.as_str()) {
        Ok(es) => es,
        Err(e) => {
            return Err(e);
        },
    };
    let applied = apply_edits(source, &edits);
    dispatch_output(path, source, applied, edits, mode, color)
}

/// Edit the file at `path`, whose text is `source`, according to a
/// natural-language `instruction`.
///
/// When the source parses, the completer is asked exactly once, with the edit
/// prompt for the file's context and the instruction, and the outcome is what
/// [`finish_edit`] makes of its answer. Otherwise the completer is not asked.
pub fn run_edit<C: Completer>(
    path: &str,
    source: &str,
    instruction: &str,
    config: &Config,
    completer: &mut C,
    mode: OutputMode,
    color: bool,
) -> (r: Result<Output>)
    ensures
        match source_context(source@, config.token_budget as nat) {
            Err(e) => output_result(r) == Err::<OutputView, ErrorView>(e) && final(completer).log()
                == old(completer).log(),
            Ok(ctx) => {
                &&& one_exchange(
                    old(completer).log(),
                    final(completer).log(),
                    edit_prompt_text(ctx, instruction@),
                )
                &&& output_result(r) == edit_after(
                    path@,
                    source@,
                    final(completer).log().last().1,
                    mode,
                    color,
                )
            },
        },
{
    let prompt = match edit_request(source, instruction, config) {
        Ok(p) => p,
        Err(e) => {
            return Err(e);
        },
    };
    let ghost before = completer.log();
    let response = completer.complete(prompt.as_str());
    assert(completer.log().drop_last() =~= before);
    finish_edit(path, source, response, mode, color)
}

} // verus!
