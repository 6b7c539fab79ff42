//! The `test` subcommand: ask the completer for tests of a file's public API
//! and treat the whole answer as the new file's body.
//!
//! The answer is not parsed for edit markers: it becomes one whole-file edit,
//! applied against an empty original, so a dry run shows it as an all-new file.
use vstd::prelude::*;

use crate::apply::apply_edits;
use crate::config::Config;
use crate::dispatch_output::{Output, OutputMode, OutputView, dispatch_output, dispatched, output_result};
use crate::edit::{applied_edits, file_context, prompt_from, source_context};
use crate::parsed_edit::{EditView, ParsedEdit};
use crate::prompt::{test_prompt, test_prompt_text};
use crate::{Completer, ErrorView, Result, one_exchange, text_result};

verus! {

/// The outcome of a `test` once the completer has answered: the answer as one
/// whole-file edit over an empty original, dispatched.
pub open spec fn test_after(
    path: Seq<char>,
    response: std::result::Result<Seq<char>, ErrorView>,
    mode: OutputMode,
    color: bool,
) -> std::result::Result<OutputView, ErrorView> {
    match response {
        Err(e) => Err(e),
        Ok(body) => {
            let es = seq![EditView::WholeFile { body }];
            dispatched(path, Seq::empty(), applied_edits(Seq::empty(), es), es, mode, color)
        },
    }
}

/// The prompt a `test` of `source` sends.
pub fn test_request(source: &str, config: &Config) -> (r: Result<String>)
    ensures
        text_result(r) == prompt_from(
            source_context(source@, config.token_budget as nat),
            |c: Seq<char>| test_prompt_text(c),
        ),
{
    match file_context(source, config) {
        Ok(context) => Ok(test_prompt(context.as_str())),
        Err(e) => Err(e),
    }
}

/// Finish a `test` with the completer's answer: wrap it as one whole-file
/// edit, apply it to an empty original, and dispatch the outcome for `path`.
pub fn finish_test(path: &str, response: Result<String>, mode: OutputMode, color: bool) -> (r:
    Result<Output>)
    ensures
        output_result(r) == test_after(path@, text_result(response), mode, color),
{
    let body = match response {
        Ok(b) => b,
        Err(e) => {
            return Err(e);
        },
    };
    let edits = vec![ParsedEdit::WholeFile { body }];
    let applied = apply_edits("", &edits);
    proof {
        reveal_strlit("");
        assert(""@ =~= Seq::<char>::empty());
        let es = seq![EditView::WholeFile { body: body@ }];
        assert(crate::parsed_edit::edits_view(edits@) =~= es);
        assert(text_result(applied) == applied_edits(Seq::empty(), es));
    }
    dispatch_output(path, "", applied, edits, mode, color)
}

/// Generate tests for the public API of the file at `path`, whose text is
/// `source`.
///
/// When the source parses, the completer is asked exactly once, with the test
/// prompt for the file's context, and the outcome is what [`finish_test`]
/// makes of its answer. Otherwise the completer is not asked.
pub fn run_test<C: Completer>(
    path: &str,
    source: &str,
    config: &Config,
    completer: &mut C,
    mode: OutputMode,
    color: bool,
) -> (r: Result<Output>)
    ensures
        match source_context(source@, config.token_budget as nat) {
            Err(e) => output_result(r) == Err::<OutputView, ErrorView>(e) && final(completer).log()
                == old(completer).log(),
            Ok(ctx) => {
                &&& one_exchange(old(completer).log(), final(completer).log(), test_prompt_text(ctx))
                &&& output_result(r) == test_after(
                    path@,
                    final(completer).log().last().1,
                    mode,
                    color,
                )
            },
        },
{
    let prompt = match test_request(source, config) {
        Ok(p) => p,
        Err(e) => {
            return Err(e);
        },
    };
    let ghost before = completer.log();
    let response = completer.complete(prompt.as_str());
    assert(completer.log().drop_last() =~= before);
    finish_test(path, response, mode, color)
}

} // verus!
