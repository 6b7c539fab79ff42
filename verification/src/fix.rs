//! The `fix` subcommand: ask the completer to fix a defect in a file, named by
//! an error message or else inferred, and apply the answer as an edit.
use vstd::prelude::*;

use crate::config::Config;
use crate::dispatch_output::{Output, OutputMode, OutputView, output_result};
use crate::edit::{edit_after, file_context, finish_edit, prompt_from, source_context};
use crate::explain::opt_str_view;
use crate::prompt::{fix_prompt, fix_prompt_text};
use crate::{Completer, ErrorView, Result, one_exchange, text_result};

verus! {

/// The instruction used when no error message is given.
pub const INFER_INSTRUCTION: &'static str =
    "No specific error was provided; infer the defect from the file and fix it.";

/// The error text a `fix` prompt embeds: the given message, or
/// [`INFER_INSTRUCTION`].
pub open spec fn fix_error_text(error: Option<Seq<char>>) -> Seq<char> {
    match error {
        Some(e) => e,
        None => INFER_INSTRUCTION@,
    }
}

/// The prompt a `fix` of `source` sends.
pub fn fix_request(source: &str, error: Option<&str>, config: &Config) -> (r: Result<String>)
    ensures
        text_result(r) == prompt_from(
            source_context(source@, config.token_budget as nat),
            |c: Seq<char>| fix_prompt_text(c, fix_error_text(opt_str_view(error))),
        ),
{
    match file_context(source, config) {
        Ok(context) => {
            let e = match error {
                Some(e) => e,
                None => INFER_INSTRUCTION,
            };
            Ok(fix_prompt(context.as_str(), e))
        },
        Err(e) => Err(e),
    }
}

/// Fix the file at `path`, whose text is `source`, against the error message
/// `error` (inferring the defect when it is absent).
///
/// When the source parses, the completer is asked exactly once, with the fix
/// prompt for the file's context and the error (or [`INFER_INSTRUCTION`]), and
/// the outcome is what [`finish_edit`] makes of its answer. Otherwise the
/// completer is not asked.
pub fn run_fix<C: Completer>(
    path: &str,
    source: &str,
    error: Option<&str>,
    config: &Config,
    completer: &mut C,
    mode: OutputMode,
    color: bool,
) -> (r: Result<Output>)
    ensures
        match source_context(source@, config.token_budget as nat) {
            Err(e) => output_result(r) == Err::<OutputView, ErrorView>(e) && final(completer).log()
                == old(completer).log(),
            Ok(ctx) => {
                &&& one_exchange(
                    old(completer).log(),
                    final(completer).log(),
                    fix_prompt_text(ctx, fix_error_text(opt_str_view(error))),
                )
                &&& output_result(r) == edit_after(
                    path@,
                    source@,
                    final(completer).log().last().1,
                    mode,
                    color,
                )
            },
        },
{
    let prompt = match fix_request(source, error, config) {
        Ok(p) => p,
        Err(e) => {
            return Err(e);
        },
    };
    let ghost before = completer.log();
    let response = completer.complete(prompt.as_str());
    assert(completer.log().drop_last() =~= before);
    finish_edit(path, source, response, mode, color)
}

} // verus!
