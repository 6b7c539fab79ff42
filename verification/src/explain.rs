//! The `explain` subcommand: ask the completer to explain a file, or one
//! symbol in it, from the file's context.
use vstd::prelude::*;

use crate::config::Config;
use crate::edit::{file_context, prompt_from, source_context};
use crate::prompt::{explain_prompt, explain_prompt_text};
use crate::{Completer, ErrorView, Result, one_exchange, text_result};

verus! {

/// The view of an optional borrowed text.
pub open spec fn opt_str_view(o: Option<&str>) -> Option<Seq<char>> {
    match o {
        Some(s) => Some(s@),
        None => None,
    }
}

/// The prompt an `explain` of `source` sends, naming `symbol` when given.
pub fn explain_request(source: &str, symbol: Option<&str>, config: &Config) -> (r: Result<String>)
    ensures
        text_result(r) == prompt_from(
            source_context(source@, config.token_budget as nat),
            |c: Seq<char>| explain_prompt_text(c, opt_str_view(symbol)),
        ),
{
    match file_context(source, config) {
        Ok(context) => Ok(explain_prompt(context.as_str(), symbol)),
        Err(e) => Err(e),
    }
}

/// Explain the file whose text is `source`, optionally narrowed to `symbol`.
///
/// When the source parses, the completer is asked exactly once, with the
/// explain prompt for the file's context and the symbol, and its answer is
/// the result, unchanged. Otherwise the completer is not asked.
pub fn run_explain<C: Completer>(
    source: &str,
    symbol: Option<&str>,
    config: &Config,
    completer: &mut C,
) -> (r: Result<String>)
    ensures
        match source_context(source@, config.token_budget as nat) {
            Err(e) => text_result(r) == Err::<Seq<char>, ErrorView>(e) && final(completer).log()
                == old(completer).log(),
            Ok(ctx) => {
                &&& one_exchange(
                    old(completer).log(),
                    final(completer).log(),
                    explain_prompt_text(ctx, opt_str_view(symbol)),
                )
                &&& text_result(r) == final(completer).log().last().1
            },
        },
{
    match explain_request(source, symbol, config) {
        Ok(prompt) => {
            let ghost before = completer.log();
            let answer = completer.complete(prompt.as_str());
            assert(completer.log().drop_last() =~= before);
            answer
        },
        Err(e) => Err(e),
    }
}

} // verus!
