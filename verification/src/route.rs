//! The top-level subcommand dispatcher: from a parsed [`Command`] to a handler.
//!
//! [`run`] is pure selection and injection. It matches a parsed [`Command`]
//! exhaustively and routes to exactly one of the explain, edit, fix and test
//! handlers, handing each the configuration and the completer; the `--apply`
//! and `--json` flags choose the [`OutputMode`]. [`Command::Usage`] is surfaced
//! as an error rather than dispatched. The caller supplies the target file's
//! text and performs any write the [`Output`] asks for.
use vstd::prelude::*;

use crate::cli::{Command, CommandView, is_dry_run};
use crate::config::Config;
use crate::dispatch_output::{Output, OutputMode, OutputView, law_only_apply_writes, output_result};
use crate::edit::{edit_after, run_edit, source_context};
use crate::explain::run_explain;
use crate::fix::{fix_error_text, run_fix};
use crate::prompt::{edit_prompt_text, explain_prompt_text, fix_prompt_text, test_prompt_text};
use crate::test_cmd::{run_test, test_after};
use crate::{Completer, ErrorView, Exchange, MendError, Result, one_exchange};

verus! {

/// The output mode the `--apply` and `--json` flags select: `--apply` wins,
/// then `--json`, and neither is a dry run.
pub open spec fn mode_of(apply: bool, json: bool) -> OutputMode {
    if apply {
        OutputMode::Apply
    } else if json {
        OutputMode::Json
    } else {
        OutputMode::DryRun
    }
}

/// Translate a command's `--apply` / `--json` flags into an [`OutputMode`].
fn output_mode(apply: bool, json: bool) -> (m: OutputMode)
    ensures
        m == mode_of(apply, json),
{
    if apply {
        OutputMode::Apply
    } else if json {
        OutputMode::Json
    } else {
        OutputMode::DryRun
    }
}

/// The outcome of an `explain`: the completer's answer as text to show,
/// never written.
pub open spec fn explain_output(answer: std::result::Result<Seq<char>, ErrorView>) -> std::result::Result<
    OutputView,
    ErrorView,
> {
    match answer {
        Ok(t) => Ok(OutputView { text: t, write: false }),
        Err(e) => Err(e),
    }
}

/// What running a command on its target file's text does, with the
/// completer's log going from `before` to `after`: a usage error, or the
/// context's error when the source does not parse, leaves the log as it was;
/// otherwise the command's handler asks the completer exactly once, with the
/// prompt built from the context and the command's own instruction, symbol
/// or error, and the result is the handler's outcome for that answer. Diffs
/// are rendered without colour.
pub open spec fn run_outcome(
    command: CommandView,
    source: Seq<char>,
    budget: nat,
    before: Seq<Exchange>,
    after: Seq<Exchange>,
    r: std::result::Result<OutputView, ErrorView>,
) -> bool {
    match command {
        CommandView::Usage { message } => r == Err::<OutputView, ErrorView>(
            ErrorView::Config(message),
        ) && after == before,
        _ => match source_context(source, budget) {
            Err(e) => r == Err::<OutputView, ErrorView>(e) && after == before,
            Ok(ctx) => match command {
                CommandView::Explain { symbol, .. } => one_exchange(
                    before,
                    after,
                    explain_prompt_text(ctx, symbol),
                ) && r == explain_output(after.last().1),
                CommandView::Edit { path, instruction, apply, json } => one_exchange(
                    before,
                    after,
                    edit_prompt_text(ctx, instruction),
                ) && r == edit_after(path, source, after.last().1, mode_of(apply, json), false),
                CommandView::Fix { path, error, apply, json } => one_exchange(
                    before,
                    after,
                    fix_prompt_text(ctx, fix_error_text(error)),
                ) && r == edit_after(path, source, after.last().1, mode_of(apply, json), false),
                CommandView::Test { path, apply, json } => one_exchange(
                    before,
                    after,
                    test_prompt_text(ctx),
                ) && r == test_after(path, after.last().1, mode_of(apply, json), false),
                CommandView::Usage { .. } => true,
            },
        },
    }
}

/// Route a parsed [`Command`] to its handler, given the text of its target
/// file (`source`; unused for `Usage`).
///
/// Exactly one handler runs, handed `config` and `completer`; the flags choose
/// its [`OutputMode`]. [`Command::Usage`] becomes [`MendError::Config`]
/// carrying its message.
pub fn run<C: Completer>(command: Command, source: &str, config: &Config, completer: &mut C) -> (r:
    Result<Output>)
    ensures
        run_outcome(
            command@,
            source@,
            config.token_budget as nat,
            old(completer).log(),
            final(completer).log(),
            output_result(r),
        ),
{
    match command {
        Command::Explain { path, symbol } => {
            let sym = match &symbol {
                Some(s) => Some(s.as_str()),
                None => None,
            };
            match run_explain(source, sym, config, completer) {
                Ok(text) => Ok(Output { text, write: false }),
                Err(e) => Err(e),
            }
        },
        Command::Edit { path, instruction, apply, json } => run_edit(
            path.as_str(),
            source,
            instruction.as_str(),
            config,
            completer,
            output_mode(apply, json),
            false,
        ),
        Command::Fix { path, error, apply, json } => {
            let err = match &error {
                Some(e) => Some(e.as_str()),
                None => None,
            };
            run_fix(path.as_str(), source, err, config, completer, output_mode(apply, json), false)
        },
        Command::Test { path, apply, json } => run_test(
            path.as_str(),
            source,
            config,
            completer,
            output_mode(apply, json),
            false,
        ),
        Command::Usage { message } => Err(MendError::Config(message)),
    }
}

/// The whole command line: parse `args` (without the program name) and run
/// the command on `source`, the text of its target file.
pub fn run_cli<C: Completer>(args: &[String], source: &str, config: &Config, completer: &mut C) -> (r:
    Result<Output>)
    ensures
        run_outcome(
            crate::cli::parse_args(crate::text::strings_view(args@)),
            source@,
            config.token_budget as nat,
            old(completer).log(),
            final(completer).log(),
            output_result(r),
        ),
{
    run(crate::cli::parse(args), source, config, completer)
}

/// Law: a command that is a dry run never has its outcome written to disk,
/// whatever the completer answers.
pub proof fn law_dry_run_never_writes(
    command: CommandView,
    source: Seq<char>,
    budget: nat,
    before: Seq<Exchange>,
    after: Seq<Exchange>,
    r: std::result::Result<OutputView, ErrorView>,
)
    requires
        run_outcome(command, source, budget, before, after, r),
        is_dry_run(command),
    ensures
        r matches Ok(o) ==> !o.write,
{
    if source_context(source, budget) is Ok {
        let answer = after.last().1;
        match command {
            CommandView::Edit { path, apply, json, .. } => {
                lemma_edit_after_mode(path, source, answer, mode_of(apply, json));
            },
            CommandView::Fix { path, apply, json, .. } => {
                lemma_edit_after_mode(path, source, answer, mode_of(apply, json));
            },
            CommandView::Test { path, apply, json } => {
                if answer is Ok {
                    let es = seq![crate::parsed_edit::EditView::WholeFile { body: answer->Ok_0 }];
                    law_only_apply_writes(
                        path,
                        Seq::empty(),
                        crate::edit::applied_edits(Seq::empty(), es),
                        es,
                        mode_of(apply, json),
                        false,
                    );
                }
            },
            _ => {},
        }
    }
}

/// An editing outcome asks for a write only under `Apply`.
proof fn lemma_edit_after_mode(
    path: Seq<char>,
    source: Seq<char>,
    answer: std::result::Result<Seq<char>, ErrorView>,
    mode: OutputMode,
)
    ensures
        edit_after(path, source, answer, mode, false) matches Ok(o) && o.write ==> mode
            == OutputMode::Apply,
{
    if let Ok(text) = answer {
        if let Ok(es) = crate::edit::parsed_response(text) {
            law_only_apply_writes(
                path,
                source,
                crate::edit::applied_edits(source, es),
                es,
                mode,
                false,
            );
        }
    }
}

} // verus!
