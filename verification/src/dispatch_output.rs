//! The single seam that decides what reaches the user and the disk.
//!
//! Every subcommand funnels its outcome through [`dispatch_output`]. Its inputs
//! are the applied result (the proposed text, or the patch engine's error), the
//! original text, the edit list, the target path and the chosen
//! [`OutputMode`]. Exactly one of three modes runs:
//!   - [`OutputMode::DryRun`] (the default) yields the rendered diff between
//!     the original and the proposed text, and asks for no write.
//!   - [`OutputMode::Apply`] yields the proposed text and asks for it to be
//!     written to the path; it is the only mode that ever touches disk, and an
//!     already-failed apply is propagated so nothing is written.
//!   - [`OutputMode::Json`] yields the emitted [`JsonResult`] JSON, renders no
//!     diff and asks for no write, so its `applied` flag is false.
//!
//! The write itself is the caller's part: an [`Output`] carries the text and
//! whether it must be written to the target path.
use vstd::prelude::*;

use crate::json_result::{JsonResult, ResultView, emit_json, result_json};
use crate::parsed_edit::{EditView, ParsedEdit, edits_view};
use crate::render_diff::{render_diff, rendered_diff};
use crate::unified_diff::{compute_unified_diff, unified_diff};
use crate::{ErrorView, Result, text_result};

verus! {

/// The output mode selecting what [`dispatch_output`] does with a result.
#[derive(Debug, PartialEq, Eq, Structural, Clone, Copy)]
pub enum OutputMode {
    /// Show the rendered diff and modify no file (the default).
    DryRun,
    /// Write the proposed text to the target path.
    Apply,
    /// Show the JSON result and render no diff.
    Json,
}

/// What a subcommand hands back: the text to show, and whether that text must
/// be written to the target path.
#[derive(Debug)]
pub struct Output {
    /// The text to show the user (for a write, the text written).
    pub text: String,
    /// Whether `text` is to be written to the target path.
    pub write: bool,
}

/// The mathematical value of an [`Output`].
pub struct OutputView {
    pub text: Seq<char>,
    pub write: bool,
}

impl View for Output {
    type V = OutputView;

    open spec fn view(&self) -> OutputView {
        OutputView { text: self.text@, write: self.write }
    }
}

/// The value of a subcommand's result.
pub open spec fn output_result(r: Result<Output>) -> std::result::Result<OutputView, ErrorView> {
    match r {
        Ok(o) => Ok(o@),
        Err(e) => Err(e@),
    }
}

/// What the chosen mode makes of an applied result (`color` selects a
/// coloured diff).
pub open spec fn dispatched(
    path: Seq<char>,
    original: Seq<char>,
    applied: std::result::Result<Seq<char>, ErrorView>,
    edits: Seq<EditView>,
    mode: OutputMode,
    color: bool,
) -> std::result::Result<OutputView, ErrorView> {
    match applied {
        Err(e) => Err(e),
        Ok(proposed) => match mode {
            OutputMode::DryRun => Ok(
                OutputView {
                    text: rendered_diff(unified_diff(original, proposed), color),
                    write: false,
                },
            ),
            OutputMode::Apply => Ok(OutputView { text: proposed, write: true }),
            OutputMode::Json => Ok(
                OutputView {
                    text: result_json(
                        ResultView { path, original, proposed, edits, applied: false },
                    ),
                    write: false,
                },
            ),
        },
    }
}

/// Route an applied result to the chosen output mode.
///
/// `applied` is the patch engine's outcome: the proposed text on success, or
/// its error, which is propagated unchanged whatever the mode (so a failed
/// patch writes nothing). `DryRun` yields the rendered unified diff between
/// `original` and the proposed text; `Apply` yields the proposed text to be
/// written to `path`; `Json` yields the emitted [`JsonResult`] with `applied`
/// false.
pub fn dispatch_output(
    path: &str,
    original: &str,
    applied: Result<String>,
    edits: Vec<ParsedEdit>,
    mode: OutputMode,
    color: bool,
) -> (r: Result<Output>)
    ensures
        output_result(r) == dispatched(
            path@,
            original@,
            text_result(applied),
            edits_view(edits@),
            mode,
            color,
        ),
{
    let proposed = match applied {
        Ok(p) => p,
        Err(e) => {
            return Err(e);
        },
    };
    match mode {
        OutputMode::DryRun => {
            let diff = compute_unified_diff(original, proposed.as_str());
            Ok(Output { text: render_diff(diff.as_str(), color), write: false })
        },
        OutputMode::Apply => Ok(Output { text: proposed, write: true }),
        OutputMode::Json => {
            let result = JsonResult {
                path: path.to_owned(),
                original: original.to_owned(),
                proposed,
                edits,
                applied: false,
            };
            Ok(Output { text: emit_json(&result), write: false })
        },
    }
}

/// Law: only `Apply` ever asks for a write, and a failed apply is handed on
/// unchanged, so it writes nothing.
pub proof fn law_only_apply_writes(
    path: Seq<char>,
    original: Seq<char>,
    applied: std::result::Result<Seq<char>, ErrorView>,
    edits: Seq<EditView>,
    mode: OutputMode,
    color: bool,
)
    ensures
        dispatched(path, original, applied, edits, mode, color) matches Ok(o) && o.write ==> mode
            == OutputMode::Apply,
        applied matches Err(e) ==> dispatched(path, original, applied, edits, mode, color) == Err::<
            OutputView,
            ErrorView,
        >(e),
{
}

/// Law: the JSON a successful `Json` dispatch shows reads back as the result
/// it describes, with `applied` false.
pub proof fn law_json_output_reads_back(
    path: Seq<char>,
    original: Seq<char>,
    proposed: Seq<char>,
    edits: Seq<EditView>,
    color: bool,
)
    ensures
        dispatched(path, original, Ok(proposed), edits, OutputMode::Json, color) matches Ok(o)
            && crate::json_result::parsed_result(o.text) == Some(
            ResultView { path, original, proposed, edits, applied: false },
        ),
{
    crate::json_result::law_emit_then_parse(
        ResultView { path, original, proposed, edits, applied: false },
    );
}

} // verus!
