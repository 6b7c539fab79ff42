//! The command line: turning raw process arguments into a typed [`Command`].
//!
//! [`parse`] takes the argument vector *without* the program name and produces
//! exactly one [`Command`], structurally complete for its variant. Argument
//! shapes that match no known subcommand (an unknown subcommand, a missing
//! positional, an unrecognised flag) collapse into [`Command::Usage`], which
//! carries the diagnostic to print before exiting non-zero.
//!
//! The grammar:
//!
//! ```text
//! explain <path> [--symbol <name>]
//! edit    <path> <instruction> [--apply] [--json]
//! fix     <path> [--apply] [--json]
//! test    <path> [--apply] [--json]
//! ```
use vstd::prelude::*;

use crate::text::{chars_of, concat3, starts_with, starts_with_exec, str_is, strings_view};

verus! {

/// The usage text shown whenever parsing fails.
pub const USAGE: &'static str = "usage:\n  mend explain <path> [--symbol <name>]\n  mend edit <path> <instruction> [--apply] [--json]\n  mend fix <path> [--apply] [--json]\n  mend test <path> [--apply] [--json]";

/// A fully parsed command line.
///
/// Each non-`Usage` variant holds every value its execution needs; `Usage` is
/// the single error channel and carries a description of what was wrong. A
/// path is kept as the text given on the command line.
#[derive(Debug, Clone, PartialEq, Eq)]
pub enum Command {
    /// Explain a file, optionally narrowed to a single symbol.
    Explain {
        /// The file to explain.
        path: String,
        /// An optional symbol within the file to focus on.
        symbol: Option<String>,
    },
    /// Edit a file according to a natural-language instruction.
    Edit {
        /// The file to edit.
        path: String,
        /// The instruction describing the desired change.
        instruction: String,
        /// Apply the edit to disk rather than performing a dry run.
        apply: bool,
        /// Emit machine-readable JSON output.
        json: bool,
    },
    /// Fix a defect in a file, optionally described by an error message.
    Fix {
        /// The file to fix.
        path: String,
        /// The error to fix; when absent the defect is inferred from the file.
        error: Option<String>,
        /// Apply the fix to disk rather than performing a dry run.
        apply: bool,
        /// Emit machine-readable JSON output.
        json: bool,
    },
    /// Generate tests for a file's public API.
    Test {
        /// The file whose tests are generated.
        path: String,
        /// Write the generated tests to disk rather than performing a dry run.
        apply: bool,
        /// Emit machine-readable JSON output.
        json: bool,
    },
    /// The arguments did not form a valid command; `message` explains why.
    Usage {
        /// A human-readable description of the argument error.
        message: String,
    },
}

/// The mathematical value of a [`Command`].
pub enum CommandView {
    Explain { path: Seq<char>, symbol: Option<Seq<char>> },
    Edit { path: Seq<char>, instruction: Seq<char>, apply: bool, json: bool },
    Fix { path: Seq<char>, error: Option<Seq<char>>, apply: bool, json: bool },
    Test { path: Seq<char>, apply: bool, json: bool },
    Usage { message: Seq<char> },
}

/// The view of an optional string.
pub open spec fn opt_view(o: Option<String>) -> Option<Seq<char>> {
    match o {
        Some(s) => Some(s@),
        None => None,
    }
}

impl View for Command {
    type V = CommandView;

    open spec fn view(&self) -> CommandView {
        match self {
            Command::Explain { path, symbol } => CommandView::Explain {
                path: path@,
                symbol: opt_view(*symbol),
            },
            Command::Edit { path, instruction, apply, json } => CommandView::Edit {
                path: path@,
                instruction: instruction@,
                apply: *apply,
                json: *json,
            },
            Command::Fix { path, error, apply, json } => CommandView::Fix {
                path: path@,
                error: opt_view(*error),
                apply: *apply,
                json: *json,
            },
            Command::Test { path, apply, json } => CommandView::Test {
                path: path@,
                apply: *apply,
                json: *json,
            },
            Command::Usage { message } => CommandView::Usage { message: message@ },
        }
    }
}

/// Whether a command must leave the disk untouched: every command but an
/// `edit`, `fix` or `test` with `--apply`.
pub open spec fn is_dry_run(c: CommandView) -> bool {
    match c {
        CommandView::Edit { apply, .. } => !apply,
        CommandView::Fix { apply, .. } => !apply,
        CommandView::Test { apply, .. } => !apply,
        CommandView::Explain { .. } => true,
        CommandView::Usage { .. } => true,
    }
}

/// A usage error with the given message.
pub open spec fn usage_of(message: Seq<char>) -> CommandView {
    CommandView::Usage { message }
}

/// Whether an argument has the shape of a flag.
pub open spec fn is_flag(a: Seq<char>) -> bool {
    starts_with(a, "--"@)
}

/// The `explain` grammar read from argument `i` on, with the path and symbol
/// seen so far.
pub open spec fn explain_scan(
    args: Seq<Seq<char>>,
    i: int,
    path: Option<Seq<char>>,
    symbol: Option<Seq<char>>,
) -> CommandView
    decreases args.len() - i,
{
    if i < 0 || i >= args.len() {
        match path {
            Some(p) => CommandView::Explain { path: p, symbol },
            None => usage_of("`explain` requires a <path>"@),
        }
    } else {
        let a = args[i];
        if a == "--symbol"@ {
            if i + 1 < args.len() {
                explain_scan(args, i + 2, path, Some(args[i + 1]))
            } else {
                usage_of("`--symbol` requires a value"@)
            }
        } else if is_flag(a) {
            usage_of("unknown flag `"@ + a + "` for `explain`"@)
        } else if path is Some {
            usage_of("unexpected argument `"@ + a + "` for `explain`"@)
        } else {
            explain_scan(args, i + 1, Some(a), symbol)
        }
    }
}

/// The `edit` grammar read from argument `i` on, with the positionals and
/// flags seen so far.
pub open spec fn edit_scan(
    args: Seq<Seq<char>>,
    i: int,
    path: Option<Seq<char>>,
    instruction: Option<Seq<char>>,
    apply: bool,
    json: bool,
) -> CommandView
    decreases args.len() - i,
{
    if i < 0 || i >= args.len() {
        match (path, instruction) {
            (Some(p), Some(ins)) => CommandView::Edit { path: p, instruction: ins, apply, json },
            (None, _) => usage_of("`edit` requires a <path>"@),
            (Some(_), None) => usage_of("`edit` requires an <instruction>"@),
        }
    } else {
        let a = args[i];
        if a == "--apply"@ {
            edit_scan(args, i + 1, path, instruction, true, json)
        } else if a == "--json"@ {
            edit_scan(args, i + 1, path, instruction, apply, true)
        } else if is_flag(a) {
            usage_of("unknown flag `"@ + a + "` for `edit`"@)
        } else if path is None {
            edit_scan(args, i + 1, Some(a), instruction, apply, json)
        } else if instruction is None {
            edit_scan(args, i + 1, path, Some(a), apply, json)
        } else {
            usage_of("unexpected argument `"@ + a + "` for `edit`"@)
        }
    }
}

/// The grammar `<path> [--apply] [--json]` of subcommand `name`, read from
/// argument `i` on: the path and flags, or the usage message.
pub open spec fn path_flags_scan(
    name: Seq<char>,
    args: Seq<Seq<char>>,
    i: int,
    path: Option<Seq<char>>,
    apply: bool,
    json: bool,
) -> Result<(Seq<char>, bool, bool), Seq<char>>
    decreases args.len() - i,
{
    if i < 0 || i >= args.len() {
        match path {
            Some(p) => Ok((p, apply, json)),
            None => Err("`"@ + name + "` requires a <path>"@),
        }
    } else {
        let a = args[i];
        if a == "--apply"@ {
            path_flags_scan(name, args, i + 1, path, true, json)
        } else if a == "--json"@ {
            path_flags_scan(name, args, i + 1, path, apply, true)
        } else if is_flag(a) {
            Err("unknown flag `"@ + a + "` for `"@ + name + "`"@)
        } else if path is Some {
            Err("unexpected argument `"@ + a + "` for `"@ + name + "`"@)
        } else {
            path_flags_scan(name, args, i + 1, Some(a), apply, json)
        }
    }
}

/// The command an argument vector (without the program name) denotes.
pub open spec fn parse_args(args: Seq<Seq<char>>) -> CommandView {
    if args.len() == 0 {
        usage_of("missing subcommand"@)
    } else if args[0] == "explain"@ {
        explain_scan(args, 1, None, None)
    } else if args[0] == "edit"@ {
        edit_scan(args, 1, None, None, false, false)
    } else if args[0] == "fix"@ {
        match path_flags_scan("fix"@, args, 1, None, false, false) {
            Ok((p, apply, json)) => CommandView::Fix { path: p, error: None, apply, json },
            Err(m) => usage_of(m),
        }
    } else if args[0] == "test"@ {
        match path_flags_scan("test"@, args, 1, None, false, false) {
            Ok((p, apply, json)) => CommandView::Test { path: p, apply, json },
            Err(m) => usage_of(m),
        }
    } else {
        usage_of("unknown subcommand `"@ + args[0] + "`"@)
    }
}

impl Command {
    /// Whether this command is a dry run, i.e. must not write to disk.
    ///
    /// `edit`, `fix` and `test` write only with `--apply`; every other command
    /// is read-only and dry-runs by definition.
    pub fn dry_run(&self) -> (r: bool)
        ensures
            r == is_dry_run(self@),
    {
        match self {
            Command::Edit { apply, .. } => !*apply,
            Command::Fix { apply, .. } => !*apply,
            Command::Test { apply, .. } => !*apply,
            Command::Explain { .. } => true,
            Command::Usage { .. } => true,
        }
    }
}

/// Build a [`Command::Usage`] from a reason.
fn usage(message: String) -> (c: Command)
    ensures
        c@ == usage_of(message@),
{
    Command::Usage { message }
}

/// Whether an argument has the shape of a flag.
fn flag_shaped(a: &String) -> (r: bool)
    ensures
        r == is_flag(a@),
{
    starts_with_exec(&chars_of(a.as_str()), &chars_of("--"))
}

/// Parse argv (already stripped of the program name) into a [`Command`].
///
/// The first argument selects the subcommand; the rest are read in that
/// subcommand's grammar. Any deviation yields [`Command::Usage`] carrying the
/// reason.
pub fn parse(args: &[String]) -> (c: Command)
    ensures
        c@ == parse_args(strings_view(args@)),
{
    let ghost sv = strings_view(args@);
    if args.len() == 0 {
        return usage("missing subcommand".to_owned());
    }
    let sub = &args[0];
    assert(sv[0] == sub@);
    if str_is(sub, "explain") {
        parse_explain(args)
    } else if str_is(sub, "edit") {
        parse_edit(args)
    } else if str_is(sub, "fix") {
        match parse_path_flags(args, "fix") {
            Ok((path, apply, json)) => Command::Fix { path, error: None, apply, json },
            Err(m) => usage(m),
        }
    } else if str_is(sub, "test") {
        match parse_path_flags(args, "test") {
            Ok((path, apply, json)) => Command::Test { path, apply, json },
            Err(m) => usage(m),
        }
    } else {
        usage(concat3("unknown subcommand `", sub.as_str(), "`"))
    }
}

/// Parse the arguments of `explain` (from the second on): one positional
/// `<path>` and an optional `--symbol <name>`.
fn parse_explain(args: &[String]) -> (c: Command)
    requires
        args@.len() >= 1,
    ensures
        c@ == explain_scan(strings_view(args@), 1, None, None),
{
    let ghost sv = strings_view(args@);
    let mut path: Option<String> = None;
    let mut symbol: Option<String> = None;
    let mut i: usize = 1;
    while i < args.len()
        invariant
            1 <= i <= args@.len(),
            sv == strings_view(args@),
            explain_scan(sv, 1, None, None) == explain_scan(sv, i as int, opt_view(path), opt_view(symbol)),
        decreases args@.len() - i,
    {
        let arg = &args[i];
        assert(sv[i as int] == arg@);
        if str_is(arg, "--symbol") {
            if i + 1 < args.len() {
                assert(sv[i + 1] == args@[i + 1]@);
                symbol = Some(args[i + 1].clone());
                i += 2;
            } else {
                return usage("`--symbol` requires a value".to_owned());
            }
        } else if flag_shaped(arg) {
            return usage(concat3("unknown flag `", arg.as_str(), "` for `explain`"));
        } else if path.is_some() {
            return usage(concat3("unexpected argument `", arg.as_str(), "` for `explain`"));
        } else {
            path = Some(arg.clone());
            i += 1;
        }
    }
    match path {
        Some(p) => Command::Explain { path: p, symbol },
        None => usage("`explain` requires a <path>".to_owned()),
    }
}

/// Parse the arguments of `edit` (from the second on): positional `<path>` and
/// `<instruction>`, plus the flags `--apply` and `--json`.
fn parse_edit(args: &[String]) -> (c: Command)
    requires
        args@.len() >= 1,
    ensures
        c@ == edit_scan(strings_view(args@), 1, None, None, false, false),
{
    let ghost sv = strings_view(args@);
    let mut path: Option<String> = None;
    let mut instruction: Option<String> = None;
    let mut apply = false;
    let mut json = false;
    let mut i: usize = 1;
    while i < args.len()
        invariant
            1 <= i <= args@.len(),
            sv == strings_view(args@),
            edit_scan(sv, 1, None, None, false, false) == edit_scan(
                sv,
                i as int,
                opt_view(path),
                opt_view(instruction),
                apply,
                json,
            ),
        decreases args@.len() - i,
    {
        let arg = &args[i];
        assert(sv[i as int] == arg@);
        if str_is(arg, "--apply") {
            apply = true;
        } else if str_is(arg, "--json") {
            json = true;
        } else if flag_shaped(arg) {
            return usage(concat3("unknown flag `", arg.as_str(), "` for `edit`"));
        } else if path.is_none() {
            path = Some(arg.clone());
        } else if instruction.is_none() {
            instruction = Some(arg.clone());
        } else {
            return usage(concat3("unexpected argument `", arg.as_str(), "` for `edit`"));
        }
        i += 1;
    }
    match (path, instruction) {
        (Some(p), Some(ins)) => Command::Edit { path: p, instruction: ins, apply, json },
        (None, _) => usage("`edit` requires a <path>".to_owned()),
        (Some(_), None) => usage("`edit` requires an <instruction>".to_owned()),
    }
}

/// `a`, then `b`, then `c`, then `d`, then `e`.
fn concat5(a: &str, b: &str, c: &str, d: &str, e: &str) -> (r: String)
    ensures
        r@ == a@ + b@ + c@ + d@ + e@,
{
    let first = concat3(a, b, c);
    concat3(first.as_str(), d, e)
}

/// Parse the arguments (from the second on) of a subcommand `name` whose
/// grammar is `<path> [--apply] [--json]`.
fn parse_path_flags(args: &[String], name: &str) -> (r: std::result::Result<
    (String, bool, bool),
    String,
>)
    requires
        args@.len() >= 1,
    ensures
        match (r, path_flags_scan(name@, strings_view(args@), 1, None, false, false)) {
            (Ok((p, a, j)), Ok((sp, sa, sj))) => p@ == sp && a == sa && j == sj,
            (Err(m), Err(sm)) => m@ == sm,
            _ => false,
        },
{
    let ghost sv = strings_view(args@);
    let mut path: Option<String> = None;
    let mut apply = false;
    let mut json = false;
    let mut i: usize = 1;
    while i < args.len()
        invariant
            1 <= i <= args@.len(),
            sv == strings_view(args@),
            path_flags_scan(name@, sv, 1, None, false, false) == path_flags_scan(
                name@,
                sv,
                i as int,
                opt_view(path),
                apply,
                json,
            ),
        decreases args@.len() - i,
    {
        let arg = &args[i];
        assert(sv[i as int] == arg@);
        if str_is(arg, "--apply") {
            apply = true;
        } else if str_is(arg, "--json") {
            json = true;
        } else if flag_shaped(arg) {
            return Err(concat5("unknown flag `", arg.as_str(), "` for `", name, "`"));
        } else if path.is_some() {
            return Err(concat5("unexpected argument `", arg.as_str(), "` for `", name, "`"));
        } else {
            path = Some(arg.clone());
        }
        i += 1;
    }
    match path {
        Some(p) => Ok((p, apply, json)),
        None => Err(concat3("`", name, "` requires a <path>")),
    }
}

} // verus!
