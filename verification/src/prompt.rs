//! Assemble the per-subcommand prompts from an assembled context.
//!
//! One pure builder per subcommand: each embeds the context and its own
//! parameter (a target symbol, an edit instruction, an error message, or
//! nothing) in a fixed template.
use vstd::prelude::*;

use crate::text::{append, chars_of, contains, occurs_at, string_of};

verus! {

/// The `explain` prompt: it names the symbol when one is given.
pub open spec fn explain_prompt_text(context: Seq<char>, symbol: Option<Seq<char>>) -> Seq<char> {
    match symbol {
        Some(name) => "Explain the `"@ + name
            + "` symbol, using the following file context.\n\n"@ + context,
        None => "Explain the following file context.\n\n"@ + context,
    }
}

/// The `edit` prompt: the instruction is embedded verbatim.
pub open spec fn edit_prompt_text(context: Seq<char>, instruction: Seq<char>) -> Seq<char> {
    "Apply the following edit instruction, using the file context below.\n\nInstruction: "@
        + instruction + "\n\n"@ + context
}

/// The `fix` prompt: the error message is embedded verbatim.
pub open spec fn fix_prompt_text(context: Seq<char>, error: Seq<char>) -> Seq<char> {
    "Fix the following error, using the file context below.\n\nError: "@ + error + "\n\n"@
        + context
}

/// The `test` prompt: it asks for tests of the public API only.
pub open spec fn test_prompt_text(context: Seq<char>) -> Seq<char> {
    "Write tests for the public API only, using the following file context.\n\n"@ + context
}

/// The concatenation of `a`, `b`, `c` and `d`.
fn concat4(a: &str, b: &str, c: &str, d: &str) -> (r: String)
    ensures
        r@ == a@ + b@ + c@ + d@,
{
    let mut out = chars_of(a);
    append(&mut out, &chars_of(b));
    append(&mut out, &chars_of(c));
    append(&mut out, &chars_of(d));
    string_of(&out)
}

/// Build the prompt for the `explain` subcommand.
///
/// The context is always embedded; a present `symbol` is named, an absent one
/// is handled by omission.
pub fn explain_prompt(context: &str, symbol: Option<&str>) -> (r: String)
    ensures
        r@ == explain_prompt_text(
            context@,
            match symbol {
                Some(s) => Some(s@),
                None => None,
            },
        ),
{
    match symbol {
        Some(name) => concat4(
            "Explain the `",
            name,
            "` symbol, using the following file context.\n\n",
            context,
        ),
        None => {
            let mut out = chars_of("Explain the following file context.\n\n");
            append(&mut out, &chars_of(context));
            string_of(&out)
        },
    }
}

/// Build the prompt for the `edit` subcommand, embedding the instruction
/// verbatim.
pub fn edit_prompt(context: &str, instruction: &str) -> (r: String)
    ensures
        r@ == edit_prompt_text(context@, instruction@),
{
    concat4(
        "Apply the following edit instruction, using the file context below.\n\nInstruction: ",
        instruction,
        "\n\n",
        context,
    )
}

/// Build the prompt for the `fix` subcommand, embedding the error message.
pub fn fix_prompt(context: &str, error: &str) -> (r: String)
    ensures
        r@ == fix_prompt_text(context@, error@),
{
    concat4("Fix the following error, using the file context below.\n\nError: ", error, "\n\n", context)
}

/// Build the prompt for the `test` subcommand, requesting tests for the public
/// API only.
pub fn test_prompt(context: &str) -> (r: String)
    ensures
        r@ == test_prompt_text(context@),
{
    let mut out = chars_of("Write tests for the public API only, using the following file context.\n\n");
    append(&mut out, &chars_of(context));
    string_of(&out)
}

/// Law: the explain prompt always carries the context; with a symbol it also
/// names the symbol, and it differs from the prompt without one.
pub proof fn law_explain_prompt_mentions(context: Seq<char>, name: Seq<char>)
    ensures
        contains(explain_prompt_text(context, Some(name)), context),
        contains(explain_prompt_text(context, Some(name)), name),
        contains(explain_prompt_text(context, None), context),
        explain_prompt_text(context, None).len() > 0,
        explain_prompt_text(context, None) != explain_prompt_text(context, Some(name)),
{
    reveal_strlit("Explain the `");
    reveal_strlit("` symbol, using the following file context.\n\n");
    reveal_strlit("Explain the following file context.\n\n");
    let a = "Explain the `"@;
    let b = "` symbol, using the following file context.\n\n"@;
    let c = "Explain the following file context.\n\n"@;
    let with = a + name + b + context;
    let without = c + context;
    let i: int = a.len() as int;
    let k: int = (a.len() + name.len() + b.len()) as int;
    let m: int = c.len() as int;
    assert(with.subrange(i, i + name.len()) =~= name);
    assert(occurs_at(with, name, i));
    assert(with.subrange(k, k + context.len()) =~= context);
    assert(occurs_at(with, context, k));
    assert(without.subrange(m, m + context.len()) =~= context);
    assert(occurs_at(without, context, m));
    assert(with[12] == '`');
    assert(without[12] == 'f');
}

} // verus!
