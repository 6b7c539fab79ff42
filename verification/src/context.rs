//! Assemble a file's extracted structure and imports into one budget-bounded
//! context string.
use vstd::prelude::*;

use crate::budget::{budget, budgeted};
use crate::text::{append, chars_of, join_with, lemma_join_with_push, string_of, strings_view};

verus! {

/// The context for `structure` and `imports`: every entry, structure first and
/// in order, joined with `\n`, then kept within `budget_tokens`.
pub open spec fn context_text(
    structure: Seq<Seq<char>>,
    imports: Seq<Seq<char>>,
    budget_tokens: nat,
) -> Seq<char> {
    budgeted(join_with(structure + imports, "\n"@), budget_tokens)
}

/// Combine a file's extracted `structure` and `imports` into one budget-bounded
/// context string.
///
/// The structure signatures and import paths are joined, in order, into a single
/// string with one entry per line, then passed through [`budget`] so the result
/// stays within `budget_tokens` tokens (four characters per token). A budget of
/// `0` yields an empty string.
pub fn assemble_context(structure: &[String], imports: &[String], budget_tokens: usize) -> (r:
    String)
    ensures
        r@ == context_text(strings_view(structure@), strings_view(imports@), budget_tokens as nat),
{
    let ghost sv = strings_view(structure@);
    let ghost iv = strings_view(imports@);
    let mut out: Vec<char> = Vec::new();
    let mut i: usize = 0;
    proof {
        reveal_strlit("\n");
        assert(sv.take(0) =~= Seq::<Seq<char>>::empty());
    }
    while i < structure.len()
        invariant
            sv == strings_view(structure@),
            i <= structure@.len(),
            out@ == join_with(sv.take(i as int), "\n"@),
        decreases structure@.len() - i,
    {
        proof {
            assert(sv.take(i + 1) == sv.take(i as int).push(sv[i as int]));
            lemma_join_with_push(sv.take(i as int), sv[i as int], "\n"@);
            reveal_strlit("\n");
            assert(sv[i as int] == structure@[i as int]@);
        }
        let pc = chars_of(structure[i].as_str());
        if i > 0 {
            out.push('\n');
        }
        append(&mut out, &pc);
        i += 1;
    }
    proof {
        assert(sv.take(structure@.len() as int) == sv);
        assert(sv + iv.take(0) == sv);
    }
    let mut j: usize = 0;
    while j < imports.len()
        invariant
            sv == strings_view(structure@),
            iv == strings_view(imports@),
            j <= imports@.len(),
            out@ == join_with(sv + iv.take(j as int), "\n"@),
        decreases imports@.len() - j,
    {
        proof {
            assert(sv + iv.take(j + 1) == (sv + iv.take(j as int)).push(iv[j as int]));
            lemma_join_with_push(sv + iv.take(j as int), iv[j as int], "\n"@);
            reveal_strlit("\n");
            assert(iv[j as int] == imports@[j as int]@);
            assert((sv + iv.take(j as int)).len() == sv.len() + j);
            assert(sv.len() == structure@.len());
        }
        let pc = chars_of(imports[j].as_str());
        if structure.len() > 0 || j > 0 {
            out.push('\n');
        }
        append(&mut out, &pc);
        j += 1;
    }
    proof {
        assert(iv.take(imports@.len() as int) == iv);
    }
    let combined = string_of(&out);
    budget(combined.as_str(), budget_tokens)
}

} // verus!
