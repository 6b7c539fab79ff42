//! Trim a text so its estimated token count stays within a budget.
//!
//! Token count is estimated with a fixed ratio of four characters per token, so
//! a text of `c` characters fits `n` tokens exactly when `c <= 4 * n`. Output is
//! capped at `4 * n` characters; oversize text is trimmed and ends with a visible
//! `...` marker, and a budget of `0` yields the empty string.
use vstd::prelude::*;

use crate::text::{append, chars_of, string_of, subrange};

verus! {

/// The text kept within a budget of `n` tokens: empty for `n == 0`; `text`
/// itself when it has at most `4 * n` characters; otherwise its first
/// `4 * n - 3` characters followed by `...`.
pub open spec fn budgeted(text: Seq<char>, n: nat) -> Seq<char> {
    if n == 0 {
        Seq::empty()
    } else if text.len() <= 4 * n {
        text
    } else {
        text.take(4 * n - 3) + "..."@
    }
}

/// Trim `text` so its estimated token count is at most `n`.
///
/// At a fixed ratio of four characters per token the output is capped at `4 * n`
/// characters. Text that already fits is returned unchanged; text that does not
/// is trimmed to fit and ends with the visible marker `...`. A budget of `0`
/// returns an empty string.
pub fn budget(text: &str, n: usize) -> (r: String)
    ensures
        r@ == budgeted(text@, n as nat),
        r@.len() <= 4 * n,
{
    if n == 0 {
        return String::new();
    }
    let chars = chars_of(text);
    let len = chars.len();
    // `len <= 4 * n`, decided without computing `4 * n`.
    if len / 4 < n || (len / 4 == n && len % 4 == 0) {
        return text.to_owned();
    }
    let keep = n * 4 - 3;
    let mut out = subrange(&chars, 0, keep);
    let marker = chars_of("...");
    proof {
        reveal_strlit("...");
    }
    append(&mut out, &marker);
    string_of(&out)
}

} // verus!
