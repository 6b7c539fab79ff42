//! Compute and parse single-file unified diffs.
//!
//! [`compute_unified_diff`] renders the one-hunk `diff -u` body between two
//! texts (an `@@ … @@` header, then lines prefixed by a space, `-` or `+`), with
//! at most three unchanged lines kept on each side of the change.
//! [`parse_unified_diff`] turns each hunk of a diff back into one search/replace
//! edit, in document order.
use vstd::prelude::*;

use crate::decimal::{decimal, decimal_exec};
use crate::parsed_edit::{EditView, ParsedEdit, edits_view, lemma_edits_view_push};
use crate::text::{
    append, chars_eq, chars_of, contains, contains_exec, lemma_take_push, lines, lines_exec,
    push_line, starts_with, starts_with_exec, string_of, subrange, vviews,
};
use crate::{MendError, Result};

verus! {

/// The fixed number of unchanged lines kept on each side of a change.
pub const CONTEXT: usize = 3;

// ---------------------------------------------------------------------------
// Computing a diff
// ---------------------------------------------------------------------------

/// The number of leading lines `a` and `b` share.
pub open spec fn common_prefix_len(a: Seq<Seq<char>>, b: Seq<Seq<char>>) -> nat
    decreases a.len(),
{
    if a.len() > 0 && b.len() > 0 && a[0] == b[0] {
        1 + common_prefix_len(a.drop_first(), b.drop_first())
    } else {
        0
    }
}

/// The number of trailing lines `a` and `b` share.
pub open spec fn common_suffix_len(a: Seq<Seq<char>>, b: Seq<Seq<char>>) -> nat
    decreases a.len(),
{
    if a.len() > 0 && b.len() > 0 && a.last() == b.last() {
        1 + common_suffix_len(a.drop_last(), b.drop_last())
    } else {
        0
    }
}

/// Each line of `ls` prefixed by `marker` and followed by `\n`.
pub open spec fn marked_lines(marker: char, ls: Seq<Seq<char>>) -> Seq<char>
    decreases ls.len(),
{
    if ls.len() == 0 {
        Seq::empty()
    } else {
        marked_lines(marker, ls.drop_last()) + seq![marker] + ls.last() + seq!['\n']
    }
}

/// The hunk header `@@ -a,b +c,d @@` and its newline.
pub open spec fn hunk_header(a: nat, b: nat, c: nat, d: nat) -> Seq<char> {
    "@@ -"@ + decimal(a) + ","@ + decimal(b) + " +"@ + decimal(c) + ","@ + decimal(d) + " @@\n"@
}

/// The smaller of two integers.
pub open spec fn min(a: int, b: int) -> int {
    if a < b {
        a
    } else {
        b
    }
}

/// The unified diff between `old` and `new`: empty for identical texts;
/// otherwise one hunk covering the changed lines between the longest common
/// prefix and suffix of lines, widened by up to `CONTEXT` unchanged lines on
/// each side.
pub open spec fn unified_diff(old: Seq<char>, new: Seq<char>) -> Seq<char> {
    if old == new {
        Seq::empty()
    } else {
        let o = lines(old);
        let n = lines(new);
        let start = common_prefix_len(o, n) as int;
        let suffix = common_suffix_len(o.skip(start), n.skip(start)) as int;
        let old_change_end = o.len() - suffix;
        let new_change_end = n.len() - suffix;
        let ctx_start = if start >= 3 {
            start - 3
        } else {
            0
        };
        let old_ctx_end = min(old_change_end + 3, o.len() as int);
        let new_ctx_end = min(new_change_end + 3, n.len() as int);
        hunk_header(
            (ctx_start + 1) as nat,
            (old_ctx_end - ctx_start) as nat,
            (ctx_start + 1) as nat,
            (new_ctx_end - ctx_start) as nat,
        ) + marked_lines(' ', o.subrange(ctx_start, start)) + marked_lines(
            '-',
            o.subrange(start, old_change_end),
        ) + marked_lines('+', n.subrange(start, new_change_end)) + marked_lines(
            ' ',
            o.subrange(old_change_end, old_ctx_end),
        )
    }
}

/// The `j`-th line of `a` counted from its end.
pub open spec fn from_end(a: Seq<Seq<char>>, j: int) -> Seq<char> {
    a[a.len() - 1 - j]
}

/// The common prefix is the first mismatch.
pub proof fn lemma_common_prefix(a: Seq<Seq<char>>, b: Seq<Seq<char>>, k: int)
    requires
        0 <= k <= a.len(),
        k <= b.len(),
        forall|j: int| 0 <= j < k ==> a[j] == b[j],
        k == a.len() || k == b.len() || a[k] != b[k],
    ensures
        common_prefix_len(a, b) == k,
    decreases k,
{
    if k > 0 {
        lemma_common_prefix(a.drop_first(), b.drop_first(), k - 1);
    }
}

/// The common suffix is the last mismatch.
pub proof fn lemma_common_suffix(a: Seq<Seq<char>>, b: Seq<Seq<char>>, k: int)
    requires
        0 <= k <= a.len(),
        k <= b.len(),
        forall|j: int| 0 <= j < k ==> #[trigger] from_end(a, j) == from_end(b, j),
        k == a.len() || k == b.len() || from_end(a, k) != from_end(b, k),
    ensures
        common_suffix_len(a, b) == k,
    decreases k,
{
    if k > 0 {
        assert(from_end(a, 0) == from_end(b, 0));
        assert(a.last() == from_end(a, 0));
        assert(b.last() == from_end(b, 0));
        let a2 = a.drop_last();
        let b2 = b.drop_last();
        assert forall|j: int| 0 <= j < k - 1 implies #[trigger] from_end(a2, j) == from_end(b2, j) by {
            assert(from_end(a, j + 1) == from_end(b, j + 1));
        }
        if k - 1 < a2.len() && k - 1 < b2.len() {
            assert(from_end(a2, k - 1) == from_end(a, k));
            assert(from_end(b2, k - 1) == from_end(b, k));
        }
        lemma_common_suffix(a2, b2, k - 1);
    }
}

/// Appends the lines `ls[from..to]`, each prefixed by `marker` and followed by
/// `\n`.
fn append_marked(out: &mut Vec<char>, marker: char, ls: &Vec<Vec<char>>, from: usize, to: usize)
    requires
        from <= to <= ls@.len(),
    ensures
        final(out)@ == old(out)@ + marked_lines(marker, vviews(ls@).subrange(from as int, to as int)),
{
    let ghost gl = vviews(ls@);
    let mut j: usize = from;
    proof {
        assert(gl.subrange(from as int, from as int) =~= Seq::<Seq<char>>::empty());
    }
    while j < to
        invariant
            from <= j <= to <= ls@.len(),
            gl == vviews(ls@),
            out@ == old(out)@ + marked_lines(marker, gl.subrange(from as int, j as int)),
        decreases to - j,
    {
        let ghost sub = gl.subrange(from as int, j + 1);
        proof {
            assert(sub.drop_last() == gl.subrange(from as int, j as int));
            assert(sub.last() == ls@[j as int]@);
        }
        out.push(marker);
        append(out, &ls[j]);
        out.push('\n');
        proof {
            assert(out@ == old(out)@ + marked_lines(marker, sub));
        }
        j += 1;
    }
}

/// Compute the single-file unified diff between `old` and `new`.
///
/// The result is the conventional `diff -u` hunk body: an `@@ … @@` header
/// followed by lines each prefixed by a marker (a space for context, `-` for a
/// removed line, `+` for an added line) and carrying its trailing newline, with
/// no file-header lines. Unchanged lines beyond `CONTEXT` on each side of the
/// change are elided. Identical inputs yield the empty string.
#[verifier::spinoff_prover]
#[verifier::rlimit(50)]
pub fn compute_unified_diff(old: &str, new: &str) -> (r: String)
    ensures
        r@ == unified_diff(old@, new@),
{
    let oc = chars_of(old);
    let nc = chars_of(new);
    if chars_eq(&oc, &nc) {
        return String::new();
    }
    let ol = lines_exec(&oc);
    let nl = lines_exec(&nc);
    let ghost o = vviews(ol@);
    let ghost n = vviews(nl@);
    let olen = ol.len();
    let nlen = nl.len();

    let mut start: usize = 0;
    while start < olen && start < nlen && chars_eq(&ol[start], &nl[start])
        invariant
            olen == ol@.len() == o.len(),
            nlen == nl@.len() == n.len(),
            o == vviews(ol@),
            n == vviews(nl@),
            start <= olen,
            start <= nlen,
            forall|j: int| 0 <= j < start ==> o[j] == n[j],
        decreases olen - start,
    {
        proof {
            assert(o[start as int] == ol@[start as int]@);
            assert(n[start as int] == nl@[start as int]@);
        }
        start += 1;
    }
    proof {
        if start < olen && start < nlen {
            assert(o[start as int] == ol@[start as int]@);
            assert(n[start as int] == nl@[start as int]@);
        }
        lemma_common_prefix(o, n, start as int);
    }

    let mut suffix: usize = 0;
    while suffix < olen - start && suffix < nlen - start && chars_eq(
        &ol[olen - 1 - suffix],
        &nl[nlen - 1 - suffix],
    )
        invariant
            olen == ol@.len() == o.len(),
            nlen == nl@.len() == n.len(),
            o == vviews(ol@),
            n == vviews(nl@),
            start <= olen,
            start <= nlen,
            suffix <= olen - start,
            suffix <= nlen - start,
            forall|j: int| 0 <= j < suffix ==> #[trigger] from_end(o, j) == from_end(n, j),
        decreases olen - start - suffix,
    {
        proof {
            assert(o[olen - 1 - suffix] == ol@[olen - 1 - suffix]@);
            assert(n[nlen - 1 - suffix] == nl@[nlen - 1 - suffix]@);
        }
        suffix += 1;
    }
    proof {
        let a = o.skip(start as int);
        let b = n.skip(start as int);
        if suffix < olen - start && suffix < nlen - start {
            assert(o[olen - 1 - suffix] == ol@[olen - 1 - suffix]@);
            assert(n[nlen - 1 - suffix] == nl@[nlen - 1 - suffix]@);
            assert(from_end(a, suffix as int) == from_end(o, suffix as int));
            assert(from_end(b, suffix as int) == from_end(n, suffix as int));
        }
        assert forall|j: int| 0 <= j < suffix implies #[trigger] from_end(a, j) == from_end(b, j) by {
            assert(from_end(a, j) == from_end(o, j));
            assert(from_end(b, j) == from_end(n, j));
        }
        lemma_common_suffix(a, b, suffix as int);
    }

    let old_change_end = olen - suffix;
    let new_change_end = nlen - suffix;
    let ctx_start = if start >= CONTEXT {
        start - CONTEXT
    } else {
        0
    };
    let old_ctx_end = if olen - old_change_end > CONTEXT {
        old_change_end + CONTEXT
    } else {
        olen
    };
    let new_ctx_end = if nlen - new_change_end > CONTEXT {
        new_change_end + CONTEXT
    } else {
        nlen
    };

    let mut out = chars_of("@@ -");
    let d1 = decimal_exec(ctx_start + 1);
    append(&mut out, &d1);
    out.push(',');
    let d2 = decimal_exec(old_ctx_end - ctx_start);
    append(&mut out, &d2);
    let plus = chars_of(" +");
    append(&mut out, &plus);
    append(&mut out, &d1);
    out.push(',');
    let d4 = decimal_exec(new_ctx_end - ctx_start);
    append(&mut out, &d4);
    let close = chars_of(" @@\n");
    append(&mut out, &close);
    proof {
        reveal_strlit(",");
        assert(out@ == hunk_header(
            (ctx_start + 1) as nat,
            (old_ctx_end - ctx_start) as nat,
            (ctx_start + 1) as nat,
            (new_ctx_end - ctx_start) as nat,
        ));
    }
    append_marked(&mut out, ' ', &ol, ctx_start, start);
    append_marked(&mut out, '-', &ol, start, old_change_end);
    append_marked(&mut out, '+', &nl, start, new_change_end);
    append_marked(&mut out, ' ', &ol, old_change_end, old_ctx_end);
    string_of(&out)
}

// ---------------------------------------------------------------------------
// Parsing a diff
// ---------------------------------------------------------------------------

/// The scanner's state after some lines: the edits of the hunks already
/// closed, the two halves of the open hunk, whether a hunk is open, and
/// whether a malformed header was met.
pub struct DiffScan {
    pub done: Seq<EditView>,
    pub search: Seq<char>,
    pub replace: Seq<char>,
    pub in_hunk: bool,
    pub failed: bool,
}

/// The edits of the hunks closed so far, with the open hunk closed too.
pub open spec fn closed_edits(st: DiffScan) -> Seq<EditView> {
    if st.in_hunk {
        st.done.push(EditView::SearchReplace { search: st.search, replace: st.replace })
    } else {
        st.done
    }
}

/// The scanner's state after one more line. A header line (opening with `@@`)
/// must hold ` @@` after its opening; it closes the open hunk and opens a new
/// one. Inside a hunk, a `+` line feeds the replace side, a `-` line the search
/// side, a space line both; anything else, and every line before the first
/// header, is ignored.
pub open spec fn diff_step(st: DiffScan, line: Seq<char>) -> DiffScan {
    if st.failed {
        st
    } else if starts_with(line, "@@"@) {
        if !contains(line.skip(2), " @@"@) {
            DiffScan { failed: true, ..st }
        } else {
            DiffScan {
                done: closed_edits(st),
                search: Seq::empty(),
                replace: Seq::empty(),
                in_hunk: true,
                failed: false,
            }
        }
    } else if !st.in_hunk {
        st
    } else if starts_with(line, "+"@) {
        DiffScan { replace: st.replace + line.skip(1) + seq!['\n'], ..st }
    } else if starts_with(line, "-"@) {
        DiffScan { search: st.search + line.skip(1) + seq!['\n'], ..st }
    } else if starts_with(line, " "@) {
        DiffScan {
            search: st.search + line.skip(1) + seq!['\n'],
            replace: st.replace + line.skip(1) + seq!['\n'],
            ..st
        }
    } else {
        st
    }
}

/// The scanner's state after `ls`, line by line.
pub open spec fn diff_scan(ls: Seq<Seq<char>>) -> DiffScan
    decreases ls.len(),
{
    if ls.len() == 0 {
        DiffScan {
            done: Seq::empty(),
            search: Seq::empty(),
            replace: Seq::empty(),
            in_hunk: false,
            failed: false,
        }
    } else {
        diff_step(diff_scan(ls.drop_last()), ls.last())
    }
}

/// The edits of a unified-diff response: one search/replace edit per hunk,
/// in document order; `None` for a malformed header.
pub open spec fn unified_diff_edits(response: Seq<char>) -> Option<Seq<EditView>> {
    let st = diff_scan(lines(response));
    if st.failed {
        None
    } else {
        Some(closed_edits(st))
    }
}

/// Once the scanner has failed, it stays failed.
pub proof fn lemma_diff_failed_persists(ls: Seq<Seq<char>>, j: int)
    requires
        0 <= j <= ls.len(),
        diff_scan(ls.take(j)).failed,
    ensures
        diff_scan(ls).failed,
    decreases ls.len() - j,
{
    if j == ls.len() {
        assert(ls.take(j) == ls);
    } else {
        lemma_take_push(ls, j);
        lemma_diff_failed_persists(ls, j + 1);
    }
}

/// Extract the single-file unified diff in `response` as [`ParsedEdit`]s.
///
/// Each `@@ … @@` hunk becomes one search/replace edit, in document order:
/// context (leading-space) lines feed both halves, removed (`-`) lines feed
/// the search side, and added (`+`) lines feed the replace side, each content
/// line carrying its trailing newline and its marker stripped. Lines before
/// the first hunk belong to no edit. A header that opens with `@@` but lacks
/// the closing ` @@` delimiter yields `MendError::Parse`.
pub fn parse_unified_diff(response: &str) -> (r: Result<Vec<ParsedEdit>>)
    ensures
        match unified_diff_edits(response@) {
            Some(es) => r matches Ok(v) && edits_view(v@) == es,
            None => r matches Err(MendError::Parse(m))
                && m@ == "malformed hunk header: missing closing ` @@` delimiter"@,
        },
{
    let text = chars_of(response);
    let ls = lines_exec(&text);
    let ghost gl = vviews(ls@);
    let header = chars_of("@@");
    let header_close = chars_of(" @@");
    let plus = chars_of("+");
    let minus = chars_of("-");
    let space = chars_of(" ");

    let mut edits: Vec<ParsedEdit> = Vec::new();
    let mut search: Vec<char> = Vec::new();
    let mut replace: Vec<char> = Vec::new();
    let mut in_hunk = false;
    let mut i: usize = 0;
    proof {
        assert(gl.take(0) =~= Seq::<Seq<char>>::empty());
        assert(edits_view(edits@) =~= Seq::<EditView>::empty());
    }
    while i < ls.len()
        invariant
            i <= ls@.len(),
            gl == vviews(ls@),
            gl == lines(response@),
            header@ == "@@"@,
            header_close@ == " @@"@,
            plus@ == "+"@,
            minus@ == "-"@,
            space@ == " "@,
            diff_scan(gl.take(i as int)) == (DiffScan {
                done: edits_view(edits@),
                search: search@,
                replace: replace@,
                in_hunk,
                failed: false,
            }),
        decreases ls@.len() - i,
    {
        proof {
            lemma_take_push(gl, i as int);
            assert(gl[i as int] == ls@[i as int]@);
            reveal_strlit("@@");
            reveal_strlit("+");
            reveal_strlit("-");
            reveal_strlit(" ");
        }
        let line = &ls[i];
        let n = line.len();
        if starts_with_exec(line, &header) {
            let rest = subrange(line, 2, n);
            if !contains_exec(&rest, &header_close) {
                proof {
                    lemma_diff_failed_persists(gl, i + 1);
                }
                return Err(
                    MendError::Parse(
                        "malformed hunk header: missing closing ` @@` delimiter".to_owned(),
                    ),
                );
            }
            close_hunk(&mut edits, &search, &replace, in_hunk);
            search = Vec::new();
            replace = Vec::new();
            in_hunk = true;
        } else if in_hunk {
            if starts_with_exec(line, &plus) {
                let content = subrange(line, 1, n);
                push_line(&mut replace, &content);
            } else if starts_with_exec(line, &minus) {
                let content = subrange(line, 1, n);
                push_line(&mut search, &content);
            } else if starts_with_exec(line, &space) {
                let content = subrange(line, 1, n);
                push_line(&mut search, &content);
                push_line(&mut replace, &content);
            }
        }
        i += 1;
    }
    proof {
        assert(gl.take(ls@.len() as int) == gl);
    }
    close_hunk(&mut edits, &search, &replace, in_hunk);
    Ok(edits)
}

/// Close the open hunk, if there is one, into a search/replace edit.
fn close_hunk(edits: &mut Vec<ParsedEdit>, search: &Vec<char>, replace: &Vec<char>, in_hunk: bool)
    ensures
        edits_view(final(edits)@) == closed_edits(
            DiffScan {
                done: edits_view(old(edits)@),
                search: search@,
                replace: replace@,
                in_hunk,
                failed: false,
            },
        ),
{
    if in_hunk {
        let e = ParsedEdit::SearchReplace { search: string_of(search), replace: string_of(replace) };
        let ghost prev = edits@;
        edits.push(e);
        proof {
            lemma_edits_view_push(prev, e);
        }
    }
}

} // verus!
