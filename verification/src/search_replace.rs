//! Parse targeted search/replace blocks into search/replace edits.
//!
//! [`parse_search_replace`] turns a response into one search/replace edit per
//! `<<<<<<< SEARCH … ======= … >>>>>>> REPLACE` block, in document order. Each
//! content line carries its trailing newline; the three marker lines are
//! excluded. A block whose `>>>>>>> REPLACE` marker arrives before its
//! `=======` divider is a parse error.
use vstd::prelude::*;

use crate::parsed_edit::{EditView, ParsedEdit, edits_view, lemma_edits_view_push};
use crate::text::{
    chars_eq, chars_of, is_line, join_terminated, lemma_join_prepend, lemma_lines_concat, lemma_lines_joined,
    lemma_lines_unterminated, lemma_take_push, lines, lines_exec, push_line, string_of, vviews,
};
use crate::{MendError, Result};

verus! {

/// Where the line scanner is within a block.
pub enum SrMode {
    /// Not inside a block; only a `<<<<<<< SEARCH` marker is significant.
    Outside,
    /// Past the search marker, before the divider: lines are search content.
    Search,
    /// Past the divider, before the replace marker: lines are replace content.
    Replace,
}

/// The scanner's state after some lines.
pub struct SrScan {
    pub edits: Seq<EditView>,
    pub search: Seq<char>,
    pub replace: Seq<char>,
    pub mode: SrMode,
    pub failed: bool,
}

/// The scanner's state before any line.
pub open spec fn sr_start() -> SrScan {
    SrScan {
        edits: Seq::empty(),
        search: Seq::empty(),
        replace: Seq::empty(),
        mode: SrMode::Outside,
        failed: false,
    }
}

/// The scanner's state after one more line.
pub open spec fn sr_step(st: SrScan, line: Seq<char>) -> SrScan {
    if st.failed {
        st
    } else {
        match st.mode {
            SrMode::Outside => if line == "<<<<<<< SEARCH"@ {
                SrScan { mode: SrMode::Search, ..st }
            } else {
                st
            },
            SrMode::Search => if line == "======="@ {
                SrScan { mode: SrMode::Replace, ..st }
            } else if line == ">>>>>>> REPLACE"@ {
                SrScan { failed: true, ..st }
            } else {
                SrScan { search: st.search + line + seq!['\n'], ..st }
            },
            SrMode::Replace => if line == ">>>>>>> REPLACE"@ {
                SrScan {
                    edits: st.edits.push(
                        EditView::SearchReplace { search: st.search, replace: st.replace },
                    ),
                    search: Seq::empty(),
                    replace: Seq::empty(),
                    mode: SrMode::Outside,
                    failed: false,
                }
            } else {
                SrScan { replace: st.replace + line + seq!['\n'], ..st }
            },
        }
    }
}

/// The scanner's state after `ls`, line by line.
pub open spec fn sr_scan(ls: Seq<Seq<char>>) -> SrScan
    decreases ls.len(),
{
    if ls.len() == 0 {
        sr_start()
    } else {
        sr_step(sr_scan(ls.drop_last()), ls.last())
    }
}

/// The edits of a search/replace response, or `None` when a block lacks its
/// divider.
pub open spec fn search_replace_edits(response: Seq<char>) -> Option<Seq<EditView>> {
    let st = sr_scan(lines(response));
    if st.failed {
        None
    } else {
        Some(st.edits)
    }
}

/// Extract every search/replace block in `response` as a [`ParsedEdit`].
///
/// Each `<<<<<<< SEARCH … ======= … >>>>>>> REPLACE` block becomes one
/// search/replace edit, split exactly on the `=======` divider, with the three
/// marker lines excluded and every content line carrying its trailing newline.
/// Blocks are returned in document order. A block whose `>>>>>>> REPLACE` marker
/// arrives before any `=======` divider yields `MendError::Parse`.
pub fn parse_search_replace(response: &str) -> (r: Result<Vec<ParsedEdit>>)
    ensures
        match search_replace_edits(response@) {
            Some(es) => r matches Ok(v) && edits_view(v@) == es,
            None => r matches Err(MendError::Parse(m))
                && m@ == "search/replace block missing ======= divider"@,
        },
{
    let text = chars_of(response);
    let ls = lines_exec(&text);
    let ghost gl = vviews(ls@);
    let search_marker = chars_of("<<<<<<< SEARCH");
    let divider = chars_of("=======");
    let replace_marker = chars_of(">>>>>>> REPLACE");

    let mut edits: Vec<ParsedEdit> = Vec::new();
    let mut search: Vec<char> = Vec::new();
    let mut replace: Vec<char> = Vec::new();
    let mut mode = SrMode::Outside;
    let mut i: usize = 0;
    proof {
        assert(gl.take(0) =~= Seq::<Seq<char>>::empty());
        assert(edits_view(edits@) =~= Seq::<EditView>::empty());
    }
    while i < ls.len()
        invariant
            i <= ls@.len(),
            gl == vviews(ls@),
            gl == lines(response@),
            search_marker@ == "<<<<<<< SEARCH"@,
            divider@ == "======="@,
            replace_marker@ == ">>>>>>> REPLACE"@,
            sr_scan(gl.take(i as int)) == (SrScan {
                edits: edits_view(edits@),
                search: search@,
                replace: replace@,
                mode,
                failed: false,
            }),
        decreases ls@.len() - i,
    {
        proof {
            lemma_take_push(gl, i as int);
            assert(gl[i as int] == ls@[i as int]@);
        }
        let line = &ls[i];
        match mode {
            SrMode::Outside => {
                if chars_eq(line, &search_marker) {
                    mode = SrMode::Search;
                }
            },
            SrMode::Search => {
                if chars_eq(line, &divider) {
                    mode = SrMode::Replace;
                } else if chars_eq(line, &replace_marker) {
                    proof {
                        lemma_sr_failed_persists(gl, i + 1);
                    }
                    return Err(MendError::Parse(string_of(&chars_of("search/replace block missing ======= divider"))));
                } else {
                    push_line(&mut search, line);
                }
            },
            SrMode::Replace => {
                if chars_eq(line, &replace_marker) {
                    let ghost prev = edits@;
                    let e = ParsedEdit::SearchReplace {
                        search: string_of(&search),
                        replace: string_of(&replace),
                    };
                    edits.push(e);
                    proof {
                        lemma_edits_view_push(prev, e);
                    }
                    search = Vec::new();
                    replace = Vec::new();
                    mode = SrMode::Outside;
                } else {
                    push_line(&mut replace, line);
                }
            },
        }
        i += 1;
    }
    proof {
        assert(gl.take(ls@.len() as int) == gl);
    }
    Ok(edits)
}

/// Once the scanner has failed, it stays failed.
pub proof fn lemma_sr_failed_persists(ls: Seq<Seq<char>>, j: int)
    requires
        0 <= j <= ls.len(),
        sr_scan(ls.take(j)).failed,
    ensures
        sr_scan(ls).failed,
    decreases ls.len() - j,
{
    if j == ls.len() {
        assert(ls.take(j) == ls);
    } else {
        lemma_take_push(ls, j);
        lemma_sr_failed_persists(ls, j + 1);
    }
}

// ---------------------------------------------------------------------------
// Laws
// ---------------------------------------------------------------------------

/// The scanner's state after `ls`, starting from `st`.
pub open spec fn sr_from(st: SrScan, ls: Seq<Seq<char>>) -> SrScan
    decreases ls.len(),
{
    if ls.len() == 0 {
        st
    } else {
        sr_step(sr_from(st, ls.drop_last()), ls.last())
    }
}

/// Scanning from the start is scanning from the initial state.
proof fn lemma_sr_scan_from(ls: Seq<Seq<char>>)
    ensures
        sr_scan(ls) == sr_from(sr_start(), ls),
    decreases ls.len(),
{
    if ls.len() > 0 {
        lemma_sr_scan_from(ls.drop_last());
    }
}

/// Scanning a concatenation scans its parts in turn.
proof fn lemma_sr_from_concat(st: SrScan, a: Seq<Seq<char>>, b: Seq<Seq<char>>)
    ensures
        sr_from(st, a + b) == sr_from(sr_from(st, a), b),
    decreases b.len(),
{
    if b.len() == 0 {
        assert(a + b =~= a);
    } else {
        assert((a + b).drop_last() =~= a + b.drop_last());
        assert((a + b).last() == b.last());
        lemma_sr_from_concat(st, a, b.drop_last());
    }
}

/// The newline terminator.
spec fn nl() -> Seq<char> {
    seq!['\n']
}

/// Inside a search half, lines other than the divider and the replace marker
/// are appended verbatim, each with its newline.
proof fn lemma_sr_search_lines(st: SrScan, ls: Seq<Seq<char>>)
    requires
        st.mode is Search,
        !st.failed,
        forall|i: int|
            0 <= i < ls.len() ==> #[trigger] ls[i] != "======="@ && ls[i] != ">>>>>>> REPLACE"@,
    ensures
        sr_from(st, ls).mode is Search,
        !sr_from(st, ls).failed,
        sr_from(st, ls).edits == st.edits,
        sr_from(st, ls).replace == st.replace,
        sr_from(st, ls).search == st.search + join_terminated(ls, nl()),
    decreases ls.len(),
{
    if ls.len() == 0 {
        assert(st.search + join_terminated(ls, nl()) =~= st.search);
    } else {
        let init = ls.drop_last();
        assert forall|i: int| 0 <= i < init.len() implies #[trigger] init[i] != "======="@
            && init[i] != ">>>>>>> REPLACE"@ by {
            assert(init[i] == ls[i]);
        }
        lemma_sr_search_lines(st, init);
        assert(ls[ls.len() - 1] == ls.last());
        assert(st.search + join_terminated(init, nl()) + ls.last() + nl() =~= st.search
            + join_terminated(ls, nl()));
    }
}

/// Inside a replace half, lines other than the replace marker are appended
/// verbatim, each with its newline.
proof fn lemma_sr_replace_lines(st: SrScan, ls: Seq<Seq<char>>)
    requires
        st.mode is Replace,
        !st.failed,
        forall|i: int| 0 <= i < ls.len() ==> #[trigger] ls[i] != ">>>>>>> REPLACE"@,
    ensures
        sr_from(st, ls).mode is Replace,
        !sr_from(st, ls).failed,
        sr_from(st, ls).edits == st.edits,
        sr_from(st, ls).search == st.search,
        sr_from(st, ls).replace == st.replace + join_terminated(ls, nl()),
    decreases ls.len(),
{
    if ls.len() == 0 {
        assert(st.replace + join_terminated(ls, nl()) =~= st.replace);
    } else {
        let init = ls.drop_last();
        assert forall|i: int| 0 <= i < init.len() implies #[trigger] init[i]
            != ">>>>>>> REPLACE"@ by {
            assert(init[i] == ls[i]);
        }
        lemma_sr_replace_lines(st, init);
        assert(ls[ls.len() - 1] == ls.last());
        assert(st.replace + join_terminated(init, nl()) + ls.last() + nl() =~= st.replace
            + join_terminated(ls, nl()));
    }
}

/// Outside a block, lines other than the search marker change nothing.
proof fn lemma_sr_outside_lines(st: SrScan, ls: Seq<Seq<char>>)
    requires
        st.mode is Outside,
        !st.failed,
        forall|i: int| 0 <= i < ls.len() ==> #[trigger] ls[i] != "<<<<<<< SEARCH"@,
    ensures
        sr_from(st, ls) == st,
    decreases ls.len(),
{
    if ls.len() > 0 {
        let init = ls.drop_last();
        assert forall|i: int| 0 <= i < init.len() implies #[trigger] init[i]
            != "<<<<<<< SEARCH"@ by {
            assert(init[i] == ls[i]);
        }
        lemma_sr_outside_lines(st, init);
        assert(ls[ls.len() - 1] == ls.last());
    }
}

/// Law: a block reads back verbatim. For a search half and a replace half made
/// of whole lines (blank lines included), where no search line is the divider
/// or the replace marker and no replace line is the replace marker, parsing
/// the block gives exactly one edit whose halves are those two texts.
pub proof fn law_search_replace_round_trip(sl: Seq<Seq<char>>, tl: Seq<Seq<char>>)
    requires
        forall|i: int|
            0 <= i < sl.len() ==> is_line(#[trigger] sl[i]) && sl[i] != "======="@ && sl[i]
                != ">>>>>>> REPLACE"@,
        forall|i: int|
            0 <= i < tl.len() ==> is_line(#[trigger] tl[i]) && tl[i] != ">>>>>>> REPLACE"@,
    ensures
        search_replace_edits(
            "<<<<<<< SEARCH\n"@ + join_terminated(sl, seq!['\n']) + "=======\n"@
                + join_terminated(tl, seq!['\n']) + ">>>>>>> REPLACE"@,
        ) == Some(
            seq![
                EditView::SearchReplace {
                    search: join_terminated(sl, seq!['\n']),
                    replace: join_terminated(tl, seq!['\n']),
                },
            ],
        ),
{
    reveal_strlit("<<<<<<< SEARCH\n");
    reveal_strlit("<<<<<<< SEARCH");
    reveal_strlit("=======\n");
    reveal_strlit("=======");
    reveal_strlit(">>>>>>> REPLACE");
    let open_m = "<<<<<<< SEARCH"@;
    let div = "======="@;
    let close_m = ">>>>>>> REPLACE"@;
    let s = join_terminated(sl, nl());
    let t = join_terminated(tl, nl());
    assert("<<<<<<< SEARCH\n"@ =~= open_m + nl());
    assert("=======\n"@ =~= div + nl());
    assert(is_line(open_m));
    assert(is_line(div));
    assert(is_line(close_m));
    // The lines of the response.
    let hs = seq![open_m] + sl;
    let ht = seq![div] + tl;
    assert forall|i: int| 0 <= i < hs.len() implies is_line(#[trigger] hs[i]) by {
        if i > 0 {
            assert(hs[i] == sl[i - 1]);
        }
    }
    assert forall|i: int| 0 <= i < ht.len() implies is_line(#[trigger] ht[i]) by {
        if i > 0 {
            assert(ht[i] == tl[i - 1]);
        }
    }
    lemma_join_prepend(open_m, sl);
    lemma_join_prepend(div, tl);
    lemma_lines_joined(hs);
    lemma_lines_joined(ht);
    let a = open_m + nl() + s;
    let b = div + nl() + t;
    let response = "<<<<<<< SEARCH\n"@ + s + "=======\n"@ + t + close_m;
    assert(response =~= a + (b + close_m));
    lemma_lines_concat(a, b + close_m);
    lemma_lines_concat(b, close_m);
    lemma_lines_unterminated(close_m);
    assert(lines(response) == hs + (ht + seq![close_m]));
    // Scanning them.
    lemma_sr_scan_from(lines(response));
    let st0 = sr_start();
    lemma_sr_from_concat(st0, hs, ht + seq![close_m]);
    assert(seq![open_m] + sl == hs);
    lemma_sr_from_concat(st0, seq![open_m], sl);
    assert(seq![open_m].drop_last() =~= Seq::<Seq<char>>::empty());
    assert(seq![open_m].last() == open_m);
    assert(sr_from(st0, seq![open_m].drop_last()) == st0);
    let st1 = sr_from(st0, seq![open_m]);
    assert(st1.mode is Search && !st1.failed);
    assert(st1.search == Seq::<char>::empty());
    lemma_sr_search_lines(st1, sl);
    let st2 = sr_from(st1, sl);
    assert(st2.search =~= s);
    lemma_sr_from_concat(st2, ht, seq![close_m]);
    lemma_sr_from_concat(st2, seq![div], tl);
    assert(seq![div] + tl == ht);
    assert(seq![div].drop_last() =~= Seq::<Seq<char>>::empty());
    assert(seq![div].last() == div);
    assert(sr_from(st2, seq![div].drop_last()) == st2);
    let st3 = sr_from(st2, seq![div]);
    assert(st3.mode is Replace && !st3.failed);
    lemma_sr_replace_lines(st3, tl);
    let st4 = sr_from(st3, tl);
    assert(st4.replace =~= t);
    assert(seq![close_m].drop_last() =~= Seq::<Seq<char>>::empty());
    assert(seq![close_m].last() == close_m);
    assert(sr_from(st4, seq![close_m].drop_last()) == st4);
    let st5 = sr_from(st4, seq![close_m]);
    assert(st5.edits =~= seq![EditView::SearchReplace { search: s, replace: t }]);
}

/// Law: text before the first block is ignored. Prepending whole lines, none
/// of which is the search marker, leaves the parsed edits (or the parse
/// error) unchanged.
pub proof fn law_search_replace_ignores_prose(prose: Seq<char>, response: Seq<char>)
    requires
        prose.len() == 0 || prose.last() == '\n',
        forall|i: int| 0 <= i < lines(prose).len() ==> #[trigger] lines(prose)[i]
            != "<<<<<<< SEARCH"@,
    ensures
        search_replace_edits(prose + response) == search_replace_edits(response),
{
    lemma_lines_concat(prose, response);
    lemma_sr_scan_from(lines(prose + response));
    lemma_sr_scan_from(lines(response));
    lemma_sr_from_concat(sr_start(), lines(prose), lines(response));
    lemma_sr_outside_lines(sr_start(), lines(prose));
}

} // verus!
