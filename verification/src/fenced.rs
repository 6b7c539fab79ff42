//! Parse triple-backtick fenced code blocks into whole-file edits.
//!
//! [`parse_fenced`] turns a response into one whole-file edit per fenced block,
//! in document order. A line opening or closing a block begins with three
//! backticks; the opening fence's language tag is dropped and the body is the
//! verbatim inner lines, each terminated by a newline. An opening fence with no
//! closing fence is a parse error.
use vstd::prelude::*;

use crate::parsed_edit::{EditView, ParsedEdit, edits_view, lemma_edits_view_push};
use crate::text::{
    chars_of, is_line, join_terminated, lemma_join_prepend, lemma_lines_concat, lemma_lines_joined,
    lemma_lines_unterminated, lemma_take_push, lines, lines_exec, push_line, starts_with,
    starts_with_exec, string_of, vviews,
};
use crate::{MendError, Result};

verus! {

/// The scanner's state after some lines.
pub struct FenceScan {
    pub edits: Seq<EditView>,
    pub body: Seq<char>,
    pub in_block: bool,
}

/// The scanner's state after one more line.
pub open spec fn fence_step(st: FenceScan, line: Seq<char>) -> FenceScan {
    if starts_with(line, "```"@) {
        if st.in_block {
            FenceScan {
                edits: st.edits.push(EditView::WholeFile { body: st.body }),
                body: Seq::empty(),
                in_block: false,
            }
        } else {
            FenceScan { in_block: true, ..st }
        }
    } else if st.in_block {
        FenceScan { body: st.body + line + seq!['\n'], ..st }
    } else {
        st
    }
}

/// The scanner's state after `ls`, line by line.
pub open spec fn fence_scan(ls: Seq<Seq<char>>) -> FenceScan
    decreases ls.len(),
{
    if ls.len() == 0 {
        FenceScan { edits: Seq::empty(), body: Seq::empty(), in_block: false }
    } else {
        fence_step(fence_scan(ls.drop_last()), ls.last())
    }
}

/// The edits of a fenced response, or `None` when a block is never closed.
pub open spec fn fenced_edits(response: Seq<char>) -> Option<Seq<EditView>> {
    let st = fence_scan(lines(response));
    if st.in_block {
        None
    } else {
        Some(st.edits)
    }
}

/// Extract every fenced code block in `response` as a whole-file [`ParsedEdit`].
///
/// Each block becomes one whole-file edit whose body is the text between the
/// opening and closing fence lines, every content line carrying its trailing
/// newline. Blocks are returned in document order. An opening fence that is never
/// closed yields `MendError::Parse`.
pub fn parse_fenced(response: &str) -> (r: Result<Vec<ParsedEdit>>)
    ensures
        match fenced_edits(response@) {
            Some(es) => r matches Ok(v) && edits_view(v@) == es,
            None => r matches Err(MendError::Parse(m)) && m@ == "unterminated fenced code block"@,
        },
{
    let text = chars_of(response);
    let ls = lines_exec(&text);
    let ghost gl = vviews(ls@);
    let fence = chars_of("```");

    let mut edits: Vec<ParsedEdit> = Vec::new();
    let mut body: Vec<char> = Vec::new();
    let mut in_block = false;
    let mut i: usize = 0;
    proof {
        assert(gl.take(0) =~= Seq::<Seq<char>>::empty());
        assert(edits_view(edits@) =~= Seq::<EditView>::empty());
    }
    while i < ls.len()
        invariant
            i <= ls@.len(),
            gl == vviews(ls@),
            gl == lines(response@),
            fence@ == "```"@,
            fence_scan(gl.take(i as int)) == (FenceScan {
                edits: edits_view(edits@),
                body: body@,
                in_block,
            }),
        decreases ls@.len() - i,
    {
        proof {
            lemma_take_push(gl, i as int);
            assert(gl[i as int] == ls@[i as int]@);
        }
        let line = &ls[i];
        if starts_with_exec(line, &fence) {
            if in_block {
                let ghost prev = edits@;
                let e = ParsedEdit::WholeFile { body: string_of(&body) };
                edits.push(e);
                proof {
                    lemma_edits_view_push(prev, e);
                }
                body = Vec::new();
                in_block = false;
            } else {
                in_block = true;
            }
        } else if in_block {
            push_line(&mut body, line);
        }
        i += 1;
    }
    proof {
        assert(gl.take(ls@.len() as int) == gl);
    }
    if in_block {
        return Err(MendError::Parse("unterminated fenced code block".to_owned()));
    }
    Ok(edits)
}

// ---------------------------------------------------------------------------
// Laws
// ---------------------------------------------------------------------------

/// The scanner's state after `ls`, starting from `st`.
pub open spec fn fence_from(st: FenceScan, ls: Seq<Seq<char>>) -> FenceScan
    decreases ls.len(),
{
    if ls.len() == 0 {
        st
    } else {
        fence_step(fence_from(st, ls.drop_last()), ls.last())
    }
}

/// Scanning from the start is scanning from the empty state.
proof fn lemma_fence_scan_from(ls: Seq<Seq<char>>)
    ensures
        fence_scan(ls) == fence_from(
            FenceScan { edits: Seq::empty(), body: Seq::empty(), in_block: false },
            ls,
        ),
    decreases ls.len(),
{
    if ls.len() > 0 {
        lemma_fence_scan_from(ls.drop_last());
    }
}

/// Scanning a concatenation scans its parts in turn.
proof fn lemma_fence_from_concat(st: FenceScan, a: Seq<Seq<char>>, b: Seq<Seq<char>>)
    ensures
        fence_from(st, a + b) == fence_from(fence_from(st, a), b),
    decreases b.len(),
{
    if b.len() == 0 {
        assert(a + b =~= a);
    } else {
        assert((a + b).drop_last() =~= a + b.drop_last());
        assert((a + b).last() == b.last());
        lemma_fence_from_concat(st, a, b.drop_last());
    }
}

/// Inside a block, lines that are not fences are appended verbatim, each with
/// its newline.
proof fn lemma_fence_body_lines(st: FenceScan, ls: Seq<Seq<char>>)
    requires
        st.in_block,
        forall|i: int| 0 <= i < ls.len() ==> !starts_with(#[trigger] ls[i], "```"@),
    ensures
        fence_from(st, ls).in_block,
        fence_from(st, ls).edits == st.edits,
        fence_from(st, ls).body == st.body + join_terminated(ls, seq!['\n']),
    decreases ls.len(),
{
    if ls.len() == 0 {
        assert(st.body + join_terminated(ls, seq!['\n']) =~= st.body);
    } else {
        let init = ls.drop_last();
        assert forall|i: int| 0 <= i < init.len() implies !starts_with(
            #[trigger] init[i],
            "```"@,
        ) by {
            assert(init[i] == ls[i]);
        }
        lemma_fence_body_lines(st, init);
        assert(ls[ls.len() - 1] == ls.last());
        assert(st.body + join_terminated(init, seq!['\n']) + ls.last() + seq!['\n'] =~= st.body
            + join_terminated(ls, seq!['\n']));
    }
}

/// Law: a fenced block reads back verbatim. For a body made of whole lines
/// (blank lines included) none of which starts with three backticks, parsing
/// the body between an opening fence with any one-line language tag and a
/// closing fence gives exactly one whole-file edit holding that body.
pub proof fn law_fenced_round_trip(tag: Seq<char>, bl: Seq<Seq<char>>)
    requires
        is_line(tag),
        forall|i: int|
            0 <= i < bl.len() ==> is_line(#[trigger] bl[i]) && !starts_with(bl[i], "```"@),
    ensures
        fenced_edits("```"@ + tag + "\n"@ + join_terminated(bl, seq!['\n']) + "```"@) == Some(
            seq![EditView::WholeFile { body: join_terminated(bl, seq!['\n']) }],
        ),
{
    reveal_strlit("```");
    reveal_strlit("\n");
    let fence = "```"@;
    let open_l = fence + tag;
    let body = join_terminated(bl, seq!['\n']);
    assert(is_line(open_l)) by {
        assert forall|i: int| 0 <= i < open_l.len() implies open_l[i] != '\n' by {
            if i >= 3 {
                assert(open_l[i] == tag[i - 3]);
            }
        }
        if tag.len() > 0 {
            assert(open_l.last() == tag.last());
        }
    }
    assert(is_line(fence));
    assert(starts_with(open_l, fence)) by {
        assert(open_l.take(3) =~= fence);
    }
    assert(starts_with(fence, fence)) by {
        assert(fence.take(3) =~= fence);
    }
    let hs = seq![open_l] + bl;
    assert forall|i: int| 0 <= i < hs.len() implies is_line(#[trigger] hs[i]) by {
        if i > 0 {
            assert(hs[i] == bl[i - 1]);
        }
    }
    lemma_lines_joined(hs);
    lemma_join_prepend(open_l, bl);
    let a = open_l + seq!['\n'] + body;
    let response = fence + tag + "\n"@ + body + fence;
    assert(response =~= a + fence);
    lemma_lines_concat(a, fence);
    lemma_lines_unterminated(fence);
    assert(lines(response) == hs + seq![fence]);
    let st0 = FenceScan { edits: Seq::empty(), body: Seq::empty(), in_block: false };
    lemma_fence_scan_from(lines(response));
    lemma_fence_from_concat(st0, hs, seq![fence]);
    lemma_fence_from_concat(st0, seq![open_l], bl);
    assert(seq![open_l].drop_last() =~= Seq::<Seq<char>>::empty());
    assert(seq![open_l].last() == open_l);
    assert(fence_from(st0, seq![open_l].drop_last()) == st0);
    let st1 = fence_from(st0, seq![open_l]);
    assert(st1.in_block && st1.body == Seq::<char>::empty());
    assert forall|i: int| 0 <= i < bl.len() implies !starts_with(#[trigger] bl[i], "```"@) by {}
    lemma_fence_body_lines(st1, bl);
    let st2 = fence_from(st1, bl);
    assert(st2.body =~= body);
    assert(seq![fence].drop_last() =~= Seq::<Seq<char>>::empty());
    assert(seq![fence].last() == fence);
    assert(fence_from(st2, seq![fence].drop_last()) == st2);
    let st3 = fence_from(st2, seq![fence]);
    assert(st3.edits =~= seq![EditView::WholeFile { body }]);
}

} // verus!
