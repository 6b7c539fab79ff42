//! Render a unified diff for human reading, optionally with colour.
//!
//! With colour, each line is wrapped in the ANSI escape matching its marker:
//! cyan for a hunk header, red for a removed line, green for an added line;
//! context lines stay verbatim. Without colour the diff is returned unchanged.
//! The styling is additive only: stripping the escapes from a coloured rendering
//! recovers the diff exactly.
use vstd::prelude::*;

use crate::text::{
    append, chars_of, find_char, lemma_find_char, lemma_find_char_props, split_inclusive, split_inclusive_nl, starts_with,
    starts_with_exec, string_of, vviews,
};

verus! {

// ---------------------------------------------------------------------------
// Specifications
// ---------------------------------------------------------------------------

/// The colour escape for a line's content, by its leading marker.
pub open spec fn line_color(content: Seq<char>) -> Option<Seq<char>> {
    if starts_with(content, "@@"@) {
        Some("\x1b[36m"@)
    } else if starts_with(content, "-"@) {
        Some("\x1b[31m"@)
    } else if starts_with(content, "+"@) {
        Some("\x1b[32m"@)
    } else {
        None
    }
}

/// One line (with its newline, if any) rendered in colour: the colour escape
/// and the reset wrap the content, before the newline.
pub open spec fn render_piece(piece: Seq<char>) -> Seq<char> {
    let has_nl = piece.len() > 0 && piece.last() == '\n';
    let content = if has_nl {
        piece.drop_last()
    } else {
        piece
    };
    let nl = if has_nl {
        seq!['\n']
    } else {
        Seq::<char>::empty()
    };
    match line_color(content) {
        Some(code) => code + content + "\x1b[0m"@ + nl,
        None => content + nl,
    }
}

/// A line piece without its trailing newline, if it has one.
pub open spec fn line_body(piece: Seq<char>) -> Seq<char> {
    if piece.len() > 0 && piece.last() == '\n' {
        piece.drop_last()
    } else {
        piece
    }
}

/// `s` holds no newline before its last character.
pub open spec fn newline_only_at_end(s: Seq<char>) -> bool {
    forall|j: int| 0 <= j < s.len() - 1 ==> s[j] != '\n'
}

/// `s` ends with a newline.
pub open spec fn ends_line(s: Seq<char>) -> bool {
    s.len() > 0 && s.last() == '\n'
}

/// How one line is rendered in colour: a line whose content carries no marker
/// is copied unstyled; a marked line becomes its colour escape, its content
/// and the reset, then its newline if it has one. Either way the rendering
/// holds no newline before its last character, and it ends a line exactly
/// when the line did, so every escape sits before the line's newline.
pub open spec fn styled_within_line(piece: Seq<char>) -> bool {
    let body = line_body(piece);
    let r = render_piece(piece);
    &&& match line_color(body) {
        Some(code) => r == code + body + "\x1b[0m"@ + piece.skip(body.len() as int),
        None => r == piece,
    }
    &&& newline_only_at_end(r)
    &&& ends_line(r) == ends_line(piece)
}

/// The rendering of each piece, concatenated.
pub open spec fn render_pieces(ps: Seq<Seq<char>>) -> Seq<char>
    decreases ps.len(),
{
    if ps.len() == 0 {
        Seq::empty()
    } else {
        render_pieces(ps.drop_last()) + render_piece(ps.last())
    }
}

/// The rendered diff: coloured line by line when `color` holds, the diff
/// itself otherwise.
pub open spec fn rendered_diff(diff: Seq<char>, color: bool) -> Seq<char> {
    if color {
        render_pieces(split_inclusive(diff, '\n'))
    } else {
        diff
    }
}

/// `s` with every ANSI escape sequence (from an escape character through the
/// next `m`) removed.
pub open spec fn strip_ansi(s: Seq<char>) -> Seq<char>
    decreases s.len(),
{
    if s.len() == 0 {
        Seq::empty()
    } else if s[0] == '\x1b' {
        let k = find_char(s, 'm');
        if k < s.len() {
            strip_ansi(s.skip(k + 1 as int))
        } else {
            Seq::empty()
        }
    } else {
        seq![s[0]] + strip_ansi(s.drop_first())
    }
}

/// `s` holds no escape character.
pub open spec fn no_escape(s: Seq<char>) -> bool {
    forall|i: int| 0 <= i < s.len() ==> s[i] != '\x1b'
}

/// The concatenation of `ps`.
pub open spec fn concat(ps: Seq<Seq<char>>) -> Seq<char>
    decreases ps.len(),
{
    if ps.len() == 0 {
        Seq::empty()
    } else {
        concat(ps.drop_last()) + ps.last()
    }
}

// ---------------------------------------------------------------------------
// Executable rendering
// ---------------------------------------------------------------------------

/// Render a unified `diff` for display, colouring each line by its marker when
/// `color` is true (stdout is a TTY) and returning it verbatim otherwise.
///
/// With colour, a `@@` hunk header renders cyan, a `-` line red, and a `+` line
/// green; context lines are left unstyled. The colour codes wrap only the line
/// content, before its trailing newline. An empty diff yields the empty string
/// in either mode.
pub fn render_diff(diff: &str, color: bool) -> (r: String)
    ensures
        r@ == rendered_diff(diff@, color),
{
    if !color {
        return diff.to_owned();
    }
    let chars = chars_of(diff);
    let pieces = split_inclusive_nl(&chars);
    let ghost ps = vviews(pieces@);
    let header = chars_of("@@");
    let minus = chars_of("-");
    let plus = chars_of("+");
    let cyan = chars_of("\x1b[36m");
    let red = chars_of("\x1b[31m");
    let green = chars_of("\x1b[32m");
    let reset = chars_of("\x1b[0m");
    let mut out: Vec<char> = Vec::new();
    let mut i: usize = 0;
    proof {
        assert(ps.take(0) =~= Seq::<Seq<char>>::empty());
    }
    while i < pieces.len()
        invariant
            i <= pieces@.len(),
            ps == vviews(pieces@),
            ps == split_inclusive(diff@, '\n'),
            header@ == "@@"@,
            minus@ == "-"@,
            plus@ == "+"@,
            cyan@ == "\x1b[36m"@,
            red@ == "\x1b[31m"@,
            green@ == "\x1b[32m"@,
            reset@ == "\x1b[0m"@,
            out@ == render_pieces(ps.take(i as int)),
        decreases pieces@.len() - i,
    {
        let piece = &pieces[i];
        proof {
            assert(ps[i as int] == piece@);
            assert(ps.take(i + 1).drop_last() == ps.take(i as int));
            assert(ps.take(i + 1).last() == ps[i as int]);
        }
        let n = piece.len();
        let has_nl = n > 0 && piece[n - 1] == '\n';
        let content = if has_nl {
            crate::text::subrange(piece, 0, n - 1)
        } else {
            crate::text::subrange(piece, 0, n)
        };
        proof {
            if has_nl {
                assert(content@ == piece@.drop_last());
            } else {
                assert(content@ == piece@);
            }
        }
        let ghost before = out@;
        if starts_with_exec(&content, &header) {
            append(&mut out, &cyan);
            append(&mut out, &content);
            append(&mut out, &reset);
        } else if starts_with_exec(&content, &minus) {
            append(&mut out, &red);
            append(&mut out, &content);
            append(&mut out, &reset);
        } else if starts_with_exec(&content, &plus) {
            append(&mut out, &green);
            append(&mut out, &content);
            append(&mut out, &reset);
        } else {
            append(&mut out, &content);
        }
        if has_nl {
            out.push('\n');
        }
        proof {
            assert(out@ == before + render_piece(piece@));
        }
        i += 1;
    }
    proof {
        assert(ps.take(pieces@.len() as int) == ps);
    }
    string_of(&out)
}

// ---------------------------------------------------------------------------
// Law: colour is additive only
// ---------------------------------------------------------------------------

/// Text without escapes passes through stripping unchanged.
proof fn lemma_strip_plain_prefix(x: Seq<char>, y: Seq<char>)
    requires
        no_escape(x),
    ensures
        strip_ansi(x + y) == x + strip_ansi(y),
    decreases x.len(),
{
    if x.len() == 0 {
        assert(x + y == y);
    } else {
        assert((x + y)[0] == x[0]);
        assert((x + y).drop_first() == x.drop_first() + y);
        lemma_strip_plain_prefix(x.drop_first(), y);
        assert(x == seq![x[0]] + x.drop_first());
    }
}

/// A complete escape sequence vanishes under stripping.
proof fn lemma_strip_escape(code: Seq<char>, y: Seq<char>)
    requires
        code.len() >= 2,
        code[0] == '\x1b',
        code.last() == 'm',
        forall|j: int| 0 <= j < code.len() - 1 ==> code[j] != 'm',
    ensures
        strip_ansi(code + y) == strip_ansi(y),
{
    let s = code + y;
    lemma_find_char(s, 'm', code.len() - 1);
    assert(s.skip(code.len() as int) == y);
}

/// The colour escapes used by the renderer are complete escape sequences.
proof fn lemma_codes()
    ensures
        "\x1b[36m"@ == seq!['\x1b', '[', '3', '6', 'm'],
        "\x1b[31m"@ == seq!['\x1b', '[', '3', '1', 'm'],
        "\x1b[32m"@ == seq!['\x1b', '[', '3', '2', 'm'],
        "\x1b[0m"@ == seq!['\x1b', '[', '0', 'm'],
{
    reveal_strlit("\x1b[36m");
    reveal_strlit("\x1b[31m");
    reveal_strlit("\x1b[32m");
    reveal_strlit("\x1b[0m");
}

/// Stripping one rendered piece recovers it.
proof fn lemma_strip_piece(p: Seq<char>, y: Seq<char>)
    requires
        no_escape(p),
    ensures
        strip_ansi(render_piece(p) + y) == p + strip_ansi(y),
{
    lemma_codes();
    let has_nl = p.len() > 0 && p.last() == '\n';
    let content = if has_nl {
        p.drop_last()
    } else {
        p
    };
    let nl = if has_nl {
        seq!['\n']
    } else {
        Seq::<char>::empty()
    };
    assert(p == content + nl);
    assert(no_escape(content));
    assert(no_escape(nl));
    let reset = "\x1b[0m"@;
    match line_color(content) {
        Some(code) => {
            assert(render_piece(p) + y == code + (content + (reset + (nl + y))));
            lemma_strip_escape(code, content + (reset + (nl + y)));
            lemma_strip_plain_prefix(content, reset + (nl + y));
            lemma_strip_escape(reset, nl + y);
            lemma_strip_plain_prefix(nl, y);
        },
        None => {
            assert(render_piece(p) + y == content + (nl + y));
            lemma_strip_plain_prefix(content, nl + y);
            lemma_strip_plain_prefix(nl, y);
        },
    }
}

/// Stripping rendered pieces recovers their concatenation.
proof fn lemma_strip_pieces(ps: Seq<Seq<char>>, y: Seq<char>)
    requires
        forall|i: int| 0 <= i < ps.len() ==> no_escape(#[trigger] ps[i]),
    ensures
        strip_ansi(render_pieces(ps) + y) == concat(ps) + strip_ansi(y),
    decreases ps.len(),
{
    if ps.len() == 0 {
        assert(render_pieces(ps) + y == y);
    } else {
        let init = ps.drop_last();
        let p = ps.last();
        assert(no_escape(ps[ps.len() - 1]));
        assert(render_pieces(ps) + y == render_pieces(init) + (render_piece(p) + y));
        lemma_strip_pieces(init, render_piece(p) + y);
        lemma_strip_piece(p, y);
    }
}

/// Splitting keeps every character, and pieces of escape-free text are
/// escape-free.
pub proof fn lemma_split_pieces(s: Seq<char>)
    ensures
        concat(split_inclusive(s, '\n')) == s,
        no_escape(s) ==> forall|i: int|
            0 <= i < split_inclusive(s, '\n').len() ==> no_escape(
                #[trigger] split_inclusive(s, '\n')[i],
            ),
    decreases s.len(),
{
    if s.len() > 0 {
        let k = find_char(s, '\n');
        lemma_find_char_props(s, '\n');
        if k < s.len() {
            let rest = s.skip(k + 1 as int);
            lemma_split_pieces(rest);
            lemma_concat_cons(s.take(k + 1 as int), split_inclusive(rest, '\n'));
            assert(s == s.take(k + 1 as int) + rest);
            if no_escape(s) {
                assert(no_escape(rest));
                assert(no_escape(s.take(k + 1 as int)));
                let pieces = split_inclusive(s, '\n');
                assert forall|i: int| 0 <= i < pieces.len() implies no_escape(#[trigger] pieces[i]) by {
                    if i > 0 {
                        assert(pieces[i] == split_inclusive(rest, '\n')[i - 1]);
                    }
                }
            }
        } else {
            lemma_concat_cons(s, Seq::empty());
            assert(seq![s] + Seq::<Seq<char>>::empty() == seq![s]);
            assert(s + Seq::<char>::empty() == s);
        }
    }
}

/// Concatenating a piece in front.
proof fn lemma_concat_cons(a: Seq<char>, ps: Seq<Seq<char>>)
    ensures
        concat(seq![a] + ps) == a + concat(ps),
    decreases ps.len(),
{
    if ps.len() == 0 {
        assert(seq![a] + ps == seq![a]);
        assert(seq![a].drop_last() =~= Seq::<Seq<char>>::empty());
        assert(concat(seq![a].drop_last()) == Seq::<char>::empty());
        assert(seq![a].last() == a);
        assert(a + Seq::<char>::empty() == a);
        assert(Seq::<char>::empty() + a == a);
    } else {
        assert((seq![a] + ps).drop_last() == seq![a] + ps.drop_last());
        assert((seq![a] + ps).last() == ps.last());
        lemma_concat_cons(a, ps.drop_last());
        assert(a + concat(ps.drop_last()) + ps.last() == a + (concat(ps.drop_last()) + ps.last()));
    }
}

/// Law: colour is additive only. Stripping every ANSI escape from the coloured
/// rendering of an escape-free diff recovers the diff exactly.
pub proof fn law_strip_colored_render(diff: Seq<char>)
    requires
        no_escape(diff),
    ensures
        strip_ansi(rendered_diff(diff, true)) == diff,
{
    let ps = split_inclusive(diff, '\n');
    lemma_split_pieces(diff);
    lemma_strip_pieces(ps, Seq::empty());
    assert(render_pieces(ps) + Seq::<char>::empty() == render_pieces(ps));
    assert(concat(ps) + Seq::<char>::empty() == concat(ps));
}

/// Every piece of a split holds no newline before its last character.
proof fn lemma_pieces_are_lines(s: Seq<char>)
    ensures
        forall|i: int|
            0 <= i < split_inclusive(s, '\n').len() ==> newline_only_at_end(
                #[trigger] split_inclusive(s, '\n')[i],
            ),
    decreases s.len(),
{
    if s.len() > 0 {
        let k = find_char(s, '\n');
        lemma_find_char_props(s, '\n');
        let pieces = split_inclusive(s, '\n');
        if k < s.len() {
            let rest = s.skip(k + 1 as int);
            lemma_pieces_are_lines(rest);
            assert forall|i: int| 0 <= i < pieces.len() implies newline_only_at_end(
                #[trigger] pieces[i],
            ) by {
                if i > 0 {
                    assert(pieces[i] == split_inclusive(rest, '\n')[i - 1]);
                } else {
                    assert(pieces[0] == s.take(k + 1 as int));
                }
            }
        } else {
            assert(pieces == seq![s]);
        }
    }
}

/// A line piece renders within its line.
proof fn lemma_styled_piece(p: Seq<char>)
    requires
        newline_only_at_end(p),
    ensures
        styled_within_line(p),
{
    lemma_codes();
    let body = line_body(p);
    let r = render_piece(p);
    let has_nl = p.len() > 0 && p.last() == '\n';
    let nl = if has_nl {
        seq!['\n']
    } else {
        Seq::<char>::empty()
    };
    assert(p.skip(body.len() as int) =~= nl);
    assert(body + nl =~= p);
    assert(forall|j: int| 0 <= j < body.len() ==> body[j] != '\n');
    let reset = "\x1b[0m"@;
    match line_color(body) {
        Some(code) => {
            assert(r == code + body + reset + nl);
            assert(forall|j: int| 0 <= j < code.len() ==> code[j] != '\n');
            assert(forall|j: int| 0 <= j < reset.len() ==> reset[j] != '\n');
            let x = code + body + reset;
            assert forall|j: int| 0 <= j < x.len() implies x[j] != '\n' by {
                if j < code.len() {
                    assert(x[j] == code[j]);
                } else if j < code.len() + body.len() {
                    assert(x[j] == body[j - code.len()]);
                } else {
                    assert(x[j] == reset[j - code.len() - body.len()]);
                }
            }
            assert(r == x + nl);
            if !has_nl {
                assert(r =~= x);
                assert(r.last() == x[x.len() - 1]);
            } else {
                assert(r.last() == '\n');
            }
        },
        None => {
            assert(r == body + nl);
        },
    }
}

/// Law: colour stays within lines. The coloured rendering is the rendering of
/// each line of the diff in turn; each line keeps its newline at its end, with
/// any colour escape and reset before that newline, and a line without a
/// `@@`, `-` or `+` marker is copied unstyled.
pub proof fn law_render_styles_within_lines(diff: Seq<char>)
    ensures
        rendered_diff(diff, true) == render_pieces(split_inclusive(diff, '\n')),
        concat(split_inclusive(diff, '\n')) == diff,
        forall|i: int|
            0 <= i < split_inclusive(diff, '\n').len() ==> newline_only_at_end(
                #[trigger] split_inclusive(diff, '\n')[i],
            ) && styled_within_line(split_inclusive(diff, '\n')[i]),
{
    lemma_split_pieces(diff);
    lemma_pieces_are_lines(diff);
    let ps = split_inclusive(diff, '\n');
    assert forall|i: int| 0 <= i < ps.len() implies newline_only_at_end(#[trigger] ps[i])
        && styled_within_line(ps[i]) by {
        lemma_styled_piece(ps[i]);
    }
}

} // verus!
