//! Reading back a computed diff.
//!
//! For texts made of whole `\n`-terminated lines without carriage returns,
//! parsing the unified diff between two texts gives back one search/replace
//! edit whose halves are the old and the new text of one window of lines, the
//! same prefix and suffix surrounding the window in both texts.
use vstd::prelude::*;

use crate::decimal::{decimal, digit_char};
use crate::parsed_edit::EditView;
use crate::text::{
    contains, find_char, join_terminated, lemma_find_char, lemma_find_char_props, lemma_lines_concat,
    lemma_split_concat, lemma_split_first, line_content, lines, occurs_at, split_inclusive, starts_with,
};
use crate::unified_diff::{
    DiffScan, closed_edits, common_prefix_len, common_suffix_len, diff_scan, diff_step, from_end, hunk_header,
    marked_lines, min, unified_diff, unified_diff_edits,
};

verus! {

/// A text made of whole lines: empty or ending with `\n`, with no `\r`.
pub open spec fn plain_text(s: Seq<char>) -> bool {
    &&& (s.len() == 0 || s.last() == '\n')
    &&& forall|i: int| 0 <= i < s.len() ==> s[i] != '\r'
}

/// A line holding neither `\n` nor `\r`.
pub open spec fn clean_line(l: Seq<char>) -> bool {
    forall|i: int| 0 <= i < l.len() ==> l[i] != '\n' && l[i] != '\r'
}

/// The one-character newline separator.
pub open spec fn nl() -> Seq<char> {
    seq!['\n']
}

// ---------------------------------------------------------------------------
// Lines
// ---------------------------------------------------------------------------

/// The lines of one clean line and its terminator.
proof fn lemma_lines_one(l: Seq<char>)
    requires
        clean_line(l),
    ensures
        lines(l + nl()) == seq![l],
{
    let s = l + nl();
    assert forall|j: int| 0 <= j < l.len() implies s[j] != '\n' by {
        assert(s[j] == l[j]);
    }
    lemma_find_char(s, '\n', l.len() as int);
    assert(s.take(l.len() + 1 as int) == s);
    assert(s.skip(l.len() + 1 as int).len() == 0);
    assert(split_inclusive(s.skip(l.len() + 1 as int), '\n') == Seq::<Seq<char>>::empty());
    assert(split_inclusive(s, '\n') =~= seq![s]);
    assert(s.drop_last() == l);
    assert(line_content(s) == l);
    assert(seq![s].map_values(|p: Seq<char>| line_content(p)) =~= seq![l]);
}

/// The lines of a plain text are clean, and joining them back with `\n`
/// terminators gives the text.
proof fn lemma_plain_lines(s: Seq<char>)
    requires
        plain_text(s),
    ensures
        join_terminated(lines(s), nl()) == s,
        forall|i: int| 0 <= i < lines(s).len() ==> clean_line(#[trigger] lines(s)[i]),
    decreases s.len(),
{
    if s.len() == 0 {
        assert(lines(s) =~= Seq::<Seq<char>>::empty());
    } else {
        let k = lemma_split_first(s);
        let rest = s.skip(k + 1);
        if rest.len() > 0 {
            assert(rest.last() == s.last());
        }
        assert forall|i: int| 0 <= i < rest.len() implies rest[i] != '\r' by {
            assert(rest[i] == s[k + 1 + i]);
        }
        lemma_plain_lines(rest);
        let piece = s.take(k + 1);
        assert(piece.drop_last() == s.take(k));
        if k > 0 {
            assert(s.take(k).last() == s[k - 1]);
        }
        assert(line_content(piece) == s.take(k));
        let ps = split_inclusive(s, '\n');
        assert(lines(s) =~= seq![s.take(k)] + lines(rest));
        lemma_join_concat(seq![s.take(k)], lines(rest), nl());
        lemma_join_one(s.take(k), nl());
        assert(s =~= s.take(k) + nl() + rest);
        assert forall|i: int| 0 <= i < lines(s).len() implies clean_line(#[trigger] lines(s)[i]) by {
            if i == 0 {
                assert(lines(s)[0] == s.take(k));
            } else {
                assert(lines(s)[i] == lines(rest)[i - 1]);
            }
        }
    }
}

/// Joining is additive over concatenation.
pub proof fn lemma_join_concat(a: Seq<Seq<char>>, b: Seq<Seq<char>>, sep: Seq<char>)
    ensures
        join_terminated(a + b, sep) == join_terminated(a, sep) + join_terminated(b, sep),
    decreases b.len(),
{
    if b.len() == 0 {
        assert(a + b == a);
        assert(join_terminated(a, sep) + Seq::<char>::empty() == join_terminated(a, sep));
    } else {
        assert((a + b).drop_last() == a + b.drop_last());
        assert((a + b).last() == b.last());
        lemma_join_concat(a, b.drop_last(), sep);
    }
}

/// Joining one piece.
proof fn lemma_join_one(x: Seq<char>, sep: Seq<char>)
    ensures
        join_terminated(seq![x], sep) == x + sep,
{
    let e = Seq::<Seq<char>>::empty();
    assert(seq![x].drop_last() =~= e);
    assert(seq![x].last() == x);
    assert(join_terminated(e, sep) == Seq::<char>::empty());
    assert(Seq::<char>::empty() + x + sep =~= x + sep);
}

// ---------------------------------------------------------------------------
// Reading marked lines
// ---------------------------------------------------------------------------

/// Each line of `ls` with `m` in front.
pub open spec fn mark_all(m: char, ls: Seq<Seq<char>>) -> Seq<Seq<char>> {
    Seq::new(ls.len(), |i: int| seq![m] + ls[i])
}

/// The lines of marked clean lines are the marked lines.
proof fn lemma_lines_marked(m: char, ls: Seq<Seq<char>>)
    requires
        m == ' ' || m == '-' || m == '+',
        forall|i: int| 0 <= i < ls.len() ==> clean_line(#[trigger] ls[i]),
    ensures
        lines(marked_lines(m, ls)) == mark_all(m, ls),
        marked_lines(m, ls).len() == 0 || marked_lines(m, ls).last() == '\n',
    decreases ls.len(),
{
    if ls.len() == 0 {
        assert(lines(Seq::<char>::empty()) =~= Seq::<Seq<char>>::empty());
        assert(mark_all(m, ls) =~= Seq::<Seq<char>>::empty());
    } else {
        let dl = ls.drop_last();
        assert forall|i: int| 0 <= i < dl.len() implies clean_line(#[trigger] dl[i]) by {
            assert(dl[i] == ls[i]);
        }
        lemma_lines_marked(m, dl);
        let l = seq![m] + ls.last();
        assert(clean_line(ls[ls.len() - 1]));
        assert forall|i: int| 0 <= i < l.len() implies l[i] != '\n' && l[i] != '\r' by {
            if i > 0 {
                assert(l[i] == ls.last()[i - 1]);
            }
        }
        lemma_lines_one(l);
        let prev = marked_lines(m, dl);
        assert(marked_lines(m, ls) =~= prev + (l + nl()));
        lemma_lines_concat(prev, l + nl());
        assert(mark_all(m, ls) =~= mark_all(m, dl) + seq![l]);
    }
}

/// The scanner's state after `ls`, starting from `st`.
pub open spec fn diff_from(st: DiffScan, ls: Seq<Seq<char>>) -> DiffScan
    decreases ls.len(),
{
    if ls.len() == 0 {
        st
    } else {
        diff_step(diff_from(st, ls.drop_last()), ls.last())
    }
}

/// The scanner's initial state.
pub open spec fn scan_start() -> DiffScan {
    DiffScan {
        done: Seq::empty(),
        search: Seq::empty(),
        replace: Seq::empty(),
        in_hunk: false,
        failed: false,
    }
}

/// Scanning from the start.
proof fn lemma_scan_from(ls: Seq<Seq<char>>)
    ensures
        diff_scan(ls) == diff_from(scan_start(), ls),
    decreases ls.len(),
{
    if ls.len() > 0 {
        lemma_scan_from(ls.drop_last());
    }
}

/// Scanning a concatenation is scanning its parts in turn.
proof fn lemma_from_concat(st: DiffScan, a: Seq<Seq<char>>, b: Seq<Seq<char>>)
    ensures
        diff_from(st, a + b) == diff_from(diff_from(st, a), b),
    decreases b.len(),
{
    if b.len() == 0 {
        assert(a + b == a);
    } else {
        assert((a + b).drop_last() == a + b.drop_last());
        assert((a + b).last() == b.last());
        lemma_from_concat(st, a, b.drop_last());
    }
}

/// Inside a hunk, marked lines feed the halves their marker names.
proof fn lemma_scan_marked(st: DiffScan, m: char, ls: Seq<Seq<char>>)
    requires
        st.in_hunk,
        !st.failed,
        m == ' ' || m == '-' || m == '+',
    ensures
        diff_from(st, mark_all(m, ls)) == (DiffScan {
            done: st.done,
            search: st.search + if m == '+' {
                Seq::empty()
            } else {
                join_terminated(ls, nl())
            },
            replace: st.replace + if m == '-' {
                Seq::empty()
            } else {
                join_terminated(ls, nl())
            },
            in_hunk: true,
            failed: false,
        }),
    decreases ls.len(),
{
    reveal_strlit("@@");
    reveal_strlit("+");
    reveal_strlit("-");
    reveal_strlit(" ");
    if ls.len() == 0 {
        assert(mark_all(m, ls) =~= Seq::<Seq<char>>::empty());
        assert(join_terminated(ls, nl()) == Seq::<char>::empty());
        assert(st.search + Seq::<char>::empty() == st.search);
        assert(st.replace + Seq::<char>::empty() == st.replace);
    } else {
        let dl = ls.drop_last();
        lemma_scan_marked(st, m, dl);
        assert(mark_all(m, ls).drop_last() =~= mark_all(m, dl));
        let line = seq![m] + ls.last();
        assert(mark_all(m, ls).last() == line);
        assert(line[0] == m);
        assert(line.take(1) =~= seq![m]);
        assert(line.skip(1) =~= ls.last());
        assert(!starts_with(line, "@@"@)) by {
            if line.len() >= 2 {
                assert(line.take(2)[0] == m);
            }
        }
        let j = join_terminated(dl, nl());
        assert(join_terminated(ls, nl()) == j + ls.last() + nl());
        assert(st.search + (j + ls.last() + nl()) =~= st.search + j + ls.last() + seq!['\n']);
        assert(st.replace + (j + ls.last() + nl()) =~= st.replace + j + ls.last() + seq!['\n']);
        assert("+"@ =~= seq!['+']);
        assert("-"@ =~= seq!['-']);
        assert(" "@ =~= seq![' ']);
        let mid = diff_from(st, mark_all(m, dl));
        assert(diff_from(st, mark_all(m, ls)) == diff_step(mid, line));
        if m == '+' {
            assert(starts_with(line, "+"@));
            assert(mid.search == st.search + Seq::<char>::empty());
        } else if m == '-' {
            assert(!starts_with(line, "+"@));
            assert(starts_with(line, "-"@));
            assert(mid.replace == st.replace + Seq::<char>::empty());
        } else {
            assert(!starts_with(line, "+"@));
            assert(!starts_with(line, "-"@));
            assert(starts_with(line, " "@));
        }
    }
}

// ---------------------------------------------------------------------------
// The hunk header
// ---------------------------------------------------------------------------

/// Decimal renderings hold neither `\n` nor `\r`.
proof fn lemma_decimal_clean(n: nat)
    ensures
        clean_line(decimal(n)),
    decreases n,
{
    if n < 10 {
        assert((48 + n) as u8 == 48 + n);
        assert(digit_char(n) as u32 == 48 + n);
        assert(decimal(n) =~= seq![digit_char(n)]);
    } else {
        lemma_decimal_clean(n / 10);
        let d = (n % 10) as nat;
        assert((48 + d) as u8 == 48 + d);
        assert(digit_char(d) as u32 == 48 + d);
        let x = decimal(n);
        assert(x == decimal(n / 10).push(digit_char(d)));
        assert forall|i: int| 0 <= i < x.len() implies x[i] != '\n' && x[i] != '\r' by {
            if i < x.len() - 1 {
                assert(x[i] == decimal(n / 10)[i]);
            }
        }
    }
}

/// The header line without its newline.
pub open spec fn header_line(a: nat, b: nat, c: nat, d: nat) -> Seq<char> {
    "@@ -"@ + decimal(a) + ","@ + decimal(b) + " +"@ + decimal(c) + ","@ + decimal(d) + " @@"@
}

/// Clean lines stay clean when joined.
proof fn lemma_clean_concat(x: Seq<char>, y: Seq<char>)
    requires
        clean_line(x),
        clean_line(y),
    ensures
        clean_line(x + y),
{
    assert forall|i: int| 0 <= i < (x + y).len() implies (x + y)[i] != '\n' && (x + y)[i] != '\r' by {
        if i >= x.len() {
            assert((x + y)[i] == y[i - x.len()]);
        }
    }
}

/// The header is a clean line opening with `@@` and holding ` @@` after that
/// opening, followed by its newline.
proof fn lemma_header(a: nat, b: nat, c: nat, d: nat)
    ensures
        hunk_header(a, b, c, d) == header_line(a, b, c, d) + nl(),
        clean_line(header_line(a, b, c, d)),
        starts_with(header_line(a, b, c, d), "@@"@),
        contains(header_line(a, b, c, d).skip(2), " @@"@),
{
    reveal_strlit("@@ -");
    reveal_strlit(",");
    reveal_strlit(" +");
    reveal_strlit(" @@");
    reveal_strlit(" @@\n");
    reveal_strlit("@@");
    let h = header_line(a, b, c, d);
    assert(" @@\n"@ =~= " @@"@ + nl());
    assert(hunk_header(a, b, c, d) =~= h + nl());
    lemma_decimal_clean(a);
    lemma_decimal_clean(b);
    lemma_decimal_clean(c);
    lemma_decimal_clean(d);
    assert(clean_line("@@ -"@));
    assert(clean_line(","@));
    assert(clean_line(" +"@));
    assert(clean_line(" @@"@));
    let p1 = "@@ -"@ + decimal(a);
    lemma_clean_concat("@@ -"@, decimal(a));
    lemma_clean_concat(p1, ","@);
    lemma_clean_concat(p1 + ","@, decimal(b));
    lemma_clean_concat(p1 + ","@ + decimal(b), " +"@);
    lemma_clean_concat(p1 + ","@ + decimal(b) + " +"@, decimal(c));
    lemma_clean_concat(p1 + ","@ + decimal(b) + " +"@ + decimal(c), ","@);
    lemma_clean_concat(p1 + ","@ + decimal(b) + " +"@ + decimal(c) + ","@, decimal(d));
    let body = p1 + ","@ + decimal(b) + " +"@ + decimal(c) + ","@ + decimal(d);
    lemma_clean_concat(body, " @@"@);
    assert(h == body + " @@"@);
    assert(body.len() >= 4);
    assert(h.take(2) =~= "@@"@) by {
        assert(h[0] == body[0]);
        assert(h[1] == body[1]);
        assert(body[0] == "@@ -"@[0]);
        assert(body[1] == "@@ -"@[1]);
    }
    let t = h.skip(2);
    let i = t.len() - 3;
    assert(t.subrange(i, i + 3) =~= " @@"@) by {
        assert forall|j: int| 0 <= j < 3 implies t.subrange(i, i + 3)[j] == " @@"@[j] by {
            assert(t[i + j] == h[2 + i + j]);
            assert(h[body.len() + j] == " @@"@[j]);
        }
    }
    assert(occurs_at(t, " @@"@, i));
}

// ---------------------------------------------------------------------------
// Reading a hunk
// ---------------------------------------------------------------------------

/// A text ending a line stays so when a text that is empty or ends a line
/// follows it.
proof fn lemma_ends_line(x: Seq<char>, y: Seq<char>)
    requires
        x.len() > 0 && x.last() == '\n',
        y.len() == 0 || y.last() == '\n',
    ensures
        (x + y).len() > 0 && (x + y).last() == '\n',
{
    if y.len() == 0 {
        assert(x + y == x);
    } else {
        assert((x + y).last() == y.last());
    }
}

/// Every line of `ls` is clean.
pub open spec fn all_clean(ls: Seq<Seq<char>>) -> bool {
    forall|i: int| 0 <= i < ls.len() ==> clean_line(#[trigger] ls[i])
}

/// The lines of one hunk: its header line, then its marked lines.
#[verifier::spinoff_prover]
proof fn lemma_hunk_lines(
    a: nat,
    b: nat,
    c: nat,
    d: nat,
    x: Seq<Seq<char>>,
    rm: Seq<Seq<char>>,
    ad: Seq<Seq<char>>,
    y: Seq<Seq<char>>,
)
    requires
        all_clean(x),
        all_clean(rm),
        all_clean(ad),
        all_clean(y),
    ensures
        lines(
            hunk_header(a, b, c, d) + marked_lines(' ', x) + marked_lines('-', rm) + marked_lines(
                '+',
                ad,
            ) + marked_lines(' ', y),
        ) == seq![header_line(a, b, c, d)] + mark_all(' ', x) + mark_all('-', rm) + mark_all(
            '+',
            ad,
        ) + mark_all(' ', y),
{
    let h = header_line(a, b, c, d);
    lemma_header(a, b, c, d);
    lemma_lines_one(h);
    lemma_lines_marked(' ', x);
    lemma_lines_marked('-', rm);
    lemma_lines_marked('+', ad);
    lemma_lines_marked(' ', y);
    let x1 = hunk_header(a, b, c, d);
    let mx = marked_lines(' ', x);
    let mr = marked_lines('-', rm);
    let ma = marked_lines('+', ad);
    let my = marked_lines(' ', y);
    assert(x1.last() == '\n');
    lemma_lines_concat(x1, mx);
    lemma_ends_line(x1, mx);
    lemma_lines_concat(x1 + mx, mr);
    lemma_ends_line(x1 + mx, mr);
    lemma_lines_concat(x1 + mx + mr, ma);
    lemma_ends_line(x1 + mx + mr, ma);
    lemma_lines_concat(x1 + mx + mr + ma, my);
}

/// Scanning the lines of one hunk.
#[verifier::spinoff_prover]
proof fn lemma_hunk_scan(h: Seq<char>, x: Seq<Seq<char>>, rm: Seq<Seq<char>>, ad: Seq<Seq<char>>, y: Seq<Seq<char>>)
    requires
        starts_with(h, "@@"@),
        contains(h.skip(2), " @@"@),
    ensures
        diff_scan(seq![h] + mark_all(' ', x) + mark_all('-', rm) + mark_all('+', ad) + mark_all(' ', y))
            == (DiffScan {
            done: Seq::empty(),
            search: join_terminated(x, nl()) + join_terminated(rm, nl()) + join_terminated(y, nl()),
            replace: join_terminated(x, nl()) + join_terminated(ad, nl()) + join_terminated(y, nl()),
            in_hunk: true,
            failed: false,
        }),
{
    let lx = mark_all(' ', x);
    let lr = mark_all('-', rm);
    let la = mark_all('+', ad);
    let ly = mark_all(' ', y);
    lemma_scan_from(seq![h] + lx + lr + la + ly);
    let st0 = scan_start();
    lemma_from_concat(st0, seq![h] + lx + lr + la, ly);
    lemma_from_concat(st0, seq![h] + lx + lr, la);
    lemma_from_concat(st0, seq![h] + lx, lr);
    lemma_from_concat(st0, seq![h], lx);
    assert(seq![h].drop_last() =~= Seq::<Seq<char>>::empty());
    let st1 = diff_from(st0, seq![h]);
    assert(seq![h].last() == h);
    assert(diff_from(st0, seq![h].drop_last()) == st0);
    assert(st1 == diff_step(st0, h));
    assert(closed_edits(st0) == Seq::<EditView>::empty());
    let e = Seq::<char>::empty();
    assert(st1 == (DiffScan { done: Seq::empty(), search: e, replace: e, in_hunk: true, failed: false }));
    lemma_scan_marked(st1, ' ', x);
    let st2 = diff_from(st1, lx);
    lemma_scan_marked(st2, '-', rm);
    let st3 = diff_from(st2, lr);
    lemma_scan_marked(st3, '+', ad);
    let st4 = diff_from(st3, la);
    lemma_scan_marked(st4, ' ', y);
    let st5 = diff_from(st4, ly);
    let jx = join_terminated(x, nl());
    let jr = join_terminated(rm, nl());
    let ja = join_terminated(ad, nl());
    let jy = join_terminated(y, nl());
    assert(st5.search =~= jx + jr + jy);
    assert(st5.replace =~= jx + ja + jy);
}

/// Parsing one hunk with header numbers `a, b, c, d`, leading context `x`,
/// removed lines `rm`, added lines `ad` and trailing context `y` gives one
/// edit: context and removed lines on the search side, context and added
/// lines on the replace side.
proof fn lemma_read_hunk(
    a: nat,
    b: nat,
    c: nat,
    d: nat,
    x: Seq<Seq<char>>,
    rm: Seq<Seq<char>>,
    ad: Seq<Seq<char>>,
    y: Seq<Seq<char>>,
)
    requires
        all_clean(x),
        all_clean(rm),
        all_clean(ad),
        all_clean(y),
    ensures
        unified_diff_edits(
            hunk_header(a, b, c, d) + marked_lines(' ', x) + marked_lines('-', rm) + marked_lines(
                '+',
                ad,
            ) + marked_lines(' ', y),
        ) == Some(
            seq![
                EditView::SearchReplace {
                    search: join_terminated(x, nl()) + join_terminated(rm, nl()) + join_terminated(
                        y,
                        nl(),
                    ),
                    replace: join_terminated(x, nl()) + join_terminated(ad, nl()) + join_terminated(
                        y,
                        nl(),
                    ),
                },
            ],
        ),
{
    lemma_header(a, b, c, d);
    lemma_hunk_lines(a, b, c, d, x, rm, ad, y);
    lemma_hunk_scan(header_line(a, b, c, d), x, rm, ad, y);
}

// ---------------------------------------------------------------------------
// The law
// ---------------------------------------------------------------------------

/// The lines two sequences share at their start agree.
proof fn lemma_prefix_facts(a: Seq<Seq<char>>, b: Seq<Seq<char>>)
    ensures
        common_prefix_len(a, b) <= a.len(),
        common_prefix_len(a, b) <= b.len(),
        forall|j: int| 0 <= j < common_prefix_len(a, b) ==> a[j] == b[j],
    decreases a.len(),
{
    if a.len() > 0 && b.len() > 0 && a[0] == b[0] {
        lemma_prefix_facts(a.drop_first(), b.drop_first());
        assert forall|j: int| 0 <= j < common_prefix_len(a, b) implies a[j] == b[j] by {
            if j > 0 {
                assert(a[j] == a.drop_first()[j - 1]);
                assert(b[j] == b.drop_first()[j - 1]);
            }
        }
    }
}

/// The lines two sequences share at their end agree.
proof fn lemma_suffix_facts(a: Seq<Seq<char>>, b: Seq<Seq<char>>)
    ensures
        common_suffix_len(a, b) <= a.len(),
        common_suffix_len(a, b) <= b.len(),
        forall|j: int|
            0 <= j < common_suffix_len(a, b) ==> #[trigger] from_end(a, j) == from_end(b, j),
    decreases a.len(),
{
    if a.len() > 0 && b.len() > 0 && a.last() == b.last() {
        lemma_suffix_facts(a.drop_last(), b.drop_last());
        assert forall|j: int|
            0 <= j < common_suffix_len(a, b) implies #[trigger] from_end(a, j) == from_end(b, j) by {
            if j > 0 {
                assert(from_end(a.drop_last(), j - 1) == from_end(b.drop_last(), j - 1));
                assert(from_end(a, j) == from_end(a.drop_last(), j - 1));
                assert(from_end(b, j) == from_end(b.drop_last(), j - 1));
            }
        }
    }
}

/// `old` and `new` are `p + s + q` and `p + t + q`, and the diff between them
/// reads back as the one edit from `s` to `t`.
pub open spec fn reads_back_as(
    old: Seq<char>,
    new: Seq<char>,
    p: Seq<char>,
    s: Seq<char>,
    t: Seq<char>,
    q: Seq<char>,
) -> bool {
    &&& unified_diff_edits(unified_diff(old, new)) == Some(
        seq![EditView::SearchReplace { search: s, replace: t }],
    )
    &&& old == p + s + q
    &&& new == p + t + q
}

/// A sub-range of clean lines is clean.
proof fn lemma_clean_subrange(ls: Seq<Seq<char>>, i: int, j: int)
    requires
        0 <= i <= j <= ls.len(),
        all_clean(ls),
    ensures
        all_clean(ls.subrange(i, j)),
{
    assert forall|k: int| 0 <= k < j - i implies clean_line(#[trigger] ls.subrange(i, j)[k]) by {
        assert(ls.subrange(i, j)[k] == ls[i + k]);
    }
}

/// Joining two line sequences that share everything but one window.
#[verifier::spinoff_prover]
proof fn lemma_join_window(
    o: Seq<Seq<char>>,
    n: Seq<Seq<char>>,
    cs: int,
    start: int,
    oce: int,
    nce: int,
    octx: int,
    nctx: int,
)
    requires
        0 <= cs <= start <= oce <= octx <= o.len(),
        start <= nce <= nctx <= n.len(),
        o.take(cs) == n.take(cs),
        o.subrange(cs, start) == n.subrange(cs, start),
        o.subrange(oce, octx) == n.subrange(nce, nctx),
        o.skip(octx) == n.skip(nctx),
    ensures
        ({
            let sep = nl();
            let p = join_terminated(o.take(cs), sep);
            let q = join_terminated(o.skip(octx), sep);
            let jx = join_terminated(o.subrange(cs, start), sep);
            let jy = join_terminated(o.subrange(oce, octx), sep);
            &&& join_terminated(o, sep) == p + (jx + join_terminated(o.subrange(start, oce), sep) + jy) + q
            &&& join_terminated(n, sep) == p + (jx + join_terminated(n.subrange(start, nce), sep) + jy) + q
        }),
{
    let sep = nl();
    let x = o.subrange(cs, start);
    let rm = o.subrange(start, oce);
    let ad = n.subrange(start, nce);
    let y = o.subrange(oce, octx);
    assert(o =~= o.take(cs) + (x + rm + y) + o.skip(octx));
    lemma_join_concat(o.take(cs) + (x + rm + y), o.skip(octx), sep);
    lemma_join_concat(o.take(cs), x + rm + y, sep);
    lemma_join_concat(x + rm, y, sep);
    lemma_join_concat(x, rm, sep);
    assert(n =~= n.take(cs) + (x + ad + y) + n.skip(nctx));
    lemma_join_concat(n.take(cs) + (x + ad + y), n.skip(nctx), sep);
    lemma_join_concat(n.take(cs), x + ad + y, sep);
    lemma_join_concat(x + ad, y, sep);
    lemma_join_concat(x, ad, sep);
}

/// Law: for two different texts made of whole lines without carriage
/// returns, parsing the unified diff between them gives back one
/// search/replace edit whose halves are the old and the new text of one
/// window of lines, with the same text before and after the window in both.
#[verifier::spinoff_prover]
#[verifier::rlimit(50)]
pub proof fn law_diff_reads_back(old: Seq<char>, new: Seq<char>)
    requires
        old != new,
        plain_text(old),
        plain_text(new),
    ensures
        exists|p: Seq<char>, s: Seq<char>, t: Seq<char>, q: Seq<char>|
            #[trigger] reads_back_as(old, new, p, s, t, q),
{
    let o = lines(old);
    let n = lines(new);
    lemma_plain_lines(old);
    lemma_plain_lines(new);
    let start = common_prefix_len(o, n) as int;
    lemma_prefix_facts(o, n);
    let a2 = o.skip(start);
    let b2 = n.skip(start);
    let suffix = common_suffix_len(a2, b2) as int;
    lemma_suffix_facts(a2, b2);
    let oce = o.len() - suffix;
    let nce = n.len() - suffix;
    let cs = if start >= 3 {
        start - 3
    } else {
        0
    };
    let octx = min(oce + 3, o.len() as int);
    let nctx = min(nce + 3, n.len() as int);
    let x = o.subrange(cs, start);
    let rm = o.subrange(start, oce);
    let ad = n.subrange(start, nce);
    let y = o.subrange(oce, octx);
    lemma_clean_subrange(o, cs, start);
    lemma_clean_subrange(o, start, oce);
    lemma_clean_subrange(n, start, nce);
    lemma_clean_subrange(o, oce, octx);
    let a = (cs + 1) as nat;
    let b = (octx - cs) as nat;
    let d = (nctx - cs) as nat;
    assert(unified_diff(old, new) == hunk_header(a, b, a, d) + marked_lines(' ', x) + marked_lines(
        '-',
        rm,
    ) + marked_lines('+', ad) + marked_lines(' ', y));
    lemma_read_hunk(a, b, a, d, x, rm, ad, y);
    assert(x =~= n.subrange(cs, start));
    assert(y =~= n.subrange(nce, nctx)) by {
        assert forall|i: int| 0 <= i < octx - oce implies y[i] == n[nce + i] by {
            let jj = suffix - 1 - i;
            assert(from_end(a2, jj) == from_end(b2, jj));
            assert(from_end(a2, jj) == o[oce + i]);
            assert(from_end(b2, jj) == n[nce + i]);
        }
    }
    assert(o.take(cs) =~= n.take(cs));
    assert(o.skip(octx) =~= n.skip(nctx)) by {
        assert forall|i: int| 0 <= i < o.len() - octx implies o.skip(octx)[i] == n.skip(nctx)[i] by {
            let jj = o.len() - 1 - octx - i;
            assert(from_end(a2, jj) == from_end(b2, jj));
            assert(from_end(a2, jj) == o[octx + i]);
            assert(from_end(b2, jj) == n[nctx + i]);
        }
    }
    lemma_join_window(o, n, cs, start, oce, nce, octx, nctx);
    let sep = nl();
    let jx = join_terminated(x, sep);
    let jy = join_terminated(y, sep);
    assert(reads_back_as(
        old,
        new,
        join_terminated(o.take(cs), sep),
        jx + join_terminated(rm, sep) + jy,
        jx + join_terminated(ad, sep) + jy,
        join_terminated(o.skip(octx), sep),
    ));
}

} // verus!
