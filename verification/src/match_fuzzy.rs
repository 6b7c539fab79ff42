//! Whitespace-tolerant location of an edit's search text in the source.
//!
//! Both texts are cut into lines (each keeping its terminator) and every line
//! is compared after trimming surrounding whitespace. Every window of source
//! lines as long as the search text is scored by how many of its lines equal
//! the corresponding search lines; [`best_window`] finds the best-scoring
//! window (the last one among equals) with its byte range in the source, and
//! [`clears_threshold`] decides whether its score reaches two thirds of the
//! search lines.
use vstd::prelude::*;

use crate::match_exact::{lemma_utf8_len_concat, lemma_utf8_len_encoding, utf8_len};
use crate::render_diff::{concat, lemma_split_pieces};
use crate::text::{chars_eq, chars_of, split_inclusive, split_inclusive_nl, trim, trim_exec, vviews};

verus! {

/// The trimmed lines of a text: its `split_inclusive('\n')` pieces, each
/// without surrounding whitespace.
pub open spec fn trimmed_lines(s: Seq<char>) -> Seq<Seq<char>> {
    split_inclusive(s, '\n').map_values(|p: Seq<char>| trim(p))
}

/// The byte offset at which piece `k` of `ps` starts in their concatenation.
pub open spec fn piece_start(ps: Seq<Seq<char>>, k: int) -> nat {
    utf8_len(concat(ps.take(k)))
}

/// How many of the first `k` lines of the window starting at source line `w`
/// equal the corresponding search lines.
pub open spec fn window_score(st: Seq<Seq<char>>, qt: Seq<Seq<char>>, w: int, k: int) -> nat
    decreases k,
{
    if k <= 0 {
        0
    } else {
        window_score(st, qt, w, k - 1) + if st[w + k - 1] == qt[k - 1] {
            1nat
        } else {
            0nat
        }
    }
}

/// Among the first `count` windows, the one with the highest score; the last
/// of several equal ones.
pub open spec fn best_index(st: Seq<Seq<char>>, qt: Seq<Seq<char>>, count: int) -> int
    decreases count,
{
    if count <= 1 {
        0
    } else {
        let b = best_index(st, qt, count - 1);
        if window_score(st, qt, count - 1, qt.len() as int) >= window_score(
            st,
            qt,
            b,
            qt.len() as int,
        ) {
            count - 1
        } else {
            b
        }
    }
}

/// The best-aligned window of source lines for a search text.
#[derive(Debug)]
pub struct FuzzyWindow {
    /// How many of its lines equal the search lines after trimming.
    pub matches: usize,
    /// The number of search lines (and so of window lines).
    pub lines: usize,
    /// The byte offset where the window starts in the source.
    pub start: usize,
    /// The byte offset just past the window's last line (its terminator
    /// included).
    pub end: usize,
}

/// Concatenation splits over a split of the pieces.
proof fn lemma_concat_add(a: Seq<Seq<char>>, b: Seq<Seq<char>>)
    ensures
        concat(a + b) == concat(a) + concat(b),
    decreases b.len(),
{
    if b.len() == 0 {
        assert(a + b == a);
        assert(concat(a) + Seq::<char>::empty() == concat(a));
    } else {
        assert((a + b).drop_last() == a + b.drop_last());
        assert((a + b).last() == b.last());
        lemma_concat_add(a, b.drop_last());
    }
}

/// Piece starts grow with the piece's length and stay within the text.
proof fn lemma_piece_start(ps: Seq<Seq<char>>, k: int)
    requires
        0 <= k < ps.len(),
    ensures
        piece_start(ps, k + 1) == piece_start(ps, k) + utf8_len(ps[k]),
        piece_start(ps, k + 1) <= utf8_len(concat(ps)),
{
    assert(ps.take(k + 1).drop_last() == ps.take(k));
    assert(ps.take(k + 1).last() == ps[k]);
    lemma_utf8_len_concat(concat(ps.take(k)), ps[k]);
    assert(ps == ps.take(k + 1) + ps.skip(k + 1));
    lemma_concat_add(ps.take(k + 1), ps.skip(k + 1));
    lemma_utf8_len_concat(concat(ps.take(k + 1)), concat(ps.skip(k + 1)));
}

/// The trimmed pieces of a text.
fn line_trims(pieces: &Vec<Vec<char>>) -> (r: Vec<Vec<char>>)
    ensures
        vviews(r@) == vviews(pieces@).map_values(|p: Seq<char>| trim(p)),
{
    let mut out: Vec<Vec<char>> = Vec::new();
    let mut i: usize = 0;
    while i < pieces.len()
        invariant
            i <= pieces@.len(),
            vviews(out@) =~= vviews(pieces@).take(i as int).map_values(|p: Seq<char>| trim(p)),
        decreases pieces@.len() - i,
    {
        let t = trim_exec(&pieces[i]);
        let ghost prev = out@;
        out.push(t);
        proof {
            crate::text::lemma_vviews_push(prev, t);
            assert(vviews(pieces@)[i as int] == pieces@[i as int]@);
            assert(vviews(pieces@).take(i + 1).map_values(|p: Seq<char>| trim(p)) =~= vviews(
                pieces@,
            ).take(i as int).map_values(|p: Seq<char>| trim(p)).push(trim(pieces@[i as int]@)));
        }
        i += 1;
    }
    proof {
        assert(vviews(pieces@).take(pieces@.len() as int) == vviews(pieces@));
    }
    out
}

/// The score of the window starting at source line `w`.
fn score(st: &Vec<Vec<char>>, qt: &Vec<Vec<char>>, w: usize) -> (r: usize)
    requires
        w + qt@.len() <= st@.len(),
    ensures
        r == window_score(vviews(st@), vviews(qt@), w as int, qt@.len() as int),
{
    let n = qt.len();
    let sl = st.len();
    let mut k: usize = 0;
    let mut count: usize = 0;
    while k < n
        invariant
            k <= n == qt@.len(),
            sl == st@.len(),
            w + qt@.len() <= st@.len(),
            count == window_score(vviews(st@), vviews(qt@), w as int, k as int),
            count <= k,
        decreases n - k,
    {
        assert(w + k < sl);
        assert(vviews(st@)[w + k] == st@[w + k]@);
        assert(vviews(qt@)[k as int] == qt@[k as int]@);
        if chars_eq(&st[w + k], &qt[k]) {
            count += 1;
        }
        k += 1;
    }
    count
}

/// Find the best-aligned window of `source` lines for `search`.
///
/// Returns `None` when `search` has no lines or `source` has fewer lines than
/// `search`; otherwise the highest-scoring window (the last among equals),
/// with its score and byte range.
pub fn best_window(source: &str, search: &str) -> (r: Option<FuzzyWindow>)
    ensures
        ({
            let ps = split_inclusive(source@, '\n');
            let st = trimmed_lines(source@);
            let qt = trimmed_lines(search@);
            let n = qt.len() as int;
            match r {
                None => n == 0 || st.len() < n,
                Some(win) => {
                    let b = best_index(st, qt, st.len() - n + 1);
                    &&& n > 0 && st.len() >= n
                    &&& win.lines == n
                    &&& win.matches == window_score(st, qt, b, n)
                    &&& win.start == piece_start(ps, b)
                    &&& win.end == piece_start(ps, b + n)
                }
            }
        }),
{
    let src = chars_of(source);
    let pieces = split_inclusive_nl(&src);
    let st = line_trims(&pieces);
    let qt = line_trims(&split_inclusive_nl(&chars_of(search)));
    let ghost ps = split_inclusive(source@, '\n');
    let ghost stv = trimmed_lines(source@);
    let ghost qtv = trimmed_lines(search@);
    assert(vviews(st@) == stv);
    assert(vviews(qt@) == qtv);
    let n = qt.len();
    let m = st.len();
    if n == 0 || m < n {
        return None;
    }
    // Byte offsets of the piece starts, and of the end of the last piece.
    let total = source.as_bytes().len();
    proof {
        lemma_utf8_len_encoding(source@);
        lemma_split_pieces(source@);
    }
    let mut starts: Vec<usize> = Vec::new();
    let mut b: usize = 0;
    let mut k: usize = 0;
    proof {
        assert(ps.take(0) =~= Seq::<Seq<char>>::empty());
    }
    while k < pieces.len()
        invariant
            k <= pieces@.len(),
            vviews(pieces@) == ps,
            ps == split_inclusive(source@, '\n'),
            concat(ps) == source@,
            total == utf8_len(source@),
            b == piece_start(ps, k as int),
            starts@.len() == k,
            forall|j: int| 0 <= j < k ==> starts@[j] == piece_start(ps, j),
        decreases pieces@.len() - k,
    {
        proof {
            lemma_piece_start(ps, k as int);
            assert(ps[k as int] == pieces@[k as int]@);
            lemma_utf8_len_encoding(pieces@[k as int]@);
        }
        starts.push(b);
        let len = crate::text::string_of(&pieces[k]).as_str().as_bytes().len();
        b = b + len;
        k += 1;
    }
    starts.push(b);
    // The best window: the last of the highest-scoring ones.
    let count = m - n + 1;
    let mut best: usize = 0;
    let mut best_score = score(&st, &qt, 0);
    let mut w: usize = 1;
    while w < count
        invariant
            1 <= w <= count,
            count == m - n + 1,
            m == st@.len() == stv.len(),
            n == qt@.len() == qtv.len(),
            n > 0,
            vviews(st@) == stv,
            vviews(qt@) == qtv,
            best == best_index(stv, qtv, w as int),
            best < w,
            best_score == window_score(stv, qtv, best as int, n as int),
        decreases count - w,
    {
        let s = score(&st, &qt, w);
        if s >= best_score {
            best = w;
            best_score = s;
        }
        w += 1;
    }
    assert(stv.len() == ps.len());
    Some(FuzzyWindow { matches: best_score, lines: n, start: starts[best], end: starts[best + n] })
}

/// Whether a window's score reaches the acceptance threshold: at least two
/// thirds of its lines match.
pub open spec fn meets_threshold(matches: nat, lines: nat) -> bool {
    3 * matches >= 2 * lines
}

/// Whether `w` clears the acceptance threshold (`matches / lines >= 2/3`),
/// decided on integers.
pub fn clears_threshold(w: &FuzzyWindow) -> (r: bool)
    ensures
        r == meets_threshold(w.matches as nat, w.lines as nat),
{
    (w.matches as u128) * 3 >= (w.lines as u128) * 2
}

} // verus!
