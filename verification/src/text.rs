//! Character-level text primitives shared by every parser and renderer.
//!
//! Text is handled as a sequence of `char`s. The spec functions here state what
//! std's `str::split_inclusive`, `str::lines`, `str::trim` and friends compute;
//! the executable functions compute them over `Vec<char>` and are proved to agree.
use vstd::prelude::*;

verus! {

// ---------------------------------------------------------------------------
// Specifications
// ---------------------------------------------------------------------------

/// The views of a sequence of character vectors.
pub open spec fn vviews(v: Seq<Vec<char>>) -> Seq<Seq<char>> {
    v.map_values(|x: Vec<char>| x@)
}

/// The views of a sequence of strings.
pub open spec fn strings_view(v: Seq<String>) -> Seq<Seq<char>> {
    v.map_values(|x: String| x@)
}

/// Index of the first `c` in `s`, or `s.len()` when `c` does not occur.
pub open spec fn find_char(s: Seq<char>, c: char) -> nat
    decreases s.len(),
{
    if s.len() == 0 {
        0
    } else if s[0] == c {
        0
    } else {
        1 + find_char(s.drop_first(), c)
    }
}

/// `str::split_inclusive(c)`: the pieces of `s`, each ending just after an
/// occurrence of `c`, plus a final piece without `c` when it is non-empty.
pub open spec fn split_inclusive(s: Seq<char>, c: char) -> Seq<Seq<char>>
    decreases s.len(),
{
    if s.len() == 0 {
        Seq::empty()
    } else {
        let k = find_char(s, c);
        if k < s.len() {
            seq![s.take(k + 1 as int)] + split_inclusive(s.skip(k + 1 as int), c)
        } else {
            seq![s]
        }
    }
}

/// A piece of `split_inclusive(.., '\n')` without its line terminator: a final
/// `\n` is dropped, and then a `\r` just before it.
pub open spec fn line_content(piece: Seq<char>) -> Seq<char> {
    if piece.len() > 0 && piece.last() == '\n' {
        let p = piece.drop_last();
        if p.len() > 0 && p.last() == '\r' {
            p.drop_last()
        } else {
            p
        }
    } else {
        piece
    }
}

/// `str::lines`: the lines of `s`, without their terminators.
pub open spec fn lines(s: Seq<char>) -> Seq<Seq<char>> {
    split_inclusive(s, '\n').map_values(|p: Seq<char>| line_content(p))
}

/// `char::is_whitespace`: the Unicode `White_Space` property.
pub open spec fn is_ws(c: char) -> bool {
    ||| c == '\t'
    ||| c == '\n'
    ||| c == '\x0B'
    ||| c == '\x0C'
    ||| c == '\r'
    ||| c == ' '
    ||| c == '\u{85}'
    ||| c == '\u{A0}'
    ||| c == '\u{1680}'
    ||| ('\u{2000}' <= c && c <= '\u{200A}')
    ||| c == '\u{2028}'
    ||| c == '\u{2029}'
    ||| c == '\u{202F}'
    ||| c == '\u{205F}'
    ||| c == '\u{3000}'
}

/// `str::trim_start`: `s` without its leading whitespace.
pub open spec fn trim_start(s: Seq<char>) -> Seq<char>
    decreases s.len(),
{
    if s.len() > 0 && is_ws(s[0]) {
        trim_start(s.drop_first())
    } else {
        s
    }
}

/// `str::trim_end`: `s` without its trailing whitespace.
pub open spec fn trim_end(s: Seq<char>) -> Seq<char>
    decreases s.len(),
{
    if s.len() > 0 && is_ws(s.last()) {
        trim_end(s.drop_last())
    } else {
        s
    }
}

/// `str::trim`: `s` without leading and trailing whitespace.
pub open spec fn trim(s: Seq<char>) -> Seq<char> {
    trim_end(trim_start(s))
}

/// `s` begins with `p`.
pub open spec fn starts_with(s: Seq<char>, p: Seq<char>) -> bool {
    p.len() <= s.len() && s.take(p.len() as int) == p
}

/// `t` occurs in `s` starting at position `i`.
pub open spec fn occurs_at(s: Seq<char>, t: Seq<char>, i: int) -> bool {
    0 <= i && i + t.len() <= s.len() && s.subrange(i, i + t.len()) == t
}

/// `t` occurs somewhere in `s` (`str::contains`).
pub open spec fn contains(s: Seq<char>, t: Seq<char>) -> bool {
    exists|i: int| occurs_at(s, t, i)
}

/// The concatenation of `pieces`, each followed by `sep`.
pub open spec fn join_terminated(pieces: Seq<Seq<char>>, sep: Seq<char>) -> Seq<char>
    decreases pieces.len(),
{
    if pieces.len() == 0 {
        Seq::empty()
    } else {
        join_terminated(pieces.drop_last(), sep) + pieces.last() + sep
    }
}

/// The concatenation of `pieces` with `sep` between consecutive pieces
/// (`[String]::join`).
pub open spec fn join_with(pieces: Seq<Seq<char>>, sep: Seq<char>) -> Seq<char>
    decreases pieces.len(),
{
    if pieces.len() == 0 {
        Seq::empty()
    } else if pieces.len() == 1 {
        pieces[0]
    } else {
        join_with(pieces.drop_last(), sep) + sep + pieces.last()
    }
}

/// The length of the run of non-whitespace characters `s` begins with.
pub open spec fn token_len(s: Seq<char>) -> nat
    decreases s.len(),
{
    if s.len() == 0 || is_ws(s[0]) {
        0
    } else {
        1 + token_len(s.drop_first())
    }
}

/// `str::split_whitespace`: the maximal runs of non-whitespace characters of
/// `s`, in order.
pub open spec fn ws_tokens(s: Seq<char>) -> Seq<Seq<char>>
    decreases s.len(),
{
    if s.len() == 0 {
        Seq::empty()
    } else if is_ws(s[0]) {
        ws_tokens(s.drop_first())
    } else {
        let k = token_len(s);
        proof {
            lemma_token_len(s);
        }
        seq![s.take(k as int)] + ws_tokens(s.skip(k as int))
    }
}

// ---------------------------------------------------------------------------
// Lemmas
// ---------------------------------------------------------------------------

/// A token run is no longer than the text, and starts with every
/// non-whitespace character.
pub proof fn lemma_token_len(s: Seq<char>)
    ensures
        token_len(s) <= s.len(),
        s.len() > 0 && !is_ws(s[0]) ==> token_len(s) >= 1,
        forall|j: int| 0 <= j < token_len(s) ==> !is_ws(#[trigger] s[j]),
        token_len(s) < s.len() ==> is_ws(s[token_len(s) as int]),
    decreases s.len(),
{
    if s.len() > 0 && !is_ws(s[0]) {
        lemma_token_len(s.drop_first());
        assert forall|j: int| 0 <= j < token_len(s) implies !is_ws(#[trigger] s[j]) by {
            if j > 0 {
                assert(s[j] == s.drop_first()[j - 1]);
            }
        }
    }
}

/// The token run starting at `i` measured by its end `e`.
pub proof fn lemma_token_len_at(s: Seq<char>, i: int, e: int)
    requires
        0 <= i <= e <= s.len(),
        forall|j: int| i <= j < e ==> !is_ws(#[trigger] s[j]),
        e == s.len() || is_ws(s[e]),
    ensures
        token_len(s.skip(i)) == e - i,
    decreases e - i,
{
    if i < e {
        lemma_token_len_at(s, i + 1, e);
        assert(s.skip(i).drop_first() == s.skip(i + 1));
    } else if e < s.len() {
        assert(s.skip(i)[0] == s[e]);
    }
}

/// `find_char` is the first position holding `c`.
pub proof fn lemma_find_char(s: Seq<char>, c: char, k: int)
    requires
        0 <= k <= s.len(),
        forall|j: int| 0 <= j < k ==> s[j] != c,
        k == s.len() || s[k] == c,
    ensures
        find_char(s, c) == k,
    decreases k,
{
    if k > 0 {
        lemma_find_char(s.drop_first(), c, k - 1);
    }
}

/// What `find_char` finds.
pub proof fn lemma_find_char_props(s: Seq<char>, c: char)
    ensures
        find_char(s, c) <= s.len(),
        forall|j: int| 0 <= j < find_char(s, c) ==> s[j] != c,
        find_char(s, c) < s.len() ==> s[find_char(s, c) as int] == c,
    decreases s.len(),
{
    if s.len() > 0 && s[0] != c {
        lemma_find_char_props(s.drop_first(), c);
        assert forall|j: int| 0 <= j < find_char(s, c) implies s[j] != c by {
            if j > 0 {
                assert(s[j] == s.drop_first()[j - 1]);
            }
        }
    }
}

/// Splitting at a first `\n` that is not the last character.
pub proof fn lemma_split_first(s: Seq<char>) -> (k: int)
    requires
        s.len() > 0,
        s.last() == '\n',
    ensures
        0 <= k < s.len(),
        s[k] == '\n',
        forall|j: int| 0 <= j < k ==> s[j] != '\n',
        split_inclusive(s, '\n') == seq![s.take(k + 1)] + split_inclusive(s.skip(k + 1), '\n'),
{
    lemma_find_char_props(s, '\n');
    let k = find_char(s, '\n') as int;
    if k == s.len() {
        assert(s[s.len() - 1] != '\n');
    }
    k
}

/// Splitting distributes over a concatenation whose left part ends a line.
pub proof fn lemma_split_concat(x: Seq<char>, y: Seq<char>)
    requires
        x.len() == 0 || x.last() == '\n',
    ensures
        split_inclusive(x + y, '\n') == split_inclusive(x, '\n') + split_inclusive(y, '\n'),
    decreases x.len(),
{
    if x.len() == 0 {
        assert(x + y == y);
        assert(split_inclusive(x, '\n') == Seq::<Seq<char>>::empty());
        assert(Seq::<Seq<char>>::empty() + split_inclusive(y, '\n') == split_inclusive(y, '\n'));
    } else {
        let k = lemma_split_first(x);
        let xy = x + y;
        assert forall|j: int| 0 <= j < k implies xy[j] != '\n' by {
            assert(xy[j] == x[j]);
        }
        assert(xy[k] == '\n');
        lemma_find_char(xy, '\n', k);
        assert(xy.take(k + 1) == x.take(k + 1));
        assert(xy.skip(k + 1) == x.skip(k + 1) + y);
        let rest = x.skip(k + 1);
        if rest.len() > 0 {
            assert(rest.last() == x.last());
        }
        lemma_split_concat(rest, y);
        assert(split_inclusive(xy, '\n') == seq![x.take(k + 1)] + split_inclusive(rest + y, '\n'));
        assert(seq![x.take(k + 1)] + (split_inclusive(rest, '\n') + split_inclusive(y, '\n'))
            == seq![x.take(k + 1)] + split_inclusive(rest, '\n') + split_inclusive(y, '\n'));
    }
}

/// `lines` distributes over a concatenation whose left part ends a line.
pub proof fn lemma_lines_concat(x: Seq<char>, y: Seq<char>)
    requires
        x.len() == 0 || x.last() == '\n',
    ensures
        lines(x + y) == lines(x) + lines(y),
{
    lemma_split_concat(x, y);
    let a = split_inclusive(x, '\n');
    let b = split_inclusive(y, '\n');
    assert((a + b).map_values(|p: Seq<char>| line_content(p)) =~= a.map_values(
        |p: Seq<char>| line_content(p),
    ) + b.map_values(|p: Seq<char>| line_content(p)));
}

/// `l` is one line as `str::lines` gives it back: it holds no `\n` and does
/// not end with `\r`.
pub open spec fn is_line(l: Seq<char>) -> bool {
    &&& forall|i: int| 0 <= i < l.len() ==> l[i] != '\n'
    &&& (l.len() == 0 || l.last() != '\r')
}

/// One line and its terminator read back as that one line.
pub proof fn lemma_lines_line_nl(l: Seq<char>)
    requires
        is_line(l),
    ensures
        lines(l + seq!['\n']) == seq![l],
{
    let s = l + seq!['\n'];
    assert forall|j: int| 0 <= j < l.len() implies s[j] != '\n' by {
        assert(s[j] == l[j]);
    }
    lemma_find_char(s, '\n', l.len() as int);
    assert(s.take(l.len() + 1 as int) == s);
    assert(s.skip(l.len() + 1 as int).len() == 0);
    assert(split_inclusive(s.skip(l.len() + 1 as int), '\n') == Seq::<Seq<char>>::empty());
    assert(split_inclusive(s, '\n') =~= seq![s]);
    assert(s.drop_last() == l);
    assert(line_content(s) == l);
    assert(seq![s].map_values(|p: Seq<char>| line_content(p)) =~= seq![l]);
}

/// A last line without terminator reads back as that one line.
pub proof fn lemma_lines_unterminated(l: Seq<char>)
    requires
        is_line(l),
        l.len() > 0,
    ensures
        lines(l) == seq![l],
{
    lemma_find_char(l, '\n', l.len() as int);
    assert(split_inclusive(l, '\n') =~= seq![l]);
    assert(line_content(l) == l);
    assert(seq![l].map_values(|p: Seq<char>| line_content(p)) =~= seq![l]);
}

/// Lines joined with `\n` terminators read back as those lines.
pub proof fn lemma_lines_joined(ls: Seq<Seq<char>>)
    requires
        forall|i: int| 0 <= i < ls.len() ==> is_line(#[trigger] ls[i]),
    ensures
        lines(join_terminated(ls, seq!['\n'])) == ls,
        join_terminated(ls, seq!['\n']).len() == 0 || join_terminated(ls, seq!['\n']).last()
            == '\n',
    decreases ls.len(),
{
    if ls.len() == 0 {
        assert(lines(Seq::<char>::empty()) =~= Seq::<Seq<char>>::empty());
    } else {
        let init = ls.drop_last();
        assert forall|i: int| 0 <= i < init.len() implies is_line(#[trigger] init[i]) by {
            assert(init[i] == ls[i]);
        }
        lemma_lines_joined(init);
        let a = join_terminated(init, seq!['\n']);
        let l = ls.last();
        assert(is_line(ls[ls.len() - 1]));
        assert(join_terminated(ls, seq!['\n']) == a + (l + seq!['\n']));
        lemma_lines_concat(a, l + seq!['\n']);
        lemma_lines_line_nl(l);
        assert(init.push(l) =~= ls);
        assert(init + seq![l] =~= ls);
    }
}

/// Joining with one more line in front.
pub proof fn lemma_join_prepend(x: Seq<char>, ls: Seq<Seq<char>>)
    ensures
        join_terminated(seq![x] + ls, seq!['\n']) == x + seq!['\n'] + join_terminated(
            ls,
            seq!['\n'],
        ),
    decreases ls.len(),
{
    let nl = seq!['\n'];
    if ls.len() == 0 {
        assert(seq![x] + ls =~= seq![x]);
        assert(seq![x].drop_last() =~= Seq::<Seq<char>>::empty());
        assert(join_terminated(seq![x].drop_last(), nl) == Seq::<char>::empty());
        assert(seq![x].last() == x);
        assert(join_terminated(ls, nl) == Seq::<char>::empty());
        assert(x + nl + join_terminated(ls, nl) =~= Seq::<char>::empty() + x + nl);
    } else {
        assert((seq![x] + ls).drop_last() =~= seq![x] + ls.drop_last());
        assert((seq![x] + ls).last() == ls.last());
        lemma_join_prepend(x, ls.drop_last());
        assert(x + nl + join_terminated(ls.drop_last(), nl) + ls.last() + nl =~= x + nl
            + join_terminated(ls, nl));
    }
}

/// Splitting a string whose first `c` is at `k`.
pub proof fn lemma_split_inclusive_step(s: Seq<char>, c: char, k: int)
    requires
        0 <= k < s.len(),
        forall|j: int| 0 <= j < k ==> s[j] != c,
        s[k] == c,
    ensures
        split_inclusive(s, c) == seq![s.take(k + 1 as int)] + split_inclusive(s.skip(k + 1 as int), c),
{
    lemma_find_char(s, c, k);
}

/// Splitting a non-empty string that holds no `c`.
pub proof fn lemma_split_inclusive_last(s: Seq<char>, c: char)
    requires
        s.len() > 0,
        forall|j: int| 0 <= j < s.len() ==> s[j] != c,
    ensures
        split_inclusive(s, c) == seq![s],
{
    lemma_find_char(s, c, s.len() as int);
}

/// Dropping leading whitespace one character at a time.
pub proof fn lemma_trim_start_skip(s: Seq<char>, i: int)
    requires
        0 <= i <= s.len(),
        forall|j: int| 0 <= j < i ==> is_ws(s[j]),
    ensures
        trim_start(s) == trim_start(s.skip(i)),
    decreases i,
{
    if i > 0 {
        assert(s.drop_first().skip(i - 1) == s.skip(i));
        lemma_trim_start_skip(s.drop_first(), i - 1);
    } else {
        assert(s.skip(0) == s);
    }
}

/// Dropping trailing whitespace one character at a time.
pub proof fn lemma_trim_end_take(s: Seq<char>, i: int)
    requires
        0 <= i <= s.len(),
        forall|j: int| i <= j < s.len() ==> is_ws(s[j]),
    ensures
        trim_end(s) == trim_end(s.take(i)),
    decreases s.len() - i,
{
    if i < s.len() {
        assert(s.drop_last().take(i) == s.take(i));
        lemma_trim_end_take(s.drop_last(), i);
    } else {
        assert(s.take(i) == s);
    }
}

/// Joining one more piece.
pub proof fn lemma_join_with_push(ps: Seq<Seq<char>>, x: Seq<char>, sep: Seq<char>)
    ensures
        join_with(ps.push(x), sep) == if ps.len() == 0 {
            x
        } else {
            join_with(ps, sep) + sep + x
        },
{
    assert(ps.push(x).drop_last() == ps);
    if ps.len() == 0 {
        assert(ps.push(x)[0] == x);
    }
}

/// Pushing onto a vector of character vectors pushes the view.
pub proof fn lemma_vviews_push(prev: Seq<Vec<char>>, x: Vec<char>)
    ensures
        vviews(prev.push(x)) == vviews(prev).push(x@),
{
    let l = vviews(prev.push(x));
    let r = vviews(prev).push(x@);
    assert(l.len() == prev.len() + 1);
    assert forall|j: int| 0 <= j < l.len() implies l[j] == r[j] by {
        if j < prev.len() {
            assert(prev.push(x)[j] == prev[j]);
        }
    }
    assert(l =~= r);
}

// ---------------------------------------------------------------------------
// Executable primitives
// ---------------------------------------------------------------------------

/// Appends one character to a string.
///
/// Trusted wrapper around `String::push`: the new contents are the old ones
/// followed by `c`.
#[verifier::external_body]
fn push_char(s: &mut String, c: char)
    ensures
        final(s)@ == old(s)@.push(c),
{
    s.push(c);
}

/// The characters of `s`, in order.
pub fn chars_of(s: &str) -> (v: Vec<char>)
    ensures
        v@ == s@,
{
    let mut v: Vec<char> = Vec::new();
    for c in it: s.chars()
        invariant
            v@ == it.seq().take(it.index() as int),
    {
        v.push(c);
    }
    v
}

/// The string made of the characters of `v`, in order.
pub fn string_of(v: &[char]) -> (s: String)
    ensures
        s@ == v@,
{
    let mut s = String::new();
    let mut i: usize = 0;
    while i < v.len()
        invariant
            i <= v@.len(),
            s@ == v@.take(i as int),
        decreases v@.len() - i,
    {
        push_char(&mut s, v[i]);
        assert(v@.take(i + 1) == v@.take(i as int).push(v@[i as int]));
        i += 1;
    }
    assert(v@.take(v@.len() as int) == v@);
    s
}

/// Appends the characters of `s` to `out`.
pub fn append(out: &mut Vec<char>, s: &[char])
    ensures
        final(out)@ == old(out)@ + s@,
{
    let mut i: usize = 0;
    while i < s.len()
        invariant
            i <= s@.len(),
            out@ == old(out)@ + s@.take(i as int),
        decreases s@.len() - i,
    {
        out.push(s[i]);
        assert(s@.take(i + 1) == s@.take(i as int).push(s@[i as int]));
        i += 1;
    }
    assert(s@.take(s@.len() as int) == s@);
}

/// The concatenation of `a`, `b` and `c`.
pub fn concat3(a: &str, b: &str, c: &str) -> (r: String)
    ensures
        r@ == a@ + b@ + c@,
{
    let mut out = chars_of(a);
    append(&mut out, &chars_of(b));
    append(&mut out, &chars_of(c));
    string_of(&out)
}

/// Whether the string `a` is exactly the text `lit`.
pub fn str_is(a: &String, lit: &str) -> (r: bool)
    ensures
        r == (a@ == lit@),
{
    *a == lit.to_owned()
}

/// The position of the first `c` in `s`, or `s.len()` when there is none.
pub fn find_char_exec(s: &[char], c: char) -> (k: usize)
    ensures
        k == find_char(s@, c),
        k <= s@.len(),
{
    let mut k: usize = 0;
    while k < s.len() && s[k] != c
        invariant
            k <= s@.len(),
            forall|j: int| 0 <= j < k ==> s@[j] != c,
        decreases s@.len() - k,
    {
        k += 1;
    }
    proof {
        lemma_find_char(s@, c, k as int);
    }
    k
}

/// `str::split_whitespace`: the whitespace-separated tokens of `s`.
pub fn ws_tokens_exec(s: &[char]) -> (r: Vec<Vec<char>>)
    ensures
        vviews(r@) == ws_tokens(s@),
{
    let mut out: Vec<Vec<char>> = Vec::new();
    let mut i: usize = 0;
    proof {
        assert(s@.skip(0) == s@);
        assert(vviews(out@) =~= Seq::<Seq<char>>::empty());
    }
    while i < s.len()
        invariant
            i <= s@.len(),
            ws_tokens(s@) == vviews(out@) + ws_tokens(s@.skip(i as int)),
        decreases s@.len() - i,
    {
        let ghost t = s@.skip(i as int);
        if is_ws_exec(s[i]) {
            assert(t.drop_first() == s@.skip(i + 1));
            i += 1;
        } else {
            let mut e: usize = i + 1;
            while e < s.len() && !is_ws_exec(s[e])
                invariant
                    i < e <= s@.len(),
                    forall|j: int| i <= j < e ==> !is_ws(#[trigger] s@[j]),
                decreases s@.len() - e,
            {
                e += 1;
            }
            proof {
                lemma_token_len_at(s@, i as int, e as int);
                assert(t.take(e - i) == s@.subrange(i as int, e as int));
                assert(t.skip(e - i) == s@.skip(e as int));
            }
            let tok = subrange(s, i, e);
            let ghost prev = out@;
            out.push(tok);
            proof {
                lemma_vviews_push(prev, tok);
                assert(vviews(out@) + ws_tokens(s@.skip(e as int)) =~= vviews(prev) + (seq![t.take(
                    e - i,
                )] + ws_tokens(t.skip(e - i))));
            }
            i = e;
        }
    }
    proof {
        assert(s@.skip(i as int).len() == 0);
        assert(vviews(out@) + Seq::<Seq<char>>::empty() == vviews(out@));
    }
    out
}

/// The characters of `s` from `i` up to `j`.
pub fn subrange(s: &[char], i: usize, j: usize) -> (r: Vec<char>)
    requires
        i <= j <= s@.len(),
    ensures
        r@ == s@.subrange(i as int, j as int),
{
    let mut r: Vec<char> = Vec::new();
    let mut k: usize = i;
    while k < j
        invariant
            i <= k <= j <= s@.len(),
            r@ == s@.subrange(i as int, k as int),
        decreases j - k,
    {
        r.push(s[k]);
        assert(s@.subrange(i as int, k + 1) == s@.subrange(i as int, k as int).push(s@[k as int]));
        k += 1;
    }
    r
}

/// Whether `a` and `b` hold the same characters.
pub fn chars_eq(a: &[char], b: &[char]) -> (r: bool)
    ensures
        r == (a@ == b@),
{
    if a.len() != b.len() {
        return false;
    }
    let mut i: usize = 0;
    while i < a.len()
        invariant
            i <= a@.len() == b@.len(),
            forall|j: int| 0 <= j < i ==> a@[j] == b@[j],
        decreases a@.len() - i,
    {
        if a[i] != b[i] {
            return false;
        }
        i += 1;
    }
    assert(a@ == b@);
    true
}

/// Whether `t` occurs in `s` at position `i`.
pub fn occurs_at_exec(s: &[char], t: &[char], i: usize) -> (r: bool)
    ensures
        r == occurs_at(s@, t@, i as int),
{
    if i > s.len() || t.len() > s.len() - i {
        return false;
    }
    let n = s.len();
    let mut k: usize = 0;
    while k < t.len()
        invariant
            n == s@.len(),
            i <= s@.len(),
            i + t@.len() <= s@.len(),
            k <= t@.len(),
            forall|j: int| 0 <= j < k ==> s@[i + j] == t@[j],
        decreases t@.len() - k,
    {
        assert(k < t@.len());
        if s[i + k] != t[k] {
            assert(s@.subrange(i as int, i + t@.len())[k as int] != t@[k as int]);
            return false;
        }
        k += 1;
    }
    assert(s@.subrange(i as int, i + t@.len()) == t@);
    true
}

/// Whether `s` begins with `p`.
pub fn starts_with_exec(s: &[char], p: &[char]) -> (r: bool)
    ensures
        r == starts_with(s@, p@),
{
    let r = occurs_at_exec(s, p, 0);
    assert(s@.subrange(0, p@.len() as int) == s@.take(p@.len() as int));
    r
}

/// Whether `t` occurs anywhere in `s`.
pub fn contains_exec(s: &[char], t: &[char]) -> (r: bool)
    ensures
        r == contains(s@, t@),
{
    if t.len() > s.len() {
        assert(!contains(s@, t@));
        return false;
    }
    let limit = s.len() - t.len();
    let mut i: usize = 0;
    loop
        invariant
            t@.len() <= s@.len(),
            limit == s@.len() - t@.len(),
            i <= limit,
            forall|j: int| 0 <= j < i ==> !occurs_at(s@, t@, j),
        ensures
            forall|j: int| 0 <= j <= limit ==> !occurs_at(s@, t@, j),
        decreases limit - i,
    {
        if occurs_at_exec(s, t, i) {
            return true;
        }
        if i == limit {
            break;
        }
        i += 1;
    }
    assert forall|j: int| !occurs_at(s@, t@, j) by {
        if 0 <= j && j + t@.len() <= s@.len() {
            assert(j <= limit);
        }
    }
    false
}

/// Whether `c` is whitespace (`char::is_whitespace`).
pub fn is_ws_exec(c: char) -> (r: bool)
    ensures
        r == is_ws(c),
{
    c == '\t' || c == '\n' || c == '\x0B' || c == '\x0C' || c == '\r' || c == ' ' || c == '\u{85}'
        || c == '\u{A0}' || c == '\u{1680}' || ('\u{2000}' <= c && c <= '\u{200A}') || c
        == '\u{2028}' || c == '\u{2029}' || c == '\u{202F}' || c == '\u{205F}' || c == '\u{3000}'
}

/// `s` without leading and trailing whitespace.
pub fn trim_exec(s: &[char]) -> (r: Vec<char>)
    ensures
        r@ == trim(s@),
{
    let mut a: usize = 0;
    while a < s.len() && is_ws_exec(s[a])
        invariant
            a <= s@.len(),
            forall|j: int| 0 <= j < a ==> is_ws(s@[j]),
        decreases s@.len() - a,
    {
        a += 1;
    }
    proof {
        lemma_trim_start_skip(s@, a as int);
    }
    let mut b: usize = s.len();
    while b > a && is_ws_exec(s[b - 1])
        invariant
            a <= b <= s@.len(),
            forall|j: int| b <= j < s@.len() ==> is_ws(s@[j]),
        decreases b,
    {
        b -= 1;
    }
    let ghost t = s@.skip(a as int);
    proof {
        assert(trim_start(t) == t);
        lemma_trim_end_take(t, b - a);
        assert(t.take(b - a) == s@.subrange(a as int, b as int));
        if b > a {
            assert(!is_ws(s@[b - 1]));
        }
        assert(trim_end(s@.subrange(a as int, b as int)) == s@.subrange(a as int, b as int));
    }
    subrange(s, a, b)
}

/// `str::split_inclusive('\n')`: the pieces of `s`, each ending after a `\n`,
/// plus a final piece without `\n` when it is non-empty.
pub fn split_inclusive_nl(s: &[char]) -> (r: Vec<Vec<char>>)
    ensures
        vviews(r@) == split_inclusive(s@, '\n'),
{
    let mut out: Vec<Vec<char>> = Vec::new();
    let mut cur: Vec<char> = Vec::new();
    let mut start: usize = 0;
    let mut i: usize = 0;
    proof {
        assert(s@.skip(0) == s@);
        assert(vviews(out@) + split_inclusive(s@, '\n') == split_inclusive(s@, '\n'));
    }
    while i < s.len()
        invariant
            start <= i <= s@.len(),
            cur@ == s@.subrange(start as int, i as int),
            forall|j: int| start <= j < i ==> s@[j] != '\n',
            vviews(out@) + split_inclusive(s@.skip(start as int), '\n') == split_inclusive(
                s@,
                '\n',
            ),
        decreases s@.len() - i,
    {
        let c = s[i];
        cur.push(c);
        proof {
            assert(cur@ == s@.subrange(start as int, i + 1));
        }
        if c == '\n' {
            let ghost t = s@.skip(start as int);
            proof {
                assert forall|j: int| 0 <= j < i - start implies t[j] != '\n' by {
                    assert(t[j] == s@[start + j]);
                }
                lemma_split_inclusive_step(t, '\n', i - start);
                assert(t.take(i - start + 1) == s@.subrange(start as int, i + 1));
                assert(t.skip(i - start + 1) == s@.skip(i + 1));
            }
            let ghost prev = out@;
            let piece = cur;
            out.push(piece);
            proof {
                assert(out@.drop_last() == prev);
                assert(vviews(out@) =~= vviews(prev).push(s@.subrange(start as int, i + 1)));
            }
            cur = Vec::new();
            start = i + 1;
        }
        i += 1;
        proof {
            assert(cur@ == s@.subrange(start as int, i as int));
        }
    }
    if cur.len() > 0 {
        let ghost t = s@.skip(start as int);
        proof {
            assert forall|j: int| 0 <= j < t.len() implies t[j] != '\n' by {
                assert(t[j] == s@[start + j]);
            }
            lemma_split_inclusive_last(t, '\n');
            assert(t == cur@);
        }
        let ghost prev = out@;
        out.push(cur);
        proof {
            assert(out@.drop_last() == prev);
            assert(vviews(out@) =~= vviews(prev).push(s@.skip(start as int)));
        }
    } else {
        proof {
            assert(s@.skip(start as int).len() == 0);
        }
    }
    out
}

/// A `split_inclusive` piece without its line terminator.
pub fn line_content_exec(p: &[char]) -> (r: Vec<char>)
    ensures
        r@ == line_content(p@),
{
    let n = p.len();
    if n > 0 && p[n - 1] == '\n' {
        if n > 1 && p[n - 2] == '\r' {
            proof {
                assert(p@.drop_last().drop_last() == p@.subrange(0, n - 2));
            }
            subrange(p, 0, n - 2)
        } else {
            proof {
                assert(p@.drop_last() == p@.subrange(0, n - 1));
            }
            subrange(p, 0, n - 1)
        }
    } else {
        proof {
            assert(p@.subrange(0, n as int) == p@);
        }
        subrange(p, 0, n)
    }
}

/// `str::lines`: the lines of `s` without their terminators.
pub fn lines_exec(s: &[char]) -> (r: Vec<Vec<char>>)
    ensures
        vviews(r@) == lines(s@),
{
    let pieces = split_inclusive_nl(s);
    let ghost ps = vviews(pieces@);
    let mut out: Vec<Vec<char>> = Vec::new();
    let mut i: usize = 0;
    while i < pieces.len()
        invariant
            i <= pieces@.len(),
            ps == vviews(pieces@),
            ps == split_inclusive(s@, '\n'),
            vviews(out@) == ps.take(i as int).map_values(|p: Seq<char>| line_content(p)),
        decreases pieces@.len() - i,
    {
        let l = line_content_exec(&pieces[i]);
        let ghost prev = out@;
        out.push(l);
        proof {
            assert(out@.drop_last() == prev);
            assert(ps[i as int] == pieces@[i as int]@);
            let lhs = vviews(out@);
            let rhs = ps.take(i + 1).map_values(|p: Seq<char>| line_content(p));
            assert(out@ == prev.push(l));
            assert(ps.len() == pieces@.len());
            assert(vviews(prev).len() == i);
            assert(prev.len() == i);
            assert(lhs.len() == i + 1);
            assert(rhs.len() == i + 1);
            assert forall|j: int| 0 <= j < i + 1 implies lhs[j] == rhs[j] by {
                assert(lhs[j] == out@[j]@);
                if j < i {
                    assert(out@[j] == prev[j]);
                    assert(vviews(prev)[j] == prev[j]@);
                }
            }
            assert(lhs =~= rhs);
        }
        i += 1;
    }
    proof {
        assert(ps.take(pieces@.len() as int) == ps);
    }
    out
}

/// Appends `line` and a `\n` to `buf`.
pub fn push_line(buf: &mut Vec<char>, line: &[char])
    ensures
        final(buf)@ == old(buf)@ + line@ + seq!['\n'],
{
    append(buf, line);
    buf.push('\n');
}

/// A prefix of a sequence of lines, extended by one line.
pub proof fn lemma_take_push(ls: Seq<Seq<char>>, i: int)
    requires
        0 <= i < ls.len(),
    ensures
        ls.take(i + 1).drop_last() == ls.take(i),
        ls.take(i + 1).last() == ls[i],
        ls.take(i + 1).len() == i + 1,
{
    assert(ls.take(i + 1).drop_last() == ls.take(i));
}

} // verus!
