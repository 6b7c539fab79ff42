//! The machine-readable output mode: serialise a mend result to one JSON object
//! and parse it back.
//!
//! A [`JsonResult`] bundles the `path`, the `original` text, the `proposed`
//! text, the list of edits, and an `applied` flag. [`emit_json`] turns it into
//! one self-contained, whitespace-free JSON object; [`parse_json`] reads such an
//! object back. The two are inverses: parsing the emitted text of any result
//! gives that result back.
use vstd::prelude::*;

use crate::parsed_edit::{EditView, ParsedEdit, edits_view, lemma_edits_view_push};
use crate::text::{append, chars_eq, chars_of, string_of, subrange};
use crate::{MendError, Result};

verus! {

/// A mend result rendered for machine consumption.
#[derive(Debug, PartialEq)]
pub struct JsonResult {
    /// The path of the file the result concerns.
    pub path: String,
    /// The file's text before the edits.
    pub original: String,
    /// The file's text after the edits.
    pub proposed: String,
    /// The edits that turn `original` into `proposed`, in order.
    pub edits: Vec<ParsedEdit>,
    /// Whether `proposed` was written back to disk.
    pub applied: bool,
}

/// The mathematical value of a [`JsonResult`].
pub struct ResultView {
    pub path: Seq<char>,
    pub original: Seq<char>,
    pub proposed: Seq<char>,
    pub edits: Seq<EditView>,
    pub applied: bool,
}

impl View for JsonResult {
    type V = ResultView;

    open spec fn view(&self) -> ResultView {
        ResultView {
            path: self.path@,
            original: self.original@,
            proposed: self.proposed@,
            edits: edits_view(self.edits@),
            applied: self.applied,
        }
    }
}

// ---------------------------------------------------------------------------
// Emitting: specification
// ---------------------------------------------------------------------------

/// The JSON escape of one character: backslash, double quote and newline become
/// two-character escapes; every other character stands for itself.
pub open spec fn escape_char(c: char) -> Seq<char> {
    if c == '\\' {
        seq!['\\', '\\']
    } else if c == '"' {
        seq!['\\', '"']
    } else if c == '\n' {
        seq!['\\', 'n']
    } else {
        seq![c]
    }
}

/// The JSON escape of a text, character by character.
pub open spec fn escape(s: Seq<char>) -> Seq<char>
    decreases s.len(),
{
    if s.len() == 0 {
        Seq::empty()
    } else {
        escape_char(s[0]) + escape(s.drop_first())
    }
}

/// The JSON object for one edit, tagged by its shape.
pub open spec fn edit_json(e: EditView) -> Seq<char> {
    match e {
        EditView::SearchReplace { search, replace } => "{\"type\":\"search_replace\",\"search\":\""@
            + escape(search) + "\",\"replace\":\""@ + escape(replace) + "\"}"@,
        EditView::WholeFile { body } => "{\"type\":\"whole_file\",\"body\":\""@ + escape(body)
            + "\"}"@,
    }
}

/// The JSON objects for the edits, separated by commas.
pub open spec fn edits_json(es: Seq<EditView>) -> Seq<char>
    decreases es.len(),
{
    if es.len() == 0 {
        Seq::empty()
    } else if es.len() == 1 {
        edit_json(es[0])
    } else {
        edit_json(es[0]) + ","@ + edits_json(es.drop_first())
    }
}

/// The text of a boolean literal.
pub open spec fn bool_json(b: bool) -> Seq<char> {
    if b {
        "true"@
    } else {
        "false"@
    }
}

/// The JSON object for a result: its fields in a fixed order, with no
/// whitespace.
pub open spec fn result_json(r: ResultView) -> Seq<char> {
    "{\"path\":\""@ + escape(r.path) + "\",\"original\":\""@ + escape(r.original)
        + "\",\"proposed\":\""@ + escape(r.proposed) + "\",\"edits\":["@ + edits_json(r.edits)
        + "],\"applied\":"@ + bool_json(r.applied) + "}"@
}

// ---------------------------------------------------------------------------
// Parsing: specification
// ---------------------------------------------------------------------------

/// A parsed JSON value, limited to the shapes the reader understands.
pub enum JsonV {
    Str(Seq<char>),
    Bool(bool),
    Arr(Seq<JsonV>),
    Obj(Seq<(Seq<char>, JsonV)>),
}

/// The rest of the input after reading one character, if there is one.
pub open spec fn advance(r: Seq<char>) -> Seq<char> {
    if r.len() > 0 {
        r.drop_first()
    } else {
        r
    }
}

/// The rest of the input after reading up to `n` characters.
pub open spec fn advance_n(r: Seq<char>, n: int) -> Seq<char> {
    if r.len() >= n {
        r.skip(n)
    } else {
        Seq::empty()
    }
}

/// Reverse of [`escape`]: a backslash and the character after it stand for
/// that character, except that `\n` stands for a newline; a lone final
/// backslash stands for itself.
pub open spec fn unescape(raw: Seq<char>) -> Seq<char>
    decreases raw.len(),
{
    if raw.len() == 0 {
        Seq::empty()
    } else if raw[0] == '\\' {
        if raw.len() == 1 {
            seq!['\\']
        } else if raw[1] == 'n' {
            seq!['\n'] + unescape(raw.skip(2))
        } else {
            seq![raw[1]] + unescape(raw.skip(2))
        }
    } else {
        seq![raw[0]] + unescape(raw.drop_first())
    }
}

/// The body of a string literal up to its closing quote, kept raw (escape
/// pairs verbatim) in `raw`, then unescaped; with the input after the quote.
pub open spec fn string_body(r: Seq<char>, raw: Seq<char>) -> Option<(Seq<char>, Seq<char>)>
    decreases r.len(),
{
    if r.len() == 0 {
        None
    } else if r[0] == '"' {
        Some((unescape(raw), r.drop_first()))
    } else if r[0] == '\\' {
        if r.len() < 2 {
            None
        } else {
            string_body(r.skip(2), raw + seq!['\\', r[1]])
        }
    } else {
        string_body(r.drop_first(), raw.push(r[0]))
    }
}

/// A string literal: its first character is taken as the opening quote
/// without being checked.
pub open spec fn string_lit(r: Seq<char>) -> Option<(Seq<char>, Seq<char>)> {
    string_body(advance(r), Seq::empty())
}

/// One JSON value and the input after it, dispatching on its first character:
/// a string, an array (`[]` being the empty one), an object, or a boolean (`t` takes four characters as
/// `true`, `f` five as `false`, unchecked).
pub open spec fn json_value(r: Seq<char>) -> Option<(JsonV, Seq<char>)>
    decreases r.len(), 0int,
{
    if r.len() == 0 {
        None
    } else if r[0] == '"' {
        match string_lit(r) {
            Some((s, rest)) => Some((JsonV::Str(s), rest)),
            None => None,
        }
    } else if r[0] == '[' {
        if r.len() > 1 && r[1] == ']' {
            Some((JsonV::Arr(Seq::empty()), r.skip(2)))
        } else {
            match json_items(r.drop_first(), Seq::empty()) {
                Some((items, rest)) => Some((JsonV::Arr(items), rest)),
                None => None,
            }
        }
    } else if r[0] == '{' {
        match json_pairs(r.drop_first(), Seq::empty()) {
            Some((pairs, rest)) => Some((JsonV::Obj(pairs), rest)),
            None => None,
        }
    } else if r[0] == 't' {
        Some((JsonV::Bool(true), advance_n(r, 4)))
    } else if r[0] == 'f' {
        Some((JsonV::Bool(false), advance_n(r, 5)))
    } else {
        None
    }
}

/// The items of an array after the opening bracket: a value, then a comma to
/// continue or any other character (or the end) to finish. Every value
/// consumes input, so the length test never fails.
pub open spec fn json_items(r: Seq<char>, acc: Seq<JsonV>) -> Option<(Seq<JsonV>, Seq<char>)>
    decreases r.len(), 1int,
{
    match json_value(r) {
        Some((v, r2)) => if r2.len() > 0 && r2[0] == ',' && r2.len() <= r.len() {
            json_items(r2.drop_first(), acc.push(v))
        } else {
            Some((acc.push(v), advance(r2)))
        },
        None => None,
    }
}

/// The pairs of an object after the opening brace: a string key, one
/// character taken as the colon, a value, then a comma to continue or any
/// other character (or the end) to finish. Every key and value consumes input,
/// so the length tests never fail.
pub open spec fn json_pairs(r: Seq<char>, acc: Seq<(Seq<char>, JsonV)>) -> Option<
    (Seq<(Seq<char>, JsonV)>, Seq<char>),
>
    decreases r.len(), 1int,
{
    match string_lit(r) {
        Some((k, r1)) => {
            let r2 = advance(r1);
            if r2.len() <= r.len() {
                match json_value(r2) {
                    Some((v, r3)) => if r3.len() > 0 && r3[0] == ',' && r3.len() <= r.len() {
                        json_pairs(r3.drop_first(), acc.push((k, v)))
                    } else {
                        Some((acc.push((k, v)), advance(r3)))
                    },
                    None => None,
                }
            } else {
                None
            }
        },
        None => None,
    }
}

/// A string value.
pub open spec fn as_str(v: JsonV) -> Option<Seq<char>> {
    match v {
        JsonV::Str(s) => Some(s),
        _ => None,
    }
}

/// A boolean value.
pub open spec fn as_bool(v: JsonV) -> Option<bool> {
    match v {
        JsonV::Bool(b) => Some(b),
        _ => None,
    }
}

/// The fields an edit object sets, read pair by pair.
pub struct EditFields {
    pub kind: Seq<char>,
    pub search: Seq<char>,
    pub replace: Seq<char>,
    pub body: Seq<char>,
}

/// The fields of an edit object: `type`, `search`, `replace` and `body` must be
/// strings (a later pair overrides an earlier one); other keys are ignored.
pub open spec fn edit_fields(pairs: Seq<(Seq<char>, JsonV)>) -> Option<EditFields>
    decreases pairs.len(),
{
    if pairs.len() == 0 {
        Some(
            EditFields {
                kind: Seq::empty(),
                search: Seq::empty(),
                replace: Seq::empty(),
                body: Seq::empty(),
            },
        )
    } else {
        match edit_fields(pairs.drop_last()) {
            Some(f) => {
                let k = pairs.last().0;
                let v = pairs.last().1;
                if k == "type"@ {
                    match as_str(v) {
                        Some(x) => Some(EditFields { kind: x, ..f }),
                        None => None,
                    }
                } else if k == "search"@ {
                    match as_str(v) {
                        Some(x) => Some(EditFields { search: x, ..f }),
                        None => None,
                    }
                } else if k == "replace"@ {
                    match as_str(v) {
                        Some(x) => Some(EditFields { replace: x, ..f }),
                        None => None,
                    }
                } else if k == "body"@ {
                    match as_str(v) {
                        Some(x) => Some(EditFields { body: x, ..f }),
                        None => None,
                    }
                } else {
                    Some(f)
                }
            },
            None => None,
        }
    }
}

/// One edit, from an object whose `type` is `search_replace` or `whole_file`.
pub open spec fn edit_of(v: JsonV) -> Option<EditView> {
    match v {
        JsonV::Obj(pairs) => match edit_fields(pairs) {
            Some(f) => if f.kind == "search_replace"@ {
                Some(EditView::SearchReplace { search: f.search, replace: f.replace })
            } else if f.kind == "whole_file"@ {
                Some(EditView::WholeFile { body: f.body })
            } else {
                None
            },
            None => None,
        },
        _ => None,
    }
}

/// The edits of a sequence of edit objects.
pub open spec fn edits_of_items(items: Seq<JsonV>) -> Option<Seq<EditView>>
    decreases items.len(),
{
    if items.len() == 0 {
        Some(Seq::empty())
    } else {
        match edits_of_items(items.drop_last()) {
            Some(es) => match edit_of(items.last()) {
                Some(e) => Some(es.push(e)),
                None => None,
            },
            None => None,
        }
    }
}

/// The edits of an array of edit objects.
pub open spec fn edits_of(v: JsonV) -> Option<Seq<EditView>> {
    match v {
        JsonV::Arr(items) => edits_of_items(items),
        _ => None,
    }
}

/// The fields of a result object, read pair by pair: `path`, `original`,
/// `proposed` must be strings, `edits` an array of edits and `applied` a
/// boolean (a later pair overrides an earlier one); other keys are ignored and
/// missing fields keep their defaults.
pub open spec fn result_fields(pairs: Seq<(Seq<char>, JsonV)>) -> Option<ResultView>
    decreases pairs.len(),
{
    if pairs.len() == 0 {
        Some(
            ResultView {
                path: Seq::empty(),
                original: Seq::empty(),
                proposed: Seq::empty(),
                edits: Seq::empty(),
                applied: false,
            },
        )
    } else {
        match result_fields(pairs.drop_last()) {
            Some(f) => {
                let k = pairs.last().0;
                let v = pairs.last().1;
                if k == "path"@ {
                    match as_str(v) {
                        Some(x) => Some(ResultView { path: x, ..f }),
                        None => None,
                    }
                } else if k == "original"@ {
                    match as_str(v) {
                        Some(x) => Some(ResultView { original: x, ..f }),
                        None => None,
                    }
                } else if k == "proposed"@ {
                    match as_str(v) {
                        Some(x) => Some(ResultView { proposed: x, ..f }),
                        None => None,
                    }
                } else if k == "edits"@ {
                    match edits_of(v) {
                        Some(x) => Some(ResultView { edits: x, ..f }),
                        None => None,
                    }
                } else if k == "applied"@ {
                    match as_bool(v) {
                        Some(x) => Some(ResultView { applied: x, ..f }),
                        None => None,
                    }
                } else {
                    Some(f)
                }
            },
            None => None,
        }
    }
}

/// The result a JSON text describes: its leading value must be an object.
pub open spec fn parsed_result(json: Seq<char>) -> Option<ResultView> {
    match json_value(json) {
        Some((JsonV::Obj(pairs), _)) => result_fields(pairs),
        _ => None,
    }
}

// ---------------------------------------------------------------------------
// Emitting
// ---------------------------------------------------------------------------

/// Escaping distributes over concatenation.
pub proof fn lemma_escape_concat(a: Seq<char>, b: Seq<char>)
    ensures
        escape(a + b) == escape(a) + escape(b),
    decreases a.len(),
{
    if a.len() == 0 {
        assert(a + b == b);
    } else {
        assert((a + b).drop_first() == a.drop_first() + b);
        lemma_escape_concat(a.drop_first(), b);
    }
}

/// Escaping a prefix one more character.
proof fn lemma_escape_take(s: Seq<char>, i: int)
    requires
        0 <= i < s.len(),
    ensures
        escape(s.take(i + 1)) == escape(s.take(i)) + escape_char(s[i]),
{
    assert(s.take(i + 1) == s.take(i) + seq![s[i]]);
    lemma_escape_concat(s.take(i), seq![s[i]]);
    assert(seq![s[i]].drop_first() =~= Seq::<char>::empty());
    assert(seq![s[i]][0] == s[i]);
    assert(escape(seq![s[i]]) == escape_char(s[i]) + escape(Seq::<char>::empty()));
    assert(escape_char(s[i]) + Seq::<char>::empty() == escape_char(s[i]));
}

/// Appends the JSON escape of `s` to `out`.
fn escape_into(out: &mut Vec<char>, s: &str)
    ensures
        final(out)@ == old(out)@ + escape(s@),
{
    let cs = chars_of(s);
    let mut i: usize = 0;
    proof {
        assert(cs@.take(0).len() == 0);
        assert(escape(cs@.take(0)) == Seq::<char>::empty());
    }
    while i < cs.len()
        invariant
            i <= cs@.len(),
            cs@ == s@,
            out@ == old(out)@ + escape(cs@.take(i as int)),
        decreases cs@.len() - i,
    {
        proof {
            lemma_escape_take(cs@, i as int);
        }
        let c = cs[i];
        if c == '\\' {
            out.push('\\');
            out.push('\\');
        } else if c == '"' {
            out.push('\\');
            out.push('"');
        } else if c == '\n' {
            out.push('\\');
            out.push('n');
        } else {
            out.push(c);
        }
        i += 1;
    }
    proof {
        assert(cs@.take(cs@.len() as int) == cs@);
    }
}

/// Appends the JSON object for one edit to `out`.
fn edit_into(out: &mut Vec<char>, e: &ParsedEdit)
    ensures
        final(out)@ == old(out)@ + edit_json(e@),
{
    match e {
        ParsedEdit::SearchReplace { search, replace } => {
            append(out, &chars_of("{\"type\":\"search_replace\",\"search\":\""));
            escape_into(out, search.as_str());
            append(out, &chars_of("\",\"replace\":\""));
            escape_into(out, replace.as_str());
            append(out, &chars_of("\"}"));
        },
        ParsedEdit::WholeFile { body } => {
            append(out, &chars_of("{\"type\":\"whole_file\",\"body\":\""));
            escape_into(out, body.as_str());
            append(out, &chars_of("\"}"));
        },
    }
}

/// The edits' JSON, one more edit at a time.
proof fn lemma_edits_json_take(es: Seq<EditView>, i: int)
    requires
        0 <= i < es.len(),
    ensures
        edits_json(es.take(i + 1)) == if i == 0 {
            edit_json(es[0])
        } else {
            edits_json(es.take(i)) + ","@ + edit_json(es[i])
        },
    decreases i,
{
    let t = es.take(i + 1);
    if i == 0 {
        assert(t[0] == es[0]);
    } else {
        let d = es.drop_first();
        assert(t.drop_first() == d.take(i));
        assert(es.take(i).drop_first() == d.take(i - 1));
        lemma_edits_json_take(d, i - 1);
        assert(d[i - 1] == es[i]);
        if i == 1 {
            assert(es.take(i)[0] == es[0]);
        } else {
            assert(es.take(i)[0] == es[0]);
        }
    }
}

/// Serialise `result` to one JSON object.
///
/// The object carries every field (`path`, `original`, `proposed`, the `edits`
/// list and the `applied` boolean), with text values JSON-escaped, in a fixed
/// whitespace-free layout.
pub fn emit_json(result: &JsonResult) -> (r: String)
    ensures
        r@ == result_json(result@),
{
    let ghost ev = edits_view(result.edits@);
    let mut out = chars_of("{\"path\":\"");
    escape_into(&mut out, result.path.as_str());
    append(&mut out, &chars_of("\",\"original\":\""));
    escape_into(&mut out, result.original.as_str());
    append(&mut out, &chars_of("\",\"proposed\":\""));
    escape_into(&mut out, result.proposed.as_str());
    append(&mut out, &chars_of("\",\"edits\":["));
    let ghost head = out@;
    let mut i: usize = 0;
    proof {
        assert(ev.take(0).len() == 0);
        assert(out@ == head + edits_json(ev.take(0)));
    }
    while i < result.edits.len()
        invariant
            i <= result.edits@.len(),
            ev == edits_view(result.edits@),
            out@ == head + edits_json(ev.take(i as int)),
        decreases result.edits@.len() - i,
    {
        proof {
            lemma_edits_json_take(ev, i as int);
            assert(ev[i as int] == result.edits@[i as int]@);
        }
        if i > 0 {
            out.push(',');
            proof {
                reveal_strlit(",");
            }
        }
        edit_into(&mut out, &result.edits[i]);
        i += 1;
    }
    proof {
        assert(ev.take(result.edits@.len() as int) == ev);
    }
    append(&mut out, &chars_of("],\"applied\":"));
    if result.applied {
        append(&mut out, &chars_of("true"));
    } else {
        append(&mut out, &chars_of("false"));
    }
    append(&mut out, &chars_of("}"));
    string_of(&out)
}

// ---------------------------------------------------------------------------
// Parsing
// ---------------------------------------------------------------------------

/// A parsed JSON value, limited to the shapes [`emit_json`] produces.
enum Json {
    Str(Vec<char>),
    Bool(bool),
    Arr(Vec<Json>),
    Obj(Vec<(Vec<char>, Json)>),
}

/// The mathematical value of a [`Json`].
spec fn json_view(j: Json) -> JsonV
    decreases j,
{
    match j {
        Json::Str(s) => JsonV::Str(s@),
        Json::Bool(b) => JsonV::Bool(b),
        Json::Arr(items) => JsonV::Arr(
            Seq::new(
                items@.len(),
                |i: int|
                    if 0 <= i < items@.len() {
                        json_view(items@[i])
                    } else {
                        JsonV::Bool(false)
                    },
            ),
        ),
        Json::Obj(pairs) => JsonV::Obj(
            Seq::new(
                pairs@.len(),
                |i: int|
                    if 0 <= i < pairs@.len() {
                        (pairs@[i].0@, json_view(pairs@[i].1))
                    } else {
                        (Seq::empty(), JsonV::Bool(false))
                    },
            ),
        ),
    }
}

/// The views of a sequence of values.
spec fn json_views(items: Seq<Json>) -> Seq<JsonV> {
    Seq::new(items.len(), |i: int| json_view(items[i]))
}

/// The views of a sequence of pairs.
spec fn pair_views(pairs: Seq<(Vec<char>, Json)>) -> Seq<(Seq<char>, JsonV)> {
    Seq::new(pairs.len(), |i: int| (pairs[i].0@, json_view(pairs[i].1)))
}

/// Unescaping one step at a time.
proof fn lemma_unescape_step(raw: Seq<char>, i: int)
    requires
        0 <= i < raw.len(),
    ensures
        unescape(raw.skip(i)) == if raw[i] == '\\' {
            if i + 1 == raw.len() {
                seq!['\\']
            } else if raw[i + 1] == 'n' {
                seq!['\n'] + unescape(raw.skip(i + 2))
            } else {
                seq![raw[i + 1]] + unescape(raw.skip(i + 2))
            }
        } else {
            seq![raw[i]] + unescape(raw.skip(i + 1))
        },
{
    let t = raw.skip(i);
    assert(t[0] == raw[i]);
    if t.len() > 1 {
        assert(t[1] == raw[i + 1]);
        assert(t.skip(2) == raw.skip(i + 2));
    }
    assert(t.drop_first() == raw.skip(i + 1));
}

/// The reverse of [`escape`]: escape pairs back to the characters they stand for.
fn unescape_exec(raw: &Vec<char>) -> (r: Vec<char>)
    ensures
        r@ == unescape(raw@),
{
    let n = raw.len();
    let mut out: Vec<char> = Vec::new();
    let mut i: usize = 0;
    proof {
        assert(raw@.skip(0) == raw@);
    }
    while i < n
        invariant
            n == raw@.len(),
            i <= n,
            out@ + unescape(raw@.skip(i as int)) == unescape(raw@),
        decreases n - i,
    {
        proof {
            lemma_unescape_step(raw@, i as int);
        }
        let ghost prev = out@;
        let c = raw[i];
        if c == '\\' {
            if i + 1 == n {
                out.push('\\');
                proof {
                    assert(raw@.skip(n as int).len() == 0);
                    assert(out@ + unescape(raw@.skip(n as int)) == prev + seq!['\\']);
                }
                i = n;
            } else {
                let d = raw[i + 1];
                if d == 'n' {
                    out.push('\n');
                } else {
                    out.push(d);
                }
                proof {
                    assert(out@ + unescape(raw@.skip(i + 2)) == prev + unescape(raw@.skip(i as int)));
                }
                i = i + 2;
            }
        } else {
            out.push(c);
            proof {
                assert(out@ + unescape(raw@.skip(i + 1)) == prev + unescape(raw@.skip(i as int)));
            }
            i = i + 1;
        }
    }
    proof {
        assert(raw@.skip(n as int).len() == 0);
        assert(out@ + Seq::<char>::empty() == out@);
    }
    out
}

/// A string literal starting at `p` (its first character taken as the
/// opening quote) and the position after its closing quote.
fn string_at(s: &Vec<char>, p: usize) -> (r: Option<(Vec<char>, usize)>)
    requires
        p <= s@.len(),
    ensures
        match r {
            Some((v, q)) => string_lit(s@.skip(p as int)) == Some((v@, s@.skip(q as int))) && p
                < q <= s@.len(),
            None => string_lit(s@.skip(p as int)) is None,
        },
{
    let n = s.len();
    let start = if p < n {
        p + 1
    } else {
        p
    };
    proof {
        assert(advance(s@.skip(p as int)) == s@.skip(start as int));
    }
    let mut raw: Vec<char> = Vec::new();
    let mut q: usize = start;
    while q < n
        invariant
            n == s@.len(),
            p <= start <= q <= n,
            p < n ==> p < start,
            string_body(s@.skip(q as int), raw@) == string_lit(s@.skip(p as int)),
        decreases n - q,
    {
        let c = s[q];
        let ghost t = s@.skip(q as int);
        proof {
            assert(t[0] == c);
        }
        if c == '"' {
            let v = unescape_exec(&raw);
            proof {
                assert(t.drop_first() == s@.skip(q + 1));
            }
            return Some((v, q + 1));
        } else if c == '\\' {
            if q + 1 == n {
                return None;
            }
            let d = s[q + 1];
            let ghost prev = raw@;
            raw.push('\\');
            raw.push(d);
            proof {
                assert(t[1] == d);
                assert(t.skip(2) == s@.skip(q + 2));
                assert(raw@ == prev + seq!['\\', d]);
            }
            q = q + 2;
        } else {
            raw.push(c);
            proof {
                assert(t.drop_first() == s@.skip(q + 1));
            }
            q = q + 1;
        }
    }
    proof {
        assert(s@.skip(q as int).len() == 0);
    }
    None
}

/// One JSON value starting at `p`, and the position after it.
fn value_at(s: &Vec<char>, p: usize) -> (r: Option<(Json, usize)>)
    requires
        p <= s@.len(),
    ensures
        match r {
            Some((v, q)) => json_value(s@.skip(p as int)) == Some((json_view(v), s@.skip(q as int)))
                && p < q <= s@.len(),
            None => json_value(s@.skip(p as int)) is None,
        },
    decreases s@.len() - p, 0nat,
{
    let n = s.len();
    if p == n {
        return None;
    }
    let c = s[p];
    let ghost t = s@.skip(p as int);
    proof {
        assert(t[0] == c);
        assert(t.drop_first() == s@.skip(p + 1));
    }
    if c == '"' {
        match string_at(s, p) {
            Some((v, q)) => Some((Json::Str(v), q)),
            None => None,
        }
    } else if c == '[' {
        let none: Vec<Json> = Vec::new();
        proof {
            assert(json_views(none@) =~= Seq::<JsonV>::empty());
        }
        if p + 1 < n && s[p + 1] == ']' {
            proof {
                assert(t[1] == s@[p + 1]);
                assert(t.skip(2) == s@.skip(p + 2));
                let j = Json::Arr(none);
                assert(json_view(j)->Arr_0 =~= Seq::<JsonV>::empty());
            }
            return Some((Json::Arr(none), p + 2));
        }
        match items_at(s, p + 1, none) {
            Some((items, q)) => {
                proof {
                    let j = Json::Arr(items);
                    assert(json_view(j) == JsonV::Arr(json_views(items@))) by {
                        assert(json_view(j)->Arr_0 =~= json_views(items@));
                    }
                }
                Some((Json::Arr(items), q))
            },
            None => None,
        }
    } else if c == '{' {
        let none: Vec<(Vec<char>, Json)> = Vec::new();
        proof {
            assert(pair_views(none@) =~= Seq::<(Seq<char>, JsonV)>::empty());
        }
        match pairs_at(s, p + 1, none) {
            Some((pairs, q)) => {
                proof {
                    let j = Json::Obj(pairs);
                    assert(json_view(j) == JsonV::Obj(pair_views(pairs@))) by {
                        assert(json_view(j)->Obj_0 =~= pair_views(pairs@));
                    }
                }
                Some((Json::Obj(pairs), q))
            },
            None => None,
        }
    } else if c == 't' {
        let q = if n - p >= 4 {
            p + 4
        } else {
            n
        };
        proof {
            if n - p >= 4 {
                assert(t.skip(4) == s@.skip(q as int));
            } else {
                assert(s@.skip(q as int).len() == 0);
            }
        }
        Some((Json::Bool(true), q))
    } else if c == 'f' {
        let q = if n - p >= 5 {
            p + 5
        } else {
            n
        };
        proof {
            if n - p >= 5 {
                assert(t.skip(5) == s@.skip(q as int));
            } else {
                assert(s@.skip(q as int).len() == 0);
            }
        }
        Some((Json::Bool(false), q))
    } else {
        None
    }
}

/// The items of an array starting at `p` (after the opening bracket), added to
/// `acc`, and the position after the array.
fn items_at(s: &Vec<char>, p: usize, acc: Vec<Json>) -> (r: Option<(Vec<Json>, usize)>)
    requires
        p <= s@.len(),
    ensures
        match r {
            Some((items, q)) => json_items(s@.skip(p as int), json_views(acc@)) == Some(
                (json_views(items@), s@.skip(q as int)),
            ) && p < q <= s@.len(),
            None => json_items(s@.skip(p as int), json_views(acc@)) is None,
        },
    decreases s@.len() - p, 1nat,
{
    let n = s.len();
    match value_at(s, p) {
        None => None,
        Some((v, q)) => {
            let ghost r2 = s@.skip(q as int);
            let mut acc = acc;
            let ghost prev = acc@;
            acc.push(v);
            proof {
                assert(json_views(acc@) =~= json_views(prev).push(json_view(v)));
            }
            if q < n && s[q] == ',' {
                proof {
                    assert(r2[0] == s@[q as int]);
                    assert(r2.drop_first() == s@.skip(q + 1));
                }
                items_at(s, q + 1, acc)
            } else {
                let q2 = if q < n {
                    q + 1
                } else {
                    q
                };
                proof {
                    if q < n {
                        assert(r2[0] == s@[q as int]);
                        assert(r2.drop_first() == s@.skip(q2 as int));
                    }
                }
                Some((acc, q2))
            }
        },
    }
}

/// The pairs of an object starting at `p` (after the opening brace), added to
/// `acc`, and the position after the object.
fn pairs_at(s: &Vec<char>, p: usize, acc: Vec<(Vec<char>, Json)>) -> (r: Option<
    (Vec<(Vec<char>, Json)>, usize),
>)
    requires
        p <= s@.len(),
    ensures
        match r {
            Some((pairs, q)) => json_pairs(s@.skip(p as int), pair_views(acc@)) == Some(
                (pair_views(pairs@), s@.skip(q as int)),
            ) && p < q <= s@.len(),
            None => json_pairs(s@.skip(p as int), pair_views(acc@)) is None,
        },
    decreases s@.len() - p, 1nat,
{
    let n = s.len();
    match string_at(s, p) {
        None => None,
        Some((k, q1)) => {
            let q2 = if q1 < n {
                q1 + 1
            } else {
                q1
            };
            proof {
                let r1 = s@.skip(q1 as int);
                if q1 < n {
                    assert(r1.drop_first() == s@.skip(q2 as int));
                }
            }
            match value_at(s, q2) {
                None => None,
                Some((v, q3)) => {
                    let ghost r3 = s@.skip(q3 as int);
                    let mut acc = acc;
                    let ghost prev = acc@;
                    acc.push((k, v));
                    proof {
                        assert(pair_views(acc@) =~= pair_views(prev).push((k@, json_view(v))));
                    }
                    if q3 < n && s[q3] == ',' {
                        proof {
                            assert(r3[0] == s@[q3 as int]);
                            assert(r3.drop_first() == s@.skip(q3 + 1));
                        }
                        pairs_at(s, q3 + 1, acc)
                    } else {
                        let q4 = if q3 < n {
                            q3 + 1
                        } else {
                            q3
                        };
                        proof {
                            if q3 < n {
                                assert(r3[0] == s@[q3 as int]);
                                assert(r3.drop_first() == s@.skip(q4 as int));
                            }
                        }
                        Some((acc, q4))
                    }
                },
            }
        },
    }
}

/// A string value.
fn as_string(v: &Json) -> (r: Option<Vec<char>>)
    ensures
        match r {
            Some(x) => as_str(json_view(*v)) == Some(x@),
            None => as_str(json_view(*v)) is None,
        },
{
    match v {
        Json::Str(x) => Some(subrange(x, 0, x.len())),
        _ => None,
    }
}

/// Expect a string value for a recognised key.
fn pair_value(pairs: &Vec<(Vec<char>, Json)>, i: usize) -> (r: Option<Vec<char>>)
    requires
        i < pairs@.len(),
    ensures
        match r {
            Some(x) => as_str(pair_views(pairs@)[i as int].1) == Some(x@),
            None => as_str(pair_views(pairs@)[i as int].1) is None,
        },
{
    as_string(&pairs[i].1)
}

/// One edit from an edit object.
fn edit_from(v: &Json) -> (r: Option<ParsedEdit>)
    ensures
        match r {
            Some(e) => edit_of(json_view(*v)) == Some(e@),
            None => edit_of(json_view(*v)) is None,
        },
{
    let pairs = match v {
        Json::Obj(pairs) => pairs,
        _ => {
            return None;
        },
    };
    let ghost pv = pair_views(pairs@);
    proof {
        assert(json_view(*v) == JsonV::Obj(pv)) by {
            assert(json_view(*v)->Obj_0 =~= pv);
        }
    }
    let k_type = chars_of("type");
    let k_search = chars_of("search");
    let k_replace = chars_of("replace");
    let k_body = chars_of("body");
    let mut kind: Vec<char> = Vec::new();
    let mut search: Vec<char> = Vec::new();
    let mut replace: Vec<char> = Vec::new();
    let mut body: Vec<char> = Vec::new();
    let mut i: usize = 0;
    proof {
        assert(pv.take(0).len() == 0);
    }
    while i < pairs.len()
        invariant
            i <= pairs@.len(),
            pv == pair_views(pairs@),
            json_view(*v) == JsonV::Obj(pv),
            k_type@ == "type"@,
            k_search@ == "search"@,
            k_replace@ == "replace"@,
            k_body@ == "body"@,
            edit_fields(pv.take(i as int)) == Some(
                EditFields { kind: kind@, search: search@, replace: replace@, body: body@ },
            ),
        decreases pairs@.len() - i,
    {
        proof {
            assert(pv.take(i + 1).drop_last() == pv.take(i as int));
            assert(pv.take(i + 1).last() == pv[i as int]);
            assert(pv[i as int].0 == pairs@[i as int].0@);
        }
        let key = &pairs[i].0;
        if chars_eq(key, &k_type) {
            match pair_value(pairs, i) {
                Some(x) => {
                    kind = x;
                },
                None => {
                    proof {
                        lemma_edit_fields_none(pv, i + 1);
                    }
                    return None;
                },
            }
        } else if chars_eq(key, &k_search) {
            match pair_value(pairs, i) {
                Some(x) => {
                    search = x;
                },
                None => {
                    proof {
                        lemma_edit_fields_none(pv, i + 1);
                    }
                    return None;
                },
            }
        } else if chars_eq(key, &k_replace) {
            match pair_value(pairs, i) {
                Some(x) => {
                    replace = x;
                },
                None => {
                    proof {
                        lemma_edit_fields_none(pv, i + 1);
                    }
                    return None;
                },
            }
        } else if chars_eq(key, &k_body) {
            match pair_value(pairs, i) {
                Some(x) => {
                    body = x;
                },
                None => {
                    proof {
                        lemma_edit_fields_none(pv, i + 1);
                    }
                    return None;
                },
            }
        }
        i += 1;
    }
    proof {
        assert(pv.take(pairs@.len() as int) == pv);
    }
    if chars_eq(&kind, &chars_of("search_replace")) {
        Some(ParsedEdit::SearchReplace { search: string_of(&search), replace: string_of(&replace) })
    } else if chars_eq(&kind, &chars_of("whole_file")) {
        Some(ParsedEdit::WholeFile { body: string_of(&body) })
    } else {
        None
    }
}

/// Once reading the fields of an edit object fails, it stays failed.
proof fn lemma_edit_fields_none(pairs: Seq<(Seq<char>, JsonV)>, j: int)
    requires
        0 <= j <= pairs.len(),
        edit_fields(pairs.take(j)) is None,
    ensures
        edit_fields(pairs) is None,
    decreases pairs.len() - j,
{
    if j == pairs.len() {
        assert(pairs.take(j) == pairs);
    } else {
        assert(pairs.take(j + 1).drop_last() == pairs.take(j));
        lemma_edit_fields_none(pairs, j + 1);
    }
}

/// Once reading the fields of a result object fails, it stays failed.
proof fn lemma_result_fields_none(pairs: Seq<(Seq<char>, JsonV)>, j: int)
    requires
        0 <= j <= pairs.len(),
        result_fields(pairs.take(j)) is None,
    ensures
        result_fields(pairs) is None,
    decreases pairs.len() - j,
{
    if j == pairs.len() {
        assert(pairs.take(j) == pairs);
    } else {
        assert(pairs.take(j + 1).drop_last() == pairs.take(j));
        lemma_result_fields_none(pairs, j + 1);
    }
}

/// Once reading the edits of an array fails, it stays failed.
proof fn lemma_edits_of_items_none(items: Seq<JsonV>, j: int)
    requires
        0 <= j <= items.len(),
        edits_of_items(items.take(j)) is None,
    ensures
        edits_of_items(items) is None,
    decreases items.len() - j,
{
    if j == items.len() {
        assert(items.take(j) == items);
    } else {
        assert(items.take(j + 1).drop_last() == items.take(j));
        lemma_edits_of_items_none(items, j + 1);
    }
}

/// The edits of an array of edit objects.
fn edits_from(v: &Json) -> (r: Option<Vec<ParsedEdit>>)
    ensures
        match r {
            Some(es) => edits_of(json_view(*v)) == Some(edits_view(es@)),
            None => edits_of(json_view(*v)) is None,
        },
{
    let items = match v {
        Json::Arr(items) => items,
        _ => {
            return None;
        },
    };
    let ghost iv = json_views(items@);
    proof {
        assert(json_view(*v) == JsonV::Arr(iv)) by {
            assert(json_view(*v)->Arr_0 =~= iv);
        }
    }
    let mut out: Vec<ParsedEdit> = Vec::new();
    let mut i: usize = 0;
    proof {
        assert(iv.take(0).len() == 0);
        assert(edits_view(out@) =~= Seq::<EditView>::empty());
    }
    while i < items.len()
        invariant
            i <= items@.len(),
            iv == json_views(items@),
            json_view(*v) == JsonV::Arr(iv),
            edits_of_items(iv.take(i as int)) == Some(edits_view(out@)),
        decreases items@.len() - i,
    {
        proof {
            assert(iv.take(i + 1).drop_last() == iv.take(i as int));
            assert(iv.take(i + 1).last() == iv[i as int]);
            assert(iv[i as int] == json_view(items@[i as int]));
        }
        match edit_from(&items[i]) {
            Some(e) => {
                let ghost prev = out@;
                out.push(e);
                proof {
                    lemma_edits_view_push(prev, e);
                }
            },
            None => {
                proof {
                    lemma_edits_of_items_none(iv, i + 1);
                }
                return None;
            },
        }
        i += 1;
    }
    proof {
        assert(iv.take(items@.len() as int) == iv);
    }
    Some(out)
}

/// Parse the JSON produced by [`emit_json`] back into a [`JsonResult`].
///
/// The object is read field by field; recognised keys populate the result and
/// any unknown key is ignored. Text whose leading value is not an object of the
/// expected shape is `MendError::Parse`.
pub fn parse_json(json: &str) -> (r: Result<JsonResult>)
    ensures
        match parsed_result(json@) {
            Some(v) => r matches Ok(res) && res@ == v,
            None => r matches Err(MendError::Parse(m)) && m@ == "malformed JSON result"@,
        },
{
    let s = chars_of(json);
    proof {
        assert(s@.skip(0) == s@);
    }
    let pairs = match value_at(&s, 0) {
        Some((Json::Obj(pairs), _)) => pairs,
        Some((v, q)) => {
            proof {
                assert(!(json_view(v) is Obj));
            }
            return Err(MendError::Parse("malformed JSON result".to_owned()));
        },
        None => {
            return Err(MendError::Parse("malformed JSON result".to_owned()));
        },
    };
    let ghost pv = pair_views(pairs@);
    proof {
        assert(json_view(Json::Obj(pairs)) == JsonV::Obj(pv)) by {
            assert(json_view(Json::Obj(pairs))->Obj_0 =~= pv);
        }
        assert(parsed_result(json@) == result_fields(pv));
    }
    let k_path = chars_of("path");
    let k_original = chars_of("original");
    let k_proposed = chars_of("proposed");
    let k_edits = chars_of("edits");
    let k_applied = chars_of("applied");
    let mut path: Vec<char> = Vec::new();
    let mut original: Vec<char> = Vec::new();
    let mut proposed: Vec<char> = Vec::new();
    let mut edits: Vec<ParsedEdit> = Vec::new();
    let mut applied = false;
    let mut i: usize = 0;
    proof {
        assert(pv.take(0).len() == 0);
        assert(edits_view(edits@) =~= Seq::<EditView>::empty());
    }
    while i < pairs.len()
        invariant
            i <= pairs@.len(),
            pv == pair_views(pairs@),
            parsed_result(json@) == result_fields(pv),
            k_path@ == "path"@,
            k_original@ == "original"@,
            k_proposed@ == "proposed"@,
            k_edits@ == "edits"@,
            k_applied@ == "applied"@,
            result_fields(pv.take(i as int)) == Some(
                ResultView {
                    path: path@,
                    original: original@,
                    proposed: proposed@,
                    edits: edits_view(edits@),
                    applied,
                },
            ),
        decreases pairs@.len() - i,
    {
        proof {
            assert(pv.take(i + 1).drop_last() == pv.take(i as int));
            assert(pv.take(i + 1).last() == pv[i as int]);
            assert(pv[i as int].0 == pairs@[i as int].0@);
            assert(pv[i as int].1 == json_view(pairs@[i as int].1));
        }
        let key = &pairs[i].0;
        let val = &pairs[i].1;
        if chars_eq(key, &k_path) {
            match as_string(val) {
                Some(x) => {
                    path = x;
                },
                None => {
                    proof {
                        lemma_result_fields_none(pv, i + 1);
                    }
                    return Err(MendError::Parse("malformed JSON result".to_owned()));
                },
            }
        } else if chars_eq(key, &k_original) {
            match as_string(val) {
                Some(x) => {
                    original = x;
                },
                None => {
                    proof {
                        lemma_result_fields_none(pv, i + 1);
                    }
                    return Err(MendError::Parse("malformed JSON result".to_owned()));
                },
            }
        } else if chars_eq(key, &k_proposed) {
            match as_string(val) {
                Some(x) => {
                    proposed = x;
                },
                None => {
                    proof {
                        lemma_result_fields_none(pv, i + 1);
                    }
                    return Err(MendError::Parse("malformed JSON result".to_owned()));
                },
            }
        } else if chars_eq(key, &k_edits) {
            match edits_from(val) {
                Some(x) => {
                    edits = x;
                },
                None => {
                    proof {
                        lemma_result_fields_none(pv, i + 1);
                    }
                    return Err(MendError::Parse("malformed JSON result".to_owned()));
                },
            }
        } else if chars_eq(key, &k_applied) {
            match val {
                Json::Bool(b) => {
                    applied = *b;
                },
                _ => {
                    proof {
                        lemma_result_fields_none(pv, i + 1);
                    }
                    return Err(MendError::Parse("malformed JSON result".to_owned()));
                },
            }
        }
        i += 1;
    }
    proof {
        assert(pv.take(pairs@.len() as int) == pv);
    }
    Ok(
        JsonResult {
            path: string_of(&path),
            original: string_of(&original),
            proposed: string_of(&proposed),
            edits,
            applied,
        },
    )
}

// ---------------------------------------------------------------------------
// Law: emitting then parsing gives the result back
// ---------------------------------------------------------------------------

/// Unescaping undoes escaping.
proof fn lemma_unescape_escape(x: Seq<char>)
    ensures
        unescape(escape(x)) == x,
    decreases x.len(),
{
    if x.len() > 0 {
        let c = x[0];
        let rest = escape(x.drop_first());
        let e = escape(x);
        assert(e == escape_char(c) + rest);
        lemma_unescape_escape(x.drop_first());
        if c == '\\' || c == '"' || c == '\n' {
            assert(e[0] == '\\');
            assert(e.skip(2) == rest);
        } else {
            assert(e[0] == c);
            assert(e.drop_first() == rest);
        }
        assert(x == seq![c] + x.drop_first());
    }
}

/// Reading the body of an emitted string literal.
proof fn lemma_string_body_escaped(y: Seq<char>, raw: Seq<char>, rest: Seq<char>)
    ensures
        string_body(escape(y) + seq!['"'] + rest, raw) == Some(
            (unescape(raw + escape(y)), rest),
        ),
    decreases y.len(),
{
    let r = escape(y) + seq!['"'] + rest;
    if y.len() == 0 {
        assert(escape(y) == Seq::<char>::empty());
        assert(r == seq!['"'] + rest);
        assert(r[0] == '"');
        assert(r.drop_first() == rest);
        assert(raw + escape(y) == raw);
    } else {
        let c = y[0];
        let ec = escape_char(c);
        let tail = escape(y.drop_first());
        assert(escape(y) == ec + tail);
        lemma_string_body_escaped(y.drop_first(), raw + ec, rest);
        assert(raw + ec + tail == raw + escape(y));
        if c == '\\' || c == '"' || c == '\n' {
            assert(r[0] == '\\');
            assert(r[1] == ec[1]);
            assert(ec == seq!['\\', r[1]]);
            assert(r.skip(2) == tail + seq!['"'] + rest);
        } else {
            assert(r[0] == c);
            assert(raw.push(c) == raw + ec);
            assert(r.drop_first() == tail + seq!['"'] + rest);
        }
    }
}

/// The JSON string literal for a text.
pub open spec fn str_json(x: Seq<char>) -> Seq<char> {
    seq!['"'] + escape(x) + seq!['"']
}

/// Reading an emitted string literal, whatever its first character.
proof fn lemma_string_lit(c: char, x: Seq<char>, rest: Seq<char>)
    ensures
        string_lit(seq![c] + escape(x) + seq!['"'] + rest) == Some((x, rest)),
{
    let r = seq![c] + escape(x) + seq!['"'] + rest;
    assert(advance(r) == escape(x) + seq!['"'] + rest);
    lemma_string_body_escaped(x, Seq::empty(), rest);
    assert(Seq::<char>::empty() + escape(x) == escape(x));
    lemma_unescape_escape(x);
}

/// Reading an emitted string value.
proof fn lemma_value_str(x: Seq<char>, rest: Seq<char>)
    ensures
        json_value(str_json(x) + rest) == Some((JsonV::Str(x), rest)),
{
    let r = str_json(x) + rest;
    assert(r == seq!['"'] + escape(x) + seq!['"'] + rest);
    assert(r[0] == '"');
    lemma_string_lit('"', x, rest);
}

/// Reading an emitted boolean value.
proof fn lemma_value_bool(b: bool, rest: Seq<char>)
    ensures
        json_value(bool_json(b) + rest) == Some((JsonV::Bool(b), rest)),
{
    reveal_strlit("true");
    reveal_strlit("false");
    let r = bool_json(b) + rest;
    if b {
        assert(r[0] == 't');
        assert(r.skip(4) == rest);
    } else {
        assert(r[0] == 'f');
        assert(r.skip(5) == rest);
    }
}

/// Key/text pairs written as `"key":text`, separated by commas.
pub open spec fn pairs_json(kts: Seq<(Seq<char>, Seq<char>)>) -> Seq<char>
    decreases kts.len(),
{
    if kts.len() == 0 {
        Seq::empty()
    } else if kts.len() == 1 {
        seq!['"'] + kts[0].0 + seq!['"', ':'] + kts[0].1
    } else {
        seq!['"'] + kts[0].0 + seq!['"', ':'] + kts[0].1 + seq![','] + pairs_json(kts.drop_first())
    }
}

/// The keys of `kts` paired with `vals`.
pub open spec fn zip_keys(kts: Seq<(Seq<char>, Seq<char>)>, vals: Seq<JsonV>) -> Seq<
    (Seq<char>, JsonV),
> {
    Seq::new(kts.len(), |i: int| (kts[i].0, vals[i]))
}

/// Reading one emitted pair and looking at what follows it.
proof fn lemma_pair_step(
    k: Seq<char>,
    t: Seq<char>,
    v: JsonV,
    x: Seq<char>,
    acc: Seq<(Seq<char>, JsonV)>,
)
    requires
        escape(k) == k,
        json_value(t + x) == Some((v, x)),
        x.len() > 0,
    ensures
        json_pairs(seq!['"'] + k + seq!['"', ':'] + t + x, acc) == if x[0] == ',' {
            json_pairs(x.drop_first(), acc.push((k, v)))
        } else {
            Some((acc.push((k, v)), advance(x)))
        },
{
    let r = seq!['"'] + k + seq!['"', ':'] + t + x;
    assert(r == seq!['"'] + escape(k) + seq!['"'] + (seq![':'] + t + x));
    lemma_string_lit('"', k, seq![':'] + t + x);
    assert(advance(seq![':'] + t + x) == t + x);
}

/// Reading the emitted pairs of an object up to its closing brace.
#[verifier::spinoff_prover]
proof fn lemma_pairs(
    kts: Seq<(Seq<char>, Seq<char>)>,
    vals: Seq<JsonV>,
    acc: Seq<(Seq<char>, JsonV)>,
    rest: Seq<char>,
)
    requires
        kts.len() == vals.len(),
        kts.len() >= 1,
        forall|i: int| 0 <= i < kts.len() ==> escape(#[trigger] kts[i].0) == kts[i].0,
        forall|i: int, r: Seq<char>|
            0 <= i < kts.len() ==> #[trigger] json_value(kts[i].1 + r) == Some((vals[i], r)),
    ensures
        json_pairs(pairs_json(kts) + seq!['}'] + rest, acc) == Some(
            (acc + zip_keys(kts, vals), rest),
        ),
    decreases kts.len(),
{
    let k = kts[0].0;
    let t = kts[0].1;
    assert(escape(kts[0].0) == kts[0].0);
    if kts.len() == 1 {
        let x = seq!['}'] + rest;
        assert(json_value(kts[0].1 + x) == Some((vals[0], x)));
        assert(pairs_json(kts) + seq!['}'] + rest == seq!['"'] + k + seq!['"', ':'] + t + x);
        lemma_pair_step(k, t, vals[0], x, acc);
        assert(x[0] == '}');
        assert(advance(x) == rest);
        assert(acc.push((k, vals[0])) =~= acc + zip_keys(kts, vals));
    } else {
        let kts2 = kts.drop_first();
        let vals2 = vals.drop_first();
        let x = seq![','] + pairs_json(kts2) + seq!['}'] + rest;
        assert(json_value(kts[0].1 + x) == Some((vals[0], x)));
        assert(pairs_json(kts) + seq!['}'] + rest == seq!['"'] + k + seq!['"', ':'] + t + x);
        lemma_pair_step(k, t, vals[0], x, acc);
        assert(x[0] == ',');
        assert(x.drop_first() == pairs_json(kts2) + seq!['}'] + rest);
        assert forall|i: int| 0 <= i < kts2.len() implies escape(#[trigger] kts2[i].0)
            == kts2[i].0 by {
            assert(kts2[i] == kts[i + 1]);
        }
        assert forall|i: int, r2: Seq<char>| 0 <= i < kts2.len() implies #[trigger] json_value(
            kts2[i].1 + r2,
        ) == Some((vals2[i], r2)) by {
            assert(kts2[i] == kts[i + 1]);
            assert(json_value(kts[i + 1].1 + r2) == Some((vals[i + 1], r2)));
        }
        lemma_pairs(kts2, vals2, acc.push((k, vals[0])), rest);
        assert(acc.push((k, vals[0])) + zip_keys(kts2, vals2) =~= acc + zip_keys(kts, vals));
    }
}

/// Reading an emitted object.
proof fn lemma_value_obj(kts: Seq<(Seq<char>, Seq<char>)>, vals: Seq<JsonV>, rest: Seq<char>)
    requires
        kts.len() == vals.len(),
        kts.len() >= 1,
        forall|i: int| 0 <= i < kts.len() ==> escape(#[trigger] kts[i].0) == kts[i].0,
        forall|i: int, r: Seq<char>|
            0 <= i < kts.len() ==> #[trigger] json_value(kts[i].1 + r) == Some((vals[i], r)),
    ensures
        json_value(seq!['{'] + pairs_json(kts) + seq!['}'] + rest) == Some(
            (JsonV::Obj(zip_keys(kts, vals)), rest),
        ),
{
    let r = seq!['{'] + pairs_json(kts) + seq!['}'] + rest;
    assert(r[0] == '{');
    assert(r.drop_first() == pairs_json(kts) + seq!['}'] + rest);
    lemma_pairs(kts, vals, Seq::empty(), rest);
    assert(Seq::<(Seq<char>, JsonV)>::empty() + zip_keys(kts, vals) == zip_keys(kts, vals));
}

/// Text free of the characters JSON escaping rewrites is its own escape.
proof fn lemma_escape_plain(x: Seq<char>)
    requires
        forall|i: int| 0 <= i < x.len() ==> x[i] != '\\' && x[i] != '"' && x[i] != '\n',
    ensures
        escape(x) == x,
    decreases x.len(),
{
    if x.len() > 0 {
        lemma_escape_plain(x.drop_first());
        assert(x == seq![x[0]] + x.drop_first());
    }
}

/// The value an emitted edit object parses to.
pub open spec fn edit_value(e: EditView) -> JsonV {
    match e {
        EditView::SearchReplace { search, replace } => JsonV::Obj(
            seq![
                ("type"@, JsonV::Str("search_replace"@)),
                ("search"@, JsonV::Str(search)),
                ("replace"@, JsonV::Str(replace)),
            ],
        ),
        EditView::WholeFile { body } => JsonV::Obj(
            seq![("type"@, JsonV::Str("whole_file"@)), ("body"@, JsonV::Str(body))],
        ),
    }
}

/// The values emitted edit objects parse to.
pub open spec fn edit_values(es: Seq<EditView>) -> Seq<JsonV> {
    es.map_values(|e: EditView| edit_value(e))
}

/// The key/text pairs of an emitted edit object.
pub open spec fn edit_pairs(e: EditView) -> Seq<(Seq<char>, Seq<char>)> {
    match e {
        EditView::SearchReplace { search, replace } => seq![
            ("type"@, str_json("search_replace"@)),
            ("search"@, str_json(search)),
            ("replace"@, str_json(replace)),
        ],
        EditView::WholeFile { body } => seq![
            ("type"@, str_json("whole_file"@)),
            ("body"@, str_json(body)),
        ],
    }
}

/// The literal keys and tags used by the emitter.
proof fn lemma_literals()
    ensures
        "type"@ == seq!['t', 'y', 'p', 'e'],
        "search"@ == seq!['s', 'e', 'a', 'r', 'c', 'h'],
        "replace"@ == seq!['r', 'e', 'p', 'l', 'a', 'c', 'e'],
        "body"@ == seq!['b', 'o', 'd', 'y'],
        "search_replace"@ == seq!['s', 'e', 'a', 'r', 'c', 'h', '_', 'r', 'e', 'p', 'l', 'a', 'c', 'e'],
        "whole_file"@ == seq!['w', 'h', 'o', 'l', 'e', '_', 'f', 'i', 'l', 'e'],
        "path"@ == seq!['p', 'a', 't', 'h'],
        "original"@ == seq!['o', 'r', 'i', 'g', 'i', 'n', 'a', 'l'],
        "proposed"@ == seq!['p', 'r', 'o', 'p', 'o', 's', 'e', 'd'],
        "edits"@ == seq!['e', 'd', 'i', 't', 's'],
        "applied"@ == seq!['a', 'p', 'p', 'l', 'i', 'e', 'd'],
        escape("type"@) == "type"@,
        escape("search"@) == "search"@,
        escape("replace"@) == "replace"@,
        escape("body"@) == "body"@,
        escape("search_replace"@) == "search_replace"@,
        escape("whole_file"@) == "whole_file"@,
        escape("path"@) == "path"@,
        escape("original"@) == "original"@,
        escape("proposed"@) == "proposed"@,
        escape("edits"@) == "edits"@,
        escape("applied"@) == "applied"@,
{
    reveal_strlit("type");
    reveal_strlit("search");
    reveal_strlit("replace");
    reveal_strlit("body");
    reveal_strlit("search_replace");
    reveal_strlit("whole_file");
    reveal_strlit("path");
    reveal_strlit("original");
    reveal_strlit("proposed");
    reveal_strlit("edits");
    reveal_strlit("applied");
    lemma_escape_plain("type"@);
    lemma_escape_plain("search"@);
    lemma_escape_plain("replace"@);
    lemma_escape_plain("body"@);
    lemma_escape_plain("search_replace"@);
    lemma_escape_plain("whole_file"@);
    lemma_escape_plain("path"@);
    lemma_escape_plain("original"@);
    lemma_escape_plain("proposed"@);
    lemma_escape_plain("edits"@);
    lemma_escape_plain("applied"@);
}

/// An emitted edit object is an object of its key/text pairs.
#[verifier::spinoff_prover]
proof fn lemma_edit_json_shape(e: EditView)
    ensures
        edit_json(e) == seq!['{'] + pairs_json(edit_pairs(e)) + seq!['}'],
{
    lemma_literals();
    let kts = edit_pairs(e);
    match e {
        EditView::SearchReplace { search, replace } => {
            reveal_strlit("{\"type\":\"search_replace\",\"search\":\"");
            reveal_strlit("\",\"replace\":\"");
            reveal_strlit("\"}");
            let d1 = kts.drop_first();
            let d2 = d1.drop_first();
            assert(pairs_json(d2) == seq!['"'] + kts[2].0 + seq!['"', ':'] + kts[2].1);
            assert(pairs_json(d1) == seq!['"'] + kts[1].0 + seq!['"', ':'] + kts[1].1 + seq![',']
                + pairs_json(d2));
            assert(pairs_json(kts) == seq!['"'] + kts[0].0 + seq!['"', ':'] + kts[0].1 + seq![',']
                + pairs_json(d1));
            assert(edit_json(e) =~= seq!['{'] + pairs_json(kts) + seq!['}']);
        },
        EditView::WholeFile { body } => {
            reveal_strlit("{\"type\":\"whole_file\",\"body\":\"");
            reveal_strlit("\"}");
            let d1 = kts.drop_first();
            assert(pairs_json(d1) == seq!['"'] + kts[1].0 + seq!['"', ':'] + kts[1].1);
            assert(pairs_json(kts) == seq!['"'] + kts[0].0 + seq!['"', ':'] + kts[0].1 + seq![',']
                + pairs_json(d1));
            assert(edit_json(e) =~= seq!['{'] + pairs_json(kts) + seq!['}']);
        },
    }
}

/// Reading an emitted edit object.
proof fn lemma_value_edit(e: EditView, rest: Seq<char>)
    ensures
        json_value(edit_json(e) + rest) == Some((edit_value(e), rest)),
{
    lemma_literals();
    lemma_edit_json_shape(e);
    let kts = edit_pairs(e);
    let vals: Seq<JsonV> = match e {
        EditView::SearchReplace { search, replace } => seq![
            JsonV::Str("search_replace"@),
            JsonV::Str(search),
            JsonV::Str(replace),
        ],
        EditView::WholeFile { body } => seq![JsonV::Str("whole_file"@), JsonV::Str(body)],
    };
    assert forall|i: int| 0 <= i < kts.len() implies escape(#[trigger] kts[i].0) == kts[i].0 by {}
    assert forall|i: int, r: Seq<char>| 0 <= i < kts.len() implies #[trigger] json_value(
        kts[i].1 + r,
    ) == Some((vals[i], r)) by {
        match e {
            EditView::SearchReplace { search, replace } => {
                if i == 0 {
                    lemma_value_str("search_replace"@, r);
                } else if i == 1 {
                    lemma_value_str(search, r);
                } else {
                    lemma_value_str(replace, r);
                }
            },
            EditView::WholeFile { body } => {
                if i == 0 {
                    lemma_value_str("whole_file"@, r);
                } else {
                    lemma_value_str(body, r);
                }
            },
        }
    }
    lemma_value_obj(kts, vals, rest);
    assert(edit_json(e) + rest == seq!['{'] + pairs_json(kts) + seq!['}'] + rest);
    assert(zip_keys(kts, vals) =~= edit_value(e)->Obj_0);
}

/// An emitted edit object reads back as the edit.
proof fn lemma_edit_of_value(e: EditView)
    ensures
        edit_of(edit_value(e)) == Some(e),
{
    lemma_literals();
    let ps = edit_value(e)->Obj_0;
    let empty = EditFields {
        kind: Seq::empty(),
        search: Seq::empty(),
        replace: Seq::empty(),
        body: Seq::empty(),
    };
    assert(ps.take(0) =~= Seq::<(Seq<char>, JsonV)>::empty());
    assert(edit_fields(ps.take(0)) == Some(empty));
    assert(ps.take(1).drop_last() =~= ps.take(0));
    assert(ps.take(1).last() == ps[0]);
    let f1 = EditFields { kind: ps[0].1->Str_0, ..empty };
    assert(edit_fields(ps.take(1)) == Some(f1));
    assert(ps.take(2).drop_last() =~= ps.take(1));
    assert(ps.take(2).last() == ps[1]);
    match e {
        EditView::SearchReplace { search, replace } => {
            assert("search"@ != "type"@);
            assert("replace"@ != "type"@);
            assert("replace"@ != "search"@);
            let f2 = EditFields { search: search, ..f1 };
            assert(edit_fields(ps.take(2)) == Some(f2));
            assert(ps.take(3).drop_last() =~= ps.take(2));
            assert(ps.take(3).last() == ps[2]);
            let f3 = EditFields { replace: replace, ..f2 };
            assert(edit_fields(ps.take(3)) == Some(f3));
            assert(ps.take(3) =~= ps);
        },
        EditView::WholeFile { body } => {
            assert("body"@[0] != "type"@[0]);
            assert("body"@ != "type"@);
            assert("body"@ != "search"@);
            assert("body"@ != "replace"@);
            assert("whole_file"@ != "search_replace"@);
            let f2 = EditFields { body: body, ..f1 };
            assert(edit_fields(ps.take(2)) == Some(f2));
            assert(ps.take(2) =~= ps);
        },
    }
}

/// Reading the emitted edit objects of an array up to its closing bracket.
proof fn lemma_edit_items(es: Seq<EditView>, acc: Seq<JsonV>, rest: Seq<char>)
    requires
        es.len() >= 1,
    ensures
        json_items(edits_json(es) + seq![']'] + rest, acc) == Some(
            (acc + edit_values(es), rest),
        ),
    decreases es.len(),
{
    let e = es[0];
    if es.len() == 1 {
        let x = seq![']'] + rest;
        assert(edits_json(es) + seq![']'] + rest == edit_json(e) + x);
        lemma_value_edit(e, x);
        assert(x[0] == ']');
        assert(advance(x) == rest);
        assert(acc.push(edit_value(e)) =~= acc + edit_values(es));
    } else {
        let es2 = es.drop_first();
        reveal_strlit(",");
        let x = seq![','] + edits_json(es2) + seq![']'] + rest;
        assert(edits_json(es) + seq![']'] + rest == edit_json(e) + x);
        lemma_value_edit(e, x);
        assert(x[0] == ',');
        assert(x.drop_first() == edits_json(es2) + seq![']'] + rest);
        lemma_edit_items(es2, acc.push(edit_value(e)), rest);
        assert(acc.push(edit_value(e)) + edit_values(es2) =~= acc
            + edit_values(es));
    }
}

/// Emitted edit objects read back as the edits.
proof fn lemma_edits_of_values(es: Seq<EditView>)
    ensures
        edits_of_items(edit_values(es)) == Some(es),
    decreases es.len(),
{
    let vs = edit_values(es);
    if es.len() > 0 {
        lemma_edits_of_values(es.drop_last());
        assert(vs.drop_last() =~= edit_values(es.drop_last()));
        lemma_edit_of_value(es.last());
        assert(es.drop_last().push(es.last()) =~= es);
    } else {
        assert(es =~= Seq::<EditView>::empty());
    }
}

/// The key/text pairs of an emitted result object.
pub open spec fn result_pairs(v: ResultView) -> Seq<(Seq<char>, Seq<char>)> {
    seq![
        ("path"@, str_json(v.path)),
        ("original"@, str_json(v.original)),
        ("proposed"@, str_json(v.proposed)),
        ("edits"@, seq!['['] + edits_json(v.edits) + seq![']']),
        ("applied"@, bool_json(v.applied)),
    ]
}

/// The literal pieces the result emitter writes, split at the field
/// boundaries.
proof fn lemma_result_literals()
    ensures
        "{\"path\":\""@ == seq!['{'] + (seq!['"'] + "path"@ + seq!['"', ':']) + seq!['"'],
        "\",\"original\":\""@ == seq!['"', ','] + (seq!['"'] + "original"@ + seq!['"', ':'])
            + seq!['"'],
        "\",\"proposed\":\""@ == seq!['"', ','] + (seq!['"'] + "proposed"@ + seq!['"', ':'])
            + seq!['"'],
        "\",\"edits\":["@ == seq!['"', ','] + (seq!['"'] + "edits"@ + seq!['"', ':']) + seq!['['],
        "],\"applied\":"@ == seq![']', ','] + (seq!['"'] + "applied"@ + seq!['"', ':']),
        "}"@ == seq!['}'],
{
    reveal_strlit("{\"path\":\"");
    reveal_strlit("path");
    reveal_strlit("\",\"original\":\"");
    reveal_strlit("original");
    reveal_strlit("\",\"proposed\":\"");
    reveal_strlit("proposed");
    reveal_strlit("\",\"edits\":[");
    reveal_strlit("edits");
    reveal_strlit("],\"applied\":");
    reveal_strlit("applied");
    reveal_strlit("}");
    assert("{\"path\":\""@ =~= seq!['{'] + (seq!['"'] + "path"@ + seq!['"', ':']) + seq!['"']);
    assert("\",\"original\":\""@ =~= seq!['"', ','] + (seq!['"'] + "original"@ + seq!['"', ':'])
        + seq!['"']);
    assert("\",\"proposed\":\""@ =~= seq!['"', ','] + (seq!['"'] + "proposed"@ + seq!['"', ':'])
        + seq!['"']);
    assert("\",\"edits\":["@ =~= seq!['"', ','] + (seq!['"'] + "edits"@ + seq!['"', ':'])
        + seq!['[']);
    assert("],\"applied\":"@ =~= seq![']', ','] + (seq!['"'] + "applied"@ + seq!['"', ':']));
}

/// Five emitted pairs, spelled out.
proof fn lemma_pairs_json_five(kts: Seq<(Seq<char>, Seq<char>)>)
    requires
        kts.len() == 5,
    ensures
        pairs_json(kts) == {
            let f = |i: int| seq!['"'] + kts[i].0 + seq!['"', ':'] + kts[i].1;
            f(0) + seq![','] + (f(1) + seq![','] + (f(2) + seq![','] + (f(3) + seq![','] + f(4))))
        },
{
    let d1 = kts.drop_first();
    let d2 = d1.drop_first();
    let d3 = d2.drop_first();
    let d4 = d3.drop_first();
    assert(d4[0] == kts[4]);
    assert(d3[0] == kts[3]);
    assert(d2[0] == kts[2]);
    assert(d1[0] == kts[1]);
    assert(pairs_json(d4) == seq!['"'] + kts[4].0 + seq!['"', ':'] + kts[4].1);
    assert(pairs_json(d3) == seq!['"'] + kts[3].0 + seq!['"', ':'] + kts[3].1 + seq![',']
        + pairs_json(d4));
    assert(pairs_json(d2) == seq!['"'] + kts[2].0 + seq!['"', ':'] + kts[2].1 + seq![',']
        + pairs_json(d3));
    assert(pairs_json(d1) == seq!['"'] + kts[1].0 + seq!['"', ':'] + kts[1].1 + seq![',']
        + pairs_json(d2));
}

/// Regrouping the emitted result text field by field.
#[verifier::rlimit(100)]
#[verifier::spinoff_prover]
proof fn lemma_result_regroup(
    k0: Seq<char>,
    k1: Seq<char>,
    k2: Seq<char>,
    k3: Seq<char>,
    k4: Seq<char>,
    e0: Seq<char>,
    e1: Seq<char>,
    e2: Seq<char>,
    j: Seq<char>,
    b: Seq<char>,
)
    ensures
        ({
            let q = seq!['"'];
            seq!['{'] + k0 + q + e0 + (seq!['"', ','] + k1 + q) + e1 + (seq!['"', ','] + k2 + q)
                + e2 + (seq!['"', ','] + k3 + seq!['[']) + j + (seq![']', ','] + k4) + b + seq!['}']
        }) == ({
            let q = seq!['"'];
            let cm = seq![','];
            seq!['{'] + ((k0 + (q + e0 + q)) + cm + ((k1 + (q + e1 + q)) + cm + ((k2 + (q + e2
                + q)) + cm + ((k3 + (seq!['['] + j + seq![']'])) + cm + (k4 + b))))) + seq!['}']
        }),
{
    let q = seq!['"'];
    let cm = seq![','];
    let t4 = seq![']', ','] + k4 + b + seq!['}'];
    assert((k3 + (seq!['['] + j + seq![']'])) + cm + (k4 + b) + seq!['}'] =~= k3 + seq!['['] + j
        + t4);
    let t3 = seq!['"', ','] + k3 + seq!['['] + j + t4;
    assert((k2 + (q + e2 + q)) + cm + ((k3 + (seq!['['] + j + seq![']'])) + cm + (k4 + b))
        + seq!['}'] =~= k2 + q + e2 + t3);
    let t2 = seq!['"', ','] + k2 + q + e2 + t3;
    assert((k1 + (q + e1 + q)) + cm + ((k2 + (q + e2 + q)) + cm + ((k3 + (seq!['['] + j
        + seq![']'])) + cm + (k4 + b))) + seq!['}'] =~= k1 + q + e1 + t2);
    let t1 = seq!['"', ','] + k1 + q + e1 + t2;
    assert((k0 + (q + e0 + q)) + cm + ((k1 + (q + e1 + q)) + cm + ((k2 + (q + e2 + q)) + cm + ((k3
        + (seq!['['] + j + seq![']'])) + cm + (k4 + b)))) + seq!['}'] =~= k0 + q + e0 + t1);
    assert(seq!['{'] + k0 + q + e0 + (seq!['"', ','] + k1 + q) + e1 + (seq!['"', ','] + k2 + q)
        + e2 + (seq!['"', ','] + k3 + seq!['[']) + j + (seq![']', ','] + k4) + b + seq!['}']
        =~= seq!['{'] + k0 + q + e0 + t1);
}

/// An emitted result object is an object of its key/text pairs.
proof fn lemma_result_json_shape(v: ResultView)
    ensures
        result_json(v) == seq!['{'] + pairs_json(result_pairs(v)) + seq!['}'],
{
    lemma_result_literals();
    let kts = result_pairs(v);
    lemma_pairs_json_five(kts);
    let key = |k: Seq<char>| seq!['"'] + k + seq!['"', ':'];
    let e0 = escape(v.path);
    let e1 = escape(v.original);
    let e2 = escape(v.proposed);
    let j = edits_json(v.edits);
    let b = bool_json(v.applied);
    lemma_result_regroup(
        key("path"@),
        key("original"@),
        key("proposed"@),
        key("edits"@),
        key("applied"@),
        e0,
        e1,
        e2,
        j,
        b,
    );
    assert(seq!['"'] + kts[0].0 + seq!['"', ':'] + kts[0].1 =~= key("path"@) + (seq!['"'] + e0
        + seq!['"']));
    assert(seq!['"'] + kts[1].0 + seq!['"', ':'] + kts[1].1 =~= key("original"@) + (seq!['"']
        + e1 + seq!['"']));
    assert(seq!['"'] + kts[2].0 + seq!['"', ':'] + kts[2].1 =~= key("proposed"@) + (seq!['"']
        + e2 + seq!['"']));
    assert(seq!['"'] + kts[3].0 + seq!['"', ':'] + kts[3].1 =~= key("edits"@) + (seq!['['] + j
        + seq![']']));
    assert(seq!['"'] + kts[4].0 + seq!['"', ':'] + kts[4].1 =~= key("applied"@) + b);
}

/// Reading the five fields of an emitted result object.
proof fn lemma_result_fields_five(ps: Seq<(Seq<char>, JsonV)>, v: ResultView)
    requires
        ps == seq![
            ("path"@, JsonV::Str(v.path)),
            ("original"@, JsonV::Str(v.original)),
            ("proposed"@, JsonV::Str(v.proposed)),
            ("edits"@, JsonV::Arr(edit_values(v.edits))),
            ("applied"@, JsonV::Bool(v.applied)),
        ],
    ensures
        result_fields(ps) == Some(v),
{
    lemma_literals();
    lemma_edits_of_values(v.edits);
    assert("original"@ != "path"@);
    assert("proposed"@ != "path"@);
    assert("proposed"@[0] != "original"@[0]);
    assert("proposed"@ != "original"@);
    assert("edits"@ != "path"@);
    assert("edits"@ != "original"@);
    assert("edits"@ != "proposed"@);
    assert("applied"@ != "path"@);
    assert("applied"@ != "original"@);
    assert("applied"@ != "proposed"@);
    assert("applied"@ != "edits"@);
    let f0 = ResultView {
        path: Seq::empty(),
        original: Seq::empty(),
        proposed: Seq::empty(),
        edits: Seq::empty(),
        applied: false,
    };
    assert(ps.take(0) =~= Seq::<(Seq<char>, JsonV)>::empty());
    assert(result_fields(ps.take(0)) == Some(f0));
    let f1 = ResultView { path: v.path, ..f0 };
    assert(ps.take(1).drop_last() =~= ps.take(0));
    assert(ps.take(1).last() == ps[0]);
    assert(result_fields(ps.take(1)) == Some(f1));
    let f2 = ResultView { original: v.original, ..f1 };
    assert(ps.take(2).drop_last() =~= ps.take(1));
    assert(ps.take(2).last() == ps[1]);
    assert(result_fields(ps.take(2)) == Some(f2));
    let f3 = ResultView { proposed: v.proposed, ..f2 };
    assert(ps.take(3).drop_last() =~= ps.take(2));
    assert(ps.take(3).last() == ps[2]);
    assert(result_fields(ps.take(3)) == Some(f3));
    let f4 = ResultView { edits: v.edits, ..f3 };
    assert(ps.take(4).drop_last() =~= ps.take(3));
    assert(ps.take(4).last() == ps[3]);
    assert(result_fields(ps.take(4)) == Some(f4));
    assert(ps.take(5).drop_last() =~= ps.take(4));
    assert(ps.take(5).last() == ps[4]);
    assert(result_fields(ps.take(5)) == Some(v));
    assert(ps.take(5) =~= ps);
}

/// The emitted objects for a non-empty list of edits begin with a brace.
proof fn lemma_edits_json_first(es: Seq<EditView>)
    requires
        es.len() >= 1,
    ensures
        edits_json(es).len() > 0,
        edits_json(es)[0] == '{',
{
    lemma_edit_json_shape(es[0]);
    if es.len() > 1 {
        assert((edit_json(es[0]) + ","@ + edits_json(es.drop_first()))[0] == edit_json(es[0])[0]);
    }
}

/// Law: parsing the JSON emitted for a result gives the result back.
pub proof fn law_emit_then_parse(v: ResultView)
    ensures
        parsed_result(result_json(v)) == Some(v),
{
    lemma_literals();
    lemma_result_json_shape(v);
    let kts = result_pairs(v);
    let evs = edit_values(v.edits);
    let vals: Seq<JsonV> = seq![
        JsonV::Str(v.path),
        JsonV::Str(v.original),
        JsonV::Str(v.proposed),
        JsonV::Arr(evs),
        JsonV::Bool(v.applied),
    ];
    assert forall|i: int| 0 <= i < kts.len() implies escape(#[trigger] kts[i].0) == kts[i].0 by {}
    assert forall|i: int, r: Seq<char>| 0 <= i < kts.len() implies #[trigger] json_value(
        kts[i].1 + r,
    ) == Some((vals[i], r)) by {
        if i == 0 {
            lemma_value_str(v.path, r);
        } else if i == 1 {
            lemma_value_str(v.original, r);
        } else if i == 2 {
            lemma_value_str(v.proposed, r);
        } else if i == 3 {
            let t = seq!['['] + edits_json(v.edits) + seq![']'] + r;
            assert(kts[3].1 + r == t);
            assert(t[0] == '[');
            if v.edits.len() == 0 {
                assert(edits_json(v.edits) == Seq::<char>::empty());
                assert(t[1] == ']');
                assert(t.skip(2) == r);
                assert(evs =~= Seq::<JsonV>::empty());
            } else {
                lemma_edits_json_first(v.edits);
                assert(t[1] == '{');
                assert(t.drop_first() == edits_json(v.edits) + seq![']'] + r);
                lemma_edit_items(v.edits, Seq::empty(), r);
                assert(Seq::<JsonV>::empty() + evs == evs);
            }
        } else {
            lemma_value_bool(v.applied, r);
        }
    }
    lemma_value_obj(kts, vals, Seq::empty());
    assert(result_json(v) == seq!['{'] + pairs_json(kts) + seq!['}'] + Seq::<char>::empty());
    lemma_edits_of_values(v.edits);
    let ps = zip_keys(kts, vals);
    assert(parsed_result(result_json(v)) == result_fields(ps));
    assert(ps =~= seq![
        ("path"@, JsonV::Str(v.path)),
        ("original"@, JsonV::Str(v.original)),
        ("proposed"@, JsonV::Str(v.proposed)),
        ("edits"@, JsonV::Arr(edit_values(v.edits))),
        ("applied"@, JsonV::Bool(v.applied)),
    ]);
    lemma_result_fields_five(ps, v);
}

/// Law: emitting the result parsed from emitted JSON reproduces that JSON
/// exactly.
pub proof fn law_reemit_is_identical(v: ResultView, p: ResultView)
    requires
        parsed_result(result_json(v)) == Some(p),
    ensures
        result_json(p) == result_json(v),
{
    law_emit_then_parse(v);
}

} // verus!
