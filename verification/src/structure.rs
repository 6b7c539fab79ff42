//! Extract the signatures of the public top-level items of a Rust source file.
//!
//! [`extract_structure`] returns one signature per public `fn`, `struct`,
//! `enum` or `trait`, in source order. A function keeps its whole declaration
//! (and so its return type) but not its body; the other kinds reduce to a
//! header `keyword name generics`. Items not marked `pub` are left out. An
//! empty file yields an empty list; source that fails to parse yields
//! [`MendError::Parse`].
use vstd::prelude::*;

use crate::syntax::{Decl, SourceItem, Vis, parse_items, parsed_items};
use crate::text::{append, chars_of, string_of, strings_view};
use crate::{MendError, Result};

verus! {

/// Whether a visibility is plain `pub`.
pub open spec fn is_pub(v: Vis) -> bool {
    v is Public
}

/// A declaration header: the keyword, a space, the name, then the generics.
pub open spec fn header_text(keyword: Seq<char>, ident: Seq<char>, generics: Seq<char>) -> Seq<
    char,
> {
    keyword + " "@ + ident + generics
}

/// The header of a declaration under `keyword`, if it is public.
pub open spec fn decl_signature(keyword: Seq<char>, d: Decl) -> Option<Seq<char>> {
    if is_pub(d.vis) {
        Some(header_text(keyword, d.ident@, d.generics@))
    } else {
        None
    }
}

/// The signature of an item, if it is a public fn, struct, enum or trait.
pub open spec fn signature_of(item: SourceItem) -> Option<Seq<char>> {
    match item {
        SourceItem::Fn { vis, signature } => if is_pub(vis) {
            Some(signature@)
        } else {
            None
        },
        SourceItem::Struct(d) => decl_signature("struct"@, d),
        SourceItem::Enum(d) => decl_signature("enum"@, d),
        SourceItem::Trait(d) => decl_signature("trait"@, d),
        _ => None,
    }
}

/// The signatures of the public items among `items`, in order.
pub open spec fn structure_of(items: Seq<SourceItem>) -> Seq<Seq<char>>
    decreases items.len(),
{
    if items.len() == 0 {
        Seq::empty()
    } else {
        structure_of(items.drop_last()) + match signature_of(items.last()) {
            Some(s) => seq![s],
            None => Seq::empty(),
        }
    }
}

/// Whether `vis` marks an item as fully public (`pub`).
fn is_public(vis: &Vis) -> (r: bool)
    ensures
        r == is_pub(*vis),
{
    match vis {
        Vis::Public => true,
        _ => false,
    }
}

/// A declaration header, `keyword ident generics`, with no body.
fn header(keyword: &str, ident: &String, generics: &String) -> (r: String)
    ensures
        r@ == header_text(keyword@, ident@, generics@),
{
    let mut out = chars_of(keyword);
    append(&mut out, &chars_of(" "));
    append(&mut out, &chars_of(ident.as_str()));
    append(&mut out, &chars_of(generics.as_str()));
    string_of(&out)
}

/// The header of a declaration under `keyword`, if it is public.
fn decl_header(keyword: &str, d: &Decl) -> (r: Option<String>)
    ensures
        match r {
            Some(s) => decl_signature(keyword@, *d) == Some(s@),
            None => decl_signature(keyword@, *d) is None,
        },
{
    if is_public(&d.vis) {
        Some(header(keyword, &d.ident, &d.generics))
    } else {
        None
    }
}

/// The signature of `item` if it is a public fn, struct, enum or trait.
fn item_signature(item: &SourceItem) -> (r: Option<String>)
    ensures
        match r {
            Some(s) => signature_of(*item) == Some(s@),
            None => signature_of(*item) is None,
        },
{
    match item {
        SourceItem::Fn { vis, signature } => {
            if is_public(vis) {
                Some(signature.clone())
            } else {
                None
            }
        },
        SourceItem::Struct(d) => decl_header("struct", d),
        SourceItem::Enum(d) => decl_header("enum", d),
        SourceItem::Trait(d) => decl_header("trait", d),
        _ => None,
    }
}

/// The signatures of the public items among `items`, in order.
pub fn structure_of_items(items: &[SourceItem]) -> (r: Vec<String>)
    ensures
        strings_view(r@) == structure_of(items@),
{
    let mut out: Vec<String> = Vec::new();
    let mut i: usize = 0;
    proof {
        assert(items@.take(0) =~= Seq::<SourceItem>::empty());
        assert(strings_view(out@) =~= Seq::<Seq<char>>::empty());
    }
    while i < items.len()
        invariant
            i <= items@.len(),
            strings_view(out@) == structure_of(items@.take(i as int)),
        decreases items@.len() - i,
    {
        proof {
            assert(items@.take(i + 1).drop_last() =~= items@.take(i as int));
            assert(items@.take(i + 1).last() == items@[i as int]);
        }
        let ghost prev = out@;
        match item_signature(&items[i]) {
            Some(s) => {
                out.push(s);
                assert(strings_view(out@) =~= strings_view(prev) + seq![out@.last()@]);
            },
            None => {
                assert(strings_view(out@) =~= strings_view(prev) + Seq::<Seq<char>>::empty());
            },
        }
        i += 1;
    }
    proof {
        assert(items@.take(items@.len() as int) =~= items@);
    }
    out
}

/// Extract the signatures of every top-level public item from Rust `source`,
/// in source order.
///
/// Source that fails to parse yields [`MendError::Parse`] with the parser's
/// message.
pub fn extract_structure(source: &str) -> (r: Result<Vec<String>>)
    ensures
        match parsed_items(source@) {
            Ok(items) => match r {
                Ok(sigs) => strings_view(sigs@) == structure_of(items),
                Err(_) => false,
            },
            Err(m) => match r {
                Err(MendError::Parse(e)) => e@ == m,
                _ => false,
            },
        },
{
    match parse_items(source) {
        Ok(items) => Ok(structure_of_items(&items)),
        Err(m) => Err(MendError::Parse(m)),
    }
}

/// An item of a listed kind (fn, struct, enum, trait) declared plain `pub`;
/// `pub(crate)`, `pub(super)`, `pub(in ..)` and private items are not.
pub open spec fn listed_pub(item: SourceItem) -> bool {
    match item {
        SourceItem::Fn { vis, .. } => vis is Public,
        SourceItem::Struct(d) => d.vis is Public,
        SourceItem::Enum(d) => d.vis is Public,
        SourceItem::Trait(d) => d.vis is Public,
        _ => false,
    }
}

/// Law: only plain `pub` items reach the structure. Removing every item that
/// is not a plain `pub` fn, struct, enum or trait leaves the signatures
/// unchanged, and each remaining item gives exactly one signature.
pub proof fn law_structure_lists_only_pub(items: Seq<SourceItem>)
    ensures
        structure_of(items) == structure_of(items.filter(|it: SourceItem| listed_pub(it))),
        structure_of(items).len() == items.filter(|it: SourceItem| listed_pub(it)).len(),
    decreases items.len(),
{
    reveal(Seq::filter);
    let pred = |it: SourceItem| listed_pub(it);
    if items.len() == 0 {
        assert(items.filter(pred) == items);
    } else {
        let init = items.drop_last();
        let last = items.last();
        law_structure_lists_only_pub(init);
        let fi = init.filter(pred);
        assert(items.filter(pred) == if pred(last) {
            fi.push(last)
        } else {
            fi
        });
        if listed_pub(last) {
            assert(fi.push(last).drop_last() =~= fi);
            assert(fi.push(last).last() == last);
            assert(signature_of(last) is Some);
        } else {
            assert(signature_of(last) is None);
            assert(structure_of(items) =~= structure_of(init));
        }
    }
}

} // verus!
