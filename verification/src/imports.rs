//! Extract the import paths of a Rust source file.
//!
//! [`extract_imports`] returns one fully-qualified path per concrete import, in
//! source order: a grouped `use a::{b, c}` expands to `a::b` and `a::c`, a
//! renamed import keeps its original name, and a glob contributes nothing. A
//! file with no imports yields an empty list; source that fails to parse
//! yields [`MendError::Parse`].
use vstd::prelude::*;

use crate::syntax::{SourceItem, UseNode, parse_items, parsed_items};
use crate::text::{concat3, strings_view};
use crate::{MendError, Result};

verus! {

/// `segment` appended to a `::`-separated `prefix`, or alone when the prefix
/// is empty.
pub open spec fn joined(prefix: Seq<char>, segment: Seq<char>) -> Seq<char> {
    if prefix.len() == 0 {
        segment
    } else {
        prefix + "::"@ + segment
    }
}

/// The concrete paths a `use` tree imports under `prefix`, in order.
pub open spec fn use_paths(t: UseNode, prefix: Seq<char>) -> Seq<Seq<char>>
    decreases t,
{
    match t {
        UseNode::Path { ident, tree } => use_paths(*tree, joined(prefix, ident@)),
        UseNode::Name { ident } => seq![joined(prefix, ident@)],
        UseNode::Rename { ident } => seq![joined(prefix, ident@)],
        UseNode::Glob => Seq::empty(),
        UseNode::Group { items } => group_paths(items@, prefix),
    }
}

/// The concrete paths of the members of a group, member by member.
pub open spec fn group_paths(items: Seq<UseNode>, prefix: Seq<char>) -> Seq<Seq<char>>
    decreases items,
{
    if items.len() == 0 {
        Seq::empty()
    } else {
        group_paths(items.drop_last(), prefix) + use_paths(items.last(), prefix)
    }
}

/// The import paths of a file's top-level items, in order.
pub open spec fn imports_of(items: Seq<SourceItem>) -> Seq<Seq<char>>
    decreases items.len(),
{
    if items.len() == 0 {
        Seq::empty()
    } else {
        imports_of(items.drop_last()) + match items.last() {
            SourceItem::Use { tree } => use_paths(tree, Seq::empty()),
            _ => Seq::empty(),
        }
    }
}

/// Append `segment` to a `::`-separated `prefix`.
fn join(prefix: &String, segment: &String) -> (r: String)
    ensures
        r@ == joined(prefix@, segment@),
{
    if prefix.as_str().is_empty() {
        segment.clone()
    } else {
        concat3(prefix.as_str(), "::", segment.as_str())
    }
}

/// Walk a `use` tree, appending one path per imported name to `out`.
fn collect_paths(tree: &UseNode, prefix: String, out: &mut Vec<String>)
    ensures
        strings_view(final(out)@) == strings_view(old(out)@) + use_paths(*tree, prefix@),
    decreases tree,
{
    match tree {
        UseNode::Path { ident, tree: sub } => {
            collect_paths(sub, join(&prefix, ident), out);
        },
        UseNode::Name { ident } => {
            let ghost prev = out@;
            out.push(join(&prefix, ident));
            proof {
                assert(strings_view(out@) =~= strings_view(prev) + use_paths(*tree, prefix@));
            }
        },
        UseNode::Rename { ident } => {
            let ghost prev = out@;
            out.push(join(&prefix, ident));
            proof {
                assert(strings_view(out@) =~= strings_view(prev) + use_paths(*tree, prefix@));
            }
        },
        UseNode::Glob => {
            assert(strings_view(out@) =~= strings_view(out@) + Seq::<Seq<char>>::empty());
        },
        UseNode::Group { items } => {
            let ghost start = strings_view(out@);
            let mut i: usize = 0;
            proof {
                assert(items@.take(0) =~= Seq::<UseNode>::empty());
                assert(strings_view(out@) =~= start + group_paths(items@.take(0), prefix@));
            }
            while i < items.len()
                invariant
                    i <= items@.len(),
                    *tree == (UseNode::Group { items: *items }),
                    strings_view(out@) == start + group_paths(items@.take(i as int), prefix@),
                decreases items@.len() - i,
            {
                proof {
                    let t = *tree;
                    assert(decreases_to!(t => t->Group_items));
                    assert(decreases_to!(t->Group_items => t->Group_items@));
                    assert(decreases_to!(t->Group_items@ => t->Group_items@[i as int]));
                }
                collect_paths(&items[i], prefix.clone(), out);
                proof {
                    assert(items@.take(i + 1).drop_last() =~= items@.take(i as int));
                    assert(items@.take(i + 1).last() == items@[i as int]);
                }
                i += 1;
            }
            proof {
                assert(items@.take(items@.len() as int) =~= items@);
            }
        },
    }
}

/// The import paths of a file's top-level items, one per concrete import, in
/// source order.
pub fn imports_of_items(items: &[SourceItem]) -> (r: Vec<String>)
    ensures
        strings_view(r@) == imports_of(items@),
{
    let mut out: Vec<String> = Vec::new();
    let mut i: usize = 0;
    proof {
        assert(items@.take(0) =~= Seq::<SourceItem>::empty());
        assert(strings_view(out@) =~= Seq::<Seq<char>>::empty());
    }
    while i < items.len()
        invariant
            i <= items@.len(),
            strings_view(out@) == imports_of(items@.take(i as int)),
        decreases items@.len() - i,
    {
        proof {
            assert(items@.take(i + 1).drop_last() =~= items@.take(i as int));
            assert(items@.take(i + 1).last() == items@[i as int]);
        }
        match &items[i] {
            SourceItem::Use { tree } => {
                collect_paths(tree, String::new(), &mut out);
            },
            _ => {
                assert(strings_view(out@) =~= strings_view(out@) + Seq::<Seq<char>>::empty());
            },
        }
        i += 1;
    }
    proof {
        assert(items@.take(items@.len() as int) =~= items@);
    }
    out
}

/// Extract the fully-qualified path of every `use` declaration from Rust
/// `source`, one per concrete import, in source order.
///
/// Source that fails to parse yields [`MendError::Parse`] with the parser's
/// message.
pub fn extract_imports(source: &str) -> (r: Result<Vec<String>>)
    ensures
        match parsed_items(source@) {
            Ok(items) => match r {
                Ok(paths) => strings_view(paths@) == imports_of(items),
                Err(_) => false,
            },
            Err(m) => match r {
                Err(MendError::Parse(e)) => e@ == m,
                _ => false,
            },
        },
{
    match parse_items(source) {
        Ok(items) => Ok(imports_of_items(&items)),
        Err(m) => Err(MendError::Parse(m)),
    }
}

} // verus!
