//! The parts of a Rust source file that the import and structure extractors
//! read, as plain values.
//!
//! Parsing is syn's work: [`parse_items`] hands the source to
//! `syn::parse_file` and converts the top-level items it returns, one for one,
//! into [`SourceItem`] values holding what the extractors read: `use` trees, item
//! visibility, names, and the token text of signatures and generics.
use quote::ToTokens;
use vstd::prelude::*;

verus! {

/// Declares `syn::Item` to the verifier; its contents stay opaque.
#[verifier::external_type_specification]
#[verifier::external_body]
pub struct ExSynItem(syn::Item);

/// Declares `syn::UseTree` to the verifier; its contents stay opaque.
#[verifier::external_type_specification]
#[verifier::external_body]
pub struct ExSynUseTree(syn::UseTree);

/// Declares `syn::Visibility` to the verifier; its contents stay opaque.
#[verifier::external_type_specification]
#[verifier::external_body]
pub struct ExSynVisibility(syn::Visibility);

/// Declares `syn::Ident` to the verifier; its contents stay opaque.
#[verifier::external_type_specification]
#[verifier::external_body]
pub struct ExSynIdent(syn::Ident);

/// Declares `syn::Generics` to the verifier; its contents stay opaque.
#[verifier::external_type_specification]
#[verifier::external_body]
pub struct ExSynGenerics(syn::Generics);

/// A `use` tree: the path of one import declaration, possibly branching.
pub enum UseNode {
    /// A path prefix, `ident::tree`.
    Path { ident: String, tree: Box<UseNode> },
    /// An imported name.
    Name { ident: String },
    /// An imported name given another name; `ident` is the original one.
    Rename { ident: String },
    /// A glob, `*`.
    Glob,
    /// A braced group, `{a, b, ..}`.
    Group { items: Vec<UseNode> },
}

/// The visibility of an item.
pub enum Vis {
    /// `pub`.
    Public,
    /// `pub(crate)`, `pub(super)`, `pub(in path)` and the like.
    Restricted,
    /// No visibility marker.
    Inherited,
}

/// The declaration of a struct, enum or trait: its visibility, its name and
/// the token text of its generics.
pub struct Decl {
    pub vis: Vis,
    pub ident: String,
    pub generics: String,
}

/// A top-level item of a source file, reduced to what the extractors read.
pub enum SourceItem {
    /// A `use` declaration.
    Use { tree: UseNode },
    /// A function: its visibility and the token text of its signature.
    Fn { vis: Vis, signature: String },
    /// A struct declaration.
    Struct(Decl),
    /// An enum declaration.
    Enum(Decl),
    /// A trait declaration.
    Trait(Decl),
    /// Any other item.
    Other,
}

/// What `syn::parse_file` makes of a source text, converted item by item: the
/// top-level items, or the text of the parse error.
pub uninterp spec fn parsed_items(source: Seq<char>) -> std::result::Result<Seq<SourceItem>, Seq<char>>;

/// Converts a syn `use` tree, node for node.
#[verifier::external_body]
fn use_tree_of(t: &syn::UseTree) -> UseNode {
    match t {
        syn::UseTree::Path(p) => UseNode::Path {
            ident: p.ident.to_string(),
            tree: Box::new(use_tree_of(&p.tree)),
        },
        syn::UseTree::Name(n) => UseNode::Name { ident: n.ident.to_string() },
        syn::UseTree::Rename(r) => UseNode::Rename { ident: r.ident.to_string() },
        syn::UseTree::Glob(_) => UseNode::Glob,
        syn::UseTree::Group(g) => UseNode::Group { items: g.items.iter().map(use_tree_of).collect() },
    }
}

/// Converts a syn visibility, variant for variant.
#[verifier::external_body]
fn visibility_of(v: &syn::Visibility) -> Vis {
    match v {
        syn::Visibility::Public(_) => Vis::Public,
        syn::Visibility::Restricted(_) => Vis::Restricted,
        syn::Visibility::Inherited => Vis::Inherited,
    }
}

/// Converts the parts of a declaration: the name as text, the generics as
/// their token text.
#[verifier::external_body]
fn decl_of(v: &syn::Visibility, ident: &syn::Ident, generics: &syn::Generics) -> Decl {
    Decl {
        vis: visibility_of(v),
        ident: ident.to_string(),
        generics: generics.to_token_stream().to_string(),
    }
}

/// Converts a syn item, variant for variant; a function's signature becomes
/// its token text.
#[verifier::external_body]
fn item_of(i: &syn::Item) -> SourceItem {
    match i {
        syn::Item::Use(u) => SourceItem::Use { tree: use_tree_of(&u.tree) },
        syn::Item::Fn(f) => SourceItem::Fn {
            vis: visibility_of(&f.vis),
            signature: f.sig.to_token_stream().to_string(),
        },
        syn::Item::Struct(s) => SourceItem::Struct(decl_of(&s.vis, &s.ident, &s.generics)),
        syn::Item::Enum(e) => SourceItem::Enum(decl_of(&e.vis, &e.ident, &e.generics)),
        syn::Item::Trait(t) => SourceItem::Trait(decl_of(&t.vis, &t.ident, &t.generics)),
        _ => SourceItem::Other,
    }
}

/// Parses `source` with `syn::parse_file` and converts its top-level items.
///
/// Trusted: the result is the name [`parsed_items`] applied to the text of
/// `source` (the items on success, the error's `Display` text on failure);
/// what syn accepts and how it renders tokens is left to that name.
#[verifier::external_body]
pub(crate) fn parse_items(source: &str) -> (r: std::result::Result<Vec<SourceItem>, String>)
    ensures
        match r {
            Ok(items) => parsed_items(source@) == Ok::<Seq<SourceItem>, Seq<char>>(items@),
            Err(m) => parsed_items(source@) == Err::<Seq<SourceItem>, Seq<char>>(m@),
        },
{
    match syn::parse_file(source) {
        Ok(file) => Ok(file.items.iter().map(item_of).collect()),
        Err(e) => Err(e.to_string()),
    }
}

} // verus!
