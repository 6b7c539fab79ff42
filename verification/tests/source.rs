use mend::imports::{extract_imports, imports_of_items};
use mend::structure::{extract_structure, structure_of_items};
use mend::syntax::{Decl, SourceItem, UseNode, Vis};
use mend::MendError;

fn squash(v: &[String]) -> Vec<String> {
    v.iter().map(|s| s.chars().filter(|c| !c.is_whitespace()).collect()).collect()
}

#[test]
fn imports_every_use_path() {
    let source = "\nuse std::fmt;\nuse std::collections::HashMap;\n\npub fn alpha() {}\n";
    let imports = extract_imports(source).expect("valid source");
    assert_eq!(imports, vec!["std::fmt".to_string(), "std::collections::HashMap".to_string()]);
}

#[test]
fn imports_group_expands() {
    let imports = extract_imports("use a::{b, c};\n").expect("valid source");
    assert_eq!(imports, vec!["a::b".to_string(), "a::c".to_string()]);
    let nested = extract_imports("use x::{y::{z, w as v}, *};\n").expect("valid source");
    assert_eq!(nested, vec!["x::y::z".to_string(), "x::y::w".to_string()]);
}

#[test]
fn imports_none_and_broken() {
    assert!(extract_imports("pub fn alpha() {}\npub struct Beta;\n").expect("valid").is_empty());
    assert!(matches!(extract_imports("pub fn foo( {"), Err(MendError::Parse(_))));
}

#[test]
fn imports_from_items() {
    let items = vec![
        SourceItem::Use {
            tree: UseNode::Path {
                ident: "a".to_string(),
                tree: Box::new(UseNode::Group {
                    items: vec![
                        UseNode::Name { ident: "b".to_string() },
                        UseNode::Glob,
                        UseNode::Rename { ident: "c".to_string() },
                    ],
                }),
            },
        },
        SourceItem::Other,
        SourceItem::Use { tree: UseNode::Name { ident: "d".to_string() } },
    ];
    assert_eq!(imports_of_items(&items), vec!["a::b".to_string(), "a::c".to_string(), "d".to_string()]);
}

#[test]
fn structure_public_signatures() {
    let source = "\npub fn alpha(value: i32) -> bool { let marker_xyzzy = value > 0; marker_xyzzy }\npub struct Beta;\npub enum Gamma { A, B }\npub trait Delta { fn method(&self); }\n";
    let sigs = extract_structure(source).expect("valid source");
    assert_eq!(sigs.len(), 4);
    let sq = squash(&sigs);
    assert_eq!(sq[0], "fnalpha(value:i32)->bool");
    assert_eq!(sigs[1], "struct Beta");
    assert_eq!(sigs[2], "enum Gamma");
    assert_eq!(sigs[3], "trait Delta");
    assert!(!sigs.join("\n").contains("xyzzy"));
}

#[test]
fn structure_skips_private_items() {
    let source = "pub fn pub_fn() {}\nfn priv_fn() {}\npub struct PubStruct;\nstruct PrivStruct;\npub enum PubEnum { V }\nenum PrivEnum { V }\npub trait PubTrait {}\ntrait PrivTrait {}\npub(crate) fn crate_fn() {}\n";
    let sigs = extract_structure(source).expect("valid source");
    assert_eq!(sigs.len(), 4);
    let joined = sigs.join("\n");
    for name in ["pub_fn", "PubStruct", "PubEnum", "PubTrait"] {
        assert!(joined.contains(name));
    }
    for name in ["priv_fn", "PrivStruct", "PrivEnum", "PrivTrait", "crate_fn"] {
        assert!(!joined.contains(name));
    }
}

#[test]
fn structure_empty_and_broken() {
    assert!(extract_structure("").expect("empty source").is_empty());
    assert!(matches!(extract_structure("pub fn foo( {"), Err(MendError::Parse(_))));
}

#[test]
fn structure_from_items() {
    let items = vec![
        SourceItem::Fn { vis: Vis::Public, signature: "fn f ()".to_string() },
        SourceItem::Struct(Decl { vis: Vis::Public, ident: "S".to_string(), generics: "< T >".to_string() }),
        SourceItem::Enum(Decl { vis: Vis::Restricted, ident: "E".to_string(), generics: String::new() }),
        SourceItem::Trait(Decl { vis: Vis::Public, ident: "T".to_string(), generics: String::new() }),
        SourceItem::Fn { vis: Vis::Inherited, signature: "fn g ()".to_string() },
    ];
    assert_eq!(
        structure_of_items(&items),
        vec!["fn f ()".to_string(), "struct S< T >".to_string(), "trait T".to_string()]
    );
}

#[test]
fn structure_keeps_generics() {
    let sigs = extract_structure("pub struct Wrap<T> { t: T }\n").expect("valid");
    assert_eq!(squash(&sigs), vec!["structWrap<T>".to_string()]);
}
