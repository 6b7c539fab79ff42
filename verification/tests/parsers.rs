use mend::dispatch::parse_response;
use mend::fenced::parse_fenced;
use mend::parsed_edit::ParsedEdit;
use mend::search_replace::parse_search_replace;
use mend::unified_diff::{compute_unified_diff, parse_unified_diff};
use mend::MendError;

fn sr(search: &str, replace: &str) -> ParsedEdit {
    ParsedEdit::SearchReplace { search: search.to_string(), replace: replace.to_string() }
}

#[test]
fn search_replace_single_block() {
    let response =
        "<<<<<<< SEARCH\nlet x = 1;\nlet y = 2;\n=======\nlet x = 10;\nlet y = 20;\n>>>>>>> REPLACE";
    let edits = parse_search_replace(response).expect("well-formed block");
    assert_eq!(edits, vec![sr("let x = 1;\nlet y = 2;\n", "let x = 10;\nlet y = 20;\n")]);
}

#[test]
fn search_replace_blocks_in_order() {
    let response = "<<<<<<< SEARCH\nAAA\n=======\nBBB\n>>>>>>> REPLACE\n<<<<<<< SEARCH\nCCC\n=======\nDDD\n>>>>>>> REPLACE";
    let edits = parse_search_replace(response).expect("two blocks");
    assert_eq!(edits, vec![sr("AAA\n", "BBB\n"), sr("CCC\n", "DDD\n")]);
}

#[test]
fn search_replace_missing_divider() {
    match parse_search_replace("<<<<<<< SEARCH\nAAA\nBBB\n>>>>>>> REPLACE") {
        Err(MendError::Parse(m)) => assert_eq!(m, "search/replace block missing ======= divider"),
        other => panic!("expected a parse error, got {:?}", other),
    }
    assert_eq!(
        parse_search_replace("<<<<<<< SEARCH\nAAA\n=======\nBBB\n>>>>>>> REPLACE").expect("ok").len(),
        1
    );
}

#[test]
fn fenced_single_block() {
    let edits = parse_fenced("```rust\nfn main() {}\n```").expect("closed fence");
    assert_eq!(edits, vec![ParsedEdit::WholeFile { body: "fn main() {}\n".to_string() }]);
}

#[test]
fn fenced_tag_is_dropped_and_untagged_kept() {
    let tagged = parse_fenced("```rust\nuse std::fmt;\nfn main() {}\n```").expect("ok");
    assert_eq!(tagged, vec![ParsedEdit::WholeFile { body: "use std::fmt;\nfn main() {}\n".to_string() }]);
    let untagged = parse_fenced("```\nuse std::fmt;\nfn main() {}\n```").expect("ok");
    assert_eq!(untagged, vec![ParsedEdit::WholeFile { body: "use std::fmt;\nfn main() {}\n".to_string() }]);
}

#[test]
fn fenced_unterminated_and_multiple() {
    match parse_fenced("```rust\nfn main() {}\n") {
        Err(MendError::Parse(m)) => assert_eq!(m, "unterminated fenced code block"),
        other => panic!("expected a parse error, got {:?}", other),
    }
    let edits = parse_fenced("```rust\nAAA\n```\n```python\nBBB\n```").expect("two fences");
    assert_eq!(
        edits,
        vec![
            ParsedEdit::WholeFile { body: "AAA\n".to_string() },
            ParsedEdit::WholeFile { body: "BBB\n".to_string() },
        ]
    );
}

#[test]
fn unified_diff_hunk_to_edit() {
    let edits = parse_unified_diff("@@ -1 +1 @@\n-old\n+new\n").expect("one hunk");
    assert_eq!(edits, vec![sr("old\n", "new\n")]);
    match parse_unified_diff("@@ -1 +1\n-old\n+new\n") {
        Err(MendError::Parse(m)) => {
            assert_eq!(m, "malformed hunk header: missing closing ` @@` delimiter")
        }
        other => panic!("expected a parse error, got {:?}", other),
    }
}

#[test]
fn unified_diff_reads_back_computed_diff() {
    let old = "line1\nline2\nline3\n";
    let new = "line1\nCHANGED\nline3\n";
    let diff = compute_unified_diff(old, new);
    let edits = parse_unified_diff(&diff).expect("computed diff parses");
    assert_eq!(edits, vec![sr("line1\nline2\nline3\n", "line1\nCHANGED\nline3\n")]);
    assert_eq!(mend::apply::apply_edits(old, &edits).expect("applies"), new);
}

#[test]
fn dispatch_search_replace_wins() {
    let response = "<<<<<<< SEARCH\n@@ a @@\n=======\nbar\n>>>>>>> REPLACE";
    let edits = parse_response(response).expect("search/replace route");
    assert_eq!(edits, parse_search_replace(response).expect("direct"));
    assert_eq!(edits, vec![sr("@@ a @@\n", "bar\n")]);
}

#[test]
fn dispatch_diff_beats_fence() {
    let response = "```diff\n@@ -1 +1 @@\n-old\n+new\n```";
    let edits = parse_response(response).expect("diff route");
    assert_eq!(edits, vec![sr("old\n", "new\n")]);
}

#[test]
fn dispatch_fenced_and_unknown() {
    let edits = parse_response("```rust\nfn main() {}\n```").expect("fenced route");
    assert_eq!(edits, vec![ParsedEdit::WholeFile { body: "fn main() {}\n".to_string() }]);
    match parse_response("I'm sorry, I cannot help with that request.") {
        Err(MendError::Parse(m)) => assert_eq!(m, "response matches no known edit format"),
        other => panic!("expected a parse error, got {:?}", other),
    }
}

#[test]
fn unified_diff_one_edit_per_hunk() {
    let edits = parse_unified_diff("@@ -1 +1 @@\n-a\n+b\n@@ -5 +5 @@\n-c\n+d\n").expect("two hunks");
    assert_eq!(edits, vec![sr("a\n", "b\n"), sr("c\n", "d\n")]);
    let with_files = parse_unified_diff("--- a/f.rs\n+++ b/f.rs\n@@ -1 +1 @@\n-a\n+b\n").expect("one hunk");
    assert_eq!(with_files, vec![sr("a\n", "b\n")]);
    assert!(parse_unified_diff("no hunk here\n").expect("no hunk").is_empty());
}

#[test]
fn unified_diff_reads_back_its_window() {
    let old = "a\nb\nc\nd\ne\nf\ng\nh\ni\nj\n";
    let new = "a\nb\nc\nd\nE\nf\ng\nh\ni\nj\n";
    let edits = parse_unified_diff(&compute_unified_diff(old, new)).expect("parses");
    let s = "b\nc\nd\ne\nf\ng\nh\n";
    let t = "b\nc\nd\nE\nf\ng\nh\n";
    assert_eq!(edits, vec![sr(s, t)]);
    assert_eq!(old, format!("a\n{s}i\nj\n"));
    assert_eq!(new, format!("a\n{t}i\nj\n"));
}
