use mend::budget::budget;
use mend::context::assemble_context;
use mend::prompt::{edit_prompt, explain_prompt, fix_prompt, test_prompt};
use mend::render_diff::render_diff;
use mend::unified_diff::compute_unified_diff;

#[test]
fn budget_caps_at_four_chars_per_token() {
    let big = "abcdefghij".repeat(4);
    let out = budget(&big, 2);
    assert_eq!(out, "abcde...");
    assert!(out.chars().count() <= 8);
    assert_eq!(budget("abcd", 2), "abcd");
}

#[test]
fn budget_threshold_is_exact() {
    assert_eq!(budget("abcdefgh", 2), "abcdefgh");
    let over = budget("abcdefghi", 2);
    assert_eq!(over, "abcde...");
    assert!(over.ends_with("..."));
    assert!(!budget("abcd", 2).ends_with("..."));
}

#[test]
fn budget_zero_is_empty() {
    assert_eq!(budget("some non-empty text", 0), "");
    assert_eq!(budget("", 0), "");
    assert_eq!(budget("some non-empty text", 1), "s...");
}

#[test]
fn budget_counts_characters_not_bytes() {
    assert_eq!(budget("ééééé", 1), "é...");
    assert_eq!(budget("éééé", 1), "éééé");
}

#[test]
fn context_joins_structure_then_imports() {
    let structure = vec!["pub fn alpha() -> bool".to_string(), "pub struct Beta".to_string()];
    let imports = vec!["std::collections::HashMap".to_string(), "std::io::Read".to_string()];
    let ctx = assemble_context(&structure, &imports, 10_000);
    assert_eq!(
        ctx,
        "pub fn alpha() -> bool\npub struct Beta\nstd::collections::HashMap\nstd::io::Read"
    );
}

#[test]
fn context_respects_budget() {
    let structure = vec!["a".repeat(100), "b".repeat(100)];
    let imports = vec!["c".repeat(100)];
    let out = assemble_context(&structure, &imports, 2);
    assert_eq!(out, "aaaaa...");
    assert_eq!(assemble_context(&structure, &imports, 0), "");
    assert!(assemble_context(&structure, &imports, 10_000).chars().count() > 8);
    assert_eq!(assemble_context(&[], &[], 10), "");
}

#[test]
fn explain_prompt_names_symbol_only_when_given() {
    let context = "STRUCT_CTX_MARKER\nIMPORT_CTX_MARKER";
    let with = explain_prompt(context, Some("ZZ_SYMBOL"));
    assert_eq!(
        with,
        "Explain the `ZZ_SYMBOL` symbol, using the following file context.\n\nSTRUCT_CTX_MARKER\nIMPORT_CTX_MARKER"
    );
    let without = explain_prompt(context, None);
    assert_eq!(
        without,
        "Explain the following file context.\n\nSTRUCT_CTX_MARKER\nIMPORT_CTX_MARKER"
    );
    assert!(!without.contains("ZZ_SYMBOL"));
}

#[test]
fn edit_fix_test_prompts_embed_their_parameter() {
    let context = "CTX";
    let instruction = "Rename `count` to `total`, and KEEP_VERBATIM_XYZ preserve all formatting.";
    assert_eq!(
        edit_prompt(context, instruction),
        format!(
            "Apply the following edit instruction, using the file context below.\n\nInstruction: {}\n\nCTX",
            instruction
        )
    );
    let error = "error[E0599]: no method named `frobnicate_ERR_MARKER` found";
    assert_eq!(
        fix_prompt(context, error),
        format!("Fix the following error, using the file context below.\n\nError: {}\n\nCTX", error)
    );
    let t = test_prompt(context);
    assert!(t.contains("public API"));
    assert!(t.ends_with("\n\nCTX"));
}

#[test]
fn diff_single_change() {
    let diff = compute_unified_diff("line1\nline2\nline3\n", "line1\nCHANGED\nline3\n");
    assert_eq!(diff, "@@ -1,3 +1,3 @@\n line1\n-line2\n+CHANGED\n line3\n");
}

#[test]
fn diff_elides_beyond_context() {
    let old = "a\nb\nc\nd\ne\nf\ng\nh\ni\nj\n";
    let new = "a\nb\nc\nd\nE\nf\ng\nh\ni\nj\n";
    assert_eq!(compute_unified_diff(old, new), "@@ -2,7 +2,7 @@\n b\n c\n d\n-e\n+E\n f\n g\n h\n");
}

#[test]
fn diff_identical_is_empty() {
    assert_eq!(compute_unified_diff("x\ny\nz\n", "x\ny\nz\n"), "");
    assert!(compute_unified_diff("x\ny\nz\n", "x\nY\nz\n").contains("@@"));
}

#[test]
fn diff_against_empty_original() {
    assert_eq!(compute_unified_diff("", "a\nb\n"), "@@ -1,0 +1,2 @@\n+a\n+b\n");
}

fn strip_ansi(s: &str) -> String {
    let mut out = String::new();
    let mut chars = s.chars();
    while let Some(c) = chars.next() {
        if c == '\x1b' {
            for d in chars.by_ref() {
                if d == 'm' {
                    break;
                }
            }
        } else {
            out.push(c);
        }
    }
    out
}

#[test]
fn render_colours_by_line_type() {
    let diff = "@@ -1,3 +1,3 @@\n context\n-removed\n+added\n";
    let coloured = render_diff(diff, true);
    assert!(coloured.contains("\x1b[36m@@"));
    assert!(coloured.contains("\x1b[31m-removed"));
    assert!(coloured.contains("\x1b[32m+added"));
    assert!(!coloured.contains("\x1b[31m+added"));
    assert!(coloured.contains("\n context\n"));
    assert_eq!(strip_ansi(&coloured), diff);
}

#[test]
fn render_plain_is_verbatim() {
    let diff = "@@ -1,3 +1,3 @@\n context\n-removed\n+added\n";
    assert_eq!(render_diff(diff, false), diff);
    assert_ne!(render_diff(diff, true), diff);
    assert_eq!(render_diff("", true), "");
    assert_eq!(render_diff("", false), "");
}

#[test]
fn render_keeps_escapes_before_each_newline() {
    let diff = "@@ -1 +1 @@\n ctx\n-a\n+b";
    let coloured = render_diff(diff, true);
    assert_eq!(
        coloured,
        "\x1b[36m@@ -1 +1 @@\x1b[0m\n ctx\n\x1b[31m-a\x1b[0m\n\x1b[32m+b\x1b[0m"
    );
    for line in coloured.split_inclusive('\n') {
        let body = line.strip_suffix('\n').unwrap_or(line);
        assert!(!body.contains('\n'));
    }
    assert_eq!(render_diff("plain\n", true), "plain\n");
}
