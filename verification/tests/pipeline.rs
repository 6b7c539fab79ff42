use mend::apply::apply_edits;
use mend::cli::Command;
use mend::config::Config;
use mend::dispatch::parse_response;
use mend::dispatch_output::{dispatch_output, OutputMode};
use mend::edit::{edit_request, file_context, finish_edit, run_edit};
use mend::explain::{explain_request, run_explain};
use mend::fix::{fix_request, run_fix, INFER_INSTRUCTION};
use mend::json_result::{emit_json, parse_json, JsonResult};
use mend::mock::MockCompleter;
use mend::parsed_edit::ParsedEdit;
use mend::prompt::{edit_prompt, explain_prompt, fix_prompt, test_prompt};
use mend::render_diff::render_diff;
use mend::route::{run, run_cli};
use mend::test_cmd::{finish_test, run_test, test_request};
use mend::unified_diff::compute_unified_diff;
use mend::MendError;

const SOURCE: &str = "use std::fmt;\n\npub fn add(a: i32, b: i32) -> i32 { a + b }\n";

fn config() -> Config {
    Config {
        model: "test-model".to_string(),
        endpoint: "http://nonexistent.invalid:0/v1".to_string(),
        token_budget: 100_000,
    }
}

fn sr(search: &str, replace: &str) -> ParsedEdit {
    ParsedEdit::SearchReplace { search: search.to_string(), replace: replace.to_string() }
}

fn mock(responses: &[&str]) -> MockCompleter {
    MockCompleter::new(responses.iter().map(|s| s.to_string()).collect())
}

#[test]
fn dispatch_dry_run_renders_diff() {
    let original = "line one\nline two\nline three\n";
    let proposed = "line one\nCHANGED\nline three\n";
    let out = dispatch_output(
        "f.rs",
        original,
        Ok(proposed.to_string()),
        vec![sr("line two\n", "CHANGED\n")],
        OutputMode::DryRun,
        true,
    )
    .expect("dry run");
    assert_eq!(out.text, render_diff(&compute_unified_diff(original, proposed), true));
    assert!(!out.write);
    let plain = dispatch_output("f.rs", original, Ok(proposed.to_string()), vec![], OutputMode::DryRun, false)
        .expect("dry run");
    assert_eq!(plain.text, "@@ -1,3 +1,3 @@\n line one\n-line two\n+CHANGED\n line three\n");
}

#[test]
fn dispatch_apply_asks_for_write() {
    let out = dispatch_output("f.rs", "a\n", Ok("b\n".to_string()), vec![sr("a\n", "b\n")], OutputMode::Apply, false)
        .expect("apply");
    assert_eq!(out.text, "b\n");
    assert!(out.write);
}

#[test]
fn dispatch_json_emits_result() {
    let original = "line one\nline two\nline three\n";
    let proposed = "line one\nCHANGED\nline three\n";
    let out = dispatch_output(
        "f.rs",
        original,
        Ok(proposed.to_string()),
        vec![sr("line two\n", "CHANGED\n")],
        OutputMode::Json,
        true,
    )
    .expect("json");
    let expected = emit_json(&JsonResult {
        path: "f.rs".to_string(),
        original: original.to_string(),
        proposed: proposed.to_string(),
        edits: vec![sr("line two\n", "CHANGED\n")],
        applied: false,
    });
    assert_eq!(out.text, expected);
    assert!(!out.write);
    assert!(!out.text.contains('\u{1b}'));
    assert!(!parse_json(&out.text).expect("parses").applied);
}

#[test]
fn dispatch_propagates_patch_error() {
    let applied: mend::Result<String> = Err(MendError::Patch("search text has no unique match".to_string()));
    match dispatch_output("f.rs", "x", applied, vec![], OutputMode::Apply, false) {
        Err(MendError::Patch(m)) => assert_eq!(m, "search text has no unique match"),
        other => panic!("expected the patch error, got {:?}", other),
    }
}

#[test]
fn handler_prompts_carry_context() {
    let cfg = config();
    let context = file_context(SOURCE, &cfg).expect("context");
    assert!(context.contains("add"));
    assert!(context.ends_with("\nstd::fmt"));
    assert_eq!(explain_request(SOURCE, Some("add"), &cfg).expect("p"), explain_prompt(&context, Some("add")));
    assert_eq!(edit_request(SOURCE, "rename add", &cfg).expect("p"), edit_prompt(&context, "rename add"));
    assert_eq!(fix_request(SOURCE, Some("boom"), &cfg).expect("p"), fix_prompt(&context, "boom"));
    assert_eq!(fix_request(SOURCE, None, &cfg).expect("p"), fix_prompt(&context, INFER_INSTRUCTION));
    assert_eq!(test_request(SOURCE, &cfg).expect("p"), test_prompt(&context));
}

#[test]
fn handler_parse_error_stops_before_completion() {
    let mut m = mock(&["unused"]);
    match run_edit("t.rs", "pub fn foo( {", "x", &config(), &mut m, OutputMode::DryRun, false) {
        Err(MendError::Parse(_)) => {}
        other => panic!("expected a parse error, got {:?}", other),
    }
    assert!(m.prompts().is_empty());
}

#[test]
fn explain_returns_the_completion() {
    let mut m = mock(&["EXPLANATION"]);
    let out = run_explain(SOURCE, Some("add"), &config(), &mut m).expect("explain");
    assert_eq!(out, "EXPLANATION");
    assert_eq!(m.prompts(), vec![explain_request(SOURCE, Some("add"), &config()).expect("p")]);
}

#[test]
fn edit_dry_run_and_apply() {
    let response = "```\nFIXED_BODY_SENTINEL\n```\n";
    let proposed = apply_edits(SOURCE, &parse_response(response).expect("parse")).expect("apply");
    assert_eq!(proposed, "FIXED_BODY_SENTINEL\n");
    let mut m = mock(&[response, response]);
    let dry = run_edit("t.rs", SOURCE, "rewrite", &config(), &mut m, OutputMode::DryRun, false).expect("dry");
    assert_eq!(dry.text, compute_unified_diff(SOURCE, &proposed));
    assert!(!dry.write);
    let apply = run_edit("t.rs", SOURCE, "rewrite", &config(), &mut m, OutputMode::Apply, false).expect("apply");
    assert_eq!(apply.text, proposed);
    assert!(apply.write);
}

#[test]
fn edit_patch_failure_is_reported() {
    let response = "<<<<<<< SEARCH\nnot in the file\n=======\nx\n>>>>>>> REPLACE";
    let r = finish_edit("t.rs", SOURCE, Ok(response.to_string()), OutputMode::Apply, false);
    match r {
        Err(MendError::Patch(m)) => assert_eq!(m, "search text has no unique match: \"not in the file\\n\""),
        other => panic!("expected a patch error, got {:?}", other),
    }
    let r = finish_edit("t.rs", SOURCE, Err(MendError::Completer("down".to_string())), OutputMode::Apply, false);
    assert!(matches!(r, Err(MendError::Completer(_))));
}

#[test]
fn fix_uses_error_or_inference() {
    let response = "```\nFIXED\n```\n";
    let mut m = mock(&[response, response]);
    let out = run_fix("t.rs", SOURCE, Some("boom"), &config(), &mut m, OutputMode::Json, false).expect("fix");
    let parsed = parse_json(&out.text).expect("json");
    assert_eq!(parsed.path, "t.rs");
    assert_eq!(parsed.proposed, "FIXED\n");
    let _ = run_fix("t.rs", SOURCE, None, &config(), &mut m, OutputMode::DryRun, false).expect("fix");
    let prompts = m.prompts();
    assert!(prompts[0].contains("Error: boom"));
    assert!(prompts[1].contains(INFER_INSTRUCTION));
}

#[test]
fn test_command_wraps_the_answer() {
    let response = "#[test]\nfn generated_case() { assert_eq!(add(2, 2), 4); }\n";
    let mut m = mock(&[response]);
    let out = run_test("t.rs", SOURCE, &config(), &mut m, OutputMode::Apply, false).expect("test");
    assert_eq!(out.text, response);
    assert!(out.write);
    let dry = finish_test("t.rs", Ok(response.to_string()), OutputMode::DryRun, false).expect("dry");
    assert_eq!(dry.text, compute_unified_diff("", response));
    assert!(dry.text.contains("generated_case"));
}

#[test]
fn route_selects_exactly_one_handler() {
    let cfg = config();
    let mut m = mock(&["E"]);
    let out = run(Command::Explain { path: "t.rs".to_string(), symbol: Some("add".to_string()) }, SOURCE, &cfg, &mut m)
        .expect("explain");
    assert_eq!(out.text, "E");
    assert!(!out.write);
    assert_eq!(m.prompts().len(), 1);

    let mut m = mock(&["```\nNEW\n```\n"]);
    let out = run(
        Command::Edit { path: "t.rs".to_string(), instruction: "rename add".to_string(), apply: false, json: false },
        SOURCE,
        &cfg,
        &mut m,
    )
    .expect("edit");
    assert!(out.text.contains("+NEW"));
    assert!(m.prompts()[0].contains("Instruction: rename add"));

    let mut m = mock(&["```\nNEW\n```\n"]);
    let out = run(
        Command::Fix { path: "t.rs".to_string(), error: Some("boom".to_string()), apply: false, json: false },
        SOURCE,
        &cfg,
        &mut m,
    )
    .expect("fix");
    assert!(!out.write);
    assert!(m.prompts()[0].contains("Error: boom"));

    let mut m = mock(&["raw tests\n"]);
    let out = run(Command::Test { path: "t.rs".to_string(), apply: false, json: false }, SOURCE, &cfg, &mut m)
        .expect("test");
    assert!(out.text.contains("+raw tests"));
    assert!(m.prompts()[0].contains("public API"));
}

#[test]
fn route_flags_choose_the_mode() {
    let cfg = config();
    let response = "```\nNEW\n```\n";
    let mut m = mock(&[response, response, response]);
    let apply = run(
        Command::Edit { path: "target.rs".to_string(), instruction: "x".to_string(), apply: true, json: true },
        SOURCE,
        &cfg,
        &mut m,
    )
    .expect("apply");
    assert!(apply.write);
    assert_eq!(apply.text, "NEW\n");
    let json = run(
        Command::Edit { path: "target.rs".to_string(), instruction: "x".to_string(), apply: false, json: true },
        SOURCE,
        &cfg,
        &mut m,
    )
    .expect("json");
    assert!(!json.write);
    assert_eq!(parse_json(&json.text).expect("parses").path, "target.rs");
}

#[test]
fn route_usage_is_a_config_error() {
    let mut m = mock(&[]);
    match run(Command::Usage { message: "bad usage".to_string() }, "", &config(), &mut m) {
        Err(MendError::Config(msg)) => assert_eq!(msg, "bad usage"),
        other => panic!("expected a config error, got {:?}", other),
    }
    assert!(m.prompts().is_empty());
}

#[test]
fn cli_end_to_end_with_mock() {
    let args: Vec<String> = vec!["fix".to_string(), "target.rs".to_string(), "--apply".to_string()];
    let mut m = mock(&["```\nFIXED_BODY_SENTINEL\n```\n"]);
    let out = run_cli(&args, SOURCE, &config(), &mut m).expect("fix --apply");
    assert_eq!(out.text, "FIXED_BODY_SENTINEL\n");
    assert!(out.write);
    let args: Vec<String> = vec!["bogus".to_string()];
    match run_cli(&args, SOURCE, &config(), &mut mock(&[])) {
        Err(MendError::Config(m)) => assert_eq!(m, "unknown subcommand `bogus`"),
        other => panic!("expected a usage error, got {:?}", other),
    }
}
