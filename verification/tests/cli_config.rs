use mend::cli::{parse, Command, USAGE};
use mend::config::Config;
use mend::MendError;

fn args(a: &[&str]) -> Vec<String> {
    a.iter().map(|s| s.to_string()).collect()
}

#[test]
fn cli_explain_path() {
    assert_eq!(
        parse(&args(&["explain", "f.rs"])),
        Command::Explain { path: "f.rs".to_string(), symbol: None }
    );
}

#[test]
fn cli_explain_symbol() {
    assert_eq!(
        parse(&args(&["explain", "f.rs", "--symbol", "foo"])),
        Command::Explain { path: "f.rs".to_string(), symbol: Some("foo".to_string()) }
    );
    assert_eq!(
        parse(&args(&["explain", "f.rs", "--symbol"])),
        Command::Usage { message: "`--symbol` requires a value".to_string() }
    );
}

#[test]
fn cli_edit_path_and_instruction() {
    assert_eq!(
        parse(&args(&["edit", "f.rs", "do x"])),
        Command::Edit { path: "f.rs".to_string(), instruction: "do x".to_string(), apply: false, json: false }
    );
}

#[test]
fn cli_flags_and_dry_run() {
    let c = parse(&args(&["edit", "--json", "f.rs", "do x", "--apply"]));
    assert_eq!(
        c,
        Command::Edit { path: "f.rs".to_string(), instruction: "do x".to_string(), apply: true, json: true }
    );
    assert!(!c.dry_run());
    assert!(parse(&args(&["edit", "f.rs", "do x"])).dry_run());
    assert!(parse(&args(&["explain", "f.rs"])).dry_run());
    assert!(!parse(&args(&["fix", "f.rs", "--apply"])).dry_run());
    assert!(parse(&args(&["test", "f.rs"])).dry_run());
}

#[test]
fn cli_fix_and_test() {
    assert_eq!(
        parse(&args(&["fix", "target.rs", "--apply"])),
        Command::Fix { path: "target.rs".to_string(), error: None, apply: true, json: false }
    );
    assert_eq!(
        parse(&args(&["test", "target.rs", "--json"])),
        Command::Test { path: "target.rs".to_string(), apply: false, json: true }
    );
    assert_eq!(
        parse(&args(&["test"])),
        Command::Usage { message: "`test` requires a <path>".to_string() }
    );
    assert_eq!(
        parse(&args(&["fix", "a.rs", "b.rs"])),
        Command::Usage { message: "unexpected argument `b.rs` for `fix`".to_string() }
    );
}

#[test]
fn cli_usage_errors() {
    assert_eq!(parse(&args(&[])), Command::Usage { message: "missing subcommand".to_string() });
    assert_eq!(
        parse(&args(&["bogus"])),
        Command::Usage { message: "unknown subcommand `bogus`".to_string() }
    );
    assert_eq!(
        parse(&args(&["explain"])),
        Command::Usage { message: "`explain` requires a <path>".to_string() }
    );
    assert_eq!(
        parse(&args(&["explain", "f.rs", "--verbose"])),
        Command::Usage { message: "unknown flag `--verbose` for `explain`".to_string() }
    );
    assert_eq!(
        parse(&args(&["edit", "f.rs"])),
        Command::Usage { message: "`edit` requires an <instruction>".to_string() }
    );
    assert_eq!(
        parse(&args(&["edit", "a", "b", "c"])),
        Command::Usage { message: "unexpected argument `c` for `edit`".to_string() }
    );
    assert!(USAGE.starts_with("usage:"));
}

#[test]
fn config_defaults_without_file_or_env() {
    let c = Config::resolve(None, None, None, None).expect("defaults");
    assert_eq!(
        c,
        Config {
            model: "gpt-4".to_string(),
            endpoint: "https://api.openai.com/v1".to_string(),
            token_budget: 4096
        }
    );
}

#[test]
fn config_from_file() {
    let file = "model = \"file-model\"\nendpoint = \"https://file.endpoint\"\ntoken_budget = 4242\n";
    let c = Config::resolve(Some(file), None, None, None).expect("valid file");
    assert_eq!(c.model, "file-model");
    assert_eq!(c.endpoint, "https://file.endpoint");
    assert_eq!(c.token_budget, 4242);
}

#[test]
fn config_env_overrides_file() {
    let file = "model = \"file-model\"\nendpoint = \"https://file.endpoint\"\ntoken_budget = 4242\n";
    let c = Config::resolve(Some(file), Some("env-model"), Some("https://env.endpoint"), Some("9999"))
        .expect("valid file and env");
    assert_eq!(c.model, "env-model");
    assert_eq!(c.endpoint, "https://env.endpoint");
    assert_eq!(c.token_budget, 9999);
}

#[test]
fn config_ignores_unknown_keys_and_bare_lines() {
    let file = "# comment\n[section]\nother = 1\nmodel=bare\r\n  token_budget =  +12  \n";
    let c = Config::resolve(Some(file), None, None, None).expect("valid file");
    assert_eq!(c.model, "bare");
    assert_eq!(c.token_budget, 12);
    assert_eq!(c.endpoint, "https://api.openai.com/v1");
}

#[test]
fn config_bad_budget_in_file_or_env() {
    match Config::resolve(Some("token_budget = \"lots\"\n"), None, None, None) {
        Err(MendError::Config(m)) => assert_eq!(m, "token_budget must be an integer, got: lots"),
        other => panic!("expected a config error, got {:?}", other),
    }
    match Config::resolve(None, None, None, Some("4294967296")) {
        Err(MendError::Config(m)) => {
            assert_eq!(m, "token_budget must be an integer, got: 4294967296")
        }
        other => panic!("expected a config error, got {:?}", other),
    }
    assert_eq!(Config::resolve(None, None, None, Some("4294967295")).expect("max").token_budget, u32::MAX);
}

#[test]
fn error_descriptions() {
    assert_eq!(MendError::Config("c".to_string()).describe(), "configuration error: c");
    assert_eq!(MendError::Parse("p".to_string()).describe(), "parse error: p");
    assert_eq!(MendError::Patch("x".to_string()).describe(), "patch error: x");
    assert_eq!(MendError::Completer("y".to_string()).describe(), "completer error: y");
    let io = MendError::from(std::io::Error::new(std::io::ErrorKind::Other, "io"));
    assert_eq!(io.describe(), "I/O error: io");
}
