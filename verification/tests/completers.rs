use mend::config::Config;
use mend::http_completer::HttpCompleter;
use mend::mock::MockCompleter;
use mend::{Completer, MendError};

#[test]
fn mock_replays_in_order() {
    let mut m = MockCompleter::new(vec!["first".to_string(), "second".to_string(), "third".to_string()]);
    assert_eq!(m.complete("p1").expect("1st"), "first");
    assert_eq!(m.complete("p2").expect("2nd"), "second");
    assert_eq!(m.complete("p3").expect("3rd"), "third");
}

#[test]
fn mock_exhausted_is_an_error() {
    let mut m = MockCompleter::new(vec!["only".to_string()]);
    let _ = m.complete("p1").expect("scripted");
    match m.complete("p2") {
        Err(MendError::Completer(msg)) => {
            assert_eq!(msg, "mock completer script exhausted: no scripted response remaining")
        }
        other => panic!("expected a completer error, got {:?}", other),
    }
    assert!(m.complete("p3").is_err());
}

#[test]
fn mock_records_every_prompt() {
    let mut m = MockCompleter::new(vec!["r1".to_string(), "r2".to_string()]);
    let _ = m.complete("alpha");
    let _ = m.complete("beta");
    let _ = m.complete("gamma");
    assert_eq!(m.prompts(), vec!["alpha".to_string(), "beta".to_string(), "gamma".to_string()]);
}

#[test]
fn mock_through_the_trait() {
    fn ask<C: Completer>(c: &mut C) -> mend::Result<String> {
        c.complete("q")
    }
    let mut m = MockCompleter::new(vec!["a".to_string()]);
    assert_eq!(ask(&mut m).expect("scripted"), "a");
    assert_eq!(m.prompts(), vec!["q".to_string()]);
}

fn config(endpoint: &str) -> Config {
    Config { model: "m".to_string(), endpoint: endpoint.to_string(), token_budget: 10 }
}

#[test]
fn http_address_strips_scheme() {
    assert_eq!(HttpCompleter::new(&config("http://127.0.0.1:8080")).address(), "127.0.0.1:8080");
    assert_eq!(HttpCompleter::new(&config("localhost:9")).address(), "localhost:9");
}

#[test]
fn http_request_carries_model_and_prompt() {
    let h = HttpCompleter::new(&config("http://127.0.0.1:8080"));
    let prompt = "say \"hi\"\nnow é";
    let body = format!("{{\"model\":{:?},\"prompt\":{:?}}}", "m", prompt);
    let expected = format!(
        "POST / HTTP/1.1\r\nHost: 127.0.0.1:8080\r\nContent-Type: application/json\r\nContent-Length: {}\r\nConnection: close\r\n\r\n{}",
        body.len(),
        body
    );
    assert_eq!(h.request(prompt), expected);
}

#[test]
fn http_2xx_reply_yields_body() {
    let r = HttpCompleter::read_response("HTTP/1.1 200 OK\r\nContent-Length: 5\r\n\r\nhello");
    assert_eq!(r.expect("2xx"), "hello");
    let r = HttpCompleter::read_response("HTTP/1.1 204 No Content\r\n\r\n");
    assert_eq!(r.expect("2xx"), "");
}

#[test]
fn http_other_status_is_an_error() {
    match HttpCompleter::read_response("HTTP/1.1 404 Not Found\r\n\r\nnope") {
        Err(MendError::Completer(m)) => assert_eq!(m, "endpoint returned non-2xx status 404"),
        other => panic!("expected a completer error, got {:?}", other),
    }
    match HttpCompleter::read_response("garbage") {
        Err(MendError::Completer(m)) => assert_eq!(m, "endpoint returned non-2xx status 0"),
        other => panic!("expected a completer error, got {:?}", other),
    }
    match HttpCompleter::read_response("HTTP/1.1 300 Multiple\r\n\r\nbody") {
        Err(MendError::Completer(m)) => assert_eq!(m, "endpoint returned non-2xx status 300"),
        other => panic!("expected a completer error, got {:?}", other),
    }
}

struct Echo;

impl mend::Backend for Echo {
    fn answer(&mut self, prompt: &str) -> mend::Result<String> {
        Ok(format!("echo: {prompt}"))
    }
}

#[test]
fn recorded_backend_hands_prompts_through() {
    let mut c = mend::Recorded::new(Echo);
    assert_eq!(c.complete("hello").expect("answer"), "echo: hello");
    let _ = c.backend();
}
