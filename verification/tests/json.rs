use mend::json_result::{emit_json, parse_json, JsonResult};
use mend::parsed_edit::ParsedEdit;
use mend::MendError;

fn sample() -> JsonResult {
    JsonResult {
        path: "src/lib.rs".to_string(),
        original: "ALPHA_ORIGINAL".to_string(),
        proposed: "BETA_PROPOSED".to_string(),
        edits: vec![
            ParsedEdit::SearchReplace {
                search: "SEARCH_NEEDLE".to_string(),
                replace: "REPLACE_NEEDLE".to_string(),
            },
            ParsedEdit::WholeFile { body: "WHOLEFILE_NEEDLE".to_string() },
        ],
        applied: false,
    }
}

#[test]
fn json_exact_layout() {
    let json = emit_json(&sample());
    assert_eq!(
        json,
        "{\"path\":\"src/lib.rs\",\"original\":\"ALPHA_ORIGINAL\",\"proposed\":\"BETA_PROPOSED\",\"edits\":[{\"type\":\"search_replace\",\"search\":\"SEARCH_NEEDLE\",\"replace\":\"REPLACE_NEEDLE\"},{\"type\":\"whole_file\",\"body\":\"WHOLEFILE_NEEDLE\"}],\"applied\":false}"
    );
}

#[test]
fn json_round_trip_keeps_every_field() {
    let result = sample();
    let json = emit_json(&result);
    let parsed = parse_json(&json).expect("emitted JSON parses");
    assert_eq!(parsed, result);
    assert_eq!(emit_json(&parsed), json);
}

#[test]
fn json_applied_flag_round_trips() {
    for applied in [true, false] {
        let r = JsonResult {
            path: "p".to_string(),
            original: "o".to_string(),
            proposed: "n".to_string(),
            edits: vec![ParsedEdit::WholeFile { body: "b".to_string() }],
            applied,
        };
        let json = emit_json(&r);
        assert_eq!(json.contains("true"), applied);
        assert_eq!(json.contains("false"), !applied);
        assert_eq!(parse_json(&json).expect("parses").applied, applied);
    }
}

#[test]
fn json_escapes_round_trip() {
    let r = JsonResult {
        path: "src/main.rs".to_string(),
        original: "first\nsecond \"quoted\" \\ back\n".to_string(),
        proposed: "first\nCHANGED\n".to_string(),
        edits: vec![
            ParsedEdit::SearchReplace { search: "second".to_string(), replace: "CHANGED".to_string() },
            ParsedEdit::WholeFile { body: "first\nCHANGED\n".to_string() },
        ],
        applied: true,
    };
    let json = emit_json(&r);
    assert!(json.contains("first\\nsecond \\\"quoted\\\" \\\\ back\\n"));
    assert_eq!(parse_json(&json).expect("parses"), r);
}

#[test]
fn json_without_edits_round_trips() {
    let r = JsonResult {
        path: "p".to_string(),
        original: "o".to_string(),
        proposed: "n".to_string(),
        edits: vec![],
        applied: false,
    };
    let json = emit_json(&r);
    assert!(json.contains("\"edits\":[]"));
    let parsed = parse_json(&json).expect("an empty edit list reads back");
    assert_eq!(parsed, r);
    assert_eq!(emit_json(&parsed), json);
}

#[test]
fn json_rejects_non_objects() {
    match parse_json("not json") {
        Err(MendError::Parse(m)) => assert_eq!(m, "malformed JSON result"),
        other => panic!("expected a parse error, got {:?}", other),
    }
    assert!(parse_json("@@ -1 +1 @@\n-a\n+b\n").is_err());
}
