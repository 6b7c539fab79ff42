use mend::apply::apply_edits;
use mend::conflict::{detect_conflicts, Conflict};
use mend::match_exact::{match_exact, ExactMatch};
use mend::match_fuzzy::{best_window, clears_threshold};
use mend::parsed_edit::ParsedEdit;
use mend::MendError;

fn sr(search: &str, replace: &str) -> ParsedEdit {
    ParsedEdit::SearchReplace { search: search.to_string(), replace: replace.to_string() }
}

#[test]
fn apply_ordered_disjoint_edits() {
    let source = "one\ntwo\nthree\n";
    let edits = vec![sr("one\n", "ONE\n"), sr("three\n", "THREE\n")];
    let result = apply_edits(source, &edits).expect("clean edit set must apply");
    assert_eq!(result, "ONE\ntwo\nTHREE\n");
    assert_ne!(result, source);
    let one = vec![sr("two\n", "TWO\n")];
    assert_eq!(apply_edits(source, &one).expect("single edit"), "one\nTWO\nthree\n");
}

#[test]
fn apply_whole_file_replaces_everything() {
    let source = "old line 1\nold line 2\nold line 3\n";
    let body = "brand new contents\n";
    let result = apply_edits(source, &[ParsedEdit::WholeFile { body: body.to_string() }])
        .expect("whole-file edit must apply");
    assert_eq!(result, body);
    let empty = apply_edits(source, &[ParsedEdit::WholeFile { body: String::new() }])
        .expect("empty whole-file edit must apply");
    assert_eq!(empty, "");
}

#[test]
fn apply_reports_the_failing_search_text() {
    let source = "dup\nmid\ndup\n";
    match apply_edits(source, &[sr("mid\n", "MID\n"), sr("dup\n", "x\n")]) {
        Err(MendError::Patch(m)) => assert_eq!(m, "search text has no unique match: \"dup\\n\""),
        other => panic!("expected a patch error, got {:?}", other),
    }
    match apply_edits(source, &[sr("absent", "x")]) {
        Err(MendError::Patch(m)) => assert_eq!(m, "search text has no unique match: \"absent\""),
        other => panic!("expected a patch error, got {:?}", other),
    }
}

#[test]
fn apply_uses_the_text_left_by_earlier_edits() {
    // The second edit's search text only exists after the first edit applies.
    let source = "a\nb\n";
    let edits = vec![sr("a\n", "c\n"), sr("c\nb\n", "done\n")];
    assert_eq!(apply_edits(source, &edits).expect("chained edits apply"), "done\n");
}

#[test]
fn conflict_free_set_is_empty_and_applies() {
    let source = "alpha\nbeta\ngamma\n";
    let clean = vec![sr("alpha\n", "ALPHA\n"), sr("gamma\n", "GAMMA\n")];
    assert!(detect_conflicts(source, &clean).is_empty());
    assert_eq!(apply_edits(source, &clean).expect("clean set applies"), "ALPHA\nbeta\nGAMMA\n");
}

#[test]
fn conflict_overlap_is_reported_by_position() {
    let source = "alpha\nbeta\ngamma\n";
    let edits = vec![sr("alpha\nbeta\n", "X\n"), sr("beta\ngamma\n", "Y\n")];
    let conflicts = detect_conflicts(source, &edits);
    assert!(conflicts
        .iter()
        .any(|c| matches!(c, Conflict::Overlap { first: 0, second: 1 })));
}

#[test]
fn conflict_stale_match_after_prior_edit() {
    let source = "alpha\nbeta\n";
    // After the first edit, `alpha` is gone, so the second edit is stale.
    let edits = vec![sr("alpha\n", "gamma\n"), sr("alpha\n", "delta\n")];
    let conflicts = detect_conflicts(source, &edits);
    assert!(conflicts.iter().any(|c| matches!(c, Conflict::StaleMatch { index: 1 })));
    assert!(apply_edits(source, &edits).is_err());
}

#[test]
fn exact_unique_match_carries_byte_range() {
    let source = "alpha\nbeta\ngamma\n";
    match match_exact(source, "beta\n") {
        ExactMatch::Unique(r) => {
            assert_eq!(r.start, 6);
            assert_eq!(r.end, 11);
            assert_eq!(&source[r.start..r.end], "beta\n");
        }
        other => panic!("expected Unique, got {:?}", other),
    }
}

#[test]
fn exact_match_counts_in_bytes() {
    let source = "é\nβeta\n";
    match match_exact(source, "βeta") {
        ExactMatch::Unique(r) => {
            assert_eq!(r.start, 3);
            assert_eq!(r.end, 8);
            assert_eq!(&source[r], "βeta");
        }
        other => panic!("expected Unique, got {:?}", other),
    }
}

#[test]
fn exact_absent_and_ambiguous() {
    let source = "alpha\nbeta\ngamma\n";
    assert!(matches!(match_exact(source, "delta\n"), ExactMatch::NoMatch));
    assert!(matches!(match_exact("dup\nmid\ndup\n", "dup\n"), ExactMatch::Ambiguous));
    assert!(matches!(match_exact("dup\nmid\n", "dup\n"), ExactMatch::Unique(_)));
    // Overlapping occurrences count: "aa" occurs at 0 and at 1.
    assert!(matches!(match_exact("aaa", "aa"), ExactMatch::Ambiguous));
    assert!(matches!(match_exact("aa", "aa"), ExactMatch::Unique(_)));
    assert!(matches!(match_exact("", ""), ExactMatch::Unique(_)));
    assert!(matches!(match_exact("a", ""), ExactMatch::Ambiguous));
}

#[test]
fn fuzzy_ignores_surrounding_whitespace() {
    let source = "fn f() {\n    if cond {\n        do_thing();\n    }\n}\n";
    let search = "if cond {\n  do_thing();  \n";
    let w = best_window(source, search).expect("a window exists");
    assert_eq!(w.lines, 2);
    assert_eq!(w.matches, 2);
    assert_eq!(&source[w.start..w.end], "    if cond {\n        do_thing();\n");
}

#[test]
fn fuzzy_partial_window() {
    let source = "head\n  alpha\n  XXXX\n  gamma\n tail\n";
    let w = best_window(source, "alpha\nbeta\ngamma\n").expect("a window exists");
    assert_eq!(w.lines, 3);
    assert_eq!(w.matches, 2);
    assert_eq!(&source[w.start..w.end], "  alpha\n  XXXX\n  gamma\n");
    let lonely = best_window("p\n  alpha\n  q\n  r\n s\n", "alpha\nbeta\ngamma\n").expect("window");
    assert_eq!(lonely.matches, 1);
}

#[test]
fn fuzzy_last_of_equal_windows_wins() {
    let source = "x\na\nx\na\n";
    let w = best_window(source, "a\n").expect("a window exists");
    assert_eq!(w.matches, 1);
    assert_eq!((w.start, w.end), (6, 8));
}

#[test]
fn fuzzy_no_window() {
    assert!(best_window("a\nb\n", "").is_none());
    assert!(best_window("a\n", "a\nb\nc\n").is_none());
}

#[test]
fn conflict_stale_after_whole_file_edit() {
    let source = "a\n";
    let edits = vec![ParsedEdit::WholeFile { body: "b\n".to_string() }, sr("a\n", "x\n")];
    assert!(apply_edits(source, &edits).is_err());
    let conflicts = detect_conflicts(source, &edits);
    assert!(conflicts.iter().any(|c| matches!(c, Conflict::StaleMatch { index: 1 })));
    let fine = vec![ParsedEdit::WholeFile { body: "b\n".to_string() }, sr("b\n", "x\n")];
    assert!(detect_conflicts(source, &fine).is_empty());
    assert_eq!(apply_edits(source, &fine).expect("applies"), "x\n");
}

#[test]
fn fuzzy_threshold_is_two_thirds() {
    let two_of_three = best_window("p\n  alpha\n  XXXX\n  gamma\n s\n", "alpha\nbeta\ngamma\n").expect("w");
    assert!(clears_threshold(&two_of_three));
    let one_of_three = best_window("p\n  alpha\n  q\n  r\n s\n", "alpha\nbeta\ngamma\n").expect("w");
    assert!(!clears_threshold(&one_of_three));
}
