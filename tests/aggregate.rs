use llynx::aggregate::{render_lines, AggregateError, CollectError};
use llynx::path::DecodeError;

#[test]
fn collect_no_failure_keeps_order() {
    let results: Vec<Result<u32, String>> = vec![Ok(3), Ok(1), Ok(2)];
    match AggregateError::from_results(results) {
        Ok(v) => assert_eq!(v, vec![3, 1, 2]),
        Err(_) => panic!("nothing failed"),
    }
}

#[test]
fn collect_empty_input() {
    let results: Vec<Result<u32, String>> = vec![];
    match AggregateError::from_results(results) {
        Ok(v) => assert!(v.is_empty()),
        Err(_) => panic!("nothing failed"),
    }
}

#[test]
fn collect_one_failure_unwrapped() {
    let results: Vec<Result<u32, String>> = vec![Ok(1), Err(String::from("bad")), Ok(3)];
    match AggregateError::from_results(results) {
        Err(CollectError::Single(e)) => assert_eq!(e, "bad"),
        other => panic!("expected one failure, got {other:?}"),
    }
}

#[test]
fn collect_many_failures_in_order() {
    let results: Vec<Result<u32, String>> = vec![
        Err(String::from("first")),
        Ok(2),
        Err(String::from("second")),
        Err(String::from("third")),
    ];
    match AggregateError::from_results(results) {
        Err(CollectError::Many(agg)) => {
            assert_eq!(agg.errors, vec!["first", "second", "third"]);
            assert_eq!(agg.cause(), Some(&String::from("first")));
        }
        other => panic!("expected several failures, got {other:?}"),
    }
}

#[test]
fn render_lines_joins_with_newlines() {
    let lines = vec![String::from("a"), String::from("bc")];
    assert_eq!(render_lines(&lines), "a\nbc");
    assert_eq!(render_lines(&vec![]), "");
}

#[test]
fn composite_text_holds_every_message() {
    let results: Vec<Result<u32, DecodeError>> = vec![
        Err(DecodeError::NotADirectoryName(String::from("t/lib/luarocks/../types"))),
        Ok(7),
        Err(DecodeError::NotADirectoryName(String::from("t/lib/luarocks/x/../types"))),
    ];
    match AggregateError::from_results(results) {
        Err(CollectError::Many(agg)) => {
            let text = agg.render();
            for e in &agg.errors {
                assert!(text.contains(&e.message()));
            }
            assert_eq!(text.lines().count(), 2);
            let whole = CollectError::Many(agg).message();
            assert_eq!(whole, text);
        }
        other => panic!("expected several failures, got {other:?}"),
    }
}

#[test]
fn single_failure_message_is_its_own() {
    let e = DecodeError::NotADirectoryName(String::from("t/lib/luarocks/../types"));
    let expected = e.message();
    assert_eq!(CollectError::Single(e).message(), expected);
}

#[test]
fn composite_text_joins_without_trailing_break() {
    let results: Vec<Result<u32, String>> = vec![
        Err(String::from("first")),
        Err(String::from("second")),
    ];
    match AggregateError::from_results(results) {
        Err(CollectError::Many(agg)) => {
            assert_eq!(agg.render(), "first\nsecond");
            assert_eq!(CollectError::Many(agg).message(), "first\nsecond");
        }
        other => panic!("expected several failures, got {other:?}"),
    }
    assert_eq!(CollectError::Single(String::from("only")).message(), "only");
}
