use csvify::error::{IoFailure, LineError, LogError};
use csvify::source::{LineRead, LogReader};

fn text_lines(lines: &[&str]) -> Vec<LineRead> {
    lines.iter().map(|l| Ok(l.to_string())).collect()
}

fn broken_pipe() -> IoFailure {
    IoFailure {
        code: Some(32),
        message: "broken pipe".to_string(),
    }
}

#[test]
fn log_reader_can_read_log_line_correctly() {
    let doc = "4/5 16:34:03.029  COMBAT_LOG_VERSION,20,ADVANCED_LOG_ENABLED,1,BUILD_VERSION,10.0.7,PROJECT_ID,1";
    let r = LogReader::new(vec![Ok(doc.to_string())]);
    let mut iter = r.lines();
    let res = iter
        .next()
        .expect("had no line")
        .expect("could not read line");

    let expected = vec![
        "4/5 16:34:03.029  COMBAT_LOG_VERSION",
        "20",
        "ADVANCED_LOG_ENABLED",
        "1",
        "BUILD_VERSION",
        "10.0.7",
        "PROJECT_ID",
        "1",
    ];

    assert_eq!(res, expected);
    assert!(iter.next().is_none());
}

#[test]
fn lines_yield_one_record_per_line_in_order() {
    let mut lines = LogReader::new(text_lines(&["a,b", "c", "d,[e,f]"])).lines();
    assert_eq!(
        lines.next(),
        Some(Ok(vec!["a".to_string(), "b".to_string()]))
    );
    assert_eq!(lines.next(), Some(Ok(vec!["c".to_string()])));
    assert_eq!(
        lines.next(),
        Some(Ok(vec!["d".to_string(), "[e,f]".to_string()]))
    );
    assert_eq!(lines.next(), None);
    assert_eq!(lines.next(), None);
}

#[test]
fn empty_stream_yields_nothing() {
    let mut lines = LogReader::new(Vec::new()).lines();
    assert_eq!(lines.next(), None);
}

#[test]
fn empty_lines_are_skipped_not_yielded() {
    let mut lines = LogReader::new(text_lines(&["", "a", "", "", "b", ""])).lines();
    assert_eq!(lines.next(), Some(Ok(vec!["a".to_string()])));
    assert_eq!(lines.next(), Some(Ok(vec!["b".to_string()])));
    assert_eq!(lines.next(), None);
}

#[test]
fn read_failure_is_kept_apart_from_line_failure() {
    let input: Vec<LineRead> = vec![
        Ok("a,b".to_string()),
        Err(broken_pipe()),
        Ok("c,[".to_string()),
        Ok("d".to_string()),
    ];
    let mut lines = LogReader::new(input).lines();
    assert_eq!(
        lines.next(),
        Some(Ok(vec!["a".to_string(), "b".to_string()]))
    );
    assert_eq!(lines.next(), Some(Err(LogError::Io(broken_pipe()))));
    assert_eq!(
        lines.next(),
        Some(Err(LogError::Line(LineError::MalformedLine)))
    );
    assert_eq!(lines.next(), Some(Ok(vec!["d".to_string()])));
    assert_eq!(lines.next(), None);
}

#[test]
fn too_deep_line_is_a_stack_overflow_element() {
    let deep = "[".repeat(300);
    let mut lines = LogReader::new(vec![Ok(deep)]).lines();
    assert_eq!(
        lines.next(),
        Some(Err(LogError::Line(LineError::StackOverflow)))
    );
    assert_eq!(lines.next(), None);
}

#[test]
fn duplicate_copies_code_and_message() {
    let failure = broken_pipe();
    let copy = failure.duplicate();
    assert_eq!(copy, failure);
    assert_eq!(copy.code, Some(32));
    assert_eq!(copy.message, "broken pipe");
    let bare = IoFailure {
        code: None,
        message: String::new(),
    };
    assert_eq!(bare.duplicate(), bare);
}
