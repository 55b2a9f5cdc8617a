use tailspin::reader::{line_from_timed_read, strip_newline_character, ReaderSession};

#[test]
fn strip_newline_removes_one_trailing_delimiter() {
    assert_eq!(strip_newline_character(b"abc\n".to_vec()), b"abc".to_vec());
    assert_eq!(strip_newline_character(b"abc".to_vec()), b"abc".to_vec());
    assert_eq!(strip_newline_character(b"abc\n\n".to_vec()), b"abc\n".to_vec());
    assert_eq!(strip_newline_character(b"".to_vec()), b"".to_vec());
    assert_eq!(strip_newline_character(b"\n".to_vec()), b"".to_vec());
}

#[test]
fn timed_read_yields_a_line_only_for_data() {
    assert_eq!(line_from_timed_read(None), None);
    assert_eq!(line_from_timed_read(Some(b"".to_vec())), None);
    assert_eq!(line_from_timed_read(Some(b"hi\n".to_vec())), Some("hi".to_string()));
    assert_eq!(line_from_timed_read(Some(b"hi".to_vec())), Some("hi".to_string()));
}

#[test]
fn invalid_bytes_are_replaced_never_fatal() {
    let mut session = ReaderSession::new(None);
    let got = session.process_single_read(vec![0xff, 0xfe, b'a', b'\n']);
    assert_eq!(got, Some(vec!["\u{FFFD}\u{FFFD}a".to_string()]));
}

#[test]
fn bulk_call_latches_single_mode() {
    // Five immediately-available lines come back as one batch from the bulk
    // call; afterwards the reader is permanently in single mode and each call
    // yields a one-element batch.
    let mut session = ReaderSession::new(None);
    assert!(session.is_bulk_mode());
    let lines: Vec<String> = (1..=5).map(|i| format!("line{}", i)).collect();
    let batch = session.finish_bulk(lines.clone());
    assert_eq!(batch, Some(lines));
    assert!(!session.is_bulk_mode());

    let next = session.process_single_read(b"line6\n".to_vec());
    assert_eq!(next, Some(vec!["line6".to_string()]));
    assert!(!session.is_bulk_mode());
}

#[test]
fn empty_bulk_drain_is_immediate_end_of_stream() {
    let (tx, mut rx) = tokio::sync::oneshot::channel::<()>();
    let mut session = ReaderSession::new(Some(tx));
    let batch = session.finish_bulk(Vec::new());
    assert_eq!(batch, None);
    assert!(!session.is_bulk_mode());
    assert_eq!(rx.try_recv(), Ok(()));
}

#[test]
fn end_of_stream_fires_exactly_once_and_never_before() {
    let (tx, mut rx) = tokio::sync::oneshot::channel::<()>();
    let mut session = ReaderSession::new(Some(tx));

    let batch = session.finish_bulk(vec!["a".to_string(), "b".to_string()]);
    assert_eq!(batch, Some(vec!["a".to_string(), "b".to_string()]));
    assert!(rx.try_recv().is_err(), "notice must not fire before closure");

    let one = session.process_single_read(b"c\n".to_vec());
    assert_eq!(one, Some(vec!["c".to_string()]));
    assert!(rx.try_recv().is_err(), "notice must not fire before closure");

    let end = session.process_single_read(Vec::new());
    assert_eq!(end, None);
    assert_eq!(rx.try_recv(), Ok(()), "notice fires on first observed closure");

    // A second observed closure is digested quietly: no second fire, and the
    // already-consumed channel reports itself closed, not signalled again.
    let again = session.process_single_read(Vec::new());
    assert_eq!(again, None);
    assert!(rx.try_recv().is_err());
}

#[test]
fn reader_without_notice_still_handles_closure() {
    let mut session = ReaderSession::new(None);
    assert_eq!(session.finish_bulk(vec!["x".to_string()]), Some(vec!["x".to_string()]));
    assert_eq!(session.process_single_read(Vec::new()), None);
    assert_eq!(session.process_single_read(Vec::new()), None);
}
