use batch_compress::progress::{
    parse_progress_message, parse_usize_or_zero, ProgressEvent, ProgressSink, ProgressState,
    RecordingSink,
};

#[test]
fn parse_total_count_message() {
    let e = parse_progress_message("Total file count: 42");
    assert!(matches!(e, ProgressEvent::TotalCount(42)));
}

#[test]
fn parse_total_count_bad_number_is_zero() {
    let e = parse_progress_message("Total file count: 4x2");
    assert!(matches!(e, ProgressEvent::TotalCount(0)));
    let e = parse_progress_message("Total file count: ");
    assert!(matches!(e, ProgressEvent::TotalCount(0)));
    let e = parse_progress_message("Total file count: 99999999999999999999999999");
    assert!(matches!(e, ProgressEvent::TotalCount(0)));
}

#[test]
fn parse_file_done_message() {
    let e = parse_progress_message("Compress complete! File: photos/a.jpg");
    match e {
        ProgressEvent::FileDone(p) => assert_eq!(p, "photos/a.jpg"),
        _ => panic!("expected a finished-file event"),
    }
}

#[test]
fn parse_file_skipped_message() {
    let e = parse_progress_message("A file with the same name exists: b.png");
    match e {
        ProgressEvent::FileSkipped(p) => assert_eq!(p, "b.png"),
        _ => panic!("expected a skipped-file event"),
    }
}

#[test]
fn parse_unrecognized_message_is_other() {
    assert!(matches!(parse_progress_message("Compress complete!"), ProgressEvent::Other));
    assert!(matches!(parse_progress_message(""), ProgressEvent::Other));
    assert!(matches!(
        parse_progress_message("Delete source directories complete!"),
        ProgressEvent::Other
    ));
}

#[test]
fn parse_usize_digits() {
    assert_eq!(parse_usize_or_zero(&"123".chars().collect()), 123);
    assert_eq!(parse_usize_or_zero(&"0".chars().collect()), 0);
    assert_eq!(parse_usize_or_zero(&Vec::new()), 0);
    assert_eq!(parse_usize_or_zero(&"12a".chars().collect()), 0);
}

#[test]
fn state_counts_file_events_and_stores_total() {
    let mut state = ProgressState::new();
    assert_eq!(state.total_files, 0);
    assert_eq!(state.completed_count, 0);
    let note = state.apply(&ProgressEvent::TotalCount(3));
    assert_eq!(note, Some((0, 3)));
    assert_eq!(state.total_files, 3);
    let note = state.apply(&ProgressEvent::FileDone(String::from("a.jpg")));
    assert_eq!(note, Some((1, 3)));
    let note = state.apply(&ProgressEvent::FileSkipped(String::from("b.jpg")));
    assert_eq!(note, Some((2, 3)));
    let note = state.apply(&ProgressEvent::Other);
    assert_eq!(note, None);
    assert_eq!(state.completed_count, 2);
}

#[test]
fn recording_sink_records_in_order() {
    let mut sink = RecordingSink::new();
    sink.notify(0, 3);
    sink.notify(1, 3);
    assert_eq!(sink.notes, vec![(0, 3), (1, 3)]);
}
