use batch_compress::job::{
    effective_thread_count, finish_job, handle_message, process_messages, CompressionOptions,
    JobError,
};
use batch_compress::progress::{ProgressState, RecordingSink};
use batch_compress::reconcile::derive_source_path;

fn msgs(raw: &[&str]) -> Vec<String> {
    raw.iter().map(|s| s.to_string()).collect()
}

#[test]
fn three_done_messages_yield_three_entries() {
    let stream = msgs(&[
        "Total file count: 3",
        "Compress complete! File: a.jpg",
        "Compress complete! File: sub/b.jpg",
        "Compress complete! File: c.png",
    ]);
    let mut sink = RecordingSink::new();
    let (state, outcome) = process_messages(&stream, "/out", &mut sink);
    assert_eq!(outcome.len(), 3);
    for p in &outcome {
        assert!(p.starts_with("/out"));
    }
    assert_eq!(outcome[0], "/out/a.jpg");
    assert_eq!(outcome[1], "/out/sub/b.jpg");
    assert_eq!(outcome[2], "/out/c.png");
    assert_eq!(state.total_files, 3);
    assert_eq!(state.completed_count, 3);
}

#[test]
fn skipped_message_still_yields_an_entry() {
    let stream = msgs(&[
        "Total file count: 2",
        "Compress complete! File: a.jpg",
        "A file with the same name exists: b.jpg",
    ]);
    let mut sink = RecordingSink::new();
    let (state, outcome) = process_messages(&stream, "/out", &mut sink);
    assert_eq!(outcome.len(), 2);
    assert_eq!(outcome[1], "/out/b.jpg");
    assert_eq!(state.completed_count, 2);
}

#[test]
fn observer_sees_nondecreasing_completed_counts() {
    let stream = msgs(&[
        "Total file count: 3",
        "Compress complete! File: a.jpg",
        "Compress complete!",
        "A file with the same name exists: b.jpg",
        "Compress complete! File: c.jpg",
        "Delete source directories complete!",
    ]);
    let mut sink = RecordingSink::new();
    let (_, _) = process_messages(&stream, "/out", &mut sink);
    assert_eq!(sink.notes, vec![(0, 3), (1, 3), (2, 3), (3, 3)]);
    for w in sink.notes.windows(2) {
        assert!(w[0].0 <= w[1].0);
    }
    // The final notification's completed count equals the number of per-file
    // messages in the stream.
    assert_eq!(sink.notes.last().unwrap().0, 3);
}

#[test]
fn unrecognized_messages_are_ignored() {
    let stream = msgs(&["hello", "Compress complete!", ""]);
    let mut sink = RecordingSink::new();
    let (state, outcome) = process_messages(&stream, "/out", &mut sink);
    assert_eq!(outcome.len(), 0);
    assert_eq!(sink.notes.len(), 0);
    assert_eq!(state.total_files, 0);
    assert_eq!(state.completed_count, 0);
}

#[test]
fn handle_message_appends_joined_path() {
    let mut state = ProgressState::new();
    let mut outcome: Vec<String> = Vec::new();
    let note = handle_message(&mut state, "Compress complete! File: x.jpg", "/d", &mut outcome);
    assert_eq!(note, Some((1, 0)));
    assert_eq!(outcome, vec!["/d/x.jpg".to_string()]);
}

#[test]
fn finish_job_success_returns_outcome() {
    let outcome = vec!["/out/a.jpg".to_string(), "/out/b.jpg".to_string()];
    let r = finish_job(Ok(()), outcome.clone());
    match r {
        Ok(files) => assert_eq!(files, outcome),
        Err(_) => panic!("a successful pool must yield the outcome list"),
    }
}

#[test]
fn finish_job_pool_failure_returns_error() {
    let outcome = vec!["/out/a.jpg".to_string()];
    let r = finish_job(Err("worker died".to_string()), outcome);
    match r {
        Ok(_) => panic!("a failed pool must not yield a file list"),
        Err(JobError::PoolFailure(m)) => assert_eq!(m, "worker died"),
    }
}

#[test]
fn thread_count_is_capped_at_eight() {
    assert_eq!(effective_thread_count(1), 1);
    assert_eq!(effective_thread_count(4), 4);
    assert_eq!(effective_thread_count(8), 8);
    assert_eq!(effective_thread_count(64), 8);
}

#[test]
fn default_options() {
    let d = CompressionOptions::default();
    assert_eq!(d.quality, 80);
    assert_eq!(d.size_factor_permille, 800);
}

#[test]
fn reconcile_derives_source_path() {
    let r = derive_source_path("/out/sub/a.jpg", "/out", "/in");
    assert_eq!(r, Some("/in/sub/a.jpg".to_string()));
    let r = derive_source_path("/out", "/out", "/in");
    assert_eq!(r, Some("/in/".to_string()));
    let r = derive_source_path("/out2/a.jpg", "/out/", "/in");
    assert_eq!(r, None);
}

#[test]
fn reconcile_skips_paths_outside_destination() {
    assert_eq!(derive_source_path("/elsewhere/a.jpg", "/out", "/in"), None);
    assert_eq!(derive_source_path("/outlier/a.jpg", "/out", "/in"), None);
    assert_eq!(derive_source_path("", "/out", "/in"), None);
}
