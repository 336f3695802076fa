//! Job orchestration: the configuration a job is started with, the drain of
//! the worker pool's progress channel, and the job's terminal status.
//!
//! The worker pool itself runs on a background thread owned by the caller;
//! this module consumes its message stream until the channel closes and turns
//! the pool's join result into the job's outcome.

use vstd::prelude::*;
use crate::progress::{
    bump, file_message_rel, spec_parse_usize_or_zero, total_prefix, parse_progress_message,
    ProgressEvent, ProgressSink, ProgressState,
};
use crate::reconcile::{join_path, spec_join_path};
use crate::text::{has_prefix, str_to_chars};

verus! {

/// Encoder settings of a job, immutable once the job starts: the quality in
/// percent and the dimension scale in thousandths.
pub struct CompressionOptions {
    pub quality: u32,
    pub size_factor_permille: u32,
}

impl Default for CompressionOptions {
    /// Quality 80 percent, dimensions scaled to 0.800.
    fn default() -> (d: Self)
        ensures
            d.quality == 80,
            d.size_factor_permille == 800,
    {
        CompressionOptions { quality: 80, size_factor_permille: 800 }
    }
}

/// Why a job failed. I/O failures before dispatch (such as creating the
/// destination directory) abort the job synchronously at the caller and never
/// reach this type.
pub enum JobError {
    /// The worker pool reported an internal failure at join time; the payload
    /// is the pool's message.
    PoolFailure(String),
}

/// The worker count for a machine offering `parallelism` hardware threads:
/// that many, capped at eight to avoid oversubscription.
pub fn effective_thread_count(parallelism: usize) -> (t: u32)
    requires
        parallelism >= 1,
    ensures
        t as int == if parallelism < 8 {
            parallelism as int
        } else {
            8int
        },
        1 <= t <= 8,
{
    if parallelism < 8 {
        parallelism as u32
    } else {
        8
    }
}

/// The state after one raw message: a total-count message stores the parsed
/// total, a per-file message advances the completed count, anything else
/// changes nothing.
pub open spec fn msg_next_state(s: ProgressState, m: Seq<char>) -> ProgressState {
    if has_prefix(m, total_prefix()) {
        ProgressState {
            total_files: spec_parse_usize_or_zero(m.skip(total_prefix().len() as int)),
            completed_count: s.completed_count,
        }
    } else if file_message_rel(m) is Some {
        ProgressState { total_files: s.total_files, completed_count: bump(s.completed_count) }
    } else {
        s
    }
}

/// The observer notification one raw message triggers, if any.
pub open spec fn msg_note_of(s: ProgressState, m: Seq<char>) -> Option<(usize, usize)> {
    if has_prefix(m, total_prefix()) {
        Some((0usize, spec_parse_usize_or_zero(m.skip(total_prefix().len() as int))))
    } else if file_message_rel(m) is Some {
        Some((bump(s.completed_count), s.total_files))
    } else {
        None
    }
}

/// Consume one raw message of the pool: advance the progress state, append
/// the destination-joined path to the outcome for a per-file message (a
/// skipped file yields an entry exactly like a finished one), and return the
/// notification the observer should receive, if any.
pub fn handle_message(
    state: &mut ProgressState,
    msg: &str,
    dest_root: &str,
    outcome: &mut Vec<String>,
) -> (note: Option<(usize, usize)>)
    ensures
        *final(state) == msg_next_state(*old(state), msg@),
        note == msg_note_of(*old(state), msg@),
        match file_message_rel(msg@) {
            Some(rel) => {
                &&& final(outcome)@.len() == old(outcome)@.len() + 1
                &&& final(outcome)@.drop_last() == old(outcome)@
                &&& final(outcome)@.last()@ == spec_join_path(dest_root@, rel)
                &&& has_prefix(final(outcome)@.last()@, dest_root@)
            },
            None => final(outcome)@ == old(outcome)@,
        },
{
    let e = parse_progress_message(msg);
    let note = state.apply(&e);
    match &e {
        ProgressEvent::FileDone(p) => {
            let rel = str_to_chars(p.as_str());
            let joined = join_path(dest_root, &rel);
            outcome.push(joined);
            proof {
                assert(final(outcome)@.drop_last() =~= old(outcome)@);
            }
        },
        ProgressEvent::FileSkipped(p) => {
            let rel = str_to_chars(p.as_str());
            let joined = join_path(dest_root, &rel);
            outcome.push(joined);
            proof {
                assert(final(outcome)@.drop_last() =~= old(outcome)@);
            }
        },
        _ => {},
    }
    note
}

/// The progress state after a whole message stream, from the starting state.
pub open spec fn run_msgs_state(msgs: Seq<Seq<char>>) -> ProgressState
    decreases msgs.len(),
{
    if msgs.len() == 0 {
        crate::progress::initial_state()
    } else {
        msg_next_state(run_msgs_state(msgs.drop_last()), msgs.last())
    }
}

/// The outcome a whole message stream produces: for each per-file message, in
/// arrival order, its relative path joined under the destination root.
pub open spec fn run_msgs_outcome(dest_root: Seq<char>, msgs: Seq<Seq<char>>) -> Seq<Seq<char>>
    decreases msgs.len(),
{
    if msgs.len() == 0 {
        Seq::empty()
    } else {
        match file_message_rel(msgs.last()) {
            Some(rel) => run_msgs_outcome(dest_root, msgs.drop_last()).push(
                spec_join_path(dest_root, rel),
            ),
            None => run_msgs_outcome(dest_root, msgs.drop_last()),
        }
    }
}

/// Consume a message stream in arrival order: keep the running progress
/// state, notify the observer after each recognized message, and collect the
/// produced output paths. Every collected path lies under the destination
/// root. The live drain hands each message of the channel to
/// `handle_message` as it arrives; this function is that same consumption
/// over an already-gathered stream.
pub fn process_messages<S: ProgressSink>(
    msgs: &Vec<String>,
    dest_root: &str,
    sink: &mut S,
) -> (result: (ProgressState, Vec<String>))
    ensures
        result.0 == run_msgs_state(msgs.deep_view()),
        result.1.deep_view() == run_msgs_outcome(dest_root@, msgs.deep_view()),
        forall|k: int|
            0 <= k < result.1@.len() ==> has_prefix(#[trigger] result.1@[k]@, dest_root@),
{
    let mut state = ProgressState::new();
    let mut outcome: Vec<String> = Vec::new();
    let mut i: usize = 0;
    while i < msgs.len()
        invariant
            i <= msgs.len(),
            state == run_msgs_state(msgs.deep_view().take(i as int)),
            outcome.deep_view() == run_msgs_outcome(dest_root@, msgs.deep_view().take(i as int)),
            forall|k: int|
                0 <= k < outcome@.len() ==> has_prefix(#[trigger] outcome@[k]@, dest_root@),
        decreases msgs.len() - i,
    {
        proof {
            assert(msgs.deep_view().take(i + 1).drop_last() =~= msgs.deep_view().take(i as int));
            assert(msgs.deep_view().take(i + 1).last() == msgs@[i as int]@);
        }
        let ghost before = outcome@;
        let note = handle_message(&mut state, msgs[i].as_str(), dest_root, &mut outcome);
        proof {
            assert(forall|k: int| 0 <= k < before.len() ==> outcome@[k] == before[k]);
            assert(outcome.deep_view() =~= run_msgs_outcome(
                dest_root@,
                msgs.deep_view().take(i + 1),
            ));
            assert forall|k: int| 0 <= k < outcome@.len() implies has_prefix(
                #[trigger] outcome@[k]@,
                dest_root@,
            ) by {
                if k < before.len() {
                    assert(outcome@[k] == before[k]);
                } else {
                    assert(outcome@[k] == outcome@.last());
                }
            }
        }
        match note {
            Some((completed, total)) => {
                sink.notify(completed, total);
            },
            None => {},
        }
        i = i + 1;
    }
    proof {
        assert(msgs.deep_view().take(msgs.deep_view().len() as int) =~= msgs.deep_view());
    }
    (state, outcome)
}

/// A per-file message: one finished or one skipped file.
pub open spec fn is_file_message(m: Seq<char>) -> bool {
    file_message_rel(m) is Some
}

/// The message declaring the total file count.
pub open spec fn is_total_message(m: Seq<char>) -> bool {
    has_prefix(m, total_prefix())
}

/// The number of per-file messages in a stream.
pub open spec fn file_message_count(msgs: Seq<Seq<char>>) -> nat
    decreases msgs.len(),
{
    if msgs.len() == 0 {
        0
    } else {
        file_message_count(msgs.drop_last()) + if is_file_message(msgs.last()) {
            1nat
        } else {
            0nat
        }
    }
}

/// All observer notifications a message stream triggers, in order.
pub open spec fn run_msgs_notes(msgs: Seq<Seq<char>>) -> Seq<(usize, usize)>
    decreases msgs.len(),
{
    if msgs.len() == 0 {
        Seq::empty()
    } else {
        match msg_note_of(run_msgs_state(msgs.drop_last()), msgs.last()) {
            Some(p) => run_msgs_notes(msgs.drop_last()).push(p),
            None => run_msgs_notes(msgs.drop_last()),
        }
    }
}

/// A well-formed job stream: the total-count message arrives at most once,
/// and before every per-file message.
pub open spec fn msgs_protocol_ok(msgs: Seq<Seq<char>>) -> bool {
    &&& forall|i: int, j: int|
        #![trigger msgs[i], msgs[j]]
        0 <= i < j < msgs.len() ==> !(is_total_message(msgs[i]) && is_total_message(msgs[j]))
    &&& forall|i: int, j: int|
        #![trigger msgs[i], msgs[j]]
        0 <= i <= j < msgs.len() ==> !(is_file_message(msgs[i]) && is_total_message(msgs[j]))
}

/// Every per-file message yields exactly one outcome entry — a skipped file
/// as much as a finished one — and no other message yields any.
pub proof fn lemma_outcome_counts_file_messages(dest_root: Seq<char>, msgs: Seq<Seq<char>>)
    ensures
        run_msgs_outcome(dest_root, msgs).len() == file_message_count(msgs),
    decreases msgs.len(),
{
    if msgs.len() > 0 {
        lemma_outcome_counts_file_messages(dest_root, msgs.drop_last());
    }
}

proof fn lemma_msgs_no_file_count_zero(msgs: Seq<Seq<char>>)
    requires
        forall|i: int| 0 <= i < msgs.len() ==> !is_file_message(#[trigger] msgs[i]),
    ensures
        file_message_count(msgs) == 0,
    decreases msgs.len(),
{
    if msgs.len() > 0 {
        lemma_msgs_no_file_count_zero(msgs.drop_last());
    }
}

proof fn lemma_msgs_plain_notes_empty(msgs: Seq<Seq<char>>)
    requires
        forall|i: int|
            0 <= i < msgs.len() ==> !is_file_message(#[trigger] msgs[i]) && !is_total_message(
                msgs[i],
            ),
    ensures
        run_msgs_notes(msgs) == Seq::<(usize, usize)>::empty(),
    decreases msgs.len(),
{
    if msgs.len() > 0 {
        lemma_msgs_plain_notes_empty(msgs.drop_last());
    }
}

proof fn lemma_msgs_completed_tracks(msgs: Seq<Seq<char>>)
    requires
        file_message_count(msgs) <= usize::MAX,
    ensures
        run_msgs_state(msgs).completed_count == file_message_count(msgs),
    decreases msgs.len(),
{
    if msgs.len() > 0 {
        lemma_msgs_completed_tracks(msgs.drop_last());
    }
}

/// Over one well-formed message stream, the observer is notified with a
/// non-decreasing completed count, and the final notification's completed
/// count equals the number of per-file messages in the stream.
pub proof fn lemma_msgs_observer_monotone(msgs: Seq<Seq<char>>)
    requires
        msgs_protocol_ok(msgs),
        file_message_count(msgs) <= usize::MAX,
    ensures
        forall|i: int, j: int|
            0 <= i <= j < run_msgs_notes(msgs).len() ==> run_msgs_notes(msgs)[i].0
                <= run_msgs_notes(msgs)[j].0,
        run_msgs_notes(msgs).len() > 0 ==> run_msgs_notes(msgs).last().0 == file_message_count(
            msgs,
        ),
    decreases msgs.len(),
{
    if msgs.len() == 0 {
        return;
    }
    let pre = msgs.drop_last();
    let last = msgs.last();
    assert(forall|i: int| 0 <= i < pre.len() ==> pre[i] == msgs[i]);
    assert(msgs_protocol_ok(pre));
    lemma_msgs_observer_monotone(pre);
    let notes = run_msgs_notes(msgs);
    let pre_notes = run_msgs_notes(pre);
    if is_total_message(last) {
        assert forall|i: int| 0 <= i < pre.len() implies !is_file_message(#[trigger] pre[i])
            && !is_total_message(pre[i]) by {
            assert(pre[i] == msgs[i]);
            assert(!(is_file_message(msgs[i]) && is_total_message(msgs[msgs.len() - 1])));
            assert(!(is_total_message(msgs[i]) && is_total_message(msgs[msgs.len() - 1])));
        }
        lemma_msgs_plain_notes_empty(pre);
        lemma_msgs_no_file_count_zero(pre);
        assert(notes.len() == 1);
        assert(notes.last().0 == 0);
    } else if is_file_message(last) {
        lemma_msgs_completed_tracks(pre);
        let c = run_msgs_state(pre).completed_count;
        assert(notes == pre_notes.push((bump(c), run_msgs_state(pre).total_files)));
        assert forall|i: int, j: int| 0 <= i <= j < notes.len() implies notes[i].0
            <= notes[j].0 by {
            if j < notes.len() - 1 {
                assert(notes[i] == pre_notes[i] && notes[j] == pre_notes[j]);
            } else if i < notes.len() - 1 {
                assert(notes[i] == pre_notes[i]);
                assert(pre_notes[i].0 <= pre_notes.last().0);
            }
        }
    } else {
        assert(notes == pre_notes);
    }
}

/// The terminal status of a job, from the pool's join result: on success the
/// resolved outcome list, unchanged and in order; on failure an error
/// carrying the pool's message, and no partial list.
pub fn finish_job(pool_result: Result<(), String>, outcome: Vec<String>) -> (r: Result<
    Vec<String>,
    JobError,
>)
    ensures
        pool_result is Ok ==> (r matches Ok(o) && o == outcome),
        pool_result matches Err(m) ==> (r matches Err(e) && e matches JobError::PoolFailure(pm)
            && pm == m),
{
    match pool_result {
        Ok(()) => Ok(outcome),
        Err(m) => Err(JobError::PoolFailure(m)),
    }
}

} // verus!
