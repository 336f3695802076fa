//! The progress message protocol spoken by the worker pool, and the
//! aggregator state machine that turns the message stream into observer
//! notifications.
//!
//! The pool reports over a channel of tagged text messages: a job-start
//! message carrying the total file count, one message per finished file and
//! one per file skipped because a same-named output already existed. Any
//! other message is ignored.

use vstd::prelude::*;
use crate::text::{chars_from, chars_to_string, has_prefix, starts_with_chars, str_to_chars};

verus! {

/// The tag announcing the total number of files the pool will attempt.
pub open spec fn total_prefix() -> Seq<char> {
    "Total file count: "@
}

/// The tag announcing one finished file, followed by its relative path.
pub open spec fn done_prefix() -> Seq<char> {
    "Compress complete! File: "@
}

/// The tag announcing one skipped file (a same-named output already existed),
/// followed by its relative path.
pub open spec fn skipped_prefix() -> Seq<char> {
    "A file with the same name exists: "@
}

/// A decimal digit character.
pub open spec fn is_digit(c: char) -> bool {
    c == '0' || c == '1' || c == '2' || c == '3' || c == '4' || c == '5' || c == '6' || c == '7'
        || c == '8' || c == '9'
}

/// The numeric value of a decimal digit character (unspecified digits map to
/// nine; `decimal_val` is only applied under `all_digits`).
pub open spec fn digit_val(c: char) -> nat {
    if c == '0' {
        0
    } else if c == '1' {
        1
    } else if c == '2' {
        2
    } else if c == '3' {
        3
    } else if c == '4' {
        4
    } else if c == '5' {
        5
    } else if c == '6' {
        6
    } else if c == '7' {
        7
    } else if c == '8' {
        8
    } else {
        9
    }
}

/// Every character of `s` is a decimal digit.
pub open spec fn all_digits(s: Seq<char>) -> bool {
    forall|i: int| 0 <= i < s.len() ==> is_digit(#[trigger] s[i])
}

/// The value of `s` read as a decimal numeral.
pub open spec fn decimal_val(s: Seq<char>) -> nat
    decreases s.len(),
{
    if s.len() == 0 {
        0
    } else {
        decimal_val(s.drop_last()) * 10 + digit_val(s.last())
    }
}

/// The value of `s` as a `usize` numeral, or zero where `s` is empty, holds a
/// non-digit, or overflows `usize` (mirroring a failed parse falling back to
/// zero).
pub open spec fn spec_parse_usize_or_zero(s: Seq<char>) -> usize {
    if s.len() > 0 && all_digits(s) && decimal_val(s) <= usize::MAX {
        decimal_val(s) as usize
    } else {
        0
    }
}

/// Reading a numeral left to right never decreases its value.
proof fn lemma_decimal_val_take_le(s: Seq<char>, k: int)
    requires
        0 <= k <= s.len(),
    ensures
        decimal_val(s.take(k)) <= decimal_val(s),
    decreases s.len(),
{
    if k == s.len() {
        assert(s.take(k) =~= s);
    } else {
        assert(s.drop_last().take(k) =~= s.take(k));
        lemma_decimal_val_take_le(s.drop_last(), k);
        assert(decimal_val(s) == decimal_val(s.drop_last()) * 10 + digit_val(s.last()));
        assert(decimal_val(s.drop_last()) * 10 >= decimal_val(s.drop_last()));
    }
}

fn digit_of(c: char) -> (r: Option<u8>)
    ensures
        r is Some <==> is_digit(c),
        r matches Some(d) ==> d as nat == digit_val(c) && d < 10,
{
    match c {
        '0' => Some(0),
        '1' => Some(1),
        '2' => Some(2),
        '3' => Some(3),
        '4' => Some(4),
        '5' => Some(5),
        '6' => Some(6),
        '7' => Some(7),
        '8' => Some(8),
        '9' => Some(9),
        _ => None,
    }
}

/// The decimal value of the characters, or zero where they are empty, hold a
/// non-digit, or overflow `usize`.
pub fn parse_usize_or_zero(v: &Vec<char>) -> (n: usize)
    ensures
        n == spec_parse_usize_or_zero(v@),
{
    if v.len() == 0 {
        return 0;
    }
    let mut n: usize = 0;
    let mut i: usize = 0;
    while i < v.len()
        invariant
            i <= v.len(),
            v@.len() > 0,
            forall|j: int| 0 <= j < i ==> is_digit(#[trigger] v@[j]),
            n == decimal_val(v@.take(i as int)),
        decreases v.len() - i,
    {
        proof {
            assert(v@.take(i + 1).drop_last() =~= v@.take(i as int));
        }
        match digit_of(v[i]) {
            None => {
                proof {
                    assert(!is_digit(v@[i as int]));
                    assert(!all_digits(v@));
                }
                return 0;
            },
            Some(d) => {
                if n > (usize::MAX - d as usize) / 10 {
                    proof {
                        let m = (usize::MAX - d) as int;
                        assert(10 * (m / 10) + m % 10 == m);
                        assert(10 * (n as int) + d > usize::MAX);
                        assert(decimal_val(v@.take(i + 1)) > usize::MAX);
                        lemma_decimal_val_take_le(v@, i + 1);
                    }
                    return 0;
                }
                proof {
                    let m = (usize::MAX - d) as int;
                    assert(10 * (m / 10) + m % 10 == m);
                    assert(10 * (n as int) + d <= usize::MAX);
                }
                n = n * 10 + d as usize;
            },
        }
        i = i + 1;
    }
    proof {
        assert(v@.take(v@.len() as int) =~= v@);
    }
    n
}

/// A typed progress event, decoded from one message of the pool.
pub enum ProgressEvent {
    /// The pool declared how many files it will attempt.
    TotalCount(usize),
    /// One file finished encoding; the payload is its relative path.
    FileDone(String),
    /// A same-named output already existed; the payload is its relative path.
    FileSkipped(String),
    /// An unrecognized message, ignored.
    Other,
}

/// How a message decodes: the first matching tag decides the event, and the
/// rest of the message is the payload; untagged messages decode to `Other`.
pub open spec fn parse_matches(s: Seq<char>, e: ProgressEvent) -> bool {
    if has_prefix(s, total_prefix()) {
        e matches ProgressEvent::TotalCount(n) && n == spec_parse_usize_or_zero(
            s.skip(total_prefix().len() as int),
        )
    } else if has_prefix(s, done_prefix()) {
        e matches ProgressEvent::FileDone(p) && p@ == s.skip(done_prefix().len() as int)
    } else if has_prefix(s, skipped_prefix()) {
        e matches ProgressEvent::FileSkipped(p) && p@ == s.skip(skipped_prefix().len() as int)
    } else {
        e is Other
    }
}

/// The relative path carried by a per-file message (finished or skipped), and
/// nothing for any other message.
pub open spec fn file_message_rel(s: Seq<char>) -> Option<Seq<char>> {
    if has_prefix(s, total_prefix()) {
        None
    } else if has_prefix(s, done_prefix()) {
        Some(s.skip(done_prefix().len() as int))
    } else if has_prefix(s, skipped_prefix()) {
        Some(s.skip(skipped_prefix().len() as int))
    } else {
        None
    }
}

/// Decode one message of the pool into a typed progress event.
pub fn parse_progress_message(msg: &str) -> (e: ProgressEvent)
    ensures
        parse_matches(msg@, e),
{
    let chars = str_to_chars(msg);
    let total_p = str_to_chars("Total file count: ");
    if starts_with_chars(&chars, &total_p) {
        let digits = chars_from(&chars, total_p.len());
        return ProgressEvent::TotalCount(parse_usize_or_zero(&digits));
    }
    let done_p = str_to_chars("Compress complete! File: ");
    if starts_with_chars(&chars, &done_p) {
        let rel = chars_from(&chars, done_p.len());
        return ProgressEvent::FileDone(chars_to_string(&rel));
    }
    let skipped_p = str_to_chars("A file with the same name exists: ");
    if starts_with_chars(&chars, &skipped_p) {
        let rel = chars_from(&chars, skipped_p.len());
        return ProgressEvent::FileSkipped(chars_to_string(&rel));
    }
    ProgressEvent::Other
}

/// A per-file event: one finished or one skipped file.
pub open spec fn is_file_event(e: ProgressEvent) -> bool {
    e is FileDone || e is FileSkipped
}

/// A count incremented by one, held at `usize::MAX` once reached.
pub open spec fn bump(c: usize) -> usize {
    if c < usize::MAX {
        (c + 1) as usize
    } else {
        c
    }
}

/// The running progress of one job: the declared total and the number of
/// per-file events seen so far.
pub struct ProgressState {
    pub total_files: usize,
    pub completed_count: usize,
}

/// The state every job starts from: no total declared, nothing completed.
pub open spec fn initial_state() -> ProgressState {
    ProgressState { total_files: 0, completed_count: 0 }
}

/// The state after one event: a total-count event stores the total, a
/// per-file event advances the completed count, anything else changes
/// nothing.
pub open spec fn next_state(s: ProgressState, e: ProgressEvent) -> ProgressState {
    match e {
        ProgressEvent::TotalCount(n) => ProgressState {
            total_files: n,
            completed_count: s.completed_count,
        },
        ProgressEvent::FileDone(_) => ProgressState {
            total_files: s.total_files,
            completed_count: bump(s.completed_count),
        },
        ProgressEvent::FileSkipped(_) => ProgressState {
            total_files: s.total_files,
            completed_count: bump(s.completed_count),
        },
        ProgressEvent::Other => s,
    }
}

/// The observer notification an event triggers: `(0, total)` when the total
/// arrives (so a display can initialize its range), `(completed, total)`
/// after each per-file event, and none otherwise.
pub open spec fn note_of(s: ProgressState, e: ProgressEvent) -> Option<(usize, usize)> {
    match e {
        ProgressEvent::TotalCount(n) => Some((0usize, n)),
        ProgressEvent::FileDone(_) => Some((bump(s.completed_count), s.total_files)),
        ProgressEvent::FileSkipped(_) => Some((bump(s.completed_count), s.total_files)),
        ProgressEvent::Other => None,
    }
}

impl ProgressState {
    /// The starting state of a job.
    pub fn new() -> (s: Self)
        ensures
            s == initial_state(),
    {
        ProgressState { total_files: 0, completed_count: 0 }
    }

    /// Advance the state by one event and return the notification, if any,
    /// that the observer should receive for it.
    pub fn apply(&mut self, e: &ProgressEvent) -> (note: Option<(usize, usize)>)
        ensures
            *final(self) == next_state(*old(self), *e),
            note == note_of(*old(self), *e),
    {
        match e {
            ProgressEvent::TotalCount(n) => {
                self.total_files = *n;
                Some((0, *n))
            },
            ProgressEvent::FileDone(_) => {
                if self.completed_count < usize::MAX {
                    self.completed_count = self.completed_count + 1;
                }
                Some((self.completed_count, self.total_files))
            },
            ProgressEvent::FileSkipped(_) => {
                if self.completed_count < usize::MAX {
                    self.completed_count = self.completed_count + 1;
                }
                Some((self.completed_count, self.total_files))
            },
            ProgressEvent::Other => None,
        }
    }
}

/// An observer of job progress: told `(completed, total)` as the job
/// advances. Implementations render a bar, log, or record for inspection.
pub trait ProgressSink {
    fn notify(&mut self, completed: usize, total: usize);
}

/// An observer that records every notification, in order.
pub struct RecordingSink {
    pub notes: Vec<(usize, usize)>,
}

impl RecordingSink {
    /// A recorder that has seen nothing yet.
    pub fn new() -> (s: Self)
        ensures
            s.notes@ == Seq::<(usize, usize)>::empty(),
    {
        RecordingSink { notes: Vec::new() }
    }
}

impl ProgressSink for RecordingSink {
    fn notify(&mut self, completed: usize, total: usize) {
        self.notes.push((completed, total));
    }
}

/// The state after a whole sequence of events, from the starting state.
pub open spec fn run_state(events: Seq<ProgressEvent>) -> ProgressState
    decreases events.len(),
{
    if events.len() == 0 {
        initial_state()
    } else {
        next_state(run_state(events.drop_last()), events.last())
    }
}

/// All observer notifications a sequence of events triggers, in order.
pub open spec fn run_notes(events: Seq<ProgressEvent>) -> Seq<(usize, usize)>
    decreases events.len(),
{
    if events.len() == 0 {
        Seq::empty()
    } else {
        match note_of(run_state(events.drop_last()), events.last()) {
            Some(p) => run_notes(events.drop_last()).push(p),
            None => run_notes(events.drop_last()),
        }
    }
}

/// The number of per-file events in a sequence.
pub open spec fn file_event_count(events: Seq<ProgressEvent>) -> nat
    decreases events.len(),
{
    if events.len() == 0 {
        0
    } else {
        file_event_count(events.drop_last()) + if is_file_event(events.last()) {
            1nat
        } else {
            0nat
        }
    }
}

/// A well-formed job stream: the total-count event arrives at most once, and
/// before every per-file event.
pub open spec fn protocol_ok(events: Seq<ProgressEvent>) -> bool {
    &&& forall|i: int, j: int|
        #![trigger events[i], events[j]]
        0 <= i < j < events.len() ==> !(events[i] is TotalCount && events[j] is TotalCount)
    &&& forall|i: int, j: int|
        #![trigger events[i], events[j]]
        0 <= i <= j < events.len() ==> !(is_file_event(events[i]) && events[j] is TotalCount)
}

proof fn lemma_no_file_count_zero(events: Seq<ProgressEvent>)
    requires
        forall|i: int| 0 <= i < events.len() ==> !is_file_event(#[trigger] events[i]),
    ensures
        file_event_count(events) == 0,
    decreases events.len(),
{
    if events.len() > 0 {
        lemma_no_file_count_zero(events.drop_last());
    }
}

proof fn lemma_only_other_notes_empty(events: Seq<ProgressEvent>)
    requires
        forall|i: int| 0 <= i < events.len() ==> (#[trigger] events[i]) is Other,
    ensures
        run_notes(events) == Seq::<(usize, usize)>::empty(),
    decreases events.len(),
{
    if events.len() > 0 {
        lemma_only_other_notes_empty(events.drop_last());
    }
}

/// The completed count of the state tracks the number of per-file events.
proof fn lemma_completed_tracks(events: Seq<ProgressEvent>)
    requires
        file_event_count(events) <= usize::MAX,
    ensures
        run_state(events).completed_count == file_event_count(events),
    decreases events.len(),
{
    if events.len() > 0 {
        lemma_completed_tracks(events.drop_last());
    }
}

/// Over one well-formed job stream, the observer is notified with a
/// non-decreasing completed count, and the final notification's completed
/// count equals the number of per-file events in the stream.
pub proof fn lemma_observer_monotone(events: Seq<ProgressEvent>)
    requires
        protocol_ok(events),
        file_event_count(events) <= usize::MAX,
    ensures
        forall|i: int, j: int|
            0 <= i <= j < run_notes(events).len() ==> run_notes(events)[i].0 <= run_notes(
                events,
            )[j].0,
        run_notes(events).len() > 0 ==> run_notes(events).last().0 == file_event_count(events),
    decreases events.len(),
{
    if events.len() == 0 {
        return;
    }
    let pre = events.drop_last();
    let last = events.last();
    assert(forall|i: int| 0 <= i < pre.len() ==> pre[i] == events[i]);
    assert(protocol_ok(pre));
    assert(file_event_count(events) == file_event_count(pre) + if is_file_event(last) {
        1nat
    } else {
        0nat
    });
    lemma_observer_monotone(pre);
    let notes = run_notes(events);
    let pre_notes = run_notes(pre);
    match last {
        ProgressEvent::TotalCount(n) => {
            assert forall|i: int| 0 <= i < pre.len() implies (#[trigger] pre[i]) is Other by {
                assert(pre[i] == events[i]);
                assert(!(is_file_event(events[i]) && events[events.len() - 1] is TotalCount));
                assert(!(events[i] is TotalCount && events[events.len() - 1] is TotalCount));
            }
            lemma_only_other_notes_empty(pre);
            lemma_no_file_count_zero(pre);
            assert(notes =~= seq![(0usize, n)]);
            assert(notes.last().0 == 0);
        },
        ProgressEvent::Other => {
            assert(notes == pre_notes);
        },
        _ => {
            lemma_completed_tracks(pre);
            let c = run_state(pre).completed_count;
            assert(c == file_event_count(pre));
            assert(bump(c) == file_event_count(events));
            assert(notes == pre_notes.push((bump(c), run_state(pre).total_files)));
            assert forall|i: int, j: int| 0 <= i <= j < notes.len() implies notes[i].0
                <= notes[j].0 by {
                if j < notes.len() - 1 {
                    assert(notes[i] == pre_notes[i] && notes[j] == pre_notes[j]);
                } else if i < notes.len() - 1 {
                    assert(notes[i] == pre_notes[i]);
                    assert(pre_notes[i].0 <= pre_notes.last().0);
                    assert(pre_notes.last().0 == file_event_count(pre));
                }
            }
        },
    }
}

} // verus!
