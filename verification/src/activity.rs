//! What a session is doing, for display: its log, what is being worked on, and
//! how far it has come.

use std::collections::VecDeque;
use vstd::prelude::*;
use crate::progress::consistent;
use crate::progress::enumerated;
use crate::progress::job_finished;
use crate::progress::no_progress;
use crate::progress::queueing;
use crate::progress::queueing_finished;
use crate::progress::registered;
use crate::progress::updated;
use crate::progress::waiting;
use crate::progress::OverallProgress;
use crate::progress::ProgressPhase;
use crate::progress::WHOLE;
use crate::text::clone_opt_text;
use crate::text::opt_text;
use crate::text::text_eq;
use crate::types::ProgressPayload;

verus! {

// The log --------------------------------------------------------------------

/// A line of the log: what a file has come to.
#[derive(Debug)]
pub struct ConvLogEntry {
    pub seq: u64,
    pub ts_ms: u64,
    pub file_name: String,
    /// `processing`, `done`, `error`, `skipped` or `cancelled`.
    pub status: String,
    pub error: Option<String>,
}

/// What a line of the log holds.
pub struct EntryView {
    pub seq: u64,
    pub ts_ms: u64,
    pub file_name: Seq<char>,
    pub status: Seq<char>,
    pub error: Option<Seq<char>>,
}

impl View for ConvLogEntry {
    type V = EntryView;

    open spec fn view(&self) -> EntryView {
        EntryView {
            seq: self.seq,
            ts_ms: self.ts_ms,
            file_name: self.file_name@,
            status: self.status@,
            error: opt_text(self.error),
        }
    }
}

impl Clone for ConvLogEntry {
    fn clone(&self) -> (r: Self)
        ensures
            r@ == self@,
    {
        ConvLogEntry {
            seq: self.seq,
            ts_ms: self.ts_ms,
            file_name: self.file_name.clone(),
            status: self.status.clone(),
            error: clone_opt_text(&self.error),
        }
    }
}

/// What the lines of a log hold.
pub open spec fn log_view(log: Seq<ConvLogEntry>) -> Seq<EntryView> {
    Seq::new(log.len(), |i: int| log[i]@)
}

/// A status that does not change any more.
pub open spec fn is_final_status(status: Seq<char>) -> bool {
    status == "done"@ || status == "error"@ || status == "skipped"@ || status == "cancelled"@
}

/// The log says what a file has come to in the end.
pub open spec fn is_settled(log: Seq<EntryView>, file_name: Seq<char>) -> bool {
    exists|i: int|
        0 <= i < log.len() && is_final_status((#[trigger] log[i]).status) && log[i].file_name
            == file_name
}

/// A line once a session is being stopped: cancelled where it says that a file is
/// being worked on of which nothing else is said.
pub open spec fn cancelled_entry(log: Seq<EntryView>, entry: EntryView) -> EntryView {
    if entry.status == "processing"@ && !is_settled(log, entry.file_name) {
        EntryView { status: "cancelled"@, ..entry }
    } else {
        entry
    }
}

/// The log once a session is being stopped.
pub open spec fn cancelled_log(log: Seq<EntryView>) -> Seq<EntryView> {
    Seq::new(log.len(), |i: int| cancelled_entry(log, log[i]))
}

/// The names of the files of which the log says what they have come to.
fn settled_names(log: &VecDeque<ConvLogEntry>) -> (r: Vec<String>)
    ensures
        forall|name: Seq<char>| #[trigger]
            is_settled(log_view(log@), name) <==> exists|k: int|
                0 <= k < r@.len() && (#[trigger] r@[k])@ == name,
{
    let ghost all = log_view(log@);
    let mut names: Vec<String> = Vec::new();
    let mut i: usize = 0;
    while i < log.len()
        invariant
            i <= log@.len(),
            all == log_view(log@),
            forall|k: int|
                0 <= k < names@.len() ==> is_settled(all, (#[trigger] names@[k])@),
            forall|j: int|
                0 <= j < i && is_final_status((#[trigger] all[j]).status) ==> exists|k: int|
                    0 <= k < names@.len() && (#[trigger] names@[k])@ == all[j].file_name,
        decreases log@.len() - i,
    {
        assert(all[i as int] == log@[i as int]@);
        let status: &str = log[i].status.as_str();
        let ghost before = names@;
        if text_eq(status, "done") || text_eq(status, "error") || text_eq(status, "skipped")
            || text_eq(status, "cancelled") {
            names.push(log[i].file_name.clone());
            assert(names@[before.len() as int]@ == all[i as int].file_name);
        }
        proof {
            assert forall|j: int|
                0 <= j < i + 1 && is_final_status((#[trigger] all[j]).status) implies exists|k: int|
                0 <= k < names@.len() && (#[trigger] names@[k])@ == all[j].file_name by {
                if j < i {
                    let k = choose|k: int|
                        0 <= k < before.len() && (#[trigger] before[k])@ == all[j].file_name;
                    assert(names@[k]@ == all[j].file_name);
                } else {
                    assert(names@[before.len() as int]@ == all[j].file_name);
                }
            }
        }
        i = i + 1;
    }
    proof {
        assert forall|name: Seq<char>| #[trigger] is_settled(all, name) implies exists|k: int|
            0 <= k < names@.len() && (#[trigger] names@[k])@ == name by {
            let j = choose|j: int|
                0 <= j < all.len() && is_final_status((#[trigger] all[j]).status)
                    && all[j].file_name == name;
            assert(is_final_status(all[j].status));
        }
    }
    names
}

/// Marks in the log that a session is being stopped: what a file has come to in
/// the end stays, and only what is still being worked on is cancelled.
pub fn mark_unfinished_logs_cancelled(log: &mut VecDeque<ConvLogEntry>)
    ensures
        log_view(final(log)@) == cancelled_log(log_view(old(log)@)),
{
    let ghost all = log_view(log@);
    let names: Vec<String> = settled_names(log);
    let count: usize = log.len();
    let mut n: usize = 0;
    assert(log_view(log@) =~= all.skip(0) + cancelled_log(all).take(0));
    while n < count
        invariant
            n <= count == all.len(),
            log@.len() == count,
            log_view(log@) == all.skip(n as int) + cancelled_log(all).take(n as int),
            forall|name: Seq<char>| #[trigger]
                is_settled(all, name) <==> exists|k: int|
                    0 <= k < names@.len() && (#[trigger] names@[k])@ == name,
        decreases count - n,
    {
        let ghost before = log_view(log@);
        assert(before[0] == all[n as int]);
        match log.pop_front() {
            Some(entry) => {
                let mut entry = entry;
                assert(entry@ == all[n as int]);
                let mut settled: bool = false;
                let mut k: usize = 0;
                while k < names.len() && !settled
                    invariant
                        k <= names@.len(),
                        settled ==> exists|j: int|
                            0 <= j < names@.len() && (#[trigger] names@[j])@ == entry.file_name@,
                        !settled ==> forall|j: int|
                            0 <= j < k ==> (#[trigger] names@[j])@ != entry.file_name@,
                    decreases names@.len() - k + if settled { 0int } else { 1int },
                {
                    if names[k] == entry.file_name {
                        settled = true;
                    } else {
                        k = k + 1;
                    }
                }
                assert(settled == is_settled(all, entry.file_name@));
                if text_eq(entry.status.as_str(), "processing") && !settled {
                    entry.status = "cancelled".to_owned();
                }
                assert(entry@ == cancelled_entry(all, all[n as int]));
                log.push_back(entry);
                assert(log_view(log@) =~= before.skip(1).push(
                    cancelled_entry(all, all[n as int]),
                ));
            },
            None => {},
        }
        n = n + 1;
        assert(log_view(log@) =~= all.skip(n as int) + cancelled_log(all).take(n as int));
    }
    assert(all.skip(count as int) + cancelled_log(all).take(count as int) =~= cancelled_log(all));
}

/// A line of a file of which the log says what it has come to stays as it was.
pub proof fn cancelling_keeps_settled_files(log: Seq<EntryView>, i: int)
    requires
        0 <= i < log.len(),
        is_settled(log, log[i].file_name) || log[i].status != "processing"@,
    ensures
        cancelled_log(log)[i] == log[i],
{
}

/// Once a session is stopped, no line says that a file is being worked on of
/// which nothing else is said.
pub proof fn cancelling_leaves_no_file_open(log: Seq<EntryView>, i: int)
    requires
        0 <= i < log.len(),
    ensures
        is_settled(cancelled_log(log), log[i].file_name) || log[i].status != "processing"@,
{
    let after = cancelled_log(log);
    if log[i].status == "processing"@ {
        if is_settled(log, log[i].file_name) {
            let j = choose|j: int|
                0 <= j < log.len() && is_final_status((#[trigger] log[j]).status)
                    && log[j].file_name == log[i].file_name;
            assert(after[j].file_name == log[i].file_name);
            assert(is_final_status(after[j].status));
        } else {
            assert(after[i].status == "cancelled"@);
            assert(after[i].file_name == log[i].file_name);
        }
    }
}

/// How many lines the log keeps.
pub const LOG_CAPACITY: usize = 10_000;

/// The log of the program, and how the files of a session have come out.
#[derive(Debug)]
pub struct ConversionLog {
    pub entries: VecDeque<ConvLogEntry>,
    /// The number of the last line.
    pub sequence: u64,
    /// How often lines that were shown have changed.
    pub revision: u64,
    pub successful: usize,
    pub failed: usize,
    pub skipped: usize,
}

/// The lines are numbered upwards, and none more than are kept.
pub open spec fn log_ok(log: ConversionLog) -> bool {
    &&& log.entries@.len() <= LOG_CAPACITY
    &&& forall|i: int, j: int|
        0 <= i < j < log.entries@.len() ==> (#[trigger] log.entries@[i]).seq < (
        #[trigger] log.entries@[j]).seq
    &&& forall|i: int| 0 <= i < log.entries@.len() ==> (#[trigger] log.entries@[i]).seq <= log.sequence
}

/// The log with one more line; the oldest goes where there are too many.
pub open spec fn with_line(log: Seq<EntryView>, entry: EntryView) -> Seq<EntryView> {
    if log.len() >= LOG_CAPACITY {
        log.skip(1).push(entry)
    } else {
        log.push(entry)
    }
}

impl ConversionLog {
    pub fn new() -> (r: Self)
        ensures
            log_ok(r),
            r.entries@.len() == 0,
            r.sequence == 0,
            r.revision == 0,
            r.successful == 0,
            r.failed == 0,
            r.skipped == 0,
    {
        ConversionLog {
            entries: VecDeque::new(),
            sequence: 0,
            revision: 0,
            successful: 0,
            failed: 0,
            skipped: 0,
        }
    }

    /// A session starts: its files are counted anew, and the lines stay.
    pub fn begin_session(&mut self)
        requires
            log_ok(*old(self)),
        ensures
            log_ok(*final(self)),
            final(self).entries == old(self).entries,
            final(self).sequence == old(self).sequence,
            final(self).revision == old(self).revision,
            final(self).successful == 0,
            final(self).failed == 0,
            final(self).skipped == 0,
    {
        self.successful = 0;
        self.failed = 0;
        self.skipped = 0;
    }

    /// Adds a line, and counts how a file has come out.
    pub fn push(&mut self, ts_ms: u64, file_name: String, status: &str, error: Option<String>)
        requires
            log_ok(*old(self)),
            old(self).sequence < u64::MAX,
        ensures
            log_ok(*final(self)),
            final(self).sequence == old(self).sequence + 1,
            final(self).revision == old(self).revision,
            log_view(final(self).entries@) == with_line(
                log_view(old(self).entries@),
                EntryView {
                    seq: (old(self).sequence + 1) as u64,
                    ts_ms,
                    file_name: file_name@,
                    status: status@,
                    error: opt_text(error),
                },
            ),
            (final(self).successful, final(self).failed, final(self).skipped) == counted(
                (old(self).successful, old(self).failed, old(self).skipped),
                status@,
            ),
    {
        if text_eq(status, "done") {
            self.successful = self.successful.wrapping_add(1);
        }
        if text_eq(status, "error") {
            self.failed = self.failed.wrapping_add(1);
        }
        if text_eq(status, "skipped") {
            self.skipped = self.skipped.wrapping_add(1);
        }
        let ghost before = log_view(self.entries@);
        if self.entries.len() >= LOG_CAPACITY {
            self.entries.pop_front();
            assert(log_view(self.entries@) =~= before.skip(1));
        }
        self.sequence = self.sequence + 1;
        let entry = ConvLogEntry {
            seq: self.sequence,
            ts_ms,
            file_name,
            status: status.to_owned(),
            error,
        };
        let ghost kept = log_view(self.entries@);
        let ghost line = entry@;
        self.entries.push_back(entry);
        assert(log_view(self.entries@) =~= kept.push(line));
    }

    /// Marks that a session is being stopped, so that all lines are shown anew.
    pub fn cancel(&mut self)
        requires
            log_ok(*old(self)),
        ensures
            log_ok(*final(self)),
            log_view(final(self).entries@) == cancelled_log(log_view(old(self).entries@)),
            final(self).revision == old(self).revision.wrapping_add(1),
            final(self).sequence == old(self).sequence,
            final(self).successful == old(self).successful,
            final(self).failed == old(self).failed,
            final(self).skipped == old(self).skipped,
    {
        mark_unfinished_logs_cancelled(&mut self.entries);
        proof {
            let before = log_view(old(self).entries@);
            let after = log_view(self.entries@);
            assert(after.len() == before.len());
            assert forall|i: int| 0 <= i < self.entries@.len() implies (
            #[trigger] self.entries@[i]).seq == old(self).entries@[i].seq by {
                assert(after[i] == self.entries@[i]@);
                assert(before[i] == old(self).entries@[i]@);
            }
        }
        self.revision = self.revision.wrapping_add(1);
    }

    /// Empties the log, so that nothing is shown.
    pub fn clear(&mut self)
        ensures
            log_ok(*final(self)),
            final(self).entries@.len() == 0,
            final(self).revision == old(self).revision.wrapping_add(1),
            final(self).sequence == old(self).sequence,
            final(self).successful == old(self).successful,
            final(self).failed == old(self).failed,
            final(self).skipped == old(self).skipped,
    {
        self.entries.clear();
        self.revision = self.revision.wrapping_add(1);
    }

    /// Whether all lines are to be shown anew, to one who has seen the changes up
    /// to a revision.
    pub fn must_reset(&self, known_revision: Option<u64>) -> (r: bool)
        ensures
            r == (known_revision != Some(self.revision)),
    {
        match known_revision {
            Some(known) => known != self.revision,
            None => true,
        }
    }

    /// The lines for one who has seen those up to a number, and the changes up to
    /// a revision: what is new, or all where something has changed.
    pub fn lines_after(&self, after_seq: Option<u64>, known_revision: Option<u64>) -> (r: Vec<
        ConvLogEntry,
    >)
        ensures
            log_view(r@) == shown(
                log_view(self.entries@),
                known_revision != Some(self.revision),
                match after_seq {
                    Some(seq) => seq,
                    None => 0,
                },
            ),
    {
        let all: bool = self.must_reset(known_revision);
        let from: u64 = match after_seq {
            Some(seq) => seq,
            None => 0,
        };
        let ghost log = log_view(self.entries@);
        let mut r: Vec<ConvLogEntry> = Vec::new();
        let mut i: usize = 0;
        assert(log.take(0) =~= seq![]);
        assert(log_view(r@) =~= seq![]);
        while i < self.entries.len()
            invariant
                i <= self.entries@.len(),
                log == log_view(self.entries@),
                log_view(r@) == shown(log.take(i as int), all, from),
            decreases self.entries@.len() - i,
        {
            assert(log.take(i + 1).drop_last() =~= log.take(i as int));
            assert(log.take(i + 1).last() == self.entries@[i as int]@);
            let ghost before = log_view(r@);
            if all || self.entries[i].seq > from {
                r.push(self.entries[i].clone());
                assert(log_view(r@) =~= before.push(self.entries@[i as int]@));
            }
            i = i + 1;
        }
        assert(log.take(i as int) =~= log);
        r
    }
}

/// The lines behind a number, or all.
pub open spec fn shown(log: Seq<EntryView>, all: bool, after_seq: u64) -> Seq<EntryView>
    decreases log.len(),
{
    if log.len() == 0 {
        seq![]
    } else if all || log.last().seq > after_seq {
        shown(log.drop_last(), all, after_seq).push(log.last())
    } else {
        shown(log.drop_last(), all, after_seq)
    }
}

/// One who has seen the lines up to a number misses none of those behind it.
pub proof fn no_new_line_is_missed(log: Seq<EntryView>, all: bool, after_seq: u64, i: int)
    requires
        0 <= i < log.len(),
        log[i].seq > after_seq,
    ensures
        shown(log, all, after_seq).contains(log[i]),
    decreases log.len(),
{
    let rest = shown(log.drop_last(), all, after_seq);
    if i < log.len() - 1 {
        no_new_line_is_missed(log.drop_last(), all, after_seq, i);
        let k = choose|k: int| 0 <= k < rest.len() && rest[k] == log[i];
        assert(shown(log, all, after_seq)[k] == log[i]);
    } else {
        assert(shown(log, all, after_seq)[rest.len() as int] == log[i]);
    }
}

// What is being worked on ----------------------------------------------------

/// The files that are being worked on, with how far each has come, and the
/// artifacts, which unlike files never share a name.
#[derive(Debug)]
pub struct ActiveWork {
    pub files: Vec<(String, u64)>,
    pub artifacts: Vec<usize>,
}

/// What a list of files with ratios holds.
pub open spec fn files_view(list: Seq<(String, u64)>) -> Seq<(Seq<char>, u64)> {
    Seq::new(list.len(), |i: int| (list[i].0@, list[i].1))
}

/// The first place at or after `from` of a file; the end where there is none.
pub open spec fn file_place(files: Seq<(Seq<char>, u64)>, name: Seq<char>, from: int) -> int
    decreases files.len() - from,
{
    if from < 0 || from >= files.len() {
        files.len() as int
    } else if files[from].0 == name {
        from
    } else {
        file_place(files, name, from + 1)
    }
}

/// The files with one at a ratio.
pub open spec fn with_active(files: Seq<(Seq<char>, u64)>, name: Seq<char>, ratio: u64) -> Seq<
    (Seq<char>, u64),
> {
    let i = file_place(files, name, 0);
    if i < files.len() {
        files.update(i, (name, ratio))
    } else {
        files.push((name, ratio))
    }
}

/// The files without one.
pub open spec fn without_active(files: Seq<(Seq<char>, u64)>, name: Seq<char>) -> Seq<
    (Seq<char>, u64),
> {
    let i = file_place(files, name, 0);
    if i < files.len() {
        files.remove(i)
    } else {
        files
    }
}

/// The artifacts with one more.
pub open spec fn with_artifact(artifacts: Seq<usize>, index: usize) -> Seq<usize> {
    if artifacts.contains(index) {
        artifacts
    } else {
        artifacts.push(index)
    }
}

/// The artifacts without one.
pub open spec fn without_artifact(artifacts: Seq<usize>, index: usize) -> Seq<usize> {
    match artifacts.index_of_first(index) {
        Some(i) => artifacts.remove(i),
        None => artifacts,
    }
}

impl ActiveWork {
    pub fn new() -> (r: Self)
        ensures
            r.files@.len() == 0,
            r.artifacts@.len() == 0,
    {
        ActiveWork { files: Vec::new(), artifacts: Vec::new() }
    }

    fn place_of(&self, name: &str) -> (r: usize)
        ensures
            r == file_place(files_view(self.files@), name@, 0),
            r <= self.files@.len(),
    {
        let ghost all = files_view(self.files@);
        let mut i: usize = 0;
        while i < self.files.len() && !text_eq(self.files[i].0.as_str(), name)
            invariant
                i <= self.files@.len(),
                all == files_view(self.files@),
                file_place(all, name@, 0) == file_place(all, name@, i as int),
            decreases self.files@.len() - i,
        {
            assert(all[i as int].0 == self.files@[i as int].0@);
            i = i + 1;
        }
        if i < self.files.len() {
            assert(all[i as int].0 == name@);
        }
        i
    }

    fn artifact_place(&self, index: usize) -> (r: Option<usize>)
        ensures
            match r {
                Some(i) => self.artifacts@.index_of_first(index) == Some(i as int) && i
                    < self.artifacts@.len() && self.artifacts@.contains(index),
                None => self.artifacts@.index_of_first(index) is None && !self.artifacts@.contains(
                    index,
                ),
            },
    {
        let mut i: usize = 0;
        while i < self.artifacts.len()
            invariant
                i <= self.artifacts@.len(),
                forall|k: int| 0 <= k < i ==> self.artifacts@[k] != index,
            decreases self.artifacts@.len() - i,
        {
            if self.artifacts[i] == index {
                proof {
                    assert(self.artifacts@.contains(index));
                    self.artifacts@.index_of_first_ensures(index);
                }
                return Some(i);
            }
            i = i + 1;
        }
        proof {
            assert(!self.artifacts@.contains(index));
            self.artifacts@.index_of_first_ensures(index);
        }
        None
    }

    /// An artifact is being worked on, and its file has come to a ratio.
    pub fn advance(&mut self, index: usize, name: &str, ratio: u64)
        ensures
            files_view(final(self).files@) == with_active(
                files_view(old(self).files@),
                name@,
                if ratio > WHOLE {
                    WHOLE
                } else {
                    ratio
                },
            ),
            final(self).artifacts@ == with_artifact(old(self).artifacts@, index),
    {
        let part: u64 = if ratio > WHOLE {
            WHOLE
        } else {
            ratio
        };
        let ghost all = files_view(self.files@);
        let i: usize = self.place_of(name);
        if i < self.files.len() {
            self.files.set(i, (name.to_owned(), part));
            assert(files_view(self.files@) =~= all.update(i as int, (name@, part)));
        } else {
            self.files.push((name.to_owned(), part));
            assert(files_view(self.files@) =~= all.push((name@, part)));
        }
        if self.artifact_place(index).is_none() {
            self.artifacts.push(index);
        }
    }

    /// An artifact is done.
    pub fn finish(&mut self, index: usize, name: &str)
        ensures
            files_view(final(self).files@) == without_active(files_view(old(self).files@), name@),
            final(self).artifacts@ == without_artifact(old(self).artifacts@, index),
    {
        let ghost all = files_view(self.files@);
        let i: usize = self.place_of(name);
        if i < self.files.len() {
            self.files.remove(i);
            assert(files_view(self.files@) =~= all.remove(i as int));
        }
        match self.artifact_place(index) {
            Some(k) => {
                self.artifacts.remove(k);
            },
            None => {},
        }
    }

    /// Nothing is being worked on.
    pub fn clear(&mut self)
        ensures
            final(self).files@.len() == 0,
            final(self).artifacts@.len() == 0,
    {
        self.files.clear();
        self.artifacts.clear();
    }
}

/// An artifact that was begun once and is done is not being worked on.
pub proof fn a_finished_artifact_is_not_active(artifacts: Seq<usize>, index: usize)
    requires
        artifacts.no_duplicates(),
    ensures
        !without_artifact(artifacts, index).contains(index),
        without_artifact(artifacts, index).no_duplicates(),
        with_artifact(artifacts, index).no_duplicates(),
        with_artifact(artifacts, index).contains(index),
{
    artifacts.index_of_first_ensures(index);
    let with = with_artifact(artifacts, index);
    if !artifacts.contains(index) {
        assert(with[artifacts.len() as int] == index);
    }
}

// How far the session has come -----------------------------------------------

/// What a session is doing.
#[derive(Debug)]
pub struct Activity {
    pub progress: OverallProgress,
    pub active: ActiveWork,
    /// Whether there is a session; what comes in after its end is ignored.
    pub is_converting: bool,
    /// How many batches are still finding inputs.
    pub scanning_batches: usize,
}

impl Activity {
    pub fn new() -> (r: Self)
        ensures
            r.progress@ == no_progress(),
            consistent(r.progress@),
            r.active.files@.len() == 0,
            r.active.artifacts@.len() == 0,
            !r.is_converting,
            r.scanning_batches == 0,
    {
        Activity {
            progress: OverallProgress::default(),
            active: ActiveWork::new(),
            is_converting: false,
            scanning_batches: 0,
        }
    }

    /// Inputs were found; returns whether the display is to be sent.
    pub fn register_enumerated_inputs(&mut self, count: usize) -> (emit: bool)
        requires
            consistent(old(self).progress@),
        ensures
            consistent(final(self).progress@),
            emit == (count > 0 && old(self).is_converting),
            final(self).progress@ == (if emit {
                enumerated(old(self).progress@, count)
            } else {
                old(self).progress@
            }),
            final(self).active == old(self).active,
            final(self).is_converting == old(self).is_converting,
            final(self).scanning_batches == old(self).scanning_batches,
    {
        if count == 0 || !self.is_converting {
            return false;
        }
        self.progress.add_enumerated_inputs(count);
        true
    }

    /// An input will give that many artifacts; returns the index of the first.
    pub fn register_activity_input(&mut self, artifact_count: usize) -> (first: usize)
        requires
            consistent(old(self).progress@),
            old(self).progress@.target_total + artifact_count <= usize::MAX,
            old(self).progress@.input_artifact_total.len() < usize::MAX,
        ensures
            consistent(final(self).progress@),
            if old(self).is_converting {
                &&& first == old(self).progress@.target_total
                &&& final(self).progress@ == registered(old(self).progress@, artifact_count)
            } else {
                &&& first == 0
                &&& final(self).progress@ == old(self).progress@
            },
            final(self).active == old(self).active,
            final(self).is_converting == old(self).is_converting,
            final(self).scanning_batches == old(self).scanning_batches,
    {
        if !self.is_converting {
            return 0;
        }
        self.progress.register_input(artifact_count)
    }

    /// A batch has found all its inputs; returns whether the display is to be
    /// sent. The last batch to do so ends the finding of inputs.
    pub fn finish_activity_queueing(&mut self) -> (emit: bool)
        requires
            consistent(old(self).progress@),
        ensures
            consistent(final(self).progress@),
            emit == old(self).is_converting,
            final(self).progress@ == (if emit && old(self).scanning_batches == 1 {
                queueing_finished(old(self).progress@)
            } else {
                old(self).progress@
            }),
            final(self).scanning_batches == (if emit {
                old(self).scanning_batches.wrapping_sub(1)
            } else {
                old(self).scanning_batches
            }),
            final(self).active == old(self).active,
            final(self).is_converting == old(self).is_converting,
    {
        if !self.is_converting {
            return false;
        }
        let last: bool = self.scanning_batches == 1;
        self.scanning_batches = self.scanning_batches.wrapping_sub(1);
        if last {
            self.progress.finish_queueing();
        }
        true
    }

    /// An artifact has come to a ratio, or is done; returns whether the display
    /// is to be sent.
    pub fn update_artifact_progress(
        &mut self,
        index: usize,
        file_name: &str,
        ratio: u64,
        terminal: bool,
    ) -> (emit: bool)
        requires
            consistent(old(self).progress@),
        ensures
            consistent(final(self).progress@),
            final(self).is_converting == old(self).is_converting,
            final(self).scanning_batches == old(self).scanning_batches,
            if !old(self).is_converting {
                &&& !emit
                &&& final(self).progress@ == old(self).progress@
                &&& final(self).active == old(self).active
            } else {
                &&& final(self).progress@ == updated(old(self).progress@, index, ratio, terminal)
                &&& emit == (final(self).progress@.phase == ProgressPhase::Exact || final(self).progress@.completed_input_count != old(self).progress@.completed_input_count)
                &&& files_view(final(self).active.files@) == if terminal {
                    without_active(files_view(old(self).active.files@), file_name@)
                } else {
                    with_active(
                        files_view(old(self).active.files@),
                        file_name@,
                        if ratio > WHOLE {
                            WHOLE
                        } else {
                            ratio
                        },
                    )
                }
                &&& final(self).active.artifacts@ == if terminal {
                    without_artifact(old(self).active.artifacts@, index)
                } else {
                    with_artifact(old(self).active.artifacts@, index)
                }
            },
    {
        if !self.is_converting {
            return false;
        }
        let emit: bool = self.progress.report(index, ratio, terminal);
        if terminal {
            self.active.finish(index, file_name);
        } else {
            self.active.advance(index, file_name, ratio);
        }
        emit
    }

    /// A session starts: nothing is known of it yet.
    pub fn begin_session(&mut self)
        ensures
            final(self).progress@ == no_progress(),
            consistent(final(self).progress@),
            final(self).active.files@.len() == 0,
            final(self).active.artifacts@.len() == 0,
            final(self).is_converting,
            final(self).scanning_batches == old(self).scanning_batches,
    {
        self.progress.reset();
        self.active.clear();
        self.is_converting = true;
    }

    /// A batch is added to the session: its inputs are yet to be found.
    pub fn begin_batch(&mut self)
        requires
            consistent(old(self).progress@),
            old(self).scanning_batches < usize::MAX,
        ensures
            consistent(final(self).progress@),
            final(self).progress@ == queueing(old(self).progress@),
            final(self).scanning_batches == old(self).scanning_batches + 1,
            final(self).active == old(self).active,
            final(self).is_converting == old(self).is_converting,
    {
        self.scanning_batches = self.scanning_batches + 1;
        self.progress.begin_queueing();
    }

    /// The session is complete: everything is done, and nothing is worked on.
    pub fn end_session(&mut self)
        requires
            consistent(old(self).progress@),
        ensures
            consistent(final(self).progress@),
            final(self).progress@ == job_finished(old(self).progress@),
            final(self).active.files@.len() == 0,
            final(self).active.artifacts@.len() == 0,
            !final(self).is_converting,
            final(self).scanning_batches == 0,
    {
        self.progress.finish_job();
        self.active.clear();
        self.is_converting = false;
        self.scanning_batches = 0;
    }

    /// The display, if there is a session.
    pub fn payload(&self, job_id: &str, current_file: &str) -> (r: Option<ProgressPayload>)
        ensures
            match r {
                Some(p) => {
                    &&& self.is_converting
                    &&& p.job_id@ == job_id@
                    &&& p.current_file@ == current_file@
                    &&& p.percent == self.progress@.percent
                    &&& p.file_index == self.progress@.completed_count
                    &&& p.file_count == self.progress@.target_total
                },
                None => !self.is_converting,
            },
    {
        if !self.is_converting {
            return None;
        }
        Some(
            ProgressPayload {
                job_id: job_id.to_owned(),
                percent: self.progress.percent,
                current_file: current_file.to_owned(),
                file_index: self.progress.completed_count,
                file_count: self.progress.target_total,
            },
        )
    }
}

/// What is displayed of a session.
#[derive(Debug)]
pub struct ActivityData {
    pub is_converting: bool,
    pub log: Vec<ConvLogEntry>,
    /// The number of the last line.
    pub log_cursor: u64,
    pub log_state_revision: u64,
    /// Whether the lines are all there are, and not only those that are new.
    pub log_reset: bool,
    pub active_files: Vec<(String, u64)>,
    pub percent: u64,
    pub completed_count: usize,
    pub target_total: usize,
    pub enumerated_input_count: usize,
    pub completed_input_count: usize,
    pub phase: ProgressPhase,
    pub scan_complete: bool,
    pub scanning_batch_count: usize,
    pub waiting_count: usize,
    pub processing_count: usize,
    pub successful_count: usize,
    pub failed_count: usize,
    pub skipped_count: usize,
}

/// What is displayed of the log.
pub open spec fn shows_log(
    data: ActivityData,
    log: ConversionLog,
    after_seq: Option<u64>,
    known_revision: Option<u64>,
) -> bool {
    let reset = known_revision != Some(log.revision);
    &&& data.log_reset == reset
    &&& log_view(data.log@) == shown(
        log_view(log.entries@),
        reset,
        match after_seq {
            Some(seq) => seq,
            None => 0,
        },
    )
    &&& data.log_cursor == log.sequence
    &&& data.log_state_revision == log.revision
    &&& data.successful_count == log.successful
    &&& data.failed_count == log.failed
    &&& data.skipped_count == log.skipped
}

/// What is displayed of the work.
pub open spec fn shows_work(data: ActivityData, activity: Activity) -> bool {
    let progress = activity.progress@;
    &&& data.is_converting == activity.is_converting
    &&& files_view(data.active_files@) == files_view(activity.active.files@)
    &&& data.percent == progress.percent
    &&& data.completed_count == progress.completed_count
    &&& data.target_total == progress.target_total
    &&& data.enumerated_input_count == progress.enumerated_input_count
    &&& data.completed_input_count == progress.completed_input_count
    &&& data.phase == progress.phase
    &&& data.scan_complete == progress.scan_complete
    &&& data.scanning_batch_count == activity.scanning_batches
    &&& data.processing_count == activity.active.artifacts@.len()
    &&& data.waiting_count == waiting(progress, data.processing_count)
}

/// What is displayed of a session to one who has seen the lines up to a number,
/// and the changes up to a revision.
pub fn get_activity_data(
    activity: &Activity,
    log: &ConversionLog,
    after_seq: Option<u64>,
    known_log_state_revision: Option<u64>,
) -> (r: ActivityData)
    ensures
        shows_log(r, *log, after_seq, known_log_state_revision),
        shows_work(r, *activity),
{
    let mut active_files: Vec<(String, u64)> = Vec::new();
    let mut i: usize = 0;
    while i < activity.active.files.len()
        invariant
            i <= activity.active.files@.len(),
            active_files@.len() == i,
            forall|k: int|
                0 <= k < i ==> (#[trigger] active_files@[k]).0@ == activity.active.files@[k].0@
                    && active_files@[k].1 == activity.active.files@[k].1,
        decreases activity.active.files@.len() - i,
    {
        active_files.push((activity.active.files[i].0.clone(), activity.active.files[i].1));
        i = i + 1;
    }
    assert(files_view(active_files@) =~= files_view(activity.active.files@));
    let processing_count: usize = activity.active.artifacts.len();
    ActivityData {
        is_converting: activity.is_converting,
        log: log.lines_after(after_seq, known_log_state_revision),
        log_cursor: log.sequence,
        log_state_revision: log.revision,
        log_reset: log.must_reset(known_log_state_revision),
        active_files,
        percent: activity.progress.percent,
        completed_count: activity.progress.completed_count,
        target_total: activity.progress.target_total,
        enumerated_input_count: activity.progress.enumerated_input_count,
        completed_input_count: activity.progress.completed_input_count,
        phase: activity.progress.phase,
        scan_complete: activity.progress.scan_complete,
        scanning_batch_count: activity.scanning_batches,
        waiting_count: activity.progress.waiting_count(processing_count),
        processing_count,
        successful_count: log.successful,
        failed_count: log.failed,
        skipped_count: log.skipped,
    }
}

// What is shown --------------------------------------------------------------

/// Stopping a session changes nothing of a line but its status, and that only of a
/// file that was being worked on and never came to an end.
pub proof fn stopping_changes_the_status_only(log: Seq<EntryView>, i: int)
    requires
        0 <= i < log.len(),
    ensures
        ({
            let now = cancelled_log(log)[i];
            let was = log[i];
            let ended = exists|j: int|
                0 <= j < log.len() && (#[trigger] log[j]).file_name == was.file_name && (
                log[j].status == "done"@ || log[j].status == "error"@ || log[j].status
                    == "skipped"@ || log[j].status == "cancelled"@);
            &&& cancelled_log(log).len() == log.len()
            &&& now.seq == was.seq && now.ts_ms == was.ts_ms && now.file_name == was.file_name
                && now.error == was.error
            &&& now.status == (if was.status == "processing"@ && !ended {
                "cancelled"@
            } else {
                was.status
            })
        }),
{
    let was = log[i];
    if is_settled(log, was.file_name) {
        let j = choose|j: int|
            0 <= j < log.len() && is_final_status((#[trigger] log[j]).status) && log[j].file_name
                == was.file_name;
        assert(log[j].file_name == was.file_name);
    }
}

/// A new line stands at the end; those before stay in their order, and only the
/// oldest leaves where there are too many.
pub proof fn a_new_line_stands_at_the_end(log: Seq<EntryView>, entry: EntryView, i: int)
    requires
        log.len() <= LOG_CAPACITY,
        0 <= i < log.len(),
    ensures
        ({
            let now = with_line(log, entry);
            &&& now.last() == entry
            &&& now.len() <= LOG_CAPACITY
            &&& log.len() < LOG_CAPACITY ==> now.len() == log.len() + 1 && now[i] == log[i]
            &&& log.len() == LOG_CAPACITY && i > 0 ==> now[i - 1] == log[i]
        }),
{
}

/// What is asked for is shown: all lines where those that are known no longer
/// hold, and else those behind the last one that is known, in order.
pub proof fn only_new_lines_are_shown(log: Seq<EntryView>, after_seq: u64)
    ensures
        shown(log, true, after_seq) == log,
        forall|k: int|
            0 <= k < shown(log, false, after_seq).len() ==> (#[trigger] shown(
                log,
                false,
                after_seq,
            )[k]).seq > after_seq && log.contains(shown(log, false, after_seq)[k]),
        shown(log, false, after_seq).len() <= log.len(),
    decreases log.len(),
{
    if log.len() > 0 {
        let rest = log.drop_last();
        only_new_lines_are_shown(rest, after_seq);
        assert(shown(log, true, after_seq) =~= log);
        let before = shown(rest, false, after_seq);
        let now = shown(log, false, after_seq);
        assert forall|k: int| 0 <= k < now.len() implies (#[trigger] now[k]).seq > after_seq
            && log.contains(now[k]) by {
            if k < before.len() {
                assert(now[k] == before[k]);
                let j = choose|j: int| 0 <= j < rest.len() && rest[j] == before[k];
                assert(log[j] == now[k]);
            } else {
                assert(log[log.len() - 1] == now[k]);
            }
        }
    } else {
        assert(shown(log, true, after_seq) =~= log);
    }
}

proof fn lemma_file_place(files: Seq<(Seq<char>, u64)>, name: Seq<char>, from: int)
    requires
        0 <= from,
    ensures
        ({
            let i = file_place(files, name, from);
            &&& i <= files.len() || from > files.len()
            &&& i < files.len() ==> from <= i && files[i].0 == name
            &&& i >= files.len() ==> forall|k: int|
                from <= k < files.len() ==> (#[trigger] files[k]).0 != name
        }),
    decreases files.len() - from,
{
    if from < files.len() && files[from].0 != name {
        lemma_file_place(files, name, from + 1);
    }
}

/// A file that is worked on is shown with how far it has come, and nothing is
/// changed of any other; once it is done it is shown no more.
pub proof fn a_file_is_shown_while_it_is_worked_on(
    files: Seq<(Seq<char>, u64)>,
    name: Seq<char>,
    ratio: u64,
    other: (Seq<char>, u64),
)
    requires
        forall|i: int, j: int|
            0 <= i < j < files.len() ==> (#[trigger] files[i]).0 != (#[trigger] files[j]).0,
    ensures
        with_active(files, name, ratio).contains((name, ratio)),
        other.0 != name ==> with_active(files, name, ratio).contains(other) == files.contains(other),
        other.0 != name ==> without_active(files, name).contains(other) == files.contains(other),
        other.0 == name ==> !without_active(files, name).contains(other),
{
    lemma_file_place(files, name, 0);
    let i = file_place(files, name, 0);
    let with = with_active(files, name, ratio);
    let without = without_active(files, name);
    if i < files.len() {
        assert(with[i] == (name, ratio));
        if files.contains(other) {
            let k = choose|k: int| 0 <= k < files.len() && files[k] == other;
            if k != i {
                assert(with[k] == other);
                let at = if k < i {
                    k
                } else {
                    k - 1
                };
                assert(without[at] == other);
            }
        }
        if with.contains(other) {
            let k = choose|k: int| 0 <= k < with.len() && with[k] == other;
            if k != i {
                assert(files[k] == other);
            }
        }
        if without.contains(other) {
            let k = choose|k: int| 0 <= k < without.len() && without[k] == other;
            let at = if k < i {
                k
            } else {
                k + 1
            };
            assert(files[at] == other);
            assert(at != i);
        }
    } else {
        assert(with[files.len() as int] == (name, ratio));
        if files.contains(other) {
            let k = choose|k: int| 0 <= k < files.len() && files[k] == other;
            assert(with[k] == other);
            assert(files[k].0 != name);
        }
        if with.contains(other) && other.0 != name {
            let k = choose|k: int| 0 <= k < with.len() && with[k] == other;
            assert(files[k] == other);
        }
    }
}

/// How many files were converted, failed and were left out, with one more line.
pub open spec fn counted(before: (usize, usize, usize), status: Seq<char>) -> (usize, usize, usize) {
    (
        if status == "done"@ {
            before.0.wrapping_add(1)
        } else {
            before.0
        },
        if status == "error"@ {
            before.1.wrapping_add(1)
        } else {
            before.1
        },
        if status == "skipped"@ {
            before.2.wrapping_add(1)
        } else {
            before.2
        },
    )
}

/// A line is counted as what it says: a file that was converted, one that failed,
/// or one that was left out; a line that says that a file is being worked on, or
/// was stopped, is not counted.
pub proof fn a_line_is_counted_as_what_it_says(done: usize, failed: usize, skipped: usize)
    requires
        done < usize::MAX,
        failed < usize::MAX,
        skipped < usize::MAX,
    ensures
        ({
            let before = (done, failed, skipped);
            &&& counted(before, "done"@) == ((done + 1) as usize, failed, skipped)
            &&& counted(before, "error"@) == (done, (failed + 1) as usize, skipped)
            &&& counted(before, "skipped"@) == (done, failed, (skipped + 1) as usize)
            &&& counted(before, "processing"@) == before
            &&& counted(before, "cancelled"@) == before
        }),
{
    reveal_strlit("done");
    reveal_strlit("error");
    reveal_strlit("skipped");
    reveal_strlit("processing");
    reveal_strlit("cancelled");
    assert("done"@.len() == 4 && "error"@.len() == 5 && "skipped"@.len() == 7
        && "processing"@.len() == 10 && "cancelled"@.len() == 9);
}

/// What is shown of a session is what there is of it: each number is the one that
/// was counted for it, and every file that is worked on is shown.
pub proof fn what_is_shown_is_what_there_is(
    data: ActivityData,
    activity: Activity,
    log: ConversionLog,
    after_seq: Option<u64>,
    known_revision: Option<u64>,
)
    requires
        shows_log(data, log, after_seq, known_revision),
        shows_work(data, activity),
    ensures
        data.successful_count == log.successful,
        data.failed_count == log.failed,
        data.skipped_count == log.skipped,
        data.log_cursor == log.sequence && data.log_state_revision == log.revision,
        data.log_reset <==> known_revision != Some(log.revision),
        data.log_reset ==> log_view(data.log@) == log_view(log.entries@),
        data.percent == activity.progress@.percent,
        data.completed_count == activity.progress@.completed_count,
        data.target_total == activity.progress@.target_total,
        data.enumerated_input_count == activity.progress@.enumerated_input_count,
        data.completed_input_count == activity.progress@.completed_input_count,
        data.is_converting == activity.is_converting,
        data.scanning_batch_count == activity.scanning_batches,
        data.processing_count == activity.active.artifacts@.len(),
        data.phase == activity.progress@.phase,
        data.scan_complete == activity.progress@.scan_complete,
        files_view(data.active_files@) == files_view(activity.active.files@),
{
    only_new_lines_are_shown(
        log_view(log.entries@),
        match after_seq {
            Some(seq) => seq,
            None => 0,
        },
    );
}

} // verus!
