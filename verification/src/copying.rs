//! Copying an input from the network: what follows what, from its size to its
//! last byte.

use vstd::prelude::*;
use crate::network::copy_size;
use crate::network::fits;
use crate::network::may_copy;
use crate::network::must_wait;
use crate::network::refusal_message;
use crate::network::refusal_text;
use crate::network::CopyRefusal;
use crate::network::INPUT_SPOOL_TARGET_BYTES;
use crate::progress::copied_ratio;
use crate::progress::copy_ratio;

verus! {

/// Where the copying of an input is. Once it is known, the size of the input is
/// kept.
#[derive(Debug, Clone, Copy, PartialEq, Eq, Structural)]
pub enum CopyStage {
    /// The size of the input is asked for.
    Measuring,
    /// How much is kept of inputs is asked for.
    Counting(usize),
    /// It waits until less is kept.
    Waiting(usize),
    /// Whether the session is being stopped is asked for.
    Checking(usize),
    /// How much room there is on the disk is asked for.
    Spacing(usize),
    /// The input is opened, and a file for the copy is made.
    Opening(usize),
    /// A piece is read, with so much copied before.
    Reading(usize, u64),
    /// A piece of that length is written, with so much copied before.
    Writing(usize, u64, usize),
    /// What was written is made sure of.
    Flushing,
    Ended,
}

/// What is to be done next.
#[derive(Debug)]
pub enum CopyAction {
    Measure,
    Count,
    /// The session is to be shown as waiting, for a moment.
    Wait,
    /// The session is to be shown as not waiting any more, and to be asked whether
    /// it is being stopped.
    Check,
    AskSpace,
    Open,
    /// A piece is to be read, unless the session is being stopped.
    Read,
    /// The piece that was read, of that length, is to be written.
    Write(usize),
    /// So much more is kept, and the copy has come so far, in billionths; then
    /// the next piece is to be read.
    ReadOn(usize, u64),
    Flush,
    /// The copy is complete.
    Keep,
    /// There is no copy, for the reason given, and the session is not shown as
    /// waiting.
    Fail(String),
}

/// What an action holds.
#[verifier::ext_equal]
pub enum CopyActionView {
    Measure,
    Count,
    Wait,
    Check,
    AskSpace,
    Open,
    Read,
    Write(usize),
    ReadOn(usize, u64),
    Flush,
    Keep,
    Fail(Seq<char>),
}

impl View for CopyAction {
    type V = CopyActionView;

    open spec fn view(&self) -> CopyActionView {
        match self {
            CopyAction::Measure => CopyActionView::Measure,
            CopyAction::Count => CopyActionView::Count,
            CopyAction::Wait => CopyActionView::Wait,
            CopyAction::Check => CopyActionView::Check,
            CopyAction::AskSpace => CopyActionView::AskSpace,
            CopyAction::Open => CopyActionView::Open,
            CopyAction::Read => CopyActionView::Read,
            CopyAction::Write(n) => CopyActionView::Write(*n),
            CopyAction::ReadOn(n, ratio) => CopyActionView::ReadOn(*n, *ratio),
            CopyAction::Flush => CopyActionView::Flush,
            CopyAction::Keep => CopyActionView::Keep,
            CopyAction::Fail(e) => CopyActionView::Fail(e@),
        }
    }
}

/// What came of an action.
#[derive(Debug)]
pub enum CopyEvent {
    /// The size of the input.
    Measured(u64),
    /// How much is kept of inputs.
    Kept(usize),
    /// A moment has passed.
    Rested,
    /// The session is being stopped.
    Stopped,
    /// The session is not being stopped.
    Running,
    /// How much room there is on the disk.
    Space(u64),
    Opened,
    /// A piece of that length was read; of none at the end of the input.
    Got(usize),
    Written,
    Flushed,
    /// The system refused, for the reason given.
    Failed(String),
}

/// The action of a stage can come to that.
pub open spec fn can_come(stage: CopyStage, event: CopyEvent) -> bool {
    match stage {
        CopyStage::Measuring => event is Measured || event is Failed,
        CopyStage::Counting(_) => event is Kept,
        CopyStage::Waiting(_) => event is Rested || event is Stopped,
        CopyStage::Checking(_) => event is Running || event is Stopped,
        CopyStage::Spacing(_) => event is Space || event is Failed,
        CopyStage::Opening(_) => event is Opened || event is Failed,
        CopyStage::Reading(_, _) => event is Got || event is Stopped || event is Failed,
        CopyStage::Writing(_, _, _) => event is Written || event is Failed,
        CopyStage::Flushing => event is Flushed || event is Failed,
        CopyStage::Ended => false,
    }
}

/// The end of a copying that came to nothing.
pub open spec fn refused(reason: Seq<char>) -> (CopyStage, CopyActionView) {
    (CopyStage::Ended, CopyActionView::Fail(reason))
}

/// What is said of a copy that could not be completed.
pub open spec fn broken_copy(reason: Seq<char>) -> Seq<char> {
    "failed to cache network input locally: "@ + reason
}

/// How much is copied once a piece is.
pub open spec fn more_copied(copied: u64, piece: usize) -> u64 {
    if copied + piece > u64::MAX {
        u64::MAX
    } else {
        (copied + piece) as u64
    }
}

/// What follows an action, from what it came to. An input is copied once it fits
/// beside what is kept, and then only where the session goes on and the disk has
/// room.
pub open spec fn next_copy(stage: CopyStage, event: CopyEvent) -> (CopyStage, CopyActionView) {
    match (stage, event) {
        (CopyStage::Measuring, CopyEvent::Measured(size)) => if size
            <= INPUT_SPOOL_TARGET_BYTES {
            (CopyStage::Counting(size as usize), CopyActionView::Count)
        } else {
            refused(refusal_text(CopyRefusal::TooLarge))
        },
        (CopyStage::Counting(size), CopyEvent::Kept(kept)) => if fits(kept, size) {
            (CopyStage::Checking(size), CopyActionView::Check)
        } else {
            (CopyStage::Waiting(size), CopyActionView::Wait)
        },
        (CopyStage::Waiting(size), CopyEvent::Rested) => (
            CopyStage::Counting(size),
            CopyActionView::Count,
        ),
        (CopyStage::Checking(size), CopyEvent::Running) => (
            CopyStage::Spacing(size),
            CopyActionView::AskSpace,
        ),
        (CopyStage::Spacing(size), CopyEvent::Space(available)) => if available < size {
            refused(refusal_text(CopyRefusal::NoSpace))
        } else {
            (CopyStage::Opening(size), CopyActionView::Open)
        },
        (CopyStage::Opening(size), CopyEvent::Opened) => (
            CopyStage::Reading(size, 0),
            CopyActionView::Read,
        ),
        (CopyStage::Reading(size, copied), CopyEvent::Got(piece)) => if piece == 0 {
            (CopyStage::Flushing, CopyActionView::Flush)
        } else {
            (CopyStage::Writing(size, copied, piece), CopyActionView::Write(piece))
        },
        (CopyStage::Writing(size, copied, piece), CopyEvent::Written) => {
            let now = more_copied(copied, piece);
            (
                CopyStage::Reading(size, now),
                CopyActionView::ReadOn(piece, copied_ratio(now, size as u64) as u64),
            )
        },
        (CopyStage::Flushing, CopyEvent::Flushed) => (CopyStage::Ended, CopyActionView::Keep),
        (CopyStage::Reading(_, _), CopyEvent::Stopped) => refused(
            broken_copy(refusal_text(CopyRefusal::Cancelled)),
        ),
        (_, CopyEvent::Stopped) => refused(refusal_text(CopyRefusal::Cancelled)),
        (CopyStage::Reading(_, _), CopyEvent::Failed(e)) => refused(broken_copy(e@)),
        (CopyStage::Writing(_, _, _), CopyEvent::Failed(e)) => refused(broken_copy(e@)),
        (CopyStage::Flushing, CopyEvent::Failed(e)) => refused(broken_copy(e@)),
        (_, CopyEvent::Failed(e)) => refused(e@),
        _ => refused(seq![]),
    }
}

fn failing(reason: String) -> (r: (CopyStage, CopyAction))
    ensures
        (r.0, r.1@) == refused(reason@),
{
    (CopyStage::Ended, CopyAction::Fail(reason))
}

fn breaking(reason: &str) -> (r: (CopyStage, CopyAction))
    ensures
        (r.0, r.1@) == refused(broken_copy(reason@)),
{
    let mut text: String = "failed to cache network input locally: ".to_owned();
    text.append(reason);
    failing(text)
}

/// The start of the copying of an input.
pub fn copy_network_input_to_temp() -> (r: (CopyStage, CopyAction))
    ensures
        r.0 == CopyStage::Measuring,
        r.1 is Measure,
{
    (CopyStage::Measuring, CopyAction::Measure)
}

/// What follows an action, from what it came to.
pub fn copy_step(stage: CopyStage, event: CopyEvent) -> (r: (CopyStage, CopyAction))
    requires
        can_come(stage, event),
    ensures
        (r.0, r.1@) == next_copy(stage, event),
{
    match (stage, event) {
        (CopyStage::Measuring, CopyEvent::Measured(size)) => match copy_size(size) {
            Ok(n) => (CopyStage::Counting(n), CopyAction::Count),
            Err(refusal) => failing(refusal_message(refusal)),
        },
        (CopyStage::Counting(size), CopyEvent::Kept(kept)) => if must_wait(kept, size) {
            (CopyStage::Waiting(size), CopyAction::Wait)
        } else {
            (CopyStage::Checking(size), CopyAction::Check)
        },
        (CopyStage::Waiting(size), CopyEvent::Rested) => (
            CopyStage::Counting(size),
            CopyAction::Count,
        ),
        (CopyStage::Checking(size), CopyEvent::Running) => (
            CopyStage::Spacing(size),
            CopyAction::AskSpace,
        ),
        (CopyStage::Spacing(size), CopyEvent::Space(available)) => match may_copy(
            size as u64,
            available,
        ) {
            Ok(_) => (CopyStage::Opening(size), CopyAction::Open),
            Err(refusal) => failing(refusal_message(refusal)),
        },
        (CopyStage::Opening(size), CopyEvent::Opened) => (
            CopyStage::Reading(size, 0),
            CopyAction::Read,
        ),
        (CopyStage::Reading(size, copied), CopyEvent::Got(piece)) => if piece == 0 {
            (CopyStage::Flushing, CopyAction::Flush)
        } else {
            (CopyStage::Writing(size, copied, piece), CopyAction::Write(piece))
        },
        (CopyStage::Writing(size, copied, piece), CopyEvent::Written) => {
            let now: u64 = copied.saturating_add(piece as u64);
            let ratio: u64 = copy_ratio(now, size as u64);
            (CopyStage::Reading(size, now), CopyAction::ReadOn(piece, ratio))
        },
        (CopyStage::Flushing, CopyEvent::Flushed) => (CopyStage::Ended, CopyAction::Keep),
        (CopyStage::Reading(_, _), CopyEvent::Stopped) => {
            let reason: String = refusal_message(CopyRefusal::Cancelled);
            breaking(reason.as_str())
        },
        (_, CopyEvent::Stopped) => failing(refusal_message(CopyRefusal::Cancelled)),
        (CopyStage::Reading(_, _), CopyEvent::Failed(e)) => breaking(e.as_str()),
        (CopyStage::Writing(_, _, _), CopyEvent::Failed(e)) => breaking(e.as_str()),
        (CopyStage::Flushing, CopyEvent::Failed(e)) => breaking(e.as_str()),
        (_, CopyEvent::Failed(e)) => failing(e),
        _ => failing(String::new()),
    }
}

// Whole runs -----------------------------------------------------------------

/// Where a copying is, and what is to be done next, once some things came of its
/// actions, in order.
pub open spec fn after_events(events: Seq<CopyEvent>) -> (CopyStage, CopyActionView)
    decreases events.len(),
{
    if events.len() == 0 {
        (CopyStage::Measuring, CopyActionView::Measure)
    } else {
        next_copy(after_events(events.drop_last()).0, events.last())
    }
}

/// Each event can come of the action before it.
pub open spec fn is_run(events: Seq<CopyEvent>) -> bool
    decreases events.len(),
{
    events.len() == 0 || (is_run(events.drop_last()) && can_come(
        after_events(events.drop_last()).0,
        events.last(),
    ))
}

/// How much of an input was written in a run.
pub open spec fn written_bytes(events: Seq<CopyEvent>) -> int
    decreases events.len(),
{
    if events.len() == 0 {
        0
    } else {
        let before = written_bytes(events.drop_last());
        match (after_events(events.drop_last()).0, events.last()) {
            (CopyStage::Writing(_, _, piece), CopyEvent::Written) => before + piece,
            _ => before,
        }
    }
}

/// How much a run has asked to be counted as kept.
pub open spec fn counted_bytes(events: Seq<CopyEvent>) -> int
    decreases events.len(),
{
    if events.len() == 0 {
        0
    } else {
        let before = counted_bytes(events.drop_last());
        match after_events(events).1 {
            CopyActionView::ReadOn(piece, _) => before + piece,
            _ => before,
        }
    }
}

/// The size that a stage keeps.
spec fn size_kept(stage: CopyStage) -> Option<usize> {
    match stage {
        CopyStage::Counting(size) => Some(size),
        CopyStage::Waiting(size) => Some(size),
        CopyStage::Checking(size) => Some(size),
        CopyStage::Spacing(size) => Some(size),
        CopyStage::Opening(size) => Some(size),
        CopyStage::Reading(size, _) => Some(size),
        CopyStage::Writing(size, _, _) => Some(size),
        _ => None,
    }
}

/// What must have come in a run for it to be where it is.
spec fn has_come(events: Seq<CopyEvent>) -> bool {
    let stage = after_events(events).0;
    let n = events.len();
    &&& size_kept(stage) is Some ==> n >= 1 && events[0] == CopyEvent::Measured(
        size_kept(stage)->0 as u64,
    ) && size_kept(stage)->0 <= INPUT_SPOOL_TARGET_BYTES
    &&& stage matches CopyStage::Checking(size) ==> n >= 2 && (events[n - 1] matches CopyEvent::Kept(
        kept,
    ) && fits(kept, size))
    &&& stage matches CopyStage::Spacing(size) ==> n >= 3 && events[n - 1] is Running && (events[n
        - 2] matches CopyEvent::Kept(kept) && fits(kept, size))
    &&& stage matches CopyStage::Opening(size) ==> n >= 4 && (events[n - 1] matches CopyEvent::Space(
        available,
    ) && available >= size) && events[n - 2] is Running && (events[n - 3] matches CopyEvent::Kept(
        kept,
    ) && fits(kept, size))
}

proof fn lemma_has_come(events: Seq<CopyEvent>)
    requires
        is_run(events),
    ensures
        has_come(events),
    decreases events.len(),
{
    if events.len() > 0 {
        lemma_has_come(events.drop_last());
        assert(forall|i: int| 0 <= i < events.len() - 1 ==> events.drop_last()[i] == events[i]);
    }
}

/// No copy is begun but of an input that is small enough, right after it fitted
/// beside what was kept, the session went on, and the disk had room for it.
pub proof fn a_copy_begins_only_where_it_may(events: Seq<CopyEvent>)
    requires
        is_run(events),
        after_events(events).1 is Open,
    ensures
        ({
            let n = events.len();
            &&& n >= 4
            &&& events[0] matches CopyEvent::Measured(size)
            &&& size <= INPUT_SPOOL_TARGET_BYTES
            &&& events[n - 3] matches CopyEvent::Kept(kept)
            &&& fits(kept, size as usize)
            &&& events[n - 2] is Running
            &&& events[n - 1] matches CopyEvent::Space(available)
            &&& available >= size
        }),
{
    lemma_has_come(events);
    lemma_open_is_opening(events);
}

proof fn lemma_open_is_opening(events: Seq<CopyEvent>)
    requires
        after_events(events).1 is Open,
    ensures
        after_events(events).0 is Opening,
{
}

/// Nothing is read or written before a copy was begun.
pub proof fn nothing_is_read_before_a_copy_begins(events: Seq<CopyEvent>)
    requires
        is_run(events),
        after_events(events).1 is Read || after_events(events).1 is Write || after_events(events).1
            is ReadOn || after_events(events).1 is Flush || after_events(events).1 is Keep,
    ensures
        exists|i: int|
            0 <= i < events.len() && (#[trigger] after_events(events.take(i))).1 is Open,
    decreases events.len(),
{
    let before = events.drop_last();
    assert(before =~= events.take(events.len() - 1));
    if after_events(before).1 is Open {
        assert(after_events(events.take(events.len() - 1)).1 is Open);
    } else {
        lemma_action_of_stage(before);
        nothing_is_read_before_a_copy_begins(before);
        let i = choose|i: int|
            0 <= i < before.len() && (#[trigger] after_events(before.take(i))).1 is Open;
        assert(before.take(i) =~= events.take(i));
    }
}

proof fn lemma_action_of_stage(events: Seq<CopyEvent>)
    requires
        is_run(events),
    ensures
        after_events(events).0 is Opening ==> after_events(events).1 is Open,
        after_events(events).0 is Reading ==> after_events(events).1 is Read || after_events(
            events,
        ).1 is ReadOn,
        after_events(events).0 is Writing ==> after_events(events).1 is Write,
        after_events(events).0 is Flushing ==> after_events(events).1 is Flush,
{
}

/// What is counted as kept is what was written, and how far the copy has come is
/// told from it.
pub proof fn what_is_written_is_counted(events: Seq<CopyEvent>)
    requires
        is_run(events),
    ensures
        counted_bytes(events) == written_bytes(events),
        after_events(events).0 matches CopyStage::Reading(_, copied) ==> copied == (if written_bytes(
            events,
        ) > u64::MAX {
            u64::MAX as int
        } else {
            written_bytes(events)
        }),
        after_events(events).0 matches CopyStage::Writing(_, copied, _) ==> copied == (
        if written_bytes(events) > u64::MAX {
            u64::MAX as int
        } else {
            written_bytes(events)
        }),
        written_bytes(events) >= 0,
        after_events(events).0 !is Reading && after_events(events).0 !is Writing && after_events(
            events,
        ).0 !is Flushing && after_events(events).0 !is Ended ==> written_bytes(events) == 0,
    decreases events.len(),
{
    if events.len() > 0 {
        what_is_written_is_counted(events.drop_last());
    }
}

/// A copying that is stopped comes to nothing.
pub proof fn a_stopped_copy_is_not_kept(stage: CopyStage, event: CopyEvent)
    requires
        can_come(stage, event),
        event is Stopped,
    ensures
        next_copy(stage, event).0 == CopyStage::Ended,
        next_copy(stage, event).1 == CopyActionView::Fail(
            if stage is Reading {
                broken_copy("conversion cancelled"@)
            } else {
                "conversion cancelled"@
            },
        ),
{
}

/// Every piece that is read is written, whole, and counted once it is; the input
/// is read on until it ends, and the copy is kept once that is made sure of.
pub proof fn every_piece_is_copied(size: usize, copied: u64, piece: usize)
    ensures
        piece > 0 ==> next_copy(CopyStage::Reading(size, copied), CopyEvent::Got(piece)) == (
            CopyStage::Writing(size, copied, piece),
            CopyActionView::Write(piece),
        ),
        copied + piece <= u64::MAX ==> next_copy(
            CopyStage::Writing(size, copied, piece),
            CopyEvent::Written,
        ).0 == CopyStage::Reading(size, (copied + piece) as u64),
        next_copy(CopyStage::Writing(size, copied, piece), CopyEvent::Written).1 is ReadOn,
        size > 0 && copied + piece == size ==> next_copy(
            CopyStage::Writing(size, copied, piece),
            CopyEvent::Written,
        ).1 == CopyActionView::ReadOn(piece, crate::progress::WHOLE),
        next_copy(CopyStage::Reading(size, copied), CopyEvent::Got(0)).1 is Flush,
        next_copy(CopyStage::Flushing, CopyEvent::Flushed).1 is Keep,
{
    if size > 0 {
        crate::progress::a_copy_comes_as_far_as_its_bytes(0, 0, size as u64);
    }
}

/// A copy that is kept has been read to its end and made sure of.
pub proof fn a_kept_copy_is_complete(events: Seq<CopyEvent>)
    requires
        is_run(events),
        after_events(events).1 is Keep,
    ensures
        events.len() >= 2,
        events[events.len() - 2] == CopyEvent::Got(0),
        events[events.len() - 1] is Flushed,
{
    let before = events.drop_last();
    assert(after_events(before).0 is Flushing);
    assert(before.len() > 0);
    let last = before.last();
    assert(after_events(before) == next_copy(after_events(before.drop_last()).0, last));
    assert(before[before.len() - 1] == events[events.len() - 2]);
}

/// What the system says where it refuses is what is said of the copy; an input
/// that is too large is refused at once, and one for which the disk has no room as
/// soon as that is known.
pub proof fn a_refusal_gives_its_reason(stage: CopyStage, e: String, size: u64, available: u64)
    requires
        can_come(stage, CopyEvent::Failed(e)),
    ensures
        ({
            let (ended, action) = next_copy(stage, CopyEvent::Failed(e));
            &&& ended == CopyStage::Ended
            &&& action is Fail && e@.is_suffix_of(action->Fail_0)
        }),
        size > 256 * 1024 * 1024 ==> next_copy(CopyStage::Measuring, CopyEvent::Measured(size)).1
            == CopyActionView::Fail("network input exceeds the cache threshold"@),
        size <= 256 * 1024 * 1024 ==> next_copy(CopyStage::Measuring, CopyEvent::Measured(size)).1
            is Count,
        size <= 256 * 1024 * 1024 && available < size ==> next_copy(
            CopyStage::Spacing(size as usize),
            CopyEvent::Space(available),
        ).1 == CopyActionView::Fail("not enough temporary disk space to cache network input"@),
        size <= 256 * 1024 * 1024 && available >= size ==> next_copy(
            CopyStage::Spacing(size as usize),
            CopyEvent::Space(available),
        ).1 is Open,
{
    let action = next_copy(stage, CopyEvent::Failed(e)).1;
    let said = action->Fail_0;
    assert(said.skip(said.len() - e@.len()) =~= e@);
}

} // verus!
