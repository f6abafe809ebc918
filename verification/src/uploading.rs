//! Taking a result to the network: under another name first, which is recorded
//! before anything is written there.

use vstd::prelude::*;
use crate::copying::more_copied;
use crate::progress::copied_ratio;
use crate::progress::copy_ratio;

verus! {

/// Where the upload of a result is. Once it is known, the size of the result is
/// kept.
#[derive(Debug, Clone, Copy, PartialEq, Eq, Structural)]
pub enum UploadStage {
    /// The result is opened, and its size asked for.
    Opening,
    /// The name that it is written under first is recorded.
    Recording(u64),
    /// A file of that name is made.
    Creating(u64),
    /// A piece is read, with so much written before.
    Reading(u64, u64),
    /// A piece of that length is written, with so much written before.
    Writing(u64, u64, usize),
    /// What was written is made sure of.
    Flushing,
    /// The file takes the place of the result.
    Replacing,
    /// That the upload has ended is recorded.
    Completing,
    Ended,
}

/// What is to be done next.
#[derive(Debug)]
pub enum UploadAction {
    Open,
    Record,
    Create,
    /// A piece is to be read, unless the session is being stopped.
    Read,
    /// The piece that was read, of that length, is to be written.
    Write(usize),
    /// The upload has come so far, in billionths; then the next piece is to be
    /// read.
    ReadOn(u64),
    Flush,
    Replace,
    Complete,
    /// The result is in its place.
    Succeed,
    /// The result is not in its place, for the reason given.
    Fail(String),
}

/// What an action holds.
#[verifier::ext_equal]
pub enum UploadActionView {
    Open,
    Record,
    Create,
    Read,
    Write(usize),
    ReadOn(u64),
    Flush,
    Replace,
    Complete,
    Succeed,
    Fail(Seq<char>),
}

impl View for UploadAction {
    type V = UploadActionView;

    open spec fn view(&self) -> UploadActionView {
        match self {
            UploadAction::Open => UploadActionView::Open,
            UploadAction::Record => UploadActionView::Record,
            UploadAction::Create => UploadActionView::Create,
            UploadAction::Read => UploadActionView::Read,
            UploadAction::Write(n) => UploadActionView::Write(*n),
            UploadAction::ReadOn(ratio) => UploadActionView::ReadOn(*ratio),
            UploadAction::Flush => UploadActionView::Flush,
            UploadAction::Replace => UploadActionView::Replace,
            UploadAction::Complete => UploadActionView::Complete,
            UploadAction::Succeed => UploadActionView::Succeed,
            UploadAction::Fail(e) => UploadActionView::Fail(e@),
        }
    }
}

/// What came of an action.
#[derive(Debug)]
pub enum UploadEvent {
    /// The result was opened; its size.
    Opened(u64),
    /// What was asked for was done.
    Done,
    /// A piece of that length was read; of none at the end.
    Got(usize),
    /// The session is being stopped.
    Stopped,
    /// It could not be done, for the reason given.
    Failed(String),
}

/// The action of a stage can come to that.
pub open spec fn can_come(stage: UploadStage, event: UploadEvent) -> bool {
    match stage {
        UploadStage::Opening => event is Opened || event is Failed,
        UploadStage::Reading(_, _) => event is Got || event is Stopped || event is Failed,
        UploadStage::Ended => false,
        _ => event is Done || event is Failed,
    }
}

/// What follows an action, from what it came to.
pub open spec fn next_upload(stage: UploadStage, event: UploadEvent) -> (
    UploadStage,
    UploadActionView,
) {
    match (stage, event) {
        (UploadStage::Opening, UploadEvent::Opened(size)) => (
            UploadStage::Recording(size),
            UploadActionView::Record,
        ),
        (UploadStage::Recording(size), UploadEvent::Done) => (
            UploadStage::Creating(size),
            UploadActionView::Create,
        ),
        (UploadStage::Creating(size), UploadEvent::Done) => (
            UploadStage::Reading(size, 0),
            UploadActionView::Read,
        ),
        (UploadStage::Reading(size, copied), UploadEvent::Got(piece)) => if piece == 0 {
            (UploadStage::Flushing, UploadActionView::Flush)
        } else {
            (UploadStage::Writing(size, copied, piece), UploadActionView::Write(piece))
        },
        (UploadStage::Writing(size, copied, piece), UploadEvent::Done) => {
            let now = more_copied(copied, piece);
            (
                UploadStage::Reading(size, now),
                UploadActionView::ReadOn(copied_ratio(now, size) as u64),
            )
        },
        (UploadStage::Flushing, UploadEvent::Done) => (
            UploadStage::Replacing,
            UploadActionView::Replace,
        ),
        (UploadStage::Replacing, UploadEvent::Done) => (
            UploadStage::Completing,
            UploadActionView::Complete,
        ),
        (UploadStage::Completing, UploadEvent::Done) => (
            UploadStage::Ended,
            UploadActionView::Succeed,
        ),
        (_, UploadEvent::Stopped) => (
            UploadStage::Ended,
            UploadActionView::Fail("conversion cancelled"@),
        ),
        (_, UploadEvent::Failed(e)) => (UploadStage::Ended, UploadActionView::Fail(e@)),
        _ => (UploadStage::Ended, UploadActionView::Fail(seq![])),
    }
}

/// The start of the upload of a result.
pub fn copy_spool_to_network() -> (r: (UploadStage, UploadAction))
    ensures
        r.0 == UploadStage::Opening,
        r.1 is Open,
{
    (UploadStage::Opening, UploadAction::Open)
}

/// What follows an action, from what it came to.
pub fn upload_step(stage: UploadStage, event: UploadEvent) -> (r: (UploadStage, UploadAction))
    requires
        can_come(stage, event),
    ensures
        (r.0, r.1@) == next_upload(stage, event),
{
    match (stage, event) {
        (UploadStage::Opening, UploadEvent::Opened(size)) => (
            UploadStage::Recording(size),
            UploadAction::Record,
        ),
        (UploadStage::Recording(size), UploadEvent::Done) => (
            UploadStage::Creating(size),
            UploadAction::Create,
        ),
        (UploadStage::Creating(size), UploadEvent::Done) => (
            UploadStage::Reading(size, 0),
            UploadAction::Read,
        ),
        (UploadStage::Reading(size, copied), UploadEvent::Got(piece)) => if piece == 0 {
            (UploadStage::Flushing, UploadAction::Flush)
        } else {
            (UploadStage::Writing(size, copied, piece), UploadAction::Write(piece))
        },
        (UploadStage::Writing(size, copied, piece), UploadEvent::Done) => {
            let now: u64 = copied.saturating_add(piece as u64);
            let ratio: u64 = copy_ratio(now, size);
            (UploadStage::Reading(size, now), UploadAction::ReadOn(ratio))
        },
        (UploadStage::Flushing, UploadEvent::Done) => (
            UploadStage::Replacing,
            UploadAction::Replace,
        ),
        (UploadStage::Replacing, UploadEvent::Done) => (
            UploadStage::Completing,
            UploadAction::Complete,
        ),
        (UploadStage::Completing, UploadEvent::Done) => (
            UploadStage::Ended,
            UploadAction::Succeed,
        ),
        (_, UploadEvent::Stopped) => (
            UploadStage::Ended,
            UploadAction::Fail("conversion cancelled".to_owned()),
        ),
        (_, UploadEvent::Failed(e)) => (UploadStage::Ended, UploadAction::Fail(e)),
        _ => (UploadStage::Ended, UploadAction::Fail(String::new())),
    }
}

// Whole runs -----------------------------------------------------------------

/// Where an upload is, and what is to be done next, once some things came of its
/// actions, in order.
pub open spec fn after_events(events: Seq<UploadEvent>) -> (UploadStage, UploadActionView)
    decreases events.len(),
{
    if events.len() == 0 {
        (UploadStage::Opening, UploadActionView::Open)
    } else {
        next_upload(after_events(events.drop_last()).0, events.last())
    }
}

/// Each event can come of the action before it.
pub open spec fn is_run(events: Seq<UploadEvent>) -> bool
    decreases events.len(),
{
    events.len() == 0 || (is_run(events.drop_last()) && can_come(
        after_events(events.drop_last()).0,
        events.last(),
    ))
}

/// What an action leaves on the network: from the making of the file on there may
/// be something.
pub open spec fn writes(action: UploadActionView) -> bool {
    action is Create || action is Write || action is Flush || action is Replace
}

/// What must have come in a run for it to be where it is.
spec fn has_come(events: Seq<UploadEvent>) -> bool {
    let (stage, action) = after_events(events);
    let n = events.len();
    &&& stage is Recording ==> n == 1
    &&& (stage !is Opening && stage !is Recording && action !is Fail) ==> n >= 2 && events[0]
        is Opened && events[1] is Done
    &&& (stage !is Ended || action is Succeed || action is Fail)
    &&& action is Open ==> stage is Opening
    &&& action is Record ==> stage is Recording
    &&& stage is Replacing ==> n >= 1 && events[n - 1] is Done
    &&& stage is Completing ==> n >= 2 && events[n - 1] is Done && events[n - 2] is Done
    &&& action is Succeed ==> n >= 3 && events[n - 1] is Done && events[n - 2] is Done && events[n
        - 3] is Done
}

proof fn lemma_has_come(events: Seq<UploadEvent>)
    requires
        is_run(events),
    ensures
        has_come(events),
    decreases events.len(),
{
    if events.len() > 0 {
        lemma_has_come(events.drop_last());
        assert(forall|i: int| 0 <= i < events.len() - 1 ==> events.drop_last()[i] == events[i]);
    }
}

/// Nothing is written on the network before the name that it is written under was
/// recorded.
pub proof fn nothing_is_written_unrecorded(events: Seq<UploadEvent>)
    requires
        is_run(events),
        writes(after_events(events).1),
    ensures
        events.len() >= 2,
        after_events(events.take(1)).1 is Record,
        events[1] is Done,
{
    lemma_has_come(events);
    assert(events.take(1).drop_last() =~= seq![]);
    assert(events.take(1).last() == events[0]);
    assert(after_events(events.take(1).drop_last()).0 == UploadStage::Opening);
}

/// An upload succeeds only once all was written out, put in its place, and
/// recorded as ended, in that order.
pub proof fn a_success_is_in_its_place(events: Seq<UploadEvent>)
    requires
        is_run(events),
        after_events(events).1 is Succeed,
    ensures
        ({
            let n = events.len();
            &&& n >= 3
            &&& after_events(events.take(n - 3)).1 is Flush
            &&& after_events(events.take(n - 2)).1 is Replace
            &&& after_events(events.take(n - 1)).1 is Complete
            &&& events[n - 3] is Done
            &&& events[n - 2] is Done
            &&& events[n - 1] is Done
        }),
{
    lemma_has_come(events);
    let n = events.len();
    let a = events.take(n - 1);
    let b = events.take(n - 2);
    let c = events.take(n - 3);
    assert(events.drop_last() =~= a);
    assert(a.drop_last() =~= b);
    assert(b.drop_last() =~= c);
    assert(a.last() == events[n - 2]);
    assert(b.last() == events[n - 3]);
    lemma_action_of_stage(a);
    lemma_action_of_stage(b);
    lemma_action_of_stage(c);
}

proof fn lemma_action_of_stage(events: Seq<UploadEvent>)
    ensures
        after_events(events).0 is Flushing ==> after_events(events).1 is Flush,
        after_events(events).0 is Replacing ==> after_events(events).1 is Replace,
        after_events(events).0 is Completing ==> after_events(events).1 is Complete,
{
}

/// Every piece of a result that is read is written, whole, and counted once it is,
/// until the result ends; where all of it is written, the upload has come all the
/// way.
pub proof fn every_piece_is_uploaded(size: u64, copied: u64, piece: usize)
    ensures
        piece > 0 ==> next_upload(UploadStage::Reading(size, copied), UploadEvent::Got(piece)) == (
            UploadStage::Writing(size, copied, piece),
            UploadActionView::Write(piece),
        ),
        copied + piece <= u64::MAX ==> next_upload(
            UploadStage::Writing(size, copied, piece),
            UploadEvent::Done,
        ).0 == UploadStage::Reading(size, (copied + piece) as u64),
        next_upload(UploadStage::Writing(size, copied, piece), UploadEvent::Done).1 is ReadOn,
        size > 0 && copied + piece == size ==> next_upload(
            UploadStage::Writing(size, copied, piece),
            UploadEvent::Done,
        ).1 == UploadActionView::ReadOn(crate::progress::WHOLE),
        next_upload(UploadStage::Reading(size, copied), UploadEvent::Got(0)).1 is Flush,
{
    if size > 0 {
        crate::progress::a_copy_comes_as_far_as_its_bytes(0, 0, size);
    }
}

/// A result that is in its place was read to its end before.
pub proof fn a_success_was_read_to_its_end(events: Seq<UploadEvent>)
    requires
        is_run(events),
        after_events(events).1 is Succeed,
    ensures
        events.len() >= 4,
        events[events.len() - 4] == UploadEvent::Got(0),
{
    a_success_is_in_its_place(events);
    let n = events.len();
    let flushing = events.take(n - 3);
    assert(after_events(flushing).1 is Flush);
    assert(flushing.len() > 0);
    assert(after_events(flushing) == next_upload(
        after_events(flushing.drop_last()).0,
        flushing.last(),
    ));
    assert(flushing.last() == events[n - 4]);
}

/// What the system says where it refuses is what is said of the upload, and an
/// upload that is stopped says so; neither leaves a result in its place.
pub proof fn a_refused_upload_gives_its_reason(stage: UploadStage, e: String)
    requires
        can_come(stage, UploadEvent::Failed(e)),
    ensures
        next_upload(stage, UploadEvent::Failed(e)) == (
            UploadStage::Ended,
            UploadActionView::Fail(e@),
        ),
        stage is Reading ==> next_upload(stage, UploadEvent::Stopped) == (
            UploadStage::Ended,
            UploadActionView::Fail("conversion cancelled"@),
        ),
{
}

} // verus!
