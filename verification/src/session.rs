//! A session: who may join it, its batches, and stopping and pausing it.

use vstd::prelude::*;
use crate::text::decimal;
use crate::text::decimal_text;
use crate::text::text_eq;

verus! {

/// Whether a session is being stopped. Once it is, it stays so.
#[derive(Debug)]
pub struct JobCancellation {
    pub cancelled: bool,
}

impl JobCancellation {
    pub fn new() -> (r: Self)
        ensures
            !r.cancelled,
    {
        JobCancellation { cancelled: false }
    }

    pub fn is_cancelled(&self) -> (r: bool)
        ensures
            r == self.cancelled,
    {
        self.cancelled
    }

    /// Stops the session; returns whether those who wait for that are to be
    /// woken, which is the first time only.
    pub fn cancel(&mut self) -> (wake: bool)
        ensures
            final(self).cancelled,
            wake == !old(self).cancelled,
    {
        let wake: bool = !self.cancelled;
        self.cancelled = true;
        wake
    }
}

impl Default for JobCancellation {
    fn default() -> (r: Self)
        ensures
            !r.cancelled,
    {
        JobCancellation::new()
    }
}

/// Whether a session is held.
#[derive(Debug)]
pub struct SessionPause {
    pub paused: bool,
}

/// What work that is about to start does.
#[derive(Debug, Clone, Copy, PartialEq, Eq, Structural)]
pub enum Turn {
    Start,
    Wait,
    GiveUp,
}

impl SessionPause {
    pub fn new() -> (r: Self)
        ensures
            !r.paused,
    {
        SessionPause { paused: false }
    }

    /// Holds the session or lets it go on; returns whether that is a change.
    pub fn set_paused(&mut self, paused: bool) -> (changed: bool)
        ensures
            final(self).paused == paused,
            changed == (old(self).paused != paused),
    {
        let changed: bool = self.paused != paused;
        self.paused = paused;
        changed
    }

    /// What work that is about to start does: it gives up where the session is
    /// being stopped, and waits as long as the session is held.
    pub fn turn(&self, cancellation: &JobCancellation) -> (r: Turn)
        ensures
            r == (if cancellation.cancelled {
                Turn::GiveUp
            } else if self.paused {
                Turn::Wait
            } else {
                Turn::Start
            }),
    {
        if cancellation.is_cancelled() {
            Turn::GiveUp
        } else if self.paused {
            Turn::Wait
        } else {
            Turn::Start
        }
    }
}

// Batches --------------------------------------------------------------------

/// The batches of a session.
#[derive(Debug)]
pub struct SessionQueue {
    pub id: String,
    /// The number of the last batch that was asked for.
    pub next_batch: u64,
    /// How many batches have not ended yet.
    pub pending: usize,
}

/// What the batches of a session are.
pub struct QueueView {
    pub id: Seq<char>,
    pub next_batch: u64,
    pub pending: usize,
}

impl View for SessionQueue {
    type V = QueueView;

    open spec fn view(&self) -> QueueView {
        QueueView { id: self.id@, next_batch: self.next_batch, pending: self.pending }
    }
}

/// Where a batch goes.
#[derive(Debug, Clone, Copy, PartialEq, Eq, Structural)]
pub enum BatchPlace {
    /// Into the session that is running.
    Join,
    /// Into a new session.
    Create,
}

/// Where a batch goes, or why it is refused.
pub open spec fn admitted(
    active: Option<Seq<char>>,
    stopping: bool,
    cleaning: bool,
    job_id: Seq<char>,
    spooled: bool,
) -> Result<BatchPlace, Seq<char>> {
    match active {
        Some(id) => if cleaning || stopping {
            Err("The active conversion session is stopping"@)
        } else if id != job_id {
            Err("The active conversion session ID does not match"@)
        } else {
            Ok(BatchPlace::Join)
        },
        None => if cleaning {
            Err("Previous conversion cleanup is still in progress"@)
        } else if spooled {
            Err("Previous spool files could not yet be removed"@)
        } else {
            Ok(BatchPlace::Create)
        },
    }
}

/// Where a batch goes, or why it is refused. `stopping` says of the session that
/// is running that it is being stopped, `cleaning` that an earlier one is still
/// being cleaned up; the last two say how much room copies still take.
pub fn admit_batch(
    active: &Option<SessionQueue>,
    stopping: bool,
    cleaning: bool,
    job_id: &str,
    input_used: usize,
    output_used: usize,
) -> (r: Result<BatchPlace, String>)
    ensures
        ({
            let id: Option<Seq<char>> = match active {
                Some(queue) => Some(queue@.id),
                None => None,
            };
            let spooled = input_used != 0 || output_used != 0;
            match r {
                Ok(place) => admitted(id, stopping, cleaning, job_id@, spooled) == Ok::<
                    BatchPlace,
                    Seq<char>,
                >(place),
                Err(e) => admitted(id, stopping, cleaning, job_id@, spooled) == Err::<
                    BatchPlace,
                    Seq<char>,
                >(e@),
            }
        }),
{
    match active {
        Some(queue) => {
            if cleaning || stopping {
                Err("The active conversion session is stopping".to_owned())
            } else if !text_eq(queue.id.as_str(), job_id) {
                Err("The active conversion session ID does not match".to_owned())
            } else {
                Ok(BatchPlace::Join)
            }
        },
        None => {
            if cleaning {
                Err("Previous conversion cleanup is still in progress".to_owned())
            } else if input_used != 0 || output_used != 0 {
                Err("Previous spool files could not yet be removed".to_owned())
            } else {
                Ok(BatchPlace::Create)
            }
        },
    }
}

/// The name of a batch.
pub open spec fn batch_name(id: Seq<char>, order: u64) -> Seq<char> {
    id + "-"@ + decimal(order as nat)
}

impl SessionQueue {
    /// A session without batches.
    pub fn new(id: String) -> (r: Self)
        ensures
            r@ == (QueueView { id: id@, next_batch: 0, pending: 0 }),
    {
        SessionQueue { id, next_batch: 0, pending: 0 }
    }

    /// Adds a batch; returns its number, how many batches have not ended, and the
    /// name of the batch.
    pub fn enqueue(&mut self) -> (r: (u64, usize, String))
        requires
            old(self).next_batch < u64::MAX,
            old(self).pending < usize::MAX,
        ensures
            final(self)@ == (QueueView {
                next_batch: (old(self)@.next_batch + 1) as u64,
                pending: (old(self)@.pending + 1) as usize,
                ..old(self)@
            }),
            r.0 == final(self).next_batch,
            r.1 == final(self).pending,
            r.2@ == batch_name(old(self)@.id, r.0),
    {
        self.next_batch = self.next_batch + 1;
        self.pending = self.pending + 1;
        let mut name: String = self.id.clone();
        name.append("-");
        name.append(decimal_text(self.next_batch).as_str());
        (self.next_batch, self.pending, name)
    }

    /// A batch ended; returns whether none is left.
    pub fn finish(&mut self) -> (r: bool)
        requires
            old(self).pending > 0,
        ensures
            final(self)@ == (QueueView { pending: (old(self)@.pending - 1) as usize, ..old(self)@ }),
            r == (final(self).pending == 0),
    {
        self.pending = self.pending - 1;
        self.pending == 0
    }

    /// Whether the session is to be completed by the batch that ended: it is still
    /// the one that is running, and no batch was added in the meantime.
    pub fn may_complete(&self, is_current: bool) -> (r: bool)
        ensures
            r == (is_current && self@.pending == 0),
    {
        is_current && self.pending == 0
    }
}

proof fn lemma_decimal_injective(a: nat, b: nat)
    requires
        decimal(a) == decimal(b),
    ensures
        a == b,
    decreases a,
{
    let s = decimal(a);
    let t = decimal(b);
    assert(s.last() == t.last());
    assert(s.drop_last() == t.drop_last());
    if a >= 10 {
        assert(s.drop_last() =~= decimal(a / 10));
        assert(decimal(a / 10).len() > 0);
        assert(b >= 10);
        assert(t.drop_last() =~= decimal(b / 10));
        lemma_decimal_injective(a / 10, b / 10);
    } else if b >= 10 {
        assert(t.drop_last() =~= decimal(b / 10));
        assert(decimal(b / 10).len() > 0);
    }
}

/// Batches of a session have different names.
pub proof fn batch_names_differ(id: Seq<char>, a: u64, b: u64)
    requires
        a != b,
    ensures
        batch_name(id, a) != batch_name(id, b),
{
    if batch_name(id, a) == batch_name(id, b) {
        let start = id + "-"@;
        assert(batch_name(id, a).skip(start.len() as int) =~= decimal(a as nat));
        assert(batch_name(id, b).skip(start.len() as int) =~= decimal(b as nat));
        lemma_decimal_injective(a as nat, b as nat);
    }
}

// Stopping -------------------------------------------------------------------

/// What stopping a session comes to: an error where copies are still to be
/// removed.
pub fn cleanup_result(input_used: usize, output_used: usize) -> (r: Result<(), String>)
    ensures
        match r {
            Ok(_) => input_used == 0 && output_used == 0,
            Err(e) => (input_used != 0 || output_used != 0) && e@
                == "Some spool files are still waiting for recovery"@,
        },
{
    if input_used == 0 && output_used == 0 {
        Ok(())
    } else {
        Err("Some spool files are still waiting for recovery".to_owned())
    }
}

/// What a wish to leave the program leads to.
#[derive(Debug, Clone, Copy, PartialEq, Eq, Structural)]
pub enum ExitStep {
    /// The program ends.
    Leave,
    /// The user is asked, as a session is running.
    Ask,
    /// The program is shut down, and ends then.
    ShutDown,
}

/// What a wish to leave the program leads to.
pub fn exit_step(exiting: bool, converting: bool) -> (r: ExitStep)
    ensures
        r == (if exiting {
            ExitStep::Leave
        } else if converting {
            ExitStep::Ask
        } else {
            ExitStep::ShutDown
        }),
{
    if exiting {
        ExitStep::Leave
    } else if converting {
        ExitStep::Ask
    } else {
        ExitStep::ShutDown
    }
}

/// A batch joins the session that is running where it was meant for it and that is
/// not being stopped; it makes a new one where none is running and nothing is left
/// of an earlier one; in any other case it is refused.
pub proof fn a_batch_is_admitted_where_it_belongs(
    active: Option<Seq<char>>,
    stopping: bool,
    cleaning: bool,
    job_id: Seq<char>,
    spooled: bool,
)
    ensures
        ({
            let place = admitted(active, stopping, cleaning, job_id, spooled);
            &&& place == Ok::<BatchPlace, Seq<char>>(BatchPlace::Join) <==> active == Some(job_id)
                && !stopping && !cleaning
            &&& place == Ok::<BatchPlace, Seq<char>>(BatchPlace::Create) <==> active is None
                && !cleaning && !spooled
            &&& active is Some && (cleaning || stopping) ==> place == Err::<BatchPlace, Seq<char>>(
                "The active conversion session is stopping"@,
            )
            &&& active is None && cleaning ==> place == Err::<BatchPlace, Seq<char>>(
                "Previous conversion cleanup is still in progress"@,
            )
        }),
{
}

/// A batch is named by its session and its number.
pub proof fn a_batch_is_named_by_its_number(id: Seq<char>, order: u64)
    ensures
        batch_name(id, order) == id.push('-') + decimal(order as nat),
{
    reveal_strlit("-");
    assert(batch_name(id, order) =~= id.push('-') + decimal(order as nat));
}

} // verus!
