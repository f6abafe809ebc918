//! Making one result: from the turn of the work to what is reported of it.

use vstd::prelude::*;
use crate::outside::lossy_text;
use crate::path::plain;
use crate::path::FilePath;
use crate::path::PathView;
use crate::text::opt_text;
use crate::types::failed_result;
use crate::types::skipped_result;
use crate::types::FileResult;
use crate::types::ResultView;

verus! {

/// Where the work on a result is.
#[derive(Debug, Clone, Copy, PartialEq, Eq, Structural)]
pub enum TaskStep {
    /// It waits for its turn.
    Starting,
    /// A place for the result is looked for.
    Resolving,
    /// Room for a result that goes to the network is asked for.
    Reserving,
    /// It waits for its turn to convert.
    Ready,
    /// It waits until nothing else reads from the network.
    WaitingToRead,
    /// It waits until the processor is free.
    WaitingToConvert,
    Converting,
    /// It waits until nothing else is written to the network.
    WaitingToUpload,
    Uploading,
    Ended,
}

/// The work on one result.
#[derive(Debug)]
pub struct Task {
    pub input: FilePath,
    /// Whether the input is read where it is, on the network.
    pub direct: bool,
    pub step: TaskStep,
    /// The place of the result, once it is known.
    pub output: FilePath,
    /// Whether that place is on the network.
    pub on_network: bool,
}

/// What the work on a result is.
pub struct TaskView {
    pub input: PathView,
    pub direct: bool,
    pub step: TaskStep,
    pub output: PathView,
    pub on_network: bool,
}

impl View for Task {
    type V = TaskView;

    open spec fn view(&self) -> TaskView {
        TaskView {
            input: self.input.spelled(),
            direct: self.direct,
            step: self.step,
            output: self.output.spelled(),
            on_network: self.on_network,
        }
    }
}

/// What is to be done next.
#[derive(Debug)]
pub enum TaskAction {
    WaitForTurn,
    /// A place for the result is to be found.
    Resolve,
    /// Room for the result is to be reserved.
    Reserve,
    WaitToRead,
    WaitToConvert,
    Convert,
    WaitToUpload,
    Upload,
    /// Nothing is left to be done: that is the result, and where there is one, a
    /// line for the log. With a line in the log the artifact is at its end.
    Report(FileResult, Option<(String, Option<String>)>),
}

/// What an action is.
pub enum TaskActionView {
    WaitForTurn,
    Resolve,
    Reserve,
    WaitToRead,
    WaitToConvert,
    Convert,
    WaitToUpload,
    Upload,
    Report(ResultView, Option<(Seq<char>, Option<Seq<char>>)>),
}

impl View for TaskAction {
    type V = TaskActionView;

    open spec fn view(&self) -> TaskActionView {
        match self {
            TaskAction::WaitForTurn => TaskActionView::WaitForTurn,
            TaskAction::Resolve => TaskActionView::Resolve,
            TaskAction::Reserve => TaskActionView::Reserve,
            TaskAction::WaitToRead => TaskActionView::WaitToRead,
            TaskAction::WaitToConvert => TaskActionView::WaitToConvert,
            TaskAction::Convert => TaskActionView::Convert,
            TaskAction::WaitToUpload => TaskActionView::WaitToUpload,
            TaskAction::Upload => TaskActionView::Upload,
            TaskAction::Report(result, log) => TaskActionView::Report(
                result@,
                match log {
                    Some(line) => Some((line.0@, opt_text(line.1))),
                    None => None,
                },
            ),
        }
    }
}

/// What came of an action.
#[derive(Debug)]
pub enum TaskEvent {
    /// It is its turn.
    Granted,
    /// The session is being stopped.
    Cancelled,
    /// What it waited for does not work any more.
    Closed,
    /// A place for the result was found; whether it is on the network.
    Resolved(FilePath, bool),
    /// The place for the result is in use elsewhere.
    Busy,
    /// The result is not wanted.
    LeftOut,
    Done,
    Failed(String),
}

/// The action of a step can come to that.
pub open spec fn can_come(step: TaskStep, event: TaskEvent) -> bool {
    match step {
        TaskStep::Starting => event is Granted || event is Cancelled,
        TaskStep::Resolving => event is Resolved || event is Busy || event is LeftOut
            || event is Failed,
        TaskStep::Reserving => event is Granted || event is Failed,
        TaskStep::Ready => event is Granted || event is Cancelled,
        TaskStep::WaitingToRead => event is Granted || event is Closed || event is Cancelled,
        TaskStep::WaitingToConvert => event is Granted || event is Cancelled,
        TaskStep::Converting => event is Done || event is Failed,
        TaskStep::WaitingToUpload => event is Granted || event is Closed || event is Cancelled,
        TaskStep::Uploading => event is Done || event is Failed,
        TaskStep::Ended => false,
    }
}

pub open spec fn moved(task: TaskView, step: TaskStep) -> TaskView {
    TaskView { step, ..task }
}

/// The result for an input that did not get to be converted.
pub open spec fn lost(task: TaskView, error: Seq<char>) -> ResultView {
    failed_result(lossy_text(task.input.text), error)
}

/// The result of a conversion that was tried. The input is reported as it was
/// given, and the place of the result as it was found.
pub open spec fn tried(task: TaskView, error: Option<Seq<char>>) -> ResultView {
    ResultView {
        input_path: lossy_text(task.input.text),
        output_path: lossy_text(task.output.text),
        success: error is None,
        skipped: false,
        error,
    }
}

/// The end of a task that nothing is said of in the log.
pub open spec fn given_up(task: TaskView, error: Seq<char>) -> (TaskView, TaskActionView) {
    (moved(task, TaskStep::Ended), TaskActionView::Report(lost(task, error), None))
}

/// The end of a task before anything was converted.
pub open spec fn refused(task: TaskView, error: Seq<char>) -> (TaskView, TaskActionView) {
    (
        moved(task, TaskStep::Ended),
        TaskActionView::Report(lost(task, error), Some(("error"@, Some(error)))),
    )
}

/// The end of a task that converted.
pub open spec fn concluded(task: TaskView, error: Option<Seq<char>>) -> (TaskView, TaskActionView) {
    (
        moved(task, TaskStep::Ended),
        TaskActionView::Report(
            tried(task, error),
            Some(
                (
                    if error is None {
                        "done"@
                    } else {
                        "error"@
                    },
                    error,
                ),
            ),
        ),
    )
}

/// What follows an action, from what it came to.
pub open spec fn task_continued(task: TaskView, event: TaskEvent) -> (TaskView, TaskActionView) {
    match event {
        TaskEvent::Cancelled => given_up(task, "conversion cancelled"@),
        TaskEvent::Closed => given_up(
            task,
            if task.step == TaskStep::WaitingToRead {
                "network input worker closed"@
            } else {
                "network output worker closed"@
            },
        ),
        TaskEvent::Busy => (task, TaskActionView::Resolve),
        TaskEvent::LeftOut => (
            moved(task, TaskStep::Ended),
            TaskActionView::Report(
                skipped_result(lossy_text(task.input.text)),
                Some(("skipped"@, None)),
            ),
        ),
        TaskEvent::Resolved(output, on_network) => {
            let placed = TaskView { output: output.spelled(), on_network, ..task };
            if on_network {
                (moved(placed, TaskStep::Reserving), TaskActionView::Reserve)
            } else {
                (moved(placed, TaskStep::Ready), TaskActionView::WaitForTurn)
            }
        },
        TaskEvent::Failed(e) => if task.step == TaskStep::Resolving || task.step
            == TaskStep::Reserving {
            refused(task, e@)
        } else {
            concluded(task, Some(e@))
        },
        TaskEvent::Done => if task.step == TaskStep::Converting && task.on_network {
            (moved(task, TaskStep::WaitingToUpload), TaskActionView::WaitToUpload)
        } else {
            concluded(task, None)
        },
        TaskEvent::Granted => match task.step {
            TaskStep::Starting => (moved(task, TaskStep::Resolving), TaskActionView::Resolve),
            TaskStep::Reserving => (moved(task, TaskStep::Ready), TaskActionView::WaitForTurn),
            TaskStep::Ready => if task.direct {
                (moved(task, TaskStep::WaitingToRead), TaskActionView::WaitToRead)
            } else {
                (moved(task, TaskStep::WaitingToConvert), TaskActionView::WaitToConvert)
            },
            TaskStep::WaitingToRead => (
                moved(task, TaskStep::WaitingToConvert),
                TaskActionView::WaitToConvert,
            ),
            TaskStep::WaitingToConvert => (
                moved(task, TaskStep::Converting),
                TaskActionView::Convert,
            ),
            _ => (moved(task, TaskStep::Uploading), TaskActionView::Upload),
        },
    }
}

impl Task {
    /// The work on a result of an input.
    pub fn new(input: FilePath, direct: bool) -> (r: (Self, TaskAction))
        ensures
            r.0@ == fresh_task(input.spelled(), direct),
            r.1@ is WaitForTurn,
    {
        (
            Task {
                input,
                direct,
                step: TaskStep::Starting,
                output: FilePath::empty(),
                on_network: false,
            },
            TaskAction::WaitForTurn,
        )
    }

    fn give_up(&mut self, error: &str) -> (r: TaskAction)
        ensures
            (final(self)@, r@) == given_up(old(self)@, error@),
    {
        self.step = TaskStep::Ended;
        TaskAction::Report(FileResult::error(self.input.to_text(), error.to_owned()), None)
    }

    fn conclude(&mut self, error: Option<String>) -> (r: TaskAction)
        ensures
            (final(self)@, r@) == concluded(old(self)@, opt_text(error)),
    {
        self.step = TaskStep::Ended;
        let input_path: String = self.input.to_text();
        let output_path: String = self.output.to_text();
        match error {
            None => TaskAction::Report(
                FileResult { input_path, output_path, success: true, skipped: false, error: None },
                Some(("done".to_owned(), None)),
            ),
            Some(e) => {
                let line: Option<(String, Option<String>)> = Some(
                    ("error".to_owned(), Some(e.clone())),
                );
                TaskAction::Report(
                    FileResult {
                        input_path,
                        output_path,
                        success: false,
                        skipped: false,
                        error: Some(e),
                    },
                    line,
                )
            },
        }
    }

    fn go_on(&mut self) -> (r: TaskAction)
        requires
            can_come(old(self).step, TaskEvent::Granted),
        ensures
            (final(self)@, r@) == task_continued(old(self)@, TaskEvent::Granted),
    {
        match self.step {
            TaskStep::Starting => {
                self.step = TaskStep::Resolving;
                TaskAction::Resolve
            },
            TaskStep::Reserving => {
                self.step = TaskStep::Ready;
                TaskAction::WaitForTurn
            },
            TaskStep::Ready => {
                if self.direct {
                    self.step = TaskStep::WaitingToRead;
                    TaskAction::WaitToRead
                } else {
                    self.step = TaskStep::WaitingToConvert;
                    TaskAction::WaitToConvert
                }
            },
            TaskStep::WaitingToRead => {
                self.step = TaskStep::WaitingToConvert;
                TaskAction::WaitToConvert
            },
            TaskStep::WaitingToConvert => {
                self.step = TaskStep::Converting;
                TaskAction::Convert
            },
            _ => {
                self.step = TaskStep::Uploading;
                TaskAction::Upload
            },
        }
    }

    /// What follows an action, from what it came to.
    pub fn proceed(&mut self, event: TaskEvent) -> (r: TaskAction)
        requires
            can_come(old(self).step, event),
        ensures
            (final(self)@, r@) == task_continued(old(self)@, event),
    {
        match event {
            TaskEvent::Granted => self.go_on(),
            TaskEvent::Cancelled => self.give_up("conversion cancelled"),
            TaskEvent::Closed => {
                if self.step == TaskStep::WaitingToRead {
                    self.give_up("network input worker closed")
                } else {
                    self.give_up("network output worker closed")
                }
            },
            TaskEvent::Busy => TaskAction::Resolve,
            TaskEvent::LeftOut => {
                self.step = TaskStep::Ended;
                TaskAction::Report(
                    FileResult::skipped(self.input.to_text()),
                    Some(("skipped".to_owned(), None)),
                )
            },
            TaskEvent::Resolved(output, on_network) => {
                self.output = output;
                self.on_network = on_network;
                if on_network {
                    self.step = TaskStep::Reserving;
                    TaskAction::Reserve
                } else {
                    self.step = TaskStep::Ready;
                    TaskAction::WaitForTurn
                }
            },
            TaskEvent::Failed(e) => {
                if self.step == TaskStep::Resolving || self.step == TaskStep::Reserving {
                    self.step = TaskStep::Ended;
                    let line: Option<(String, Option<String>)> = Some(
                        ("error".to_owned(), Some(e.clone())),
                    );
                    TaskAction::Report(FileResult::error(self.input.to_text(), e), line)
                } else {
                    self.conclude(Some(e))
                }
            },
            TaskEvent::Done => {
                if self.step == TaskStep::Converting && self.on_network {
                    self.step = TaskStep::WaitingToUpload;
                    TaskAction::WaitToUpload
                } else {
                    self.conclude(None)
                }
            },
        }
    }
}

/// A task reports once, at its end, and on its own input.
pub proof fn a_task_reports_once(task: TaskView, event: TaskEvent)
    requires
        can_come(task.step, event),
    ensures
        ({
            let (after, action) = task_continued(task, event);
            &&& action is Report <==> after.step == TaskStep::Ended
            &&& action matches TaskActionView::Report(result, _) ==> result.input_path
                == lossy_text(task.input.text)
        }),
{
}

/// A task reports a success where its file was converted and, for a place on the
/// network, taken there; and nowhere else.
pub proof fn success_is_reported_of_a_written_file(task: TaskView, event: TaskEvent)
    requires
        can_come(task.step, event),
    ensures
        (task_continued(task, event).1 matches TaskActionView::Report(result, _)
            && result.success) <==> event is Done && (task.step == TaskStep::Uploading || (task.step
            == TaskStep::Converting && !task.on_network)),
{
}

/// How far a task is.
pub open spec fn step_rank(step: TaskStep) -> nat {
    match step {
        TaskStep::Starting => 0,
        TaskStep::Resolving => 1,
        TaskStep::Reserving => 2,
        TaskStep::Ready => 3,
        TaskStep::WaitingToRead => 4,
        TaskStep::WaitingToConvert => 5,
        TaskStep::Converting => 6,
        TaskStep::WaitingToUpload => 7,
        TaskStep::Uploading => 8,
        TaskStep::Ended => 9,
    }
}

/// A task never goes back, and stays where it is only as long as its place is in
/// use elsewhere.
pub proof fn a_task_moves_on(task: TaskView, event: TaskEvent)
    requires
        can_come(task.step, event),
    ensures
        event is Busy || step_rank(task_continued(task, event).0.step) > step_rank(task.step),
{
}

/// A file is converted only once its place is reserved where that is on the
/// network, and once nothing else reads from there where it is read directly.
pub proof fn no_step_is_left_out(task: TaskView, event: TaskEvent)
    requires
        can_come(task.step, event),
    ensures
        ({
            let after = task_continued(task, event).0;
            &&& after.step == TaskStep::Ready && after.on_network ==> task.step
                == TaskStep::Reserving
            &&& after.step == TaskStep::WaitingToConvert && after.direct ==> task.step
                == TaskStep::WaitingToRead
            &&& after.step == TaskStep::Converting ==> task.step == TaskStep::WaitingToConvert
            &&& after.step == TaskStep::Uploading ==> task.step == TaskStep::WaitingToUpload
        }),
{
}

// Whole runs -----------------------------------------------------------------

/// A task before anything came of it.
pub open spec fn fresh_task(input: PathView, direct: bool) -> TaskView {
    TaskView { input, direct, step: TaskStep::Starting, output: plain(seq![]), on_network: false }
}

/// A task once some things came of its actions, in order.
pub open spec fn after_events(task: TaskView, events: Seq<TaskEvent>) -> TaskView
    decreases events.len(),
{
    if events.len() == 0 {
        task
    } else {
        task_continued(after_events(task, events.drop_last()), events.last()).0
    }
}

/// Each event can come of the action before it.
pub open spec fn is_run(task: TaskView, events: Seq<TaskEvent>) -> bool
    decreases events.len(),
{
    events.len() == 0 || (is_run(task, events.drop_last()) && can_come(
        after_events(task, events.drop_last()).step,
        events.last(),
    ))
}

/// The action of a step went well in a run.
pub open spec fn passed(task: TaskView, events: Seq<TaskEvent>, step: TaskStep) -> bool
    decreases events.len(),
{
    events.len() > 0 && (passed(task, events.drop_last(), step) || (after_events(
        task,
        events.drop_last(),
    ).step == step && (events.last() is Granted || events.last() is Done)))
}

/// What a run must have passed to be where it is.
spec fn has_passed_before(task: TaskView, events: Seq<TaskEvent>) -> bool {
    let now = after_events(task, events);
    let rank = step_rank(now.step);
    &&& now.step == TaskStep::Ended || {
        &&& now.input == task.input
        &&& now.direct == task.direct
        &&& rank >= 3 && now.on_network ==> passed(task, events, TaskStep::Reserving)
        &&& rank >= 5 && now.direct ==> passed(task, events, TaskStep::WaitingToRead)
        &&& rank >= 6 ==> passed(task, events, TaskStep::WaitingToConvert)
        &&& rank >= 7 ==> passed(task, events, TaskStep::Converting)
        &&& rank >= 8 ==> passed(task, events, TaskStep::WaitingToUpload)
    }
}

proof fn lemma_has_passed_before(input: PathView, direct: bool, events: Seq<TaskEvent>)
    requires
        is_run(fresh_task(input, direct), events),
    ensures
        has_passed_before(fresh_task(input, direct), events),
    decreases events.len(),
{
    if events.len() > 0 {
        lemma_has_passed_before(input, direct, events.drop_last());
    }
}

/// A run that reports a success has converted the file, when the processor was
/// free; where the place is on the network it had room and was taken there when
/// nothing else was, and where the input is read directly nothing else read.
pub proof fn a_success_left_nothing_out(
    input: PathView,
    direct: bool,
    events: Seq<TaskEvent>,
    last: TaskEvent,
)
    requires
        is_run(fresh_task(input, direct), events.push(last)),
        task_continued(after_events(fresh_task(input, direct), events), last).1 matches TaskActionView::Report(
            result,
            _,
        ) && result.success,
    ensures
        ({
            let task = fresh_task(input, direct);
            let all = events.push(last);
            let on_network = after_events(task, events).on_network;
            &&& passed(task, all, TaskStep::WaitingToConvert)
            &&& passed(task, all, TaskStep::Converting)
            &&& direct ==> passed(task, all, TaskStep::WaitingToRead)
            &&& on_network ==> passed(task, all, TaskStep::Reserving)
            &&& on_network ==> passed(task, all, TaskStep::WaitingToUpload)
            &&& on_network ==> passed(task, all, TaskStep::Uploading)
        }),
{
    let all = events.push(last);
    assert(all.drop_last() =~= events);
    lemma_has_passed_before(input, direct, events);
}

/// What a task reports is what came of it: the reason where something failed, that
/// it was stopped where it was, that it was left out where the user wanted that;
/// and the place of the result, as it was found, wherever there was one to write.
pub proof fn a_report_says_what_came_of_it(task: TaskView, event: TaskEvent)
    requires
        can_come(task.step, event),
        task_continued(task, event).1 is Report,
    ensures
        ({
            let result = task_continued(task, event).1->Report_0;
            let log = task_continued(task, event).1->Report_1;
            &&& result.input_path == lossy_text(task.input.text)
            &&& event matches TaskEvent::Failed(e) ==> !result.success && !result.skipped
                && result.error == Some(e@) && log == Some(("error"@, Some(e@)))
            &&& event is LeftOut ==> result.skipped && !result.success && result.error is None
                && log == Some(("skipped"@, None::<Seq<char>>))
            &&& event is Done ==> result.success && !result.skipped && result.error is None
                && result.output_path == lossy_text(task.output.text) && log == Some(
                ("done"@, None::<Seq<char>>),
            )
            &&& event is Cancelled ==> !result.success && !result.skipped && result.error == Some(
                "conversion cancelled"@,
            )
            &&& event is Closed ==> !result.success && !result.skipped && result.error is Some
        }),
{
}

/// A task remembers the place that was found for its result, and whether that is
/// on the network; it reserves room there first where it is, and where it is not
/// waits for its turn at once. Nothing else that comes changes the place.
pub proof fn the_place_is_remembered(task: TaskView, output: FilePath, on_network: bool, event: TaskEvent)
    requires
        task.step == TaskStep::Resolving,
        !(event is Resolved),
    ensures
        ({
            let (now, action) = task_continued(task, TaskEvent::Resolved(output, on_network));
            &&& now.output == output.spelled() && now.on_network == on_network
            &&& now.input == task.input && now.direct == task.direct
            &&& on_network ==> action is Reserve
            &&& !on_network ==> action is WaitForTurn
        }),
        task_continued(task, event).0.output == task.output,
        task_continued(task, event).0.on_network == task.on_network,
{
}

/// A new task has everything before it: it waits for its turn, for the input that
/// it was made for, and nothing is known of the place of its result.
pub proof fn a_new_task_is_at_its_start(input: PathView, direct: bool)
    ensures
        ({
            let task = fresh_task(input, direct);
            &&& task.input == input && task.direct == direct
            &&& task.step == TaskStep::Starting
            &&& task.output.parts.len() == 0 && !task.on_network
        }),
{
}

} // verus!
