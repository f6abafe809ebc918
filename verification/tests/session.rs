use oto::process::ProcessTracker;
use oto::resources::{
    io_parallel, threads_per_job, Admission, ConversionResources, DynamicLimiter,
};
use oto::session::{
    admit_batch, cleanup_result, exit_step, BatchPlace, ExitStep, JobCancellation, SessionPause,
    SessionQueue, Turn,
};

#[test]
fn paused_session_accepts_work_but_does_not_release_it_until_resume() {
    let mut pause = SessionPause::new();
    let cancellation = JobCancellation::new();
    assert!(pause.set_paused(true));
    assert_eq!(pause.turn(&cancellation), Turn::Wait);
    assert!(!pause.set_paused(true));
    assert!(pause.set_paused(false));
    assert_eq!(pause.turn(&cancellation), Turn::Start);
}

#[test]
fn cancellation_releases_a_paused_batch_without_starting_it() {
    let mut pause = SessionPause::new();
    let mut cancellation = JobCancellation::new();
    pause.set_paused(true);
    assert!(cancellation.cancel());
    assert_eq!(pause.turn(&cancellation), Turn::GiveUp);
    assert!(!cancellation.cancel());
    assert!(cancellation.is_cancelled());
}

#[test]
fn lowering_parallel_limit_waits_for_running_work_to_drain() {
    let mut limiter = DynamicLimiter::new(2);
    assert_eq!(limiter.try_acquire(false), Admission::Start);
    assert_eq!(limiter.try_acquire(false), Admission::Start);
    limiter.set_limit(1);
    assert_eq!(limiter.try_acquire(false), Admission::Wait);
    limiter.release();
    assert_eq!(limiter.try_acquire(false), Admission::Wait);
    limiter.release();
    assert_eq!(limiter.try_acquire(false), Admission::Start);
}

#[test]
fn raising_parallel_limit_releases_waiting_work_immediately() {
    let mut limiter = DynamicLimiter::new(1);
    assert_eq!(limiter.try_acquire(false), Admission::Start);
    assert_eq!(limiter.try_acquire(false), Admission::Wait);
    limiter.set_limit(2);
    assert_eq!(limiter.try_acquire(false), Admission::Start);
    assert_eq!(limiter.try_acquire(true), Admission::GiveUp);
}

#[test]
fn resources_start_with_at_least_one() {
    let mut resources = ConversionResources::new(0);
    assert_eq!(resources.parallel(), 1);
    resources.update_parallel(6);
    assert_eq!(resources.parallel(), 6);
    assert_eq!(resources.cpu.limit, 6);
    assert_eq!(resources.probe_slots, 1);
    assert_eq!(io_parallel(true, 6), 1);
    assert_eq!(io_parallel(false, 6), 6);
    assert_eq!(threads_per_job(Some(8), 3), 2);
    assert_eq!(threads_per_job(None, 8), 1);
}

#[test]
fn registration_tracks_start_and_unregisters_on_drop() {
    let mut tracker = ProcessTracker::new();
    let mut registration = tracker.register(Some(42)).unwrap();
    assert_eq!(tracker.running, vec![42]);
    registration.exit(&mut tracker);
    assert!(tracker.running.is_empty());
    registration.exit(&mut tracker);
    assert!(tracker.running.is_empty());
    assert!(tracker.register(None).is_none());
}

#[test]
fn an_exit_leaves_the_other_processes() {
    let mut tracker = ProcessTracker::new();
    let mut first = tracker.register(Some(1)).unwrap();
    tracker.register(Some(2));
    tracker.register(Some(3));
    first.exit(&mut tracker);
    let mut left = tracker.running.clone();
    left.sort();
    assert_eq!(left, vec![2, 3]);
}

#[test]
fn batches_join_the_session_they_name() {
    let queue = Some(SessionQueue::new("one".to_string()));
    assert_eq!(admit_batch(&queue, false, false, "one", 9, 9), Ok(BatchPlace::Join));
    assert_eq!(
        admit_batch(&queue, false, false, "two", 0, 0).unwrap_err(),
        "The active conversion session ID does not match"
    );
    assert_eq!(
        admit_batch(&queue, true, false, "one", 0, 0).unwrap_err(),
        "The active conversion session is stopping"
    );
    assert_eq!(admit_batch(&None, false, false, "one", 0, 0), Ok(BatchPlace::Create));
    assert_eq!(
        admit_batch(&None, false, true, "one", 0, 0).unwrap_err(),
        "Previous conversion cleanup is still in progress"
    );
    assert_eq!(
        admit_batch(&None, false, false, "one", 0, 1).unwrap_err(),
        "Previous spool files could not yet be removed"
    );
}

#[test]
fn the_last_batch_completes_the_session() {
    let mut queue = SessionQueue::new("job".to_string());
    assert_eq!(queue.enqueue(), (1, 1, "job-1".to_string()));
    assert_eq!(queue.enqueue(), (2, 2, "job-2".to_string()));
    assert!(!queue.finish());
    assert!(!queue.may_complete(true));
    assert!(queue.finish());
    assert!(queue.may_complete(true));
    assert!(!queue.may_complete(false));
    assert_eq!(queue.enqueue().2, "job-3");
}

#[test]
fn stopping_waits_for_copies_to_be_removed() {
    assert!(cleanup_result(0, 0).is_ok());
    assert_eq!(
        cleanup_result(1, 0).unwrap_err(),
        "Some spool files are still waiting for recovery"
    );
    assert!(cleanup_result(0, 1).is_err());
}

#[test]
fn the_user_is_asked_before_a_session_is_left() {
    assert_eq!(exit_step(true, true), ExitStep::Leave);
    assert_eq!(exit_step(false, true), ExitStep::Ask);
    assert_eq!(exit_step(false, false), ExitStep::ShutDown);
}
