use oto::activity::{
    get_activity_data, mark_unfinished_logs_cancelled, Activity, ConvLogEntry, ConversionLog,
    LOG_CAPACITY,
};
use oto::progress::{
    copy_ratio, ffmpeg_stage_progress, input_preparation_progress, output_stage_progress,
    OverallProgress, ProgressPhase, FULL_PERCENT, WHOLE,
};
use std::collections::VecDeque;

const PERCENT: u64 = 1_000_000_000;

#[test]
fn artifact_stage_weights_cover_the_whole_pipeline_without_regression() {
    let checkpoints = [
        input_preparation_progress(0),
        input_preparation_progress(WHOLE),
        ffmpeg_stage_progress(0),
        ffmpeg_stage_progress(WHOLE / 2),
        ffmpeg_stage_progress(WHOLE),
        output_stage_progress(0),
        output_stage_progress(WHOLE / 2),
        output_stage_progress(WHOLE),
    ];
    assert_eq!(checkpoints[0], 0);
    assert_eq!(checkpoints[1], 100_000_000);
    assert_eq!(checkpoints[4], 900_000_000);
    assert_eq!(checkpoints[7], WHOLE);
    assert!(checkpoints.windows(2).all(|pair| pair[0] <= pair[1]));
    assert_eq!(checkpoints[3], 500_000_000);
    assert_eq!(checkpoints[6], 950_000_000);
}

#[test]
fn a_copy_of_nothing_is_complete() {
    assert_eq!(copy_ratio(0, 0), WHOLE);
    assert_eq!(copy_ratio(1, 4), WHOLE / 4);
}

#[test]
fn reopening_queueing_allows_dynamic_progress_to_move_backwards() {
    let mut progress = OverallProgress::default();
    progress.add_enumerated_inputs(1);
    let first = progress.register_input(1);
    progress.update(first, WHOLE, true);
    progress.finish_queueing();
    assert_eq!(progress.percent, FULL_PERCENT);

    progress.begin_queueing();
    progress.add_enumerated_inputs(1);
    assert_eq!(progress.percent, 50 * PERCENT);
}

#[test]
fn queueing_progress_recalculates_when_more_inputs_are_enumerated() {
    let mut progress = OverallProgress::default();
    progress.add_enumerated_inputs(10);
    for _ in 0..10 {
        progress.register_input(1);
    }
    for index in 0..9 {
        progress.update(index, WHOLE, true);
    }
    assert_eq!(progress.percent, 90 * PERCENT);

    progress.add_enumerated_inputs(10);
    assert_eq!(progress.percent, 45 * PERCENT);
}

#[test]
fn non_media_and_rejected_inputs_only_count_in_the_queueing_denominator() {
    let mut progress = OverallProgress::default();
    progress.add_enumerated_inputs(3);
    let index = progress.register_input(1);
    progress.update(index, WHOLE, true);

    assert_eq!(progress.completed_input_count, 1);
    assert!((progress.percent as f64 / PERCENT as f64 - 100.0 / 3.0).abs() < 0.000_001);

    progress.finish_queueing();
    assert_eq!(progress.percent, FULL_PERCENT);
    assert_eq!(progress.target_total, 1);
}

#[test]
fn an_input_with_multiple_artifacts_completes_only_after_all_are_terminal() {
    let mut progress = OverallProgress::default();
    progress.add_enumerated_inputs(1);
    let first = progress.register_input(2);

    progress.update(first, WHOLE, true);
    assert_eq!(progress.completed_count, 1);
    assert_eq!(progress.completed_input_count, 0);
    assert_eq!(progress.percent, 0);

    progress.update(first + 1, WHOLE, true);
    progress.update(first + 1, WHOLE, true);
    assert_eq!(progress.completed_count, 2);
    assert_eq!(progress.completed_input_count, 1);
    assert_eq!(progress.percent, 99 * PERCENT);
}

#[test]
fn artifact_partial_progress_does_not_affect_queueing_progress() {
    let mut progress = OverallProgress::default();
    progress.add_enumerated_inputs(1);
    let index = progress.register_input(1);
    progress.update(index, 980_000_000, false);

    assert_eq!(progress.percent, 0);
    assert_eq!(progress.artifact_progress[index], 980_000_000);
}

#[test]
fn switching_to_exact_progress_recalculates_then_remains_monotonic() {
    let mut progress = OverallProgress::default();
    progress.add_enumerated_inputs(2);
    let completed = progress.register_input(1);
    progress.update(completed, WHOLE, true);
    progress.register_input(9);
    assert_eq!(progress.percent, 50 * PERCENT);

    progress.finish_queueing();
    assert_eq!(progress.percent, 10 * PERCENT);
    progress.update(1, WHOLE / 2, false);
    assert_eq!(progress.percent, 15 * PERCENT);
    progress.update(1, WHOLE / 5, false);
    assert_eq!(progress.percent, 15 * PERCENT);
}

#[test]
fn queueing_progress_is_capped_until_the_job_finishes() {
    let mut progress = OverallProgress::default();
    progress.add_enumerated_inputs(1);
    let index = progress.register_input(1);
    progress.update(index, WHOLE, true);
    assert_eq!(progress.percent, 99 * PERCENT);

    progress.finish_job();
    assert_eq!(progress.percent, FULL_PERCENT);
    assert_eq!(progress.phase, ProgressPhase::Exact);
}

#[test]
fn finishing_a_job_makes_failed_or_unfinished_targets_terminal() {
    let mut progress = OverallProgress::default();
    progress.add_enumerated_inputs(1);
    progress.register_input(3);
    progress.update(0, WHOLE, true);
    progress.update(1, 400_000_000, false);
    progress.finish_job();

    assert_eq!(progress.completed_count, 3);
    assert_eq!(progress.target_total, 3);
    assert_eq!(progress.percent, FULL_PERCENT);
    assert!(progress.scan_complete);
    assert_eq!(progress.completed_input_count, 1);
    assert!(progress.artifact_terminal.iter().all(|terminal| *terminal));
}

#[test]
fn an_unknown_artifact_changes_nothing() {
    let mut progress = OverallProgress::default();
    progress.register_input(1);
    progress.update(5, WHOLE, true);
    assert_eq!(progress.completed_count, 0);
    progress.reset();
    assert_eq!(progress.target_total, 0);
}

#[test]
fn what_waits_is_what_is_neither_done_nor_active() {
    let mut progress = OverallProgress::default();
    progress.add_enumerated_inputs(5);
    progress.register_input(3);
    progress.update(0, WHOLE, true);
    assert_eq!(progress.waiting_count(1), 5);
    assert_eq!(progress.waiting_count(100), 0);
}

fn entry(seq: u64, ts_ms: u64, file_name: &str, status: &str, error: Option<&str>) -> ConvLogEntry {
    ConvLogEntry {
        seq,
        ts_ms,
        file_name: file_name.into(),
        status: status.into(),
        error: error.map(|e| e.to_string()),
    }
}

#[test]
fn cancelling_keeps_completed_log_entries_unchanged() {
    let mut log = VecDeque::from([
        entry(1, 0, "done.mp3", "processing", None),
        entry(2, 1, "done.mp3", "done", None),
        entry(3, 2, "failed.mp3", "processing", None),
        entry(4, 3, "failed.mp3", "error", Some("failed")),
        entry(5, 4, "running.mp3", "processing", None),
    ]);

    mark_unfinished_logs_cancelled(&mut log);

    assert_eq!(log[1].status, "done");
    assert_eq!(log[3].status, "error");
    assert_eq!(log[4].status, "cancelled");
    assert_eq!(log[0].status, "processing");
    assert_eq!(log[2].status, "processing");
}

#[test]
fn the_log_keeps_its_last_lines() {
    let mut log = ConversionLog::new();
    for i in 0..LOG_CAPACITY as u64 + 2 {
        log.push(i, "a.mp3".to_string(), "done", None);
    }
    assert_eq!(log.entries.len(), LOG_CAPACITY);
    assert_eq!(log.entries[0].seq, 3);
    assert_eq!(log.successful, LOG_CAPACITY + 2);
    let lines = log.lines_after(Some(LOG_CAPACITY as u64 + 1), Some(0));
    assert_eq!(lines.len(), 1);
    assert_eq!(log.lines_after(Some(5), None).len(), LOG_CAPACITY);
}

#[test]
fn a_changed_log_is_sent_anew() {
    let mut log = ConversionLog::new();
    log.push(1, "a.mp3".to_string(), "processing", None);
    log.push(2, "b.mp3".to_string(), "error", Some("no".to_string()));
    log.push(3, "c.mp3".to_string(), "skipped", None);
    assert_eq!((log.successful, log.failed, log.skipped), (0, 1, 1));
    assert!(!log.must_reset(Some(0)));
    log.cancel();
    assert!(log.must_reset(Some(0)));
    assert_eq!(log.entries[0].status, "cancelled");
    log.clear();
    assert!(log.entries.is_empty());
    assert_eq!(log.revision, 2);
    assert_eq!(log.sequence, 3);
}

#[test]
fn a_finished_artifact_leaves_the_active_work() {
    let mut activity = Activity::new();
    assert!(!activity.update_artifact_progress(0, "a.mp3", WHOLE, true));
    activity.is_converting = true;
    activity.scanning_batches = 1;
    assert!(activity.register_enumerated_inputs(1));
    assert!(!activity.register_enumerated_inputs(0));
    let first = activity.register_activity_input(1);
    activity.update_artifact_progress(first, "a.mp3", 2 * WHOLE, false);
    assert_eq!(activity.active.files, vec![("a.mp3".to_string(), WHOLE)]);
    assert_eq!(activity.active.artifacts, vec![first]);
    assert!(activity.finish_activity_queueing());
    assert!(activity.update_artifact_progress(first, "a.mp3", WHOLE, true));
    assert!(activity.active.files.is_empty());
    assert!(activity.active.artifacts.is_empty());
    let payload = activity.payload("job", "a.mp3").unwrap();
    assert_eq!(payload.percent, FULL_PERCENT);
    assert_eq!((payload.file_index, payload.file_count), (1, 1));
    activity.is_converting = false;
    assert!(activity.payload("job", "a.mp3").is_none());
}

#[test]
fn a_session_is_displayed_from_start_to_end() {
    let mut activity = Activity::new();
    let mut log = ConversionLog::new();
    log.push(0, "old.mp3".to_string(), "done", None);
    activity.begin_session();
    log.begin_session();
    activity.begin_batch();
    assert_eq!(activity.scanning_batches, 1);
    activity.register_enumerated_inputs(3);
    let first = activity.register_activity_input(2);
    log.push(1, "a.mp3".to_string(), "processing", None);
    activity.update_artifact_progress(first, "a.mp3", WHOLE / 4, false);
    let data = get_activity_data(&activity, &log, Some(1), Some(0));
    assert!(data.is_converting);
    assert!(!data.log_reset);
    assert_eq!(data.log.len(), 1);
    assert_eq!(data.log[0].file_name, "a.mp3");
    assert_eq!(data.log_cursor, 2);
    assert_eq!(data.active_files, vec![("a.mp3".to_string(), WHOLE / 4)]);
    assert_eq!((data.processing_count, data.waiting_count), (1, 3));
    assert_eq!(data.successful_count, 0);
    assert_eq!(data.phase, ProgressPhase::Queueing);
    let anew = get_activity_data(&activity, &log, Some(1), None);
    assert!(anew.log_reset);
    assert_eq!(anew.log.len(), 2);
    activity.end_session();
    let done = get_activity_data(&activity, &log, None, Some(0));
    assert!(!done.is_converting);
    assert_eq!(done.percent, FULL_PERCENT);
    assert_eq!(done.completed_count, 2);
    assert!(done.active_files.is_empty());
    assert_eq!(done.scanning_batch_count, 0);
}
