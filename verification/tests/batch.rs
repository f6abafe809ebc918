use oto::batch::{
    artifact_count, base_dir, display_name, effective_format, plan_artifacts, plan_input, Batch,
    BatchOutcome, InputPlan, Probe,
};
use oto::network::INPUT_SPOOL_TARGET_BYTES;
use oto::path::FilePath;
use oto::settings::{OutputDest, Settings, SourceFileAction};
use oto::summary::{complete_session, profiles_match, sources_to_delete, SourceUse};
use oto::task::{Task, TaskAction, TaskEvent, TaskStep};
use oto::types::{AudioTrack, FileInfo, FileResult};

fn path(s: &str) -> FilePath {
    FilePath::parse(s)
}

fn info(has_media: bool, is_lossless: bool) -> FileInfo {
    FileInfo {
        duration_us: 1_000_000,
        tags: Vec::new(),
        bits_per_sample: 16,
        cover_art_stream_idx: None,
        has_media,
        is_lossless,
        bit_rate_bps: 128_000,
        audio_tracks: Vec::new(),
    }
}

#[test]
fn decoding_is_to_wav_or_aiff() {
    assert_eq!(effective_format("decode", "aiff"), "aiff");
    assert_eq!(effective_format("decode", "mp3"), "wav");
    assert_eq!(effective_format("encode", "mp3"), "mp3");
}

#[test]
fn folders_are_counted_from_what_was_dropped() {
    let mut settings = Settings::default();
    let paths = vec![path("/music/a"), path("/music/b/c")];
    settings.preserve_folder_structure = true;
    assert_eq!(base_dir(&settings, &paths), None);
    settings.output_dest = OutputDest::Custom;
    assert_eq!(base_dir(&settings, &paths), Some(path("/music")));
    settings.preserve_folder_structure = false;
    assert_eq!(base_dir(&settings, &paths), None);
}

#[test]
fn no_file_of_a_group_is_forgotten() {
    let mut batch = Batch::new();
    let probes: Vec<(FilePath, Probe)> = vec![
        (path("/m//a.mp3"), Ok(info(true, false))),
        (path("/m/a.flac"), Ok(info(true, true))),
        (path("/m/a.txt"), Ok(info(false, false))),
        (path("/m/a.bad"), Err("broken".to_string())),
    ];
    let best = batch.take_group(probes).unwrap();
    assert_eq!(best.0, path("/m/a.flac"));
    assert_eq!(batch.rejected.len(), 1);
    assert_eq!(batch.rejected[0].input_path, "/m//a.mp3");
    assert!(batch.rejected[0].skipped);
    assert_eq!(batch.non_media.len(), 2);
    assert!(batch.non_media[0].skipped);
    assert_eq!(batch.non_media[1].error.as_deref(), Some("broken"));
    assert!(batch.take_group(vec![(path("/m/x"), Ok(info(false, false)))]).is_none());
}

#[test]
fn outcomes_stand_in_order() {
    let mut batch = Batch::new();
    assert_eq!(batch.scan_failed(&path("/lost/x"), "gone"), "x");
    assert_eq!(batch.scan_failed(&path("//"), "gone"), "//");
    batch.input_failed(&path("/m/a"), "unreadable", 3, false);
    batch.input_failed(&path("/m/b"), "full", 2, true);
    batch.finished(FileResult::skipped("/m/c".to_string()));
    batch.take_group(vec![(path("/m/x"), Ok(info(false, false)))]);
    let outcome =
        batch.into_outcome(Settings::default(), "encode".to_string(), "mp3".to_string(), 4);
    let inputs: Vec<&str> = outcome.results.iter().map(|r| r.input_path.as_str()).collect();
    assert_eq!(inputs, ["/lost/x", "//", "/m/a", "/m/b", "/m/b", "/m/x", "/m/c"]);
    assert_eq!(outcome.batch_order, 4);
    assert_eq!(outcome.results[3].error.as_deref(), Some("full"));
}

#[test]
fn every_track_becomes_a_result() {
    let mut settings = Settings::default();
    let mut movie = info(true, false);
    for i in 0..2 {
        movie.audio_tracks.push(AudioTrack {
            stream_index: i + 1,
            language: Some(["jpn", "eng"][i].to_string()),
            handler_name: None,
        });
    }
    let input = path("/v/movie.mp4");
    assert_eq!(artifact_count(&settings, &movie), 1);
    let plain = plan_artifacts(&input, &movie, &settings, 5);
    assert_eq!(plain.len(), 1);
    assert_eq!((plain[0].index, plain[0].stream), (5, None));
    assert_eq!(plain[0].display, "movie.mp4");
    settings.export_all_audio_tracks = true;
    assert_eq!(artifact_count(&settings, &movie), 2);
    let tracks = plan_artifacts(&input, &movie, &settings, 5);
    assert_eq!((tracks[1].index, tracks[1].stream), (6, Some(2)));
    assert_eq!(tracks[0].stem.as_deref(), Some("movie (jpn)"));
    assert_eq!(tracks[1].display, "movie (eng)");
    assert_eq!(display_name(&path("/")), "");
}

#[test]
fn inputs_are_copied_as_long_as_they_are_small() {
    let limit = INPUT_SPOOL_TARGET_BYTES as u64;
    assert_eq!(plan_input(false, limit + 1), InputPlan::Local);
    assert_eq!(plan_input(true, limit), InputPlan::Copy);
    assert_eq!(plan_input(true, limit + 1), InputPlan::Direct);
}

fn report(action: TaskAction) -> (FileResult, Option<(String, Option<String>)>) {
    match action {
        TaskAction::Report(result, log) => (result, log),
        other => panic!("{other:?}"),
    }
}

#[test]
fn a_local_result_is_made() {
    let (mut task, first) = Task::new(path("/in/a.wav"), false);
    assert!(matches!(first, TaskAction::WaitForTurn));
    assert!(matches!(task.proceed(TaskEvent::Granted), TaskAction::Resolve));
    assert!(matches!(task.proceed(TaskEvent::Busy), TaskAction::Resolve));
    let resolved = TaskEvent::Resolved(path("/out/a.mp3"), false);
    assert!(matches!(task.proceed(resolved), TaskAction::WaitForTurn));
    assert!(matches!(task.proceed(TaskEvent::Granted), TaskAction::WaitToConvert));
    assert!(matches!(task.proceed(TaskEvent::Granted), TaskAction::Convert));
    let (result, log) = report(task.proceed(TaskEvent::Done));
    assert!(result.success);
    assert_eq!(result.input_path, "/in/a.wav");
    assert_eq!(result.output_path, "/out/a.mp3");
    assert_eq!(log, Some(("done".to_string(), None)));
    assert_eq!(task.step, TaskStep::Ended);
}

#[test]
fn a_result_for_the_network_is_uploaded() {
    let (mut task, _) = Task::new(path("/nas/a.wav"), true);
    task.proceed(TaskEvent::Granted);
    let resolved = TaskEvent::Resolved(path("/nas/a.mp3"), true);
    assert!(matches!(task.proceed(resolved), TaskAction::Reserve));
    assert!(matches!(task.proceed(TaskEvent::Granted), TaskAction::WaitForTurn));
    assert!(matches!(task.proceed(TaskEvent::Granted), TaskAction::WaitToRead));
    assert!(matches!(task.proceed(TaskEvent::Granted), TaskAction::WaitToConvert));
    assert!(matches!(task.proceed(TaskEvent::Granted), TaskAction::Convert));
    assert!(matches!(task.proceed(TaskEvent::Done), TaskAction::WaitToUpload));
    assert!(matches!(task.proceed(TaskEvent::Granted), TaskAction::Upload));
    let (result, log) = report(task.proceed(TaskEvent::Failed("unplugged".to_string())));
    assert!(!result.success);
    assert_eq!(result.output_path, "/nas/a.mp3");
    assert_eq!(log, Some(("error".to_string(), Some("unplugged".to_string()))));
}

#[test]
fn tasks_end_early_for_a_reason() {
    let (mut task, _) = Task::new(path("/a"), false);
    let (result, log) = report(task.proceed(TaskEvent::Cancelled));
    assert_eq!(result.error.as_deref(), Some("conversion cancelled"));
    assert_eq!(log, None);

    let (mut task, _) = Task::new(path("/a"), false);
    task.proceed(TaskEvent::Granted);
    let (result, log) = report(task.proceed(TaskEvent::LeftOut));
    assert!(result.skipped);
    assert_eq!(log, Some(("skipped".to_string(), None)));

    let (mut task, _) = Task::new(path("/a"), false);
    task.proceed(TaskEvent::Granted);
    let (result, log) = report(task.proceed(TaskEvent::Failed("no parent dir".to_string())));
    assert_eq!(result.output_path, "");
    assert_eq!(log.unwrap().1.as_deref(), Some("no parent dir"));

    let (mut task, _) = Task::new(path("/a"), true);
    task.proceed(TaskEvent::Granted);
    task.proceed(TaskEvent::Resolved(path("/b"), false));
    task.proceed(TaskEvent::Granted);
    let (result, _) = report(task.proceed(TaskEvent::Closed));
    assert_eq!(result.error.as_deref(), Some("network input worker closed"));

    let (mut task, _) = Task::new(path("/a"), false);
    task.proceed(TaskEvent::Granted);
    task.proceed(TaskEvent::Resolved(path("/b"), true));
    for _ in 0..3 {
        task.proceed(TaskEvent::Granted);
    }
    task.proceed(TaskEvent::Done);
    let (result, _) = report(task.proceed(TaskEvent::Closed));
    assert_eq!(result.error.as_deref(), Some("network output worker closed"));
}

fn successful_outcome(input: &str, output: &str, action: SourceFileAction, order: u64) -> BatchOutcome {
    let mut settings = Settings::default();
    settings.source_file_action = action;
    BatchOutcome {
        results: vec![FileResult {
            input_path: input.to_string(),
            output_path: output.to_string(),
            success: true,
            skipped: false,
            error: None,
        }],
        settings,
        mode: "encode".into(),
        format: "mp3".into(),
        batch_order: order,
    }
}

fn uses(outcomes: &[BatchOutcome]) -> Vec<SourceUse> {
    let mut all = Vec::new();
    for outcome in outcomes {
        for result in &outcome.results {
            let input = path(&result.input_path);
            let output = path(&result.output_path);
            all.push(SourceUse::new(
                result,
                outcome.settings.source_file_action,
                input.clone(),
                Some(input),
                Some(output),
            ));
        }
    }
    all
}

#[test]
fn source_keep_wins_across_the_whole_session() {
    let outcomes = [
        successful_outcome("/d/source.wav", "/d/source.mp3", SourceFileAction::Delete, 1),
        successful_outcome("/d/source.wav", "/d/source_1.mp3", SourceFileAction::Keep, 2),
    ];
    assert!(sources_to_delete(&uses(&outcomes), false).is_empty());
}

#[test]
fn source_delete_is_deferred_until_all_session_references_succeed() {
    let mut outcomes = [successful_outcome(
        "/d/source.wav",
        "/d/source.mp3",
        SourceFileAction::Delete,
        1,
    )];
    assert_eq!(sources_to_delete(&uses(&outcomes), false), vec![path("/d/source.wav")]);
    outcomes[0]
        .results
        .push(FileResult::error("/d/source.wav".to_string(), "failed".to_string()));
    assert!(sources_to_delete(&uses(&outcomes), false).is_empty());
}

#[test]
fn a_source_is_deleted_by_the_name_it_was_given_by() {
    let delete = SourceFileAction::Delete;
    let twice = [
        successful_outcome("/d//a.wav", "/d/a.mp3", delete, 1),
        successful_outcome("/d/a.wav", "/d/a.flac", delete, 2),
    ];
    let gone = sources_to_delete(&uses(&twice), false);
    assert_eq!(gone.len(), 1);
    assert_eq!(gone[0].to_text(), "/d//a.wav");
}

#[test]
fn a_source_is_deleted_once_and_never_in_place() {
    let delete = SourceFileAction::Delete;
    let twice = [
        successful_outcome("/d/a.wav", "/d/a.mp3", delete, 1),
        successful_outcome("/d/a.wav", "/d/a.flac", delete, 2),
    ];
    assert_eq!(sources_to_delete(&uses(&twice), false).len(), 1);
    assert!(sources_to_delete(&uses(&twice), true).is_empty());
    let in_place = [successful_outcome("/d/a.mp3", "/d/a.mp3", delete, 1)];
    assert!(sources_to_delete(&uses(&in_place), false).is_empty());
    let nowhere = [successful_outcome("/d/a.mp3", "", delete, 1)];
    assert!(sources_to_delete(&uses(&nowhere), false).is_empty());
}

#[test]
fn a_session_is_summed_up() {
    let keep = SourceFileAction::Keep;
    let mut second = successful_outcome("/b.wav", "/b.mp3", keep, 2);
    second.results.push(FileResult::error("/c.wav".to_string(), "no".to_string()));
    second.results.push(FileResult::skipped("/d.wav".to_string()));
    second.settings.open_in_finder = true;
    let mut first = successful_outcome("/a.wav", "/a.mp3", keep, 1);
    first.settings.open_in_finder = true;
    let outcomes = vec![second, first];
    let (payload, shown) = complete_session("job", &outcomes, false);
    let inputs: Vec<&str> = payload.results.iter().map(|r| r.input_path.as_str()).collect();
    assert_eq!(inputs, ["/a.wav", "/b.wav", "/c.wav", "/d.wav"]);
    assert_eq!(
        (payload.success_count, payload.error_count, payload.skipped_count),
        (2, 1, 1)
    );
    assert!(!payload.mixed_profiles);
    assert_eq!(shown.as_deref(), Some("/b.mp3"));
    assert_eq!(complete_session("job", &outcomes, true).1, None);
    assert!(complete_session("job", &Vec::new(), false).0.results.is_empty());
}

#[test]
fn profiles_are_told_apart_by_what_shapes_a_result() {
    let keep = SourceFileAction::Keep;
    let first = successful_outcome("/a", "/a.mp3", keep, 1);
    let mut other = successful_outcome("/b", "/b.mp3", SourceFileAction::Delete, 2);
    other.settings.language = "ja".to_string();
    other.settings.output_dest = OutputDest::Desktop;
    assert!(profiles_match(&first, &other));
    other.settings.mp3_bitrate = 64;
    assert!(!profiles_match(&first, &other));
    let mut aac = successful_outcome("/c", "/c.m4a", keep, 3);
    aac.format = "aac".to_string();
    assert!(!profiles_match(&first, &aac));
    assert!(complete_session("job", &vec![first, aac], false).0.mixed_profiles);
}
