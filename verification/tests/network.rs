use oto::copying::{
    copy_network_input_to_temp, copy_step, CopyAction, CopyEvent, CopyStage,
};
use oto::fixed::{INFINITE, NOT_A_NUMBER};
use oto::network::{
    cache_extension, check_size, copy_size, estimate_output_bytes, has_network_input,
    input_spool_resume_at, is_path_on_network, is_windows_path_on_network, may_copy, must_wait,
    refusal_message, should_cache_network_input, windows_place, CopyRefusal, Mount,
    OutputReservation, OutputSpoolCapacity, WindowsPlace, INPUT_SPOOL_TARGET_BYTES, MAX_FILE_SIZE,
};
use oto::path::{Component, FilePath};
use oto::settings::Settings;
use oto::tracks::{safe_track_label, track_label, track_output_stem};
use oto::types::{AudioTrack, FileInfo};
use oto::uploading::{
    copy_spool_to_network, upload_step, UploadAction, UploadEvent, UploadStage,
};

fn info(duration_us: i64) -> FileInfo {
    FileInfo {
        duration_us,
        tags: Vec::new(),
        bits_per_sample: 16,
        cover_art_stream_idx: None,
        has_media: true,
        is_lossless: false,
        bit_rate_bps: 128_000,
        audio_tracks: Vec::new(),
    }
}

#[test]
fn network_input_cache_boundary_is_256_mib_inclusive() {
    let limit = INPUT_SPOOL_TARGET_BYTES as u64;
    assert!(should_cache_network_input(limit));
    assert!(!should_cache_network_input(limit + 1));
}

#[test]
fn input_spool_resume_point_never_allows_the_high_water_mark_to_be_exceeded() {
    for input_size in [1, 64, 128, 129, 200, 256].map(|mib: usize| mib * 1024 * 1024) {
        let resume_at = input_spool_resume_at(input_size);
        assert!(resume_at.saturating_add(input_size) <= INPUT_SPOOL_TARGET_BYTES);
    }
    assert_eq!(input_spool_resume_at(64 * 1024 * 1024), 192 * 1024 * 1024);
    assert_eq!(input_spool_resume_at(200 * 1024 * 1024), 56 * 1024 * 1024);
}

#[test]
fn cancelling_capacity_wait_does_not_start_or_charge_the_next_copy() {
    let existing = 100 * 1024 * 1024;
    let input_size = 200 * 1024 * 1024;
    assert_eq!(copy_size(input_size as u64), Ok(input_size));
    assert!(must_wait(existing, input_size));
    let (stage, _) = copy_network_input_to_temp();
    let (stage, _) = copy_step(stage, CopyEvent::Measured(input_size as u64));
    let (stage, action) = copy_step(stage, CopyEvent::Kept(existing));
    assert!(matches!(action, CopyAction::Wait));
    let (stage, action) = copy_step(stage, CopyEvent::Stopped);
    assert_eq!(stage, CopyStage::Ended);
    assert!(matches!(action, CopyAction::Fail(e) if e == "conversion cancelled"));
}

#[test]
fn an_input_is_copied_piece_by_piece() {
    let (stage, action) = copy_network_input_to_temp();
    assert!(matches!(action, CopyAction::Measure));
    let (stage, action) = copy_step(stage, CopyEvent::Measured(10));
    assert!(matches!(action, CopyAction::Count));
    let (stage, action) = copy_step(stage, CopyEvent::Kept(INPUT_SPOOL_TARGET_BYTES));
    assert!(matches!(action, CopyAction::Wait));
    let (stage, action) = copy_step(stage, CopyEvent::Rested);
    assert!(matches!(action, CopyAction::Count));
    let (stage, action) = copy_step(stage, CopyEvent::Kept(INPUT_SPOOL_TARGET_BYTES - 10));
    assert!(matches!(action, CopyAction::Check));
    let (stage, action) = copy_step(stage, CopyEvent::Running);
    assert!(matches!(action, CopyAction::AskSpace));
    let (stage, action) = copy_step(stage, CopyEvent::Space(10));
    assert!(matches!(action, CopyAction::Open));
    let (stage, action) = copy_step(stage, CopyEvent::Opened);
    assert!(matches!(action, CopyAction::Read));
    let (stage, action) = copy_step(stage, CopyEvent::Got(4));
    assert!(matches!(action, CopyAction::Write(4)));
    let (stage, action) = copy_step(stage, CopyEvent::Written);
    assert!(matches!(action, CopyAction::ReadOn(4, 400_000_000)));
    let (stage, _) = copy_step(stage, CopyEvent::Got(6));
    let (stage, action) = copy_step(stage, CopyEvent::Written);
    assert!(matches!(action, CopyAction::ReadOn(6, 1_000_000_000)));
    let (stage, action) = copy_step(stage, CopyEvent::Got(0));
    assert!(matches!(action, CopyAction::Flush));
    let (stage, action) = copy_step(stage, CopyEvent::Flushed);
    assert_eq!(stage, CopyStage::Ended);
    assert!(matches!(action, CopyAction::Keep));
}

#[test]
fn a_copy_fails_with_its_reason() {
    let fails = |stage, event| match copy_step(stage, event) {
        (CopyStage::Ended, CopyAction::Fail(reason)) => reason,
        other => panic!("{other:?}"),
    };
    let no = || CopyEvent::Failed("no".to_string());
    let limit = INPUT_SPOOL_TARGET_BYTES as u64;
    assert_eq!(
        fails(CopyStage::Measuring, CopyEvent::Measured(limit + 1)),
        "network input exceeds the cache threshold"
    );
    assert_eq!(fails(CopyStage::Measuring, no()), "no");
    assert_eq!(fails(CopyStage::Checking(5), CopyEvent::Stopped), "conversion cancelled");
    assert_eq!(
        fails(CopyStage::Spacing(5), CopyEvent::Space(4)),
        "not enough temporary disk space to cache network input"
    );
    assert_eq!(fails(CopyStage::Opening(5), no()), "no");
    assert_eq!(
        fails(CopyStage::Reading(5, 0), CopyEvent::Stopped),
        "failed to cache network input locally: conversion cancelled"
    );
    for stage in [CopyStage::Reading(5, 0), CopyStage::Writing(5, 0, 1), CopyStage::Flushing] {
        assert_eq!(fails(stage, no()), "failed to cache network input locally: no");
    }
}

#[test]
fn an_upload_is_recorded_first_and_last() {
    let (stage, action) = copy_spool_to_network();
    assert!(matches!(action, UploadAction::Open));
    let (stage, action) = upload_step(stage, UploadEvent::Opened(8));
    assert!(matches!(action, UploadAction::Record));
    let (stage, action) = upload_step(stage, UploadEvent::Done);
    assert!(matches!(action, UploadAction::Create));
    let (stage, action) = upload_step(stage, UploadEvent::Done);
    assert!(matches!(action, UploadAction::Read));
    let (stage, action) = upload_step(stage, UploadEvent::Got(2));
    assert!(matches!(action, UploadAction::Write(2)));
    let (stage, action) = upload_step(stage, UploadEvent::Done);
    assert!(matches!(action, UploadAction::ReadOn(250_000_000)));
    let (stage, action) = upload_step(stage, UploadEvent::Got(0));
    assert!(matches!(action, UploadAction::Flush));
    let (stage, action) = upload_step(stage, UploadEvent::Done);
    assert!(matches!(action, UploadAction::Replace));
    let (stage, action) = upload_step(stage, UploadEvent::Done);
    assert!(matches!(action, UploadAction::Complete));
    let (stage, action) = upload_step(stage, UploadEvent::Done);
    assert_eq!(stage, UploadStage::Ended);
    assert!(matches!(action, UploadAction::Succeed));
    let (_, action) = upload_step(UploadStage::Reading(8, 2), UploadEvent::Stopped);
    assert!(matches!(action, UploadAction::Fail(e) if e == "conversion cancelled"));
    let (_, action) = upload_step(UploadStage::Replacing, UploadEvent::Failed("no".to_string()));
    assert!(matches!(action, UploadAction::Fail(e) if e == "no"));
}

#[test]
fn a_copy_waits_until_it_fits() {
    let mib = 1024 * 1024;
    assert!(must_wait(100 * mib, 200 * mib));
    assert!(!must_wait(56 * mib, 200 * mib));
    assert_eq!(input_spool_resume_at(300 * mib), 0);
}

#[test]
fn output_reservation_is_conservative_for_pcm_and_vbr() {
    let settings = Settings::default();
    assert!(estimate_output_bytes("wav", &settings, &info(60_000_000)) > 20 * 1024 * 1024);
    let mut vbr = settings.clone();
    vbr.mp3_preset = "custom".into();
    vbr.mp3_mode = "vbr".into();
    let vbr_bytes = estimate_output_bytes("mp3", &vbr, &info(60_000_000));
    assert!(estimate_output_bytes("mp3", &vbr, &info(120_000_000)) > vbr_bytes);
}

#[test]
fn estimates_are_exact() {
    let settings = Settings::default();
    let floor = 16 * 1024 * 1024;
    assert_eq!(estimate_output_bytes("mp3", &settings, &info(8_000_000)), 240_000 + floor);
    assert_eq!(estimate_output_bytes("aac", &settings, &info(0)), 20_000 + floor);
    assert_eq!(estimate_output_bytes("opus", &settings, &info(1_000_000)), 20_000 + floor);
    assert_eq!(estimate_output_bytes("flac", &settings, &info(1_000_000)), 480_000 + floor);
    assert_eq!(estimate_output_bytes("wav", &settings, &info(1_000_000)), 480_000 + floor);
    assert_eq!(estimate_output_bytes("ogg", &settings, &info(1_000_000)), 240_000 + floor);
    assert_eq!(estimate_output_bytes("wav", &settings, &info(NOT_A_NUMBER)), 480_000 + floor);
    assert_eq!(estimate_output_bytes("wav", &settings, &info(INFINITE)), u64::MAX);
}

#[test]
fn output_reservation_is_released_by_drop() {
    let mut capacity = OutputSpoolCapacity::new();
    capacity.reserved = 4096;
    let reservation = OutputReservation { bytes: 4096 };
    reservation.release(&mut capacity);
    assert_eq!(capacity.reserved, 0);
}

#[test]
fn room_is_reserved_as_far_as_it_goes() {
    let mut capacity = OutputSpoolCapacity::new();
    let first = capacity.try_reserve(600, 1000, 0).unwrap();
    assert_eq!(capacity.reserved, 600);
    assert!(capacity.try_reserve(600, 1000, 0).is_none());
    assert!(capacity.try_reserve(600, 1000, 200).is_some());
    first.release(&mut capacity);
    assert_eq!(capacity.reserved, 600);
}

#[test]
fn track_labels_prefer_meaningful_handler_then_language_then_number() {
    let commentary = AudioTrack {
        stream_index: 2,
        language: Some("jpn".into()),
        handler_name: Some("Commentary".into()),
    };
    let main = AudioTrack {
        stream_index: 1,
        language: Some("jpn".into()),
        handler_name: Some("Main".into()),
    };
    let unnamed = AudioTrack { stream_index: 3, language: None, handler_name: None };
    assert_eq!(track_label(&commentary, 2), "Commentary");
    assert_eq!(track_label(&main, 1), "jpn");
    assert_eq!(track_label(&unnamed, 3), "trk3");
    assert_eq!(
        track_output_stem(&FilePath::parse("movie.mp4"), "Commentary").unwrap(),
        "movie (Commentary)"
    );
}

#[test]
fn container_generated_handler_falls_back_to_language() {
    let track = AudioTrack {
        stream_index: 1,
        language: Some("eng".into()),
        handler_name: Some("GPAC ISO Audio Handler".into()),
    };
    assert_eq!(track_label(&track, 1), "eng");
}

#[test]
fn track_labels_replace_filename_separators() {
    let track = AudioTrack {
        stream_index: 1,
        language: None,
        handler_name: Some("Commentary: Director/Producer".into()),
    };
    assert_eq!(track_label(&track, 1), "Commentary_ Director_Producer");
}

#[test]
fn labels_hold_no_separators() {
    assert_eq!(safe_track_label("  a\\b\tc  ").unwrap(), "a_b_c");
    assert!(safe_track_label("   ").is_none());
    assert!(track_output_stem(&FilePath::parse("/"), "x").is_err());
}

#[test]
fn local_temp_dir_is_not_network() {
    assert!(!is_path_on_network(Mount::LinuxType(0x0102_1994)));
    assert!(!is_path_on_network(Mount::MacLocal(true)));
}

#[test]
fn local_root_is_not_network() {
    assert!(!is_path_on_network(Mount::LinuxType(0xef53)));
    assert!(!is_path_on_network(Mount::MacLocal(true)));
    assert!(!is_path_on_network(Mount::Unknown));
}

#[test]
fn shares_are_network() {
    assert!(is_path_on_network(Mount::LinuxType(0x6969)));
    assert!(is_path_on_network(Mount::LinuxType(0xff534d42)));
    assert!(is_path_on_network(Mount::MacLocal(false)));
    assert!(is_path_on_network(Mount::WindowsShare));
    assert!(is_path_on_network(Mount::WindowsDrive(4)));
    assert!(!is_path_on_network(Mount::WindowsDrive(3)));
}

#[test]
fn empty_paths_returns_false() {
    assert!(!has_network_input(&Vec::new(), &|_: &str| true));
}

#[test]
fn tmp_path_not_network() {
    let tmp = "/tmp".to_string();
    assert!(!has_network_input(&vec![tmp], &|_: &str| is_path_on_network(Mount::LinuxType(0xef53))));
}

#[test]
fn unc_path_is_network() {
    let fixed = |_: char| 3;
    assert!(has_network_input(
        &vec![r"\\server\share\file.flac".to_string()],
        &|p: &str| is_windows_path_on_network(p, &fixed)
    ));
    assert_eq!(windows_place(r"\\server\share\file.flac"), WindowsPlace::Share);
}

#[test]
fn local_drive_path_not_network() {
    let path = r"C:\Users\test\music.flac".to_string();
    let fixed = |_: char| 3;
    let mapped = |drive: char| if drive == 'C' { 4 } else { 3 };
    assert!(!has_network_input(&vec![path.clone()], &|p: &str| is_windows_path_on_network(p, &fixed)));
    assert!(has_network_input(&vec![path], &|p: &str| is_windows_path_on_network(p, &mapped)));
}

#[test]
fn sizes_are_limited() {
    assert!(check_size(MAX_FILE_SIZE).is_ok());
    assert_eq!(
        check_size(MAX_FILE_SIZE + 1).unwrap_err(),
        "File size exceeds 10 GiB limit (10.0 GiB)"
    );
    assert_eq!(
        check_size(16_642_998_272).unwrap_err(),
        "File size exceeds 10 GiB limit (15.5 GiB)"
    );
}

#[test]
fn copies_are_refused_for_a_reason() {
    let limit = INPUT_SPOOL_TARGET_BYTES as u64;
    assert_eq!(copy_size(limit), Ok(INPUT_SPOOL_TARGET_BYTES));
    assert_eq!(copy_size(limit + 1), Err(CopyRefusal::TooLarge));
    assert_eq!(may_copy(10, 10), Ok(()));
    assert_eq!(may_copy(10, 9), Err(CopyRefusal::NoSpace));
    assert_eq!(
        refusal_message(CopyRefusal::TooLarge),
        "network input exceeds the cache threshold"
    );
    assert_eq!(refusal_message(CopyRefusal::Cancelled), "conversion cancelled");
    assert_eq!(
        refusal_message(CopyRefusal::NoSpace),
        "not enough temporary disk space to cache network input"
    );
}

#[test]
fn a_copy_keeps_an_extension_that_is_text() {
    assert_eq!(cache_extension(&FilePath::parse("/a/b.flac")), "flac");
    assert_eq!(cache_extension(&FilePath::parse("/a/b")), "media");
    let odd = FilePath::of(vec![Component::Root, Component::Normal(vec![b'a', b'.', 0xff])]);
    assert_eq!(cache_extension(&odd), "media");
}
