use oto::settings::{
    calc_parallel_count, load_settings, save_settings, NameConflict, OutputDest, Saved, Settings,
    SourceFileAction,
};

#[test]
fn defaults_are_these() {
    let s = Settings::default();
    assert_eq!(s.output_dest, OutputDest::SourceFolder);
    assert_eq!(s.source_file_action, SourceFileAction::Keep);
    assert_eq!(s.name_conflict, NameConflict::AutoRename);
    assert_eq!(s.mp3_preset, "192");
    assert_eq!(s.aac_preset, "128");
    assert_eq!(s.opus_mode, "vbr");
    assert_eq!(s.flac_compression, 5);
    assert_eq!(s.silence_trim_db, -80_000_000);
    assert_eq!(s.silence_trim_duration_ms, 50);
    assert_eq!(s.enabled_formats, ["mp3", "aac", "flac"]);
    assert_eq!(s.enabled_decode_formats, ["wav", "aiff"]);
    assert!(s.clear_log_on_convert);
    assert!(!s.auto_open_activity);
}

#[test]
fn one_processor_is_left_free() {
    assert_eq!(calc_parallel_count(Some(8)), 7);
    assert_eq!(calc_parallel_count(Some(1)), 1);
    assert_eq!(calc_parallel_count(None), 3);
}

#[test]
fn validation_makes_settings_safe() {
    let mut s = Settings::default();
    s.mp3_bitrate = 9999;
    s.mp3_mode = "odd".into();
    s.mp3_preset = "fast".into();
    s.mp3_sample_rate = 12345;
    s.opus_complexity = 99;
    s.flac_compression = 200;
    s.alac_bit_depth = 17;
    s.validate();
    assert_eq!(s.mp3_bitrate, 320);
    assert_eq!(s.mp3_mode, "cbr");
    assert_eq!(s.mp3_preset, "192");
    assert_eq!(s.mp3_sample_rate, 0);
    assert_eq!(s.opus_complexity, 10);
    assert_eq!(s.alac_bit_depth, 16);
    let once = format!("{s:?}");
    s.validate();
    assert_eq!(format!("{s:?}"), once);
}

#[test]
fn safe_settings_stay() {
    let mut s = Settings::default();
    let before = format!("{s:?}");
    s.validate();
    assert_eq!(format!("{s:?}"), before);
}

#[test]
fn what_cannot_be_read_is_the_default() {
    let fresh = load_settings(Saved::Missing, Some(4));
    assert_eq!(fresh.parallel_count, 3);
    assert_eq!(fresh.mp3_preset, "192");
    let broken = load_settings(Saved::Unreadable, Some(4));
    assert_eq!(broken.mp3_preset, "192");
    let mut stored = Settings::default();
    stored.mp3_preset = "320".into();
    stored.mp3_bitrate = 1;
    stored.parallel_count = 77;
    let loaded = load_settings(Saved::Found(stored), Some(4));
    assert_eq!(loaded.mp3_preset, "320");
    assert_eq!(loaded.parallel_count, 3);
    assert!(loaded.mp3_bitrate >= 32);
}

#[test]
fn settings_are_saved_safe() {
    let mut s = Settings::default();
    s.m4a_bitrate = 1_000_000;
    let saved = save_settings(&s);
    assert!(saved.m4a_bitrate < 1000);
    assert_eq!(s.m4a_bitrate, 1_000_000);
}
