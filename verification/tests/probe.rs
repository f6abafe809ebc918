use oto::binary::{
    ffmpeg_path, ffprobe_path, friendly_error, friendly_ffmpeg_error, known_path,
};
use oto::fixed::{
    parse_micros, plus, shortest_text, six_decimals_text, INFINITE, MOST, NOT_A_NUMBER,
};
use oto::probe::{
    non_media_file_info, probe_args, probe_candidate, probe_file, CandidateEvent, CandidateStep,
    ProbeEnd,
};

#[test]
fn unrecognised_input_is_not_media() {
    let info = non_media_file_info();

    assert!(!info.has_media);
    assert_eq!(info.duration_us, 0);
    assert!(info.tags.is_empty());
}

const REPORT: &str = r#"{
  "streams": [
    {"index": 0, "codec_name": "flac", "codec_type": "audio", "bits_per_raw_sample": "24",
     "tags": {"language": "jpn", "handler_name": "Main", "TITLE": "other"}},
    {"index": 1, "codec_name": "mjpeg", "codec_type": "video",
     "disposition": {"attached_pic": 1}}
  ],
  "format": {"format_name": "flac", "duration": "12.5", "bit_rate": "900000",
             "tags": {"TITLE": "Song", "Artist": "Me"}}
}"#;

#[test]
fn a_report_is_read() {
    let end = ProbeEnd::Ended(true, REPORT.as_bytes().to_vec());
    let info = probe_file("/a.flac", end).unwrap();
    assert!(info.has_media);
    assert!(info.is_lossless);
    assert_eq!(info.duration_us, 12_500_000);
    assert_eq!(info.bit_rate_bps, 900_000);
    assert_eq!(info.bits_per_sample, 24);
    assert_eq!(info.cover_art_stream_idx, Some(1));
    assert_eq!(info.audio_tracks.len(), 1);
    assert_eq!(info.audio_tracks[0].stream_index, 0);
    assert_eq!(info.audio_tracks[0].language.as_deref(), Some("jpn"));
    assert_eq!(info.audio_tracks[0].handler_name.as_deref(), Some("Main"));
    let title: Vec<&(String, String)> =
        info.tags.iter().filter(|tag| tag.0 == "title").collect();
    assert_eq!(title.len(), 1);
    assert_eq!(title[0].1, "Song");
}

#[test]
fn what_is_no_report_is_no_media() {
    let info = probe_file("/a", ProbeEnd::Ended(true, b"not json".to_vec())).unwrap();
    assert!(!info.has_media);
    let info = probe_file("/a", ProbeEnd::Ended(false, REPORT.as_bytes().to_vec())).unwrap();
    assert!(!info.has_media);
}

#[test]
fn a_probe_that_did_not_run_is_an_error() {
    assert_eq!(
        probe_file("/a", ProbeEnd::Cancelled).unwrap_err(),
        "conversion cancelled"
    );
    assert_eq!(
        probe_file("/a", ProbeEnd::NotStarted("denied".to_string())).unwrap_err(),
        "/a: denied"
    );
    let missing = probe_file("/a", ProbeEnd::NotStarted("No Such File or directory".to_string()));
    assert!(missing.unwrap_err().starts_with("/a: FFmpeg"));
    assert_eq!(
        probe_args(),
        ["-v", "quiet", "-print_format", "json", "-show_format", "-show_streams"]
    );
}

#[test]
fn a_local_file_is_looked_at_in_turn() {
    let (step, found) =
        probe_candidate("/a", false, CandidateStep::Waiting, CandidateEvent::Granted);
    assert_eq!(step, CandidateStep::Measuring);
    assert!(found.is_none());
    let (step, _) = probe_candidate("/a", false, step, CandidateEvent::Size(100));
    assert_eq!(step, CandidateStep::Probing);
    let end = ProbeEnd::Ended(true, REPORT.as_bytes().to_vec());
    let (step, found) = probe_candidate("/a", false, step, CandidateEvent::Probed(end));
    assert_eq!(step, CandidateStep::Ended);
    assert!(found.unwrap().unwrap().has_media);
}

#[test]
fn a_file_on_the_network_waits_for_it() {
    let (step, _) =
        probe_candidate("/a", true, CandidateStep::Measuring, CandidateEvent::Size(100));
    assert_eq!(step, CandidateStep::WaitingToRead);
    let (step, _) = probe_candidate("/a", true, step, CandidateEvent::Granted);
    assert_eq!(step, CandidateStep::Probing);
}

#[test]
fn a_look_ends_with_its_reason() {
    let ends = |step, event| probe_candidate("/a", true, step, event).1.unwrap().unwrap_err();
    assert_eq!(ends(CandidateStep::Waiting, CandidateEvent::Closed), "probe worker closed");
    assert_eq!(ends(CandidateStep::Waiting, CandidateEvent::Cancelled), "conversion cancelled");
    assert_eq!(
        ends(CandidateStep::WaitingToRead, CandidateEvent::Closed),
        "network input worker closed"
    );
    assert_eq!(
        ends(CandidateStep::Measuring, CandidateEvent::NoSize("gone".to_string())),
        "gone"
    );
    assert_eq!(
        ends(CandidateStep::Measuring, CandidateEvent::Size(21_474_836_480)),
        "File size exceeds 10 GiB limit (20.0 GiB)"
    );
}

#[test]
fn binaries_are_found_in_turn() {
    let anywhere = |_: &str| true;
    let nowhere = |_: &str| false;
    assert_eq!(
        ffmpeg_path(Some(b"/usr/bin/ffmpeg\n".to_vec()), false, anywhere),
        "/usr/bin/ffmpeg"
    );
    assert_eq!(
        ffmpeg_path(Some(b"C:\\a\\ffmpeg.exe\r\nC:\\b\\ffmpeg.exe\r\n".to_vec()), true, anywhere),
        "C:\\a\\ffmpeg.exe"
    );
    assert_eq!(ffprobe_path(None, false, anywhere), "/opt/homebrew/bin/ffprobe");
    assert_eq!(
        ffprobe_path(None, false, |p: &str| p == "/usr/local/bin/ffprobe"),
        "/usr/local/bin/ffprobe"
    );
    assert_eq!(ffprobe_path(Some(vec![0xff]), false, nowhere), "ffprobe");
}

#[test]
fn a_program_is_looked_for_once() {
    let mut kept = None;
    let first = known_path(&mut kept, "ffmpeg", Some(b"/a/ffmpeg\n".to_vec()), false, |_: &str| true);
    assert_eq!(first, "/a/ffmpeg");
    assert_eq!(kept.as_deref(), Some("/a/ffmpeg"));
    let later = known_path(&mut kept, "ffmpeg", Some(b"/b/ffmpeg\n".to_vec()), false, |_: &str| false);
    assert_eq!(later, "/a/ffmpeg");
    let mut none = None;
    assert_eq!(known_path(&mut none, "ffprobe", None, false, |_: &str| false), "ffprobe");
}

#[test]
fn a_missing_ffmpeg_is_said_kindly() {
    let kind = friendly_ffmpeg_error("NOT FOUND");
    assert!(kind.starts_with("FFmpeg"));
    assert_ne!(kind, "NOT FOUND");
    assert_eq!(friendly_ffmpeg_error("denied"), "denied");
    assert_eq!(friendly_error("A", "a"), "A");
}

#[test]
fn numbers_are_read_and_written() {
    assert_eq!(parse_micros("1.5"), Some(1_500_000));
    assert_eq!(parse_micros("-0.0000015"), Some(-2));
    assert_eq!(parse_micros("2e3"), Some(2_000_000_000));
    assert_eq!(parse_micros("1.25E-1"), Some(125_000));
    assert_eq!(parse_micros(".5"), Some(500_000));
    assert_eq!(parse_micros("5."), Some(5_000_000));
    assert_eq!(parse_micros("1e400"), Some(MOST));
    assert_eq!(parse_micros("-Infinity"), Some(-INFINITE));
    assert_eq!(parse_micros("+inf"), Some(INFINITE));
    assert_eq!(parse_micros("NaN"), Some(NOT_A_NUMBER));
    assert_eq!(parse_micros("-nan"), Some(NOT_A_NUMBER));
    assert_eq!(plus(INFINITE, -INFINITE), NOT_A_NUMBER);
    assert_eq!(plus(INFINITE, -1), INFINITE);
    assert_eq!(plus(MOST, 1), MOST);
    assert_eq!(six_decimals_text(INFINITE), "inf");
    assert_eq!(six_decimals_text(NOT_A_NUMBER), "NaN");
    assert_eq!(shortest_text(-INFINITE), "-inf");
    assert_eq!(parse_micros("1e-400"), Some(0));
    assert_eq!(parse_micros("."), None);
    assert_eq!(parse_micros("1e"), None);
    assert_eq!(parse_micros("x"), None);
    assert_eq!(six_decimals_text(-1_500_000), "-1.500000");
    assert_eq!(shortest_text(-80_000_000), "-80");
    assert_eq!(shortest_text(-42_500_000), "-42.5");
}
