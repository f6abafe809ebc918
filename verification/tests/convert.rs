use oto::convert::{
    cover_args, progress_ratio, progress_time, read_progress_file, ConvertAction, ConvertEvent,
    ConvertJob, ConvertStage,
};
use oto::progress::WHOLE;
use oto::settings::Settings;
use oto::silence::ScanEnd;
use oto::types::FileInfo;

fn job(format: &str, cover: Option<usize>) -> ConvertJob {
    ConvertJob {
        format: format.to_string(),
        settings: Settings::default(),
        info: FileInfo {
            duration_us: 10_000_000,
            tags: vec![("title".to_string(), "Song".to_string())],
            bits_per_sample: 16,
            cover_art_stream_idx: cover,
            has_media: true,
            is_lossless: true,
            bit_rate_bps: 900_000,
            audio_tracks: Vec::new(),
        },
        stream: None,
        threads: 2,
        progress: "/tmp/p.txt".to_string(),
        direct: false,
        in_place: false,
        ffmpeg: "ffmpeg".to_string(),
        input: "/in.wav".to_string(),
        output: "/out.flac".to_string(),
    }
}

fn ended(well: bool) -> ConvertEvent {
    ConvertEvent::Ended(well, "exit status: 1".to_string(), Vec::new())
}

#[test]
fn ffmpeg_is_asked_to_convert() {
    let flac = job("flac", None);
    let (stage, action) = flac.begin(false, false);
    assert!(matches!(stage, ConvertStage::Running(None)));
    match action {
        ConvertAction::Run(head, tail) => {
            assert_eq!(head, ["-threads", "2", "-y"]);
            assert_eq!(
                tail,
                [
                    "-map_metadata",
                    "0",
                    "-map",
                    "0:a:0",
                    "-metadata",
                    "TITLE=Song",
                    "-c:a",
                    "flac",
                    "-compression_level",
                    "5",
                    "-progress",
                    "/tmp/p.txt",
                    "-nostats",
                ]
            );
        }
        other => panic!("{other:?}"),
    }
}

#[test]
fn tags_keep_their_case_elsewhere() {
    let mp3 = job("mp3", None);
    let tail = mp3.tail_args(&Some("atrim=start=1".to_string()));
    assert!(tail.contains(&"title=Song".to_string()));
    let at = tail.iter().position(|arg| arg == "-af").unwrap();
    assert_eq!(tail[at + 1], "atrim=start=1");
}

#[test]
fn a_cover_is_added_and_the_input_replaced() {
    let mut flac = job("flac", Some(1));
    flac.in_place = true;
    let (stage, action) = flac.begin(false, true);
    assert!(matches!(action, ConvertAction::BackUp));
    let (stage, action) = flac.proceed(stage, ConvertEvent::Done);
    assert!(matches!(action, ConvertAction::Run(_, _)));
    let (stage, action) = flac.proceed(stage, ended(true));
    assert!(matches!(action, ConvertAction::AttachCover(1)));
    let (stage, action) = flac.proceed(stage, ended(true));
    assert!(matches!(action, ConvertAction::InstallCover));
    let (stage, action) = flac.proceed(stage, ConvertEvent::Done);
    assert!(matches!(action, ConvertAction::ReplaceInput));
    let (stage, action) = flac.proceed(stage, ConvertEvent::Done);
    assert!(matches!(action, ConvertAction::Succeed));
    assert!(matches!(stage, ConvertStage::Ended));
}

#[test]
fn a_failure_says_what_ffmpeg_said() {
    let flac = job("flac", None);
    let (stage, _) = flac.begin(false, false);
    let event = ConvertEvent::Ended(false, "exit status: 1".to_string(), b"bad \xff input".to_vec());
    match flac.proceed(stage, event).1 {
        ConvertAction::Fail(reason, clean) => {
            assert!(clean);
            assert!(reason.starts_with(
                "FFmpeg failed (exit status: 1).\nCommand: ffmpeg -threads 2 -y -i /in.wav "
            ));
            assert!(reason.ends_with("\n\nFFmpeg stderr:\nbad \u{fffd} input"));
        }
        other => panic!("{other:?}"),
    }
    assert!(flac
        .failure(&None, "x", &b" \n".to_vec())
        .ends_with("(FFmpeg did not write anything to stderr.)"));
}

#[test]
fn conversions_fail_for_a_reason() {
    let flac = job("flac", Some(1));
    let fails = |stage, event| match flac.proceed(stage, event).1 {
        ConvertAction::Fail(reason, _) => reason,
        other => panic!("{other:?}"),
    };
    assert!(matches!(
        flac.begin(true, false).1,
        ConvertAction::Fail(e, false) if e == "conversion cancelled"
    ));
    assert_eq!(
        fails(ConvertStage::BackingUp, ConvertEvent::Failed("no".to_string())),
        "failed to safely back up existing output: no"
    );
    assert_eq!(
        fails(ConvertStage::Running(None), ConvertEvent::NotStarted("no".to_string())),
        "failed to spawn ffmpeg: no"
    );
    assert_eq!(
        fails(ConvertStage::Running(None), ConvertEvent::Cancelled),
        "conversion cancelled"
    );
    assert_eq!(
        fails(ConvertStage::Scanning, ConvertEvent::Scanned(ScanEnd::Cancelled, Vec::new())),
        "conversion cancelled"
    );
    assert_eq!(
        fails(ConvertStage::Attaching, ConvertEvent::NotStarted("no".to_string())),
        "failed to start FFmpeg while attaching cover art: no"
    );
    assert_eq!(
        fails(ConvertStage::Attaching, ended(false)),
        "FFmpeg failed while attaching cover art (exit status: 1): "
    );
    assert_eq!(
        fails(ConvertStage::Replacing, ConvertEvent::Failed("no".to_string())),
        "no"
    );
}

#[test]
fn silence_is_looked_for_first() {
    let mut flac = job("flac", None);
    flac.settings.silence_trim_enabled = true;
    let (stage, action) = flac.begin(false, false);
    assert!(matches!(&action, ConvertAction::Scan(before, _) if before.is_empty()));
    let report = b"silence_start: 0\nsilence_end: 1.5 |\n".to_vec();
    let (stage, _) = flac.proceed(stage, ConvertEvent::Scanned(ScanEnd::Finished, report));
    assert!(matches!(stage, ConvertStage::Running(Some(f)) if f.starts_with("silenceremove")));

    flac.direct = true;
    flac.info.duration_us = 600_000_000;
    let (stage, _) = flac.begin(false, false);
    assert!(matches!(stage, ConvertStage::ScanningHead));
    let head = b"silence_start: 0\nsilence_end: 1.5 |\n".to_vec();
    let (stage, action) = flac.proceed(stage, ConvertEvent::Scanned(ScanEnd::Finished, head));
    assert!(matches!(&action, ConvertAction::Scan(before, _) if before[0] == "-ss"));
    let (stage, _) = flac.proceed(stage, ConvertEvent::Scanned(ScanEnd::TimedOut, Vec::new()));
    assert!(matches!(
        stage,
        ConvertStage::Running(Some(f)) if f == "atrim=start=1.500000,asetpts=PTS-STARTPTS"
    ));
}

#[test]
fn progress_is_read_from_its_file() {
    assert_eq!(progress_time("out_time_us=2500000"), Some(2_500_000));
    assert_eq!(progress_time("out_time_us=N/A"), Some(0));
    assert_eq!(progress_time("frame=1"), None);
    let (us, done) = read_progress_file("out_time_us=1\nx\nout_time_us=5000000\nprogress=end\n");
    assert_eq!((us, done), (5_000_000, true));
    assert!(!read_progress_file("progress=continue\n").1);
    assert_eq!(progress_ratio(5_000_000, 10_000_000, WHOLE), Some(WHOLE / 2));
    assert_eq!(progress_ratio(50_000_000, 10_000_000, 980_000_000), Some(980_000_000));
    assert_eq!(progress_ratio(1, 0, WHOLE), None);
    assert!(job("flac", None).progress_ceiling() <= WHOLE);
}

#[test]
fn a_cover_is_copied() {
    let (first, second, third) = cover_args(3);
    assert_eq!(first, ["-y", "-i"]);
    assert_eq!(second, ["-i"]);
    assert_eq!(
        third,
        [
            "-map",
            "0:a:0",
            "-map",
            "1:3",
            "-map_metadata",
            "0",
            "-c",
            "copy",
            "-disposition:v:0",
            "attached_pic",
        ]
    );
}
