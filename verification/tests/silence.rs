use oto::fixed::{INFINITE, NOT_A_NUMBER};
use oto::silence::{
    boundary_flags, direct_boundary_trim, direct_head_boundary, direct_tail_boundary,
    direct_trim_filter, head_window, parse_hms, parse_silence_regions, parse_silence_regions_full,
    silence_detect_args, silence_remove_filter, silence_scan_result, tail_window,
    DirectSilenceTrim, ScanEnd, ScanWindow, SilenceConfig,
};

#[test]
fn parse_empty_returns_empty() {
    assert!(parse_silence_regions("").is_empty());
}

#[test]
fn parse_single_complete_region() {
    let stderr = "[silencedetect] silence_start: 0\n[silencedetect] silence_end: 1.5 | silence_duration: 1.5\n";
    let regions = parse_silence_regions(stderr);
    assert_eq!(regions, vec![(0, 1_500_000)]);
}

#[test]
fn parse_multiple_regions() {
    let stderr = "[silencedetect] silence_start: 0\n\
                  [silencedetect] silence_end: 0.5 | silence_duration: 0.5\n\
                  [silencedetect] silence_start: 10\n\
                  [silencedetect] silence_end: 10.8 | silence_duration: 0.8\n";
    let regions = parse_silence_regions(stderr);
    assert_eq!(regions, vec![(0, 500_000), (10_000_000, 10_800_000)]);
}

#[test]
fn parse_negative_start_clamped_to_zero() {
    let stderr = "[silencedetect] silence_start: -0.1\n[silencedetect] silence_end: 1.0 | ...\n";
    let regions = parse_silence_regions(stderr);
    assert_eq!(regions, vec![(0, 1_000_000)]);
}

#[test]
fn parse_unclosed_start_not_captured() {
    let stderr = "[silencedetect] silence_start: 5.0\n";
    assert!(parse_silence_regions(stderr).is_empty());
}

#[test]
fn parse_end_without_preceding_start_is_ignored() {
    let stderr = "[silencedetect] silence_end: 1.0 | silence_duration: 1.0\n";
    assert!(parse_silence_regions(stderr).is_empty());
}

#[test]
fn parse_hms_valid_and_invalid() {
    assert_eq!(parse_hms("00:00:07.03"), Some(7_030_000));
    assert_eq!(parse_hms("01:02:03.5"), Some(3_723_500_000));
    assert_eq!(parse_hms("N/A"), None);
    assert_eq!(parse_hms("7.03"), None);
}

#[test]
fn parse_extracts_decoded_duration_from_time() {
    let stderr = "[Parsed_silencedetect_0] silence_start: 4.999977\n\
                  [Parsed_silencedetect_0] silence_end: 7.035646 | silence_duration: 2.01\n\
                  size=N/A time=00:00:07.03 bitrate=N/A speed=2.4e+03x\n";
    let (regions, unclosed, decoded) = parse_silence_regions_full(stderr);
    assert_eq!(regions, vec![(4_999_977, 7_035_646)]);
    assert_eq!(unclosed, None);
    assert_eq!(decoded, Some(7_030_000));
}

#[test]
fn parse_no_time_line_returns_none_decoded() {
    let stderr = "[silencedetect] silence_start: 0\n[silencedetect] silence_end: 1.5 |\n";
    let (_, _, decoded) = parse_silence_regions_full(stderr);
    assert_eq!(decoded, None);
}

#[test]
fn direct_head_requires_a_boundary_within_the_scan_window() {
    assert_eq!(
        direct_head_boundary(&vec![(0, 12_500_000)], 60_000_000),
        Some(12_500_000)
    );
    assert_eq!(direct_head_boundary(&vec![(0, 60_000_000)], 60_000_000), None);
    assert_eq!(direct_head_boundary(&vec![], 60_000_000), None);
}

#[test]
fn direct_tail_does_not_trim_when_the_whole_window_is_silent() {
    assert_eq!(
        direct_tail_boundary(&vec![], Some(0), Some(60_000_000), 60_000_000),
        None
    );
    assert_eq!(
        direct_tail_boundary(&vec![], Some(42_000_000), Some(60_000_000), 60_000_000),
        Some(42_000_000)
    );
}

#[test]
fn an_unclosed_silence_is_told_apart() {
    let (regions, unclosed, _) =
        parse_silence_regions_full("x silence_start: 5.25\ntime=00:00:09.00\n");
    assert!(regions.is_empty());
    assert_eq!(unclosed, Some(5_250_000));
}

#[test]
fn flags_say_which_end_is_silent() {
    let regions = vec![(0, 1_000_000), (9_000_000, 10_000_000)];
    assert_eq!(boundary_flags(&regions, None, None, 10_000_000), (true, true));
    let inside = vec![(3_000_000, 4_000_000)];
    assert_eq!(boundary_flags(&inside, None, None, 10_000_000), (false, false));
    assert_eq!(
        boundary_flags(&inside, Some(9_500_000), None, 10_000_000),
        (false, true)
    );
}

fn config() -> SilenceConfig {
    SilenceConfig {
        db: -80_000_000,
        min_duration_ms: 50,
        total_duration_us: 600_000_000,
        audio_stream_index: Some(2),
    }
}

#[test]
fn windows_lie_at_the_ends() {
    assert_eq!(
        head_window(&config()),
        ScanWindow { seek_us: None, duration_us: Some(60_000_000) }
    );
    assert_eq!(
        tail_window(&config()),
        ScanWindow { seek_us: Some(540_000_000), duration_us: Some(60_000_000) }
    );
}

#[test]
fn a_direct_cut_leaves_something() {
    let head = (vec![(0, 2_000_000)], None, Some(60_000_000));
    let tail = (Vec::new(), Some(58_000_000), Some(60_000_000));
    let cut = direct_boundary_trim(&config(), &head, &tail);
    assert_eq!(cut.start_us, Some(2_000_000));
    assert_eq!(cut.end_us, Some(598_000_000));
    assert_eq!(
        direct_trim_filter(cut).unwrap(),
        "atrim=start=2.000000:end=598.000000,asetpts=PTS-STARTPTS"
    );
    assert!(direct_trim_filter(DirectSilenceTrim { start_us: None, end_us: None }).is_none());
}

#[test]
fn a_start_that_is_no_number_counts_as_zero() {
    let (regions, unclosed, decoded) = parse_silence_regions_full(
        "silence_start: nan\nsilence_end: 1.5 |\nsilence_start: -inf\ntime=nan:00:00.00 x\n",
    );
    assert_eq!(regions, vec![(0, 1_500_000)]);
    assert_eq!(unclosed, Some(0));
    assert_eq!(decoded, Some(NOT_A_NUMBER));
    let (regions, _, decoded) = parse_silence_regions_full(
        "silence_start: 2\nsilence_end: nan |\ntime=inf:-inf:00.00 x\n",
    );
    assert_eq!(regions, vec![(2_000_000, NOT_A_NUMBER)]);
    assert_eq!(decoded, Some(NOT_A_NUMBER));
    assert_eq!(boundary_flags(&regions, None, decoded, 3_000_000), (false, false));
    let endless = vec![(2_000_000, INFINITE)];
    assert_eq!(boundary_flags(&endless, None, Some(INFINITE), 0), (false, false));
    let mut unknown = config();
    unknown.total_duration_us = NOT_A_NUMBER;
    let (before, after) = silence_detect_args(&unknown, tail_window(&unknown));
    assert!(before.is_empty());
    assert_eq!(after[..2], ["-t", "NaN"]);
}

#[test]
fn a_stopped_scan_is_an_error_and_a_failed_one_finds_nothing() {
    let report = b"silence_start: 0\nsilence_end: 1.5 |\n".to_vec();
    assert_eq!(
        silence_scan_result(ScanEnd::Cancelled, &report).unwrap_err(),
        "conversion cancelled"
    );
    assert_eq!(
        silence_scan_result(ScanEnd::Finished, &report).unwrap().0,
        vec![(0, 1_500_000)]
    );
    assert!(silence_scan_result(ScanEnd::TimedOut, &report).unwrap().0.is_empty());
    assert!(silence_scan_result(ScanEnd::NotStarted, &report).unwrap().0.is_empty());
}

#[test]
fn ffmpeg_is_asked_for_silence() {
    let (before, after) = silence_detect_args(&config(), tail_window(&config()));
    assert_eq!(before, ["-ss", "540.000000"]);
    assert_eq!(
        after,
        [
            "-t",
            "60.000000",
            "-map",
            "0:2",
            "-vn",
            "-af",
            "asetpts=PTS-STARTPTS,silencedetect=noise=-80dB:duration=0.0500",
            "-f",
            "null",
            "-",
        ]
    );
    assert_eq!(
        silence_remove_filter(&config()),
        "silenceremove=start_periods=1:start_silence=0.0500:start_threshold=-80dB,areverse,\
         silenceremove=start_periods=1:start_silence=0.0500:start_threshold=-80dB,areverse"
    );
}
