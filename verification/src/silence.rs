//! Silence at the two ends of an input: what to ask of FFmpeg, and what its
//! answer means. Times are in millionths of a second.

use vstd::prelude::*;
use crate::fixed::at_least_zero;
use crate::fixed::below;
use crate::fixed::clamp;
use crate::fixed::clamped;
use crate::fixed::four_decimals;
use crate::fixed::four_decimals_text;
use crate::fixed::is_below;
use crate::fixed::is_bounded;
use crate::fixed::is_finite;
use crate::fixed::is_upto;
use crate::fixed::micros_of;
use crate::fixed::opposite;
use crate::fixed::parse_micros;
use crate::fixed::plus;
use crate::fixed::shortest;
use crate::fixed::shortest_text;
use crate::fixed::six_decimals;
use crate::fixed::six_decimals_text;
use crate::fixed::sum_of;
use crate::fixed::upto;
use crate::fixed::NOT_A_NUMBER;
use crate::outside::lossy;
use crate::outside::lossy_text;
use crate::codec_args::push_one;
use crate::codec_args::push_pair;
use crate::process::ProcessTracker;
use crate::session::JobCancellation;
use crate::text::after;
use crate::text::after_text;
use crate::text::decimal;
use crate::text::decimal_text;
use crate::text::first_word;
use crate::text::lines;
use crate::text::lines_of;
use crate::text::pieces;
use crate::text::split;
use crate::text::texts;
use crate::text::trim;
use crate::text::trimmed;
use crate::text::word;

verus! {

/// How much of each end of an input is looked at where it is read directly
/// from the network.
pub const DIRECT_BOUNDARY_SCAN_US: i64 = 60_000_000;

/// How long FFmpeg may look for silence, in seconds.
pub const SILENCE_PROCESS_TIMEOUT_SECS: u64 = 30;

/// How far a time may be from an end and still count as that end.
pub const TOLERANCE_US: i64 = 50_000;

/// Where to cut an input that is read directly from the network.
#[derive(Debug, Clone, Copy, PartialEq, Eq, Structural)]
pub struct DirectSilenceTrim {
    pub start_us: Option<i64>,
    pub end_us: Option<i64>,
}

/// What counts as silence.
#[derive(Debug)]
pub struct SilenceConfig {
    /// The level below which sound is silence, in millionths of a decibel.
    pub db: i64,
    /// How long silence has to last, in milliseconds.
    pub min_duration_ms: u32,
    /// How long the input is.
    pub total_duration_us: i64,
    /// The stream to look at; the default one where there is none.
    pub audio_stream_index: Option<usize>,
}

/// The part of an input to look at.
#[derive(Debug, Clone, Copy, PartialEq, Eq, Structural)]
pub struct ScanWindow {
    pub seek_us: Option<i64>,
    pub duration_us: Option<i64>,
}

/// What FFmpeg said of silence: the stretches that ended, the start of one that
/// did not, and how much was decoded.
pub struct ScanView {
    pub regions: Seq<(i64, i64)>,
    pub unclosed: Option<i64>,
    pub decoded: Option<i64>,
}

// Reading what FFmpeg says ---------------------------------------------------

/// The time that hours, minutes and seconds with colons between them write.
pub open spec fn hms_of(s: Seq<char>) -> Option<int> {
    let parts = pieces(s, ':');
    if parts.len() != 3 {
        None
    } else {
        match (micros_of(parts[0]), micros_of(parts[1]), micros_of(parts[2])) {
            (Some(h), Some(m), Some(sec)) => Some(
                if is_finite(h) && is_finite(m) && is_finite(sec) {
                    clamped(h * 3600 + m * 60 + sec)
                } else {
                    sum_of(sum_of(h, m), sec)
                },
            ),
            _ => None,
        }
    }
}

/// What a line that reports the start or the end of silence adds. A start that is
/// negative, or not a number, counts as zero.
pub open spec fn with_silence(scan: ScanView, line: Seq<char>) -> ScanView {
    match after_text(line, "silence_start:"@) {
        Some(rest) => match micros_of(trimmed(rest)) {
            Some(t) => ScanView {
                unclosed: Some(at_least_zero(t) as i64),
                ..scan
            },
            None => scan,
        },
        None => match (after_text(line, "silence_end:"@), scan.unclosed) {
            (Some(rest), Some(start)) => ScanView {
                unclosed: None,
                regions: match micros_of(trimmed(pieces(rest, '|')[0])) {
                    Some(end) => scan.regions.push((start, end as i64)),
                    None => scan.regions,
                },
                ..scan
            },
            _ => scan,
        },
    }
}

/// What a line that reports how much was decoded adds.
pub open spec fn with_time(scan: ScanView, line: Seq<char>) -> ScanView {
    match after_text(line, "time="@) {
        Some(rest) => match hms_of(first_word(rest)) {
            Some(t) => ScanView { decoded: Some(t as i64), ..scan },
            None => scan,
        },
        None => scan,
    }
}

/// What the lines of FFmpeg's report say, in order.
pub open spec fn scan_of(report: Seq<Seq<char>>) -> ScanView
    decreases report.len(),
{
    if report.len() == 0 {
        ScanView { regions: seq![], unclosed: None, decoded: None }
    } else {
        with_time(with_silence(scan_of(report.drop_last()), report.last()), report.last())
    }
}

/// The time that hours, minutes and seconds write; none for anything else.
pub fn parse_hms(s: &str) -> (r: Option<i64>)
    ensures
        match r {
            Some(t) => hms_of(s@) == Some(t as int),
            None => hms_of(s@) is None,
        },
{
    let parts: Vec<String> = split(s, ':');
    assert(texts(parts@).len() == parts@.len());
    if parts.len() != 3 {
        return None;
    }
    assert(texts(parts@)[0] == parts@[0]@);
    assert(texts(parts@)[1] == parts@[1]@);
    assert(texts(parts@)[2] == parts@[2]@);
    let h: i64 = match parse_micros(parts[0].as_str()) {
        Some(x) => x,
        None => {
            return None;
        },
    };
    let m: i64 = match parse_micros(parts[1].as_str()) {
        Some(x) => x,
        None => {
            return None;
        },
    };
    let sec: i64 = match parse_micros(parts[2].as_str()) {
        Some(x) => x,
        None => {
            return None;
        },
    };
    Some(
        if is_bounded(h) && is_bounded(m) && is_bounded(sec) {
            clamp(h as i128 * 3600 + m as i128 * 60 + sec as i128)
        } else {
            plus(plus(h, m), sec)
        },
    )
}

/// What FFmpeg's report says of silence: the stretches that ended, the start of
/// one that did not, and how much was decoded. What was decoded counts more
/// than the length that a container claims, which may be far off.
pub fn parse_silence_regions_full(stderr: &str) -> (r: (
    Vec<(i64, i64)>,
    Option<i64>,
    Option<i64>,
))
    ensures
        (ScanView { regions: r.0@, unclosed: r.1, decoded: r.2 }) == scan_of(lines_of(stderr@)),
{
    let report: Vec<String> = lines(stderr);
    let ghost all = lines_of(stderr@);
    let mut regions: Vec<(i64, i64)> = Vec::new();
    let mut unclosed: Option<i64> = None;
    let mut decoded: Option<i64> = None;
    let mut i: usize = 0;
    assert(all.take(0) =~= seq![]);
    while i < report.len()
        invariant
            i <= report@.len(),
            all == texts(report@),
            (ScanView { regions: regions@, unclosed, decoded }) == scan_of(all.take(i as int)),
        decreases report@.len() - i,
    {
        let line: &str = report[i].as_str();
        let ghost before = scan_of(all.take(i as int));
        assert(all.take(i + 1).drop_last() =~= all.take(i as int));
        assert(all.take(i + 1).last() == line@);
        match after(line, "silence_start:") {
            Some(rest) => {
                let number: String = trim(rest.as_str());
                match parse_micros(number.as_str()) {
                    Some(t) => {
                        unclosed = Some(
                            if t < 0 {
                                0
                            } else {
                                t
                            },
                        );
                    },
                    None => {},
                }
            },
            None => match after(line, "silence_end:") {
                Some(rest) => match unclosed {
                    Some(start) => {
                        unclosed = None;
                        let parts: Vec<String> = split(rest.as_str(), '|');
                        assert(texts(parts@).len() == parts@.len());
                        assert(texts(parts@)[0] == parts@[0]@);
                        let number: String = trim(parts[0].as_str());
                        match parse_micros(number.as_str()) {
                            Some(end) => {
                                regions.push((start, end));
                            },
                            None => {},
                        }
                    },
                    None => {},
                },
                None => {},
            },
        }
        assert((ScanView { regions: regions@, unclosed, decoded }) == with_silence(before, line@));
        match after(line, "time=") {
            Some(rest) => {
                let token: String = word(rest.as_str());
                match parse_hms(token.as_str()) {
                    Some(t) => {
                        decoded = Some(t);
                    },
                    None => {},
                }
            },
            None => {},
        }
        i = i + 1;
    }
    assert(all.take(i as int) =~= all);
    (regions, unclosed, decoded)
}

/// The stretches of silence that ended.
pub fn parse_silence_regions(stderr: &str) -> (r: Vec<(i64, i64)>)
    ensures
        r@ == scan_of(lines_of(stderr@)).regions,
{
    parse_silence_regions_full(stderr).0
}

// Where silence touches an end -----------------------------------------------

/// A region starts at the start.
pub open spec fn at_start(start: int) -> bool {
    upto(start, TOLERANCE_US as int)
}

/// A region starts behind the start.
pub open spec fn behind_start(start: int) -> bool {
    below(TOLERANCE_US as int, start)
}

/// A region ends where the input ends. An end that is infinite, or not a number,
/// is no such place.
pub open spec fn at_end(end: int, total: int) -> bool {
    is_finite(end) && is_finite(total) && -TOLERANCE_US <= total - end <= TOLERANCE_US
}

fn starts_at_start(start: i64) -> (r: bool)
    ensures
        r == at_start(start as int),
{
    is_upto(start, TOLERANCE_US)
}

fn ends_at_end(end: i64, total: i64) -> (r: bool)
    ensures
        r == at_end(end as int, total as int),
{
    if !is_bounded(end) || !is_bounded(total) {
        return false;
    }
    let gap: i128 = total as i128 - end as i128;
    gap <= TOLERANCE_US as i128 && gap >= -(TOLERANCE_US as i128)
}

/// The length that counts: what was decoded, where that is known.
pub open spec fn effective_end(decoded: Option<i64>, total: i64) -> i64 {
    match decoded {
        Some(t) => t,
        None => total,
    }
}

/// Whether there is silence at the start, and at the end.
pub fn boundary_flags(
    regions: &Vec<(i64, i64)>,
    unclosed_tail: Option<i64>,
    decoded_duration: Option<i64>,
    total_duration: i64,
) -> (r: (bool, bool))
    ensures
        r.0 == ((exists|i: int| 0 <= i < regions@.len() && at_start(#[trigger] regions@[i].0 as int))
            || (unclosed_tail is Some && at_start(unclosed_tail->0 as int))),
        r.1 == (unclosed_tail is Some || exists|i: int|
            0 <= i < regions@.len() && at_end(
                #[trigger] regions@[i].1 as int,
                effective_end(decoded_duration, total_duration) as int,
            )),
{
    let end: i64 = match decoded_duration {
        Some(t) => t,
        None => total_duration,
    };
    let mut starts: bool = match unclosed_tail {
        Some(t) => starts_at_start(t),
        None => false,
    };
    let mut ends: bool = unclosed_tail.is_some();
    let mut i: usize = 0;
    while i < regions.len()
        invariant
            i <= regions@.len(),
            end == effective_end(decoded_duration, total_duration),
            starts == ((exists|k: int| 0 <= k < i && at_start(#[trigger] regions@[k].0 as int)) || (
            unclosed_tail is Some && at_start(unclosed_tail->0 as int))),
            ends == (unclosed_tail is Some || exists|k: int|
                0 <= k < i && at_end(#[trigger] regions@[k].1 as int, end as int)),
        decreases regions@.len() - i,
    {
        let region: (i64, i64) = regions[i];
        if starts_at_start(region.0) {
            assert(at_start(regions@[i as int].0 as int));
            starts = true;
        }
        if ends_at_end(region.1, end) {
            assert(at_end(regions@[i as int].1 as int, end as int));
            ends = true;
        }
        i = i + 1;
    }
    (starts, ends)
}

/// Where silence at the start of the window has to end in front of.
pub open spec fn head_limit(scan_duration: i64) -> int {
    at_least_zero(sum_of(scan_duration as int, -TOLERANCE_US))
}

/// A region that starts at the start and ends well within the window.
pub open spec fn heads(region: (i64, i64), scan_duration: i64) -> bool {
    at_start(region.0 as int) && below(region.1 as int, head_limit(scan_duration))
}

/// The end of the first such region.
pub open spec fn head_boundary(regions: Seq<(i64, i64)>, scan_duration: i64) -> Option<i64>
    decreases regions.len(),
{
    if regions.len() == 0 {
        None
    } else if heads(regions[0], scan_duration) {
        Some(regions[0].1)
    } else {
        head_boundary(regions.skip(1), scan_duration)
    }
}

/// Where sound starts, if that is known: the end of silence at the start of the
/// window, provided that it ends within the window.
pub fn direct_head_boundary(regions: &Vec<(i64, i64)>, scan_duration: i64) -> (r: Option<i64>)
    ensures
        r == head_boundary(regions@, scan_duration),
{
    let before: i64 = plus(scan_duration, -TOLERANCE_US);
    let limit: i64 = if before < 0 {
        0
    } else {
        before
    };
    let mut i: usize = 0;
    assert(regions@.skip(0) =~= regions@);
    while i < regions.len()
        invariant
            i <= regions@.len(),
            limit == head_limit(scan_duration),
            head_boundary(regions@, scan_duration) == head_boundary(
                regions@.skip(i as int),
                scan_duration,
            ),
        decreases regions@.len() - i,
    {
        let region: (i64, i64) = regions[i];
        if starts_at_start(region.0) && is_below(region.1, limit) {
            return Some(region.1);
        }
        assert(regions@.skip(i as int).skip(1) =~= regions@.skip(i + 1));
        i = i + 1;
    }
    None
}

/// A region that starts behind the start and ends at the end.
pub open spec fn tails(region: (i64, i64), end: i64) -> bool {
    behind_start(region.0 as int) && at_end(region.1 as int, end as int)
}

/// The start of the last such region.
pub open spec fn last_tail(regions: Seq<(i64, i64)>, end: i64) -> Option<i64>
    decreases regions.len(),
{
    if regions.len() == 0 {
        None
    } else if tails(regions.last(), end) {
        Some(regions.last().0)
    } else {
        last_tail(regions.drop_last(), end)
    }
}

/// Where silence at the end of the window starts, if it starts within it.
pub open spec fn tail_boundary(
    regions: Seq<(i64, i64)>,
    unclosed: Option<i64>,
    decoded: Option<i64>,
    scan_duration: i64,
) -> Option<i64> {
    match unclosed {
        Some(start) => if behind_start(start as int) && upto(
            start as int,
            sum_of(scan_duration as int, TOLERANCE_US as int),
        ) {
            Some(start)
        } else {
            None
        },
        None => last_tail(regions, effective_end(decoded, scan_duration)),
    }
}

/// Where sound ends, if that is known: the start of silence at the end of the
/// window, provided that it starts within the window.
pub fn direct_tail_boundary(
    regions: &Vec<(i64, i64)>,
    unclosed_tail: Option<i64>,
    decoded_duration: Option<i64>,
    scan_duration: i64,
) -> (r: Option<i64>)
    ensures
        r == tail_boundary(regions@, unclosed_tail, decoded_duration, scan_duration),
{
    match unclosed_tail {
        Some(start) => {
            return if is_below(TOLERANCE_US, start) && is_upto(
                start,
                plus(scan_duration, TOLERANCE_US),
            ) {
                Some(start)
            } else {
                None
            };
        },
        None => {},
    }
    let end: i64 = match decoded_duration {
        Some(t) => t,
        None => scan_duration,
    };
    let mut i: usize = regions.len();
    assert(regions@.take(i as int) =~= regions@);
    while i > 0
        invariant
            i <= regions@.len(),
            unclosed_tail is None,
            end == effective_end(decoded_duration, scan_duration),
            last_tail(regions@, end) == last_tail(regions@.take(i as int), end),
        decreases i,
    {
        let region: (i64, i64) = regions[i - 1];
        if is_below(TOLERANCE_US, region.0) && ends_at_end(region.1, end) {
            assert(tails(regions@.take(i as int).last(), end));
            return Some(region.0);
        }
        assert(regions@.take(i as int).drop_last() =~= regions@.take(i - 1));
        i = i - 1;
    }
    assert(regions@.take(0) =~= seq![]);
    None
}

// Asking FFmpeg --------------------------------------------------------------

/// The filter that reports silence.
pub open spec fn detect_filter(config: SilenceConfig) -> Seq<char> {
    "asetpts=PTS-STARTPTS,silencedetect=noise="@ + shortest(config.db as int) + "dB:duration="@
        + four_decimals(config.min_duration_ms as nat)
}

/// The arguments in front of the input.
pub open spec fn args_before_input(window: ScanWindow) -> Seq<Seq<char>> {
    match window.seek_us {
        Some(seek) => if seek > 0 {
            seq!["-ss"@, six_decimals(seek as int)]
        } else {
            seq![]
        },
        None => seq![],
    }
}

/// The arguments behind the input.
pub open spec fn args_after_input(config: SilenceConfig, window: ScanWindow) -> Seq<Seq<char>> {
    (match window.duration_us {
        Some(duration) => seq!["-t"@, six_decimals(duration as int)],
        None => seq![],
    }) + (match config.audio_stream_index {
        Some(index) => seq!["-map"@, "0:"@ + decimal(index as nat)],
        None => seq![],
    }) + seq!["-vn"@, "-af"@, detect_filter(config), "-f"@, "null"@, "-"@]
}

fn detect_filter_text(config: &SilenceConfig) -> (r: String)
    ensures
        r@ == detect_filter(*config),
{
    let mut r: String = "asetpts=PTS-STARTPTS,silencedetect=noise=".to_owned();
    let level: String = shortest_text(config.db);
    r.append(level.as_str());
    r.append("dB:duration=");
    let duration: String = four_decimals_text(config.min_duration_ms);
    r.append(duration.as_str());
    r
}

/// The arguments for a look at the silence in a window: those in front of the
/// input and those behind it.
pub fn silence_detect_args(config: &SilenceConfig, window: ScanWindow) -> (r: (
    Vec<String>,
    Vec<String>,
))
    ensures
        texts(r.0@) == args_before_input(window),
        texts(r.1@) == args_after_input(*config, window),
{
    let mut before: Vec<String> = Vec::new();
    match window.seek_us {
        Some(seek) => {
            if seek > 0 {
                push_pair(&mut before, "-ss", six_decimals_text(seek));
            }
        },
        None => {},
    }
    assert(texts(before@) =~= args_before_input(window));
    let mut after_args: Vec<String> = Vec::new();
    match window.duration_us {
        Some(duration) => {
            push_pair(&mut after_args, "-t", six_decimals_text(duration));
        },
        None => {},
    }
    match config.audio_stream_index {
        Some(index) => {
            let mut stream: String = "0:".to_owned();
            let number: String = decimal_text(index as u64);
            stream.append(number.as_str());
            push_pair(&mut after_args, "-map", stream);
        },
        None => {},
    }
    push_one(&mut after_args, "-vn");
    push_pair(&mut after_args, "-af", detect_filter_text(config));
    push_pair(&mut after_args, "-f", "null".to_owned());
    push_one(&mut after_args, "-");
    assert(texts(after_args@) =~= args_after_input(*config, window));
    (before, after_args)
}

/// How a look at silence came to an end.
#[derive(Debug, Clone, Copy, PartialEq, Eq, Structural)]
pub enum ScanEnd {
    /// FFmpeg could not be started.
    NotStarted,
    Finished,
    Cancelled,
    TimedOut,
}

/// What a look at silence has found: nothing where it came to no end of its own.
pub open spec fn scan_found(end: ScanEnd, stderr: Seq<u8>) -> ScanView {
    if end == ScanEnd::Finished {
        scan_of(lines_of(lossy_text(stderr)))
    } else {
        ScanView { regions: seq![], unclosed: None, decoded: None }
    }
}

/// What a look at silence has found, from how it ended and what FFmpeg wrote;
/// an error where the session is being stopped.
pub fn silence_scan_result(end: ScanEnd, stderr: &Vec<u8>) -> (r: Result<
    (Vec<(i64, i64)>, Option<i64>, Option<i64>),
    String,
>)
    ensures
        match r {
            Ok(scan) => end != ScanEnd::Cancelled && (ScanView {
                regions: scan.0@,
                unclosed: scan.1,
                decoded: scan.2,
            }) == scan_found(end, stderr@),
            Err(e) => end == ScanEnd::Cancelled && e@ == "conversion cancelled"@,
        },
{
    match end {
        ScanEnd::Cancelled => Err("conversion cancelled".to_owned()),
        ScanEnd::Finished => {
            let text: String = lossy(stderr);
            Ok(parse_silence_regions_full(text.as_str()))
        },
        _ => {
            let none: Vec<(i64, i64)> = Vec::new();
            assert(none@ =~= seq![]);
            Ok((none, None, None))
        },
    }
}

// Cutting an input that is read directly -------------------------------------

/// How much of an end is looked at; not a number where the length is none.
pub open spec fn scan_length(total: i64) -> i64 {
    if total == NOT_A_NUMBER {
        total
    } else if total < 0 {
        0
    } else if total > DIRECT_BOUNDARY_SCAN_US {
        DIRECT_BOUNDARY_SCAN_US
    } else {
        total
    }
}

/// Where the look at the end of the input starts.
pub open spec fn tail_offset(total: i64) -> int {
    at_least_zero(sum_of(total as int, opposite(scan_length(total) as int)))
}

fn window_length(total: i64) -> (r: i64)
    ensures
        r == scan_length(total),
{
    if total == NOT_A_NUMBER {
        total
    } else if total < 0 {
        0
    } else if total > DIRECT_BOUNDARY_SCAN_US {
        DIRECT_BOUNDARY_SCAN_US
    } else {
        total
    }
}

fn offset_of_tail(total: i64) -> (r: i64)
    ensures
        r == tail_offset(total),
{
    let length: i64 = window_length(total);
    if length == NOT_A_NUMBER {
        return 0;
    }
    let offset: i64 = plus(total, -length);
    if offset < 0 {
        0
    } else {
        offset
    }
}

/// The window at the start of an input.
pub fn head_window(config: &SilenceConfig) -> (r: ScanWindow)
    ensures
        r.seek_us is None,
        r.duration_us == Some(scan_length(config.total_duration_us)),
{
    ScanWindow { seek_us: None, duration_us: Some(window_length(config.total_duration_us)) }
}

/// The window at the end of an input.
pub fn tail_window(config: &SilenceConfig) -> (r: ScanWindow)
    ensures
        r.seek_us == Some(tail_offset(config.total_duration_us) as i64),
        r.duration_us == Some(scan_length(config.total_duration_us)),
{
    let length: i64 = window_length(config.total_duration_us);
    let offset: i64 = offset_of_tail(config.total_duration_us);
    ScanWindow { seek_us: Some(offset), duration_us: Some(length) }
}

/// Where to cut, from what was found at the two ends: never the end at or in
/// front of the start.
pub open spec fn direct_trim(total: i64, head: ScanView, tail: ScanView) -> DirectSilenceTrim {
    let length = scan_length(total);
    let start = head_boundary(head.regions, length);
    let end = match tail_boundary(tail.regions, tail.unclosed, tail.decoded, length) {
        Some(relative) => Some(sum_of(tail_offset(total), relative as int)),
        None => None,
    };
    DirectSilenceTrim {
        start_us: start,
        end_us: match end {
            Some(e) => if start is None || below(start->0 as int, e) {
                Some(e as i64)
            } else {
                None
            },
            None => None,
        },
    }
}

/// Where to cut, from what was found at the two ends.
pub fn direct_boundary_trim(
    config: &SilenceConfig,
    head: &(Vec<(i64, i64)>, Option<i64>, Option<i64>),
    tail: &(Vec<(i64, i64)>, Option<i64>, Option<i64>),
) -> (r: DirectSilenceTrim)
    ensures
        r == direct_trim(
            config.total_duration_us,
            ScanView { regions: head.0@, unclosed: head.1, decoded: head.2 },
            ScanView { regions: tail.0@, unclosed: tail.1, decoded: tail.2 },
        ),
{
    let length: i64 = window_length(config.total_duration_us);
    let start: Option<i64> = direct_head_boundary(&head.0, length);
    let offset: i64 = offset_of_tail(config.total_duration_us);
    let end: Option<i64> = match direct_tail_boundary(&tail.0, tail.1, tail.2, length) {
        Some(relative) => Some(plus(offset, relative)),
        None => None,
    };
    let kept: Option<i64> = match (end, start) {
        (Some(e), Some(s)) => if is_below(s, e) {
            Some(e)
        } else {
            None
        },
        (e, None) => e,
        _ => None,
    };
    DirectSilenceTrim { start_us: start, end_us: kept }
}

/// A cut never removes everything: the end lies behind the start.
pub proof fn a_cut_leaves_something(total: i64, head: ScanView, tail: ScanView)
    ensures
        ({
            let trim = direct_trim(total, head, tail);
            trim.start_us is Some && trim.end_us is Some ==> trim.start_us->0 < trim.end_us->0
        }),
{
}

/// Silence that fills the whole window at the end gives no place to cut.
pub proof fn a_silent_window_is_not_cut(
    regions: Seq<(i64, i64)>,
    unclosed: i64,
    decoded: Option<i64>,
    scan_duration: i64,
)
    requires
        at_start(unclosed as int),
    ensures
        tail_boundary(regions, Some(unclosed), decoded, scan_duration) is None,
{
}

/// The filter that cuts an input that is read directly, where there is a cut.
pub open spec fn atrim_filter(trim: DirectSilenceTrim) -> Option<Seq<char>> {
    match (trim.start_us, trim.end_us) {
        (Some(start), Some(end)) => Some(
            "atrim=start="@ + six_decimals(start as int) + ":end="@ + six_decimals(end as int)
                + ",asetpts=PTS-STARTPTS"@,
        ),
        (Some(start), None) => Some(
            "atrim=start="@ + six_decimals(start as int) + ",asetpts=PTS-STARTPTS"@,
        ),
        (None, Some(end)) => Some(
            "atrim=end="@ + six_decimals(end as int) + ",asetpts=PTS-STARTPTS"@,
        ),
        (None, None) => None,
    }
}

/// The filter that cuts an input that is read directly.
pub fn direct_trim_filter(trim: DirectSilenceTrim) -> (r: Option<String>)
    ensures
        crate::text::opt_text(r) == atrim_filter(trim),
{
    let mut r: String = String::new();
    match (trim.start_us, trim.end_us) {
        (None, None) => {
            return None;
        },
        (Some(start), Some(end)) => {
            r.append("atrim=start=");
            let first: String = six_decimals_text(start);
            r.append(first.as_str());
            r.append(":end=");
            let second: String = six_decimals_text(end);
            r.append(second.as_str());
        },
        (Some(start), None) => {
            r.append("atrim=start=");
            let first: String = six_decimals_text(start);
            r.append(first.as_str());
        },
        (None, Some(end)) => {
            r.append("atrim=end=");
            let second: String = six_decimals_text(end);
            r.append(second.as_str());
        },
    }
    r.append(",asetpts=PTS-STARTPTS");
    assert(r@ =~= atrim_filter(trim)->0);
    Some(r)
}

/// The filter that removes silence at the start.
pub open spec fn head_filter(config: SilenceConfig) -> Seq<char> {
    "silenceremove=start_periods=1:start_silence="@ + four_decimals(config.min_duration_ms as nat)
        + ":start_threshold="@ + shortest(config.db as int) + "dB"@
}

/// The filter that removes silence at both ends: at the start, and once more at
/// the start of what is played backwards.
pub open spec fn both_ends_filter(config: SilenceConfig) -> Seq<char> {
    head_filter(config) + ",areverse,"@ + head_filter(config) + ",areverse"@
}

/// The filter that removes silence at both ends.
pub fn silence_remove_filter(config: &SilenceConfig) -> (r: String)
    ensures
        r@ == both_ends_filter(*config),
{
    let mut head: String = "silenceremove=start_periods=1:start_silence=".to_owned();
    let duration: String = four_decimals_text(config.min_duration_ms);
    head.append(duration.as_str());
    head.append(":start_threshold=");
    let level: String = shortest_text(config.db);
    head.append(level.as_str());
    head.append("dB");
    let mut r: String = head.clone();
    r.append(",areverse,");
    r.append(head.as_str());
    r.append(",areverse");
    r
}

// What is found, and what is done with it ------------------------------------

/// A line that reports a start of silence opens a stretch at that time, or at
/// zero for a time below; a line that reports an end closes the stretch, which
/// reaches from the start to that end. Stretches come in the order of the report.
pub proof fn a_reported_stretch_is_found(
    report: Seq<Seq<char>>,
    first: Seq<char>,
    start_text: Seq<char>,
    second: Seq<char>,
    end_text: Seq<char>,
)
    requires
        after_text(first, "silence_start:"@) == Some(start_text),
        micros_of(trimmed(start_text)) is Some,
        after_text(second, "silence_start:"@) is None,
        after_text(second, "silence_end:"@) == Some(end_text),
        micros_of(trimmed(pieces(end_text, '|')[0])) is Some,
        i64::MIN <= micros_of(trimmed(start_text))->0 <= i64::MAX,
        i64::MIN <= micros_of(trimmed(pieces(end_text, '|')[0]))->0 <= i64::MAX,
    ensures
        ({
            let begun = scan_of(report.push(first));
            let closed = scan_of(report.push(first).push(second));
            let said = micros_of(trimmed(start_text))->0;
            let start = if said < 0 {
                0
            } else {
                said
            };
            let end = micros_of(trimmed(pieces(end_text, '|')[0]))->0;
            &&& begun.unclosed is Some && begun.unclosed->0 == start
            &&& begun.regions == scan_of(report).regions
            &&& closed.unclosed is None
            &&& closed.regions.len() == scan_of(report).regions.len() + 1
            &&& closed.regions.drop_last() == scan_of(report).regions
            &&& closed.regions.last().0 == start && closed.regions.last().1 == end
        }),
{
    assert(report.push(first).drop_last() =~= report);
    assert(report.push(first).push(second).drop_last() =~= report.push(first));
    let closed = scan_of(report.push(first).push(second));
    assert(closed.regions.drop_last() =~= scan_of(report).regions);
}

/// A line that reports neither a start nor an end of silence changes nothing of
/// the stretches; one that reports no time changes nothing of how far the input
/// was decoded, and one that does is what counts from then on.
pub proof fn other_lines_change_nothing(report: Seq<Seq<char>>, line: Seq<char>)
    ensures
        ({
            let before = scan_of(report);
            let after = scan_of(report.push(line));
            &&& after_text(line, "silence_start:"@) is None && after_text(line, "silence_end:"@) is None
                ==> after.regions == before.regions && after.unclosed == before.unclosed
            &&& after_text(line, "time="@) is None ==> after.decoded == before.decoded
            &&& after_text(line, "time="@) matches Some(rest) ==> match hms_of(first_word(rest)) {
                Some(t) => i64::MIN <= t <= i64::MAX ==> after.decoded is Some && after.decoded->0
                    == t,
                None => after.decoded == before.decoded,
            }
        }),
{
    assert(report.push(line).drop_last() =~= report);
}

/// The time of a clock is its hours, minutes and seconds together, where none of
/// them is beyond all bounds.
pub proof fn a_clock_counts_in_sixties(h: Seq<char>, m: Seq<char>, sec: Seq<char>)
    requires
        !h.contains(':'),
        !m.contains(':'),
        !sec.contains(':'),
        micros_of(h) is Some && 0 <= micros_of(h)->0 < 1_000_000_000_000_000,
        micros_of(m) is Some && 0 <= micros_of(m)->0 < 1_000_000_000_000_000,
        micros_of(sec) is Some && 0 <= micros_of(sec)->0 < 1_000_000_000_000_000,
    ensures
        hms_of(h.push(':') + m.push(':') + sec) == Some(
            (micros_of(h)->0 * 60 + micros_of(m)->0) * 60 + micros_of(sec)->0,
        ),
{
    let s = h.push(':') + m.push(':') + sec;
    let rest = m.push(':') + sec;
    lemma_pieces(h, rest, s);
    lemma_pieces(m, sec, rest);
    assert(pieces(sec, ':') =~= seq![sec]);
    assert(pieces(rest, ':') =~= seq![m, sec]);
    assert(pieces(s, ':') =~= seq![h, m, sec]);
}

proof fn lemma_pieces(first: Seq<char>, rest: Seq<char>, s: Seq<char>)
    requires
        !first.contains(':'),
        s =~= first.push(':') + rest,
    ensures
        pieces(s, ':') == seq![first] + pieces(rest, ':'),
{
    let at = first.len() as int;
    assert(s[at] == ':');
    assert(s.contains(':'));
    s.index_of_first_ensures(':');
    let i = s.index_of_first(':')->0;
    if i < at {
        assert(first[i] == s[i]);
    }
    assert(i == at);
    assert(s.take(i) =~= first);
    assert(s.skip(i + 1) =~= rest);
}

/// Sound starts where the first stretch ends that begins at the start of the
/// window and ends well within it, by more than the twentieth part of a second;
/// where there is no such stretch, that is not known.
pub proof fn sound_starts_behind_the_first_silence(regions: Seq<(i64, i64)>, scan_duration: i64)
    requires
        50_000 <= scan_duration < i64::MAX,
    ensures
        match head_boundary(regions, scan_duration) {
            Some(t) => exists|i: int|
                {
                    &&& 0 <= i < regions.len()
                    &&& opens_window(#[trigger] regions[i], scan_duration)
                    &&& t == regions[i].1
                    &&& forall|k: int|
                        0 <= k < i ==> !opens_window(#[trigger] regions[k], scan_duration)
                },
            None => forall|k: int|
                0 <= k < regions.len() ==> !opens_window(#[trigger] regions[k], scan_duration),
        },
    decreases regions.len(),
{
    if regions.len() > 0 {
        assert(heads(regions[0], scan_duration) == opens_window(regions[0], scan_duration));
        if heads(regions[0], scan_duration) {
            assert(opens_window(regions[0], scan_duration));
        } else {
            let rest = regions.skip(1);
            sound_starts_behind_the_first_silence(rest, scan_duration);
            match head_boundary(regions, scan_duration) {
                Some(t) => {
                    let i = choose|i: int|
                        {
                            &&& 0 <= i < rest.len()
                            &&& opens_window(#[trigger] rest[i], scan_duration)
                            &&& t == rest[i].1
                            &&& forall|k: int|
                                0 <= k < i ==> !opens_window(#[trigger] rest[k], scan_duration)
                        };
                    assert(regions[i + 1] == rest[i]);
                    assert forall|k: int| 0 <= k < i + 1 implies !opens_window(
                        #[trigger] regions[k],
                        scan_duration,
                    ) by {
                        if k > 0 {
                            assert(rest[k - 1] == regions[k]);
                        }
                    }
                },
                None => {
                    assert forall|k: int| 0 <= k < regions.len() implies !opens_window(
                        #[trigger] regions[k],
                        scan_duration,
                    ) by {
                        if k > 0 {
                            assert(rest[k - 1] == regions[k]);
                        }
                    }
                },
            }
        }
    }
}

/// A stretch begins at the start of a window and ends well within it.
pub open spec fn opens_window(region: (i64, i64), scan_duration: i64) -> bool {
    &&& region.0 != i64::MIN && region.0 <= 50_000
    &&& region.1 != i64::MIN && region.1 < scan_duration - 50_000
}

/// A stretch begins within a window and ends where the window ends.
pub open spec fn closes_window(region: (i64, i64), end: i64) -> bool {
    &&& region.0 > 50_000
    &&& i64::MIN + 1 < region.1 < i64::MAX
    &&& end - 50_000 <= region.1 <= end + 50_000
}

/// Sound ends where silence starts that never ended, if it starts within the
/// window; or else where the last stretch starts that begins within the window and
/// ends where it ends, which is how far it was decoded, or else its length.
pub proof fn sound_ends_in_front_of_the_last_silence(
    regions: Seq<(i64, i64)>,
    unclosed: Option<i64>,
    decoded: Option<i64>,
    scan_duration: i64,
)
    requires
        0 <= scan_duration < i64::MAX - 50_001,
        decoded is Some ==> i64::MIN + 1 < decoded->0 < i64::MAX,
    ensures
        ({
            let found = tail_boundary(regions, unclosed, decoded, scan_duration);
            let end = if decoded is Some {
                decoded->0
            } else {
                scan_duration
            };
            match unclosed {
                Some(start) => found == (if 50_000 < start <= scan_duration + 50_000 {
                    Some(start)
                } else {
                    None
                }),
                None => match found {
                    Some(t) => exists|i: int|
                        {
                            &&& 0 <= i < regions.len()
                            &&& closes_window(#[trigger] regions[i], end)
                            &&& t == regions[i].0
                            &&& forall|k: int|
                                i < k < regions.len() ==> !closes_window(#[trigger] regions[k], end)
                        },
                    None => forall|k: int|
                        0 <= k < regions.len() ==> !closes_window(#[trigger] regions[k], end),
                },
            }
        }),
{
    lemma_last_tail(regions, effective_end(decoded, scan_duration));
}

proof fn lemma_last_tail(regions: Seq<(i64, i64)>, end: i64)
    requires
        i64::MIN + 1 < end < i64::MAX,
    ensures
        match last_tail(regions, end) {
            Some(t) => exists|i: int|
                {
                    &&& 0 <= i < regions.len()
                    &&& closes_window(#[trigger] regions[i], end)
                    &&& t == regions[i].0
                    &&& forall|k: int|
                        i < k < regions.len() ==> !closes_window(#[trigger] regions[k], end)
                },
            None => forall|k: int|
                0 <= k < regions.len() ==> !closes_window(#[trigger] regions[k], end),
        },
    decreases regions.len(),
{
    if regions.len() > 0 {
        let last = regions.len() - 1;
        assert(tails(regions[last], end) == closes_window(regions[last], end));
        let rest = regions.drop_last();
        lemma_last_tail(rest, end);
        if tails(regions[last], end) {
            assert(closes_window(regions[last], end));
        } else {
            match last_tail(rest, end) {
                Some(t) => {
                    let i = choose|i: int|
                        {
                            &&& 0 <= i < rest.len()
                            &&& closes_window(#[trigger] rest[i], end)
                            &&& t == rest[i].0
                            &&& forall|k: int|
                                i < k < rest.len() ==> !closes_window(#[trigger] rest[k], end)
                        };
                    assert(regions[i] == rest[i]);
                    assert forall|k: int| i < k < regions.len() implies !closes_window(
                        #[trigger] regions[k],
                        end,
                    ) by {
                        if k < last {
                            assert(rest[k] == regions[k]);
                        }
                    }
                },
                None => {
                    assert forall|k: int| 0 <= k < regions.len() implies !closes_window(
                        #[trigger] regions[k],
                        end,
                    ) by {
                        if k < last {
                            assert(rest[k] == regions[k]);
                        }
                    }
                },
            }
        }
    }
}

/// Of an input that is read from the network the first minute and the last are
/// looked at, or all of it twice where it is shorter: the look at the end starts
/// where it has to for the two together to reach the end of the input.
pub proof fn a_minute_is_looked_at_on_both_sides(total: i64)
    requires
        0 <= total < i64::MAX,
    ensures
        scan_length(total) <= 60_000_000,
        scan_length(total) == 60_000_000 || scan_length(total) == total,
        tail_offset(total) + scan_length(total) == total,
        0 <= tail_offset(total),
{
}

/// An input that is read from the network is cut where sound starts in the window
/// at its start, and where it ends in the window at its end, counted from the
/// start of the input; the end is not cut where it would not lie behind the start.
pub proof fn a_cut_is_where_sound_starts_and_ends(total: i64, head: ScanView, tail: ScanView)
    requires
        0 <= total < i64::MAX,
    ensures
        ({
            let trim = direct_trim(total, head, tail);
            let length = if total > 60_000_000 {
                60_000_000
            } else {
                total
            };
            let ends = tail_boundary(tail.regions, tail.unclosed, tail.decoded, length);
            &&& trim.start_us == head_boundary(head.regions, length)
            &&& trim.end_us is Some ==> ends is Some
            &&& trim.end_us is None && ends is Some ==> trim.start_us is Some
            &&& (ends is Some && 0 <= ends->0 <= 1_000_000_000_000 && total <= 1_000_000_000_000
                && (trim.start_us is None || (trim.start_us->0 != i64::MIN && trim.start_us->0
                < total - length + ends->0))) ==> trim.end_us is Some && trim.end_us->0 == total
                - length + ends->0
        }),
{
}

/// The filter that cuts names the times of the cut, and only those; behind it time
/// starts at zero again.
pub proof fn the_filter_names_the_cut(trim: DirectSilenceTrim)
    ensures
        ({
            let f = atrim_filter(trim);
            &&& f is None <==> trim.start_us is None && trim.end_us is None
            &&& f is Some ==> "atrim="@.is_prefix_of(f->0) && ",asetpts=PTS-STARTPTS"@.is_suffix_of(
                f->0,
            )
            &&& (trim.start_us matches Some(t) && trim.end_us is None) ==> f->0.subrange(
                6,
                f->0.len() - 21,
            ) == "start="@ + six_decimals(trim.start_us->0 as int)
            &&& (trim.end_us matches Some(t) && trim.start_us is None) ==> f->0.subrange(
                6,
                f->0.len() - 21,
            ) == "end="@ + six_decimals(trim.end_us->0 as int)
            &&& (trim.end_us is Some && trim.start_us is Some) ==> f->0.subrange(
                6,
                f->0.len() - 21,
            ) == "start="@ + six_decimals(trim.start_us->0 as int) + ":end="@ + six_decimals(
                trim.end_us->0 as int,
            )
        }),
{
    reveal_strlit("atrim=");
    reveal_strlit("atrim=start=");
    reveal_strlit("atrim=end=");
    reveal_strlit("start=");
    reveal_strlit("end=");
    reveal_strlit(":end=");
    reveal_strlit(",asetpts=PTS-STARTPTS");
    assert("atrim=start="@ =~= "atrim="@ + "start="@);
    assert("atrim=end="@ =~= "atrim="@ + "end="@);
    let f = atrim_filter(trim);
    if f is Some {
        let text = f->0;
        let middle = text.subrange(6, text.len() - 21);
        assert(text.take(6) =~= "atrim="@);
        assert(text.skip(text.len() - 21) =~= ",asetpts=PTS-STARTPTS"@);
        match (trim.start_us, trim.end_us) {
            (Some(start), Some(end)) => {
                assert(middle =~= "start="@ + six_decimals(start as int) + ":end="@ + six_decimals(
                    end as int,
                ));
            },
            (Some(start), None) => {
                assert(middle =~= "start="@ + six_decimals(start as int));
            },
            (None, Some(end)) => {
                assert(middle =~= "end="@ + six_decimals(end as int));
            },
            _ => {},
        }
    }
}

/// Silence is looked for at the level and of the length that the settings give,
/// in the window that is asked for: from where it starts, if that is behind the
/// start of the input, and for as long as it is.
pub proof fn the_look_is_for_what_counts_as_silence(config: SilenceConfig, window: ScanWindow)
    ensures
        ({
            let before = args_before_input(window);
            let after = args_after_input(config, window);
            let f = after[after.len() - 4];
            &&& after.len() >= 6
            &&& after[after.len() - 5] == "-af"@
            &&& (":duration="@ + four_decimals(config.min_duration_ms as nat)).is_suffix_of(f)
            &&& ("silencedetect=noise="@ + shortest(config.db as int) + "dB"@).is_suffix_of(
                f.take(f.len() - 10 - four_decimals(config.min_duration_ms as nat).len()),
            )
            &&& window.duration_us matches Some(d) ==> after[0] == "-t"@ && after[1]
                == six_decimals(d as int)
            &&& match window.seek_us {
                Some(t) => if t > 0 {
                    before == seq!["-ss"@, six_decimals(t as int)]
                } else {
                    before.len() == 0
                },
                None => before.len() == 0,
            }
        }),
{
    reveal_strlit("asetpts=PTS-STARTPTS,silencedetect=noise=");
    reveal_strlit("silencedetect=noise=");
    reveal_strlit("dB:duration=");
    reveal_strlit(":duration=");
    reveal_strlit("dB");
    let after = args_after_input(config, window);
    let f = detect_filter(config);
    assert(after[after.len() - 4] == f);
    let length = four_decimals(config.min_duration_ms as nat);
    let level = "silencedetect=noise="@ + shortest(config.db as int) + "dB"@;
    assert(f.skip(f.len() - 10 - length.len()) =~= ":duration="@ + length);
    let first = f.take(f.len() - 10 - length.len());
    assert(first.skip(first.len() - level.len()) =~= level);
}

/// What a look at silence needs of the session.
pub struct SilenceContext<'a> {
    pub cancellation: &'a JobCancellation,
    pub processes: &'a ProcessTracker,
}

} // verus!
