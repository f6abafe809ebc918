//! The conversion of one file: what FFmpeg is asked, how far it has come, and
//! what follows what.

use vstd::prelude::*;
use crate::codec_args::build_codec_args;
use crate::codec_args::codec_args;
use crate::codec_args::codec_args_are_about_the_codec;
use crate::codec_args::push_one;
use crate::codec_args::push_pair;
use crate::fixed::INFINITE;
use crate::outside::lossy;
use crate::outside::lossy_text;
use crate::outside::uppercase;
use crate::outside::uppercase_text;
use crate::progress::min_int;
use crate::progress::WHOLE;
use crate::settings::Settings;
use crate::settings::SettingsView;
use crate::silence::args_after_input;
use crate::silence::args_before_input;
use crate::silence::at_end;
use crate::silence::at_start;
use crate::silence::atrim_filter;
use crate::silence::both_ends_filter;
use crate::silence::boundary_flags;
use crate::silence::direct_boundary_trim;
use crate::silence::direct_trim;
use crate::silence::direct_trim_filter;
use crate::silence::effective_end;
use crate::silence::head_window;
use crate::silence::scan_found;
use crate::silence::scan_length;
use crate::silence::silence_detect_args;
use crate::silence::silence_remove_filter;
use crate::silence::silence_scan_result;
use crate::silence::tail_offset;
use crate::silence::tail_window;
use crate::silence::ScanEnd;
use crate::silence::ScanView;
use crate::silence::ScanWindow;
use crate::silence::SilenceConfig;
use crate::text::decimal;
use crate::text::decimal_text;
use crate::text::join;
use crate::text::joined;
use crate::text::lines;
use crate::text::lines_of;
use crate::text::opt_text;
use crate::text::parse_u64;
use crate::text::skip_chars;
use crate::text::starts_with;
use crate::text::text_eq;
use crate::text::texts;
use crate::text::trim;
use crate::text::trimmed;
use crate::text::unsigned_upto;
use crate::types::tags_view;
use crate::types::FileInfo;
use crate::types::InfoView;

verus! {

// What FFmpeg is asked -------------------------------------------------------

/// The arguments in front of the input.
pub open spec fn head_args(threads: usize) -> Seq<Seq<char>> {
    seq!["-threads"@, decimal(threads as nat), "-y"@]
}

/// The stream that is converted: one of them, or the first that is audio. A
/// result holds one only.
pub open spec fn stream_choice(index: Option<usize>) -> Seq<char> {
    match index {
        Some(i) => "0:"@ + decimal(i as nat),
        None => "0:a:0"@,
    }
}

/// The name of a tag as a format writes it: two of them in capitals.
pub open spec fn tag_name(format: Seq<char>, name: Seq<char>) -> Seq<char> {
    if format == "flac"@ || format == "opus"@ {
        uppercase_text(name)
    } else {
        name
    }
}

/// The arguments that set the tags of the result to those of the input.
pub open spec fn tag_args(format: Seq<char>, tags: Seq<(Seq<char>, Seq<char>)>) -> Seq<Seq<char>>
    decreases tags.len(),
{
    if tags.len() == 0 {
        seq![]
    } else {
        tag_args(format, tags.drop_last()) + seq![
            "-metadata"@,
            tag_name(format, tags.last().0) + "="@ + tags.last().1,
        ]
    }
}

/// The arguments that put a filter in front of the codec.
pub open spec fn filter_args(filter: Option<Seq<char>>) -> Seq<Seq<char>> {
    match filter {
        Some(f) => seq!["-af"@, f],
        None => seq![],
    }
}

/// What a conversion is asked for, apart from the paths.
#[verifier::ext_equal]
pub struct JobView {
    pub format: Seq<char>,
    pub settings: SettingsView,
    pub info: InfoView,
    pub stream: Option<usize>,
    pub threads: usize,
    /// Where FFmpeg writes how far it has come.
    pub progress: Seq<char>,
    /// Whether the input is read directly from the network.
    pub direct: bool,
    /// Whether the result replaces the input.
    pub in_place: bool,
    pub ffmpeg: Seq<char>,
    pub input: Seq<char>,
    pub output: Seq<char>,
}

/// The arguments between the input and the result.
pub open spec fn tail_args(job: JobView, filter: Option<Seq<char>>) -> Seq<Seq<char>> {
    seq!["-map_metadata"@, "0"@, "-map"@, stream_choice(job.stream)] + tag_args(
        job.format,
        job.info.tags,
    ) + filter_args(filter) + codec_args(job.format, job.settings, job.info) + seq![
        "-progress"@,
        job.progress,
        "-nostats"@,
    ]
}

/// The stream with the cover, where the format can hold one. It is added in a
/// step of its own, as FFmpeg does not tell how far it has come where it writes
/// a picture too.
pub open spec fn cover_stream(format: Seq<char>, info: InfoView) -> Option<usize> {
    if format == "mp3"@ || format == "aac"@ || format == "flac"@ || format == "alac"@ {
        info.cover_art_stream_idx
    } else {
        None
    }
}

/// How far a conversion counts as having come when FFmpeg is done: not quite all
/// the way where a cover is still to be added.
pub open spec fn progress_ceiling_of(cover: Option<usize>) -> u64 {
    if cover is Some {
        990_000_000
    } else {
        WHOLE
    }
}

/// The conversion of one file, apart from the paths.
#[derive(Debug)]
pub struct ConvertJob {
    pub format: String,
    pub settings: Settings,
    pub info: FileInfo,
    pub stream: Option<usize>,
    pub threads: usize,
    pub progress: String,
    pub direct: bool,
    pub in_place: bool,
    pub ffmpeg: String,
    pub input: String,
    pub output: String,
}

impl View for ConvertJob {
    type V = JobView;

    open spec fn view(&self) -> JobView {
        JobView {
            format: self.format@,
            settings: self.settings@,
            info: self.info@,
            stream: self.stream,
            threads: self.threads,
            progress: self.progress@,
            direct: self.direct,
            in_place: self.in_place,
            ffmpeg: self.ffmpeg@,
            input: self.input@,
            output: self.output@,
        }
    }
}

/// The command as one line, for the user to repeat.
pub open spec fn command_line(job: JobView, filter: Option<Seq<char>>) -> Seq<char> {
    job.ffmpeg + " "@ + joined(head_args(job.threads), " "@) + " -i "@ + job.input + " "@ + joined(
        tail_args(job, filter),
        " "@,
    ) + " "@ + job.output
}

/// What FFmpeg wrote, or that it wrote nothing.
pub open spec fn report_of(stderr: Seq<char>) -> Seq<char> {
    if trimmed(stderr).len() == 0 {
        "(FFmpeg did not write anything to stderr.)"@
    } else {
        stderr
    }
}

/// What is said where FFmpeg fails.
pub open spec fn failure_text(
    job: JobView,
    filter: Option<Seq<char>>,
    status: Seq<char>,
    stderr: Seq<u8>,
) -> Seq<char> {
    "FFmpeg failed ("@ + status + ").\nCommand: "@ + command_line(job, filter)
        + "\n\nFFmpeg stderr:\n"@ + report_of(lossy_text(stderr))
}

/// What is said where FFmpeg fails to add the cover.
pub open spec fn cover_failure_text(status: Seq<char>, stderr: Seq<u8>) -> Seq<char> {
    "FFmpeg failed while attaching cover art ("@ + status + "): "@ + lossy_text(stderr)
}

fn push_tags(args: &mut Vec<String>, format: &str, tags: &Vec<(String, String)>)
    ensures
        texts(final(args)@) == texts(old(args)@) + tag_args(format@, tags_view(tags@)),
{
    let ghost before = texts(args@);
    let ghost all = tags_view(tags@);
    let capitals: bool = text_eq(format, "flac") || text_eq(format, "opus");
    let mut i: usize = 0;
    assert(all.take(0) =~= seq![]);
    assert(before + seq![] =~= before);
    while i < tags.len()
        invariant
            i <= tags@.len(),
            all == tags_view(tags@),
            capitals == (format@ == "flac"@ || format@ == "opus"@),
            texts(args@) == before + tag_args(format@, all.take(i as int)),
        decreases tags@.len() - i,
    {
        assert(all.take(i + 1).drop_last() =~= all.take(i as int));
        assert(all.take(i + 1).last() == (tags@[i as int].0@, tags@[i as int].1@));
        let mut value: String = if capitals {
            uppercase(tags[i].0.as_str())
        } else {
            tags[i].0.clone()
        };
        value.append("=");
        value.append(tags[i].1.as_str());
        let ghost so_far = texts(args@);
        let ghost text = value@;
        push_pair(args, "-metadata", value);
        assert(texts(args@) =~= before + tag_args(format@, all.take(i + 1)));
        i = i + 1;
    }
    assert(all.take(i as int) =~= all);
}

/// Appends a list of arguments.
fn push_all(args: &mut Vec<String>, more: Vec<String>)
    ensures
        texts(final(args)@) == texts(old(args)@) + texts(more@),
{
    let mut more = more;
    let ghost before = texts(args@);
    let ghost added = texts(more@);
    args.append(&mut more);
    assert(texts(args@) =~= before + added);
}

impl ConvertJob {
    /// The arguments in front of the input.
    pub fn head_args(&self) -> (r: Vec<String>)
        ensures
            texts(r@) == head_args(self@.threads),
    {
        let mut args: Vec<String> = Vec::new();
        push_pair(&mut args, "-threads", decimal_text(self.threads as u64));
        push_one(&mut args, "-y");
        assert(texts(args@) =~= head_args(self@.threads));
        args
    }

    /// The arguments between the input and the result.
    pub fn tail_args(&self, filter: &Option<String>) -> (r: Vec<String>)
        ensures
            texts(r@) == tail_args(self@, opt_text(*filter)),
    {
        let mut args: Vec<String> = Vec::new();
        push_pair(&mut args, "-map_metadata", "0".to_owned());
        let stream: String = match self.stream {
            Some(index) => {
                let mut stream: String = "0:".to_owned();
                let number: String = decimal_text(index as u64);
                stream.append(number.as_str());
                stream
            },
            None => "0:a:0".to_owned(),
        };
        push_pair(&mut args, "-map", stream);
        assert(texts(args@) =~= seq!["-map_metadata"@, "0"@, "-map"@, stream_choice(self.stream)]);
        push_tags(&mut args, self.format.as_str(), &self.info.tags);
        let ghost tagged = texts(args@);
        match filter {
            Some(f) => {
                push_pair(&mut args, "-af", f.clone());
            },
            None => {},
        }
        assert(texts(args@) =~= tagged + filter_args(opt_text(*filter)));
        let codec: Vec<String> = build_codec_args(self.format.as_str(), &self.settings, &self.info);
        push_all(&mut args, codec);
        let ghost coded = texts(args@);
        push_pair(&mut args, "-progress", self.progress.clone());
        push_one(&mut args, "-nostats");
        assert(texts(args@) =~= coded + seq!["-progress"@, self.progress@, "-nostats"@]);
        args
    }

    /// The stream with the cover, where the format can hold one.
    pub fn cover(&self) -> (r: Option<usize>)
        ensures
            r == cover_stream(self@.format, self@.info),
    {
        let format: &str = self.format.as_str();
        if text_eq(format, "mp3") || text_eq(format, "aac") || text_eq(format, "flac") || text_eq(
            format,
            "alac",
        ) {
            self.info.cover_art_stream_idx
        } else {
            None
        }
    }

    /// How far the conversion counts as having come when FFmpeg is done.
    pub fn progress_ceiling(&self) -> (r: u64)
        ensures
            r == progress_ceiling_of(cover_stream(self@.format, self@.info)),
    {
        if self.cover().is_some() {
            990_000_000
        } else {
            WHOLE
        }
    }

    /// The command as one line.
    fn command_text(&self, filter: &Option<String>) -> (r: String)
        ensures
            r@ == command_line(self@, opt_text(*filter)),
    {
        let head: Vec<String> = self.head_args();
        let tail: Vec<String> = self.tail_args(filter);
        let first: String = join(&head, " ");
        let second: String = join(&tail, " ");
        let mut r: String = self.ffmpeg.clone();
        r.append(" ");
        r.append(first.as_str());
        r.append(" -i ");
        r.append(self.input.as_str());
        r.append(" ");
        r.append(second.as_str());
        r.append(" ");
        r.append(self.output.as_str());
        r
    }

    /// What is said where FFmpeg fails.
    pub fn failure(&self, filter: &Option<String>, status: &str, stderr: &Vec<u8>) -> (r: String)
        ensures
            r@ == failure_text(self@, opt_text(*filter), status@, stderr@),
    {
        let report: String = lossy(stderr);
        let command: String = self.command_text(filter);
        let mut r: String = "FFmpeg failed (".to_owned();
        r.append(status);
        r.append(").\nCommand: ");
        r.append(command.as_str());
        r.append("\n\nFFmpeg stderr:\n");
        let inner: String = trim(report.as_str());
        if inner.as_str().is_empty() {
            r.append("(FFmpeg did not write anything to stderr.)");
        } else {
            r.append(report.as_str());
        }
        r
    }
}

/// The arguments that add a cover to a result: those in front of the result
/// without it, those between that and the input, and those behind.
pub open spec fn cover_args_of(stream: usize) -> (Seq<Seq<char>>, Seq<Seq<char>>, Seq<Seq<char>>) {
    (
        seq!["-y"@, "-i"@],
        seq!["-i"@],
        seq![
            "-map"@,
            "0:a:0"@,
            "-map"@,
            "1:"@ + decimal(stream as nat),
            "-map_metadata"@,
            "0"@,
            "-c"@,
            "copy"@,
            "-disposition:v:0"@,
            "attached_pic"@,
        ],
    )
}

/// The arguments that add a cover to a result.
pub fn cover_args(stream: usize) -> (r: (Vec<String>, Vec<String>, Vec<String>))
    ensures
        texts(r.0@) == cover_args_of(stream).0,
        texts(r.1@) == cover_args_of(stream).1,
        texts(r.2@) == cover_args_of(stream).2,
{
    let mut first: Vec<String> = Vec::new();
    push_one(&mut first, "-y");
    push_one(&mut first, "-i");
    assert(texts(first@) =~= cover_args_of(stream).0);
    let mut second: Vec<String> = Vec::new();
    push_one(&mut second, "-i");
    assert(texts(second@) =~= cover_args_of(stream).1);
    let mut third: Vec<String> = Vec::new();
    push_pair(&mut third, "-map", "0:a:0".to_owned());
    let mut picture: String = "1:".to_owned();
    let number: String = decimal_text(stream as u64);
    picture.append(number.as_str());
    push_pair(&mut third, "-map", picture);
    push_pair(&mut third, "-map_metadata", "0".to_owned());
    push_pair(&mut third, "-c", "copy".to_owned());
    push_pair(&mut third, "-disposition:v:0", "attached_pic".to_owned());
    assert(texts(third@) =~= cover_args_of(stream).2);
    (first, second, third)
}

// How far FFmpeg has come ----------------------------------------------------

/// The time that a line of FFmpeg's progress reports, in millionths of a second.
pub open spec fn reported_us(line: Seq<char>) -> Option<u64> {
    let prefix = "out_time_us="@;
    if prefix.is_prefix_of(line) {
        match unsigned_upto(trimmed(line.skip(prefix.len() as int)), u64::MAX as nat) {
            Some(n) => Some(n as u64),
            None => Some(0),
        }
    } else {
        None
    }
}

/// How far a conversion has come, from the time that FFmpeg has reached: nowhere
/// where the input has no end.
pub open spec fn reached(out_us: u64, duration_us: i64, ceiling: u64) -> int {
    if duration_us == INFINITE {
        0
    } else {
        min_int(out_us * WHOLE / (duration_us as int), WHOLE as int) * ceiling / (WHOLE as int)
    }
}

/// The time that a line of FFmpeg's progress reports.
pub fn progress_time(line: &str) -> (r: Option<u64>)
    ensures
        r == reported_us(line@),
{
    proof {
        reveal_strlit("out_time_us=");
    }
    if !starts_with(line, "out_time_us=") {
        return None;
    }
    let rest: String = skip_chars(line, 12);
    let number: String = trim(rest.as_str());
    match parse_u64(number.as_str()) {
        Some(n) => Some(n),
        None => Some(0),
    }
}

/// How far a conversion has come, in billionths; unknown where the length of the
/// input is.
pub fn progress_ratio(out_us: u64, duration_us: i64, ceiling: u64) -> (r: Option<u64>)
    requires
        ceiling <= WHOLE,
    ensures
        r == (if duration_us > 0 {
            Some(reached(out_us, duration_us, ceiling) as u64)
        } else {
            None
        }),
        r is Some ==> r->0 <= ceiling,
{
    if duration_us <= 0 {
        return None;
    }
    if duration_us == INFINITE {
        return Some(0);
    }
    let share: u128 = out_us as u128 * 1_000_000_000 / duration_us as u128;
    let part: u128 = if share > 1_000_000_000 {
        1_000_000_000
    } else {
        share
    };
    assert(part * ceiling <= 1_000_000_000 * ceiling) by (nonlinear_arith)
        requires
            0 <= part <= 1_000_000_000,
            0 <= ceiling,
    ;
    Some((part * ceiling as u128 / 1_000_000_000) as u64)
}

/// How far a conversion has come never exceeds what it counts for.
pub proof fn progress_stays_below_its_ceiling(out_us: u64, duration_us: i64, ceiling: u64)
    requires
        duration_us > 0,
        ceiling <= WHOLE,
    ensures
        0 <= reached(out_us, duration_us, ceiling) <= ceiling,
{
    let part = min_int(out_us * WHOLE / (duration_us as int), WHOLE as int);
    let d = duration_us as int;
    let o = out_us * WHOLE;
    assert(0 <= o / d) by (nonlinear_arith)
        requires
            o >= 0,
            d > 0,
    ;
    assert(0 <= part * ceiling <= 1_000_000_000 * ceiling) by (nonlinear_arith)
        requires
            0 <= part <= 1_000_000_000,
            0 <= ceiling,
    ;
}

/// The last time that a progress file reports, zero where it reports none.
pub open spec fn last_reported(report: Seq<Seq<char>>) -> u64
    decreases report.len(),
{
    if report.len() == 0 {
        0
    } else {
        match reported_us(report.last()) {
            Some(us) => us,
            None => last_reported(report.drop_last()),
        }
    }
}

/// A progress file says that FFmpeg is done.
pub open spec fn says_done(report: Seq<Seq<char>>) -> bool {
    exists|i: int| 0 <= i < report.len() && trimmed(#[trigger] report[i]) == "progress=end"@
}

/// The last time that a progress file reports, and whether it says that FFmpeg is
/// done.
pub fn read_progress_file(content: &str) -> (r: (u64, bool))
    ensures
        r.0 == last_reported(lines_of(content@)),
        r.1 == says_done(lines_of(content@)),
{
    let report: Vec<String> = lines(content);
    let ghost all = lines_of(content@);
    let mut last: u64 = 0;
    let mut done: bool = false;
    let mut i: usize = 0;
    assert(all.take(0) =~= seq![]);
    while i < report.len()
        invariant
            i <= report@.len(),
            all == texts(report@),
            last == last_reported(all.take(i as int)),
            done == exists|k: int| 0 <= k < i && trimmed(#[trigger] all[k]) == "progress=end"@,
        decreases report@.len() - i,
    {
        assert(all.take(i + 1).drop_last() =~= all.take(i as int));
        assert(all.take(i + 1).last() == report@[i as int]@);
        assert(all[i as int] == report@[i as int]@);
        match progress_time(report[i].as_str()) {
            Some(us) => {
                last = us;
            },
            None => {},
        }
        let inner: String = trim(report[i].as_str());
        if text_eq(inner.as_str(), "progress=end") {
            done = true;
        }
        i = i + 1;
    }
    assert(all.take(i as int) =~= all);
    (last, done)
}

// What follows what ----------------------------------------------------------

/// Where the conversion of one file is.
#[derive(Debug)]
pub enum ConvertStage {
    /// The file that the result will take the place of is moved aside.
    BackingUp,
    /// FFmpeg looks for silence in the whole input.
    Scanning,
    /// FFmpeg looks for silence at the start of the input.
    ScanningHead,
    /// FFmpeg looks for silence at the end of the input, with what it found at
    /// the start.
    ScanningTail((Vec<(i64, i64)>, Option<i64>, Option<i64>)),
    /// FFmpeg converts, with a filter or none.
    Running(Option<String>),
    /// FFmpeg adds the cover.
    Attaching,
    /// The result with the cover takes the place of the one without.
    Installing,
    /// The result takes the place of the input.
    Replacing,
    Ended,
}

/// What a stage holds.
pub enum StageView {
    BackingUp,
    Scanning,
    ScanningHead,
    ScanningTail(ScanView),
    Running(Option<Seq<char>>),
    Attaching,
    Installing,
    Replacing,
    Ended,
}

impl View for ConvertStage {
    type V = StageView;

    open spec fn view(&self) -> StageView {
        match self {
            ConvertStage::BackingUp => StageView::BackingUp,
            ConvertStage::Scanning => StageView::Scanning,
            ConvertStage::ScanningHead => StageView::ScanningHead,
            ConvertStage::ScanningTail(scan) => StageView::ScanningTail(
                ScanView { regions: scan.0@, unclosed: scan.1, decoded: scan.2 },
            ),
            ConvertStage::Running(filter) => StageView::Running(opt_text(*filter)),
            ConvertStage::Attaching => StageView::Attaching,
            ConvertStage::Installing => StageView::Installing,
            ConvertStage::Replacing => StageView::Replacing,
            ConvertStage::Ended => StageView::Ended,
        }
    }
}

/// What is to be done next.
#[derive(Debug)]
pub enum ConvertAction {
    /// The file in the place of the result is to be moved aside.
    BackUp,
    /// FFmpeg is to look for silence, with arguments in front of the input and
    /// behind it.
    Scan(Vec<String>, Vec<String>),
    /// FFmpeg is to convert, with arguments in front of the input and between it
    /// and the result.
    Run(Vec<String>, Vec<String>),
    /// FFmpeg is to add the cover from that stream of the input.
    AttachCover(usize),
    /// The result with the cover is to take the place of the one without.
    InstallCover,
    /// The result is to take the place of the input.
    ReplaceInput,
    /// The result is complete, and is to be kept.
    Succeed,
    /// There is no result, for the reason given; what was written is to be
    /// removed where that is said.
    Fail(String, bool),
}

/// What an action holds.
#[verifier::ext_equal]
pub enum ActionView {
    BackUp,
    Scan(Seq<Seq<char>>, Seq<Seq<char>>),
    Run(Seq<Seq<char>>, Seq<Seq<char>>),
    AttachCover(usize),
    InstallCover,
    ReplaceInput,
    Succeed,
    Fail(Seq<char>, bool),
}

impl View for ConvertAction {
    type V = ActionView;

    open spec fn view(&self) -> ActionView {
        match self {
            ConvertAction::BackUp => ActionView::BackUp,
            ConvertAction::Scan(a, b) => ActionView::Scan(texts(a@), texts(b@)),
            ConvertAction::Run(a, b) => ActionView::Run(texts(a@), texts(b@)),
            ConvertAction::AttachCover(i) => ActionView::AttachCover(*i),
            ConvertAction::InstallCover => ActionView::InstallCover,
            ConvertAction::ReplaceInput => ActionView::ReplaceInput,
            ConvertAction::Succeed => ActionView::Succeed,
            ConvertAction::Fail(e, clean) => ActionView::Fail(e@, *clean),
        }
    }
}

/// What came of an action.
#[derive(Debug)]
pub enum ConvertEvent {
    /// Files were moved as asked.
    Done,
    /// Files could not be moved, or a process could not be waited for.
    Failed(String),
    /// FFmpeg could not be started.
    NotStarted(String),
    /// The session is being stopped, and FFmpeg was with it.
    Cancelled,
    /// A look at silence came to an end, and FFmpeg wrote something.
    Scanned(ScanEnd, Vec<u8>),
    /// FFmpeg ended, well or not, with a status, and wrote something.
    Ended(bool, String, Vec<u8>),
}

/// The action of a stage can come to that.
pub open spec fn can_happen(stage: StageView, event: ConvertEvent) -> bool {
    match stage {
        StageView::BackingUp => event is Done || event is Failed,
        StageView::Scanning => event is Scanned,
        StageView::ScanningHead => event is Scanned,
        StageView::ScanningTail(_) => event is Scanned,
        StageView::Running(_) => event is NotStarted || event is Cancelled || event is Failed
            || event is Ended,
        StageView::Attaching => event is NotStarted || event is Cancelled || event is Failed
            || event is Ended,
        StageView::Installing => event is Done || event is Failed,
        StageView::Replacing => event is Done || event is Failed,
        StageView::Ended => false,
    }
}

pub open spec fn cancelled_text() -> Seq<char> {
    "conversion cancelled"@
}

/// What counts as silence in a conversion.
pub open spec fn silence_config_of(job: JobView) -> SilenceConfig {
    SilenceConfig {
        db: job.settings.silence_trim_db,
        min_duration_ms: job.settings.silence_trim_duration_ms,
        total_duration_us: job.info.duration_us,
        audio_stream_index: job.stream,
    }
}

pub open spec fn fails(reason: Seq<char>, clean: bool) -> (StageView, ActionView) {
    (StageView::Ended, ActionView::Fail(reason, clean))
}

pub open spec fn runs(job: JobView, filter: Option<Seq<char>>) -> (StageView, ActionView) {
    (
        StageView::Running(filter),
        ActionView::Run(head_args(job.threads), tail_args(job, filter)),
    )
}

pub open spec fn scans(job: JobView, stage: StageView, window: ScanWindow) -> (
    StageView,
    ActionView,
) {
    (
        stage,
        ActionView::Scan(
            args_before_input(window),
            args_after_input(silence_config_of(job), window),
        ),
    )
}

/// The window at the start of an input that is read directly.
pub open spec fn head_window_of(total: i64) -> ScanWindow {
    ScanWindow { seek_us: None, duration_us: Some(scan_length(total)) }
}

/// The window at the end of an input that is read directly.
pub open spec fn tail_window_of(total: i64) -> ScanWindow {
    ScanWindow {
        seek_us: Some(tail_offset(total) as i64),
        duration_us: Some(scan_length(total)),
    }
}

/// What follows once nothing is in the way of the result: a look at silence
/// where it is to be removed, at the ends only of an input that is read
/// directly; else the conversion.
pub open spec fn prepared(job: JobView) -> (StageView, ActionView) {
    if !job.settings.silence_trim_enabled {
        runs(job, None)
    } else if job.direct {
        scans(job, StageView::ScanningHead, head_window_of(job.info.duration_us))
    } else {
        scans(job, StageView::Scanning, ScanWindow { seek_us: None, duration_us: None })
    }
}

/// The start of a conversion: nothing where the session is being stopped, and
/// what stands in the place of the result is moved aside first.
pub open spec fn begun(job: JobView, cancelled: bool, in_the_way: bool) -> (StageView, ActionView) {
    if cancelled {
        fails(cancelled_text(), false)
    } else if in_the_way {
        (StageView::BackingUp, ActionView::BackUp)
    } else {
        prepared(job)
    }
}

/// There is silence at an end of the input.
pub open spec fn touches_an_end(scan: ScanView, total: i64) -> bool {
    ||| scan.unclosed is Some
    ||| exists|i: int| 0 <= i < scan.regions.len() && at_start(#[trigger] scan.regions[i].0 as int)
    ||| exists|i: int|
        0 <= i < scan.regions.len() && at_end(
            #[trigger] scan.regions[i].1 as int,
            effective_end(scan.decoded, total) as int,
        )
}

/// The filter for an input of which the whole was looked at.
pub open spec fn whole_filter(job: JobView, scan: ScanView) -> Option<Seq<char>> {
    if touches_an_end(scan, job.info.duration_us) {
        Some(both_ends_filter(silence_config_of(job)))
    } else {
        None
    }
}

/// What follows once a result is written and needs nothing added.
pub open spec fn written(job: JobView) -> (StageView, ActionView) {
    if job.in_place {
        (StageView::Replacing, ActionView::ReplaceInput)
    } else {
        (StageView::Ended, ActionView::Succeed)
    }
}

/// What follows an action, from what it came to.
pub open spec fn continued(job: JobView, stage: StageView, event: ConvertEvent) -> (
    StageView,
    ActionView,
) {
    match stage {
        StageView::BackingUp => match event {
            ConvertEvent::Done => prepared(job),
            ConvertEvent::Failed(e) => fails("failed to safely back up existing output: "@ + e@, false),
            _ => fails(seq![], true),
        },
        StageView::Scanning => match event {
            ConvertEvent::Scanned(end, stderr) => if end == ScanEnd::Cancelled {
                fails(cancelled_text(), true)
            } else {
                runs(job, whole_filter(job, scan_found(end, stderr@)))
            },
            _ => fails(seq![], true),
        },
        StageView::ScanningHead => match event {
            ConvertEvent::Scanned(end, stderr) => if end == ScanEnd::Cancelled {
                fails(cancelled_text(), true)
            } else {
                scans(
                    job,
                    StageView::ScanningTail(scan_found(end, stderr@)),
                    tail_window_of(job.info.duration_us),
                )
            },
            _ => fails(seq![], true),
        },
        StageView::ScanningTail(head) => match event {
            ConvertEvent::Scanned(end, stderr) => if end == ScanEnd::Cancelled {
                fails(cancelled_text(), true)
            } else {
                runs(
                    job,
                    atrim_filter(
                        direct_trim(job.info.duration_us, head, scan_found(end, stderr@)),
                    ),
                )
            },
            _ => fails(seq![], true),
        },
        StageView::Running(filter) => match event {
            ConvertEvent::NotStarted(e) => fails("failed to spawn ffmpeg: "@ + e@, true),
            ConvertEvent::Cancelled => fails(cancelled_text(), true),
            ConvertEvent::Failed(e) => fails(e@, true),
            ConvertEvent::Ended(well, status, stderr) => if !well {
                fails(failure_text(job, filter, status@, stderr@), true)
            } else {
                match cover_stream(job.format, job.info) {
                    Some(index) => (StageView::Attaching, ActionView::AttachCover(index)),
                    None => written(job),
                }
            },
            _ => fails(seq![], true),
        },
        StageView::Attaching => match event {
            ConvertEvent::NotStarted(e) => fails(
                "failed to start FFmpeg while attaching cover art: "@ + e@,
                true,
            ),
            ConvertEvent::Cancelled => fails(cancelled_text(), true),
            ConvertEvent::Failed(e) => fails(e@, true),
            ConvertEvent::Ended(well, status, stderr) => if !well {
                fails(cover_failure_text(status@, stderr@), true)
            } else {
                (StageView::Installing, ActionView::InstallCover)
            },
            _ => fails(seq![], true),
        },
        StageView::Installing => match event {
            ConvertEvent::Done => written(job),
            ConvertEvent::Failed(e) => fails(e@, true),
            _ => fails(seq![], true),
        },
        StageView::Replacing => match event {
            ConvertEvent::Done => (StageView::Ended, ActionView::Succeed),
            ConvertEvent::Failed(e) => fails(e@, true),
            _ => fails(seq![], true),
        },
        StageView::Ended => fails(seq![], true),
    }
}

fn prefixed(prefix: &str, e: &str) -> (r: String)
    ensures
        r@ == prefix@ + e@,
{
    let mut r: String = prefix.to_owned();
    r.append(e);
    r
}

fn failing(reason: String, clean: bool) -> (r: (ConvertStage, ConvertAction))
    ensures
        (r.0@, r.1@) == fails(reason@, clean),
{
    (ConvertStage::Ended, ConvertAction::Fail(reason, clean))
}

impl ConvertJob {
    /// What counts as silence.
    fn silence_config(&self) -> (r: SilenceConfig)
        ensures
            r == silence_config_of(self@),
    {
        SilenceConfig {
            db: self.settings.silence_trim_db,
            min_duration_ms: self.settings.silence_trim_duration_ms,
            total_duration_us: self.info.duration_us,
            audio_stream_index: self.stream,
        }
    }

    fn running(&self, filter: Option<String>) -> (r: (ConvertStage, ConvertAction))
        ensures
            (r.0@, r.1@) == runs(self@, opt_text(filter)),
    {
        let head: Vec<String> = self.head_args();
        let tail: Vec<String> = self.tail_args(&filter);
        (ConvertStage::Running(filter), ConvertAction::Run(head, tail))
    }

    fn scanning(&self, stage: ConvertStage, window: ScanWindow) -> (r: (ConvertStage, ConvertAction))
        ensures
            (r.0@, r.1@) == scans(self@, stage@, window),
    {
        let config: SilenceConfig = self.silence_config();
        let (before, after) = silence_detect_args(&config, window);
        (stage, ConvertAction::Scan(before, after))
    }

    fn after_preparation(&self) -> (r: (ConvertStage, ConvertAction))
        ensures
            (r.0@, r.1@) == prepared(self@),
    {
        if !self.settings.silence_trim_enabled {
            self.running(None)
        } else if self.direct {
            let config: SilenceConfig = self.silence_config();
            self.scanning(ConvertStage::ScanningHead, head_window(&config))
        } else {
            self.scanning(
                ConvertStage::Scanning,
                ScanWindow { seek_us: None, duration_us: None },
            )
        }
    }

    fn after_writing(&self) -> (r: (ConvertStage, ConvertAction))
        ensures
            (r.0@, r.1@) == written(self@),
    {
        if self.in_place {
            (ConvertStage::Replacing, ConvertAction::ReplaceInput)
        } else {
            (ConvertStage::Ended, ConvertAction::Succeed)
        }
    }

    /// Starts the conversion.
    pub fn begin(&self, cancelled: bool, in_the_way: bool) -> (r: (ConvertStage, ConvertAction))
        ensures
            (r.0@, r.1@) == begun(self@, cancelled, in_the_way),
    {
        if cancelled {
            failing("conversion cancelled".to_owned(), false)
        } else if in_the_way {
            (ConvertStage::BackingUp, ConvertAction::BackUp)
        } else {
            self.after_preparation()
        }
    }

    fn after_scan(&self, end: ScanEnd, stderr: &Vec<u8>) -> (r: (ConvertStage, ConvertAction))
        ensures
            (r.0@, r.1@) == (if end == ScanEnd::Cancelled {
                fails(cancelled_text(), true)
            } else {
                runs(self@, whole_filter(self@, scan_found(end, stderr@)))
            }),
    {
        match silence_scan_result(end, stderr) {
            Err(e) => failing(e, true),
            Ok(scan) => {
                let config: SilenceConfig = self.silence_config();
                let (starts, ends) = boundary_flags(
                    &scan.0,
                    scan.1,
                    scan.2,
                    config.total_duration_us,
                );
                assert((starts || ends) == touches_an_end(
                    scan_found(end, stderr@),
                    self@.info.duration_us,
                ));
                let filter: Option<String> = if starts || ends {
                    Some(silence_remove_filter(&config))
                } else {
                    None
                };
                self.running(filter)
            },
        }
    }

    fn after_head_scan(&self, end: ScanEnd, stderr: &Vec<u8>) -> (r: (ConvertStage, ConvertAction))
        ensures
            (r.0@, r.1@) == (if end == ScanEnd::Cancelled {
                fails(cancelled_text(), true)
            } else {
                scans(
                    self@,
                    StageView::ScanningTail(scan_found(end, stderr@)),
                    tail_window_of(self@.info.duration_us),
                )
            }),
    {
        match silence_scan_result(end, stderr) {
            Err(e) => failing(e, true),
            Ok(scan) => {
                let config: SilenceConfig = self.silence_config();
                self.scanning(ConvertStage::ScanningTail(scan), tail_window(&config))
            },
        }
    }

    fn after_tail_scan(
        &self,
        head: &(Vec<(i64, i64)>, Option<i64>, Option<i64>),
        end: ScanEnd,
        stderr: &Vec<u8>,
    ) -> (r: (ConvertStage, ConvertAction))
        ensures
            (r.0@, r.1@) == (if end == ScanEnd::Cancelled {
                fails(cancelled_text(), true)
            } else {
                runs(
                    self@,
                    atrim_filter(
                        direct_trim(
                            self@.info.duration_us,
                            ScanView { regions: head.0@, unclosed: head.1, decoded: head.2 },
                            scan_found(end, stderr@),
                        ),
                    ),
                )
            }),
    {
        match silence_scan_result(end, stderr) {
            Err(e) => failing(e, true),
            Ok(tail) => {
                let config: SilenceConfig = self.silence_config();
                let cut = direct_boundary_trim(&config, head, &tail);
                self.running(direct_trim_filter(cut))
            },
        }
    }

    /// What follows an action, from what it came to.
    pub fn proceed(&self, stage: ConvertStage, event: ConvertEvent) -> (r: (
        ConvertStage,
        ConvertAction,
    ))
        requires
            can_happen(stage@, event),
        ensures
            (r.0@, r.1@) == continued(self@, stage@, event),
    {
        match (stage, event) {
            (ConvertStage::BackingUp, ConvertEvent::Done) => self.after_preparation(),
            (ConvertStage::BackingUp, ConvertEvent::Failed(e)) => failing(
                prefixed("failed to safely back up existing output: ", e.as_str()),
                false,
            ),
            (ConvertStage::Scanning, ConvertEvent::Scanned(end, stderr)) => self.after_scan(
                end,
                &stderr,
            ),
            (ConvertStage::ScanningHead, ConvertEvent::Scanned(end, stderr)) => self.after_head_scan(
                end,
                &stderr,
            ),
            (ConvertStage::ScanningTail(head), ConvertEvent::Scanned(end, stderr)) => self.after_tail_scan(
                &head,
                end,
                &stderr,
            ),
            (ConvertStage::Running(_), ConvertEvent::NotStarted(e)) => failing(
                prefixed("failed to spawn ffmpeg: ", e.as_str()),
                true,
            ),
            (ConvertStage::Running(filter), ConvertEvent::Ended(well, status, stderr)) => {
                if !well {
                    return failing(self.failure(&filter, status.as_str(), &stderr), true);
                }
                match self.cover() {
                    Some(index) => (ConvertStage::Attaching, ConvertAction::AttachCover(index)),
                    None => self.after_writing(),
                }
            },
            (ConvertStage::Attaching, ConvertEvent::NotStarted(e)) => failing(
                prefixed("failed to start FFmpeg while attaching cover art: ", e.as_str()),
                true,
            ),
            (ConvertStage::Attaching, ConvertEvent::Ended(well, status, stderr)) => {
                if well {
                    return (ConvertStage::Installing, ConvertAction::InstallCover);
                }
                let report: String = lossy(&stderr);
                let mut reason: String = "FFmpeg failed while attaching cover art (".to_owned();
                reason.append(status.as_str());
                reason.append("): ");
                reason.append(report.as_str());
                failing(reason, true)
            },
            (ConvertStage::Installing, ConvertEvent::Done) => self.after_writing(),
            (ConvertStage::Replacing, ConvertEvent::Done) => (
                ConvertStage::Ended,
                ConvertAction::Succeed,
            ),
            (_, ConvertEvent::Failed(e)) => failing(e, true),
            (_, _) => failing("conversion cancelled".to_owned(), true),
        }
    }
}

/// A conversion succeeds only where its last action went well: never where FFmpeg
/// failed, could not be started or was stopped.
pub proof fn success_follows_success_only(job: JobView, stage: StageView, event: ConvertEvent)
    requires
        can_happen(stage, event),
        continued(job, stage, event).1 is Succeed,
    ensures
        event is Done || (event matches ConvertEvent::Ended(well, _, _) && well),
{
}

/// Whatever was written is removed where a conversion fails after its start.
pub proof fn failures_clean_up(job: JobView, stage: StageView, event: ConvertEvent)
    requires
        can_happen(stage, event),
        !(stage is BackingUp),
        continued(job, stage, event).1 is Fail,
    ensures
        continued(job, stage, event).1->Fail_1,
{
}

/// How far a conversion is at a stage.
pub open spec fn stage_rank(stage: StageView) -> nat {
    match stage {
        StageView::BackingUp => 0,
        StageView::Scanning => 1,
        StageView::ScanningHead => 1,
        StageView::ScanningTail(_) => 2,
        StageView::Running(_) => 3,
        StageView::Attaching => 4,
        StageView::Installing => 5,
        StageView::Replacing => 6,
        StageView::Ended => 7,
    }
}

/// Every conversion comes to an end: no stage leads back to an earlier one.
pub proof fn conversions_end(job: JobView, stage: StageView, event: ConvertEvent)
    requires
        can_happen(stage, event),
    ensures
        stage_rank(continued(job, stage, event).0) > stage_rank(stage),
{
}

/// A conversion that is stopped ends, says so, and leaves nothing behind.
pub proof fn a_stopped_conversion_says_so(job: JobView, stage: StageView, event: ConvertEvent)
    requires
        can_happen(stage, event),
        event is Cancelled || (event matches ConvertEvent::Scanned(end, _) && end
            == ScanEnd::Cancelled),
    ensures
        continued(job, stage, event) == (
            StageView::Ended,
            ActionView::Fail(cancelled_text(), true),
        ),
{
}

/// Where a conversion is, and what is to be done next, once some things came of
/// its actions, in order.
pub open spec fn after_events(
    job: JobView,
    start: (StageView, ActionView),
    events: Seq<ConvertEvent>,
) -> (StageView, ActionView)
    decreases events.len(),
{
    if events.len() == 0 {
        start
    } else {
        continued(job, after_events(job, start, events.drop_last()).0, events.last())
    }
}

/// Each event can come of the action before it.
pub open spec fn is_run(
    job: JobView,
    start: (StageView, ActionView),
    events: Seq<ConvertEvent>,
) -> bool
    decreases events.len(),
{
    events.len() == 0 || (is_run(job, start, events.drop_last()) && can_happen(
        after_events(job, start, events.drop_last()).0,
        events.last(),
    ))
}

/// The action of a stage of that rank went well in a run.
pub open spec fn passed(
    job: JobView,
    start: (StageView, ActionView),
    events: Seq<ConvertEvent>,
    rank: nat,
) -> bool
    decreases events.len(),
{
    events.len() > 0 && (passed(job, start, events.drop_last(), rank) || (stage_rank(
        after_events(job, start, events.drop_last()).0,
    ) == rank && (events.last() is Done || (events.last() matches ConvertEvent::Ended(well, _, _)
        && well))))
}

/// What a run must have passed to be where it is.
spec fn has_passed_before(
    job: JobView,
    in_the_way: bool,
    start: (StageView, ActionView),
    events: Seq<ConvertEvent>,
) -> bool {
    let now = after_events(job, start, events);
    let has_cover = cover_stream(job.format, job.info) is Some;
    let rank = if now.1 is Succeed {
        7
    } else {
        stage_rank(now.0)
    };
    now.1 is Fail || {
        &&& (rank == 7 ==> now.1 is Succeed)
        &&& (rank >= 1 && in_the_way ==> passed(job, start, events, 0))
        &&& (rank >= 4 ==> passed(job, start, events, 3))
        &&& (rank >= 5 && has_cover ==> passed(job, start, events, 4))
        &&& (rank >= 6 && has_cover ==> passed(job, start, events, 5))
        &&& (rank >= 7 && job.in_place ==> passed(job, start, events, 6))
    }
}

proof fn lemma_has_passed_before(
    job: JobView,
    cancelled: bool,
    in_the_way: bool,
    events: Seq<ConvertEvent>,
)
    requires
        is_run(job, begun(job, cancelled, in_the_way), events),
    ensures
        has_passed_before(job, in_the_way, begun(job, cancelled, in_the_way), events),
    decreases events.len(),
{
    if events.len() > 0 {
        lemma_has_passed_before(job, cancelled, in_the_way, events.drop_last());
    }
}

/// A conversion that ends well has moved aside what was in its way, has run
/// FFmpeg to its end, has added and installed the cover where there is one, and
/// has replaced the input where it was to.
pub proof fn a_success_left_nothing_out(
    job: JobView,
    cancelled: bool,
    in_the_way: bool,
    events: Seq<ConvertEvent>,
)
    requires
        is_run(job, begun(job, cancelled, in_the_way), events),
        after_events(job, begun(job, cancelled, in_the_way), events).1 is Succeed,
    ensures
        ({
            let start = begun(job, cancelled, in_the_way);
            let has_cover = cover_stream(job.format, job.info) is Some;
            &&& !cancelled
            &&& in_the_way ==> passed(job, start, events, stage_rank(StageView::BackingUp))
            &&& passed(job, start, events, stage_rank(StageView::Running(None)))
            &&& has_cover ==> passed(job, start, events, stage_rank(StageView::Attaching))
            &&& has_cover ==> passed(job, start, events, stage_rank(StageView::Installing))
            &&& job.in_place ==> passed(job, start, events, stage_rank(StageView::Replacing))
        }),
{
    lemma_has_passed_before(job, cancelled, in_the_way, events);
    if cancelled {
        lemma_refused_from_the_start(job, in_the_way, events);
    }
}

proof fn lemma_refused_from_the_start(job: JobView, in_the_way: bool, events: Seq<ConvertEvent>)
    requires
        is_run(job, begun(job, true, in_the_way), events),
    ensures
        events.len() == 0,
    decreases events.len(),
{
    if events.len() > 0 {
        lemma_refused_from_the_start(job, in_the_way, events.drop_last());
    }
}

// What the arguments ask for -------------------------------------------------

proof fn lemma_tag_args(format: Seq<char>, tags: Seq<(Seq<char>, Seq<char>)>)
    ensures
        tag_args(format, tags).len() == 2 * tags.len(),
        forall|j: int|
            0 <= j < tags.len() ==> #[trigger] tag_args(format, tags)[2 * j] == "-metadata"@,
        forall|j: int|
            0 <= j < tags.len() ==> #[trigger] tag_args(format, tags)[2 * j + 1] == tag_name(
                format,
                tags[j].0,
            ) + "="@ + tags[j].1,
    decreases tags.len(),
{
    if tags.len() > 0 {
        lemma_tag_args(format, tags.drop_last());
        let before = tag_args(format, tags.drop_last());
        let all = tag_args(format, tags);
        assert forall|j: int| 0 <= j < tags.len() implies #[trigger] all[2 * j] == "-metadata"@ by {
            if j < tags.len() - 1 {
                assert(all[2 * j] == before[2 * j]);
            }
        }
        assert forall|j: int| 0 <= j < tags.len() implies #[trigger] all[2 * j + 1] == tag_name(
            format,
            tags[j].0,
        ) + "="@ + tags[j].1 by {
            if j < tags.len() - 1 {
                assert(all[2 * j + 1] == before[2 * j + 1]);
                assert(tags.drop_last()[j] == tags[j]);
            }
        }
    }
}

/// Every tag of the input is passed on to the result, in order and with its
/// value; the name is in capitals for flac and opus, and as it is for any other
/// format. What else the container holds is passed on as well.
pub proof fn every_tag_is_passed_on(job: JobView, filter: Option<Seq<char>>, j: int)
    requires
        0 <= j < job.info.tags.len(),
    ensures
        ({
            let args = tail_args(job, filter);
            let name = job.info.tags[j].0;
            let written = if job.format == "flac"@ || job.format == "opus"@ {
                uppercase_text(name)
            } else {
                name
            };
            &&& 5 + 2 * j < args.len()
            &&& args[4 + 2 * j] == "-metadata"@
            &&& args[5 + 2 * j] == written + "="@ + job.info.tags[j].1
            &&& args[0] == "-map_metadata"@ && args[1] == "0"@
        }),
{
    lemma_tag_args(job.format, job.info.tags);
    let tags = tag_args(job.format, job.info.tags);
    let args = tail_args(job, filter);
    assert(args[4 + 2 * j] == tags[2 * j]);
    assert(args[5 + 2 * j] == tags[2 * j + 1]);
}

/// A result holds one stream: the one that is asked for, by its number among all
/// streams of the input, or the first that is audio where none is. Nothing but a
/// text of the caller may read like another choice.
pub proof fn the_chosen_stream_is_mapped(job: JobView, filter: Option<Seq<char>>)
    ensures
        ({
            let args = tail_args(job, filter);
            &&& args.len() >= 4
            &&& args[2] == "-map"@
            &&& job.stream matches Some(index) ==> args[3] == "0:"@ + decimal(index as nat)
            &&& job.stream is None ==> args[3] == "0:a:0"@
            &&& forall|k: int|
                0 <= k < args.len() && #[trigger] args[k] == "-map"@ ==> k == 2 || args[k - 1]
                    == "-af"@ || args[k - 1] == "-progress"@
        }),
{
    lemma_tag_args(job.format, job.info.tags);
    codec_args_are_about_the_codec(job.format, job.settings, job.info);
    reveal_strlit("-map");
    reveal_strlit("-map_metadata");
    reveal_strlit("-metadata");
    reveal_strlit("0");
    reveal_strlit("0:");
    reveal_strlit("0:a:0");
    reveal_strlit("-af");
    reveal_strlit("=");
    reveal_strlit("-progress");
    reveal_strlit("-nostats");
    reveal_strlit("-c:a");
    reveal_strlit("-b:a");
    reveal_strlit("-q:a");
    reveal_strlit("-ar");
    reveal_strlit("-ac");
    reveal_strlit("-vbr");
    reveal_strlit("-compression_level");
    reveal_strlit("-sample_fmt");
    assert("-map"@[0] == '-' && "-map"@[1] == 'm' && "-c:a"@[1] == 'c' && "-b:a"@[1] == 'b' && "-q:a"@[1] == 'q'
        && "-vbr"@[1] == 'v');
    let args = tail_args(job, filter);
    let tags = tag_args(job.format, job.info.tags);
    let codec = codec_args(job.format, job.settings, job.info);
    let t: int = 4 + tags.len() as int;
    let c = t + filter_args(filter).len();
    let e = c + codec.len();
    assert forall|k: int| 0 <= k < args.len() && #[trigger] args[k] == "-map"@ implies k == 2
        || args[k - 1] == "-af"@ || args[k - 1] == "-progress"@ by {
        if k == 3 {
            assert(args[3] == stream_choice(job.stream));
            assert(args[3][0] == '0');
        } else if 4 <= k < t {
            let j = (k - 4) / 2;
            assert(args[k] == tags[k - 4]);
            if (k - 4) % 2 == 0 {
                assert(tags[2 * j] == "-metadata"@);
            } else {
                let written = tag_name(job.format, job.info.tags[j].0);
                let text = written + "="@ + job.info.tags[j].1;
                assert(tags[2 * j + 1] == text);
                assert(text[written.len() as int] == '=');
            }
        } else if t <= k < c {
            assert(args[k] == filter_args(filter)[k - t]);
            if k > t {
                assert(args[k - 1] == filter_args(filter)[k - 1 - t]);
            }
        } else if c <= k < e {
            assert(args[k] == codec[k - c]);
        } else if k >= e {
            assert(args[e] == "-progress"@);
            assert(args[e + 2] == "-nostats"@);
        } else {
            assert(args[0] == "-map_metadata"@);
            assert(args[1] == "0"@);
        }
    }
}

/// Two conversions that differ in the stream only differ in the choice of the
/// stream only, and there they do differ.
pub proof fn streams_part_conversions(job: JobView, other: JobView, filter: Option<Seq<char>>)
    requires
        other == (JobView { stream: other.stream, ..job }),
        other.stream != job.stream,
    ensures
        ({
            let a = tail_args(job, filter);
            let b = tail_args(other, filter);
            &&& a.len() == b.len()
            &&& a[3] != b[3]
            &&& forall|k: int| 0 <= k < a.len() && k != 3 ==> #[trigger] a[k] == b[k]
        }),
{
    let a = tail_args(job, filter);
    let b = tail_args(other, filter);
    reveal_strlit("0:");
    reveal_strlit("0:a:0");
    assert(a[3] == stream_choice(job.stream));
    assert(b[3] == stream_choice(other.stream));
    match (job.stream, other.stream) {
        (Some(i), Some(j)) => {
            crate::text::a_written_number_reads_back(i as nat, 0);
            assert(("0:"@ + decimal(i as nat)).skip(2) =~= decimal(i as nat));
            assert(("0:"@ + decimal(j as nat)).skip(2) =~= decimal(j as nat));
        },
        (Some(i), None) => {
            lemma_no_default_stream(i as nat);
        },
        (None, Some(j)) => {
            lemma_no_default_stream(j as nat);
        },
        (None, None) => {},
    }
}

proof fn lemma_no_default_stream(i: nat)
    ensures
        "0:"@ + decimal(i) != "0:a:0"@,
{
    reveal_strlit("0:");
    reveal_strlit("0:a:0");
    crate::text::numbers_are_written_in_tens(i);
    assert(crate::text::is_digit(decimal(i)[0]));
    assert(("0:"@ + decimal(i))[2] == decimal(i)[0]);
}

/// A filter stands directly behind the tags; what is asked of the codec follows
/// it, and at the end stands where FFmpeg is to write how far it has come.
pub proof fn filter_and_codec_are_asked_for(job: JobView, filter: Option<Seq<char>>)
    ensures
        ({
            let args = tail_args(job, filter);
            let t: int = 4 + 2 * job.info.tags.len() as int;
            let codec = codec_args(job.format, job.settings, job.info);
            &&& filter matches Some(f) ==> args.len() == t + 5 + codec.len() && args[t] == "-af"@
                && args[t + 1] == f && args.subrange(t + 2, args.len() - 3) == codec
            &&& filter is None ==> args.len() == t + 3 + codec.len() && args.subrange(
                t,
                args.len() - 3,
            ) == codec
            &&& args.skip(args.len() - 3) == seq!["-progress"@, job.progress, "-nostats"@]
        }),
{
    lemma_tag_args(job.format, job.info.tags);
    let args = tail_args(job, filter);
    let t: int = 4 + 2 * job.info.tags.len() as int;
    let codec = codec_args(job.format, job.settings, job.info);
    match filter {
        Some(f) => {
            assert(args.subrange(t + 2, args.len() - 3) =~= codec);
        },
        None => {
            assert(args.subrange(t, args.len() - 3) =~= codec);
        },
    }
    assert(args.skip(args.len() - 3) =~= seq!["-progress"@, job.progress, "-nostats"@]);
}

/// FFmpeg is told to use as many threads as the conversion may, and to write the
/// result even where there is a file already.
pub proof fn threads_are_those_of_the_job(threads: usize)
    ensures
        crate::codec_args::option_is(
            head_args(threads),
            "-threads"@,
            decimal(threads as nat),
        ),
        head_args(threads).contains("-y"@),
{
    reveal_strlit("-threads");
    reveal_strlit("-y");
    crate::text::numbers_are_written_in_tens(threads as nat);
    assert(crate::text::is_digit(decimal(threads as nat)[0]));
    assert(head_args(threads)[0] == "-threads"@);
    assert(head_args(threads)[2] == "-y"@);
}

// Silence --------------------------------------------------------------------

/// The arguments hold the filter that removes what is silent at both ends: at
/// the start of the sound, and at the start of the sound played backwards, which
/// is turned round again at last.
pub open spec fn removes_silence(args: Seq<Seq<char>>, job: JobView) -> bool {
    let t: int = 4 + 2 * job.info.tags.len() as int;
    let once = "silenceremove=start_periods=1:start_silence="@ + crate::fixed::four_decimals(
        job.settings.silence_trim_duration_ms as nat,
    ) + ":start_threshold="@ + crate::fixed::shortest(job.settings.silence_trim_db as int) + "dB"@;
    &&& t + 1 < args.len()
    &&& args[t] == "-af"@
    &&& args[t + 1] == once + ",areverse,"@ + once + ",areverse"@
}

/// A look at the whole of a local input has found silence at its start.
pub open spec fn silent_at_first(scan: ScanView) -> bool {
    ||| exists|i: int| 0 <= i < scan.regions.len() && (#[trigger] scan.regions[i]).0 <= 50_000
        && scan.regions[i].0 != i64::MIN
    ||| scan.unclosed matches Some(start) && start <= 50_000 && start != i64::MIN
}

/// A look at the whole of a local input has found silence at its end: one that
/// never ended, or one that ended within the twentieth part of a second of where
/// the input does. Where the input ends is how far it was decoded, or else its
/// length.
pub open spec fn silent_at_last(scan: ScanView, total: i64) -> bool {
    ||| scan.unclosed is Some
    ||| {
        let end = if scan.decoded is Some {
            scan.decoded->0
        } else {
            total
        };
        &&& i64::MIN + 1 < end < i64::MAX
        &&& exists|i: int|
            0 <= i < scan.regions.len() && i64::MIN + 1 < (#[trigger] scan.regions[i]).1 < i64::MAX
                && end - 50_000 <= scan.regions[i].1 <= end + 50_000
    }
}

/// Silence at either end of a local input is removed, whether or not there is
/// any at the other; where there is none at both, the sound is left as it is. A
/// look that did not finish counts as one that found none.
pub proof fn silence_at_either_end_is_removed(job: JobView, end: ScanEnd, stderr: Vec<u8>)
    requires
        end != ScanEnd::Cancelled,
    ensures
        ({
            let scan = crate::silence::scan_of(lines_of(lossy_text(stderr@)));
            let (_, action) = continued(
                job,
                StageView::Scanning,
                ConvertEvent::Scanned(end, stderr),
            );
            let found = end == ScanEnd::Finished && (silent_at_first(scan) || silent_at_last(
                scan,
                job.info.duration_us,
            ));
            &&& action is Run
            &&& action->Run_0 == head_args(job.threads)
            &&& found ==> removes_silence(action->Run_1, job)
            &&& !found ==> action->Run_1 == tail_args(job, None)
        }),
{
    let total = job.info.duration_us;
    let scan = scan_found(end, stderr@);
    let found = end == ScanEnd::Finished && (silent_at_first(scan) || silent_at_last(scan, total));
    assert(touches_an_end(scan, total) == found) by {
        if touches_an_end(scan, total) && scan.unclosed is None {
            if exists|i: int|
                0 <= i < scan.regions.len() && at_start(#[trigger] scan.regions[i].0 as int) {
                let i = choose|i: int|
                    0 <= i < scan.regions.len() && at_start(#[trigger] scan.regions[i].0 as int);
                assert(scan.regions[i].0 <= 50_000);
            } else {
                let i = choose|i: int|
                    0 <= i < scan.regions.len() && at_end(
                        #[trigger] scan.regions[i].1 as int,
                        effective_end(scan.decoded, total) as int,
                    );
                assert(i64::MIN + 1 < scan.regions[i].1 < i64::MAX);
            }
        }
        if found && scan.unclosed is None {
            if silent_at_first(scan) {
                let i = choose|i: int|
                    0 <= i < scan.regions.len() && (#[trigger] scan.regions[i]).0 <= 50_000
                        && scan.regions[i].0 != i64::MIN;
                assert(at_start(scan.regions[i].0 as int));
            } else {
                let limit = effective_end(scan.decoded, total);
                let i = choose|i: int|
                    0 <= i < scan.regions.len() && i64::MIN + 1 < (#[trigger] scan.regions[i]).1
                        < i64::MAX && limit - 50_000 <= scan.regions[i].1 <= limit + 50_000;
                assert(at_end(scan.regions[i].1 as int, limit as int));
            }
        }
    }
    if found {
        filter_and_codec_are_asked_for(job, Some(both_ends_filter(silence_config_of(job))));
    }
}

/// Where silence is not to be removed, FFmpeg converts at once and is given no
/// filter. Where it is, FFmpeg looks for it first, in the stream that will be
/// converted: in the whole of a local input, and at the start of one that is read
/// from the network.
pub proof fn silence_is_looked_for_where_it_is_to_be_removed(job: JobView)
    ensures
        ({
            let (stage, action) = begun(job, false, false);
            let looks_at = |args: Seq<Seq<char>>|
                job.stream matches Some(index) ==> crate::codec_args::option_is(
                    args,
                    "-map"@,
                    "0:"@ + decimal(index as nat),
                );
            &&& !job.settings.silence_trim_enabled ==> action == ActionView::Run(
                head_args(job.threads),
                tail_args(job, None),
            )
            &&& job.settings.silence_trim_enabled ==> action is Scan && action->Scan_0.len() == 0
                && looks_at(action->Scan_1)
            &&& job.settings.silence_trim_enabled && !job.direct ==> stage is Scanning
                && crate::codec_args::lacks_option(action->Scan_1, "-t"@)
            &&& job.settings.silence_trim_enabled && job.direct ==> stage is ScanningHead
                && action->Scan_1[0] == "-t"@
            &&& begun(job, false, true) == (StageView::BackingUp, ActionView::BackUp)
            &&& continued(job, StageView::BackingUp, ConvertEvent::Done) == begun(job, false, false)
        }),
{
    let config = silence_config_of(job);
    lemma_scan_map(config, ScanWindow { seek_us: None, duration_us: None });
    lemma_scan_map(config, head_window_of(job.info.duration_us));
}

proof fn lemma_scan_map(config: SilenceConfig, window: ScanWindow)
    ensures
        config.audio_stream_index matches Some(index) ==> crate::codec_args::option_is(
            args_after_input(config, window),
            "-map"@,
            "0:"@ + decimal(index as nat),
        ),
        window.duration_us is None ==> crate::codec_args::lacks_option(
            args_after_input(config, window),
            "-t"@,
        ),
{
    reveal_strlit("-map");
    reveal_strlit("-t");
    reveal_strlit("0:");
    reveal_strlit("-vn");
    reveal_strlit("-af");
    reveal_strlit("-f");
    reveal_strlit("null");
    reveal_strlit("-");
    reveal_strlit("asetpts=PTS-STARTPTS,silencedetect=noise=");
    let args = args_after_input(config, window);
    let filter = crate::silence::detect_filter(config);
    assert(filter[0] == 'a');
    assert("-map"@[1] == 'm' && "-t"@[1] == 't' && "-f"@[1] == 'f' && "null"@[0] == 'n' && "-"@[0]
        == '-' && "-map"@[0] == '-' && "-t"@[0] == '-' && "0:"@[0] == '0');
    if let Some(duration) = window.duration_us {
        crate::fixed::six_decimals_end_in_digits(duration as int);
    }
    if let Some(index) = config.audio_stream_index {
        assert(("0:"@ + decimal(index as nat))[0] == '0');
        let at: int = if window.duration_us is Some {
            2
        } else {
            0
        };
        assert(args[at] == "-map"@);
    }
    if window.duration_us is None {
        assert forall|i: int| 0 <= i < args.len() implies #[trigger] args[i] != "-t"@ by {
            let rest = seq!["-vn"@, "-af"@, filter, "-f"@, "null"@, "-"@];
            assert("-"@.len() == 1 && "-t"@.len() == 2);
            if let Some(index) = config.audio_stream_index {
                let stream = "0:"@ + decimal(index as nat);
                assert(stream[0] == '0');
                assert(args =~= seq![
                    "-map"@,
                    stream,
                    "-vn"@,
                    "-af"@,
                    filter,
                    "-f"@,
                    "null"@,
                    "-"@,
                ]);
            } else {
                assert(args =~= rest);
            }
        }
    }
}

/// An input that is read from the network is looked at twice, at its start and
/// then at its end, before it is converted; what is cut is what the two looks
/// found, and nothing where they found nothing.
pub proof fn both_ends_are_looked_at(
    job: JobView,
    end: ScanEnd,
    stderr: Vec<u8>,
    later: ScanEnd,
    later_stderr: Vec<u8>,
)
    requires
        end != ScanEnd::Cancelled,
        later != ScanEnd::Cancelled,
    ensures
        ({
            let (stage, action) = continued(
                job,
                StageView::ScanningHead,
                ConvertEvent::Scanned(end, stderr),
            );
            let (_, last) = continued(job, stage, ConvertEvent::Scanned(later, later_stderr));
            let cut = direct_trim(
                job.info.duration_us,
                scan_found(end, stderr@),
                scan_found(later, later_stderr@),
            );
            let t: int = 4 + 2 * job.info.tags.len() as int;
            &&& stage is ScanningTail && action is Scan
            &&& last is Run
            &&& cut.start_us is None && cut.end_us is None ==> last->Run_1 == tail_args(job, None)
            &&& cut.start_us is Some || cut.end_us is Some ==> t + 1 < last->Run_1.len()
                && last->Run_1[t] == "-af"@ && Some(last->Run_1[t + 1]) == atrim_filter(cut)
        }),
{
    let cut = direct_trim(
        job.info.duration_us,
        scan_found(end, stderr@),
        scan_found(later, later_stderr@),
    );
    filter_and_codec_are_asked_for(job, atrim_filter(cut));
}

// The cover, and the end -----------------------------------------------------

/// A format whose files can hold a picture.
pub open spec fn holds_pictures(format: Seq<char>) -> bool {
    format == "mp3"@ || format == "aac"@ || format == "flac"@ || format == "alac"@
}

/// Once FFmpeg has converted well, the cover of the input is added where there is
/// one and the format can hold it, and in no other case; the result then takes the
/// place of the input where it is to, and is kept where it is else. Where FFmpeg
/// has not, there is no result.
pub proof fn the_cover_is_added(
    job: JobView,
    filter: Option<Seq<char>>,
    well: bool,
    status: String,
    stderr: Vec<u8>,
)
    ensures
        ({
            let action = continued(
                job,
                StageView::Running(filter),
                ConvertEvent::Ended(well, status, stderr),
            ).1;
            let last = if job.in_place {
                ActionView::ReplaceInput
            } else {
                ActionView::Succeed
            };
            let attached = continued(
                job,
                StageView::Attaching,
                ConvertEvent::Ended(well, status, stderr),
            ).1;
            &&& !well ==> action is Fail && attached is Fail
            &&& well && holds_pictures(job.format) ==> match job.info.cover_art_stream_idx {
                Some(stream) => action == ActionView::AttachCover(stream),
                None => action == last,
            }
            &&& well && !holds_pictures(job.format) ==> action == last
            &&& well ==> attached == ActionView::InstallCover
            &&& continued(job, StageView::Installing, ConvertEvent::Done).1 == last
            &&& continued(job, StageView::Replacing, ConvertEvent::Done).1 == ActionView::Succeed
        }),
{
}

/// Adding a cover copies the sound of the result and the picture of the input, by
/// the number of its stream, encodes nothing anew, and marks the picture as the
/// cover. Two pictures are asked for differently.
pub proof fn the_cover_is_copied(stream: usize, other: usize)
    ensures
        ({
            let last = cover_args_of(stream).2;
            &&& cover_args_of(stream).0 == seq!["-y"@, "-i"@]
            &&& cover_args_of(stream).1 == seq!["-i"@]
            &&& last[0] == "-map"@ && last[1] == "0:a:0"@
            &&& last[2] == "-map"@ && last[3] == "1:"@ + decimal(stream as nat)
            &&& crate::codec_args::option_is(last, "-c"@, "copy"@)
            &&& crate::codec_args::option_is(last, "-map_metadata"@, "0"@)
            &&& crate::codec_args::option_is(last, "-disposition:v:0"@, "attached_pic"@)
            &&& stream != other ==> last[3] != cover_args_of(other).2[3]
        }),
{
    let last = cover_args_of(stream).2;
    reveal_strlit("-map");
    reveal_strlit("0:a:0");
    reveal_strlit("1:");
    reveal_strlit("-map_metadata");
    reveal_strlit("0");
    reveal_strlit("-c");
    reveal_strlit("copy");
    reveal_strlit("-disposition:v:0");
    reveal_strlit("attached_pic");
    crate::text::a_written_number_reads_back(stream as nat, 0);
    crate::text::numbers_are_written_in_tens(stream as nat);
    let picture = "1:"@ + decimal(stream as nat);
    assert(picture[0] == '1' && "-c"@[0] == '-' && "-map_metadata"@[0] == '-'
        && "-disposition:v:0"@[0] == '-');
    assert("-c"@.len() == 2 && "-map"@.len() == 4 && "0"@.len() == 1 && "copy"@.len() == 4
        && "0:a:0"@.len() == 5 && "-map_metadata"@.len() == 13 && "-disposition:v:0"@.len() == 16
        && "attached_pic"@.len() == 12);
    assert(last[6] == "-c"@);
    assert(last[4] == "-map_metadata"@);
    assert(last[8] == "-disposition:v:0"@);
    assert(picture.skip(2) =~= decimal(stream as nat));
    assert(("1:"@ + decimal(other as nat)).skip(2) =~= decimal(other as nat));
}

/// What FFmpeg says of how far it has come is the number behind the name of the
/// time, whatever blanks stand round it; a line of another name says nothing, and
/// the last line that says something counts.
pub proof fn the_last_report_counts(report: Seq<Seq<char>>, line: Seq<char>, n: u64)
    ensures
        reported_us("out_time_us="@ + decimal(n as nat)) == Some(n),
        !("out_time_us="@.is_prefix_of(line)) ==> reported_us(line) is None && last_reported(
            report.push(line),
        ) == last_reported(report),
        last_reported(report.push("out_time_us="@ + decimal(n as nat))) == n,
        last_reported(seq![]) == 0,
{
    let said = "out_time_us="@ + decimal(n as nat);
    reveal_strlit("out_time_us=");
    crate::text::a_written_number_reads_back(n as nat, u64::MAX as nat);
    crate::text::numbers_are_written_in_tens(n as nat);
    assert(said.take(12) =~= "out_time_us="@);
    assert(said.skip(12) =~= decimal(n as nat));
    let digits = decimal(n as nat);
    assert(crate::text::is_digit(digits[0]) && crate::text::is_digit(digits[digits.len() - 1]));
    assert(trimmed(digits) == digits);
    assert(report.push(line).drop_last() =~= report);
    assert(report.push(said).drop_last() =~= report);
}

/// A conversion has come nowhere at its start and all the way where FFmpeg has
/// reached the end of the input; it never goes back where FFmpeg does not; and in
/// between it has come as far as FFmpeg has, but for a rounding below.
pub proof fn progress_follows_the_time(out_us: u64, later_us: u64, duration_us: i64, ceiling: u64)
    requires
        0 < duration_us < INFINITE,
        ceiling <= WHOLE,
    ensures
        reached(0, duration_us, ceiling) == 0,
        out_us >= duration_us ==> reached(out_us, duration_us, ceiling) == ceiling,
        out_us <= later_us ==> reached(out_us, duration_us, ceiling) <= reached(
            later_us,
            duration_us,
            ceiling,
        ),
        reached(out_us, duration_us, ceiling) * duration_us <= out_us * ceiling,
        out_us <= duration_us ==> out_us * ceiling < (reached(out_us, duration_us, ceiling) + 2)
            * duration_us,
{
    let d = duration_us as int;
    let c = ceiling as int;
    let whole = WHOLE as int;
    let a = out_us * whole / d;
    let b = later_us * whole / d;
    let o = out_us as int;
    let l = later_us as int;
    assert(0 * whole / d == 0) by (nonlinear_arith)
        requires
            d > 0,
    ;
    assert(0 * c / whole == 0) by (nonlinear_arith)
        requires
            whole > 0,
    ;
    assert(reached(0, duration_us, ceiling) == 0);
    if o >= d {
        assert(a >= whole) by (nonlinear_arith)
            requires
                o >= d,
                d > 0,
                whole > 0,
                a == o * whole / d,
        ;
        assert(whole * c / whole == c) by (nonlinear_arith)
            requires
                whole > 0,
        ;
    }
    if o <= l {
        assert(a <= b) by (nonlinear_arith)
            requires
                o <= l,
                d > 0,
                whole > 0,
                a == o * whole / d,
                b == l * whole / d,
        ;
        let x = min_int(a, whole);
        let y = min_int(b, whole);
        assert(x * c / whole <= y * c / whole) by (nonlinear_arith)
            requires
                x <= y,
                c >= 0,
                whole > 0,
        ;
    }
    let x = min_int(a, whole);
    let r = x * c / whole;
    assert(0 <= a && a * d <= o * whole && o * whole < (a + 1) * d) by (nonlinear_arith)
        requires
            d > 0,
            o >= 0,
            whole > 0,
            a == o * whole / d,
    ;
    assert(r * whole <= x * c && x * c < (r + 1) * whole) by (nonlinear_arith)
        requires
            whole > 0,
            r == x * c / whole,
    ;
    assert(r * d <= o * c) by {
        assert(x * d <= o * whole) by (nonlinear_arith)
            requires
                x <= a,
                a * d <= o * whole,
                d > 0,
        ;
        assert((r * whole) * d <= (x * c) * d) by (nonlinear_arith)
            requires
                r * whole <= x * c,
                d > 0,
        ;
        assert((x * c) * d == (x * d) * c) by (nonlinear_arith);
        assert((x * d) * c <= (o * whole) * c) by (nonlinear_arith)
            requires
                x * d <= o * whole,
                c >= 0,
        ;
        assert((r * whole) * d == (r * d) * whole) by (nonlinear_arith);
        assert((o * whole) * c == (o * c) * whole) by (nonlinear_arith);
        assert(r * d <= o * c) by (nonlinear_arith)
            requires
                (r * d) * whole <= (o * c) * whole,
                whole > 0,
        ;
    }
    if o <= d {
        assert(a <= whole) by (nonlinear_arith)
            requires
                o <= d,
                d > 0,
                whole > 0,
                a == o * whole / d,
        ;
        assert((o * whole) * c <= ((a + 1) * d) * c) by (nonlinear_arith)
            requires
                o * whole < (a + 1) * d,
                c >= 0,
        ;
        assert(((a + 1) * d) * c == (a * c + c) * d) by (nonlinear_arith);
        assert((a * c + c) * d < ((r + 1) * whole + whole) * d) by (nonlinear_arith)
            requires
                a * c < (r + 1) * whole,
                c <= whole,
                d > 0,
        ;
        assert(((r + 1) * whole + whole) * d == ((r + 2) * d) * whole) by (nonlinear_arith);
        assert((o * whole) * c == (o * c) * whole) by (nonlinear_arith);
        assert(o * c < (r + 2) * d) by (nonlinear_arith)
            requires
                (o * c) * whole < ((r + 2) * d) * whole,
                whole > 0,
        ;
    }
}

/// A conversion that ends with a cover still to be added counts as not quite done,
/// and any other as done.
pub proof fn only_a_cover_is_left_to_be_done(job: JobView)
    ensures
        ({
            let ceiling = progress_ceiling_of(cover_stream(job.format, job.info));
            &&& holds_pictures(job.format) && job.info.cover_art_stream_idx is Some ==> 0 < ceiling
                < WHOLE && WHOLE - ceiling == WHOLE / 100
            &&& !holds_pictures(job.format) || job.info.cover_art_stream_idx is None ==> ceiling
                == WHOLE
        }),
{
}

/// What is said where FFmpeg fails holds its status, the whole command, in which
/// every argument stands, and what FFmpeg wrote.
pub proof fn a_failure_tells_what_was_tried(
    job: JobView,
    filter: Option<Seq<char>>,
    status: String,
    stderr: Vec<u8>,
)
    ensures
        ({
            let action = continued(
                job,
                StageView::Running(filter),
                ConvertEvent::Ended(false, status, stderr),
            ).1;
            let said = lossy_text(stderr@);
            let command = job.ffmpeg + " "@ + joined(head_args(job.threads), " "@) + " -i "@
                + job.input + " "@ + joined(tail_args(job, filter), " "@) + " "@ + job.output;
            &&& action is Fail
            &&& ("FFmpeg failed ("@ + status@ + ").\nCommand: "@ + command).is_prefix_of(
                action->Fail_0,
            )
            &&& trimmed(said).len() > 0 ==> said.is_suffix_of(action->Fail_0)
        }),
{
    let text = failure_text(job, filter, status@, stderr@);
    let command = command_line(job, filter);
    let first = "FFmpeg failed ("@ + status@ + ").\nCommand: "@ + command;
    assert(text.take(first.len() as int) =~= first);
    let said = lossy_text(stderr@);
    if trimmed(said).len() > 0 {
        assert(text.skip(text.len() - said.len()) =~= said);
    }
}

/// What is said where a cover could not be added holds the status of FFmpeg and
/// what it wrote; what is said where a program could not be started, or files could
/// not be moved, holds the reason.
pub proof fn other_failures_give_their_reason(
    job: JobView,
    filter: Option<Seq<char>>,
    e: String,
    stderr: Vec<u8>,
)
    ensures
        ({
            let attaching = continued(
                job,
                StageView::Attaching,
                ConvertEvent::Ended(false, e, stderr),
            ).1;
            let starting = continued(
                job,
                StageView::Running(filter),
                ConvertEvent::NotStarted(e),
            ).1;
            let backing = continued(job, StageView::BackingUp, ConvertEvent::Failed(e)).1;
            let installing = continued(job, StageView::Installing, ConvertEvent::Failed(e)).1;
            let replacing = continued(job, StageView::Replacing, ConvertEvent::Failed(e)).1;
            &&& attaching is Fail && lossy_text(stderr@).is_suffix_of(attaching->Fail_0)
            &&& attaching is Fail && ("FFmpeg failed while attaching cover art ("@ + e@).is_prefix_of(
                attaching->Fail_0,
            )
            &&& starting is Fail && e@.is_suffix_of(starting->Fail_0)
            &&& backing is Fail && e@.is_suffix_of(backing->Fail_0) && !backing->Fail_1
            &&& installing == ActionView::Fail(e@, true)
            &&& replacing == ActionView::Fail(e@, true)
        }),
{
    let said = cover_failure_text(e@, stderr@);
    let report = lossy_text(stderr@);
    assert(said.skip(said.len() - report.len()) =~= report);
    let first = "FFmpeg failed while attaching cover art ("@ + e@;
    assert(said.take(first.len() as int) =~= first);
    let spawn = "failed to spawn ffmpeg: "@ + e@;
    assert(spawn.skip(spawn.len() - e@.len()) =~= e@);
    let back = "failed to safely back up existing output: "@ + e@;
    assert(back.skip(back.len() - e@.len()) =~= e@);
}

/// Of an input that is read from the network, FFmpeg looks at the first minute and
/// then at the last one, or at all of it where it is shorter: it is told where to
/// start, and how long to look.
pub proof fn the_two_looks_are_at_the_ends(job: JobView, end: ScanEnd, stderr: Vec<u8>)
    requires
        job.settings.silence_trim_enabled,
        job.direct,
        end != ScanEnd::Cancelled,
        0 <= job.info.duration_us < INFINITE,
    ensures
        ({
            let total = job.info.duration_us as int;
            let minute = if total > 60_000_000 {
                60_000_000
            } else {
                total
            };
            let head = begun(job, false, false).1;
            let tail = continued(
                job,
                StageView::ScanningHead,
                ConvertEvent::Scanned(end, stderr),
            ).1;
            &&& head->Scan_0.len() == 0
            &&& head->Scan_1[0] == "-t"@ && head->Scan_1[1] == crate::fixed::six_decimals(minute)
            &&& tail->Scan_1[0] == "-t"@ && tail->Scan_1[1] == crate::fixed::six_decimals(minute)
            &&& total > minute ==> tail->Scan_0 == seq![
                "-ss"@,
                crate::fixed::six_decimals(total - minute),
            ]
            &&& total == minute ==> tail->Scan_0.len() == 0
            &&& tail->Scan_1 == head->Scan_1
        }),
{
    crate::silence::a_minute_is_looked_at_on_both_sides(job.info.duration_us);
}

/// A report says that FFmpeg is done where one of its lines says so, whatever
/// blanks stand round that, and only there.
pub proof fn the_end_is_said_in_a_line(report: Seq<Seq<char>>, line: Seq<char>)
    ensures
        says_done(report.push("progress=end"@)),
        says_done(report) ==> says_done(report.push(line)),
        trimmed(line) != "progress=end"@ ==> says_done(report.push(line)) == says_done(report),
        !says_done(seq![]),
{
    let end = "progress=end"@;
    reveal_strlit("progress=end");
    assert(end[0] == 'p' && end.last() == 'd');
    crate::text::blanks_at_the_ends_are_removed(end, ' ');
    assert(report.push(end)[report.len() as int] == end);
    let more = report.push(line);
    if says_done(report) {
        let i = choose|i: int| 0 <= i < report.len() && trimmed(#[trigger] report[i]) == end;
        assert(more[i] == report[i]);
    }
    if says_done(more) && trimmed(line) != end {
        let i = choose|i: int| 0 <= i < more.len() && trimmed(#[trigger] more[i]) == end;
        assert(report[i] == more[i]);
    }
}

} // verus!
