//! What is asked of a conversion, what is known of an input, and what is
//! reported back.

use vstd::prelude::*;
use crate::text::clone_opt_text;
use crate::text::opt_text;

verus! {

/// What to convert, and into what.
#[derive(Debug)]
pub struct ConvertRequest {
    pub paths: Vec<String>,
    pub mode: String,
    pub format: String,
}

/// How far a session has come, for display.
#[derive(Debug)]
pub struct ProgressPayload {
    pub job_id: String,
    /// In billionths of a percent.
    pub percent: u64,
    pub current_file: String,
    pub file_index: usize,
    pub file_count: usize,
}

/// What became of one input.
#[derive(Debug)]
pub struct FileResult {
    pub input_path: String,
    pub output_path: String,
    pub success: bool,
    pub skipped: bool,
    pub error: Option<String>,
}

/// What a `FileResult` holds.
pub struct ResultView {
    pub input_path: Seq<char>,
    pub output_path: Seq<char>,
    pub success: bool,
    pub skipped: bool,
    pub error: Option<Seq<char>>,
}

impl View for FileResult {
    type V = ResultView;

    open spec fn view(&self) -> ResultView {
        ResultView {
            input_path: self.input_path@,
            output_path: self.output_path@,
            success: self.success,
            skipped: self.skipped,
            error: opt_text(self.error),
        }
    }
}

/// What each of a list of results holds.
pub open spec fn results_view(list: Seq<FileResult>) -> Seq<ResultView> {
    Seq::new(list.len(), |i: int| list[i]@)
}

/// An input that could not be converted, for the reason given.
pub open spec fn failed_result(input_path: Seq<char>, msg: Seq<char>) -> ResultView {
    ResultView { input_path, output_path: seq![], success: false, skipped: false, error: Some(msg) }
}

/// An input that was left out.
pub open spec fn skipped_result(input_path: Seq<char>) -> ResultView {
    ResultView { input_path, output_path: seq![], success: false, skipped: true, error: None }
}

impl FileResult {
    /// An input that could not be converted, for the reason given.
    pub fn error(input_path: String, msg: String) -> (r: Self)
        ensures
            r@ == failed_result(input_path@, msg@),
    {
        FileResult {
            input_path,
            output_path: String::new(),
            success: false,
            skipped: false,
            error: Some(msg),
        }
    }

    /// An input that was left out.
    pub fn skipped(input_path: String) -> (r: Self)
        ensures
            r@ == skipped_result(input_path@),
    {
        FileResult {
            input_path,
            output_path: String::new(),
            success: false,
            skipped: true,
            error: None,
        }
    }
}

impl Clone for FileResult {
    fn clone(&self) -> (r: Self)
        ensures
            r@ == self@,
    {
        FileResult {
            input_path: self.input_path.clone(),
            output_path: self.output_path.clone(),
            success: self.success,
            skipped: self.skipped,
            error: clone_opt_text(&self.error),
        }
    }
}

/// What became of a session.
#[derive(Debug)]
pub struct CompletionPayload {
    pub job_id: String,
    pub results: Vec<FileResult>,
    pub success_count: usize,
    pub error_count: usize,
    pub skipped_count: usize,
    /// Whether batches of the session were converted with different profiles;
    /// a quality is displayed only where they were not.
    pub mixed_profiles: bool,
}

/// What is known of an audio track of an input.
#[derive(Debug)]
pub struct AudioTrack {
    /// The index of the stream among all streams of the input.
    pub stream_index: usize,
    pub language: Option<String>,
    pub handler_name: Option<String>,
}

/// What an `AudioTrack` holds.
pub struct TrackView {
    pub stream_index: usize,
    pub language: Option<Seq<char>>,
    pub handler_name: Option<Seq<char>>,
}

impl View for AudioTrack {
    type V = TrackView;

    open spec fn view(&self) -> TrackView {
        TrackView {
            stream_index: self.stream_index,
            language: opt_text(self.language),
            handler_name: opt_text(self.handler_name),
        }
    }
}

/// What each of a list of tracks holds.
pub open spec fn tracks_view(list: Seq<AudioTrack>) -> Seq<TrackView> {
    Seq::new(list.len(), |i: int| list[i]@)
}

impl Clone for AudioTrack {
    fn clone(&self) -> (r: Self)
        ensures
            r@ == self@,
    {
        AudioTrack {
            stream_index: self.stream_index,
            language: clone_opt_text(&self.language),
            handler_name: clone_opt_text(&self.handler_name),
        }
    }
}

/// What each of a list of tags holds: a name and a value.
pub open spec fn tags_view(list: Seq<(String, String)>) -> Seq<(Seq<char>, Seq<char>)> {
    Seq::new(list.len(), |i: int| (list[i].0@, list[i].1@))
}

/// What is known of an input.
#[derive(Debug)]
pub struct FileInfo {
    /// In millionths of a second.
    pub duration_us: i64,
    /// Names and values; no name occurs twice.
    pub tags: Vec<(String, String)>,
    pub bits_per_sample: u32,
    pub cover_art_stream_idx: Option<usize>,
    pub has_media: bool,
    pub is_lossless: bool,
    pub bit_rate_bps: u64,
    pub audio_tracks: Vec<AudioTrack>,
}

/// What a `FileInfo` holds.
#[verifier::ext_equal]
pub struct InfoView {
    pub duration_us: i64,
    pub tags: Seq<(Seq<char>, Seq<char>)>,
    pub bits_per_sample: u32,
    pub cover_art_stream_idx: Option<usize>,
    pub has_media: bool,
    pub is_lossless: bool,
    pub bit_rate_bps: u64,
    pub audio_tracks: Seq<TrackView>,
}

impl View for FileInfo {
    type V = InfoView;

    open spec fn view(&self) -> InfoView {
        InfoView {
            duration_us: self.duration_us,
            tags: tags_view(self.tags@),
            bits_per_sample: self.bits_per_sample,
            cover_art_stream_idx: self.cover_art_stream_idx,
            has_media: self.has_media,
            is_lossless: self.is_lossless,
            bit_rate_bps: self.bit_rate_bps,
            audio_tracks: tracks_view(self.audio_tracks@),
        }
    }
}

impl Clone for FileInfo {
    fn clone(&self) -> (r: Self)
        ensures
            r@ == self@,
    {
        let mut tags: Vec<(String, String)> = Vec::new();
        let mut i: usize = 0;
        while i < self.tags.len()
            invariant
                i <= self.tags@.len(),
                tags@.len() == i,
                forall|k: int|
                    0 <= k < i ==> (#[trigger] tags@[k]).0@ == self.tags@[k].0@ && tags@[k].1@
                        == self.tags@[k].1@,
            decreases self.tags@.len() - i,
        {
            tags.push((self.tags[i].0.clone(), self.tags[i].1.clone()));
            i = i + 1;
        }
        let mut audio_tracks: Vec<AudioTrack> = Vec::new();
        let mut i: usize = 0;
        while i < self.audio_tracks.len()
            invariant
                i <= self.audio_tracks@.len(),
                audio_tracks@.len() == i,
                forall|k: int| 0 <= k < i ==> (#[trigger] audio_tracks@[k])@ == self.audio_tracks@[k]@,
            decreases self.audio_tracks@.len() - i,
        {
            audio_tracks.push(self.audio_tracks[i].clone());
            i = i + 1;
        }
        let r = FileInfo {
            duration_us: self.duration_us,
            tags,
            bits_per_sample: self.bits_per_sample,
            cover_art_stream_idx: self.cover_art_stream_idx,
            has_media: self.has_media,
            is_lossless: self.is_lossless,
            bit_rate_bps: self.bit_rate_bps,
            audio_tracks,
        };
        assert(r@ =~= self@);
        r
    }
}

/// What the user answers where a result would overwrite a file.
#[derive(Debug, Clone, Copy, PartialEq, Eq, Structural)]
pub enum OverwriteChoice {
    Overwrite,
    Rename,
    Skip,
    CancelAll,
}

} // verus!
