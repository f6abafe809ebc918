//! A batch of files: what is made of each, and what becomes of it.

use vstd::prelude::*;
use crate::file_collector::common_ancestor;
use crate::file_collector::holds_all;
use crate::file_collector::is_deepest;
use crate::file_collector::anchor_len;
use crate::file_collector::candidates_view;
use crate::file_collector::is_best;
use crate::file_collector::parents;
use crate::file_collector::rejected;
use crate::file_collector::select_best_from_group;
use crate::network::should_cache_network_input;
use crate::network::INPUT_SPOOL_TARGET_BYTES;
use crate::outside::lossy;
use crate::outside::lossy_text;
use crate::path::name_of;
use crate::path::paths_view;
use crate::path::spelled_view;
use crate::path::stem_of;
use crate::path::FilePath;
use crate::path::Part;
use crate::path::PathView;
use crate::settings::OutputDest;
use crate::settings::Settings;
use crate::settings::SettingsView;
use crate::text::opt_text;
use crate::text::text_eq;
use crate::tracks::label_of;
use crate::tracks::track_label;
use crate::tracks::track_output_stem;
use crate::tracks::track_stem;
use crate::types::failed_result;
use crate::types::results_view;
use crate::types::skipped_result;
use crate::types::FileInfo;
use crate::types::FileResult;
use crate::types::InfoView;
use crate::types::ResultView;

verus! {

// What is asked for ----------------------------------------------------------

/// The format that a batch is converted into: to decode is to one of two.
pub open spec fn effective_format_of(mode: Seq<char>, format: Seq<char>) -> Seq<char> {
    if mode == "decode"@ {
        if format == "aiff"@ {
            "aiff"@
        } else {
            "wav"@
        }
    } else {
        format
    }
}

/// The format that a batch is converted into.
pub fn effective_format(mode: &str, format: &str) -> (r: String)
    ensures
        r@ == effective_format_of(mode@, format@),
{
    if text_eq(mode, "decode") {
        if text_eq(format, "aiff") {
            "aiff".to_owned()
        } else {
            "wav".to_owned()
        }
    } else {
        format.to_owned()
    }
}

/// The directory that the folders of results are counted from: the one that
/// holds all paths that were dropped, so that a folder that was dropped is kept
/// itself; none where folders are not kept.
pub fn base_dir(settings: &Settings, paths: &Vec<FilePath>) -> (r: Option<FilePath>)
    ensures
        ({
            let kept = settings@.preserve_folder_structure && settings@.output_dest
                != OutputDest::SourceFolder;
            let dirs = parents(paths_view(paths@));
            match r {
                Some(base) => kept && dirs.len() > 0 && is_deepest(base@, dirs) && base@.len()
                    >= anchor_len(dirs[0]) && base.is_plain(),
                None => !kept || dirs.len() == 0 || !holds_all(
                    dirs[0].take(anchor_len(dirs[0]) as int),
                    dirs,
                ),
            }
        }),
{
    if !settings.preserve_folder_structure || settings.output_dest == OutputDest::SourceFolder {
        return None;
    }
    common_ancestor(paths)
}

// What a group gives ---------------------------------------------------------

/// What was learnt of a file.
pub type Probe = Result<FileInfo, String>;

/// A file that is to be converted, from what was learnt of it.
pub open spec fn is_convertible(probe: Probe) -> bool {
    probe is Ok && probe->Ok_0.has_media
}

/// The files that are to be converted.
pub open spec fn convertible(probes: Seq<(FilePath, Probe)>) -> Seq<(PathView, InfoView)>
    decreases probes.len(),
{
    if probes.len() == 0 {
        seq![]
    } else {
        let before = convertible(probes.drop_last());
        let (path, probe) = probes.last();
        if is_convertible(probe) {
            before.push((path.spelled(), probe->Ok_0@))
        } else {
            before
        }
    }
}

/// What becomes of the others: files that are no media are left out, and files
/// that could not be read have failed. A path is reported as it was given.
pub open spec fn unconvertible(probes: Seq<(FilePath, Probe)>) -> Seq<ResultView>
    decreases probes.len(),
{
    if probes.len() == 0 {
        seq![]
    } else {
        let before = unconvertible(probes.drop_last());
        let (path, probe) = probes.last();
        let text = lossy_text(path.text@);
        match probe {
            Ok(info) => if info.has_media {
                before
            } else {
                before.push(skipped_result(text))
            },
            Err(e) => before.push(failed_result(text, e@)),
        }
    }
}

/// The files of a group that are to be converted, and what becomes of the others.
fn partition_probes(probes: Vec<(FilePath, Probe)>) -> (r: (
    Vec<(FilePath, FileInfo)>,
    Vec<FileResult>,
))
    ensures
        candidates_view(r.0@) == convertible(probes@),
        results_view(r.1@) == unconvertible(probes@),
{
    let mut group: Vec<(FilePath, FileInfo)> = Vec::new();
    let mut others: Vec<FileResult> = Vec::new();
    let mut i: usize = 0;
    assert(probes@.take(0) =~= seq![]);
    assert(candidates_view(group@) =~= seq![]);
    assert(results_view(others@) =~= seq![]);
    while i < probes.len()
        invariant
            i <= probes@.len(),
            candidates_view(group@) == convertible(probes@.take(i as int)),
            results_view(others@) == unconvertible(probes@.take(i as int)),
        decreases probes@.len() - i,
    {
        assert(probes@.take(i + 1).drop_last() =~= probes@.take(i as int));
        assert(probes@.take(i + 1).last() == probes@[i as int]);
        let ghost g = candidates_view(group@);
        let ghost o = results_view(others@);
        let path: &FilePath = &probes[i].0;
        match &probes[i].1 {
            Ok(info) => {
                if info.has_media {
                    group.push((path.clone(), info.clone()));
                    assert(candidates_view(group@) =~= g.push((path.spelled(), info@)));
                } else {
                    let result = FileResult::skipped(path.to_text());
                    let ghost view = result@;
                    others.push(result);
                    assert(results_view(others@) =~= o.push(view));
                }
            },
            Err(e) => {
                let result = FileResult::error(path.to_text(), e.clone());
                let ghost view = result@;
                others.push(result);
                assert(results_view(others@) =~= o.push(view));
            },
        }
        i = i + 1;
    }
    assert(probes@.take(i as int) =~= probes@);
    (group, others)
}

/// What is made of an input: one result, or one of each of its tracks.
#[derive(Debug)]
pub struct Artifact {
    /// Its number among all that the session makes.
    pub index: usize,
    /// The stream that it is made of; the default one where there is none.
    pub stream: Option<usize>,
    /// Its name without extension; that of the input where there is none.
    pub stem: Option<String>,
    /// What it is called where it is displayed.
    pub display: String,
}

/// What an artifact holds.
pub struct ArtifactView {
    pub index: int,
    pub stream: Option<usize>,
    pub stem: Option<Seq<char>>,
    pub display: Seq<char>,
}

impl View for Artifact {
    type V = ArtifactView;

    open spec fn view(&self) -> ArtifactView {
        ArtifactView {
            index: self.index as int,
            stream: self.stream,
            stem: opt_text(self.stem),
            display: self.display@,
        }
    }
}

/// What each of a list of artifacts holds.
pub open spec fn artifacts_view(list: Seq<Artifact>) -> Seq<ArtifactView> {
    Seq::new(list.len(), |i: int| list[i]@)
}

/// The name of a file for display.
pub open spec fn display_name_of(path: Seq<Part>) -> Seq<char> {
    match name_of(path) {
        Some(name) => lossy_text(name),
        None => seq![],
    }
}

/// The name of a path for display: its last component, or all of it.
pub open spec fn error_name_of(path: PathView) -> Seq<char> {
    match name_of(path.parts) {
        Some(name) => lossy_text(name),
        None => lossy_text(path.text),
    }
}

/// Every track of the input becomes a result.
pub open spec fn exports_tracks(settings: SettingsView, info: InfoView) -> bool {
    settings.export_all_audio_tracks && info.audio_tracks.len() > 1
}

/// How many results an input gives.
pub open spec fn artifact_count_of(settings: SettingsView, info: InfoView) -> nat {
    if exports_tracks(settings, info) {
        info.audio_tracks.len()
    } else {
        1
    }
}

/// The name without extension of the result for a track.
pub open spec fn artifact_stem(path: Seq<Part>, info: InfoView, track: int) -> Seq<char> {
    match stem_of(path) {
        Some(stem) => track_stem(
            lossy_text(stem),
            label_of(info.audio_tracks[track], (track + 1) as nat),
        ),
        None => seq![],
    }
}

/// What is made of an input.
pub open spec fn artifacts_of(path: Seq<Part>, info: InfoView, settings: SettingsView, first: int) -> Seq<
    ArtifactView,
> {
    if exports_tracks(settings, info) {
        Seq::new(
            info.audio_tracks.len(),
            |i: int|
                ArtifactView {
                    index: first + i,
                    stream: Some(info.audio_tracks[i].stream_index),
                    stem: Some(artifact_stem(path, info, i)),
                    display: artifact_stem(path, info, i),
                },
        )
    } else {
        seq![
            ArtifactView {
                index: first,
                stream: None,
                stem: None,
                display: display_name_of(path),
            },
        ]
    }
}

/// How many results an input gives.
pub fn artifact_count(settings: &Settings, info: &FileInfo) -> (r: usize)
    ensures
        r == artifact_count_of(settings@, info@),
        r >= 1,
{
    if settings.export_all_audio_tracks && info.audio_tracks.len() > 1 {
        info.audio_tracks.len()
    } else {
        1
    }
}

/// The name of a file for display.
pub fn display_name(path: &FilePath) -> (r: String)
    ensures
        r@ == display_name_of(path@),
{
    match path.file_name() {
        Some(name) => lossy(&name),
        None => {
            let none: String = String::new();
            assert(none@ =~= seq![]);
            none
        },
    }
}

/// What is made of an input, numbered from `first`.
pub fn plan_artifacts(path: &FilePath, info: &FileInfo, settings: &Settings, first: usize) -> (r: Vec<
    Artifact,
>)
    requires
        first + artifact_count_of(settings@, info@) <= usize::MAX,
    ensures
        artifacts_view(r@) == artifacts_of(path@, info@, settings@, first as int),
{
    let mut r: Vec<Artifact> = Vec::new();
    if settings.export_all_audio_tracks && info.audio_tracks.len() > 1 {
        let mut i: usize = 0;
        while i < info.audio_tracks.len()
            invariant
                i <= info.audio_tracks@.len(),
                first + info.audio_tracks@.len() <= usize::MAX,
                exports_tracks(settings@, info@),
                r@.len() == i,
                forall|k: int|
                    0 <= k < i ==> (#[trigger] r@[k])@ == artifacts_of(
                        path@,
                        info@,
                        settings@,
                        first as int,
                    )[k],
            decreases info.audio_tracks@.len() - i,
        {
            assert(info@.audio_tracks[i as int] == info.audio_tracks@[i as int]@);
            let label: String = track_label(&info.audio_tracks[i], i + 1);
            let stem: String = match track_output_stem(path, label.as_str()) {
                Ok(stem) => stem,
                Err(_) => {
                    let none: String = String::new();
                    assert(none@ =~= seq![]);
                    none
                },
            };
            assert(stem@ == artifact_stem(path@, info@, i as int));
            r.push(
                Artifact {
                    index: first + i,
                    stream: Some(info.audio_tracks[i].stream_index),
                    stem: Some(stem.clone()),
                    display: stem,
                },
            );
            i = i + 1;
        }
    } else {
        r.push(Artifact { index: first, stream: None, stem: None, display: display_name(path) });
    }
    assert(artifacts_view(r@) =~= artifacts_of(path@, info@, settings@, first as int));
    r
}

/// No two results of an input have the same number.
pub proof fn artifacts_have_their_own_numbers(
    path: Seq<Part>,
    info: InfoView,
    settings: SettingsView,
    first: int,
    i: int,
)
    requires
        0 <= i < artifacts_of(path, info, settings, first).len(),
    ensures
        artifacts_of(path, info, settings, first).len() == artifact_count_of(settings, info),
        artifacts_of(path, info, settings, first)[i].index == first + i,
{
}

/// How an input is read.
#[derive(Debug, Clone, Copy, PartialEq, Eq, Structural)]
pub enum InputPlan {
    /// Where it is, as it is not on the network.
    Local,
    /// From a copy.
    Copy,
    /// Where it is, on the network, as it is too large to be copied.
    Direct,
}

/// How an input is read.
pub fn plan_input(on_network: bool, size: u64) -> (r: InputPlan)
    ensures
        r == reading_of(on_network, size),
{
    if !on_network {
        InputPlan::Local
    } else if should_cache_network_input(size) {
        InputPlan::Copy
    } else {
        InputPlan::Direct
    }
}

// What becomes of a batch ----------------------------------------------------

/// What became of a batch, and how it was converted.
#[derive(Debug)]
pub struct BatchOutcome {
    pub results: Vec<FileResult>,
    pub settings: Settings,
    pub mode: String,
    pub format: String,
    pub batch_order: u64,
}

/// What the outcome of a batch holds.
pub struct OutcomeView {
    pub results: Seq<ResultView>,
    pub settings: SettingsView,
    pub mode: Seq<char>,
    pub format: Seq<char>,
    pub batch_order: u64,
}

impl View for BatchOutcome {
    type V = OutcomeView;

    open spec fn view(&self) -> OutcomeView {
        OutcomeView {
            results: results_view(self.results@),
            settings: self.settings@,
            mode: self.mode@,
            format: self.format@,
            batch_order: self.batch_order,
        }
    }
}

/// What has become of the files of a batch so far.
#[derive(Debug)]
pub struct Batch {
    /// Files that could not be read.
    pub scan: Vec<FileResult>,
    /// Files that are no media, or of which nothing could be learnt.
    pub non_media: Vec<FileResult>,
    /// Files in the place of which a better one of the same name is converted.
    pub rejected: Vec<FileResult>,
    /// Files that were converted, well or not.
    pub converted: Vec<FileResult>,
}

/// What has become of the files of a batch so far.
#[verifier::ext_equal]
pub struct BatchView {
    pub scan: Seq<ResultView>,
    pub non_media: Seq<ResultView>,
    pub rejected: Seq<ResultView>,
    pub converted: Seq<ResultView>,
}

impl View for Batch {
    type V = BatchView;

    open spec fn view(&self) -> BatchView {
        BatchView {
            scan: results_view(self.scan@),
            non_media: results_view(self.non_media@),
            rejected: results_view(self.rejected@),
            converted: results_view(self.converted@),
        }
    }
}

/// How many files a batch says something of.
pub open spec fn accounted(batch: BatchView) -> nat {
    batch.scan.len() + batch.non_media.len() + batch.rejected.len() + batch.converted.len()
}

/// Results for files that were left out.
pub open spec fn left_out(paths: Seq<PathView>) -> Seq<ResultView> {
    Seq::new(paths.len(), |i: int| skipped_result(lossy_text(paths[i].text)))
}

/// The same failure of a file, for each of its results.
pub open spec fn failures(path: PathView, error: Seq<char>, count: nat) -> Seq<ResultView> {
    Seq::new(count, |i: int| failed_result(lossy_text(path.text), error))
}

/// A batch once a group of the same name was looked at: the best file of it is to
/// be converted, the other media files are left out, and of the rest it is said
/// why they are not converted.
pub open spec fn group_taken(
    batch: BatchView,
    probes: Seq<(FilePath, Probe)>,
    best: Option<int>,
) -> BatchView {
    let group = convertible(probes);
    BatchView {
        non_media: batch.non_media + unconvertible(probes),
        rejected: match best {
            Some(at) => batch.rejected + left_out(rejected(group, at)),
            None => batch.rejected,
        },
        ..batch
    }
}

/// What is to be converted of a group, and what the batch is once it was looked
/// at.
pub open spec fn takes_group(
    batch: BatchView,
    probes: Seq<(FilePath, Probe)>,
    after: BatchView,
    chosen: Option<(FilePath, FileInfo)>,
) -> bool {
    let group = convertible(probes);
    match chosen {
        Some(file) => exists|at: int|
            #[trigger] is_best(group, at) && (file.0.spelled(), file.1@) == group[at] && after
                == group_taken(batch, probes, Some(at)),
        None => group.len() == 0 && after == group_taken(batch, probes, None),
    }
}

/// Results at the end of others.
fn add_results(list: &mut Vec<FileResult>, more: Vec<FileResult>)
    ensures
        results_view(final(list)@) == results_view(old(list)@) + results_view(more@),
{
    let mut rest = more;
    list.append(&mut rest);
    assert(results_view(list@) =~= results_view(old(list)@) + results_view(more@));
}

impl Batch {
    pub fn new() -> (r: Self)
        ensures
            r@ == (BatchView { scan: seq![], non_media: seq![], rejected: seq![], converted: seq![] }),
    {
        let r = Batch {
            scan: Vec::new(),
            non_media: Vec::new(),
            rejected: Vec::new(),
            converted: Vec::new(),
        };
        assert(r@ =~= BatchView {
            scan: seq![],
            non_media: seq![],
            rejected: seq![],
            converted: seq![],
        });
        r
    }

    /// A path could not be read; returns its name for display.
    pub fn scan_failed(&mut self, path: &FilePath, error: &str) -> (r: String)
        ensures
            r@ == error_name_of(path.spelled()),
            final(self)@ == (BatchView {
                scan: old(self)@.scan.push(failed_result(lossy_text(path.text@), error@)),
                ..old(self)@
            }),
    {
        let result = FileResult::error(path.to_text(), error.to_owned());
        let ghost view = result@;
        self.scan.push(result);
        assert(results_view(self.scan@) =~= old(self)@.scan.push(view));
        match path.file_name() {
            Some(name) => lossy(&name),
            None => path.to_text(),
        }
    }

    /// All files of a group of the same name were looked at; returns the one to be
    /// converted, where there is one.
    pub fn take_group(&mut self, probes: Vec<(FilePath, Probe)>) -> (r: Option<
        (FilePath, FileInfo),
    >)
        ensures
            takes_group(old(self)@, probes@, final(self)@, r),
    {
        let ghost all = convertible(probes@);
        let (group, others) = partition_probes(probes);
        add_results(&mut self.non_media, others);
        if group.len() == 0 {
            assert(all.len() == 0);
            assert(self@ =~= group_taken(old(self)@, probes@, None));
            return None;
        }
        let (best, worse) = select_best_from_group(group);
        let ghost at = choose|at: int|
            #[trigger] is_best(all, at) && (best.0.spelled(), best.1@) == all[at] && spelled_view(worse@)
                == rejected(all, at);
        let mut i: usize = 0;
        let ghost before = results_view(self.rejected@);
        assert(before =~= before + left_out(spelled_view(worse@).take(0)));
        while i < worse.len()
            invariant
                i <= worse@.len(),
                self@.scan == old(self)@.scan,
                self@.non_media == old(self)@.non_media + unconvertible(probes@),
                self@.converted == old(self)@.converted,
                before == old(self)@.rejected,
                self@.rejected == before + left_out(spelled_view(worse@).take(i as int)),
            decreases worse@.len() - i,
        {
            let ghost so_far = results_view(self.rejected@);
            let result = FileResult::skipped(worse[i].to_text());
            let ghost view = result@;
            self.rejected.push(result);
            assert(results_view(self.rejected@) =~= so_far.push(view));
            assert(so_far.push(view) =~= before + left_out(spelled_view(worse@).take(i + 1)));
            i = i + 1;
        }
        assert(spelled_view(worse@).take(i as int) =~= spelled_view(worse@));
        assert(self@ =~= group_taken(old(self)@, probes@, Some(at)));
        assert(is_best(all, at));
        Some(best)
    }

    /// A file that was to be converted could not be read: it failed once where
    /// nothing is known of it, and once for each result where it could not be
    /// copied.
    pub fn input_failed(&mut self, path: &FilePath, error: &str, artifacts: usize, copying: bool)
        ensures
            final(self)@ == (BatchView {
                scan: old(self)@.scan + failures(
                    path.spelled(),
                    error@,
                    if copying {
                        artifacts as nat
                    } else {
                        1
                    },
                ),
                ..old(self)@
            }),
    {
        let count: usize = if copying {
            artifacts
        } else {
            1
        };
        let ghost before = results_view(self.scan@);
        let mut i: usize = 0;
        assert(before =~= before + failures(path.spelled(), error@, 0));
        while i < count
            invariant
                i <= count,
                before == old(self)@.scan,
                self@ == (BatchView {
                    scan: before + failures(path.spelled(), error@, i as nat),
                    ..old(self)@
                }),
            decreases count - i,
        {
            let ghost so_far = results_view(self.scan@);
            let result = FileResult::error(path.to_text(), error.to_owned());
            let ghost view = result@;
            self.scan.push(result);
            assert(results_view(self.scan@) =~= so_far.push(view));
            assert(so_far.push(view) =~= before + failures(path.spelled(), error@, (i + 1) as nat));
            i = i + 1;
        }
    }

    /// A file was converted, well or not.
    pub fn finished(&mut self, result: FileResult)
        ensures
            final(self)@ == (BatchView {
                converted: old(self)@.converted.push(result@),
                ..old(self)@
            }),
    {
        let ghost view = result@;
        self.converted.push(result);
        assert(results_view(self.converted@) =~= old(self)@.converted.push(view));
    }

    /// What became of the batch: first what could not be read, then what was left
    /// out, and at last what was converted.
    pub fn into_outcome(self, settings: Settings, mode: String, format: String, batch_order: u64) -> (r:
        BatchOutcome)
        ensures
            r@ == (OutcomeView {
                results: results_of(self@),
                settings: settings@,
                mode: mode@,
                format: format@,
                batch_order,
            }),
    {
        let mut results: Vec<FileResult> = self.scan;
        add_results(&mut results, self.non_media);
        add_results(&mut results, self.rejected);
        add_results(&mut results, self.converted);
        BatchOutcome { results, settings, mode, format, batch_order }
    }
}

proof fn lemma_probes_are_parted(probes: Seq<(FilePath, Probe)>)
    ensures
        convertible(probes).len() + unconvertible(probes).len() == probes.len(),
    decreases probes.len(),
{
    if probes.len() > 0 {
        lemma_probes_are_parted(probes.drop_last());
    }
}

/// No file of a group is forgotten: of each but the one that is to be converted
/// the batch says what became of it.
pub proof fn every_file_is_accounted_for(
    batch: BatchView,
    probes: Seq<(FilePath, Probe)>,
    after: BatchView,
    chosen: Option<(FilePath, FileInfo)>,
)
    requires
        takes_group(batch, probes, after, chosen),
    ensures
        accounted(after) + (if chosen is Some {
            1nat
        } else {
            0nat
        }) == accounted(batch) + probes.len(),
{
    lemma_probes_are_parted(probes);
    if chosen is Some {
        let file = chosen->0;
        let group = convertible(probes);
        let at = choose|at: int|
            #[trigger] is_best(group, at) && (file.0.spelled(), file.1@) == group[at] && after
                == group_taken(batch, probes, Some(at));
        assert(is_best(group, at));
    }
}

/// Only media is converted.
pub proof fn only_media_is_converted(probes: Seq<(FilePath, Probe)>, at: int)
    requires
        0 <= at < convertible(probes).len(),
    ensures
        convertible(probes)[at].1.has_media,
    decreases probes.len(),
{
    if probes.len() > 0 && at < convertible(probes.drop_last()).len() {
        only_media_is_converted(probes.drop_last(), at);
    }
}

// What a batch makes of its files --------------------------------------------

/// What is decoded becomes an aiff where that is asked for, and a wav in any other
/// case; what is encoded becomes what is asked for.
pub proof fn decoding_has_two_formats(mode: Seq<char>, format: Seq<char>)
    ensures
        mode != "decode"@ ==> effective_format_of(mode, format) == format,
        effective_format_of("decode"@, "aiff"@) == "aiff"@,
        format != "aiff"@ ==> effective_format_of("decode"@, format) == "wav"@,
{
}

/// Where all tracks are exported, an input with several becomes one file for each,
/// made of that track and named by it; any other input becomes one file, made of
/// the stream that is the default and named as the input is.
pub proof fn each_track_becomes_a_file(
    path: Seq<Part>,
    info: InfoView,
    settings: SettingsView,
    first: int,
    i: int,
)
    ensures
        ({
            let made = artifacts_of(path, info, settings, first);
            let several = settings.export_all_audio_tracks && info.audio_tracks.len() >= 2;
            &&& several ==> made.len() == info.audio_tracks.len()
            &&& several && 0 <= i < info.audio_tracks.len() ==> made[i].stream == Some(
                info.audio_tracks[i].stream_index,
            ) && made[i].index == first + i && made[i].stem == Some(made[i].display)
            &&& several && 0 <= i < info.audio_tracks.len() ==> (stem_of(path) matches Some(stem)
                ==> made[i].stem == Some(
                lossy_text(stem) + " ("@ + label_of(info.audio_tracks[i], (i + 1) as nat) + ")"@,
            ))
            &&& !several ==> made.len() == 1 && made[0].stream is None && made[0].stem is None
                && made[0].index == first
            &&& !several ==> (name_of(path) matches Some(name) ==> made[0].display == lossy_text(
                name,
            ))
        }),
{
}

/// Of every file that was looked at something becomes known: one that is media
/// may be converted, one that is not is left out, and one that could not be read
/// is a failure with its reason.
pub proof fn every_file_is_sorted(probes: Seq<(FilePath, Probe)>, i: int)
    requires
        0 <= i < probes.len(),
    ensures
        ({
            let (path, probe) = probes[i];
            let text = lossy_text(path.text@);
            match probe {
                Ok(info) => if info.has_media {
                    convertible(probes).contains((path.spelled(), info@))
                } else {
                    unconvertible(probes).contains(
                        ResultView {
                            input_path: text,
                            output_path: seq![],
                            success: false,
                            skipped: true,
                            error: None,
                        },
                    )
                },
                Err(e) => unconvertible(probes).contains(
                    ResultView {
                        input_path: text,
                        output_path: seq![],
                        success: false,
                        skipped: false,
                        error: Some(e@),
                    },
                ),
            }
        }),
        convertible(probes).len() + unconvertible(probes).len() == probes.len(),
    decreases probes.len(),
{
    let rest = probes.drop_last();
    let good = convertible(rest);
    let bad = unconvertible(rest);
    if i < rest.len() {
        assert(rest[i] == probes[i]);
        every_file_is_sorted(rest, i);
        let after_good = convertible(probes);
        let after_bad = unconvertible(probes);
        assert(forall|k: int| 0 <= k < good.len() ==> after_good[k] == good[k]);
        assert(forall|k: int| 0 <= k < bad.len() ==> after_bad[k] == bad[k]);
        assert forall|x: (PathView, InfoView)| good.contains(x) implies after_good.contains(x) by {
            let k = choose|k: int| 0 <= k < good.len() && good[k] == x;
            assert(after_good[k] == x);
        }
        assert forall|x: ResultView| bad.contains(x) implies after_bad.contains(x) by {
            let k = choose|k: int| 0 <= k < bad.len() && bad[k] == x;
            assert(after_bad[k] == x);
        }
    } else {
        if rest.len() > 0 {
            every_file_is_sorted(rest, 0);
        }
        match probes[i].1 {
            Ok(info) => if info.has_media {
                assert(convertible(probes)[good.len() as int] == (
                    probes[i].0.spelled(),
                    info@,
                ));
            } else {
                assert(unconvertible(probes)[bad.len() as int] == skipped_result(
                    lossy_text(probes[i].0.text@),
                ));
            },
            Err(e) => {
                assert(unconvertible(probes)[bad.len() as int] == failed_result(
                    lossy_text(probes[i].0.text@),
                    e@,
                ));
            },
        }
    }
}

/// Of files of the same name one is converted; each of the others is reported as
/// left out, by its own path, and nothing is said of the one that is converted.
pub proof fn the_others_are_left_out(
    batch: BatchView,
    probes: Seq<(FilePath, Probe)>,
    after: BatchView,
    chosen: Option<(FilePath, FileInfo)>,
    j: int,
)
    requires
        takes_group(batch, probes, after, chosen),
        0 <= j < convertible(probes).len(),
    ensures
        chosen is Some,
        after.rejected.len() == batch.rejected.len() + convertible(probes).len() - 1,
        batch.rejected.is_prefix_of(after.rejected),
        after.scan == batch.scan && after.converted == batch.converted,
        ((chosen->0).0.spelled(), (chosen->0).1@) == convertible(probes)[j] || after.rejected.contains(
            ResultView {
                input_path: lossy_text(convertible(probes)[j].0.text),
                output_path: seq![],
                success: false,
                skipped: true,
                error: None,
            },
        ),
{
    let group = convertible(probes);
    let at = choose|at: int|
        #[trigger] is_best(group, at) && ((chosen->0).0.spelled(), (chosen->0).1@) == group[at] && after
            == group_taken(batch, probes, Some(at));
    let others = rejected(group, at);
    assert(after.rejected.take(batch.rejected.len() as int) =~= batch.rejected);
    if j != at {
        let k = if j < at {
            j
        } else {
            j - 1
        };
        assert(others[k] == group[j].0);
        assert(left_out(others)[k] == skipped_result(lossy_text(group[j].0.text)));
        assert(after.rejected[batch.rejected.len() + k] == skipped_result(
            lossy_text(group[j].0.text),
        ));
    }
}

/// How an input is read: where it is, unless it lies on the network; from a copy
/// there, unless it is larger than what is kept of a file.
pub open spec fn reading_of(on_network: bool, size: u64) -> InputPlan {
    if !on_network {
        InputPlan::Local
    } else if size <= INPUT_SPOOL_TARGET_BYTES {
        InputPlan::Copy
    } else {
        InputPlan::Direct
    }
}

/// An input is copied where it lies on the network and is not too large, and only
/// there; a larger input is copied only where a smaller one is.
pub proof fn only_what_lies_on_the_network_is_copied(size: u64, larger: u64)
    requires
        size <= larger,
    ensures
        reading_of(false, size) == InputPlan::Local,
        reading_of(true, size) != InputPlan::Local,
        reading_of(true, larger) == InputPlan::Copy ==> reading_of(true, size) == InputPlan::Copy,
        reading_of(true, 0) == InputPlan::Copy,
        reading_of(true, INPUT_SPOOL_TARGET_BYTES as u64) == InputPlan::Copy,
        size > INPUT_SPOOL_TARGET_BYTES ==> reading_of(true, size) == InputPlan::Direct,
{
}

/// The results of a batch, in the order in which they are told.
pub open spec fn results_of(batch: BatchView) -> Seq<ResultView> {
    batch.scan + batch.non_media + batch.rejected + batch.converted
}

/// Every result of a batch is told, and no other: those of files that could not be
/// read, of files that are no media, of files that gave way to a better one, and
/// of files that were converted, in this order.
pub proof fn every_result_is_told(batch: BatchView, k: int)
    ensures
        ({
            let all = results_of(batch);
            let a = batch.scan.len();
            let b = a + batch.non_media.len();
            let c = b + batch.rejected.len();
            &&& all.len() == c + batch.converted.len()
            &&& 0 <= k < batch.scan.len() ==> all[k] == batch.scan[k]
            &&& 0 <= k < batch.non_media.len() ==> all[a + k] == batch.non_media[k]
            &&& 0 <= k < batch.rejected.len() ==> all[b + k] == batch.rejected[k]
            &&& 0 <= k < batch.converted.len() ==> all[c + k] == batch.converted[k]
        }),
{
}

} // verus!
