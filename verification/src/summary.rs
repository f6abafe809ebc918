//! The end of a session: what became of all its batches, which result is shown,
//! and which sources are deleted.

use vstd::prelude::*;
use crate::batch::BatchOutcome;
use crate::batch::OutcomeView;
use crate::order::before;
use crate::order::keys_view;
use crate::order::sorted_places;
use crate::order::sorts;
use crate::path::opt_path;
use crate::path::FilePath;
use crate::path::Part;
use crate::path::PathView;
use crate::path::spelled_view;
use crate::settings::NameConflict;
use crate::settings::OutputDest;
use crate::settings::Settings;
use crate::settings::SettingsView;
use crate::settings::SourceFileAction;
use crate::text::text_eq;
use crate::types::results_view;
use crate::types::CompletionPayload;
use crate::types::FileResult;
use crate::types::ResultView;

verus! {

// Profiles -------------------------------------------------------------------

/// The settings that shape a result are the same.
pub open spec fn same_codec_settings(a: SettingsView, b: SettingsView) -> bool {
    &&& a.mp3_preset == b.mp3_preset
    &&& a.mp3_mode == b.mp3_mode
    &&& a.mp3_bitrate == b.mp3_bitrate
    &&& a.mp3_vbr_quality == b.mp3_vbr_quality
    &&& a.mp3_sample_rate == b.mp3_sample_rate
    &&& a.mp3_channel_mode == b.mp3_channel_mode
    &&& a.aac_preset == b.aac_preset
    &&& a.aac_mode == b.aac_mode
    &&& a.m4a_bitrate == b.m4a_bitrate
    &&& a.aac_vbr_quality == b.aac_vbr_quality
    &&& a.aac_sample_rate == b.aac_sample_rate
    &&& a.aac_channels == b.aac_channels
    &&& a.opus_preset == b.opus_preset
    &&& a.opus_mode == b.opus_mode
    &&& a.opus_bitrate == b.opus_bitrate
    &&& a.opus_complexity == b.opus_complexity
    &&& a.flac_preset == b.flac_preset
    &&& a.flac_compression == b.flac_compression
    &&& a.alac_preset == b.alac_preset
    &&& a.alac_bit_depth == b.alac_bit_depth
    &&& a.silence_trim_enabled == b.silence_trim_enabled
    &&& a.silence_trim_db == b.silence_trim_db
    &&& a.silence_trim_duration_ms == b.silence_trim_duration_ms
    &&& a.export_all_audio_tracks == b.export_all_audio_tracks
}

/// What a batch is converted into, as one text.
pub open spec fn target_text(outcome: OutcomeView) -> Seq<char> {
    outcome.mode + ":"@ + outcome.format
}

/// Two batches were converted in the same way.
pub open spec fn same_profile(a: OutcomeView, b: OutcomeView) -> bool {
    target_text(a) == target_text(b) && same_codec_settings(a.settings, b.settings)
}

fn codec_settings_eq(a: &Settings, b: &Settings) -> (r: bool)
    ensures
        r == same_codec_settings(a@, b@),
{
    a.mp3_preset == b.mp3_preset && a.mp3_mode == b.mp3_mode && a.mp3_bitrate == b.mp3_bitrate
        && a.mp3_vbr_quality == b.mp3_vbr_quality && a.mp3_sample_rate == b.mp3_sample_rate
        && a.mp3_channel_mode == b.mp3_channel_mode && a.aac_preset == b.aac_preset && a.aac_mode
        == b.aac_mode && a.m4a_bitrate == b.m4a_bitrate && a.aac_vbr_quality == b.aac_vbr_quality
        && a.aac_sample_rate == b.aac_sample_rate && a.aac_channels == b.aac_channels
        && a.opus_preset == b.opus_preset && a.opus_mode == b.opus_mode && a.opus_bitrate
        == b.opus_bitrate && a.opus_complexity == b.opus_complexity && a.flac_preset
        == b.flac_preset && a.flac_compression == b.flac_compression && a.alac_preset
        == b.alac_preset && a.alac_bit_depth == b.alac_bit_depth && a.silence_trim_enabled
        == b.silence_trim_enabled && a.silence_trim_db == b.silence_trim_db
        && a.silence_trim_duration_ms == b.silence_trim_duration_ms && a.export_all_audio_tracks
        == b.export_all_audio_tracks
}

fn target(outcome: &BatchOutcome) -> (r: String)
    ensures
        r@ == target_text(outcome@),
{
    let mut r: String = outcome.mode.clone();
    r.append(":");
    r.append(outcome.format.as_str());
    r
}

/// Whether two batches were converted in the same way.
pub fn profiles_match(a: &BatchOutcome, b: &BatchOutcome) -> (r: bool)
    ensures
        r == same_profile(a@, b@),
{
    let first: String = target(a);
    let second: String = target(b);
    text_eq(first.as_str(), second.as_str()) && codec_settings_eq(&a.settings, &b.settings)
}

/// Where results go, what becomes of the sources and what is displayed does not
/// tell profiles apart.
pub proof fn places_do_not_part_profiles(
    outcome: OutcomeView,
    output_dest: OutputDest,
    source_file_action: SourceFileAction,
    name_conflict: NameConflict,
    custom_output_path: Option<Seq<char>>,
    preserve_folder_structure: bool,
    open_in_finder: bool,
    language: Seq<char>,
)
    ensures
        same_profile(
            outcome,
            OutcomeView {
                settings: SettingsView {
                    output_dest,
                    source_file_action,
                    name_conflict,
                    custom_output_path,
                    preserve_folder_structure,
                    open_in_finder,
                    language,
                    ..outcome.settings
                },
                ..outcome
            },
        ),
{
}

// What became of a session ---------------------------------------------------

/// What each of a list of outcomes holds.
pub open spec fn outcomes_view(list: Seq<BatchOutcome>) -> Seq<OutcomeView> {
    Seq::new(list.len(), |i: int| list[i]@)
}

/// What the outcomes are sorted by.
pub open spec fn order_keys(list: Seq<OutcomeView>) -> Seq<Seq<u64>> {
    Seq::new(list.len(), |i: int| seq![list[i].batch_order])
}

/// The outcomes in the order of the places.
pub open spec fn arranged(list: Seq<OutcomeView>, places: Seq<usize>) -> Seq<OutcomeView> {
    Seq::new(places.len(), |i: int| list[places[i] as int])
}

/// The second list is the first in the order in which the batches were asked for.
pub open spec fn is_by_order(list: Seq<OutcomeView>, ordered: Seq<OutcomeView>) -> bool {
    exists|places: Seq<usize>|
        #[trigger] sorts(order_keys(list), places, 0, list.len() as int) && ordered == arranged(
            list,
            places,
        )
}

/// All results, batch by batch.
pub open spec fn all_results(list: Seq<OutcomeView>) -> Seq<ResultView>
    decreases list.len(),
{
    if list.len() == 0 {
        seq![]
    } else {
        all_results(list.drop_last()) + list.last().results
    }
}

/// How many of the results are of a kind.
pub open spec fn count_results(results: Seq<ResultView>, kind: spec_fn(ResultView) -> bool) -> nat
    decreases results.len(),
{
    if results.len() == 0 {
        0
    } else {
        count_results(results.drop_last(), kind) + if kind(results.last()) {
            1nat
        } else {
            0nat
        }
    }
}

pub open spec fn succeeded() -> spec_fn(ResultView) -> bool {
    |r: ResultView| r.success
}

pub open spec fn failed() -> spec_fn(ResultView) -> bool {
    |r: ResultView| !r.success && !r.skipped
}

pub open spec fn left_aside() -> spec_fn(ResultView) -> bool {
    |r: ResultView| r.skipped
}

/// The place of the last success.
pub open spec fn last_success(results: Seq<ResultView>) -> Option<Seq<char>>
    decreases results.len(),
{
    if results.len() == 0 {
        None
    } else if results.last().success {
        Some(results.last().output_path)
    } else {
        last_success(results.drop_last())
    }
}

/// The result that is shown: the last success of the last batch that asked for
/// that and has one.
pub open spec fn shown_result(list: Seq<OutcomeView>) -> Option<Seq<char>>
    decreases list.len(),
{
    if list.len() == 0 {
        None
    } else if list.last().settings.open_in_finder && last_success(list.last().results) is Some {
        last_success(list.last().results)
    } else {
        shown_result(list.drop_last())
    }
}

/// Some batch was converted otherwise than the first.
pub open spec fn is_mixed(list: Seq<OutcomeView>) -> bool {
    exists|i: int| 1 <= i < list.len() && !same_profile(#[trigger] list[i], list[0])
}

fn order_of(outcomes: &Vec<BatchOutcome>) -> (r: Vec<usize>)
    ensures
        sorts(order_keys(outcomes_view(outcomes@)), r@, 0, outcomes@.len() as int),
{
    let mut keys: Vec<Vec<u64>> = Vec::new();
    let mut i: usize = 0;
    while i < outcomes.len()
        invariant
            i <= outcomes@.len(),
            keys@.len() == i,
            forall|k: int|
                0 <= k < i ==> (#[trigger] keys@[k])@ == order_keys(outcomes_view(outcomes@))[k],
        decreases outcomes@.len() - i,
    {
        let mut key: Vec<u64> = Vec::new();
        key.push(outcomes[i].batch_order);
        assert(key@ =~= order_keys(outcomes_view(outcomes@))[i as int]);
        keys.push(key);
        i = i + 1;
    }
    assert(keys_view(keys@) =~= order_keys(outcomes_view(outcomes@)));
    sorted_places(&keys)
}

/// The last success among results.
fn find_last_success(results: &Vec<FileResult>) -> (r: Option<String>)
    ensures
        match r {
            Some(path) => last_success(results_view(results@)) == Some(path@),
            None => last_success(results_view(results@)) is None,
        },
{
    let ghost all = results_view(results@);
    let mut i: usize = results.len();
    assert(all.take(i as int) =~= all);
    while i > 0
        invariant
            i <= results@.len(),
            all == results_view(results@),
            last_success(all) == last_success(all.take(i as int)),
        decreases i,
    {
        assert(all.take(i as int).last() == results@[i - 1]@);
        assert(all.take(i as int).drop_last() =~= all.take(i - 1));
        i = i - 1;
        if results[i].success {
            return Some(results[i].output_path.clone());
        }
    }
    None
}

fn find_shown(outcomes: &Vec<BatchOutcome>, places: &Vec<usize>) -> (r: Option<String>)
    requires
        forall|a: int| 0 <= a < places@.len() ==> (#[trigger] places@[a]) < outcomes@.len(),
    ensures
        match r {
            Some(path) => shown_result(arranged(outcomes_view(outcomes@), places@)) == Some(path@),
            None => shown_result(arranged(outcomes_view(outcomes@), places@)) is None,
        },
{
    let ghost all = arranged(outcomes_view(outcomes@), places@);
    let mut i: usize = places.len();
    assert(all.take(i as int) =~= all);
    while i > 0
        invariant
            i <= places@.len(),
            all == arranged(outcomes_view(outcomes@), places@),
            forall|a: int| 0 <= a < places@.len() ==> (#[trigger] places@[a]) < outcomes@.len(),
            shown_result(all) == shown_result(all.take(i as int)),
        decreases i,
    {
        assert(all.take(i as int).last() == outcomes@[places@[i - 1] as int]@);
        assert(all.take(i as int).drop_last() =~= all.take(i - 1));
        i = i - 1;
        let outcome: &BatchOutcome = &outcomes[places[i]];
        if outcome.settings.open_in_finder {
            match find_last_success(&outcome.results) {
                Some(path) => {
                    return Some(path);
                },
                None => {},
            }
        }
    }
    None
}

fn find_mixed(outcomes: &Vec<BatchOutcome>, places: &Vec<usize>) -> (r: bool)
    requires
        forall|a: int| 0 <= a < places@.len() ==> (#[trigger] places@[a]) < outcomes@.len(),
    ensures
        r == is_mixed(arranged(outcomes_view(outcomes@), places@)),
{
    let ghost all = arranged(outcomes_view(outcomes@), places@);
    let mut i: usize = 1;
    while i < places.len()
        invariant
            1 <= i,
            all == arranged(outcomes_view(outcomes@), places@),
            forall|a: int| 0 <= a < places@.len() ==> (#[trigger] places@[a]) < outcomes@.len(),
            forall|k: int| 1 <= k < i && k < all.len() ==> same_profile(#[trigger] all[k], all[0]),
        decreases places@.len() - i,
    {
        assert(all[i as int] == outcomes@[places@[i as int] as int]@);
        assert(all[0] == outcomes@[places@[0] as int]@);
        if !profiles_match(&outcomes[places[i]], &outcomes[places[0]]) {
            return true;
        }
        i = i + 1;
    }
    false
}

/// The results of the batches, batch by batch, and how many of each kind.
fn gather(outcomes: &Vec<BatchOutcome>, places: &Vec<usize>) -> (r: Vec<FileResult>)
    requires
        forall|a: int| 0 <= a < places@.len() ==> (#[trigger] places@[a]) < outcomes@.len(),
    ensures
        results_view(r@) == all_results(arranged(outcomes_view(outcomes@), places@)),
{
    let ghost all = arranged(outcomes_view(outcomes@), places@);
    let mut results: Vec<FileResult> = Vec::new();
    let mut i: usize = 0;
    assert(all.take(0) =~= seq![]);
    assert(results_view(results@) =~= seq![]);
    while i < places.len()
        invariant
            i <= places@.len(),
            all == arranged(outcomes_view(outcomes@), places@),
            forall|a: int| 0 <= a < places@.len() ==> (#[trigger] places@[a]) < outcomes@.len(),
            results_view(results@) == all_results(all.take(i as int)),
        decreases places@.len() - i,
    {
        let outcome: &BatchOutcome = &outcomes[places[i]];
        assert(all.take(i + 1).last() == outcome@);
        assert(all.take(i + 1).drop_last() =~= all.take(i as int));
        let ghost so_far = results_view(results@);
        let ghost added = outcome@.results;
        let mut k: usize = 0;
        assert(so_far =~= so_far + added.take(0));
        while k < outcome.results.len()
            invariant
                k <= outcome.results@.len(),
                added == results_view(outcome.results@),
                results_view(results@) == so_far + added.take(k as int),
            decreases outcome.results@.len() - k,
        {
            let ghost list = results_view(results@);
            let result: FileResult = outcome.results[k].clone();
            let ghost view = result@;
            results.push(result);
            assert(results_view(results@) =~= list.push(view));
            assert(list.push(view) =~= so_far + added.take(k + 1));
            k = k + 1;
        }
        assert(added.take(k as int) =~= added);
        i = i + 1;
    }
    assert(all.take(i as int) =~= all);
    results
}

/// How many results succeeded, failed and were left out.
fn tally(results: &Vec<FileResult>) -> (r: (usize, usize, usize))
    ensures
        r.0 == count_results(results_view(results@), succeeded()),
        r.1 == count_results(results_view(results@), failed()),
        r.2 == count_results(results_view(results@), left_aside()),
{
    let ghost all = results_view(results@);
    let mut well: usize = 0;
    let mut badly: usize = 0;
    let mut aside: usize = 0;
    let mut i: usize = 0;
    assert(all.take(0) =~= seq![]);
    while i < results.len()
        invariant
            i <= results@.len(),
            all == results_view(results@),
            well <= i,
            badly <= i,
            aside <= i,
            well == count_results(all.take(i as int), succeeded()),
            badly == count_results(all.take(i as int), failed()),
            aside == count_results(all.take(i as int), left_aside()),
        decreases results@.len() - i,
    {
        assert(all.take(i + 1).last() == results@[i as int]@);
        assert(all.take(i + 1).drop_last() =~= all.take(i as int));
        if results[i].success {
            well = well + 1;
        }
        if !results[i].success && !results[i].skipped {
            badly = badly + 1;
        }
        if results[i].skipped {
            aside = aside + 1;
        }
        i = i + 1;
    }
    assert(all.take(i as int) =~= all);
    (well, badly, aside)
}

/// What a session came to, from its batches in the order in which they were asked
/// for.
pub open spec fn completes(payload: CompletionPayload, job_id: Seq<char>, list: Seq<OutcomeView>) -> bool {
    let results = all_results(list);
    &&& payload.job_id@ == job_id
    &&& results_view(payload.results@) == results
    &&& payload.success_count == count_results(results, succeeded())
    &&& payload.error_count == count_results(results, failed())
    &&& payload.skipped_count == count_results(results, left_aside())
    &&& payload.mixed_profiles == is_mixed(list)
}

/// What a session came to and which result is shown.
pub open spec fn is_completion(
    r: (CompletionPayload, Option<String>),
    job_id: Seq<char>,
    outcomes: Seq<OutcomeView>,
    cancelled: bool,
) -> bool {
    exists|list: Seq<OutcomeView>|
        {
            &&& #[trigger] is_by_order(outcomes, list)
            &&& completes(r.0, job_id, list)
            &&& crate::text::opt_text(r.1) == if cancelled {
                None
            } else {
                shown_result(list)
            }
        }
}

/// Ends a session: all results in the order in which the batches were asked for,
/// how many there are of each kind, whether the batches were converted in
/// different ways, and the result that is shown, which is none where the session
/// was stopped.
pub fn complete_session(job_id: &str, outcomes: &Vec<BatchOutcome>, cancelled: bool) -> (r: (
    CompletionPayload,
    Option<String>,
))
    ensures
        is_completion(r, job_id@, outcomes_view(outcomes@), cancelled),
{
    let places: Vec<usize> = order_of(outcomes);
    let ghost list = arranged(outcomes_view(outcomes@), places@);
    assert(sorts(order_keys(outcomes_view(outcomes@)), places@, 0, outcomes@.len() as int));
    assert(is_by_order(outcomes_view(outcomes@), list));
    let shown: Option<String> = if cancelled {
        None
    } else {
        find_shown(outcomes, &places)
    };
    let results: Vec<FileResult> = gather(outcomes, &places);
    let (success_count, error_count, skipped_count) = tally(&results);
    let mixed_profiles: bool = find_mixed(outcomes, &places);
    (
        CompletionPayload {
            job_id: job_id.to_owned(),
            results,
            success_count,
            error_count,
            skipped_count,
            mixed_profiles,
        },
        shown,
    )
}

/// No batch stands in front of one that was asked for earlier.
pub proof fn batches_stand_in_order(list: Seq<OutcomeView>, ordered: Seq<OutcomeView>, i: int, j: int)
    requires
        is_by_order(list, ordered),
        0 <= i < j < ordered.len(),
    ensures
        ordered[i].batch_order <= ordered[j].batch_order,
{
    let places = choose|places: Seq<usize>|
        #[trigger] sorts(order_keys(list), places, 0, list.len() as int) && ordered == arranged(
            list,
            places,
        );
    assert(before(order_keys(list), places[i] as int, places[j] as int));
    let a: Seq<u64> = order_keys(list)[places[i] as int];
    let b: Seq<u64> = order_keys(list)[places[j] as int];
    assert(a.len() == 1 && b.len() == 1);
    if a[0] > b[0] {
        assert(!crate::order::lex_less(a, b));
        assert(a != b);
    }
}

/// A result of which no more than one of success and being left out is said.
pub open spec fn is_plain(r: ResultView) -> bool {
    !(r.success && r.skipped)
}

/// Every result counts once.
pub proof fn every_result_is_counted(results: Seq<ResultView>)
    requires
        forall|i: int| 0 <= i < results.len() ==> is_plain(#[trigger] results[i]),
    ensures
        count_results(results, succeeded()) + count_results(results, failed()) + count_results(
            results,
            left_aside(),
        ) == results.len(),
    decreases results.len(),
{
    if results.len() > 0 {
        assert forall|i: int| 0 <= i < results.drop_last().len() implies is_plain(
            #[trigger] results.drop_last()[i],
        ) by {
            assert(is_plain(results[i]));
        }
        every_result_is_counted(results.drop_last());
        assert(is_plain(results[results.len() - 1]));
    }
}

// Sources --------------------------------------------------------------------

/// What a session made of a source, once.
#[derive(Debug)]
pub struct SourceUse {
    /// The source as it was named.
    pub path: FilePath,
    /// The file that it is, where there is one.
    pub file: Option<FilePath>,
    /// Whether a result was made of it.
    pub success: bool,
    /// Whether the result has a place.
    pub has_output: bool,
    /// The file that the result is, where there is one.
    pub output_file: Option<FilePath>,
    /// Whether the source is to be kept.
    pub keep: bool,
}

/// What a session made of a source.
pub struct UseView {
    pub path: PathView,
    pub file: Option<Seq<Part>>,
    pub success: bool,
    pub has_output: bool,
    pub output_file: Option<Seq<Part>>,
    pub keep: bool,
}

impl View for SourceUse {
    type V = UseView;

    open spec fn view(&self) -> UseView {
        UseView {
            path: self.path.spelled(),
            file: opt_path(self.file),
            success: self.success,
            has_output: self.has_output,
            output_file: opt_path(self.output_file),
            keep: self.keep,
        }
    }
}

/// What each of a list of uses is.
pub open spec fn uses_view(list: Seq<SourceUse>) -> Seq<UseView> {
    Seq::new(list.len(), |i: int| list[i]@)
}

/// What tells sources apart: the file, or the name where there is no file.
pub open spec fn identity(one: UseView) -> Seq<Part> {
    match one.file {
        Some(file) => file,
        None => one.path.parts,
    }
}

/// A use that stands in the way of deleting the source `first`: it keeps it, it
/// made no result, or its result is the source itself.
pub open spec fn protects(one: UseView, first: UseView) -> bool {
    ||| one.keep
    ||| !one.success
    ||| !one.has_output
    ||| first.file is Some && one.output_file == first.file
}

/// A source, at its first use, is to be deleted: no use of the session stands in
/// the way.
pub open spec fn is_deletable(uses: Seq<UseView>, i: int) -> bool {
    &&& forall|j: int| 0 <= j < i ==> identity(#[trigger] uses[j]) != identity(uses[i])
    &&& forall|j: int|
        0 <= j < uses.len() && identity(#[trigger] uses[j]) == identity(uses[i]) ==> !protects(
            uses[j],
            uses[i],
        )
}

/// The sources among the first uses that are to be deleted.
pub open spec fn deletable_upto(uses: Seq<UseView>, n: nat) -> Seq<PathView>
    decreases n,
{
    if n == 0 {
        seq![]
    } else {
        let rest = deletable_upto(uses, (n - 1) as nat);
        if is_deletable(uses, n - 1) {
            rest.push(uses[n - 1].path)
        } else {
            rest
        }
    }
}

/// The sources that are to be deleted; none where the session was stopped.
pub open spec fn deletable(uses: Seq<UseView>, cancelled: bool) -> Seq<PathView> {
    if cancelled {
        seq![]
    } else {
        deletable_upto(uses, uses.len())
    }
}

impl SourceUse {
    /// What a result says of its source; `file` and `output_file` are what the two
    /// names lead to.
    pub fn new(
        result: &FileResult,
        action: SourceFileAction,
        path: FilePath,
        file: Option<FilePath>,
        output_file: Option<FilePath>,
    ) -> (r: Self)
        ensures
            r@ == use_of(
                result@,
                action,
                path.spelled(),
                opt_path(file),
                opt_path(output_file),
            ),
    {
        SourceUse {
            path,
            file,
            success: result.success,
            has_output: !result.output_path.as_str().is_empty(),
            output_file,
            keep: action == SourceFileAction::Keep,
        }
    }

    fn same_source(&self, other: &SourceUse) -> (r: bool)
        ensures
            r == (identity(self@) == identity(other@)),
    {
        let mine: &FilePath = match &self.file {
            Some(file) => file,
            None => &self.path,
        };
        let theirs: &FilePath = match &other.file {
            Some(file) => file,
            None => &other.path,
        };
        mine.same(theirs)
    }

    fn stands_in_the_way(&self, first: &SourceUse) -> (r: bool)
        ensures
            r == protects(self@, first@),
    {
        if self.keep || !self.success || !self.has_output {
            return true;
        }
        match (&self.output_file, &first.file) {
            (Some(output), Some(file)) => output.same(file),
            (_, _) => false,
        }
    }
}

fn may_delete(uses: &Vec<SourceUse>, i: usize) -> (r: bool)
    requires
        i < uses@.len(),
    ensures
        r == is_deletable(uses_view(uses@), i as int),
{
    let ghost all = uses_view(uses@);
    let mut j: usize = 0;
    while j < uses.len()
        invariant
            j <= uses@.len(),
            i < uses@.len(),
            all == uses_view(uses@),
            forall|k: int|
                0 <= k < j && k < i ==> identity(#[trigger] all[k]) != identity(all[i as int]),
            forall|k: int|
                0 <= k < j && identity(#[trigger] all[k]) == identity(all[i as int]) ==> !protects(
                    all[k],
                    all[i as int],
                ),
        decreases uses@.len() - j,
    {
        assert(all[j as int] == uses@[j as int]@);
        assert(all[i as int] == uses@[i as int]@);
        if uses[j].same_source(&uses[i]) {
            if j < i || uses[j].stands_in_the_way(&uses[i]) {
                return false;
            }
        }
        j = j + 1;
    }
    true
}

/// The sources that are to be deleted at the end of a session, each once and as it
/// was named: those
/// that no use keeps and of which every use made a result elsewhere.
pub fn sources_to_delete(uses: &Vec<SourceUse>, cancelled: bool) -> (r: Vec<FilePath>)
    ensures
        spelled_view(r@) == deletable(uses_view(uses@), cancelled),
{
    let ghost all = uses_view(uses@);
    let mut r: Vec<FilePath> = Vec::new();
    assert(spelled_view(r@) =~= seq![]);
    if cancelled {
        return r;
    }
    let mut i: usize = 0;
    while i < uses.len()
        invariant
            i <= uses@.len(),
            all == uses_view(uses@),
            spelled_view(r@) == deletable_upto(all, i as nat),
        decreases uses@.len() - i,
    {
        let ghost so_far = spelled_view(r@);
        assert(all[i as int] == uses@[i as int]@);
        if may_delete(uses, i) {
            let path: FilePath = uses[i].path.clone();
            let ghost view = path.spelled();
            r.push(path);
            assert(spelled_view(r@) =~= so_far.push(view));
        }
        i = i + 1;
    }
    r
}

/// A source that any use keeps is not deleted, and no more is one of which any
/// use made no result, or whose result took its place.
pub proof fn a_protected_source_is_kept(uses: Seq<UseView>, i: int, j: int)
    requires
        0 <= i < uses.len(),
        0 <= j < uses.len(),
        identity(uses[i]) == identity(uses[j]),
        protects(uses[j], uses[i]),
    ensures
        !is_deletable(uses, i),
{
}

/// What is deleted is a source that nothing protects.
pub proof fn only_unprotected_sources_are_deleted(uses: Seq<UseView>, n: nat, k: int)
    requires
        n <= uses.len(),
        0 <= k < deletable_upto(uses, n).len(),
    ensures
        exists|i: int|
            0 <= i < n && #[trigger] is_deletable(uses, i) && uses[i].path == deletable_upto(
                uses,
                n,
            )[k],
    decreases n,
{
    let rest = deletable_upto(uses, (n - 1) as nat);
    if k < rest.len() {
        only_unprotected_sources_are_deleted(uses, (n - 1) as nat, k);
        let i = choose|i: int|
            0 <= i < n - 1 && #[trigger] is_deletable(uses, i) && uses[i].path == rest[k];
        assert(is_deletable(uses, i));
    } else {
        assert(is_deletable(uses, n - 1));
    }
}

/// A session that was stopped deletes nothing.
pub proof fn a_stopped_session_deletes_nothing(uses: Seq<UseView>)
    ensures
        deletable(uses, true).len() == 0,
{
}

// What a session comes to ----------------------------------------------------

/// Batches of one profile ask the same of the codec for every input; batches that
/// differ in the mode or the format have no profile in common.
pub proof fn a_profile_is_what_the_codec_is_asked(
    a: OutcomeView,
    b: OutcomeView,
    info: crate::types::InfoView,
)
    requires
        same_profile(a, b),
    ensures
        a.mode + ":"@ + a.format == b.mode + ":"@ + b.format,
        a.format == b.format ==> crate::codec_args::codec_args(a.format, a.settings, info)
            == crate::codec_args::codec_args(b.format, b.settings, info),
        a.settings.silence_trim_enabled == b.settings.silence_trim_enabled,
        a.settings.silence_trim_db == b.settings.silence_trim_db,
        a.settings.silence_trim_duration_ms == b.settings.silence_trim_duration_ms,
        a.settings.export_all_audio_tracks == b.settings.export_all_audio_tracks,
        a.settings.aac_mode == b.settings.aac_mode,
        a.settings.aac_vbr_quality == b.settings.aac_vbr_quality,
        same_profile(b, a),
{
}

/// One more result is counted once, as what it is: a success, something left out,
/// or a failure, which is what is neither.
pub proof fn a_result_is_counted_as_what_it_is(results: Seq<ResultView>, one: ResultView)
    ensures
        ({
            let all = results.push(one);
            let step = |b: bool|
                if b {
                    1nat
                } else {
                    0nat
                };
            &&& count_results(all, succeeded()) == count_results(results, succeeded()) + step(
                one.success,
            )
            &&& count_results(all, left_aside()) == count_results(results, left_aside()) + step(
                one.skipped,
            )
            &&& count_results(all, failed()) == count_results(results, failed()) + step(
                !one.success && !one.skipped,
            )
            &&& count_results(seq![], succeeded()) == 0
            &&& count_results(seq![], left_aside()) == 0
            &&& count_results(seq![], failed()) == 0
        }),
{
    assert(results.push(one).drop_last() =~= results);
}

/// Every result of every batch is among the results, in the order of the batches.
pub proof fn no_result_is_lost(list: Seq<OutcomeView>, one: OutcomeView, i: int, k: int)
    requires
        0 <= i < list.len(),
        0 <= k < list[i].results.len(),
    ensures
        all_results(list).contains(list[i].results[k]),
        all_results(list.push(one)) == all_results(list) + one.results,
        all_results(seq![one]) == one.results,
    decreases list.len(),
{
    assert(list.push(one).drop_last() =~= list);
    assert(seq![one].drop_last() =~= seq![]);
    let none: Seq<OutcomeView> = seq![];
    assert(all_results(none) =~= seq![]);
    assert(all_results(seq![one]) =~= one.results);
    let rest = list.drop_last();
    let all = all_results(list);
    if i < rest.len() {
        assert(rest[i] == list[i]);
        no_result_is_lost(rest, one, i, k);
        let n = choose|n: int|
            0 <= n < all_results(rest).len() && all_results(rest)[n] == list[i].results[k];
        assert(all[n] == list[i].results[k]);
    } else {
        assert(all[all_results(rest).len() + k] == list[i].results[k]);
    }
}

/// The result that is shown is the last that was made in the last batch whose
/// results are to be shown and that made one; where there is no such batch, none
/// is shown.
pub proof fn the_last_result_is_shown(list: Seq<OutcomeView>)
    ensures
        match shown_result(list) {
            Some(path) => exists|i: int|
                {
                    &&& 0 <= i < list.len()
                    &&& (#[trigger] list[i]).settings.open_in_finder
                    &&& is_last_made(list[i].results, path)
                    &&& forall|j: int|
                        i < j < list.len() ==> !(#[trigger] list[j]).settings.open_in_finder
                            || makes_nothing(list[j].results)
                },
            None => forall|j: int|
                0 <= j < list.len() ==> !(#[trigger] list[j]).settings.open_in_finder
                    || makes_nothing(list[j].results),
        },
    decreases list.len(),
{
    if list.len() > 0 {
        let rest = list.drop_last();
        let last = list.len() - 1;
        the_last_result_is_shown(rest);
        lemma_last_success(list[last].results);
        if list[last].settings.open_in_finder && last_success(list[last].results) is Some {
            assert(is_last_made(list[last].results, shown_result(list)->0));
        } else {
            assert(!list[last].settings.open_in_finder || makes_nothing(list[last].results));
            match shown_result(rest) {
                Some(path) => {
                    let i = choose|i: int|
                        {
                            &&& 0 <= i < rest.len()
                            &&& (#[trigger] rest[i]).settings.open_in_finder
                            &&& is_last_made(rest[i].results, path)
                            &&& forall|j: int|
                                i < j < rest.len() ==> !(
                                #[trigger] rest[j]).settings.open_in_finder || makes_nothing(
                                    rest[j].results,
                                )
                        };
                    assert(list[i] == rest[i]);
                    assert forall|j: int| i < j < list.len() implies !(
                    #[trigger] list[j]).settings.open_in_finder || makes_nothing(
                        list[j].results,
                    ) by {
                        if j < last {
                            assert(rest[j] == list[j]);
                        }
                    }
                },
                None => {
                    assert forall|j: int| 0 <= j < list.len() implies !(
                    #[trigger] list[j]).settings.open_in_finder || makes_nothing(
                        list[j].results,
                    ) by {
                        if j < last {
                            assert(rest[j] == list[j]);
                        }
                    }
                },
            }
        }
    }
}

/// None of some results is a success.
pub open spec fn makes_nothing(results: Seq<ResultView>) -> bool {
    forall|k: int| 0 <= k < results.len() ==> !(#[trigger] results[k]).success
}

/// A path is that of the last success among some results.
pub open spec fn is_last_made(results: Seq<ResultView>, path: Seq<char>) -> bool {
    exists|k: int|
        {
            &&& 0 <= k < results.len()
            &&& (#[trigger] results[k]).success
            &&& results[k].output_path == path
            &&& forall|m: int| k < m < results.len() ==> !(#[trigger] results[m]).success
        }
}

proof fn lemma_last_success(results: Seq<ResultView>)
    ensures
        match last_success(results) {
            Some(path) => is_last_made(results, path),
            None => makes_nothing(results),
        },
    decreases results.len(),
{
    if results.len() > 0 {
        let rest = results.drop_last();
        let last = results.len() - 1;
        lemma_last_success(rest);
        if results[last].success {
            assert(is_last_made(results, results[last].output_path));
        } else {
            match last_success(rest) {
                Some(path) => {
                    let k = choose|k: int|
                        {
                            &&& 0 <= k < rest.len()
                            &&& (#[trigger] rest[k]).success
                            &&& rest[k].output_path == path
                            &&& forall|m: int|
                                k < m < rest.len() ==> !(#[trigger] rest[m]).success
                        };
                    assert(results[k] == rest[k]);
                    assert forall|m: int| k < m < results.len() implies !(
                    #[trigger] results[m]).success by {
                        if m < last {
                            assert(rest[m] == results[m]);
                        }
                    }
                    assert(is_last_made(results, path));
                },
                None => {
                    assert forall|m: int| 0 <= m < results.len() implies !(
                    #[trigger] results[m]).success by {
                        if m < last {
                            assert(rest[m] == results[m]);
                        }
                    }
                },
            }
        }
    }
}

/// A source is deleted, by the name of its first use, exactly where every use that
/// was made of it was to delete it, made a result that has a place, and did not
/// put that result in the place of the source. Uses are of one source where they
/// are of one file, or of one path where that is not known.
pub proof fn a_source_is_deleted_where_every_use_allows_it(uses: Seq<UseView>, i: int)
    requires
        0 <= i < uses.len(),
        forall|j: int| 0 <= j < i ==> !same_source(#[trigger] uses[j], uses[i]),
    ensures
        (forall|j: int|
            0 <= j < uses.len() && same_source(#[trigger] uses[j], uses[i]) ==> {
                &&& !uses[j].keep
                &&& uses[j].success
                &&& uses[j].has_output
                &&& uses[i].file is None || uses[j].output_file != uses[i].file
            }) ==> deletable(uses, false).contains(uses[i].path),
        forall|j: int|
            0 <= j < uses.len() && same_source(#[trigger] uses[j], uses[i]) && (uses[j].keep
                || !uses[j].success || !uses[j].has_output || (uses[i].file is Some
                && uses[j].output_file == uses[i].file)) ==> !is_deletable(uses, i),
{
    assert forall|j: int| 0 <= j < uses.len() implies same_source(#[trigger] uses[j], uses[i]) == (
    identity(uses[j]) == identity(uses[i])) by {}
    if is_deletable(uses, i) {
        lemma_deletable_is_kept(uses, i, uses.len());
    }
}

/// Two uses are of one source.
pub open spec fn same_source(a: UseView, b: UseView) -> bool {
    match (a.file, b.file) {
        (Some(x), Some(y)) => x == y,
        (Some(x), None) => x == b.path.parts,
        (None, Some(y)) => a.path.parts == y,
        (None, None) => a.path.parts == b.path.parts,
    }
}

proof fn lemma_deletable_is_kept(uses: Seq<UseView>, i: int, n: nat)
    requires
        0 <= i < n <= uses.len(),
        is_deletable(uses, i),
    ensures
        deletable_upto(uses, n).contains(uses[i].path),
    decreases n,
{
    let rest = deletable_upto(uses, (n - 1) as nat);
    let all = deletable_upto(uses, n);
    if i < n - 1 {
        lemma_deletable_is_kept(uses, i, (n - 1) as nat);
        let k = choose|k: int| 0 <= k < rest.len() && rest[k] == uses[i].path;
        assert(all[k] == uses[i].path);
    } else {
        assert(all[rest.len() as int] == uses[i].path);
    }
}

/// What is told of a session at its end holds every result of every batch, and
/// counts them as what they are; a quality is told only where all batches have the
/// profile of the first.
pub proof fn the_end_tells_of_every_result(
    payload: CompletionPayload,
    job_id: Seq<char>,
    list: Seq<OutcomeView>,
)
    requires
        completes(payload, job_id, list),
    ensures
        payload.job_id@ == job_id,
        results_view(payload.results@) == all_results(list),
        payload.success_count == count_results(all_results(list), |r: ResultView| r.success),
        payload.error_count == count_results(
            all_results(list),
            |r: ResultView| !r.success && !r.skipped,
        ),
        payload.skipped_count == count_results(all_results(list), |r: ResultView| r.skipped),
        !payload.mixed_profiles <==> forall|i: int|
            0 <= i < list.len() ==> same_profile(#[trigger] list[i], list[0]),
        forall|i: int|
            0 <= i < list.len() && list[i].format == list[0].format && !payload.mixed_profiles
                ==> same_codec_settings((#[trigger] list[i]).settings, list[0].settings),
{
    lemma_same_count(all_results(list), succeeded(), |r: ResultView| r.success);
    lemma_same_count(all_results(list), left_aside(), |r: ResultView| r.skipped);
    lemma_same_count(all_results(list), failed(), |r: ResultView| !r.success && !r.skipped);
    if list.len() > 0 {
        assert(same_profile(list[0], list[0]));
    }
}

proof fn lemma_same_count(
    results: Seq<ResultView>,
    a: spec_fn(ResultView) -> bool,
    b: spec_fn(ResultView) -> bool,
)
    requires
        forall|r: ResultView| #[trigger] a(r) == b(r),
    ensures
        count_results(results, a) == count_results(results, b),
    decreases results.len(),
{
    if results.len() > 0 {
        lemma_same_count(results.drop_last(), a, b);
        assert(a(results.last()) == b(results.last()));
    }
}

/// The use that was made of a source, from the result and what the settings want.
pub open spec fn use_of(
    result: ResultView,
    action: SourceFileAction,
    path: PathView,
    file: Option<Seq<Part>>,
    output_file: Option<Seq<Part>>,
) -> UseView {
    UseView {
        path,
        file,
        success: result.success,
        has_output: result.output_path.len() > 0,
        output_file,
        keep: action == SourceFileAction::Keep,
    }
}

/// A source whose only use failed, made nothing, or was not to delete it, stays;
/// one whose only use made a result elsewhere and was to delete it goes, by the name
/// that it was given by.
pub proof fn one_use_decides_alone(
    result: ResultView,
    action: SourceFileAction,
    path: PathView,
    file: Option<Seq<Part>>,
    output_file: Option<Seq<Part>>,
)
    ensures
        ({
            let uses = seq![use_of(result, action, path, file, output_file)];
            let goes = deletable(uses, false);
            &&& action == SourceFileAction::Keep ==> goes.len() == 0
            &&& !result.success ==> goes.len() == 0
            &&& result.output_path.len() == 0 ==> goes.len() == 0
            &&& file is Some && file == output_file ==> goes.len() == 0
            &&& action == SourceFileAction::Delete && result.success && result.output_path.len() > 0
                && (file is None || file != output_file) ==> goes == seq![path]
        }),
{
    let uses = seq![use_of(result, action, path, file, output_file)];
    assert(deletable_upto(uses, 0) =~= seq![]);
    assert(identity(uses[0]) == identity(uses[0]));
    let allowed = action == SourceFileAction::Delete && result.success && result.output_path.len()
        > 0 && (file is None || file != output_file);
    if allowed {
        assert(is_deletable(uses, 0));
        assert(deletable_upto(uses, 1) =~= seq![path]);
    } else {
        assert(protects(uses[0], uses[0]));
        assert(!is_deletable(uses, 0));
        assert(deletable_upto(uses, 1) =~= seq![]);
    }
}

} // verus!
