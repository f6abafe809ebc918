//! What ffprobe says of an input.

use vstd::prelude::*;
use crate::binary::friendly;
use crate::binary::friendly_ffmpeg_error;
use crate::codec_args::push_one;
use crate::codec_args::push_pair;
use crate::fixed::micros_of;
use crate::fixed::parse_micros;
use crate::json::as_signed;
use crate::json::as_text;
use crate::json::as_unsigned;
use crate::json::get;
use crate::json::items_of;
use crate::json::lemma_view;
use crate::json::member;
use crate::json::members_of;
use crate::json::opt_json;
use crate::json::signed_number;
use crate::json::text;
use crate::json::unsigned_number;
use crate::json::Json;
use crate::json::JsonView;
use crate::network::check_size;
use crate::network::oversize_message;
use crate::network::MAX_FILE_SIZE;
use crate::outside::json_document;
use crate::outside::lowercase;
use crate::outside::lowercase_text;
use crate::outside::parse_json;
use crate::text::opt_text;
use crate::text::parse_u32;
use crate::text::parse_u64;
use crate::text::text_eq;
use crate::text::texts;
use crate::text::trim;
use crate::text::trimmed;
use crate::text::unsigned_upto;
use crate::types::tags_view;
use crate::types::tracks_view;
use crate::types::AudioTrack;
use crate::types::FileInfo;
use crate::types::InfoView;
use crate::types::TrackView;

verus! {

// Tags -----------------------------------------------------------------------

/// The first place at or after `from` of a tag of that name; the end where
/// there is none.
pub open spec fn tag_place(tags: Seq<(Seq<char>, Seq<char>)>, name: Seq<char>, from: int) -> int
    decreases tags.len() - from,
{
    if from < 0 || from >= tags.len() {
        tags.len() as int
    } else if tags[from].0 == name {
        from
    } else {
        tag_place(tags, name, from + 1)
    }
}

/// The tags with one set, in the place of one of that name.
pub open spec fn with_tag(
    tags: Seq<(Seq<char>, Seq<char>)>,
    name: Seq<char>,
    value: Seq<char>,
) -> Seq<(Seq<char>, Seq<char>)> {
    let i = tag_place(tags, name, 0);
    if i < tags.len() {
        tags.update(i, (name, value))
    } else {
        tags.push((name, value))
    }
}

/// The tags with one added, unless there is one of that name.
pub open spec fn with_new_tag(
    tags: Seq<(Seq<char>, Seq<char>)>,
    name: Seq<char>,
    value: Seq<char>,
) -> Seq<(Seq<char>, Seq<char>)> {
    if tag_place(tags, name, 0) < tags.len() {
        tags
    } else {
        tags.push((name, value))
    }
}

/// No name occurs twice.
pub open spec fn unique_tags(tags: Seq<(Seq<char>, Seq<char>)>) -> bool {
    forall|i: int, j: int|
        0 <= i < j < tags.len() ==> (#[trigger] tags[i]).0 != (#[trigger] tags[j]).0
}

/// The tags with the members of an object that are texts, their names in lower
/// case; a later one replaces an earlier one where `replace` holds.
pub open spec fn with_members(
    tags: Seq<(Seq<char>, Seq<char>)>,
    members: Seq<(Seq<char>, JsonView)>,
    replace: bool,
) -> Seq<(Seq<char>, Seq<char>)>
    decreases members.len(),
{
    if members.len() == 0 {
        tags
    } else {
        let before = with_members(tags, members.drop_last(), replace);
        let (name, value) = members.last();
        match as_text(value) {
            Some(s) => if replace {
                with_tag(before, lowercase_text(name), s)
            } else {
                with_new_tag(before, lowercase_text(name), s)
            },
            None => before,
        }
    }
}

proof fn lemma_tag_place(tags: Seq<(Seq<char>, Seq<char>)>, name: Seq<char>, from: int)
    requires
        0 <= from,
    ensures
        ({
            let i = tag_place(tags, name, from);
            &&& forall|k: int| from <= k < i && k < tags.len() ==> (#[trigger] tags[k]).0 != name
            &&& i < tags.len() ==> from <= i && tags[i].0 == name
            &&& i <= tags.len()
        }),
    decreases tags.len() - from,
{
    if from < tags.len() && tags[from].0 != name {
        lemma_tag_place(tags, name, from + 1);
    }
}

/// Adding the tags of an object to tags of which no name occurs twice gives
/// such tags.
pub proof fn tags_stay_unique(
    tags: Seq<(Seq<char>, Seq<char>)>,
    members: Seq<(Seq<char>, JsonView)>,
    replace: bool,
)
    requires
        unique_tags(tags),
    ensures
        unique_tags(with_members(tags, members, replace)),
    decreases members.len(),
{
    if members.len() > 0 {
        tags_stay_unique(tags, members.drop_last(), replace);
        let before = with_members(tags, members.drop_last(), replace);
        lemma_tag_place(before, lowercase_text(members.last().0), 0);
    }
}

// What a document says -------------------------------------------------------

/// An input that is no media, such as a file that lies beside the music.
pub open spec fn no_media() -> InfoView {
    InfoView {
        duration_us: 0,
        tags: seq![],
        bits_per_sample: 16,
        cover_art_stream_idx: None,
        has_media: false,
        is_lossless: false,
        bit_rate_bps: 0,
        audio_tracks: seq![],
    }
}

/// A text without the white space at its ends, if anything is left of it.
pub open spec fn clean_text(value: JsonView) -> Option<Seq<char>> {
    match as_text(value) {
        Some(s) => if trimmed(s).len() > 0 {
            Some(trimmed(s))
        } else {
            None
        },
        None => None,
    }
}

pub open spec fn text_or_empty(value: JsonView) -> Seq<char> {
    match as_text(value) {
        Some(s) => s,
        None => seq![],
    }
}

pub open spec fn is_lossless_codec(codec: Seq<char>) -> bool {
    ||| codec == "pcm_s16le"@
    ||| codec == "pcm_s24le"@
    ||| codec == "pcm_s32le"@
    ||| codec == "pcm_s16be"@
    ||| codec == "pcm_s24be"@
    ||| codec == "pcm_s32be"@
    ||| codec == "pcm_f32le"@
    ||| codec == "pcm_f64le"@
    ||| codec == "flac"@
    ||| codec == "alac"@
}

/// The bits of a sample, as a text or as a number.
pub open spec fn sample_bits(stream: JsonView) -> Option<u32> {
    let value = member(stream, "bits_per_raw_sample"@);
    match as_text(value) {
        Some(s) => match unsigned_upto(s, u32::MAX as nat) {
            Some(n) => Some(n as u32),
            None => None,
        },
        None => match as_unsigned(value) {
            Some(n) => Some(n as u32),
            None => None,
        },
    }
}

/// An audio track, from the stream at a place of the list.
pub open spec fn track_of(stream: JsonView, place: usize) -> TrackView {
    let tags = member(stream, "tags"@);
    TrackView {
        stream_index: match as_unsigned(member(stream, "index"@)) {
            Some(n) => n as usize,
            None => place,
        },
        language: clean_text(member(tags, "language"@)),
        handler_name: clean_text(member(tags, "handler_name"@)),
    }
}

/// What an audio stream adds: a track; its tags, where none of that name is
/// known; and its codec and sample size, which replace those of an earlier one.
pub open spec fn with_audio(info: InfoView, stream: JsonView, place: usize) -> InfoView {
    InfoView {
        has_media: true,
        audio_tracks: info.audio_tracks.push(track_of(stream, place)),
        is_lossless: is_lossless_codec(text_or_empty(member(stream, "codec_name"@))),
        tags: with_members(info.tags, members_of(member(stream, "tags"@)), false),
        bits_per_sample: match sample_bits(stream) {
            Some(n) => if n > 0 {
                n
            } else {
                info.bits_per_sample
            },
            None => info.bits_per_sample,
        },
        ..info
    }
}

/// A stream that is a picture for the cover.
pub open spec fn is_cover(stream: JsonView) -> bool {
    &&& as_signed(member(member(stream, "disposition"@), "attached_pic"@)) == Some(1i64)
    &&& {
        let codec = text_or_empty(member(stream, "codec_name"@));
        codec == "mjpeg"@ || codec == "png"@
    }
}

/// What a stream adds to what is known.
pub open spec fn with_stream(info: InfoView, stream: JsonView, place: usize) -> InfoView {
    let kind = text_or_empty(member(stream, "codec_type"@));
    if kind == "audio"@ {
        with_audio(info, stream, place)
    } else if kind == "video"@ && is_cover(stream) && info.cover_art_stream_idx is None {
        InfoView { cover_art_stream_idx: Some(place), ..info }
    } else {
        info
    }
}

/// What the streams add, in order.
pub open spec fn with_streams(info: InfoView, streams: Seq<JsonView>) -> InfoView
    decreases streams.len(),
{
    if streams.len() == 0 {
        info
    } else {
        with_stream(
            with_streams(info, streams.drop_last()),
            streams.last(),
            (streams.len() - 1) as usize,
        )
    }
}

/// What the container says.
pub open spec fn container_info(format: JsonView) -> InfoView {
    InfoView {
        duration_us: match as_text(member(format, "duration"@)) {
            Some(s) => match micros_of(s) {
                Some(us) => us as i64,
                None => 0,
            },
            None => 0,
        },
        bit_rate_bps: match as_text(member(format, "bit_rate"@)) {
            Some(s) => match unsigned_upto(s, u64::MAX as nat) {
                Some(n) => n as u64,
                None => 0,
            },
            None => 0,
        },
        tags: with_members(seq![], members_of(member(format, "tags"@)), true),
        ..no_media()
    }
}

/// What a document of ffprobe says of an input.
pub open spec fn info_of(document: JsonView) -> InfoView {
    with_streams(
        container_info(member(document, "format"@)),
        items_of(member(document, "streams"@)),
    )
}

/// The tags of an input have no name twice.
pub proof fn known_tags_are_unique(document: JsonView)
    ensures
        unique_tags(info_of(document).tags),
{
    let format = member(document, "format"@);
    tags_stay_unique(seq![], members_of(member(format, "tags"@)), true);
    lemma_stream_tags_unique(
        container_info(format),
        items_of(member(document, "streams"@)),
    );
}

proof fn lemma_stream_tags_unique(info: InfoView, streams: Seq<JsonView>)
    requires
        unique_tags(info.tags),
    ensures
        unique_tags(with_streams(info, streams).tags),
    decreases streams.len(),
{
    if streams.len() > 0 {
        lemma_stream_tags_unique(info, streams.drop_last());
        let before = with_streams(info, streams.drop_last());
        tags_stay_unique(before.tags, members_of(member(streams.last(), "tags"@)), false);
    }
}

// ---------------------------------------------------------------------------

/// An input that ffprobe does not take for media.
pub fn non_media_file_info() -> (r: FileInfo)
    ensures
        r@ == no_media(),
{
    let r = FileInfo {
        duration_us: 0,
        tags: Vec::new(),
        bits_per_sample: 16,
        cover_art_stream_idx: None,
        has_media: false,
        is_lossless: false,
        bit_rate_bps: 0,
        audio_tracks: Vec::new(),
    };
    assert(r@ =~= no_media());
    r
}

fn add_tag(tags: &mut Vec<(String, String)>, name: String, value: &str, replace: bool)
    ensures
        tags_view(final(tags)@) == (if replace {
            with_tag(tags_view(old(tags)@), name@, value@)
        } else {
            with_new_tag(tags_view(old(tags)@), name@, value@)
        }),
{
    let ghost all = tags_view(tags@);
    let mut i: usize = 0;
    while i < tags.len() && !text_eq(tags[i].0.as_str(), name.as_str())
        invariant
            i <= tags@.len(),
            tags@ == old(tags)@,
            all == tags_view(tags@),
            tag_place(all, name@, 0) == tag_place(all, name@, i as int),
        decreases tags@.len() - i,
    {
        assert(all[i as int].0 == tags@[i as int].0@);
        i = i + 1;
    }
    if i < tags.len() {
        assert(all[i as int].0 == name@);
        if replace {
            tags.set(i, (name, value.to_owned()));
            assert(tags_view(tags@) =~= all.update(i as int, (name@, value@)));
        }
    } else {
        tags.push((name, value.to_owned()));
        assert(tags_view(tags@) =~= all.push((name@, value@)));
    }
}

fn add_members(tags: &mut Vec<(String, String)>, object: Option<&Json>, replace: bool)
    ensures
        tags_view(final(tags)@) == with_members(
            tags_view(old(tags)@),
            members_of(opt_json(object)),
            replace,
        ),
{
    let json: &Json = match object {
        Some(json) => json,
        None => {
            return ;
        },
    };
    proof {
        lemma_view(*json);
    }
    match json {
        Json::Object(members) => {
            let ghost all = members_of(json@);
            let ghost before = tags_view(tags@);
            let mut i: usize = 0;
            assert(all.take(0) =~= seq![]);
            while i < members.len()
                invariant
                    i <= members@.len(),
                    all.len() == members@.len(),
                    forall|k: int|
                        0 <= k < members@.len() ==> #[trigger] all[k] == (
                            members@[k].0@,
                            members@[k].1@,
                        ),
                    tags_view(tags@) == with_members(before, all.take(i as int), replace),
                decreases members@.len() - i,
            {
                assert(all.take(i + 1).drop_last() =~= all.take(i as int));
                assert(all.take(i + 1).last() == all[i as int]);
                match text(Some(&members[i].1)) {
                    Some(s) => {
                        let name: String = lowercase(members[i].0.as_str());
                        add_tag(tags, name, s, replace);
                    },
                    None => {},
                }
                i = i + 1;
            }
            assert(all.take(i as int) =~= all);
        },
        _ => {},
    }
}

fn clean(value: Option<&Json>) -> (r: Option<String>)
    ensures
        opt_text(r) == clean_text(opt_json(value)),
{
    match text(value) {
        Some(s) => {
            let cleaned: String = trim(s);
            if cleaned.as_str().is_empty() {
                None
            } else {
                Some(cleaned)
            }
        },
        None => None,
    }
}

fn lossless_codec(codec: &str) -> (r: bool)
    ensures
        r == is_lossless_codec(codec@),
{
    text_eq(codec, "pcm_s16le") || text_eq(codec, "pcm_s24le") || text_eq(codec, "pcm_s32le")
        || text_eq(codec, "pcm_s16be") || text_eq(codec, "pcm_s24be") || text_eq(codec, "pcm_s32be")
        || text_eq(codec, "pcm_f32le") || text_eq(codec, "pcm_f64le") || text_eq(codec, "flac")
        || text_eq(codec, "alac")
}

fn bits(stream: Option<&Json>) -> (r: Option<u32>)
    ensures
        r == sample_bits(opt_json(stream)),
{
    let value: Option<&Json> = get(stream, "bits_per_raw_sample");
    match text(value) {
        Some(s) => parse_u32(s),
        None => match unsigned_number(value) {
            Some(n) => Some(
                #[verifier::truncate]
                (n as u32),
            ),
            None => None,
        },
    }
}

fn empty_or<'a>(value: Option<&'a Json>) -> (r: &'a str)
    ensures
        r@ == text_or_empty(opt_json(value)),
{
    match text(value) {
        Some(s) => s,
        None => {
            proof {
                reveal_strlit("");
            }
            ""
        },
    }
}

fn add_stream(info: &mut FileInfo, stream: Option<&Json>, place: usize)
    ensures
        final(info)@ == with_stream(old(info)@, opt_json(stream), place),
{
    let ghost json = opt_json(stream);
    let kind: &str = empty_or(get(stream, "codec_type"));
    if text_eq(kind, "audio") {
        info.has_media = true;
        let tags: Option<&Json> = get(stream, "tags");
        let track = AudioTrack {
            stream_index: match unsigned_number(get(stream, "index")) {
                Some(n) => #[verifier::truncate]
                (n as usize),
                None => place,
            },
            language: clean(get(tags, "language")),
            handler_name: clean(get(tags, "handler_name")),
        };
        let ghost before = tracks_view(info.audio_tracks@);
        info.audio_tracks.push(track);
        assert(tracks_view(info.audio_tracks@) =~= before.push(track_of(json, place)));
        info.is_lossless = lossless_codec(empty_or(get(stream, "codec_name")));
        add_members(&mut info.tags, tags, false);
        match bits(stream) {
            Some(n) => {
                if n > 0 {
                    info.bits_per_sample = n;
                }
            },
            None => {},
        }
        assert(info@ =~= with_audio(old(info)@, json, place));
    } else if text_eq(kind, "video") && info.cover_art_stream_idx.is_none() {
        let picture: bool = match signed_number(get(get(stream, "disposition"), "attached_pic")) {
            Some(n) => n == 1,
            None => false,
        };
        let codec: &str = empty_or(get(stream, "codec_name"));
        if picture && (text_eq(codec, "mjpeg") || text_eq(codec, "png")) {
            info.cover_art_stream_idx = Some(place);
        }
        assert(info@ =~= with_stream(old(info)@, json, place));
    }
}

/// What a document of ffprobe says of an input.
pub fn file_info(document: &Json) -> (r: FileInfo)
    ensures
        r@ == info_of(document@),
{
    let format: Option<&Json> = get(Some(document), "format");
    let mut info: FileInfo = non_media_file_info();
    match text(get(format, "duration")) {
        Some(s) => match parse_micros(s) {
            Some(us) => {
                info.duration_us = us;
            },
            None => {},
        },
        None => {},
    }
    match text(get(format, "bit_rate")) {
        Some(s) => match parse_u64(s) {
            Some(n) => {
                info.bit_rate_bps = n;
            },
            None => {},
        },
        None => {},
    }
    add_members(&mut info.tags, get(format, "tags"), true);
    let ghost start = container_info(member(document@, "format"@));
    assert(info@ =~= start);
    let list: Option<&Json> = get(Some(document), "streams");
    let ghost all = items_of(member(document@, "streams"@));
    match list {
        Some(Json::List(streams)) => {
            proof {
                lemma_view(*list->0);
            }
            let mut i: usize = 0;
            assert(all.take(0) =~= seq![]);
            while i < streams.len()
                invariant
                    i <= streams@.len(),
                    all.len() == streams@.len(),
                    forall|k: int| 0 <= k < streams@.len() ==> #[trigger] all[k] == streams@[k]@,
                    info@ == with_streams(start, all.take(i as int)),
                decreases streams@.len() - i,
            {
                assert(all.take(i + 1).drop_last() =~= all.take(i as int));
                assert(all.take(i + 1).last() == all[i as int]);
                add_stream(&mut info, Some(&streams[i]), i);
                i = i + 1;
            }
            assert(all.take(i as int) =~= all);
        },
        _ => {
            assert(all =~= seq![]);
        },
    }
    info
}

/// What an input is, from whether ffprobe ended well and what it printed. One
/// that it cannot read is no failure, but no media either.
pub open spec fn probed(success: bool, stdout: Seq<u8>) -> InfoView {
    match json_document(stdout) {
        Some(document) => if success {
            info_of(document)
        } else {
            no_media()
        },
        None => no_media(),
    }
}

/// How a run of ffprobe came to an end.
pub enum ProbeEnd {
    /// The session is being stopped.
    Cancelled,
    /// ffprobe could not be started, for the reason given.
    NotStarted(String),
    /// ffprobe ended, well or not, and printed something.
    Ended(bool, Vec<u8>),
}

/// What is found of an input, from how a run of ffprobe on it came to an end.
pub open spec fn is_probe_result(path: Seq<char>, end: ProbeEnd, r: Result<FileInfo, String>) -> bool {
    match (end, r) {
        (ProbeEnd::Cancelled, Err(e)) => e@ == "conversion cancelled"@,
        (ProbeEnd::NotStarted(reason), Err(e)) => e@ == path + ": "@ + friendly(
            reason@,
            lowercase_text(reason@),
        ),
        (ProbeEnd::Ended(success, stdout), Ok(info)) => info@ == probed(success, stdout@),
        _ => false,
    }
}

/// What an input is, from how a run of ffprobe on it came to an end.
pub fn probe_file(path: &str, end: ProbeEnd) -> (r: Result<FileInfo, String>)
    ensures
        is_probe_result(path@, end, r),
{
    match end {
        ProbeEnd::Cancelled => Err("conversion cancelled".to_owned()),
        ProbeEnd::NotStarted(reason) => {
            let mut message: String = path.to_owned();
            message.append(": ");
            let friendly_reason: String = friendly_ffmpeg_error(reason.as_str());
            message.append(friendly_reason.as_str());
            Err(message)
        },
        ProbeEnd::Ended(success, stdout) => {
            if !success {
                return Ok(non_media_file_info());
            }
            match parse_json(&stdout) {
                Some(document) => Ok(file_info(&document)),
                None => Ok(non_media_file_info()),
            }
        },
    }
}

/// Where the look at a file is.
#[derive(Debug, Clone, Copy, PartialEq, Eq, Structural)]
pub enum CandidateStep {
    /// It waits for its turn.
    Waiting,
    /// The size of the file is asked for.
    Measuring,
    /// It waits until nothing else reads from the network.
    WaitingToRead,
    /// ffprobe is running.
    Probing,
    Ended,
}

/// What came of a step.
pub enum CandidateEvent {
    Granted,
    /// What it waited for does not work any more.
    Closed,
    /// The session is being stopped.
    Cancelled,
    Size(u64),
    /// The size could not be had, for the reason given.
    NoSize(String),
    Probed(ProbeEnd),
}

/// A step can come to that.
pub open spec fn fits(step: CandidateStep, event: CandidateEvent) -> bool {
    match step {
        CandidateStep::Waiting => event is Granted || event is Closed || event is Cancelled,
        CandidateStep::Measuring => event is Size || event is NoSize,
        CandidateStep::WaitingToRead => event is Granted || event is Closed || event is Cancelled,
        CandidateStep::Probing => event is Probed,
        CandidateStep::Ended => false,
    }
}

/// The step that follows, without what is found at the end.
pub open spec fn next_step(step: CandidateStep, on_network: bool, event: CandidateEvent) -> CandidateStep {
    match event {
        CandidateEvent::Granted => if step == CandidateStep::Waiting {
            CandidateStep::Measuring
        } else {
            CandidateStep::Probing
        },
        CandidateEvent::Size(size) => if size > MAX_FILE_SIZE {
            CandidateStep::Ended
        } else if on_network {
            CandidateStep::WaitingToRead
        } else {
            CandidateStep::Probing
        },
        _ => CandidateStep::Ended,
    }
}

/// Why a file was not looked at.
pub open spec fn candidate_error(step: CandidateStep, event: CandidateEvent) -> Seq<char> {
    match event {
        CandidateEvent::Closed => if step == CandidateStep::Waiting {
            "probe worker closed"@
        } else {
            "network input worker closed"@
        },
        CandidateEvent::Size(size) => oversize_message(size),
        CandidateEvent::NoSize(e) => e@,
        _ => "conversion cancelled"@,
    }
}

/// Looks at a file, step by step: it waits for its turn, asks for the size, waits
/// until nothing else reads from the network where the file is there, and runs
/// ffprobe. Returns the next step, and at the end what was found.
pub fn probe_candidate(path: &str, on_network: bool, step: CandidateStep, event: CandidateEvent) -> (r:
    (CandidateStep, Option<Result<FileInfo, String>>))
    requires
        fits(step, event),
    ensures
        r.0 == next_step(step, on_network, event),
        match r.1 {
            None => r.0 != CandidateStep::Ended,
            Some(found) => r.0 == CandidateStep::Ended && match event {
                CandidateEvent::Probed(end) => is_probe_result(path@, end, found),
                _ => found matches Err(e) && e@ == candidate_error(step, event),
            },
        },
{
    match event {
        CandidateEvent::Granted => {
            if step == CandidateStep::Waiting {
                (CandidateStep::Measuring, None)
            } else {
                (CandidateStep::Probing, None)
            }
        },
        CandidateEvent::Closed => {
            if step == CandidateStep::Waiting {
                (CandidateStep::Ended, Some(Err("probe worker closed".to_owned())))
            } else {
                (CandidateStep::Ended, Some(Err("network input worker closed".to_owned())))
            }
        },
        CandidateEvent::Cancelled => (
            CandidateStep::Ended,
            Some(Err("conversion cancelled".to_owned())),
        ),
        CandidateEvent::Size(size) => match check_size(size) {
            Err(e) => (CandidateStep::Ended, Some(Err(e))),
            Ok(_) => {
                if on_network {
                    (CandidateStep::WaitingToRead, None)
                } else {
                    (CandidateStep::Probing, None)
                }
            },
        },
        CandidateEvent::NoSize(e) => (CandidateStep::Ended, Some(Err(e))),
        CandidateEvent::Probed(end) => (CandidateStep::Ended, Some(probe_file(path, end))),
    }
}

/// ffprobe reads no file from the network unless nothing else does, and none that
/// is too large.
pub proof fn probing_waits_for_the_network(
    step: CandidateStep,
    on_network: bool,
    event: CandidateEvent,
)
    requires
        fits(step, event),
        next_step(step, on_network, event) == CandidateStep::Probing,
    ensures
        step == CandidateStep::WaitingToRead || (!on_network && event is Size && event->Size_0
            <= MAX_FILE_SIZE),
{
}

/// The arguments of ffprobe in front of the input.
pub fn probe_args() -> (r: Vec<String>)
    ensures
        texts(r@) == seq![
            "-v"@,
            "quiet"@,
            "-print_format"@,
            "json"@,
            "-show_format"@,
            "-show_streams"@,
        ],
{
    let mut args: Vec<String> = Vec::new();
    push_pair(&mut args, "-v", "quiet".to_owned());
    push_pair(&mut args, "-print_format", "json".to_owned());
    push_one(&mut args, "-show_format");
    push_one(&mut args, "-show_streams");
    assert(texts(args@) =~= seq![
        "-v"@,
        "quiet"@,
        "-print_format"@,
        "json"@,
        "-show_format"@,
        "-show_streams"@,
    ]);
    args
}

// What is known of an input --------------------------------------------------

/// There is a tag of that name.
pub open spec fn has_tag(tags: Seq<(Seq<char>, Seq<char>)>, name: Seq<char>) -> bool {
    exists|i: int| 0 <= i < tags.len() && (#[trigger] tags[i]).0 == name
}

/// There is a tag of that name, and it has that value.
pub open spec fn tag_is(
    tags: Seq<(Seq<char>, Seq<char>)>,
    name: Seq<char>,
    value: Seq<char>,
) -> bool {
    &&& has_tag(tags, name)
    &&& forall|i: int| 0 <= i < tags.len() && (#[trigger] tags[i]).0 == name ==> tags[i].1 == value
}

/// A member of an object is a text, and its name in lower case is that one.
pub open spec fn says_tag(entry: (Seq<char>, JsonView), name: Seq<char>) -> bool {
    entry.1 is Text && lowercase_text(entry.0) == name
}

/// Some member of an object is a tag of that name.
pub open spec fn some_says_tag(members: Seq<(Seq<char>, JsonView)>, name: Seq<char>) -> bool {
    exists|k: int| 0 <= k < members.len() && says_tag(#[trigger] members[k], name)
}

/// A stream is sound.
pub open spec fn is_audio(stream: JsonView) -> bool {
    member(stream, "codec_type"@) == JsonView::Text("audio"@)
}

/// A stream is a picture that belongs to the file: one that is marked as attached
/// and is a jpeg or a png.
pub open spec fn is_picture(stream: JsonView) -> bool {
    &&& member(stream, "codec_type"@) == JsonView::Text("video"@)
    &&& member(member(stream, "disposition"@), "attached_pic"@) matches JsonView::Number {
        signed,
        ..
    } && signed == Some(1i64)
    &&& member(stream, "codec_name"@) == JsonView::Text("mjpeg"@) || member(stream, "codec_name"@)
        == JsonView::Text("png"@)
}

proof fn lemma_kinds(stream: JsonView)
    ensures
        is_audio(stream) <==> text_or_empty(member(stream, "codec_type"@)) == "audio"@,
        is_picture(stream) <==> text_or_empty(member(stream, "codec_type"@)) == "video"@
            && is_cover(stream),
        !(is_audio(stream) && is_picture(stream)),
{
    reveal_strlit("audio");
    reveal_strlit("video");
    reveal_strlit("mjpeg");
    reveal_strlit("png");
    assert("audio"@.len() == 5 && "video"@.len() == 5 && "mjpeg"@.len() == 5 && "png"@.len() == 3);
    assert("audio"@[0] == 'a' && "video"@[0] == 'v');
}

/// The streams of a report.
pub open spec fn report_streams(document: JsonView) -> Seq<JsonView> {
    items_of(member(document, "streams"@))
}

/// The tags that a stream, or the container, has in a report.
pub open spec fn report_tags(value: JsonView) -> Seq<(Seq<char>, JsonView)> {
    members_of(member(value, "tags"@))
}

/// Adding the members of an object that holds no other tags of that name in front
/// of a place keeps what is there, and adds what is not.
proof fn lemma_new_members(
    tags: Seq<(Seq<char>, Seq<char>)>,
    members: Seq<(Seq<char>, JsonView)>,
)
    requires
        unique_tags(tags),
    ensures
        tags.is_prefix_of(with_members(tags, members, false)),
        unique_tags(with_members(tags, members, false)),
        forall|name: Seq<char>| #[trigger]
            has_tag(with_members(tags, members, false), name) <==> has_tag(tags, name)
                || some_says_tag(members, name),
    decreases members.len(),
{
    let after = with_members(tags, members, false);
    tags_stay_unique(tags, members, false);
    if members.len() > 0 {
        let rest = members.drop_last();
        lemma_new_members(tags, rest);
        let before = with_members(tags, rest, false);
        let (own, value) = members.last();
        lemma_tag_place(before, lowercase_text(own), 0);
        assert(tags.is_prefix_of(after)) by {
            assert(before.is_prefix_of(after));
            assert(after.take(tags.len() as int) =~= before.take(tags.len() as int));
        }
        assert forall|name: Seq<char>| #[trigger] has_tag(after, name) <==> has_tag(tags, name)
            || some_says_tag(members, name) by {
            assert(has_tag(before, name) <==> has_tag(tags, name) || some_says_tag(rest, name));
            if some_says_tag(members, name) {
                let k = choose|k: int|
                    0 <= k < members.len() && says_tag(#[trigger] members[k], name);
                if k < rest.len() {
                    assert(says_tag(rest[k], name));
                    let i = choose|i: int| 0 <= i < before.len() && (#[trigger] before[i]).0
                        == name;
                    assert(after[i].0 == name);
                } else if after.len() > before.len() {
                    assert(after[after.len() - 1].0 == name);
                } else {
                    let i = tag_place(before, lowercase_text(own), 0);
                    assert(after[i].0 == name);
                }
            }
            if has_tag(tags, name) {
                let i = choose|i: int| 0 <= i < tags.len() && (#[trigger] tags[i]).0 == name;
                assert(after[i] == tags[i]);
            }
            if has_tag(after, name) {
                let i = choose|i: int| 0 <= i < after.len() && (#[trigger] after[i]).0 == name;
                if i < before.len() {
                    assert(before[i].0 == name);
                    if some_says_tag(rest, name) {
                        let k = choose|k: int|
                            0 <= k < rest.len() && says_tag(#[trigger] rest[k], name);
                        assert(says_tag(members[k], name));
                    }
                } else {
                    assert(says_tag(members[members.len() - 1], name));
                }
            }
        }
    } else {
        assert(after =~= tags);
    }
}

/// The first of some new members of a name gives the tag its value.
proof fn lemma_first_member_counts(
    tags: Seq<(Seq<char>, Seq<char>)>,
    members: Seq<(Seq<char>, JsonView)>,
    k: int,
)
    requires
        unique_tags(tags),
        0 <= k < members.len(),
        members[k].1 is Text,
        !has_tag(tags, lowercase_text(members[k].0)),
        !some_says_tag(members.take(k), lowercase_text(members[k].0)),
    ensures
        tag_is(
            with_members(tags, members, false),
            lowercase_text(members[k].0),
            members[k].1->Text_0,
        ),
    decreases members.len(),
{
    let name = lowercase_text(members[k].0);
    let rest = members.drop_last();
    let before = with_members(tags, rest, false);
    let after = with_members(tags, members, false);
    lemma_new_members(tags, rest);
    lemma_new_members(tags, members);
    lemma_tag_place(before, lowercase_text(members.last().0), 0);
    if k == members.len() - 1 {
        assert(members.take(k) =~= rest);
        assert(!has_tag(before, name));
        assert(after == before.push((name, members[k].1->Text_0))) by {
            let i = tag_place(before, name, 0);
            if i < before.len() {
                assert(before[i].0 == name);
            }
        }
        assert(after[before.len() as int].0 == name);
        assert forall|i: int| 0 <= i < after.len() && (#[trigger] after[i]).0 == name implies after[i].1
            == members[k].1->Text_0 by {
            if i < before.len() {
                assert(before[i].0 == name);
            }
        }
    } else {
        assert(rest.take(k) =~= members.take(k));
        lemma_first_member_counts(tags, rest, k);
        let i = choose|i: int| 0 <= i < before.len() && (#[trigger] before[i]).0 == name;
        assert(after[i] == before[i]);
        assert forall|j: int| 0 <= j < after.len() && (#[trigger] after[j]).0 == name implies after[j].1
            == members[k].1->Text_0 by {
            assert(after[i].0 == after[j].0);
            assert(i == j);
        }
    }
}

/// A member of the container gives the tag its value, if no later one is of that
/// name.
proof fn lemma_last_member_counts(members: Seq<(Seq<char>, JsonView)>, k: int)
    requires
        0 <= k < members.len(),
        members[k].1 is Text,
        !some_says_tag(members.skip(k + 1), lowercase_text(members[k].0)),
    ensures
        tag_is(
            with_members(seq![], members, true),
            lowercase_text(members[k].0),
            members[k].1->Text_0,
        ),
    decreases members.len(),
{
    let name = lowercase_text(members[k].0);
    let value = members[k].1->Text_0;
    let rest = members.drop_last();
    let before = with_members(seq![], rest, true);
    let after = with_members(seq![], members, true);
    tags_stay_unique(seq![], rest, true);
    tags_stay_unique(seq![], members, true);
    let own = lowercase_text(members.last().0);
    lemma_tag_place(before, own, 0);
    let at = tag_place(before, own, 0);
    if k == members.len() - 1 {
        assert(after[at] == (name, value));
        assert forall|j: int| 0 <= j < after.len() && (#[trigger] after[j]).0 == name implies after[j].1
            == value by {
            assert(after[at].0 == after[j].0);
            assert(at == j);
        }
    } else {
        assert(!some_says_tag(rest.skip(k + 1), name)) by {
            if some_says_tag(rest.skip(k + 1), name) {
                let j = choose|j: int|
                    0 <= j < rest.skip(k + 1).len() && says_tag(
                        #[trigger] rest.skip(k + 1)[j],
                        name,
                    );
                assert(members.skip(k + 1)[j] == rest.skip(k + 1)[j]);
            }
        }
        lemma_last_member_counts(rest, k);
        assert(members.skip(k + 1)[members.len() - k - 2] == members.last());
        assert(!says_tag(members.last(), name));
        let i = choose|i: int| 0 <= i < before.len() && (#[trigger] before[i]).0 == name;
        if members.last().1 is Text {
            assert(own != name);
            assert(at != i);
        }
        assert(after[i] == before[i]);
        assert forall|j: int| 0 <= j < after.len() && (#[trigger] after[j]).0 == name implies after[j].1
            == value by {
            assert(after[i].0 == after[j].0);
            assert(i == j);
        }
    }
}

/// Nothing is a tag of the container that its report does not hold.
proof fn lemma_container_tags(members: Seq<(Seq<char>, JsonView)>, name: Seq<char>)
    ensures
        has_tag(with_members(seq![], members, true), name) <==> some_says_tag(members, name),
    decreases members.len(),
{
    let after = with_members(seq![], members, true);
    if members.len() > 0 {
        let rest = members.drop_last();
        let before = with_members(seq![], rest, true);
        lemma_container_tags(rest, name);
        let own = lowercase_text(members.last().0);
        lemma_tag_place(before, own, 0);
        let at = tag_place(before, own, 0);
        if has_tag(after, name) {
            let i = choose|i: int| 0 <= i < after.len() && (#[trigger] after[i]).0 == name;
            if members.last().1 is Text && i == at {
                assert(says_tag(members[members.len() - 1], name));
            } else {
                assert(before[i].0 == name);
                let k = choose|k: int| 0 <= k < rest.len() && says_tag(#[trigger] rest[k], name);
                assert(says_tag(members[k], name));
            }
        }
        if some_says_tag(members, name) {
            let k = choose|k: int| 0 <= k < members.len() && says_tag(#[trigger] members[k], name);
            if k < rest.len() {
                assert(says_tag(rest[k], name));
                let i = choose|i: int| 0 <= i < before.len() && (#[trigger] before[i]).0 == name;
                if i == at && members.last().1 is Text {
                    assert(after[at].0 == own);
                } else {
                    assert(after[i].0 == name);
                }
            } else {
                assert(after[at].0 == name);
            }
        }
    }
}

/// What streams in front of a place have added stays there.
proof fn lemma_streams_keep_tags(info: InfoView, streams: Seq<JsonView>, j: int)
    requires
        unique_tags(info.tags),
        0 <= j <= streams.len(),
    ensures
        unique_tags(with_streams(info, streams).tags),
        with_streams(info, streams.take(j)).tags.is_prefix_of(with_streams(info, streams).tags),
    decreases streams.len(),
{
    let all = with_streams(info, streams).tags;
    lemma_stream_tags_unique(info, streams);
    if j == streams.len() {
        assert(streams.take(j) =~= streams);
        assert(all.take(all.len() as int) =~= all);
    } else {
        let rest = streams.drop_last();
        lemma_streams_keep_tags(info, rest, j);
        assert(rest.take(j) =~= streams.take(j));
        let before = with_streams(info, rest).tags;
        let first = with_streams(info, streams.take(j)).tags;
        lemma_new_members(before, report_tags(streams.last()));
        assert(before.is_prefix_of(all)) by {
            assert(before.take(before.len() as int) =~= before);
            assert(all.take(before.len() as int) =~= before);
        }
        assert(all.take(first.len() as int) =~= before.take(first.len() as int));
    }
}

/// Streams in front of a place have a tag of a name where the container has, or
/// where a stream that is sound has, and nowhere else.
proof fn lemma_tags_of_streams(info: InfoView, streams: Seq<JsonView>, name: Seq<char>)
    requires
        unique_tags(info.tags),
    ensures
        has_tag(with_streams(info, streams).tags, name) <==> has_tag(info.tags, name) || exists|
            j: int,
        |
            0 <= j < streams.len() && is_audio(#[trigger] streams[j]) && some_says_tag(
                report_tags(streams[j]),
                name,
            ),
    decreases streams.len(),
{
    reveal_strlit("audio");
    if streams.len() > 0 {
        let rest = streams.drop_last();
        lemma_tags_of_streams(info, rest, name);
        lemma_stream_tags_unique(info, rest);
        let before = with_streams(info, rest).tags;
        let after = with_streams(info, streams).tags;
        let last = streams.last();
        lemma_new_members(before, report_tags(last));
        lemma_kinds(last);
        let found = |list: Seq<JsonView>| exists|j: int|
            0 <= j < list.len() && is_audio(#[trigger] list[j]) && some_says_tag(
                report_tags(list[j]),
                name,
            );
        if found(rest) {
            let j = choose|j: int|
                0 <= j < rest.len() && is_audio(#[trigger] rest[j]) && some_says_tag(
                    report_tags(rest[j]),
                    name,
                );
            assert(is_audio(streams[j]));
        }
        if is_audio(last) && some_says_tag(report_tags(last), name) {
            assert(is_audio(streams[streams.len() - 1]));
            assert(has_tag(after, name));
        }
        if found(streams) {
            let j = choose|j: int|
                0 <= j < streams.len() && is_audio(#[trigger] streams[j]) && some_says_tag(
                    report_tags(streams[j]),
                    name,
                );
            if j < rest.len() {
                assert(is_audio(rest[j]));
                assert(has_tag(before, name));
                assert(has_tag(after, name));
            }
        }
        assert(has_tag(after, name) <==> has_tag(before, name) || (is_audio(last) && some_says_tag(
            report_tags(last),
            name,
        )));
    }
}

/// A tag that a stream with sound has is a tag of the input, whatever else there
/// is; it has the value of the stream where neither the container, nor an earlier
/// stream with sound, nor an earlier tag of the stream has that name.
pub proof fn tags_of_sound_are_kept(document: JsonView, j: int, k: int)
    requires
        0 <= j < report_streams(document).len(),
        is_audio(report_streams(document)[j]),
        0 <= k < report_tags(report_streams(document)[j]).len(),
        report_tags(report_streams(document)[j])[k].1 is Text,
    ensures
        ({
            let streams = report_streams(document);
            let own = report_tags(streams[j]);
            let name = lowercase_text(own[k].0);
            &&& has_tag(info_of(document).tags, name)
            &&& !some_says_tag(report_tags(member(document, "format"@)), name) && !some_says_tag(
                own.take(k),
                name,
            ) && (forall|i: int|
                0 <= i < j && is_audio(#[trigger] streams[i]) ==> !some_says_tag(
                    report_tags(streams[i]),
                    name,
                )) ==> tag_is(info_of(document).tags, name, own[k].1->Text_0)
        }),
{
    reveal_strlit("audio");
    let format = member(document, "format"@);
    let start = container_info(format);
    let streams = report_streams(document);
    let own = report_tags(streams[j]);
    let name = lowercase_text(own[k].0);
    let all = info_of(document).tags;
    tags_stay_unique(seq![], report_tags(format), true);
    lemma_container_tags(report_tags(format), name);
    lemma_tags_of_streams(start, streams, name);
    assert(says_tag(own[k], name));
    if !some_says_tag(report_tags(format), name) && !some_says_tag(own.take(k), name) && (forall|
        i: int,
    |
        0 <= i < j && is_audio(#[trigger] streams[i]) ==> !some_says_tag(
            report_tags(streams[i]),
            name,
        )) {
        let before = streams.take(j);
        let through = streams.take(j + 1);
        lemma_tags_of_streams(start, before, name);
        lemma_stream_tags_unique(start, before);
        assert forall|i: int| 0 <= i < before.len() && is_audio(#[trigger] before[i]) implies !some_says_tag(
            report_tags(before[i]),
            name,
        ) by {
            assert(before[i] == streams[i]);
        }
        assert(through.drop_last() =~= before);
        assert(through.last() == streams[j]);
        lemma_first_member_counts(with_streams(start, before).tags, own, k);
        lemma_streams_keep_tags(start, streams, j + 1);
        let known = with_streams(start, through).tags;
        let i = choose|i: int| 0 <= i < known.len() && (#[trigger] known[i]).0 == name;
        assert(all[i] == known[i]) by {
            assert(all.take(known.len() as int)[i] == all[i]);
        }
        assert forall|m: int| 0 <= m < all.len() && (#[trigger] all[m]).0 == name implies all[m].1
            == own[k].1->Text_0 by {
            assert(all[i].0 == all[m].0);
            assert(i == m);
        }
    }
}

/// A tag of the container is a tag of the input with the value that it has there,
/// the last one of that name; no stream changes it.
pub proof fn tags_of_the_container_count_first(document: JsonView, k: int)
    requires
        0 <= k < report_tags(member(document, "format"@)).len(),
        report_tags(member(document, "format"@))[k].1 is Text,
    ensures
        ({
            let own = report_tags(member(document, "format"@));
            let name = lowercase_text(own[k].0);
            &&& has_tag(info_of(document).tags, name)
            &&& !some_says_tag(own.skip(k + 1), name) ==> tag_is(
                info_of(document).tags,
                name,
                own[k].1->Text_0,
            )
        }),
{
    let format = member(document, "format"@);
    let own = report_tags(format);
    let name = lowercase_text(own[k].0);
    let start = container_info(format);
    let streams = report_streams(document);
    let all = info_of(document).tags;
    tags_stay_unique(seq![], own, true);
    lemma_container_tags(own, name);
    assert(says_tag(own[k], name));
    lemma_tags_of_streams(start, streams, name);
    if !some_says_tag(own.skip(k + 1), name) {
        lemma_last_member_counts(own, k);
        lemma_streams_keep_tags(start, streams, 0);
        assert(with_streams(start, streams.take(0)) == start) by {
            assert(streams.take(0) =~= seq![]);
        }
        let i = choose|i: int| 0 <= i < start.tags.len() && (#[trigger] start.tags[i]).0 == name;
        assert(all[i] == start.tags[i]) by {
            assert(all.take(start.tags.len() as int)[i] == all[i]);
        }
        assert forall|m: int| 0 <= m < all.len() && (#[trigger] all[m]).0 == name implies all[m].1
            == own[k].1->Text_0 by {
            assert(all[i].0 == all[m].0);
            assert(i == m);
        }
    }
}

/// Nothing is a tag of the input that neither the container nor a stream with
/// sound has.
pub proof fn no_tag_is_made_up(document: JsonView, i: int)
    requires
        0 <= i < info_of(document).tags.len(),
    ensures
        ({
            let name = info_of(document).tags[i].0;
            let streams = report_streams(document);
            some_says_tag(report_tags(member(document, "format"@)), name) || exists|j: int|
                0 <= j < streams.len() && is_audio(#[trigger] streams[j]) && some_says_tag(
                    report_tags(streams[j]),
                    name,
                )
        }),
{
    let format = member(document, "format"@);
    let name = info_of(document).tags[i].0;
    tags_stay_unique(seq![], report_tags(format), true);
    lemma_container_tags(report_tags(format), name);
    lemma_tags_of_streams(container_info(format), report_streams(document), name);
    assert(has_tag(info_of(document).tags, name));
}

/// The number of streams with sound.
pub open spec fn sounds(streams: Seq<JsonView>) -> nat
    decreases streams.len(),
{
    if streams.len() == 0 {
        0
    } else {
        sounds(streams.drop_last()) + (if is_audio(streams.last()) {
            1nat
        } else {
            0
        })
    }
}

/// What a stream with sound comes to, at its place among the tracks.
pub open spec fn is_track_of(track: TrackView, stream: JsonView, place: int) -> bool {
    let tags = member(stream, "tags"@);
    &&& match member(stream, "index"@) {
        JsonView::Number { unsigned: Some(n), .. } => n <= usize::MAX ==> track.stream_index == n,
        _ => track.stream_index == place,
    }
    &&& is_said(track.language, member(tags, "language"@))
    &&& is_said(track.handler_name, member(tags, "handler_name"@))
}

/// A text is known where a report holds it and it is not blank, without the blanks
/// round it.
pub open spec fn is_said(known: Option<Seq<char>>, value: JsonView) -> bool {
    match value {
        JsonView::Text(s) => known == (if trimmed(s).len() > 0 {
            Some(trimmed(s))
        } else {
            None
        }),
        _ => known is None,
    }
}

proof fn lemma_tracks(info: InfoView, streams: Seq<JsonView>)
    requires
        info.audio_tracks.len() == 0,
        !info.has_media,
        streams.len() <= usize::MAX,
    ensures
        ({
            let after = with_streams(info, streams);
            &&& after.audio_tracks.len() == sounds(streams)
            &&& after.has_media == (sounds(streams) > 0)
            &&& after.duration_us == info.duration_us && after.bit_rate_bps == info.bit_rate_bps
            &&& forall|j: int|
                0 <= j < streams.len() && is_audio(#[trigger] streams[j]) ==> is_track_of(
                    after.audio_tracks[sounds(streams.take(j)) as int],
                    streams[j],
                    j,
                ) && sounds(streams.take(j)) < after.audio_tracks.len()
        }),
    decreases streams.len(),
{
    if streams.len() > 0 {
        let rest = streams.drop_last();
        let last = streams.last();
        lemma_tracks(info, rest);
        lemma_kinds(last);
        let before = with_streams(info, rest);
        let after = with_streams(info, streams);
        assert forall|j: int| 0 <= j < streams.len() && is_audio(#[trigger] streams[j]) implies is_track_of(
            after.audio_tracks[sounds(streams.take(j)) as int],
            streams[j],
            j,
        ) && sounds(streams.take(j)) < after.audio_tracks.len() by {
            if j < rest.len() {
                assert(rest[j] == streams[j]);
                assert(is_audio(rest[j]));
                assert(rest.take(j) =~= streams.take(j));
                assert(after.audio_tracks[sounds(rest.take(j)) as int]
                    == before.audio_tracks[sounds(rest.take(j)) as int]);
            } else {
                assert(streams.take(j) =~= rest);
                assert(after.audio_tracks.last() == track_of(last, j as usize));
            }
        }
    }
}

/// Each stream with sound is a track, in their order, with the number that it has
/// among all streams, and with its language and its name where it has them. An
/// input is media where there is such a stream, and only there.
pub proof fn each_sound_is_a_track(document: JsonView, j: int)
    requires
        report_streams(document).len() <= usize::MAX,
        0 <= j < report_streams(document).len(),
    ensures
        ({
            let info = info_of(document);
            let streams = report_streams(document);
            &&& info.audio_tracks.len() == sounds(streams)
            &&& info.has_media == (info.audio_tracks.len() > 0)
            &&& is_audio(streams[j]) ==> info.has_media && sounds(streams.take(j))
                < info.audio_tracks.len() && is_track_of(
                info.audio_tracks[sounds(streams.take(j)) as int],
                streams[j],
                j,
            )
        }),
{
    lemma_tracks(container_info(member(document, "format"@)), report_streams(document));
}

/// The length of an input and its bit rate are those that the report gives for
/// the container; an input of which it does not give them has none.
pub proof fn length_and_rate_are_those_reported(document: JsonView, s: Seq<char>)
    requires
        report_streams(document).len() <= usize::MAX,
    ensures
        ({
            let info = info_of(document);
            let format = member(document, "format"@);
            &&& member(format, "duration"@) == JsonView::Text(s) ==> match micros_of(s) {
                Some(us) => i64::MIN <= us <= i64::MAX ==> info.duration_us == us,
                None => info.duration_us == 0,
            }
            &&& !(member(format, "duration"@) is Text) ==> info.duration_us == 0
            &&& forall|n: nat|
                n <= u64::MAX && member(format, "bit_rate"@) == JsonView::Text(
                    #[trigger] crate::text::decimal(n),
                ) ==> info.bit_rate_bps == n
            &&& !(member(format, "bit_rate"@) is Text) ==> info.bit_rate_bps == 0
        }),
{
    let format = member(document, "format"@);
    let info = info_of(document);
    lemma_tracks(container_info(format), report_streams(document));
    assert forall|n: nat|
        n <= u64::MAX && member(format, "bit_rate"@) == JsonView::Text(
            #[trigger] crate::text::decimal(n),
        ) implies info.bit_rate_bps == n by {
        crate::text::a_written_number_reads_back(n, u64::MAX as nat);
    }
}

proof fn lemma_cover(info: InfoView, streams: Seq<JsonView>)
    requires
        info.cover_art_stream_idx is None,
        streams.len() <= usize::MAX,
    ensures
        match with_streams(info, streams).cover_art_stream_idx {
            Some(i) => i < streams.len() && is_picture(streams[i as int]) && forall|k: int|
                0 <= k < i ==> !is_picture(#[trigger] streams[k]),
            None => forall|k: int| 0 <= k < streams.len() ==> !is_picture(#[trigger] streams[k]),
        },
    decreases streams.len(),
{
    if streams.len() > 0 {
        let rest = streams.drop_last();
        lemma_cover(info, rest);
        lemma_kinds(streams.last());
        assert forall|k: int| 0 <= k < rest.len() implies rest[k] == #[trigger] streams[k] by {}
        match with_streams(info, rest).cover_art_stream_idx {
            Some(i) => {
                assert(rest[i as int] == streams[i as int]);
            },
            None => {
                assert forall|k: int| 0 <= k < rest.len() implies !is_picture(
                    #[trigger] streams[k],
                ) by {
                    assert(!is_picture(rest[k]));
                }
            },
        }
    }
}

/// The cover is the first picture that belongs to the file, by its place among all
/// streams; there is none where there is no such picture.
pub proof fn the_cover_is_the_first_picture(document: JsonView)
    requires
        report_streams(document).len() <= usize::MAX,
    ensures
        ({
            let streams = report_streams(document);
            match info_of(document).cover_art_stream_idx {
                Some(i) => i < streams.len() && is_picture(streams[i as int]) && forall|k: int|
                    0 <= k < i ==> !is_picture(#[trigger] streams[k]),
                None => forall|k: int|
                    0 <= k < streams.len() ==> !is_picture(#[trigger] streams[k]),
            }
        }),
{
    lemma_cover(container_info(member(document, "format"@)), report_streams(document));
}

/// The last stream with sound says whether the input has lost anything, and what
/// size its samples have, where it says that; streams without sound say nothing
/// of either.
pub proof fn the_last_sound_gives_the_samples(info: InfoView, streams: Seq<JsonView>, stream: JsonView)
    requires
        streams.len() < usize::MAX,
    ensures
        ({
            let before = with_streams(info, streams);
            let after = with_streams(info, streams.push(stream));
            let raw = member(stream, "bits_per_raw_sample"@);
            &&& !is_audio(stream) ==> after.bits_per_sample == before.bits_per_sample
                && after.is_lossless == before.is_lossless && after.tags == before.tags
                && after.audio_tracks == before.audio_tracks
            &&& is_audio(stream) ==> forall|n: u32|
                n > 0 && raw == JsonView::Text(#[trigger] crate::text::decimal(n as nat))
                    ==> after.bits_per_sample == n
            &&& is_audio(stream) && raw is Number ==> match raw->Number_unsigned {
                Some(n) => 0 < n <= u32::MAX ==> after.bits_per_sample == n,
                None => after.bits_per_sample == before.bits_per_sample,
            }
            &&& is_audio(stream) && raw is Null ==> after.bits_per_sample == before.bits_per_sample
            &&& is_audio(stream) ==> (after.is_lossless <==> lossless_name(
                member(stream, "codec_name"@),
            ))
        }),
{
    lemma_kinds(stream);
    assert(streams.push(stream).drop_last() =~= streams);
    let before = with_streams(info, streams);
    let after = with_streams(info, streams.push(stream));
    let raw = member(stream, "bits_per_raw_sample"@);
    if is_audio(stream) {
        assert forall|n: u32|
            n > 0 && raw == JsonView::Text(
                #[trigger] crate::text::decimal(n as nat),
            ) implies after.bits_per_sample == n by {
            crate::text::a_written_number_reads_back(n as nat, u32::MAX as nat);
        }
        lemma_lossless_names(member(stream, "codec_name"@));
    }
}

/// The name of a codec that loses nothing: flac, alac, or samples as they are,
/// of which the name starts so.
pub open spec fn lossless_name(codec: JsonView) -> bool {
    codec matches JsonView::Text(s) && (s == "flac"@ || s == "alac"@ || (s.len() == 9 && s.take(4)
        == seq!['p', 'c', 'm', '_'] && {
        let kind = s[4];
        let size = s.subrange(5, 7);
        let order = s.skip(7);
        ||| kind == 's' && (size == seq!['1', '6'] || size == seq!['2', '4'] || size == seq![
            '3',
            '2',
        ]) && (order == seq!['l', 'e'] || order == seq!['b', 'e'])
        ||| kind == 'f' && (size == seq!['3', '2'] || size == seq!['6', '4']) && order == seq![
            'l',
            'e',
        ]
    }))
}

proof fn lemma_lossless_names(codec: JsonView)
    ensures
        is_lossless_codec(text_or_empty(codec)) <==> lossless_name(codec),
{
    reveal_strlit("pcm_s16le");
    reveal_strlit("pcm_s24le");
    reveal_strlit("pcm_s32le");
    reveal_strlit("pcm_s16be");
    reveal_strlit("pcm_s24be");
    reveal_strlit("pcm_s32be");
    reveal_strlit("pcm_f32le");
    reveal_strlit("pcm_f64le");
    reveal_strlit("flac");
    reveal_strlit("alac");
    assert("flac"@.len() == 4 && "alac"@.len() == 4);
    lemma_spelled("pcm_s16le"@, 's', seq!['1', '6'], seq!['l', 'e']);
    lemma_spelled("pcm_s24le"@, 's', seq!['2', '4'], seq!['l', 'e']);
    lemma_spelled("pcm_s32le"@, 's', seq!['3', '2'], seq!['l', 'e']);
    lemma_spelled("pcm_s16be"@, 's', seq!['1', '6'], seq!['b', 'e']);
    lemma_spelled("pcm_s24be"@, 's', seq!['2', '4'], seq!['b', 'e']);
    lemma_spelled("pcm_s32be"@, 's', seq!['3', '2'], seq!['b', 'e']);
    lemma_spelled("pcm_f32le"@, 'f', seq!['3', '2'], seq!['l', 'e']);
    lemma_spelled("pcm_f64le"@, 'f', seq!['6', '4'], seq!['l', 'e']);
    let s = text_or_empty(codec);
    if s.len() == 9 {
        assert(s =~= s.take(4).push(s[4]) + s.subrange(5, 7) + s.skip(7));
    }
}

proof fn lemma_spelled(s: Seq<char>, kind: char, size: Seq<char>, order: Seq<char>)
    requires
        size.len() == 2,
        order.len() == 2,
        s =~= seq!['p', 'c', 'm', '_', kind] + size + order,
    ensures
        s.len() == 9,
        s.take(4) == seq!['p', 'c', 'm', '_'],
        s[4] == kind,
        s.subrange(5, 7) == size,
        s.skip(7) == order,
        s == seq!['p', 'c', 'm', '_'].push(kind) + size + order,
{
    assert(s.take(4) =~= seq!['p', 'c', 'm', '_']);
    assert(s.subrange(5, 7) =~= size);
    assert(s.skip(7) =~= order);
    assert(s =~= seq!['p', 'c', 'm', '_'].push(kind) + size + order);
}

/// What ffprobe could not read, or did not describe, is no media; anything else is
/// what the description says.
pub proof fn what_cannot_be_read_is_no_media(success: bool, stdout: Seq<u8>)
    ensures
        !success || json_document(stdout) is None ==> !probed(success, stdout).has_media && probed(
            success,
            stdout,
        ).audio_tracks.len() == 0 && probed(success, stdout).tags.len() == 0,
        success ==> (json_document(stdout) matches Some(document) ==> probed(success, stdout)
            == info_of(document)),
{
}

/// A file is looked at where it is no larger than ten times two to the thirty
/// bytes, and only there; one on the network waits for its turn to be read first.
pub proof fn only_a_file_too_large_is_not_looked_at(size: u64, on_network: bool)
    ensures
        size <= 10 * 1024 * 1024 * 1024 && on_network ==> next_step(
            CandidateStep::Measuring,
            on_network,
            CandidateEvent::Size(size),
        ) == CandidateStep::WaitingToRead,
        size <= 10 * 1024 * 1024 * 1024 && !on_network ==> next_step(
            CandidateStep::Measuring,
            on_network,
            CandidateEvent::Size(size),
        ) == CandidateStep::Probing,
        size > 10 * 1024 * 1024 * 1024 ==> next_step(
            CandidateStep::Measuring,
            on_network,
            CandidateEvent::Size(size),
        ) == CandidateStep::Ended,
        next_step(CandidateStep::Waiting, on_network, CandidateEvent::Granted)
            == CandidateStep::Measuring,
        next_step(CandidateStep::WaitingToRead, on_network, CandidateEvent::Granted)
            == CandidateStep::Probing,
{
}

/// What is said of a file that could not be looked at is why: its own reason where
/// it has one, and in front of what the program said the path of the file.
pub proof fn a_failed_look_gives_its_reason(
    path: Seq<char>,
    reason: String,
    e: String,
    size: u64,
    r: Result<FileInfo, String>,
)
    ensures
        is_probe_result(path, ProbeEnd::NotStarted(reason), r) ==> (r matches Err(text)
            && path.is_prefix_of(text@) && friendly(
            reason@,
            lowercase_text(reason@),
        ).is_suffix_of(text@)),
        is_probe_result(path, ProbeEnd::Cancelled, r) ==> (r matches Err(text) && text@
            == "conversion cancelled"@),
        candidate_error(CandidateStep::Measuring, CandidateEvent::NoSize(e)) == e@,
        candidate_error(CandidateStep::Measuring, CandidateEvent::Size(size))
            == oversize_message(size),
        candidate_error(CandidateStep::Waiting, CandidateEvent::Cancelled)
            == "conversion cancelled"@,
{
    if is_probe_result(path, ProbeEnd::NotStarted(reason), r) {
        let text = r->Err_0@;
        let said = friendly(reason@, lowercase_text(reason@));
        assert(text.take(path.len() as int) =~= path);
        assert(text.skip(text.len() - said.len()) =~= said);
    }
}

} // verus!
