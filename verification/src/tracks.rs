//! Names for the audio tracks of an input that has several.

use vstd::prelude::*;
use crate::outside::lossy;
use crate::outside::lossy_text;
use crate::path::stem_of;
use crate::path::FilePath;
use crate::text::ascii_lower;
use crate::text::chars_of;
use crate::text::contains;
use crate::text::decimal;
use crate::text::decimal_text;
use crate::text::ends_with;
use crate::text::has_text;
use crate::text::opt_text;
use crate::text::starts_with;
use crate::text::strip_end;
use crate::text::strip_start;
use crate::text::text_eq;
use crate::text::to_ascii_lowercase;
use crate::text::trim;
use crate::text::trim_matches;
use crate::text::trimmed;
use crate::types::AudioTrack;
use crate::types::TrackView;

verus! {

/// A name, in lower case, that a container gives to every track.
pub open spec fn is_generic(lower: Seq<char>) -> bool {
    ||| lower == "main"@
    ||| lower == "soundhandler"@
    ||| lower == "videohandler"@
    ||| lower == "datahandler"@
    ||| lower == "handler"@
    ||| " handler"@.is_suffix_of(lower) && (has_text(lower, "iso"@) || has_text(lower, "media"@)
        || "gpac"@.is_prefix_of(lower))
}

/// A character that controls a terminal, or that some platform takes in no name.
pub open spec fn is_unsafe_char(c: char) -> bool {
    ||| c <= '\u{1f}'
    ||| '\u{7f}' <= c <= '\u{9f}'
    ||| c == '/'
    ||| c == '\\'
    ||| c == ':'
    ||| c == '*'
    ||| c == '?'
    ||| c == '"'
    ||| c == '<'
    ||| c == '>'
    ||| c == '|'
}

pub open spec fn safe_char(c: char) -> char {
    if is_unsafe_char(c) {
        '_'
    } else {
        c
    }
}

/// The text with an underline for every character that cannot stand in a name.
pub open spec fn safe_chars(s: Seq<char>) -> Seq<char> {
    Seq::new(s.len(), |i: int| safe_char(s[i]))
}

/// The text as a part of a file name; none where nothing is left of it, or where
/// it says nothing of the track.
pub open spec fn safe_label(value: Seq<char>) -> Option<Seq<char>> {
    let text = trimmed(value);
    if text.len() == 0 || is_generic(ascii_lower(text)) {
        None
    } else {
        let safe = strip_end(strip_start(trimmed(safe_chars(text)), '.'), '.');
        if safe.len() == 0 {
            None
        } else {
            Some(safe)
        }
    }
}

pub open spec fn opt_safe_label(value: Option<Seq<char>>) -> Option<Seq<char>> {
    match value {
        Some(s) => safe_label(s),
        None => None,
    }
}

/// The label of a track: its own name, else its language, else its number.
pub open spec fn label_of(track: TrackView, ordinal: nat) -> Seq<char> {
    match opt_safe_label(track.handler_name) {
        Some(label) => label,
        None => match opt_safe_label(track.language) {
            Some(label) => label,
            None => "trk"@ + decimal(ordinal),
        },
    }
}

fn replace_unsafe(s: &str) -> (r: String)
    ensures
        r@ == safe_chars(s@),
{
    let chars: Vec<char> = chars_of(s);
    let mut r: String = String::new();
    let mut i: usize = 0;
    while i < chars.len()
        invariant
            i <= chars@.len(),
            chars@ == s@,
            r@ == safe_chars(s@.take(i as int)),
        decreases chars@.len() - i,
    {
        let c: char = chars[i];
        let bad: bool = c <= '\u{1f}' || ('\u{7f}' <= c && c <= '\u{9f}') || c == '/' || c == '\\'
            || c == ':' || c == '*' || c == '?' || c == '"' || c == '<' || c == '>' || c == '|';
        r.push(
            if bad {
                '_'
            } else {
                c
            },
        );
        i = i + 1;
        assert(safe_chars(s@.take(i as int)) =~= safe_chars(s@.take(i - 1)).push(
            safe_char(s@[i - 1]),
        ));
    }
    assert(s@.take(i as int) =~= s@);
    r
}

/// The text as a part of a file name.
pub fn safe_track_label(value: &str) -> (r: Option<String>)
    ensures
        opt_text(r) == safe_label(value@),
{
    let text: String = trim(value);
    if text.as_str().is_empty() {
        return None;
    }
    let lower: String = to_ascii_lowercase(text.as_str());
    let low: &str = lower.as_str();
    if text_eq(low, "main") || text_eq(low, "soundhandler") || text_eq(low, "videohandler")
        || text_eq(low, "datahandler") || text_eq(low, "handler") || (ends_with(low, " handler") && (
    contains(low, "iso") || contains(low, "media") || starts_with(low, "gpac"))) {
        return None;
    }
    let replaced: String = replace_unsafe(text.as_str());
    let inner: String = trim(replaced.as_str());
    let safe: String = trim_matches(inner.as_str(), '.');
    if safe.as_str().is_empty() {
        None
    } else {
        Some(safe)
    }
}

fn opt_track_label(value: &Option<String>) -> (r: Option<String>)
    ensures
        opt_text(r) == opt_safe_label(opt_text(*value)),
{
    match value {
        Some(s) => safe_track_label(s.as_str()),
        None => None,
    }
}

/// The label of a track.
pub fn track_label(track: &AudioTrack, ordinal: usize) -> (r: String)
    ensures
        r@ == label_of(track@, ordinal as nat),
{
    match opt_track_label(&track.handler_name) {
        Some(label) => label,
        None => match opt_track_label(&track.language) {
            Some(label) => label,
            None => {
                let mut label: String = "trk".to_owned();
                let number: String = decimal_text(ordinal as u64);
                label.append(number.as_str());
                label
            },
        },
    }
}

/// The name of a result for one track, without its extension.
pub open spec fn track_stem(stem: Seq<char>, label: Seq<char>) -> Seq<char> {
    stem + " ("@ + label + ")"@
}

/// The name of a result for one track, without its extension; an error where the
/// input has no name.
pub fn track_output_stem(input: &FilePath, label: &str) -> (r: Result<String, String>)
    ensures
        match r {
            Ok(stem) => stem_of(input@) is Some && stem@ == track_stem(
                lossy_text(stem_of(input@)->0),
                label@,
            ),
            Err(e) => stem_of(input@) is None && e@ == "invalid filename"@,
        },
{
    match input.file_stem() {
        Some(bytes) => {
            let mut stem: String = lossy(&bytes);
            stem.append(" (");
            stem.append(label);
            stem.append(")");
            Ok(stem)
        },
        None => Err("invalid filename".to_owned()),
    }
}

/// A label holds no character that cannot stand in a name.
pub proof fn labels_are_safe(value: Seq<char>, i: int)
    requires
        safe_label(value) is Some,
        0 <= i < safe_label(value)->0.len(),
    ensures
        !is_unsafe_char((safe_label(value)->0)[i]),
{
    let text = trimmed(value);
    let all = safe_chars(text);
    assert(all_safe(all));
    lemma_trim_start_safe(all);
    lemma_trim_end_safe(crate::text::trim_start(all));
    lemma_strip_start_safe(trimmed(all), '.');
    lemma_strip_end_safe(strip_start(trimmed(all), '.'), '.');
    assert(all_safe(safe_label(value)->0));
}

spec fn all_safe(s: Seq<char>) -> bool {
    forall|i: int| 0 <= i < s.len() ==> !is_unsafe_char(#[trigger] s[i])
}

proof fn lemma_trim_start_safe(s: Seq<char>)
    requires
        all_safe(s),
    ensures
        all_safe(crate::text::trim_start(s)),
    decreases s.len(),
{
    if s.len() > 0 && crate::text::is_space(s[0]) {
        assert(all_safe(s.skip(1)));
        lemma_trim_start_safe(s.skip(1));
    }
}

proof fn lemma_trim_end_safe(s: Seq<char>)
    requires
        all_safe(s),
    ensures
        all_safe(crate::text::trim_end(s)),
    decreases s.len(),
{
    if s.len() > 0 && crate::text::is_space(s.last()) {
        assert(all_safe(s.drop_last()));
        lemma_trim_end_safe(s.drop_last());
    }
}

proof fn lemma_strip_start_safe(s: Seq<char>, c: char)
    requires
        all_safe(s),
    ensures
        all_safe(strip_start(s, c)),
    decreases s.len(),
{
    if s.len() > 0 && s[0] == c {
        assert(all_safe(s.skip(1)));
        lemma_strip_start_safe(s.skip(1), c);
    }
}

proof fn lemma_strip_end_safe(s: Seq<char>, c: char)
    requires
        all_safe(s),
    ensures
        all_safe(strip_end(s, c)),
    decreases s.len(),
{
    if s.len() > 0 && s.last() == c {
        assert(all_safe(s.drop_last()));
        lemma_strip_end_safe(s.drop_last(), c);
    }
}

/// A track is called by the name it has, or else by its language, or else by its
/// number; a name that says nothing, or of which nothing is left, is none.
pub proof fn a_track_is_called_by_what_it_has(track: TrackView, ordinal: nat, other: nat)
    ensures
        ({
            let label = label_of(track, ordinal);
            let by_name = match track.handler_name {
                Some(s) => safe_label(s),
                None => None,
            };
            let by_language = match track.language {
                Some(s) => safe_label(s),
                None => None,
            };
            &&& by_name is Some ==> label == by_name->0
            &&& by_name is None && by_language is Some ==> label == by_language->0
            &&& by_name is None && by_language is None ==> label == "trk"@ + decimal(ordinal)
            &&& by_name is None && by_language is None && ordinal != other ==> label != label_of(
                track,
                other,
            )
        }),
{
    reveal_strlit("trk");
    crate::text::a_written_number_reads_back(ordinal, 0);
    assert(("trk"@ + decimal(ordinal)).skip(3) =~= decimal(ordinal));
    assert(("trk"@ + decimal(other)).skip(3) =~= decimal(other));
}

/// A name of a track that can stand in the name of a file, has no blanks at its
/// ends and no dots there, and says something, is kept as it is.
pub proof fn a_good_label_is_kept(value: Seq<char>)
    requires
        value.len() > 0,
        !crate::text::is_space(value[0]) && !crate::text::is_space(value.last()),
        value[0] != '.' && value.last() != '.',
        forall|i: int| 0 <= i < value.len() ==> !is_unsafe_char(#[trigger] value[i]),
        !is_generic(ascii_lower(value)),
    ensures
        safe_label(value) == Some(value),
{
    assert(trimmed(value) == value);
    assert(safe_chars(value) =~= value);
}

/// What cannot stand in the name of a file is replaced by a line, in its place,
/// and nothing else is; what many programs write for want of a name is no name, in
/// whatever case.
pub proof fn unsafe_characters_are_replaced(value: Seq<char>, i: int)
    ensures
        0 <= i < value.len() ==> safe_chars(value)[i] == (if value[i] == '/' || value[i] == '\\'
            || value[i] == ':' || value[i] == '*' || value[i] == '?' || value[i] == '"' || value[i]
            == '<' || value[i] == '>' || value[i] == '|' || value[i] < ' ' || '\u{7f}' <= value[i]
            <= '\u{9f}' {
            '_'
        } else {
            value[i]
        }),
        safe_chars(value).len() == value.len(),
        ascii_lower(trimmed(value)) == "main"@ ==> safe_label(value) is None,
        ascii_lower(trimmed(value)) == "handler"@ ==> safe_label(value) is None,
        ascii_lower(trimmed(value)) == "soundhandler"@ ==> safe_label(value) is None,
        ascii_lower(trimmed(value)) == "videohandler"@ ==> safe_label(value) is None,
        ascii_lower(trimmed(value)) == "datahandler"@ ==> safe_label(value) is None,
        trimmed(value).len() == 0 ==> safe_label(value) is None,
{
}

/// The file of a track is named by the input and, in brackets, by the track; two
/// tracks that are called differently get two names.
pub proof fn tracks_get_names_of_their_own(stem: Seq<char>, label: Seq<char>, other: Seq<char>)
    ensures
        track_stem(stem, label) == stem + seq![' ', '('] + label + seq![')'],
        label != other ==> track_stem(stem, label) != track_stem(stem, other),
{
    reveal_strlit(" (");
    reveal_strlit(")");
    let a = track_stem(stem, label);
    let b = track_stem(stem, other);
    assert(a =~= stem + seq![' ', '('] + label + seq![')']);
    assert(a.subrange(stem.len() as int + 2, a.len() - 1) =~= label);
    assert(b.subrange(stem.len() as int + 2, b.len() - 1) =~= other);
}

} // verus!
