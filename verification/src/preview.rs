//! Looking at an input and listening to it before it is converted, and opening
//! addresses.

use vstd::prelude::*;
use crate::output::join_name;
use crate::output::named_in;
use crate::outside::fresh_identifier;
use crate::outside::is_identifier;
use crate::outside::lossy;
use crate::outside::lossy_text;
use crate::path::name_of;
use crate::path::FilePath;
use crate::path::Part;
use crate::spool::is_stale_name;
use crate::text::ascii_lower;
use crate::text::contains_char;
use crate::text::ends_with;
use crate::text::lines;
use crate::text::lines_of;
use crate::text::starts_with;
use crate::text::texts;
use crate::text::to_ascii_lowercase;

verus! {

// Names ----------------------------------------------------------------------

/// The name of the file that a wave form is read from.
pub open spec fn wave_name(id: Seq<char>) -> Seq<char> {
    "oto_wave_"@ + id + ".raw"@
}

/// The name of the file that is listened to.
pub open spec fn preview_name(id: Seq<char>) -> Seq<char> {
    "oto_preview_"@ + id + ".wav"@
}

/// A path in a directory with a name made from an identifier.
pub open spec fn is_fresh_in(dir: Seq<Part>, prefix: Seq<char>, suffix: Seq<char>, path: Seq<Part>) -> bool {
    exists|id: Seq<char>|
        #[trigger] is_identifier(id) && path == named_in(dir, prefix + id + suffix)
}

fn fresh_in(dir: &FilePath, prefix: &str, suffix: &str) -> (r: FilePath)
    ensures
        is_fresh_in(dir@, prefix@, suffix@, r@),
        r.is_plain(),
{
    let id: String = fresh_identifier();
    let mut name: String = prefix.to_owned();
    name.append(id.as_str());
    name.append(suffix);
    assert(is_identifier(id@));
    join_name(dir, name.as_str())
}

/// A new file that a wave form is to be read from.
pub fn wave_path(dir: &FilePath) -> (r: FilePath)
    ensures
        is_fresh_in(dir@, "oto_wave_"@, ".raw"@, r@),
        r.is_plain(),
{
    fresh_in(dir, "oto_wave_", ".raw")
}

/// A new file that is to be listened to.
pub fn preview_path(dir: &FilePath) -> (r: FilePath)
    ensures
        is_fresh_in(dir@, "oto_preview_"@, ".wav"@, r@),
        r.is_plain(),
{
    fresh_in(dir, "oto_preview_", ".wav")
}

/// What is left of such files is removed when the program starts or ends.
pub proof fn leftovers_are_swept(id: Seq<char>)
    ensures
        is_stale_name(wave_name(id)),
        is_stale_name(preview_name(id)),
{
    let wave = wave_name(id);
    assert("oto_wave_"@ =~= wave.subrange(0, "oto_wave_"@.len() as int));
    assert(".raw"@ =~= wave.subrange(wave.len() - ".raw"@.len(), wave.len() as int));
    let preview = preview_name(id);
    assert("oto_preview_"@ =~= preview.subrange(0, "oto_preview_"@.len() as int));
    assert(".wav"@ =~= preview.subrange(preview.len() - ".wav"@.len(), preview.len() as int));
}

/// A file that was made to be listened to.
pub open spec fn is_preview(path: Seq<Part>, temp_dir: Seq<Part>) -> bool {
    let name = match name_of(path) {
        Some(name) => lossy_text(name),
        None => lossy_text(seq![]),
    };
    &&& temp_dir.is_prefix_of(path)
    &&& "oto_preview_"@.is_prefix_of(name)
    &&& ".wav"@.is_suffix_of(name)
}

/// Whether a file may be deleted as one that was made to be listened to; nothing
/// else is.
pub fn check_preview_path(path: &FilePath, temp_dir: &FilePath) -> (r: Result<(), String>)
    ensures
        match r {
            Ok(_) => is_preview(path@, temp_dir@),
            Err(e) => !is_preview(path@, temp_dir@) && e@ == "invalid path"@,
        },
{
    let bytes: Vec<u8> = match path.file_name() {
        Some(name) => name,
        None => {
            let none: Vec<u8> = Vec::new();
            assert(none@ =~= seq![]);
            none
        },
    };
    let name: String = lossy(&bytes);
    if !path.starts_with(temp_dir) || !starts_with(name.as_str(), "oto_preview_") || !ends_with(
        name.as_str(),
        ".wav",
    ) {
        return Err("invalid path".to_owned());
    }
    Ok(())
}

// What FFmpeg is asked -------------------------------------------------------

/// What FFmpeg is asked for a wave form: few samples, one channel.
pub open spec fn wave_args_of(input: Seq<char>, output: Seq<char>) -> Seq<Seq<char>> {
    seq![
        "-y"@,
        "-i"@,
        input,
        "-ar"@,
        "4000"@,
        "-f"@,
        "f32le"@,
        "-ac"@,
        "1"@,
        output,
    ]
}

/// What FFmpeg is asked for a file to be listened to.
pub open spec fn preview_args_of(input: Seq<char>, output: Seq<char>) -> Seq<Seq<char>> {
    seq![
        "-y"@,
        "-i"@,
        input,
        "-ar"@,
        "44100"@,
        "-ac"@,
        "2"@,
        "-f"@,
        "wav"@,
        output,
    ]
}

/// What FFmpeg is asked for a wave form.
pub fn wave_args(input: &str, output: &str) -> (r: Vec<String>)
    ensures
        texts(r@) == wave_args_of(input@, output@),
{
    let mut r: Vec<String> = Vec::new();
    r.push("-y".to_owned());
    r.push("-i".to_owned());
    r.push(input.to_owned());
    r.push("-ar".to_owned());
    r.push("4000".to_owned());
    r.push("-f".to_owned());
    r.push("f32le".to_owned());
    r.push("-ac".to_owned());
    r.push("1".to_owned());
    r.push(output.to_owned());
    assert(texts(r@) =~= wave_args_of(input@, output@));
    r
}

/// What FFmpeg is asked for a file to be listened to.
pub fn preview_args(input: &str, output: &str) -> (r: Vec<String>)
    ensures
        texts(r@) == preview_args_of(input@, output@),
{
    let mut r: Vec<String> = Vec::new();
    r.push("-y".to_owned());
    r.push("-i".to_owned());
    r.push(input.to_owned());
    r.push("-ar".to_owned());
    r.push("44100".to_owned());
    r.push("-ac".to_owned());
    r.push("2".to_owned());
    r.push("-f".to_owned());
    r.push("wav".to_owned());
    r.push(output.to_owned());
    assert(texts(r@) =~= preview_args_of(input@, output@));
    r
}

/// The last line of what FFmpeg wrote.
pub open spec fn last_line(report: Seq<char>) -> Seq<char> {
    let all = lines_of(report);
    if all.len() == 0 {
        "unknown error"@
    } else {
        all.last()
    }
}

fn failure(prefix: &str, stderr: &Vec<u8>) -> (r: String)
    ensures
        r@ == prefix@ + last_line(lossy_text(stderr@)),
{
    let report: String = lossy(stderr);
    let all: Vec<String> = lines(report.as_str());
    let mut r: String = prefix.to_owned();
    let count: usize = all.len();
    if count == 0 {
        r.append("unknown error");
    } else {
        assert(texts(all@)[count - 1] == all@[count - 1]@);
        r.append(all[count - 1].as_str());
    }
    r
}

/// What is said where FFmpeg could make no wave form.
pub fn wave_failure(stderr: &Vec<u8>) -> (r: String)
    ensures
        r@ == "ffmpeg failed: "@ + last_line(lossy_text(stderr@)),
{
    failure("ffmpeg failed: ", stderr)
}

/// What is said where FFmpeg could make no file to be listened to.
pub fn preview_failure(stderr: &Vec<u8>) -> (r: String)
    ensures
        r@ == "decode to wav failed: "@ + last_line(lossy_text(stderr@)),
{
    failure("decode to wav failed: ", stderr)
}

// Samples --------------------------------------------------------------------

/// How many samples of four bytes there are in a file, and how long they last in
/// millionths of a second, at four thousand a second; an error where there are
/// less than two.
pub fn wave_samples(size: usize) -> (r: Result<(usize, u128), String>)
    ensures
        match r {
            Ok(found) => samples_in(size) == Some(found.0 as nat) && found.1 == micros_in(found.0 as nat),
            Err(e) => samples_in(size) is None && e@ == "no audio data"@,
        },
{
    if size < 8 {
        return Err("no audio data".to_owned());
    }
    let samples: usize = size / 4;
    Ok((samples, samples as u128 * 250))
}

/// The part of a wave form that a sample belongs to: the parts are as long as each
/// other, and a sample behind the end belongs to none.
pub open spec fn bucket_of(index: int, resolution: int, samples: int) -> Option<int> {
    let bucket = index * resolution / samples;
    if bucket < resolution {
        Some(bucket)
    } else {
        None
    }
}

/// The part of a wave form that a sample belongs to.
pub fn wave_bucket(index: usize, resolution: usize, samples: usize) -> (r: Option<usize>)
    requires
        samples > 0,
        index * resolution <= usize::MAX,
    ensures
        match r {
            Some(bucket) => bucket_of(index as int, resolution as int, samples as int) == Some(
                bucket as int,
            ),
            None => bucket_of(index as int, resolution as int, samples as int) is None,
        },
{
    let bucket: usize = index * resolution / samples;
    if bucket < resolution {
        Some(bucket)
    } else {
        None
    }
}

/// Every sample of the file belongs to a part.
pub proof fn every_sample_has_a_part(index: int, resolution: int, samples: int)
    requires
        0 <= index < samples,
        0 < resolution,
    ensures
        bucket_of(index, resolution, samples) is Some,
        0 <= bucket_of(index, resolution, samples)->0 < resolution,
{
    assert(0 <= index * resolution < resolution * samples) by (nonlinear_arith)
        requires
            0 <= index < samples,
            0 < resolution,
    ;
    assert(0 <= (index * resolution) / samples < resolution) by (nonlinear_arith)
        requires
            0 <= index * resolution < resolution * samples,
            samples > 0,
    ;
}

// Addresses ------------------------------------------------------------------

/// An address that is handed on to the system.
pub open spec fn has_known_scheme(url: Seq<char>) -> bool {
    let lower = ascii_lower(url);
    "http://"@.is_prefix_of(lower) || "https://"@.is_prefix_of(lower) || "mailto:"@.is_prefix_of(
        lower,
    )
}

/// An address with a character that could end it early.
pub open spec fn has_breaking_char(url: Seq<char>) -> bool {
    url.contains('"') || url.contains('\n') || url.contains('\r') || url.contains('\0')
}

/// Whether an address may be opened, or why not.
pub fn check_url(url: &str) -> (r: Result<(), String>)
    ensures
        match r {
            Ok(_) => has_known_scheme(url@) && !has_breaking_char(url@),
            Err(e) => if !has_known_scheme(url@) {
                e@ == "unsupported url scheme"@
            } else {
                has_breaking_char(url@) && e@ == "invalid characters in url"@
            },
        },
{
    let lower: String = to_ascii_lowercase(url);
    let known: bool = starts_with(lower.as_str(), "http://") || starts_with(
        lower.as_str(),
        "https://",
    ) || starts_with(lower.as_str(), "mailto:");
    if !known {
        return Err("unsupported url scheme".to_owned());
    }
    if contains_char(url, '"') || contains_char(url, '\n') || contains_char(url, '\r')
        || contains_char(url, '\0') {
        return Err("invalid characters in url".to_owned());
    }
    Ok(())
}

// What is shown and played ---------------------------------------------------

/// The picture of a sound is drawn from one channel at four thousand samples a
/// second; a preview has two channels at the usual rate. Both are read from the
/// input and written to where they are to go.
pub proof fn previews_are_what_they_are_for(input: Seq<char>, output: Seq<char>)
    ensures
        ({
            let wave = wave_args_of(input, output);
            let sound = preview_args_of(input, output);
            &&& wave[1] == "-i"@ && wave[2] == input && wave.last() == output
            &&& sound[1] == "-i"@ && sound[2] == input && sound.last() == output
            &&& wave.subrange(3, 9) == seq!["-ar"@, "4000"@, "-f"@, "f32le"@, "-ac"@, "1"@]
            &&& sound.subrange(3, 9) == seq!["-ar"@, "44100"@, "-ac"@, "2"@, "-f"@, "wav"@]
            &&& wave[0] == "-y"@ && sound[0] == "-y"@
        }),
{
    assert(wave_args_of(input, output).subrange(3, 9) =~= seq![
        "-ar"@,
        "4000"@,
        "-f"@,
        "f32le"@,
        "-ac"@,
        "1"@,
    ]);
    assert(preview_args_of(input, output).subrange(3, 9) =~= seq![
        "-ar"@,
        "44100"@,
        "-ac"@,
        "2"@,
        "-f"@,
        "wav"@,
    ]);
}

/// Samples fall into the parts of a picture in order: the first into the first
/// part, the last into the last one where there are enough samples, and no sample
/// into an earlier part than one before it; parts hold as many samples as each
/// other, but for one.
pub proof fn samples_fall_into_parts_in_order(index: int, later: int, resolution: int, samples: int)
    requires
        0 <= index <= later < samples,
        0 < resolution <= samples,
    ensures
        bucket_of(0, resolution, samples) == Some(0int),
        bucket_of(samples - 1, resolution, samples) == Some(resolution - 1),
        bucket_of(index, resolution, samples)->0 <= bucket_of(later, resolution, samples)->0,
        bucket_of(index, resolution, samples)->0 * samples <= index * resolution,
        index * resolution < (bucket_of(index, resolution, samples)->0 + 1) * samples,
{
    every_sample_has_a_part(index, resolution, samples);
    every_sample_has_a_part(later, resolution, samples);
    every_sample_has_a_part(samples - 1, resolution, samples);
    let last = samples - 1;
    assert(0 * resolution / samples == 0) by (nonlinear_arith)
        requires
            samples > 0,
    ;
    assert(last * resolution / samples == resolution - 1) by (nonlinear_arith)
        requires
            last == samples - 1,
            0 < resolution <= samples,
    ;
    assert(index * resolution / samples <= later * resolution / samples) by (nonlinear_arith)
        requires
            0 <= index <= later,
            resolution > 0,
            samples > 0,
    ;
    let b = index * resolution / samples;
    assert(b * samples <= index * resolution && index * resolution < (b + 1) * samples)
        by (nonlinear_arith)
        requires
            samples > 0,
            b == index * resolution / samples,
    ;
}

/// An address is opened where it leads to the web or to a mail, in whatever case
/// that is written, and holds nothing that could break out of it; no other is.
pub proof fn only_known_addresses_are_opened(url: Seq<char>, rest: Seq<char>)
    ensures
        has_known_scheme("http://"@ + rest),
        has_known_scheme("https://"@ + rest),
        has_known_scheme("mailto:"@ + rest),
        has_known_scheme("HTTPS://"@ + rest),
        has_known_scheme(url) ==> url.len() >= 7 && (url.contains(':')),
        url.len() > 0 && url[0] != 'h' && url[0] != 'H' && url[0] != 'm' && url[0] != 'M'
            ==> !has_known_scheme(url),
        has_breaking_char(url) <==> url.contains('"') || url.contains('\n') || url.contains('\r')
            || url.contains('\0'),
{
    reveal_strlit("http://");
    reveal_strlit("https://");
    reveal_strlit("mailto:");
    reveal_strlit("HTTPS://");
    let a = ascii_lower("http://"@ + rest);
    let b = ascii_lower("https://"@ + rest);
    let c = ascii_lower("mailto:"@ + rest);
    let d = ascii_lower("HTTPS://"@ + rest);
    assert(a.take(7) =~= "http://"@);
    assert(b.take(8) =~= "https://"@);
    assert(c.take(7) =~= "mailto:"@);
    assert(d.take(8) =~= "https://"@);
    let lower = ascii_lower(url);
    if has_known_scheme(url) {
        let at: int = if "http://"@.is_prefix_of(lower) {
            4
        } else if "https://"@.is_prefix_of(lower) {
            5
        } else {
            6
        };
        assert("http://"@[4] == ':' && "https://"@[5] == ':' && "mailto:"@[6] == ':');
        assert("http://"@[0] == 'h' && "https://"@[0] == 'h' && "mailto:"@[0] == 'm');
        assert(lower[at] == ':');
        assert(url[at] == ':');
        assert(lower[0] == 'h' || lower[0] == 'm');
        assert(lower[0] == crate::text::ascii_lower_char(url[0]));
    }
}

/// What is said of a failure is the last line that the program wrote.
pub proof fn the_last_line_is_told(lines: Seq<char>, line: Seq<char>)
    requires
        line.len() > 0,
        !line.contains('\n'),
        !lines.contains('\n'),
    ensures
        last_line(lines.push('\n') + line) == line,
        last_line(line) == line,
        last_line(seq![]) == "unknown error"@,
{
    let all = lines.push('\n') + line;
    let at = lines.len() as int;
    assert(all[at] == '\n');
    assert(all.contains('\n'));
    all.index_of_first_ensures('\n');
    let i = all.index_of_first('\n')->0;
    if i < at {
        assert(lines[i] == all[i]);
    }
    assert(all.skip(i + 1) =~= line);
    assert(lines_of(line) =~= seq![line]);
    assert(lines_of(all) =~= seq![crate::text::without_cr(all.take(i)), line]);
    let none: Seq<char> = seq![];
    assert(!none.contains('\n'));
    assert(lines_of(none) =~= seq![]);
}

/// The number of samples that raw data of a size holds, if it is enough to draw.
pub open spec fn samples_in(size: usize) -> Option<nat> {
    if size >= 8 {
        Some((size / 4) as nat)
    } else {
        None
    }
}

/// How long samples last, in millionths of a second.
pub open spec fn micros_in(samples: nat) -> nat {
    samples * 250
}

/// A sample has four bytes, and four thousand of them last a second; two of them
/// are the least that can be drawn.
pub proof fn samples_are_counted(n: usize, rest: usize)
    requires
        rest < 4,
        n * 4 + rest <= usize::MAX,
    ensures
        n >= 2 ==> samples_in((n * 4 + rest) as usize) == Some(n as nat),
        n < 2 ==> samples_in((n * 4 + rest) as usize) is None,
        micros_in(4000) == 1_000_000,
        micros_in(n as nat) * 4000 == n * 1_000_000,
{
}

/// Only a file in the directory for temporary files that is named as a preview is
/// taken for one.
pub proof fn only_previews_are_taken(path: Seq<Part>, temp_dir: Seq<Part>, name: Seq<u8>)
    ensures
        is_preview(path.push(Part::Normal(name)), temp_dir) ==> {
            let text = lossy_text(name);
            &&& temp_dir.is_prefix_of(path.push(Part::Normal(name)))
            &&& text.len() >= 12 && text.take(12) == "oto_preview_"@
            &&& text.skip(text.len() - 4) == ".wav"@
        },
        temp_dir.is_prefix_of(path) && "oto_preview_"@.is_prefix_of(lossy_text(name))
            && ".wav"@.is_suffix_of(lossy_text(name)) ==> is_preview(
            path.push(Part::Normal(name)),
            temp_dir,
        ),
{
    reveal_strlit("oto_preview_");
    reveal_strlit(".wav");
    let full = path.push(Part::Normal(name));
    assert(full.last() == Part::Normal(name));
    let text = lossy_text(name);
    if is_preview(full, temp_dir) {
        assert(text.take(12) =~= "oto_preview_"@);
        assert(text.skip(text.len() - 4) =~= ".wav"@);
    }
    if temp_dir.is_prefix_of(path) {
        assert(full.take(temp_dir.len() as int) =~= path.take(temp_dir.len() as int));
    }
}

} // verus!
