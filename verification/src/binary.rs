//! Finding FFmpeg, and saying so where it is not found.

use vstd::prelude::*;
use vstd::utf8::*;
use crate::outside::lowercase;
use crate::outside::lowercase_text;
use crate::outside::text_from_utf8;
use crate::text::contains;
use crate::text::has_text;
use crate::text::lines;
use crate::text::lines_of;
use crate::text::opt_text;
use crate::text::texts;
use crate::text::trim;
use crate::text::trimmed;

verus! {

/// What a question about a file was answered, where the file is named by a
/// text.
pub open spec fn says<E: Fn(&str) -> bool>(f: E, path: Seq<char>, answer: bool) -> bool {
    exists|p: &str| p@ == path && #[trigger] f.ensures((p,), answer)
}

/// The path that a locating command printed: the whole of its output where it
/// prints one path, and the first line where it may print several.
pub open spec fn located_path(output: Seq<u8>, several: bool) -> Option<Seq<char>> {
    if !valid_utf8(output) {
        None
    } else if several {
        let report = lines_of(decode_utf8(output));
        if report.len() == 0 {
            Some(seq![])
        } else {
            Some(trimmed(report[0]))
        }
    } else {
        Some(trimmed(decode_utf8(output)))
    }
}

/// The path that the locating command found, if it names something.
fn located(output: &Vec<u8>, several: bool) -> (r: Option<String>)
    ensures
        opt_text(r) == located_path(output@, several),
{
    let text: String = match text_from_utf8(output) {
        Some(s) => s,
        None => {
            return None;
        },
    };
    if several {
        let report: Vec<String> = lines(text.as_str());
        assert(texts(report@).len() == report@.len());
        if report.len() == 0 {
            let none: String = String::new();
            assert(none@ =~= seq![]);
            Some(none)
        } else {
            assert(texts(report@)[0] == report@[0]@);
            Some(trim(report[0].as_str()))
        }
    } else {
        Some(trim(text.as_str()))
    }
}

/// What a program is started by, from what the locating command printed, if it
/// succeeded, and from which files exist: the path that was printed; else the
/// program in one of the usual directories; else its bare name.
pub open spec fn chosen_binary<E: Fn(&str) -> bool>(
    name: Seq<char>,
    output: Option<Seq<u8>>,
    several: bool,
    exists_file: E,
    chosen: Seq<char>,
) -> bool {
    let found = match output {
        Some(bytes) => located_path(bytes, several),
        None => None,
    };
    let brew = "/opt/homebrew/bin/"@ + name;
    let local = "/usr/local/bin/"@ + name;
    ||| (found is Some && found->0.len() > 0 && says(exists_file, found->0, true) && chosen
        == found->0)
    ||| ((found is None || found->0.len() == 0 || says(exists_file, found->0, false)) && (
        (says(exists_file, brew, true) && chosen == brew)
        || (says(exists_file, brew, false) && says(exists_file, local, true) && chosen == local)
        || (says(exists_file, brew, false) && says(exists_file, local, false) && chosen == name)
    ))
}

/// What a program is started by.
pub fn resolve_binary<E: Fn(&str) -> bool>(
    name: &str,
    output: Option<Vec<u8>>,
    several: bool,
    exists_file: E,
) -> (r: String)
    requires
        forall|p: &str| exists_file.requires((p,)),
    ensures
        chosen_binary(
            name@,
            match output {
                Some(bytes) => Some(bytes@),
                None => None,
            },
            several,
            exists_file,
            r@,
        ),
{
    let found: Option<String> = match &output {
        Some(bytes) => located(bytes, several),
        None => None,
    };
    match found {
        Some(path) => {
            if !path.as_str().is_empty() && exists_file(path.as_str()) {
                return path;
            }
        },
        None => {},
    }
    let mut brew: String = "/opt/homebrew/bin/".to_owned();
    brew.append(name);
    if exists_file(brew.as_str()) {
        return brew;
    }
    let mut local: String = "/usr/local/bin/".to_owned();
    local.append(name);
    if exists_file(local.as_str()) {
        return local;
    }
    name.to_owned()
}

/// What FFmpeg is started by.
pub fn ffmpeg_path<E: Fn(&str) -> bool>(
    output: Option<Vec<u8>>,
    several: bool,
    exists_file: E,
) -> (r: String)
    requires
        forall|p: &str| exists_file.requires((p,)),
    ensures
        chosen_binary(
            "ffmpeg"@,
            match output {
                Some(bytes) => Some(bytes@),
                None => None,
            },
            several,
            exists_file,
            r@,
        ),
{
    resolve_binary("ffmpeg", output, several, exists_file)
}

/// What ffprobe is started by.
pub fn ffprobe_path<E: Fn(&str) -> bool>(
    output: Option<Vec<u8>>,
    several: bool,
    exists_file: E,
) -> (r: String)
    requires
        forall|p: &str| exists_file.requires((p,)),
    ensures
        chosen_binary(
            "ffprobe"@,
            match output {
                Some(bytes) => Some(bytes@),
                None => None,
            },
            several,
            exists_file,
            r@,
        ),
{
    resolve_binary("ffprobe", output, several, exists_file)
}

// Looking once ---------------------------------------------------------------

/// What a program is started by, where it is looked for once: the path that is
/// kept, or else the one that is found, which is kept from then on.
pub open spec fn is_known_path<E: Fn(&str) -> bool>(
    kept: Option<Seq<char>>,
    name: Seq<char>,
    output: Option<Seq<u8>>,
    several: bool,
    exists_file: E,
    chosen: Seq<char>,
    kept_after: Option<Seq<char>>,
) -> bool {
    &&& kept_after == Some(chosen)
    &&& match kept {
        Some(path) => chosen == path,
        None => chosen_binary(name, output, several, exists_file, chosen),
    }
}

/// What a program is started by, where it is looked for once. What the locating
/// command printed, and which files exist, counts only where no path is kept.
pub fn known_path<E: Fn(&str) -> bool>(
    kept: &mut Option<String>,
    name: &str,
    output: Option<Vec<u8>>,
    several: bool,
    exists_file: E,
) -> (r: String)
    requires
        forall|p: &str| exists_file.requires((p,)),
    ensures
        is_known_path(
            opt_text(*old(kept)),
            name@,
            match output {
                Some(bytes) => Some(bytes@),
                None => None,
            },
            several,
            exists_file,
            r@,
            opt_text(*final(kept)),
        ),
{
    match kept {
        Some(path) => {
            return path.clone();
        },
        None => {},
    }
    let found: String = resolve_binary(name, output, several, exists_file);
    *kept = Some(found.clone());
    found
}

/// A program that was looked for once is started by the same path ever after,
/// whatever a command prints and whichever files exist by then; and that path
/// says something.
pub proof fn a_known_path_stays<E: Fn(&str) -> bool, F: Fn(&str) -> bool>(
    name: Seq<char>,
    output: Option<Seq<u8>>,
    several: bool,
    exists_file: E,
    first: Seq<char>,
    kept: Option<Seq<char>>,
    later_output: Option<Seq<u8>>,
    later_exists_file: F,
    second: Seq<char>,
    kept_after: Option<Seq<char>>,
)
    requires
        name.len() > 0,
        is_known_path(None, name, output, several, exists_file, first, kept),
        is_known_path(kept, name, later_output, several, later_exists_file, second, kept_after),
    ensures
        second == first,
        first.len() > 0,
        kept_after == kept,
{
}

/// An error that says, in lower case, that a program was not found.
pub open spec fn is_missing_program(lower: Seq<char>) -> bool {
    has_text(lower, "no such file"@) || has_text(lower, "not found"@) || has_text(
        lower,
        "cannot find the file"@,
    )
}

/// The message for the user, from an error and the same error in lower case.
pub open spec fn friendly(e: Seq<char>, lower: Seq<char>) -> Seq<char> {
    if is_missing_program(lower) {
        "FFmpeg が見つかりません。https://ffmpeg.org からインストールしてください。"@
    } else {
        e
    }
}

/// The message for the user, from an error and the same error in lower case.
pub fn friendly_error(e: &str, lower: &str) -> (r: String)
    ensures
        r@ == friendly(e@, lower@),
{
    if contains(lower, "no such file") || contains(lower, "not found") || contains(
        lower,
        "cannot find the file",
    ) {
        "FFmpeg が見つかりません。https://ffmpeg.org からインストールしてください。".to_owned()
    } else {
        e.to_owned()
    }
}

/// The message for the user: where to get FFmpeg, if the error is that it was
/// not found, and else the error itself.
pub fn friendly_ffmpeg_error(e: &str) -> (r: String)
    ensures
        r@ == friendly(e@, lowercase_text(e@)),
{
    let lower: String = lowercase(e);
    friendly_error(e, lower.as_str())
}

/// An error that says that a program was not found, in one of the ways in which
/// systems say it, becomes the advice where to get FFmpeg; any other is told as it
/// is.
pub proof fn only_a_missing_program_is_explained(e: Seq<char>, first: Seq<char>, last: Seq<char>)
    ensures
        ({
            let advice = friendly(e, first + "not found"@ + last);
            &&& friendly(e, first + "no such file"@ + last) == advice
            &&& friendly(e, first + "cannot find the file"@ + last) == advice
            &&& has_text(advice, "https://ffmpeg.org"@)
        }),
        !has_text(first, "no such file"@) && !has_text(first, "not found"@) && !has_text(
            first,
            "cannot find the file"@,
        ) ==> friendly(e, first) == e,
{
    let i = first.len() as int;
    let a = first + "not found"@ + last;
    let b = first + "no such file"@ + last;
    let c = first + "cannot find the file"@ + last;
    assert(a.subrange(i, i + "not found"@.len()) =~= "not found"@);
    assert(crate::text::occurs_at(a, "not found"@, i));
    assert(b.subrange(i, i + "no such file"@.len()) =~= "no such file"@);
    assert(crate::text::occurs_at(b, "no such file"@, i));
    assert(c.subrange(i, i + "cannot find the file"@.len()) =~= "cannot find the file"@);
    assert(crate::text::occurs_at(c, "cannot find the file"@, i));
    let advice = "FFmpeg が見つかりません。https://ffmpeg.org からインストールしてください。"@;
    reveal_strlit("FFmpeg が見つかりません。https://ffmpeg.org からインストールしてください。");
    reveal_strlit("https://ffmpeg.org");
    assert(advice.subrange(16, 34) =~= "https://ffmpeg.org"@);
    assert(crate::text::occurs_at(advice, "https://ffmpeg.org"@, 16));
}

/// A program is started by the path that the system gives for it, if that is
/// there; or else from where it is usually installed, if it is there; or else by
/// its name alone.
pub proof fn a_program_is_looked_for_in_order<E: Fn(&str) -> bool>(
    name: Seq<char>,
    output: Option<Seq<u8>>,
    several: bool,
    exists_file: E,
    chosen: Seq<char>,
)
    requires
        chosen_binary(name, output, several, exists_file, chosen),
    ensures
        chosen == name || says(exists_file, chosen, true),
        ({
            let found = match output {
                Some(bytes) => located_path(bytes, several),
                None => None,
            };
            let brew = "/opt/homebrew/bin/"@ + name;
            let local = "/usr/local/bin/"@ + name;
            &&& found is Some && found->0.len() > 0 && !says(exists_file, found->0, false)
                ==> chosen == found->0
            &&& found is None && !says(exists_file, brew, false) ==> chosen == brew
            &&& found is None && !says(exists_file, brew, true) && !says(
                exists_file,
                local,
                false,
            ) ==> chosen == local
            &&& found is None && !says(exists_file, brew, true) && !says(exists_file, local, true)
                ==> chosen == name
        }),
{
}

} // verus!
