//! Replacing a file by a new one without ever losing it.

use vstd::prelude::*;
use crate::outside::fresh_identifier;
use crate::outside::is_identifier;
use crate::outside::lossy;
use crate::outside::lossy_text;
use crate::output::join_name;
use crate::output::named_in;
use crate::path::extension_of;
use crate::path::opt_path;
use crate::path::parent_of;
use crate::path::FilePath;
use crate::path::Part;

verus! {

// Names beside a file --------------------------------------------------------

/// A name beside a file: a prefix, an identifier, and the extension of the file
/// where it is kept.
pub open spec fn sibling_name(
    path: Seq<Part>,
    prefix: Seq<char>,
    keep_extension: bool,
    id: Seq<char>,
) -> Seq<char> {
    prefix + "-"@ + id + match extension_of(path) {
        Some(ext) => if keep_extension {
            "."@ + lossy_text(ext)
        } else {
            seq![]
        },
        None => seq![],
    }
}

/// The directory of a file, or the current one.
pub open spec fn folder_of(path: Seq<Part>) -> Seq<Part> {
    match parent_of(path) {
        Some(dir) => dir,
        None => seq![Part::Current],
    }
}

/// A path beside a file, with an identifier.
pub fn sibling_path(path: &FilePath, prefix: &str, keep_extension: bool, id: &str) -> (r: FilePath)
    ensures
        r@ == named_in(folder_of(path@), sibling_name(path@, prefix@, keep_extension, id@)),
        r.is_plain(),
{
    let mut name: String = prefix.to_owned();
    name.append("-");
    name.append(id);
    if keep_extension {
        match path.extension() {
            Some(ext) => {
                name.append(".");
                let text: String = lossy(&ext);
                name.append(text.as_str());
            },
            None => {},
        }
    }
    assert(name@ =~= sibling_name(path@, prefix@, keep_extension, id@));
    let dir: FilePath = match path.parent() {
        Some(dir) => dir,
        None => FilePath::current(),
    };
    join_name(&dir, name.as_str())
}

/// A path beside a file that no other file is expected to have; where one does,
/// another is to be asked for.
pub fn unique_sibling_path(path: &FilePath, prefix: &str, keep_extension: bool) -> (r: FilePath)
    ensures
        exists|id: Seq<char>|
            #[trigger] is_identifier(id) && r@ == named_in(
                folder_of(path@),
                sibling_name(path@, prefix@, keep_extension, id),
            ),
        r.is_plain(),
{
    let id: String = fresh_identifier();
    sibling_path(path, prefix, keep_extension, id.as_str())
}

/// Whether two paths name the same file: they are the same, or what they lead to
/// is, where that is known of both.
pub fn paths_refer_to_same_file(
    input: &FilePath,
    output: &FilePath,
    input_target: &Option<FilePath>,
    output_target: &Option<FilePath>,
) -> (r: bool)
    ensures
        r == (input@ == output@ || (*input_target is Some && opt_path(*input_target) == opt_path(
            *output_target,
        ))),
{
    if input.same(output) {
        return true;
    }
    match (input_target, output_target) {
        (Some(a), Some(b)) => a.same(b),
        _ => false,
    }
}

// A directory as a map -------------------------------------------------------

/// What is done to files, where the new file, the file to replace and the name
/// to keep the old one under are known.
#[derive(Debug)]
pub enum ReplaceAction {
    /// The old file is to be moved to the name it is kept under.
    Preserve,
    /// The new file is to be moved into its place.
    Install,
    /// The old file is to be moved back, for the reason given.
    Restore(String),
    /// The old file is to be removed.
    Discard,
    /// All is done, well or with an error.
    Finished(Result<(), String>),
}

/// The three paths of a replacement.
pub struct ReplacePaths {
    pub new_file: Seq<Part>,
    pub place: Seq<Part>,
    pub kept: Seq<Part>,
}

/// Files and what they hold, where one was moved.
pub open spec fn moved(
    files: Map<Seq<Part>, Seq<u8>>,
    from: Seq<Part>,
    to: Seq<Part>,
) -> Map<Seq<Part>, Seq<u8>> {
    files.remove(from).insert(to, files[from])
}

/// What an action that went well does to files.
pub open spec fn performed(
    files: Map<Seq<Part>, Seq<u8>>,
    paths: ReplacePaths,
    action: ReplaceAction,
) -> Map<Seq<Part>, Seq<u8>> {
    match action {
        ReplaceAction::Preserve => moved(files, paths.place, paths.kept),
        ReplaceAction::Install => moved(files, paths.new_file, paths.place),
        ReplaceAction::Restore(_) => moved(files, paths.kept, paths.place),
        ReplaceAction::Discard => files.remove(paths.kept),
        ReplaceAction::Finished(_) => files,
    }
}

pub open spec fn preserve_error(e: Seq<char>) -> Seq<char> {
    "failed to preserve original before replacement: "@ + e
}

pub open spec fn install_error(e: Seq<char>) -> Seq<char> {
    "failed to replace original with converted output: "@ + e
}

/// What follows an action, from whether it went well. The old file is kept until
/// the new one is in its place, and moved back where that fails.
pub open spec fn follows(
    action: ReplaceAction,
    outcome: Result<(), String>,
    next: ReplaceAction,
) -> bool {
    match action {
        ReplaceAction::Preserve => match outcome {
            Ok(_) => next is Install,
            Err(e) => next matches ReplaceAction::Finished(Err(reason)) && reason@
                == preserve_error(e@),
        },
        ReplaceAction::Install => match outcome {
            Ok(_) => next is Discard,
            Err(e) => next matches ReplaceAction::Restore(reason) && reason@ == install_error(e@),
        },
        ReplaceAction::Restore(reason) => next == ReplaceAction::Finished(Err(reason)),
        ReplaceAction::Discard => next == ReplaceAction::Finished(Ok(())),
        ReplaceAction::Finished(result) => next == action,
    }
}

/// The first action of a replacement.
pub fn replace_file_after_success() -> (r: ReplaceAction)
    ensures
        r is Preserve,
{
    ReplaceAction::Preserve
}

/// What follows an action.
pub fn after_replace_action(action: ReplaceAction, outcome: Result<(), String>) -> (r: ReplaceAction)
    ensures
        follows(action, outcome, r),
{
    match action {
        ReplaceAction::Preserve => match outcome {
            Ok(_) => ReplaceAction::Install,
            Err(e) => {
                let mut reason: String = "failed to preserve original before replacement: ".to_owned();
                reason.append(e.as_str());
                ReplaceAction::Finished(Err(reason))
            },
        },
        ReplaceAction::Install => match outcome {
            Ok(_) => ReplaceAction::Discard,
            Err(e) => {
                let mut reason: String = "failed to replace original with converted output: ".to_owned();
                reason.append(e.as_str());
                ReplaceAction::Restore(reason)
            },
        },
        ReplaceAction::Restore(reason) => ReplaceAction::Finished(Err(reason)),
        ReplaceAction::Discard => ReplaceAction::Finished(Ok(())),
        ReplaceAction::Finished(result) => ReplaceAction::Finished(result),
    }
}

/// Files before and after an action: changed where it went well, and as they
/// were where it did not.
pub open spec fn acted(
    before: Map<Seq<Part>, Seq<u8>>,
    paths: ReplacePaths,
    action: ReplaceAction,
    outcome: Result<(), String>,
    after: Map<Seq<Part>, Seq<u8>>,
) -> bool {
    after == if outcome is Ok {
        performed(before, paths, action)
    } else {
        before
    }
}

/// A run of a replacement: actions that follow each other, and what they did.
pub open spec fn is_run(
    paths: ReplacePaths,
    actions: Seq<ReplaceAction>,
    outcomes: Seq<Result<(), String>>,
    files: Seq<Map<Seq<Part>, Seq<u8>>>,
) -> bool {
    &&& actions.len() > 0
    &&& outcomes.len() == actions.len() - 1
    &&& files.len() == actions.len()
    &&& actions[0] is Preserve
    &&& actions.last() is Finished
    &&& forall|i: int|
        0 <= i < outcomes.len() ==> !(actions[i] is Finished) && follows(
            actions[i],
            #[trigger] outcomes[i],
            actions[i + 1],
        ) && acted(files[i], paths, actions[i], outcomes[i], files[i + 1])
}

/// However the actions of a replacement go: where it ends well the new file is in
/// place, and where it does not the old one is, or is at least kept under its
/// other name. No content is lost.
pub proof fn a_replacement_never_loses_the_file(
    paths: ReplacePaths,
    actions: Seq<ReplaceAction>,
    outcomes: Seq<Result<(), String>>,
    files: Seq<Map<Seq<Part>, Seq<u8>>>,
)
    requires
        is_run(paths, actions, outcomes, files),
        paths.new_file != paths.place,
        paths.place != paths.kept,
        paths.new_file != paths.kept,
        files[0].contains_key(paths.new_file),
        files[0].contains_key(paths.place),
        !files[0].contains_key(paths.kept),
    ensures
        ({
            let end = files.last();
            let old_file = files[0][paths.place];
            let new_file = files[0][paths.new_file];
            match actions.last() {
                ReplaceAction::Finished(Ok(_)) => end.contains_key(paths.place)
                    && end[paths.place] == new_file,
                ReplaceAction::Finished(Err(_)) => {
                    &&& (end.contains_key(paths.place) && end[paths.place] == old_file) || (
                    end.contains_key(paths.kept) && end[paths.kept] == old_file)
                    &&& end.contains_key(paths.new_file) && end[paths.new_file] == new_file
                },
                _ => false,
            }
        }),
{
    let old_file = files[0][paths.place];
    let new_file = files[0][paths.new_file];
    assert(outcomes.len() > 0) by {
        if outcomes.len() == 0 {
            assert(actions.last() == actions[0]);
        }
    }
    assert(follows(actions[0], outcomes[0], actions[1]));
    if outcomes[0] is Err {
        lemma_run_ends(paths, actions, outcomes, files, 1);
    } else {
        assert(outcomes.len() > 1) by {
            if outcomes.len() == 1 {
                assert(actions.last() == actions[1]);
            }
        }
        assert(follows(actions[1], outcomes[1], actions[2]));
        assert(files[1] == moved(files[0], paths.place, paths.kept));
        assert(outcomes.len() > 2) by {
            if outcomes.len() == 2 {
                assert(actions.last() == actions[2]);
            }
        }
        assert(follows(actions[2], outcomes[2], actions[3]));
        lemma_run_ends(paths, actions, outcomes, files, 3);
    }
}

proof fn lemma_run_ends(
    paths: ReplacePaths,
    actions: Seq<ReplaceAction>,
    outcomes: Seq<Result<(), String>>,
    files: Seq<Map<Seq<Part>, Seq<u8>>>,
    at: int,
)
    requires
        is_run(paths, actions, outcomes, files),
        0 <= at < actions.len(),
        actions[at] is Finished,
    ensures
        actions.len() == at + 1,
{
    if at < outcomes.len() {
        assert(follows(actions[at], outcomes[at], actions[at + 1]));
    }
}

// What happens to a result that is being written ------------------------------

/// What is done to a result when its conversion ends.
#[derive(Debug, Clone, Copy, PartialEq, Eq, Structural)]
pub enum GuardAction {
    /// The result is to be removed.
    RemoveResult,
    /// The file that was there before is to be moved back.
    RestoreBackup,
    /// The file that was there before is to be removed.
    RemoveBackup,
}

/// What is done to a result when its conversion ends: one that is complete
/// replaces what was there, and any other leaves what was there as it was.
pub open spec fn guard_actions_of(keep: bool, has_backup: bool) -> Seq<GuardAction> {
    if keep {
        if has_backup {
            seq![GuardAction::RemoveBackup]
        } else {
            seq![]
        }
    } else if has_backup {
        seq![GuardAction::RemoveResult, GuardAction::RestoreBackup]
    } else {
        seq![GuardAction::RemoveResult]
    }
}

/// What is done to a result when its conversion ends.
pub fn guard_actions(keep: bool, has_backup: bool) -> (r: Vec<GuardAction>)
    ensures
        r@ == guard_actions_of(keep, has_backup),
{
    let mut r: Vec<GuardAction> = Vec::new();
    if keep {
        if has_backup {
            r.push(GuardAction::RemoveBackup);
        }
    } else {
        r.push(GuardAction::RemoveResult);
        if has_backup {
            r.push(GuardAction::RestoreBackup);
        }
    }
    assert(r@ =~= guard_actions_of(keep, has_backup));
    r
}

/// What the actions do to files, where all go well.
pub open spec fn guarded(
    files: Map<Seq<Part>, Seq<u8>>,
    result: Seq<Part>,
    backup: Seq<Part>,
    actions: Seq<GuardAction>,
) -> Map<Seq<Part>, Seq<u8>>
    decreases actions.len(),
{
    if actions.len() == 0 {
        files
    } else {
        let before = guarded(files, result, backup, actions.drop_last());
        match actions.last() {
            GuardAction::RemoveResult => before.remove(result),
            GuardAction::RestoreBackup => moved(before, backup, result),
            GuardAction::RemoveBackup => before.remove(backup),
        }
    }
}

/// A conversion that is not complete leaves the file that it would have replaced
/// as it was, whatever it has written.
pub proof fn a_failed_conversion_restores_the_file(
    original: Map<Seq<Part>, Seq<u8>>,
    result: Seq<Part>,
    backup: Seq<Part>,
    written: Seq<u8>,
)
    requires
        result != backup,
        original.contains_key(result),
        !original.contains_key(backup),
    ensures
        guarded(
            moved(original, result, backup).insert(result, written),
            result,
            backup,
            guard_actions_of(false, true),
        ) == original,
{
    let files = moved(original, result, backup).insert(result, written);
    let actions = guard_actions_of(false, true);
    assert(actions.drop_last() =~= seq![GuardAction::RemoveResult]);
    assert(actions.drop_last().drop_last() =~= seq![]);
    reveal_with_fuel(guarded, 3);
    assert(guarded(files, result, backup, actions) =~= original);
}

/// A conversion that is complete leaves its result, and nothing of the file that
/// it replaced.
pub proof fn a_complete_conversion_keeps_its_result(
    original: Map<Seq<Part>, Seq<u8>>,
    result: Seq<Part>,
    backup: Seq<Part>,
    written: Seq<u8>,
)
    requires
        result != backup,
        original.contains_key(result),
        !original.contains_key(backup),
    ensures
        guarded(
            moved(original, result, backup).insert(result, written),
            result,
            backup,
            guard_actions_of(true, true),
        ) == original.insert(result, written),
{
    let files = moved(original, result, backup).insert(result, written);
    let actions = guard_actions_of(true, true);
    assert(actions.drop_last() =~= seq![]);
    reveal_with_fuel(guarded, 2);
    assert(guarded(files, result, backup, actions) =~= original.insert(result, written));
}

/// A file that is kept beside another lies in the same folder, under a name that
/// starts with the prefix and the identifier; it has the same extension where that
/// is to be kept. Two identifiers make two names.
pub proof fn siblings_lie_in_the_same_folder(
    dir: Seq<Part>,
    name: Seq<u8>,
    prefix: Seq<char>,
    id: Seq<char>,
    other: Seq<char>,
    keep_extension: bool,
)
    ensures
        ({
            let path = dir.push(Part::Normal(name));
            let text = sibling_name(path, prefix, keep_extension, id);
            &&& folder_of(path) == dir
            &&& (prefix.push('-') + id).is_prefix_of(text)
            &&& !keep_extension ==> text == prefix.push('-') + id
            &&& keep_extension ==> match crate::path::name_extension(name) {
                Some(ext) => text == prefix.push('-') + id + seq!['.'] + lossy_text(ext),
                None => text == prefix.push('-') + id,
            }
            &&& id != other && id.len() == other.len() ==> text != sibling_name(
                path,
                prefix,
                keep_extension,
                other,
            )
        }),
{
    reveal_strlit("-");
    reveal_strlit(".");
    let path = dir.push(Part::Normal(name));
    crate::path::a_name_stands_in_its_directory(dir, name, name);
    let text = sibling_name(path, prefix, keep_extension, id);
    let second = sibling_name(path, prefix, keep_extension, other);
    let first = prefix.push('-') + id;
    assert(text.take(first.len() as int) =~= first);
    match crate::path::name_extension(name) {
        Some(ext) => if keep_extension {
            assert(text =~= prefix.push('-') + id + seq!['.'] + lossy_text(ext));
        } else {
            assert(text =~= first);
        },
        None => {
            assert(text =~= first);
        },
    }
    if id.len() == other.len() {
        let from = prefix.len() as int + 1;
        assert(text.subrange(from, from + id.len()) =~= id);
        assert(second.subrange(from, from + id.len()) =~= other);
    }
}

/// Where there was no file before, a result that is not kept is removed and one
/// that is kept stays as it was written.
pub proof fn a_new_result_is_kept_or_removed(
    original: Map<Seq<Part>, Seq<u8>>,
    result: Seq<Part>,
    backup: Seq<Part>,
    written: Seq<u8>,
)
    requires
        !original.contains_key(result),
    ensures
        guarded(
            original.insert(result, written),
            result,
            backup,
            guard_actions_of(false, false),
        ) == original,
        guarded(
            original.insert(result, written),
            result,
            backup,
            guard_actions_of(true, false),
        ) == original.insert(result, written),
{
    let files = original.insert(result, written);
    let one = guard_actions_of(false, false);
    assert(one.drop_last() =~= seq![]);
    assert(guarded(files, result, backup, seq![]) == files);
    assert(files.remove(result) =~= original);
}

/// What a replacement says where it fails holds the reason of the system, and
/// which of the two moves it was.
pub proof fn a_failed_replacement_gives_its_reason(
    e: String,
    after_preserving: ReplaceAction,
    after_installing: ReplaceAction,
)
    requires
        follows(ReplaceAction::Preserve, Err(e), after_preserving),
        follows(ReplaceAction::Install, Err(e), after_installing),
    ensures
        after_preserving matches ReplaceAction::Finished(Err(reason)) && e@.is_suffix_of(reason@),
        after_installing matches ReplaceAction::Restore(reason) && e@.is_suffix_of(reason@),
{
    let first = preserve_error(e@);
    let second = install_error(e@);
    assert(first.skip(first.len() - e@.len()) =~= e@);
    assert(second.skip(second.len() - e@.len()) =~= e@);
}

} // verus!
