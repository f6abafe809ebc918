//! Finding the place of a result: the directory, a name that nothing else has, a
//! question to the user, and a lock that keeps other instances off.

use vstd::prelude::*;
use crate::output::after_answer;
use crate::output::all_taken;
use crate::output::chosen_dir;
use crate::output::confirm_name;
use crate::output::distinct_entries;
use crate::output::extension_for;
use crate::output::has_windows_special;
use crate::output::is_chosen;
use crate::output::is_no_extension;
use crate::output::must_confirm;
use crate::output::not_a_windows_extension;
use crate::output::not_an_extension;
use crate::output::other_batch_collision;
use crate::output::output_directory;
use crate::output::output_extension;
use crate::output::plain_name;
use crate::output::preferred_path;
use crate::output::renaming_of;
use crate::output::reserve_output_path;
use crate::output::resolve_choice;
use crate::output::says_path;
use crate::output::structured_dir;
use crate::output::validate_output_extension;
use crate::output::KnownDirs;
use crate::output::Naming;
use crate::output::Reservations;
use crate::output::Resolution;
use crate::outside::lossy;
use crate::outside::lossy_text;
use crate::path::name_of;
use crate::path::opt_path;
use crate::path::plain;
use crate::path::stem_of;
use crate::path::FilePath;
use crate::path::Part;
use crate::path::PathView;
use crate::settings::NameConflict;
use crate::settings::Settings;
use crate::types::OverwriteChoice;

verus! {

/// What the place of a result depends on, apart from the input.
pub struct OutputResolutionContext {
    pub format: String,
    pub settings: Settings,
    /// The directory that folders are counted from, where they are kept.
    pub base_dir: Option<FilePath>,
    pub dirs: KnownDirs,
    pub batch_order: u64,
    /// Whether names are those of Windows.
    pub windows: bool,
}

/// Where the search for a place is.
#[derive(Debug, Clone, Copy, PartialEq, Eq, Structural)]
pub enum ResolveStep {
    /// The directory is made.
    MakingDir,
    /// The user is asked.
    Asking,
    /// The place is locked.
    Locking,
    /// It waits until another batch has left the place.
    Waiting,
    Ended,
}

/// The search for the place of a result.
#[derive(Debug)]
pub struct Resolver {
    pub input: FilePath,
    pub stem: String,
    pub ext: String,
    pub name_conflict: NameConflict,
    pub batch_order: u64,
    pub windows: bool,
    pub dir: FilePath,
    /// The place, once there is one.
    pub candidate: FilePath,
    /// Whether another batch of the session has taken that place.
    pub session_collision: bool,
    pub step: ResolveStep,
}

/// What the search for a place is.
pub struct ResolverView {
    pub input: PathView,
    pub stem: Seq<char>,
    pub ext: Seq<char>,
    pub name_conflict: NameConflict,
    pub batch_order: u64,
    pub windows: bool,
    pub dir: PathView,
    pub candidate: PathView,
    pub session_collision: bool,
    pub step: ResolveStep,
}

impl View for Resolver {
    type V = ResolverView;

    open spec fn view(&self) -> ResolverView {
        ResolverView {
            input: self.input.spelled(),
            stem: self.stem@,
            ext: self.ext@,
            name_conflict: self.name_conflict,
            batch_order: self.batch_order,
            windows: self.windows,
            dir: self.dir.spelled(),
            candidate: self.candidate.spelled(),
            session_collision: self.session_collision,
            step: self.step,
        }
    }
}

/// What is to be done next.
#[derive(Debug)]
pub enum ResolveAction {
    /// The user is to be asked about a file of that name.
    Ask(String),
    /// That place is to be locked.
    Lock(FilePath),
    /// A moment is to be waited.
    Wait,
    /// That is the place.
    Found(FilePath),
    /// The place is in use elsewhere: the search is to start anew.
    Busy,
    /// The result is not wanted.
    LeftOut,
    /// The session is to be stopped.
    StopSession,
    Fail(String),
}

/// What an action is.
pub enum ResolveActionView {
    Ask(Seq<char>),
    Lock(PathView),
    Wait,
    Found(PathView),
    Busy,
    LeftOut,
    StopSession,
    Fail(Seq<char>),
}

impl View for ResolveAction {
    type V = ResolveActionView;

    open spec fn view(&self) -> ResolveActionView {
        match self {
            ResolveAction::Ask(name) => ResolveActionView::Ask(name@),
            ResolveAction::Lock(path) => ResolveActionView::Lock(path.spelled()),
            ResolveAction::Wait => ResolveActionView::Wait,
            ResolveAction::Found(path) => ResolveActionView::Found(path.spelled()),
            ResolveAction::Busy => ResolveActionView::Busy,
            ResolveAction::LeftOut => ResolveActionView::LeftOut,
            ResolveAction::StopSession => ResolveActionView::StopSession,
            ResolveAction::Fail(e) => ResolveActionView::Fail(e@),
        }
    }
}

/// The error of a result that is not made as the session is being stopped.
pub open spec fn stopped_text() -> Seq<char> {
    "__CANCELLED__"@
}

/// The error where the numbers for a name have run out.
pub open spec fn no_name_text() -> Seq<char> {
    "no free output name"@
}

/// Why an extension cannot be used.
pub open spec fn extension_error(ext: Seq<char>, windows: bool) -> Option<Seq<char>> {
    if is_no_extension(ext) {
        Some(not_an_extension())
    } else if windows && has_windows_special(ext) {
        Some(not_a_windows_extension())
    } else {
        None
    }
}

/// The start of a search.
pub open spec fn begun_search(
    input: PathView,
    stem: Seq<char>,
    context: OutputResolutionContext,
    dir: PathView,
) -> ResolverView {
    ResolverView {
        input,
        stem,
        ext: extension_for(context.format@),
        name_conflict: context.settings@.name_conflict,
        batch_order: context.batch_order,
        windows: context.windows,
        dir,
        candidate: plain(seq![]),
        session_collision: false,
        step: ResolveStep::MakingDir,
    }
}

/// A search starts with the directory that the settings ask for, or fails for want
/// of one.
pub open spec fn starts_search(
    r: Result<Resolver, String>,
    input: PathView,
    stem: Seq<char>,
    context: OutputResolutionContext,
) -> bool {
    match (r, chosen_dir(context.settings@, input.parts, context.dirs, context.windows)) {
        (Ok(search), Ok(dir)) => search@ == begun_search(
            input,
            stem,
            context,
            structured_dir(context.settings@, input.parts, opt_path(context.base_dir), dir),
        ),
        (Err(e), Err(reason)) => e@ == reason,
        _ => false,
    }
}

/// Starts the search for the place of a result with that name; the directory
/// `dir` of the search is to be made first.
pub fn resolve_output_path_for_stem(
    input: &FilePath,
    stem: &str,
    context: &OutputResolutionContext,
) -> (r: Result<Resolver, String>)
    ensures
        starts_search(r, input.spelled(), stem@, *context),
{
    match output_directory(
        &context.settings,
        input,
        &context.base_dir,
        &context.dirs,
        context.windows,
    ) {
        Err(e) => Err(e),
        Ok(dir) => Ok(
            Resolver {
                input: input.clone(),
                stem: stem.to_owned(),
                ext: output_extension(context.format.as_str()),
                name_conflict: context.settings.name_conflict,
                batch_order: context.batch_order,
                windows: context.windows,
                dir,
                candidate: FilePath::empty(),
                session_collision: false,
                step: ResolveStep::MakingDir,
            },
        ),
    }
}

/// Starts the search for the place of a result named like the input.
pub fn resolve_output_path(input: &FilePath, context: &OutputResolutionContext) -> (r: Result<
    Resolver,
    String,
>)
    ensures
        match stem_of(input@) {
            Some(stem) => starts_search(r, input.spelled(), lossy_text(stem), *context),
            None => r matches Err(e) && e@ == "invalid filename"@,
        },
{
    match input.file_stem() {
        None => Err("invalid filename".to_owned()),
        Some(stem) => {
            let name: String = lossy(&stem);
            resolve_output_path_for_stem(input, name.as_str(), context)
        },
    }
}

pub open spec fn naming_of(v: ResolverView) -> Naming {
    Naming { dir: v.dir.parts, stem: v.stem, ext: v.ext }
}

/// The name that the user is asked about.
pub open spec fn asked_name(v: ResolverView) -> Seq<char> {
    match name_of(v.candidate.parts) {
        Some(name) => lossy_text(name),
        None => plain_name(v.stem, v.ext),
    }
}

/// The user is asked, or the place is locked, from whether it exists.
pub open spec fn asks_or_locks(
    v: ResolverView,
    there: bool,
    after: ResolverView,
    action: ResolveActionView,
) -> bool {
    if v.session_collision || (there && v.name_conflict == NameConflict::ConfirmDialog) {
        after == (ResolverView { step: ResolveStep::Asking, ..v }) && action
            == ResolveActionView::Ask(asked_name(v))
    } else {
        after == (ResolverView { step: ResolveStep::Locking, ..v }) && action
            == ResolveActionView::Lock(v.candidate)
    }
}

/// What follows once the directory is made: a place is taken that no other result
/// has, and the user is asked where that is needed.
pub open spec fn takes_place<E: Fn(&FilePath) -> bool>(
    v: ResolverView,
    reserved: Map<Seq<Part>, u64>,
    exists_file: E,
    after: ResolverView,
    reserved_after: Map<Seq<Part>, u64>,
    action: ResolveActionView,
) -> bool {
    let to = naming_of(v);
    let preferred = preferred_path(reserved, v.input.parts, to, v.name_conflict, v.batch_order);
    let failed = ResolverView { step: ResolveStep::Ended, ..v };
    match extension_error(v.ext, v.windows) {
        Some(e) => after == failed && action == ResolveActionView::Fail(e) && reserved_after
            == reserved,
        None => if action is Fail {
            &&& after == failed
            &&& action == ResolveActionView::Fail(no_name_text())
            &&& reserved_after == reserved
            &&& preferred is None || (v.name_conflict == NameConflict::AutoRename && says_path(
                exists_file,
                preferred->0,
                true,
            ) && all_taken(reserved, exists_file, renaming_of(preferred->0, to)))
        } else {
            let path = after.candidate;
            let placed = ResolverView {
                candidate: path,
                session_collision: other_batch_collision(reserved, to, v.batch_order)
                    && v.name_conflict != NameConflict::AutoRename,
                ..v
            };
            &&& path == plain(path.parts)
            &&& preferred is Some
            &&& is_chosen(reserved, exists_file, preferred->0, to, v.name_conflict, path.parts)
            &&& reserved_after == (if reserved.contains_key(path.parts) {
                reserved
            } else {
                reserved.insert(path.parts, v.batch_order)
            })
            &&& exists|there: bool|
                #[trigger] says_path(exists_file, path.parts, there) && asks_or_locks(
                    placed,
                    there,
                    after,
                    action,
                )
        },
    }
}

/// What follows the answer of the user.
pub open spec fn follows_answer<E: Fn(&FilePath) -> bool>(
    v: ResolverView,
    choice: OverwriteChoice,
    reserved: Map<Seq<Part>, u64>,
    exists_file: E,
    after: ResolverView,
    reserved_after: Map<Seq<Part>, u64>,
    action: ResolveActionView,
) -> bool {
    let to = naming_of(v);
    let kept = after_answer(reserved, v.candidate.parts, v.session_collision, choice);
    let renames = NameConflict::AutoRename;
    let preferred = preferred_path(kept, v.input.parts, to, renames, v.batch_order);
    let ended = ResolverView { step: ResolveStep::Ended, ..v };
    match choice {
        OverwriteChoice::Overwrite => {
            &&& after == (ResolverView { step: ResolveStep::Locking, ..v })
            &&& action == ResolveActionView::Lock(v.candidate)
            &&& reserved_after == kept
        },
        OverwriteChoice::Skip => after == ended && action is LeftOut && reserved_after == kept,
        OverwriteChoice::CancelAll => after == ended && action is StopSession && reserved_after
            == kept,
        OverwriteChoice::Rename => if action is Fail {
            &&& after == ended
            &&& action == ResolveActionView::Fail(no_name_text())
            &&& reserved_after == kept
            &&& preferred is None || all_taken(kept, exists_file, renaming_of(preferred->0, to))
        } else {
            let path = after.candidate;
            &&& path == plain(path.parts)
            &&& preferred is Some
            &&& is_chosen(kept, exists_file, preferred->0, to, renames, path.parts)
            &&& reserved_after == (if kept.contains_key(path.parts) {
                kept
            } else {
                kept.insert(path.parts, v.batch_order)
            })
            &&& after == (ResolverView { step: ResolveStep::Locking, candidate: path, ..v })
            &&& action == ResolveActionView::Lock(path)
        },
    }
}

/// What came of an attempt to lock a place.
#[derive(Debug)]
pub enum LockResult {
    Held,
    /// Another instance has the place.
    Busy,
    Failed(String),
}

/// What follows an attempt to lock a place: one that another batch of the session
/// has becomes free in time; any other is given up.
pub open spec fn after_lock(v: ResolverView, result: LockResult) -> (ResolverView, ResolveActionView) {
    let ended = ResolverView { step: ResolveStep::Ended, ..v };
    match result {
        LockResult::Held => (ended, ResolveActionView::Found(v.candidate)),
        LockResult::Busy => if v.session_collision {
            (ResolverView { step: ResolveStep::Waiting, ..v }, ResolveActionView::Wait)
        } else {
            (ended, ResolveActionView::Busy)
        },
        LockResult::Failed(e) => (ended, ResolveActionView::Fail(e@)),
    }
}

impl Resolver {
    fn fail(&mut self, error: String) -> (r: ResolveAction)
        ensures
            final(self)@ == (ResolverView { step: ResolveStep::Ended, ..old(self)@ }),
            r@ == ResolveActionView::Fail(error@),
    {
        self.step = ResolveStep::Ended;
        ResolveAction::Fail(error)
    }

    /// The directory is made; `resolved` is what it leads to, where that is known.
    pub fn dir_made<E: Fn(&FilePath) -> bool>(
        &mut self,
        resolved: Option<FilePath>,
        reservations: &mut Reservations,
        exists_file: &E,
    ) -> (r: ResolveAction)
        requires
            old(self).step == ResolveStep::MakingDir,
            old(self).input@.len() < usize::MAX,
            distinct_entries(old(reservations).entries@),
            forall|p: FilePath| exists_file.requires((&p,)),
        ensures
            distinct_entries(final(reservations).entries@),
            takes_place(
                ResolverView {
                    dir: match resolved {
                        Some(dir) => dir.spelled(),
                        None => old(self)@.dir,
                    },
                    ..old(self)@
                },
                old(reservations)@,
                *exists_file,
                final(self)@,
                final(reservations)@,
                r@,
            ),
    {
        match resolved {
            Some(dir) => {
                self.dir = dir;
            },
            None => {},
        }
        match validate_output_extension(self.ext.as_str(), self.windows) {
            Err(e) => {
                return self.fail(e);
            },
            Ok(_) => {},
        }
        match reserve_output_path(
            &self.input,
            &self.dir,
            self.stem.as_str(),
            self.ext.as_str(),
            self.name_conflict,
            reservations,
            self.batch_order,
            exists_file,
        ) {
            None => self.fail("no free output name".to_owned()),
            Some((path, collision)) => {
                self.candidate = path;
                self.session_collision = collision;
                let there: bool = exists_file(&self.candidate);
                assert(self.candidate.spelled() =~= plain(self.candidate@));
                assert(says_path(*exists_file, self.candidate@, there));
                let ghost placed = self@;
                let action: ResolveAction = if must_confirm(
                    self.session_collision,
                    there,
                    self.name_conflict,
                ) {
                    self.step = ResolveStep::Asking;
                    ResolveAction::Ask(
                        confirm_name(&self.candidate, self.stem.as_str(), self.ext.as_str()),
                    )
                } else {
                    self.step = ResolveStep::Locking;
                    ResolveAction::Lock(self.candidate.clone())
                };
                assert(says_path(*exists_file, self@.candidate.parts, there));
                assert(asks_or_locks(placed, there, self@, action@));
                action
            },
        }
    }

    /// The directory could not be made.
    pub fn dir_failed(&mut self, error: String) -> (r: ResolveAction)
        requires
            old(self).step == ResolveStep::MakingDir,
        ensures
            final(self)@ == (ResolverView { step: ResolveStep::Ended, ..old(self)@ }),
            r@ == ResolveActionView::Fail(error@),
    {
        self.fail(error)
    }

    /// The user has answered.
    pub fn answered<E: Fn(&FilePath) -> bool>(
        &mut self,
        choice: OverwriteChoice,
        reservations: &mut Reservations,
        exists_file: &E,
    ) -> (r: ResolveAction)
        requires
            old(self).step == ResolveStep::Asking,
            old(self).input@.len() < usize::MAX,
            distinct_entries(old(reservations).entries@),
            forall|p: FilePath| exists_file.requires((&p,)),
        ensures
            distinct_entries(final(reservations).entries@),
            follows_answer(
                old(self)@,
                choice,
                old(reservations)@,
                *exists_file,
                final(self)@,
                final(reservations)@,
                r@,
            ),
    {
        match resolve_choice(
            choice,
            self.session_collision,
            self.candidate.clone(),
            &self.input,
            &self.dir,
            self.stem.as_str(),
            self.ext.as_str(),
            reservations,
            self.batch_order,
            exists_file,
        ) {
            Resolution::Use(path) => {
                self.candidate = path;
                self.step = ResolveStep::Locking;
                ResolveAction::Lock(self.candidate.clone())
            },
            Resolution::Skip => {
                self.step = ResolveStep::Ended;
                ResolveAction::LeftOut
            },
            Resolution::Cancel => {
                self.step = ResolveStep::Ended;
                ResolveAction::StopSession
            },
            Resolution::Exhausted => self.fail("no free output name".to_owned()),
        }
    }

    /// The user could not be asked: the session is being stopped, or nobody asks
    /// any more.
    pub fn not_asked(&mut self, cancelled: bool) -> (r: ResolveAction)
        requires
            old(self).step == ResolveStep::Asking,
        ensures
            final(self)@ == (ResolverView { step: ResolveStep::Ended, ..old(self)@ }),
            r@ == ResolveActionView::Fail(
                if cancelled {
                    stopped_text()
                } else {
                    "overwrite dialog closed"@
                },
            ),
    {
        if cancelled {
            self.fail("__CANCELLED__".to_owned())
        } else {
            self.fail("overwrite dialog closed".to_owned())
        }
    }

    /// The place was to be locked.
    pub fn lock_tried(&mut self, result: LockResult) -> (r: ResolveAction)
        requires
            old(self).step == ResolveStep::Locking,
        ensures
            (final(self)@, r@) == after_lock(old(self)@, result),
    {
        match result {
            LockResult::Held => {
                self.step = ResolveStep::Ended;
                ResolveAction::Found(self.candidate.clone())
            },
            LockResult::Failed(e) => self.fail(e),
            LockResult::Busy => {
                if self.session_collision {
                    self.step = ResolveStep::Waiting;
                    ResolveAction::Wait
                } else {
                    self.step = ResolveStep::Ended;
                    ResolveAction::Busy
                }
            },
        }
    }

    /// A moment was waited for a place.
    pub fn waited(&mut self, cancelled: bool) -> (r: ResolveAction)
        requires
            old(self).step == ResolveStep::Waiting,
        ensures
            if cancelled {
                final(self)@ == (ResolverView { step: ResolveStep::Ended, ..old(self)@ }) && r@
                    == ResolveActionView::Fail(stopped_text())
            } else {
                final(self)@ == (ResolverView { step: ResolveStep::Locking, ..old(self)@ }) && r@
                    == ResolveActionView::Lock(old(self)@.candidate)
            },
    {
        if cancelled {
            self.fail("__CANCELLED__".to_owned())
        } else {
            self.step = ResolveStep::Locking;
            ResolveAction::Lock(self.candidate.clone())
        }
    }
}

/// A place that is locked without a question is one that no other batch has, and
/// does not exist where the settings ask before they overwrite: the file that was
/// asked about is the very one that is locked.
pub proof fn nothing_is_overwritten_unasked<E: Fn(&FilePath) -> bool>(
    v: ResolverView,
    reserved: Map<Seq<Part>, u64>,
    exists_file: E,
    after: ResolverView,
    reserved_after: Map<Seq<Part>, u64>,
    action: ResolveActionView,
)
    requires
        takes_place(v, reserved, exists_file, after, reserved_after, action),
        action is Lock,
        v.name_conflict != NameConflict::ForceOverwrite,
    ensures
        !reserved.contains_key(after.candidate.parts),
        says_path(exists_file, after.candidate.parts, false),
        action == ResolveActionView::Lock(plain(after.candidate.parts)),
{
    let to = naming_of(v);
    crate::output::a_fresh_path_was_free(
        reserved,
        exists_file,
        v.input.parts,
        to,
        v.name_conflict,
        v.batch_order,
        after.candidate.parts,
    );
    if v.name_conflict == NameConflict::AutoRename {
        crate::output::a_renamed_result_overwrites_nothing(
            reserved,
            exists_file,
            preferred_path(reserved, v.input.parts, to, v.name_conflict, v.batch_order)->0,
            to,
            after.candidate.parts,
        );
    }
}

/// A result that is left out gives its place back, unless another batch has it.
pub proof fn a_place_left_out_is_free_again<E: Fn(&FilePath) -> bool>(
    v: ResolverView,
    reserved: Map<Seq<Part>, u64>,
    exists_file: E,
    after: ResolverView,
    reserved_after: Map<Seq<Part>, u64>,
    action: ResolveActionView,
)
    requires
        follows_answer(
            v,
            OverwriteChoice::Skip,
            reserved,
            exists_file,
            after,
            reserved_after,
            action,
        ),
    ensures
        if v.session_collision {
            reserved_after == reserved
        } else {
            reserved_after == reserved.remove(v.candidate.parts)
        },
{
}

/// The user is asked about a file that is there where the settings say so, and
/// about a place of another batch in any case that does not rename; where results
/// are renamed nobody is asked, and where they overwrite only about other batches.
pub proof fn the_user_is_asked_where_that_is_wanted<E: Fn(&FilePath) -> bool>(
    v: ResolverView,
    reserved: Map<Seq<Part>, u64>,
    exists_file: E,
    after: ResolverView,
    reserved_after: Map<Seq<Part>, u64>,
    action: ResolveActionView,
)
    requires
        takes_place(v, reserved, exists_file, after, reserved_after, action),
        !(action is Fail),
    ensures
        ({
            let taken = after.candidate.parts;
            &&& action is Ask || action == ResolveActionView::Lock(after.candidate)
            &&& v.name_conflict == NameConflict::ConfirmDialog && !says_path(
                exists_file,
                taken,
                false,
            ) ==> action is Ask
            &&& after.session_collision ==> action is Ask
            &&& v.name_conflict == NameConflict::AutoRename ==> action is Lock
            &&& v.name_conflict == NameConflict::ForceOverwrite && !after.session_collision
                ==> action is Lock
            &&& !after.session_collision && !says_path(exists_file, taken, true) ==> action is Lock
            &&& reserved_after.contains_key(taken)
            &&& forall|p: Seq<Part>|
                reserved.contains_key(p) ==> #[trigger] reserved_after.contains_key(p)
                    && reserved_after[p] == reserved[p]
        }),
{
    let there = choose|there: bool|
        #[trigger] says_path(exists_file, after.candidate.parts, there) && asks_or_locks(
            ResolverView {
                candidate: after.candidate,
                session_collision: other_batch_collision(
                    reserved,
                    naming_of(v),
                    v.batch_order,
                ) && v.name_conflict != NameConflict::AutoRename,
                ..v
            },
            there,
            after,
            action,
        );
}

/// The search does what the user answers: it takes the very place that was asked
/// about, or one that no file has, or leaves the result out, or stops the session.
pub proof fn the_answer_is_followed<E: Fn(&FilePath) -> bool>(
    v: ResolverView,
    choice: OverwriteChoice,
    reserved: Map<Seq<Part>, u64>,
    exists_file: E,
    after: ResolverView,
    reserved_after: Map<Seq<Part>, u64>,
    action: ResolveActionView,
)
    requires
        follows_answer(v, choice, reserved, exists_file, after, reserved_after, action),
    ensures
        choice == OverwriteChoice::Overwrite ==> action == ResolveActionView::Lock(v.candidate)
            && reserved_after == reserved,
        choice == OverwriteChoice::Skip ==> action is LeftOut,
        choice == OverwriteChoice::CancelAll ==> action is StopSession,
        choice == OverwriteChoice::Rename ==> action is Fail || (action == ResolveActionView::Lock(
            after.candidate,
        ) && says_path(exists_file, after.candidate.parts, false) && reserved_after.contains_key(
            after.candidate.parts,
        )),
{
}

/// A place that could be locked is the place; one that another instance has is
/// waited for where it is another batch's, and looked for anew where it is not.
pub proof fn a_locked_place_is_found(v: ResolverView, e: String)
    ensures
        after_lock(v, LockResult::Held).1 == ResolveActionView::Found(v.candidate),
        v.session_collision ==> after_lock(v, LockResult::Busy).1 is Wait,
        !v.session_collision ==> after_lock(v, LockResult::Busy).1 is Busy,
        after_lock(v, LockResult::Failed(e)).1 == ResolveActionView::Fail(e@),
{
}

/// A search looks for what it was begun with: the stem it was given, the extension
/// of the format, the directory of the settings, and their way with names that are
/// taken.
pub proof fn a_search_is_for_what_was_asked(
    input: PathView,
    stem: Seq<char>,
    context: OutputResolutionContext,
    dir: PathView,
)
    ensures
        ({
            let search = begun_search(input, stem, context, dir);
            &&& search.input == input && search.stem == stem && search.dir == dir
            &&& context.format@ == "aac"@ || context.format@ == "alac"@ ==> search.ext == "m4a"@
            &&& context.format@ != "aac"@ && context.format@ != "alac"@ ==> search.ext
                == context.format@
            &&& search.name_conflict == context.settings@.name_conflict
            &&& search.batch_order == context.batch_order && search.windows == context.windows
            &&& search.step == ResolveStep::MakingDir
        }),
{
}

/// An extension that is none is refused, on Windows also one that names there
/// cannot have, and no other.
pub proof fn only_real_extensions_are_taken(ext: Seq<char>, windows: bool)
    ensures
        ext.len() == 0 || ext.contains('/') || ext.contains('\0') ==> extension_error(ext, windows)
            is Some,
        ext.len() > 0 && !ext.contains('/') && !ext.contains('\0') && !windows ==> extension_error(
            ext,
            windows,
        ) is None,
        windows && (ext.contains(':') || ext.contains('*') || ext.contains('?') || ext.contains('|'))
            ==> extension_error(ext, windows) is Some,
{
    if ext.contains(':') {
        let i = choose|i: int| 0 <= i < ext.len() && ext[i] == ':';
        crate::output::refused_extensions_are_no_extensions(ext, i);
    } else if ext.contains('*') {
        let i = choose|i: int| 0 <= i < ext.len() && ext[i] == '*';
        crate::output::refused_extensions_are_no_extensions(ext, i);
    } else if ext.contains('?') {
        let i = choose|i: int| 0 <= i < ext.len() && ext[i] == '?';
        crate::output::refused_extensions_are_no_extensions(ext, i);
    } else if ext.contains('|') {
        let i = choose|i: int| 0 <= i < ext.len() && ext[i] == '|';
        crate::output::refused_extensions_are_no_extensions(ext, i);
    }
}

} // verus!
