use oto::output::{
    confirm_name, lock_owner, lock_owner_is_running, lock_step, must_confirm, new_dialog_id,
    output_directory,
    output_extension, output_lock_path, parse_choice, reserve_output_path, resolve_choice,
    respond_overwrite, validate_output_extension, KnownDirs, LockAttempt, LockStep, Reservations,
    Resolution,
};
use oto::path::{Component, FilePath};
use oto::resolve::{
    resolve_output_path, resolve_output_path_for_stem, LockResult, OutputResolutionContext,
    ResolveAction, Resolver,
};
use oto::settings::{NameConflict, OutputDest, Settings};
use oto::types::OverwriteChoice;

fn path(s: &str) -> FilePath {
    FilePath::parse(s)
}

fn name(p: &FilePath) -> String {
    String::from_utf8(p.file_name().unwrap()).unwrap()
}

fn reserve(
    input: &str,
    conflict: NameConflict,
    reservations: &mut Reservations,
    order: u64,
    existing: &[&str],
) -> (FilePath, bool) {
    let there = |p: &FilePath| existing.contains(&p.to_text().as_str());
    reserve_output_path(
        &path(input),
        &path("/out"),
        "song",
        "mp3",
        conflict,
        reservations,
        order,
        &there,
    )
    .unwrap()
}

#[test]
fn same_job_collision_uses_parent_folder_name() {
    let mut reservations = Reservations::new();
    let auto = Settings::default().name_conflict;
    let first = reserve("/library/Album A/song.flac", auto, &mut reservations, 1, &[]);
    let second = reserve("/library/Album B/song.flac", auto, &mut reservations, 1, &[]);
    assert_eq!(name(&first.0), "song.mp3");
    assert_eq!(name(&second.0), "song(Album B).mp3");
}

#[test]
fn same_leaf_folder_name_adds_higher_ancestor() {
    let mut reservations = Reservations::new();
    let auto = Settings::default().name_conflict;
    reserve("/library/Original/song.flac", auto, &mut reservations, 1, &[]);
    let second = reserve("/library/Artist 1/Disc/song.flac", auto, &mut reservations, 1, &[]);
    let third = reserve("/library/Artist 2/Disc/song.flac", auto, &mut reservations, 1, &[]);
    assert_eq!(name(&second.0), "song(Disc).mp3");
    assert_eq!(name(&third.0), "song(Disc-Artist 2).mp3");
}

#[test]
fn existing_file_uses_auto_rename_without_reusing_reservation() {
    let mut reservations = Reservations::new();
    let output = reserve(
        "/library/Album/song.flac",
        Settings::default().name_conflict,
        &mut reservations,
        1,
        &["/out/song.mp3"],
    );
    assert_eq!(name(&output.0), "song_1.mp3");
}

#[test]
fn later_force_overwrite_batch_reports_a_session_collision() {
    let mut reservations = Reservations::new();
    let force = NameConflict::ForceOverwrite;
    let first = reserve("/library/song.flac", force, &mut reservations, 1, &[]);
    let second = reserve("/library/song.wav", force, &mut reservations, 2, &[]);
    assert_eq!(first.0, second.0);
    assert!(!first.1);
    assert!(second.1);
}

#[test]
fn later_auto_rename_batch_reserves_a_distinct_path_without_prompting() {
    let mut reservations = Reservations::new();
    let auto = Settings::default().name_conflict;
    reserve("/library/song.flac", auto, &mut reservations, 1, &[]);
    let second = reserve("/library/song.wav", auto, &mut reservations, 2, &[]);
    assert_ne!(name(&second.0), "song.mp3");
    assert_eq!(name(&second.0), "song(library).mp3");
    assert!(!second.1);
}

#[test]
fn numbers_come_last() {
    let mut reservations = Reservations::new();
    let auto = NameConflict::AutoRename;
    reserve("/song.flac", auto, &mut reservations, 1, &[]);
    let second = reserve("/song.wav", auto, &mut reservations, 1, &[]);
    let third = reserve("/song.aac", auto, &mut reservations, 1, &["/out/song_1.mp3"]);
    assert_eq!(name(&second.0), "song_1.mp3");
    assert_eq!(name(&third.0), "song_2.mp3");
    assert_eq!(reservations.owner(&path("/out/song.mp3")), Some(1));
    assert_eq!(reservations.owner(&path("/out/other.mp3")), None);
}

#[test]
fn a_rename_overwrites_no_file() {
    let mut reservations = Reservations::new();
    let existing = ["/out/song.mp3", "/out/song_1.mp3"];
    let chosen = reserve(
        "/library/song.flac",
        NameConflict::AutoRename,
        &mut reservations,
        1,
        &existing,
    );
    assert_eq!(chosen.0.to_text(), "/out/song_2.mp3");
}

#[test]
fn output_path_lock_excludes_second_instance_until_released() {
    assert_eq!(lock_step(0, LockAttempt::Created), LockStep::Held);
    assert_eq!(lock_step(0, LockAttempt::Exists(true)), LockStep::Busy);
    assert_eq!(lock_step(0, LockAttempt::Exists(false)), LockStep::RemoveAndRetry);
    assert_eq!(lock_step(1, LockAttempt::Exists(false)), LockStep::RemoveAndGiveUp);
    assert_eq!(lock_step(1, LockAttempt::Failed), LockStep::Failed);
}

#[test]
fn the_owner_of_a_lock_is_read_from_it() {
    assert_eq!(lock_owner(" 4711\n"), Some(4711));
    assert_eq!(lock_owner("nobody"), None);
    let running = |pid: u32| pid == 4711;
    assert!(lock_owner_is_running(Some("4711".to_string()), running));
    assert!(!lock_owner_is_running(Some("4712".to_string()), running));
    assert!(!lock_owner_is_running(None, running));
}

#[test]
fn a_lock_lies_beside_the_result() {
    let lock = output_lock_path(&path("/out/a"));
    assert_eq!(lock.to_text(), "/out/.oto-output-lock-af63dc4c8601ec8c");
    assert_eq!(
        output_lock_path(&path("/out/")).to_text(),
        "/.oto-output-lock-".to_string() + &fnv("out")
    );
}

fn fnv(s: &str) -> String {
    let mut hash = 0xcbf29ce484222325u64;
    for byte in s.bytes() {
        hash ^= u64::from(byte);
        hash = hash.wrapping_mul(0x100000001b3);
    }
    format!("{hash:016x}")
}

#[test]
fn output_extension_keeps_unicode_but_rejects_path_separator() {
    assert!(validate_output_extension("音楽🎵", false).is_ok());
    assert!(validate_output_extension("../mp3", false).is_err());
    assert!(validate_output_extension("", false).is_err());
    assert!(validate_output_extension("音楽🎵", true).is_ok());
}

#[test]
fn extensions_that_windows_does_not_take() {
    assert!(validate_output_extension("a?b", false).is_ok());
    assert_eq!(
        validate_output_extension("a?b", true).unwrap_err(),
        "output format contains characters unsupported by Windows filenames"
    );
    assert_eq!(
        validate_output_extension("a\0b", true).unwrap_err(),
        "output format must be a single non-empty file extension"
    );
    assert_eq!(output_extension("alac"), "m4a");
    assert_eq!(output_extension("aac"), "m4a");
    assert_eq!(output_extension("flac"), "flac");
}

fn no_dirs() -> KnownDirs {
    KnownDirs { desktop: None, downloads: None }
}

#[test]
fn directories_follow_the_settings() {
    let mut settings = Settings::default();
    let input = path("/music/album/song.flac");
    let dir = output_directory(&settings, &input, &None, &no_dirs(), false).unwrap();
    assert_eq!(dir, path("/music/album"));
    assert_eq!(
        output_directory(&settings, &path("/"), &None, &no_dirs(), false).unwrap_err(),
        "no parent dir"
    );
    settings.output_dest = OutputDest::Desktop;
    assert_eq!(
        output_directory(&settings, &input, &None, &no_dirs(), false).unwrap_err(),
        "no desktop dir"
    );
    settings.output_dest = OutputDest::Downloads;
    assert_eq!(
        output_directory(&settings, &input, &None, &no_dirs(), false).unwrap_err(),
        "no downloads dir"
    );
    settings.output_dest = OutputDest::Custom;
    assert_eq!(
        output_directory(&settings, &input, &None, &no_dirs(), false).unwrap_err(),
        "custom path not set"
    );
    settings.custom_output_path = Some("/out".to_string());
    settings.preserve_folder_structure = true;
    assert_eq!(
        output_directory(&settings, &input, &Some(path("/music")), &no_dirs(), false).unwrap(),
        path("/out/album")
    );
    assert_eq!(
        output_directory(&settings, &input, &Some(path("/other")), &no_dirs(), false).unwrap(),
        path("/out")
    );
    settings.custom_output_path = Some("D:/Music".to_string());
    assert_eq!(
        output_directory(&settings, &input, &None, &no_dirs(), true).unwrap().components,
        [
            Component::Prefix(b"D:".to_vec()),
            Component::Root,
            Component::Normal(b"Music".to_vec()),
        ]
    );
    assert_eq!(
        output_directory(&settings, &input, &None, &no_dirs(), false).unwrap().components,
        [Component::Normal(b"D:".to_vec()), Component::Normal(b"Music".to_vec())]
    );
}

#[test]
fn directories_are_written_as_they_were_named() {
    let mut settings = Settings::default();
    let input = path("/music//album/./song.flac");
    let dirs = KnownDirs { desktop: Some(path("/home//me/Desktop")), downloads: Some(path("/d/")) };
    let written = |settings: &Settings, base: &Option<FilePath>| {
        output_directory(settings, &input, base, &dirs, false).unwrap().to_text()
    };
    assert_eq!(written(&settings, &None), "/music/album");
    settings.output_dest = OutputDest::Desktop;
    assert_eq!(written(&settings, &None), "/home//me/Desktop");
    settings.output_dest = OutputDest::Downloads;
    assert_eq!(written(&settings, &None), "/d/");
    settings.output_dest = OutputDest::Custom;
    settings.custom_output_path = Some("/out//".to_string());
    assert_eq!(written(&settings, &None), "/out//");
    settings.preserve_folder_structure = true;
    assert_eq!(written(&settings, &Some(path("/music"))), "/out/album");
    assert_eq!(written(&settings, &Some(path("/other"))), "/out//");
}

#[test]
fn answers_are_told_apart() {
    assert_eq!(parse_choice("overwrite"), OverwriteChoice::Overwrite);
    assert_eq!(parse_choice("rename"), OverwriteChoice::Rename);
    assert_eq!(parse_choice("skip"), OverwriteChoice::Skip);
    assert_eq!(parse_choice("?"), OverwriteChoice::CancelAll);
    let open = Some("one".to_string());
    assert_eq!(
        respond_overwrite(&open, &Some("one".to_string()), "skip"),
        Some(OverwriteChoice::Skip)
    );
    assert_eq!(respond_overwrite(&open, &Some("two".to_string()), "skip"), None);
    assert_eq!(respond_overwrite(&open, &None, "skip"), Some(OverwriteChoice::Skip));
    assert_eq!(respond_overwrite(&None, &None, "skip"), None);
    assert!(must_confirm(true, false, NameConflict::ForceOverwrite));
    assert!(must_confirm(false, true, NameConflict::ConfirmDialog));
    assert!(!must_confirm(false, true, NameConflict::AutoRename));
    assert_eq!(confirm_name(&path("/out/song.mp3"), "x", "y"), "song.mp3");
    assert_eq!(confirm_name(&path("/"), "x", "y"), "x.y");
}

#[test]
fn questions_have_names_of_their_own() {
    let id = new_dialog_id();
    assert_eq!(id.len(), 36);
    assert_eq!(id.split('-').count(), 5);
    assert_eq!(&id[14..15], "4");
    assert!("89ab".contains(&id[19..20]));
    assert_ne!(id, new_dialog_id());
}

#[test]
fn a_skipped_place_is_given_back() {
    let mut reservations = Reservations::new();
    let none = |_: &FilePath| false;
    let candidate = path("/out/song.mp3");
    reservations.take_path(candidate.clone(), 1);
    let resolution = resolve_choice(
        OverwriteChoice::Skip,
        false,
        candidate.clone(),
        &path("/in/song.flac"),
        &path("/out"),
        "song",
        "mp3",
        &mut reservations,
        1,
        &none,
    );
    assert!(matches!(resolution, Resolution::Skip));
    assert!(!reservations.contains(&candidate));
}

fn context(conflict: NameConflict) -> OutputResolutionContext {
    let mut settings = Settings::default();
    settings.output_dest = OutputDest::Custom;
    settings.custom_output_path = Some("/out".to_string());
    settings.name_conflict = conflict;
    OutputResolutionContext {
        format: "aac".to_string(),
        settings,
        base_dir: None,
        dirs: no_dirs(),
        batch_order: 1,
        windows: false,
    }
}

fn search(conflict: NameConflict) -> Resolver {
    resolve_output_path(&path("/in/song.flac"), &context(conflict)).unwrap()
}

#[test]
fn a_free_place_is_locked_and_found() {
    let mut reservations = Reservations::new();
    let mut resolver = search(NameConflict::ConfirmDialog);
    assert_eq!(resolver.dir, path("/out"));
    let action = resolver.dir_made(Some(path("/real")), &mut reservations, &|_| false);
    assert!(matches!(&action, ResolveAction::Lock(p) if p.to_text() == "/real/song.m4a"));
    let action = resolver.lock_tried(LockResult::Held);
    assert!(matches!(&action, ResolveAction::Found(p) if p.to_text() == "/real/song.m4a"));
    let mut again = search(NameConflict::ConfirmDialog);
    let action = again.dir_made(Some(path("/real//")), &mut Reservations::new(), &|_| false);
    assert!(matches!(&action, ResolveAction::Lock(p) if p.to_text() == "/real/song.m4a"));
}

#[test]
fn the_user_is_asked_before_a_file_is_overwritten() {
    let mut reservations = Reservations::new();
    let mut resolver = search(NameConflict::ConfirmDialog);
    let action = resolver.dir_made(None, &mut reservations, &|_| true);
    assert!(matches!(&action, ResolveAction::Ask(name) if name == "song.m4a"));
    let there = |p: &FilePath| p.to_text() == "/out/song.m4a";
    let action = resolver.answered(OverwriteChoice::Rename, &mut reservations, &there);
    assert!(matches!(&action, ResolveAction::Lock(p) if p.to_text() == "/out/song_1.m4a"));
    assert!(!reservations.contains(&path("/out/song.m4a")));
    assert!(matches!(
        resolver.lock_tried(LockResult::Busy),
        ResolveAction::Busy
    ));
}

#[test]
fn answers_end_the_search() {
    for (choice, left_out) in [(OverwriteChoice::Skip, true), (OverwriteChoice::CancelAll, false)] {
        let mut reservations = Reservations::new();
        let mut resolver = search(NameConflict::ConfirmDialog);
        resolver.dir_made(None, &mut reservations, &|_| true);
        let action = resolver.answered(choice, &mut reservations, &|_| true);
        if left_out {
            assert!(matches!(action, ResolveAction::LeftOut));
        } else {
            assert!(matches!(action, ResolveAction::StopSession));
        }
        assert!(!reservations.contains(&path("/out/song.m4a")));
    }
    let mut reservations = Reservations::new();
    let mut resolver = search(NameConflict::ConfirmDialog);
    resolver.dir_made(None, &mut reservations, &|_| true);
    let action = resolver.answered(OverwriteChoice::Overwrite, &mut reservations, &|_| true);
    assert!(matches!(&action, ResolveAction::Lock(p) if p.to_text() == "/out/song.m4a"));
    assert!(reservations.contains(&path("/out/song.m4a")));
}

#[test]
fn a_place_of_another_batch_is_waited_for() {
    let mut reservations = Reservations::new();
    reservations.take_path(path("/out/song.m4a"), 7);
    let mut resolver = search(NameConflict::ForceOverwrite);
    let action = resolver.dir_made(None, &mut reservations, &|_| false);
    assert!(matches!(action, ResolveAction::Ask(_)));
    let action = resolver.answered(OverwriteChoice::Overwrite, &mut reservations, &|_| false);
    assert!(matches!(action, ResolveAction::Lock(_)));
    assert!(matches!(resolver.lock_tried(LockResult::Busy), ResolveAction::Wait));
    assert!(matches!(resolver.waited(false), ResolveAction::Lock(_)));
    assert!(matches!(resolver.lock_tried(LockResult::Busy), ResolveAction::Wait));
    assert!(matches!(
        resolver.waited(true),
        ResolveAction::Fail(e) if e == "__CANCELLED__"
    ));
}

#[test]
fn a_search_fails_with_its_reason() {
    let mut bad = context(NameConflict::AutoRename);
    bad.format = "a/b".to_string();
    let mut resolver = resolve_output_path_for_stem(&path("/in/x.flac"), "x", &bad).unwrap();
    let action = resolver.dir_made(None, &mut Reservations::new(), &|_| false);
    assert!(matches!(
        action,
        ResolveAction::Fail(e) if e == "output format must be a single non-empty file extension"
    ));
    assert_eq!(
        resolve_output_path(&path("/"), &context(NameConflict::AutoRename)).unwrap_err(),
        "invalid filename"
    );
    let mut resolver = search(NameConflict::AutoRename);
    assert!(matches!(
        resolver.dir_failed("disk full".to_string()),
        ResolveAction::Fail(e) if e == "disk full"
    ));
    let mut resolver = search(NameConflict::ConfirmDialog);
    resolver.dir_made(None, &mut Reservations::new(), &|_| true);
    assert!(matches!(
        resolver.not_asked(false),
        ResolveAction::Fail(e) if e == "overwrite dialog closed"
    ));
    let mut resolver = search(NameConflict::AutoRename);
    resolver.dir_made(None, &mut Reservations::new(), &|_| false);
    assert!(matches!(
        resolver.lock_tried(LockResult::Failed("read only".to_string())),
        ResolveAction::Fail(e) if e == "read only"
    ));
}
