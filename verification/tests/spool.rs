use oto::network::NETWORK_CHUNK_SIZE;
use oto::path::FilePath;
use oto::replace::{
    after_replace_action, guard_actions, paths_refer_to_same_file, replace_file_after_success,
    sibling_path, unique_sibling_path, GuardAction, ReplaceAction,
};
use oto::spool::{
    adopt_session, begin_upload, decode_path, decode_wide_path, encode_path, encode_wide_path,
    is_legacy_spool, is_stale_temp_file, new_session_id, new_spool_file, recovery_step,
    spool_file_name, Adoption, JournalRecord, RecoveryStep, SpoolKind, SpoolLedger, UploadJournal, LEGACY_GRACE_SECS,
};

fn path(s: &str) -> FilePath {
    FilePath::parse(s)
}

#[test]
fn non_utf8_path_round_trips_through_journal_encoding() {
    let bytes = vec![b'/', b't', b'm', b'p', b'/', 0xff];
    assert_eq!(decode_path(&encode_path(&bytes)), Some(bytes));
}

#[test]
fn unicode_path_round_trips_through_journal_encoding() {
    let bytes = "/tmp/音声/途中ファイル.m4a".as_bytes().to_vec();
    assert_eq!(decode_path(&encode_path(&bytes)), Some(bytes));
}

#[test]
fn the_journal_writes_base64() {
    assert_eq!(encode_path(&b"/tmp/a".to_vec()), "L3RtcC9h");
    assert_eq!(decode_path("L3RtcC9h").unwrap(), b"/tmp/a");
    assert_eq!(decode_path("no base64!"), None);
}

#[test]
fn wide_paths_come_back() {
    let units: Vec<u16> = vec![0x43, 0x3a, 0x5c, 0xd800, 0x97f3];
    assert_eq!(encode_wide_path(&vec![0x41]), "QQA=");
    assert_eq!(decode_wide_path(&encode_wide_path(&units)), Some(units));
    assert_eq!(decode_wide_path("QQ=="), None);
}

fn pending(id: &str, at: &str) -> JournalRecord {
    JournalRecord::UploadPending { id: id.to_string(), path: encode_path(&at.as_bytes().to_vec()) }
}

#[test]
fn not_found_upload_is_completed_during_replay() {
    let mut journal = UploadJournal::replay(&vec![pending("one", "/nas/missing-upload")]);
    assert!(!journal.is_clean());
    journal.settle("one", true, true);
    assert!(journal.is_clean());
}

#[test]
fn inaccessible_upload_record_is_retained_until_a_later_retry() {
    let mut journal = UploadJournal::replay(&vec![pending("retry", "/nas/blocked")]);
    journal.settle("retry", false, false);
    assert!(!journal.is_clean());
    assert_eq!(journal.pending[0].1, b"/nas/blocked");
    journal.settle("retry", true, true);
    assert!(journal.is_clean());
}

#[test]
fn completed_upload_journal_is_compacted_to_empty() {
    let (mut guard, record) = begin_upload(&b"/nas/uploaded.tmp".to_vec());
    assert!(guard.must_remove());
    let done = guard.done_record();
    guard.complete(true);
    assert!(!guard.must_remove());
    let journal = UploadJournal::replay(&vec![record, done]);
    assert!(journal.is_clean());
}

#[test]
fn an_upload_that_was_not_recorded_as_done_is_remembered() {
    let (mut guard, record) = begin_upload(&b"/nas/x".to_vec());
    guard.complete(false);
    assert!(guard.must_remove());
    let damaged = JournalRecord::UploadPending { id: "z".to_string(), path: "%".to_string() };
    let journal = UploadJournal::replay(&vec![record, damaged]);
    assert_eq!(journal.pending.len(), 1);
    assert_eq!(journal.pending[0].0.len(), 36);
}

#[test]
fn normal_local_spool_completion_removes_file_and_session_directory() {
    let mut ledger = SpoolLedger::new();
    let mut spool = new_spool_file(&path("/spool"), SpoolKind::Input, "tmp");
    assert!(spool.path.starts_with(&path("/spool")));
    ledger.set_accounted_bytes(&mut spool, 8);
    assert_eq!(ledger.input_used, 8);
    ledger.dropped(spool, true);
    assert!(ledger.is_empty());
    assert_eq!(ledger.input_used, 0);
}

#[test]
fn cached_network_input_is_removed_when_last_owner_drops() {
    let mut ledger = SpoolLedger::new();
    let mut spool = new_spool_file(&path("/spool"), SpoolKind::Input, "media");
    ledger.add_accounted_bytes(&mut spool, 12);
    assert_eq!(ledger.input_used, 12);
    ledger.dropped(spool, true);
    assert_eq!(ledger.input_used, 0);
}

#[test]
fn cancelling_input_copy_removes_partial_file_and_releases_written_bytes() {
    let mut ledger = SpoolLedger::new();
    let mut spool = new_spool_file(&path("/spool"), SpoolKind::Input, "media");
    ledger.add_accounted_bytes(&mut spool, NETWORK_CHUNK_SIZE);
    assert_eq!(ledger.input_used, NETWORK_CHUNK_SIZE);
    ledger.dropped(spool, true);
    assert_eq!(ledger.input_used, 0);
    assert!(ledger.is_empty());
}

#[test]
fn usage_is_not_released_until_failed_local_delete_succeeds() {
    let mut ledger = SpoolLedger::new();
    let mut spool = new_spool_file(&path("/spool"), SpoolKind::Output, "tmp");
    ledger.set_accounted_bytes(&mut spool, 123);
    ledger.dropped(spool, false);
    assert_eq!(ledger.output_used, 123);
    ledger.retried(false);
    assert_eq!(ledger.output_used, 123);
    ledger.retried(true);
    assert_eq!(ledger.output_used, 0);
    assert!(ledger.is_empty());
}

#[test]
fn names_of_copies_hold_an_identifier() {
    assert_eq!(spool_file_name("input", ".flac", "x"), "input-x.flac");
    assert_eq!(spool_file_name("output", "", "x"), "output-x");
    let file = new_spool_file(&path("/spool"), SpoolKind::Output, "mp3");
    let name = String::from_utf8(file.path.file_name().unwrap()).unwrap();
    assert!(name.starts_with("output-"));
    assert!(name.ends_with(".mp3"));
    assert_eq!(name.len(), "output-".len() + 36 + ".mp3".len());
    let other = new_spool_file(&path("/spool//"), SpoolKind::Output, "mp3");
    assert!(other.path.to_text().starts_with("/spool/"));
    assert!(!other.path.to_text().contains("//"));
    assert_ne!(file.path, other.path);
}

#[test]
fn runs_have_names_of_their_own() {
    assert_eq!(new_session_id().len(), 36);
    assert_ne!(new_session_id(), new_session_id());
}

#[test]
fn room_counts_until_every_file_is_gone() {
    let mut ledger = SpoolLedger::new();
    let mut first = new_spool_file(&path("/spool"), SpoolKind::Input, "a");
    let mut second = new_spool_file(&path("/spool"), SpoolKind::Input, "b");
    ledger.add_accounted_bytes(&mut first, 10);
    ledger.set_accounted_bytes(&mut second, 7);
    ledger.set_accounted_bytes(&mut second, 5);
    assert_eq!(ledger.input_used, 15);
    ledger.dropped(first, false);
    ledger.dropped(second, true);
    assert_eq!((ledger.input_used, ledger.pending.len()), (10, 1));
    ledger.retried(true);
    assert!(ledger.is_empty());
}

#[test]
fn old_copies_and_leftovers_are_removed() {
    assert!(is_legacy_spool("oto-input-x", Some(LEGACY_GRACE_SECS)));
    assert!(!is_legacy_spool("oto-input-x", Some(LEGACY_GRACE_SECS - 1)));
    assert!(!is_legacy_spool("oto-output-x", None));
    assert!(!is_legacy_spool("other", Some(LEGACY_GRACE_SECS)));
    assert!(is_stale_temp_file("oto_preview_1.wav"));
    assert!(is_stale_temp_file("oto_progress.txt"));
    assert!(is_stale_temp_file("oto_wave_1.raw"));
    assert!(!is_stale_temp_file("oto_wave_1.wav"));
}

#[test]
fn active_instance_spool_is_skipped_then_recovered_after_unlock() {
    let name = Some(b"session".to_vec());
    assert!(matches!(adopt_session(true, false, false, &name), Adoption::Ignore));
    assert!(matches!(
        adopt_session(true, false, true, &name),
        Adoption::Adopt(id) if id == "session"
    ));
    assert!(matches!(adopt_session(false, false, true, &name), Adoption::Ignore));
    assert!(matches!(adopt_session(true, false, true, &Some(vec![0xff])), Adoption::Ignore));
}

#[test]
fn recovered_session_metadata_is_removed_with_its_spool() {
    assert!(matches!(adopt_session(true, true, false, &None), Adoption::Remove));
    assert_eq!(recovery_step(true, false, None), RecoveryStep::Keep);
    assert_eq!(recovery_step(true, true, None), RecoveryStep::Mark);
    assert_eq!(recovery_step(true, true, Some(true)), RecoveryStep::Finish);
    assert_eq!(recovery_step(true, true, Some(false)), RecoveryStep::Unmark);
}

#[test]
fn successful_in_place_replacement_keeps_converted_file() {
    let action = replace_file_after_success();
    assert!(matches!(action, ReplaceAction::Preserve));
    let action = after_replace_action(action, Ok(()));
    assert!(matches!(action, ReplaceAction::Install));
    let action = after_replace_action(action, Ok(()));
    assert!(matches!(action, ReplaceAction::Discard));
    let action = after_replace_action(action, Err("busy".to_string()));
    assert!(matches!(action, ReplaceAction::Finished(Ok(()))));
}

#[test]
fn a_failed_replacement_restores_the_file() {
    let action = after_replace_action(ReplaceAction::Preserve, Err("gone".to_string()));
    assert!(matches!(
        action,
        ReplaceAction::Finished(Err(e)) if e == "failed to preserve original before replacement: gone"
    ));
    let action = after_replace_action(ReplaceAction::Install, Err("full".to_string()));
    assert!(matches!(&action, ReplaceAction::Restore(_)));
    let action = after_replace_action(action, Ok(()));
    assert!(matches!(
        action,
        ReplaceAction::Finished(Err(e)) if e == "failed to replace original with converted output: full"
    ));
    assert_eq!(guard_actions(true, true), vec![GuardAction::RemoveBackup]);
    assert_eq!(
        guard_actions(false, true),
        vec![GuardAction::RemoveResult, GuardAction::RestoreBackup]
    );
    assert_eq!(guard_actions(true, false), vec![]);
}

#[test]
fn siblings_lie_beside_a_file() {
    assert_eq!(
        sibling_path(&path("/a/b.mp3"), ".tmp", true, "id").to_text(),
        "/a/.tmp-id.mp3"
    );
    assert_eq!(sibling_path(&path("/a/b.mp3"), ".tmp", false, "id").to_text(), "/a/.tmp-id");
    assert_eq!(sibling_path(&path("/a//./b.mp3"), ".tmp", false, "id").to_text(), "/a/.tmp-id");
    let fresh = unique_sibling_path(&path("/a/b.mp3"), ".oto", true);
    assert_eq!(fresh.parent().unwrap(), path("/a"));
    assert_ne!(fresh, unique_sibling_path(&path("/a/b.mp3"), ".oto", true));
}

#[test]
fn names_of_one_file_are_the_same_file() {
    let a = path("/a/x");
    let b = path("/b/x");
    assert!(paths_refer_to_same_file(&a, &a, &None, &None));
    assert!(!paths_refer_to_same_file(&a, &b, &None, &None));
    assert!(paths_refer_to_same_file(&a, &b, &Some(path("/real")), &Some(path("/real"))));
    assert!(!paths_refer_to_same_file(&a, &b, &Some(path("/real")), &Some(path("/other"))));
}
