use oto::file_collector::{
    collect_audio_files, common_ancestor, group_by_stem, lossless_score, select_best_from_group,
    send_batch, stem_key, Dispatch, Entry, Finding, ScanBatch, ScanStep, Scanner,
};
use oto::path::FilePath;
use oto::types::FileInfo;

fn path(s: &str) -> FilePath {
    FilePath::parse(s)
}

fn make_info(is_lossless: bool, bit_rate_bps: u64) -> FileInfo {
    FileInfo {
        duration_us: 100_000_000,
        tags: Vec::new(),
        bits_per_sample: 16,
        cover_art_stream_idx: None,
        has_media: true,
        is_lossless,
        bit_rate_bps,
        audio_tracks: Vec::new(),
    }
}

#[test]
fn single_file_is_always_selected() {
    let group = vec![(path("/music/track.mp3"), make_info(false, 192_000))];
    let (best, rejected) = select_best_from_group(group);
    assert_eq!(best.0.extension().unwrap(), b"mp3");
    assert!(rejected.is_empty());
}

#[test]
fn lossless_beats_lossy_same_stem() {
    let group = vec![
        (path("/music/track.mp3"), make_info(false, 320_000)),
        (path("/music/track.flac"), make_info(true, 1_000_000)),
    ];
    let (best, rejected) = select_best_from_group(group);
    assert_eq!(best.0.extension().unwrap(), b"flac");
    assert_eq!(rejected.len(), 1);
}

#[test]
fn wav_beats_flac_among_lossless() {
    let group = vec![
        (path("/music/track.flac"), make_info(true, 900_000)),
        (path("/music/track.wav"), make_info(true, 1_400_000)),
    ];
    let (best, rejected) = select_best_from_group(group);
    assert_eq!(best.0.extension().unwrap(), b"wav");
    assert_eq!(rejected.len(), 1);
}

#[test]
fn highest_bitrate_wins_among_all_lossy() {
    let group = vec![
        (path("/music/track.mp3"), make_info(false, 128_000)),
        (path("/music/track.aac"), make_info(false, 256_000)),
    ];
    let (best, rejected) = select_best_from_group(group);
    assert_eq!(best.0.extension().unwrap(), b"aac");
    assert_eq!(rejected.len(), 1);
}

#[test]
fn the_last_of_equal_bitrates_is_selected() {
    let group = vec![
        (path("/music/track.mp3"), make_info(false, 128_000)),
        (path("/music/track.aac"), make_info(false, 128_000)),
    ];
    let (best, rejected) = select_best_from_group(group);
    assert_eq!(best.0.to_text(), "/music/track.aac");
    assert_eq!(rejected, vec![path("/music/track.mp3")]);
}

#[test]
fn scores_follow_the_extension() {
    let info = make_info(true, 1);
    assert_eq!(lossless_score(&path("/a.WAV"), &info), Some(0));
    assert_eq!(lossless_score(&path("/a.aiff"), &info), Some(0));
    assert_eq!(lossless_score(&path("/a.flac"), &info), Some(1));
    assert_eq!(lossless_score(&path("/a.m4a"), &info), Some(2));
    assert_eq!(lossless_score(&path("/a.wav"), &make_info(false, 1)), None);
}

#[test]
fn different_directories_have_different_stem_keys() {
    let key_a = stem_key(&path("/a/track.mp3"));
    let key_b = stem_key(&path("/b/track.flac"));
    assert_ne!(key_a, key_b);
}

#[test]
fn different_stems_have_different_stem_keys() {
    let key1 = stem_key(&path("/music/song1.mp3"));
    let key2 = stem_key(&path("/music/song2.mp3"));
    assert_ne!(key1, key2);
}

#[test]
fn same_stem_different_ext_same_key() {
    let key_mp3 = stem_key(&path("/music/track.mp3"));
    let key_flac = stem_key(&path("/music/track.flac"));
    assert_eq!(key_mp3, key_flac);
}

#[test]
fn stem_key_is_case_insensitive() {
    let key_lower = stem_key(&path("/music/Track.mp3"));
    let key_upper = stem_key(&path("/music/TRACK.flac"));
    assert_eq!(key_lower, key_upper);
}

#[test]
fn stem_key_lowers_letters_of_every_script() {
    assert_eq!(
        stem_key(&path("/music/ÄRGER.mp3")),
        (path("/music"), "ärger".to_string())
    );
}

#[test]
fn common_ancestor_single_file() {
    let paths = vec![path("/a/b/c.mp3")];
    assert_eq!(common_ancestor(&paths), Some(path("/a/b")));
}

#[test]
fn common_ancestor_sibling_files() {
    let paths = vec![path("/a/b/x.mp3"), path("/a/b/y.flac")];
    assert_eq!(common_ancestor(&paths), Some(path("/a/b")));
}

#[test]
fn common_ancestor_nested_dirs() {
    let paths = vec![path("/a/b/c/x.mp3"), path("/a/b/y.flac")];
    assert_eq!(common_ancestor(&paths), Some(path("/a/b")));
}

#[test]
fn common_ancestor_empty_is_none() {
    assert_eq!(common_ancestor(&Vec::new()), None);
}

#[test]
fn the_common_ancestor_of_far_paths_is_the_root() {
    let paths = vec![path("/a/x.mp3"), path("/b/y.mp3")];
    let base = common_ancestor(&paths).unwrap();
    assert_eq!(base, path("/"));
    assert!(path("/a/x.mp3").starts_with(&base));
}

#[test]
fn files_are_grouped_by_stem_in_order() {
    let files = vec![
        path("/m/b.mp3"),
        path("/m/a.wav"),
        path("/m/B.flac"),
    ];
    let groups = group_by_stem(&files);
    assert_eq!(groups.len(), 2);
    assert_eq!(groups[0].stem, "a");
    assert_eq!(groups[0].files, vec![path("/m/a.wav")]);
    assert_eq!(groups[1].stem, "b");
    assert_eq!(groups[1].files, vec![path("/m/b.mp3"), path("/m/B.flac")]);
}

#[test]
fn missing_input_path_is_reported_as_error() {
    let missing = format!("/tmp/oto-missing-{}", uuid::Uuid::new_v4());
    let collected = collect_audio_files(&vec![(path(&missing), Finding::Missing)]);
    assert!(collected.files.is_empty());
    assert_eq!(collected.errors.len(), 1);
    assert_eq!(
        collected.errors[0].1,
        "path does not exist or is not accessible"
    );
}

fn next_batch(scanner: &mut Scanner, look: &dyn Fn(&FilePath) -> Finding) -> Option<ScanBatch> {
    loop {
        match scanner.next(false) {
            ScanStep::Done => return None,
            ScanStep::Send(batch) => return Some(batch),
            ScanStep::Examine(path) => {
                let finding = look(&path);
                let batch = scanner.examined(path, &finding);
                if let Dispatch::Send(batch) = send_batch(false, batch) {
                    return Some(batch);
                }
            }
        }
    }
}

#[test]
fn scanner_emits_parent_files_before_descending_into_child_directory() {
    let root = path("/tmp/oto-scan-test");
    let look = |p: &FilePath| {
        if p.to_text() == "/tmp/oto-scan-test" {
            Finding::Folder(vec![
                Entry::Folder(path("/tmp/oto-scan-test/child")),
                Entry::File(path("/tmp/oto-scan-test/first.mp3")),
                Entry::Other,
            ])
        } else {
            Finding::Folder(vec![Entry::File(path("/tmp/oto-scan-test/child/second.mp3"))])
        }
    };
    let mut scanner = Scanner::new(&vec![(root, false)]);
    let first = next_batch(&mut scanner, &look).unwrap();
    let second = next_batch(&mut scanner, &look).unwrap();
    assert_eq!(first.files, vec![path("/tmp/oto-scan-test/first.mp3")]);
    assert_eq!(second.files, vec![path("/tmp/oto-scan-test/child/second.mp3")]);
    assert!(next_batch(&mut scanner, &look).is_none());
}

#[test]
fn scanner_stops_before_starting_when_job_is_cancelled() {
    let mut scanner = Scanner::new(&vec![(path("/"), false)]);
    assert!(matches!(scanner.next(true), ScanStep::Done));
    let batch = ScanBatch { files: vec![path("/a.mp3")], errors: Vec::new() };
    assert!(matches!(send_batch(true, batch), Dispatch::Stop));
}

#[test]
fn an_unreadable_folder_is_reported() {
    let mut scanner = Scanner::new(&vec![(path("/locked"), false)]);
    let look = |_: &FilePath| Finding::Unreadable("permission denied".to_string());
    let batch = next_batch(&mut scanner, &look).unwrap();
    assert!(batch.files.is_empty());
    assert_eq!(
        batch.errors,
        vec![(path("/locked"), "permission denied".to_string())]
    );
    let empty = ScanBatch { files: Vec::new(), errors: Vec::new() };
    assert!(matches!(send_batch(false, empty), Dispatch::Nothing));
}
