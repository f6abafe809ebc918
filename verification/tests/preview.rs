use oto::order::sort_paths;
use oto::path::{Component, FilePath};
use oto::preview::{
    check_preview_path, check_url, preview_args, preview_failure, preview_path, wave_args,
    wave_bucket, wave_failure, wave_path, wave_samples,
};
use oto::text::{find, join, lines, parse_u32, split, to_ascii_lowercase, trim, trim_matches, word};

fn path(s: &str) -> FilePath {
    FilePath::parse(s)
}

#[test]
fn only_previews_are_deleted() {
    let temp = path("/tmp");
    let fresh = preview_path(&temp);
    assert!(check_preview_path(&fresh, &temp).is_ok());
    assert_ne!(fresh, preview_path(&temp));
    assert_eq!(
        check_preview_path(&wave_path(&temp), &temp).unwrap_err(),
        "invalid path"
    );
    assert!(check_preview_path(&path("/home/oto_preview_1.wav"), &temp).is_err());
    assert!(check_preview_path(&path("/tmp"), &temp).is_err());
}

#[test]
fn ffmpeg_is_asked_for_previews() {
    assert_eq!(
        wave_args("/a", "/b"),
        ["-y", "-i", "/a", "-ar", "4000", "-f", "f32le", "-ac", "1", "/b"]
    );
    assert_eq!(
        preview_args("/a", "/b"),
        ["-y", "-i", "/a", "-ar", "44100", "-ac", "2", "-f", "wav", "/b"]
    );
    assert_eq!(wave_failure(&b"one\ntwo\n".to_vec()), "ffmpeg failed: two");
    assert_eq!(preview_failure(&Vec::new()), "decode to wav failed: unknown error");
}

#[test]
fn samples_are_shared_among_the_parts() {
    assert_eq!(wave_samples(16_000), Ok((4000, 1_000_000)));
    assert_eq!(wave_samples(7).unwrap_err(), "no audio data");
    assert_eq!(wave_bucket(0, 800, 4000), Some(0));
    assert_eq!(wave_bucket(3999, 800, 4000), Some(799));
    assert_eq!(wave_bucket(4000, 800, 4000), None);
}

#[test]
fn only_known_addresses_are_opened() {
    assert!(check_url("HTTPS://example.org").is_ok());
    assert!(check_url("mailto:me@example.org").is_ok());
    assert_eq!(check_url("file:///etc/hosts").unwrap_err(), "unsupported url scheme");
    assert_eq!(check_url("http://a\"b").unwrap_err(), "invalid characters in url");
    assert!(check_url("http://a\nb").is_err());
}

#[test]
fn paths_are_taken_apart() {
    let song = path("/music/album/song.tar.gz");
    assert_eq!(song.parent().unwrap(), path("/music/album"));
    assert_eq!(song.file_name().unwrap(), b"song.tar.gz");
    assert_eq!(song.file_stem().unwrap(), b"song.tar");
    assert_eq!(song.extension().unwrap(), b"gz");
    assert_eq!(path("/.hidden").extension(), None);
    assert_eq!(path("/a//./b/../c").to_text(), "/a//./b/../c");
    assert_eq!(path("/a//./b").join(&path("../c")).to_text(), "/a/b/../c");
    assert_eq!(path("/a//b"), path("/a/b"));
    assert_ne!(path("/a/b"), path("a/b"));
    assert_eq!(path("/a//b/c").parent().unwrap().to_text(), "/a/b");
    assert_eq!(path("/a").join(&path("/b")).to_text(), "/b");
    assert_eq!(path("a").join(&path("b")).to_text(), "a/b");
    assert_eq!(song.strip_prefix(&path("/music")).unwrap(), path("album/song.tar.gz"));
    assert_eq!(song.strip_prefix(&path("/other")), None);
    assert_eq!(path("/").parent(), None);
}

#[test]
fn temporary_names_are_written_plainly() {
    let temp = path("/tmp//");
    assert!(preview_path(&temp).to_text().starts_with("/tmp/oto_"));
    assert!(wave_path(&temp).to_text().starts_with("/tmp/oto_"));
}

#[test]
fn what_is_not_text_is_replaced() {
    let odd = FilePath::of(vec![Component::Root, Component::Normal(vec![b'a', 0xff])]);
    assert_eq!(odd.to_text(), "/a\u{fffd}");
    assert_eq!(odd.text, vec![b'/', b'a', 0xff]);
}

#[test]
fn paths_are_sorted_by_component() {
    let sorted = sort_paths(&vec![path("/b"), path("/a/z"), path("/a-b"), path("/a")]);
    let texts: Vec<String> = sorted.iter().map(|p| p.to_text()).collect();
    assert_eq!(texts, ["/a", "/a/z", "/a-b", "/b"]);
    let sorted = sort_paths(&vec![path("/b//c"), path("/b/a")]);
    let texts: Vec<String> = sorted.iter().map(|p| p.to_text()).collect();
    assert_eq!(texts, ["/b/a", "/b//c"]);
}

fn prefix(s: &str) -> Component {
    Component::Prefix(s.as_bytes().to_vec())
}

fn name(s: &str) -> Component {
    Component::Normal(s.as_bytes().to_vec())
}

#[test]
fn paths_of_windows_are_taken_apart() {
    let parts = |s: &str| FilePath::parse_windows(s).components;
    assert_eq!(parts("D:/Music"), [prefix("D:"), Component::Root, name("Music")]);
    assert_eq!(parts("d:\\a\\.\\b"), [prefix("D:"), Component::Root, name("a"), name("b")]);
    assert_eq!(parts("C:a"), [prefix("C:"), name("a")]);
    assert_eq!(parts("\\a/b"), [Component::Root, name("a"), name("b")]);
    assert_eq!(parts(".\\..\\a"), [Component::Current, Component::Parent, name("a")]);
    assert_eq!(
        parts("//nas/share\\x"),
        [prefix("\\\\nas\\share"), Component::Root, name("x")]
    );
    assert_eq!(parts("\\\\nas\\share"), [prefix("\\\\nas\\share"), Component::Root]);
    assert_eq!(parts("\\\\nas"), [Component::Root, name("nas")]);
    assert_eq!(
        parts("\\\\?\\c:\\a/b\\."),
        [prefix("\\\\?\\C:"), Component::Root, name("a/b"), Component::Current]
    );
    assert_eq!(
        parts("\\\\?\\UNC\\nas\\share\\x"),
        [prefix("\\\\?\\UNC\\nas\\share"), Component::Root, name("x")]
    );
    assert_eq!(parts("\\\\.\\COM1"), [prefix("\\\\.\\COM1"), Component::Root]);
    assert_eq!(FilePath::parse_windows("c:/a"), FilePath::parse_windows("C:\\\\a"));
    let music = FilePath::parse_windows("D:/Music");
    assert_eq!(music.to_text(), "D:/Music");
    assert_eq!(music.child("song.mp3").to_text(), "D:\\Music\\song.mp3");
    assert_eq!(FilePath::parse_windows("C:").child("a").to_text(), "C:a");
}

#[test]
fn texts_are_taken_apart() {
    assert_eq!(trim(" \u{3000}a b\n"), "a b");
    assert_eq!(trim_matches("..a..", '.'), "a");
    assert_eq!(find("abcabc", "ca"), Some(2));
    assert_eq!(find("abc", "x"), None);
    assert_eq!(split("a:b::c", ':'), ["a", "b", "", "c"]);
    assert_eq!(lines("a\r\nb\n\nc"), ["a", "b", "", "c"]);
    assert_eq!(word("  one two"), "one");
    assert_eq!(to_ascii_lowercase("ÄBC"), "Äbc");
    assert_eq!(parse_u32("+17"), Some(17));
    assert_eq!(parse_u32("4294967296"), None);
    assert_eq!(join(&vec!["a".to_string(), "b".to_string()], "-"), "a-b");
}
