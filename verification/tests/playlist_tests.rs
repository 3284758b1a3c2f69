use rusttracker::playlist::{
    expand_input_paths, is_media_file, is_playlist_extension, is_playlist_path,
    is_supported_media_extension, parse_playlist_text, resolve_path, scan_directory, PathProbe,
};

#[test]
fn test_is_supported_media_extension() {
    assert!(is_supported_media_extension("mod"));
    assert!(is_supported_media_extension("XM"));
    assert!(is_supported_media_extension("mp3"));
    assert!(is_supported_media_extension("FLAC"));
    assert!(is_supported_media_extension("mp4"));
    assert!(!is_supported_media_extension("txt"));
    assert!(!is_supported_media_extension("exe"));
}

#[test]
fn test_parse_m3u() {
    let temp_dir = std::path::Path::new("/tmp").join("rusttracker_test_m3u");
    let m3u_path = temp_dir.join("test.m3u");
    let content = "#EXTM3U\n#EXTINF:123,Test Song\ntrack1.mp3\n# Comment\n/abs/path/track2.flac\nhttp://example.com/stream\n";
    let parsed = parse_playlist_text(
        &m3u_path.to_string_lossy(),
        &temp_dir.to_string_lossy(),
        content,
    );
    assert_eq!(parsed.len(), 3);
    assert!(parsed[0].ends_with("track1.mp3"));
    assert_eq!(parsed[1], "/abs/path/track2.flac");
    assert_eq!(parsed[2], "http://example.com/stream");
}

#[test]
fn test_parse_pls() {
    let temp_dir = std::path::Path::new("/tmp").join("rusttracker_test_pls");
    let pls_path = temp_dir.join("test.pls");
    let content = "[playlist]\nNumberOfEntries=2\nFile1=song1.mod\nTitle1=Song 1\nFile2=https://example.com/live\nTitle2=Live\n";
    let parsed = parse_playlist_text(
        &pls_path.to_string_lossy(),
        &temp_dir.to_string_lossy(),
        content,
    );
    assert_eq!(parsed.len(), 2);
    assert!(parsed[0].ends_with("song1.mod"));
    assert_eq!(parsed[1], "https://example.com/live");
}

#[test]
fn playlist_extensions_in_any_case() {
    assert!(is_playlist_extension("pls"));
    assert!(is_playlist_extension("M3U"));
    assert!(is_playlist_extension("m3u8"));
    assert!(!is_playlist_extension("m3"));
    assert!(!is_playlist_extension(""));
}

#[test]
fn media_files_by_extension() {
    assert!(is_media_file("/music/a.FLAC"));
    assert!(is_media_file("song.tar.mp3"));
    assert!(!is_media_file("/music/.mp3"));
    assert!(!is_media_file("/music/notes.txt"));
    assert!(!is_media_file("/music/noext"));
    assert!(is_media_file("/music/a.mod/"));
    assert!(!is_media_file("/music/a.mod/.."));
}

#[test]
fn resolve_keeps_urls_and_absolute_paths() {
    assert_eq!(resolve_path("http://x/y.mp3", "/base"), "http://x/y.mp3");
    assert_eq!(resolve_path("https://x/y.mp3", "/base"), "https://x/y.mp3");
    assert_eq!(resolve_path("/abs/a.mp3", "/base"), "/abs/a.mp3");
    assert_eq!(resolve_path("rel/a.mp3", "/base"), "/base/rel/a.mp3");
    assert_eq!(resolve_path("a.mp3", "/base/"), "/base/a.mp3");
    assert_eq!(resolve_path("a.mp3", ""), "a.mp3");
}

#[test]
fn m3u_lines_with_crlf_and_blanks() {
    let parsed = parse_playlist_text("list.M3U8", "dir", "  a.mp3 \r\n\r\n#x\r\n\tb.ogg");
    assert_eq!(parsed, vec!["dir/a.mp3".to_string(), "dir/b.ogg".to_string()]);
}

#[test]
fn pls_entries_need_file_key_and_value() {
    let parsed = parse_playlist_text(
        "x.PLS",
        "/d",
        "File1=\nFile2 = two.mp3\nfile3=three.mp3\nFile4=http://s/x\nTitle=File5=no\n",
    );
    assert_eq!(parsed, vec!["/d/two.mp3".to_string(), "http://s/x".to_string()]);
}

#[test]
fn scan_directory_filters_and_sorts() {
    let files = vec![
        "/m/b.mp3".to_string(),
        "/m/readme.txt".to_string(),
        "/m/A.FLAC".to_string(),
        "/m/sub/c.xm".to_string(),
        "/m/a.wav".to_string(),
    ];
    let r = scan_directory(&files);
    assert_eq!(
        r,
        vec![
            "/m/A.FLAC".to_string(),
            "/m/a.wav".to_string(),
            "/m/b.mp3".to_string(),
            "/m/sub/c.xm".to_string(),
        ]
    );
}

#[test]
fn expand_input_paths_cases() {
    let paths = vec![
        "".to_string(),
        "https://radio/stream".to_string(),
        "/music".to_string(),
        "/lists/x.m3u".to_string(),
        "/lists/broken.pls".to_string(),
        "/songs/one.mp3".to_string(),
        "/songs/noext".to_string(),
    ];
    let none = || PathProbe { is_dir: false, dir_files: vec![], playlist: None };
    let probes = vec![
        none(),
        none(),
        PathProbe {
            is_dir: true,
            dir_files: vec!["/music/z.ogg".to_string(), "/music/a.mp3".to_string(), "/music/x.doc".to_string()],
            playlist: None,
        },
        PathProbe { is_dir: false, dir_files: vec![], playlist: Some(vec!["/lists/p1.mp3".to_string()]) },
        none(),
        none(),
        none(),
    ];
    let r = expand_input_paths(&paths, &probes);
    assert_eq!(
        r,
        vec![
            "https://radio/stream".to_string(),
            "/music/a.mp3".to_string(),
            "/music/z.ogg".to_string(),
            "/lists/p1.mp3".to_string(),
            "/lists/broken.pls".to_string(),
            "/songs/one.mp3".to_string(),
            "/songs/noext".to_string(),
        ]
    );
    assert!(is_playlist_path("/lists/x.m3u"));
    assert!(!is_playlist_path("http://x/list.m3u"));
    assert!(!is_playlist_path("/songs/one.mp3"));
}

#[test]
fn scans_are_strictly_ascending() {
    let files: Vec<String> = ["/m/b.mp3", "/m/a.flac", "/m/notes.txt", "/m/sub/c.XM", "/m/a.mp3"]
        .iter()
        .map(|s| s.to_string())
        .collect();
    let r = scan_directory(&files);
    assert_eq!(r, vec!["/m/a.flac", "/m/a.mp3", "/m/b.mp3", "/m/sub/c.XM"]);
    assert!(r.windows(2).all(|w| w[0] < w[1]));
}

#[test]
fn m3u_has_one_entry_per_track_line() {
    let text = "#EXTM3U\n\n  a.mp3  \n# note\n/b.flac\n   \nhttp://x/s\n";
    let r = parse_playlist_text("/p/list.m3u", "/p", text);
    assert_eq!(r, vec!["/p/a.mp3", "/b.flac", "http://x/s"]);
}

#[test]
fn stream_urls_are_recognised() {
    assert!(rusttracker::playlist::is_stream_url("https://radio.example/live"));
    assert!(rusttracker::playlist::is_stream_url("http://x"));
    assert!(!rusttracker::playlist::is_stream_url("ftp://x"));
    assert!(!rusttracker::playlist::is_stream_url("/music/http://x.mp3"));
}
