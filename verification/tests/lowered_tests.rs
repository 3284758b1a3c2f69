use rusttracker::lyrics::{apply_keyed_tag_exec, clean_lowered_stem, LrcDocument};
use rusttracker::playlist::{is_playlist_lowered, is_supported_lowered};
use rusttracker::state::{is_gamescope, names_valve, pad_kind_lowered, GamepadType};

#[test]
fn lowered_extensions_match_exactly() {
    assert!(is_supported_lowered("flac"));
    assert!(is_supported_lowered("669"));
    assert!(!is_supported_lowered("FLAC"));
    assert!(!is_supported_lowered("txt"));
    assert!(is_playlist_lowered("m3u8"));
    assert!(!is_playlist_lowered("PLS"));
}

#[test]
fn lowered_stems_are_cleaned() {
    assert_eq!(clean_lowered_stem("cake_-_i_will_survive_(instrumental)"), "cake i will survive");
    assert_eq!(clean_lowered_stem("song.name [flac] (official)"), "song name");
    assert_eq!(clean_lowered_stem("SONG"), "SONG");
}

#[test]
fn lowered_pad_names() {
    assert_eq!(pad_kind_lowered("dualsense wireless controller", 0), Some(GamepadType::PlayStation));
    assert_eq!(pad_kind_lowered("pro controller", 0), Some(GamepadType::Nintendo));
    assert_eq!(pad_kind_lowered("Sony", 0), None);
    assert_eq!(pad_kind_lowered("xbox", 0x054C), Some(GamepadType::PlayStation));
}

#[test]
fn lowered_device_names() {
    assert!(names_valve("valve"));
    assert!(!names_valve("Valve"));
    assert!(is_gamescope("gamescope"));
    assert!(!is_gamescope("GameScope"));
}

#[test]
fn keyed_tags_set_metadata() {
    let mut doc = LrcDocument { title: None, artist: None, album: None, offset_ms: 0, entries: vec![] };
    assert!(!apply_keyed_tag_exec(&mut doc, "ti", "A Song"));
    assert_eq!(doc.title.as_deref(), Some("A Song"));
    assert!(!apply_keyed_tag_exec(&mut doc, "offset", "-250"));
    assert_eq!(doc.offset_ms, -250);
    assert!(!apply_keyed_tag_exec(&mut doc, "offset", "soon"));
    assert_eq!(doc.offset_ms, -250);
    assert!(apply_keyed_tag_exec(&mut doc, "00", "12.5"));
    assert!(apply_keyed_tag_exec(&mut doc, "TI", "x"));
}

#[test]
fn cleaning_twice_changes_nothing() {
    for raw in ["cake_-_i_will_survive_(instrumental)", "(in(vocals)strumental) x", "a..b--c  [mp3]", "", "   "] {
        let once = clean_lowered_stem(raw);
        assert_eq!(clean_lowered_stem(&once), once, "{}", raw);
    }
    assert_eq!(clean_lowered_stem("(in(vocals)strumental) x"), "instrumental x");
}
