use rusttracker::lyrics::{
    clean_song_stem, lrc_entry_matches, normalize_path_str, parse_lrc, sidecar_stem_matches, strip_inline_tags,
    time_tag_shape, TimeShape,
};

#[test]
fn test_path_normalization() {
    assert_eq!(
        normalize_path_str("file:///home/naoki/Music/Cake%20-%20I%20Will%20Survive.flac"),
        "/home/naoki/Music/Cake - I Will Survive.flac"
    );
    assert_eq!(
        clean_song_stem("Cake_-_I_Will_Survive_(Instrumental)"),
        "cake i will survive"
    );
}

#[test]
fn normalize_edge_cases() {
    assert_eq!(normalize_path_str("  /a%2"), "/a%2");
    assert_eq!(normalize_path_str("/a%zz"), "/a%zz");
    assert_eq!(normalize_path_str("/a%+F"), "/a%+F");
    assert_eq!(normalize_path_str("a%zz%+1%2"), "a%zz%+1%2");
    assert_eq!(normalize_path_str("/a%41b"), "/aAb");
    assert_eq!(normalize_path_str("  file:///a/b.mp3 "), "/a/b.mp3");
}

#[test]
fn normalize_decodes_utf8_escapes() {
    assert_eq!(normalize_path_str("/music/caf\u{e9}.flac"), "/music/caf\u{e9}.flac");
    assert_eq!(normalize_path_str("/music/caf%C3%A9.flac"), "/music/caf\u{e9}.flac");
    assert_eq!(normalize_path_str("file:///m/%E2%82%AC%20x"), "/m/\u{20ac} x");
    assert_eq!(normalize_path_str("/x%FF%41"), "/x\u{ff}A");
    assert_eq!(normalize_path_str("/x%C3"), "/x\u{c3}");
    assert_eq!(normalize_path_str("/x%c3%a9"), "/x\u{e9}");
}

#[test]
fn strip_inline_tags_cases() {
    assert_eq!(strip_inline_tags("<00:10.00> Repeated <00:11.00> line <00:12.00> text"), "Repeated line text");
    assert_eq!(strip_inline_tags("  a   b\t c  "), "a b c");
    assert_eq!(strip_inline_tags("x <unclosed"), "x <unclosed");
    assert_eq!(strip_inline_tags(""), "");
}

#[test]
fn only_time_tags_are_stripped() {
    assert_eq!(strip_inline_tags("x <b> y"), "x <b> y");
    assert_eq!(strip_inline_tags("<12:34>a<1:2>b"), "ab");
    assert_eq!(strip_inline_tags("<1:2.>x"), "<1:2.>x");
    assert_eq!(strip_inline_tags("<:12> <ab:12> <1:2:3>"), "<:12> <ab:12> <1:2:3>");
    assert_eq!(strip_inline_tags("  a\t\tb <c "), "a b <c");
    assert_eq!(strip_inline_tags("<i>word</i> <00:01.5>next"), "<i>word</i> next");
}

#[test]
fn clean_song_stem_markers() {
    assert_eq!(clean_song_stem("Song.Name [FLAC] (Official)"), "song name");
    assert_eq!(clean_song_stem("__"), "");
}

#[test]
fn sidecar_matching() {
    assert!(sidecar_stem_matches("Test Artist - Test Song (Karaoke)", "Test Artist - Test Song"));
    assert!(sidecar_stem_matches("SONG", "song"));
    assert!(!sidecar_stem_matches("Another", "Different"));
    assert!(!sidecar_stem_matches("(karaoke)", "x"));
}

#[test]
fn lrc_structure_standard() {
    let lrc_data = "\n[ti:Another Love]\n[ar:Tom Odell]\n[al:Long Way Down]\n[00:21.06] I wanna take you somewhere so you know I care\n[00:25.61] But it's so cold, and I don't know where\n[01:34.83]\n";
    let doc = parse_lrc(lrc_data);
    assert_eq!(doc.title.as_deref(), Some("Another Love"));
    assert_eq!(doc.artist.as_deref(), Some("Tom Odell"));
    assert_eq!(doc.album.as_deref(), Some("Long Way Down"));
    assert_eq!(doc.entries.len(), 3);
    assert_eq!(doc.entries[0].time_tag, "00:21.06");
    assert_eq!(doc.entries[0].text, "I wanna take you somewhere so you know I care");
    assert_eq!(doc.entries[2].time_tag, "01:34.83");
    assert_eq!(doc.entries[2].text, "");
}

#[test]
fn lrc_structure_multi_tags_and_offset() {
    let doc = parse_lrc("\u{feff}[offset:500]\n[00:10.00][00:20.00] <00:10.00> Repeated <00:11.00> line\n[OFFSET: -250 ]\n[x]\n");
    assert_eq!(doc.offset_ms, -250);
    assert_eq!(doc.entries.len(), 3);
    assert_eq!(doc.entries[0].time_tag, "00:10.00");
    assert_eq!(doc.entries[1].time_tag, "00:20.00");
    assert_eq!(doc.entries[1].text, "Repeated line");
    assert_eq!(doc.entries[2].time_tag, "x");
    let bad = parse_lrc("[offset:abc]\n[ar: A ]");
    assert_eq!(bad.offset_ms, 0);
    assert_eq!(bad.artist.as_deref(), Some("A"));
    assert_eq!(bad.entries.len(), 0);
}

#[test]
fn time_tag_shapes() {
    match time_tag_shape("01:05.5") {
        TimeShape::MinutesSeconds { minutes, seconds, fraction } => {
            assert_eq!(minutes, "01");
            assert_eq!(seconds, "05");
            assert_eq!(fraction.as_deref(), Some("5"));
        }
        _ => panic!("expected minutes and seconds"),
    }
    match time_tag_shape("01:07:50") {
        TimeShape::ThreeParts { first, second, third } => {
            assert_eq!((first.as_str(), second.as_str(), third.as_str()), ("01", "07", "50"));
        }
        _ => panic!("expected three parts"),
    }
    match time_tag_shape("01:02:03,45") {
        TimeShape::HoursMinutesSecondsFraction { hours, minutes, seconds, fraction_text } => {
            assert_eq!((hours.as_str(), minutes.as_str(), seconds.as_str(), fraction_text.as_str()), ("01", "02", "03", "45"));
        }
        _ => panic!("expected hours with a fraction"),
    }
    assert!(matches!(time_tag_shape("12"), TimeShape::NotATime));
    assert!(matches!(time_tag_shape("1:2:3:4"), TimeShape::NotATime));
}

#[test]
fn lyrics_entries_need_the_lrc_extension() {
    assert!(lrc_entry_matches("/music/Song.flac", "/music/song.lrc"));
    assert!(lrc_entry_matches("/music/Song.flac", "/music/lyrics/SONG.LRC"));
    assert!(!lrc_entry_matches("/music/Song.flac", "/music/song.txt"));
    assert!(!lrc_entry_matches("/music/Song.flac", "/music/song"));
    assert!(!lrc_entry_matches("/music/Song.flac", "/music/.lrc"));
}

#[test]
fn lyrics_entries_match_by_comparable_stems() {
    assert!(lrc_entry_matches(
        "/m/01_Artist-Title (Official).mp3",
        "/m/lyrics/01 artist title.lrc"
    ));
    assert!(lrc_entry_matches("/m/Title.mp3", "/m/Title (Karaoke).lrc"));
    assert!(!lrc_entry_matches("/m/Title.mp3", "/m/Other.lrc"));
}

#[test]
fn songs_without_a_stem_have_no_lyrics_entry() {
    assert!(!lrc_entry_matches("/", "/x.lrc"));
    assert!(!lrc_entry_matches("", "x.lrc"));
}

#[test]
fn karaoke_version_finds_the_plain_lyrics() {
    assert!(lrc_entry_matches(
        "/tmp/d/Test Artist - Test Song (Karaoke).flac",
        "/tmp/d/Test Artist - Test Song.lrc"
    ));
}

#[test]
fn cleaned_stems_are_single_spaced_words() {
    let r = clean_song_stem("  Déjà__Vu -- (Official) [mp3]!! ");
    assert_eq!(r, "déjà vu");
    assert!(r.chars().all(|c| c == ' ' || c.is_alphanumeric()));
    assert_eq!(r, r.trim());
    assert!(!r.contains("  "));
}

#[test]
fn stripped_text_is_single_spaced() {
    let r = strip_inline_tags(" \u{a0}one <00:01.00>\t two\u{2003}\n three ");
    assert_eq!(r, "one two three");
    assert_eq!(strip_inline_tags("plain\t\ttext "), "plain text");
}
