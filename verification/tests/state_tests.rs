use rusttracker::state::{
    detect_gamepad_type,
    enable_all_visualizers, enable_only_first_visualizer, find_visualizer, gamepad_icon,
    is_game_mode, is_steam_deck_vendor, next_enabled_visualizer, next_video_mode,
    picker_cursor_down, picker_cursor_up, prev_enabled_visualizer, toggle_visualizer_enabled,
    visualizers, GamepadType, Geometry, PipelineType, PlayQueue, VISUALIZER_COUNT,
};

#[test]
fn test_synthwave_lyrics_visualizer_registration() {
    let all = visualizers();
    let vis = all.iter().find(|v| v.id == 23);
    assert!(vis.is_some(), "Visualizer ID 23 (3D Glass Water Lyrics) must be registered in VISUALIZERS");
    let def = vis.unwrap();
    assert_eq!(def.name, "3D Glass Water Lyrics");
    assert_eq!(def.filename, "vis_lyrics.wgsl");
    assert_eq!(def.pipeline_type, PipelineType::Mesh3D { geometry: Geometry::GlassLyricsScene, instances: 1 });
}

#[test]
fn gamepad_icons() {
    assert_eq!(gamepad_icon(GamepadType::PlayStation, "A"), "\u{e997}");
    assert_eq!(gamepad_icon(GamepadType::Nintendo, "A"), "\u{e974}");
    assert_eq!(gamepad_icon(GamepadType::Xbox, "B"), "\u{e974}");
    assert_eq!(gamepad_icon(GamepadType::SteamDeck, "R1"), "\u{e9a2}");
    assert_eq!(gamepad_icon(GamepadType::Xbox, "D-Pad L/R"), "\u{e9af} \u{e9ad}");
    assert_eq!(gamepad_icon(GamepadType::Xbox, "Zoom"), "Zoom");
}

#[test]
fn visualizer_switching() {
    let mut en = vec![true; VISUALIZER_COUNT];
    assert_eq!(next_enabled_visualizer(0, &en), 1);
    assert_eq!(next_enabled_visualizer(VISUALIZER_COUNT - 1, &en), 0);
    assert_eq!(prev_enabled_visualizer(0, &en), VISUALIZER_COUNT - 1);
    enable_only_first_visualizer(&mut en);
    assert_eq!(next_enabled_visualizer(0, &en), 0);
    assert_eq!(prev_enabled_visualizer(0, &en), 0);
    toggle_visualizer_enabled(&mut en, 5);
    toggle_visualizer_enabled(&mut en, 0);
    assert!(en[0] && en[5]);
    assert_eq!(next_enabled_visualizer(0, &en), 5);
    assert_eq!(next_enabled_visualizer(5, &en), 0);
    assert_eq!(prev_enabled_visualizer(5, &en), 0);
    assert_eq!(prev_enabled_visualizer(prev_enabled_visualizer(0, &en), &en), 0);
    enable_all_visualizers(&mut en);
    assert!(en.iter().all(|b| *b));
}

#[test]
fn picker_cursor_and_video_mode() {
    assert_eq!(picker_cursor_up(0, 12), 11);
    assert_eq!(picker_cursor_down(11, 12), 0);
    assert_eq!(picker_cursor_down(picker_cursor_up(4, 12), 12), 4);
    assert_eq!(next_video_mode(3, true), 0);
    assert_eq!(next_video_mode(1, true), 2);
    assert_eq!(next_video_mode(2, false), 0);
}

#[test]
fn visualizer_lookup_and_device() {
    assert_eq!(find_visualizer("SOLAR"), Some(6));
    assert_eq!(find_visualizer("vis_lyrics"), Some(11));
    assert_eq!(find_visualizer("3doscilloscope_freq"), Some(3));
    assert_eq!(find_visualizer("nothing-like-this"), None);
    assert!(is_steam_deck_vendor(Some("  Valve\n")));
    assert!(!is_steam_deck_vendor(Some("LENOVO")));
    assert!(!is_steam_deck_vendor(None));
    assert!(is_game_mode("GameScope", "", false));
    assert!(is_game_mode("", "", true));
    assert!(!is_game_mode("KDE", "plasma", false));
}

#[test]
fn play_queue_drop_and_navigation() {
    let mut q = PlayQueue::new(vec![]);
    q.drop_file("song1.flac".to_string());
    assert!(q.file_loaded);
    assert_eq!(q.playlist, vec!["song1.flac".to_string()]);
    assert_eq!(q.take_load_request(), Some("song1.flac".to_string()));
    q.drop_file("song2.mp3".to_string());
    assert_eq!(q.playlist.len(), 2);
    assert_eq!(q.take_load_request(), None);
    q.skip_track();
    assert_eq!(q.take_load_request(), Some("song2.mp3".to_string()));
    assert_eq!(q.playlist_index, 1);
    q.previous_track();
    assert_eq!(q.take_load_request(), Some("song1.flac".to_string()));
    q.previous_track();
    assert_eq!(q.take_load_request(), None);
    q.load_files(vec!["x.wav".to_string()], true);
    assert_eq!(q.playlist.len(), 3);
    q.load_files(vec!["y.wav".to_string()], false);
    assert_eq!(q.playlist, vec!["y.wav".to_string()]);
    assert_eq!(q.take_load_request(), Some("y.wav".to_string()));
    q.picked_files(vec![], false);
    assert_eq!(q.playlist, vec!["y.wav".to_string()]);
}

fn pads(list: &[(&str, u16)]) -> Vec<(String, u16)> {
    list.iter().map(|(n, v)| (n.to_string(), *v)).collect()
}

#[test]
fn gamepads_default_to_xbox_glyphs() {
    assert_eq!(detect_gamepad_type(&pads(&[])), GamepadType::Xbox);
    assert_eq!(detect_gamepad_type(&pads(&[("Microsoft X-Box 360 pad", 0x045E)])), GamepadType::Xbox);
}

#[test]
fn gamepads_are_recognised_by_name_or_vendor() {
    assert_eq!(
        detect_gamepad_type(&pads(&[("Sony Interactive Entertainment DualSense", 0)])),
        GamepadType::PlayStation
    );
    assert_eq!(detect_gamepad_type(&pads(&[("Generic pad", 0x054C)])), GamepadType::PlayStation);
    assert_eq!(detect_gamepad_type(&pads(&[("Nintendo Switch Pro Controller", 0)])), GamepadType::Nintendo);
    assert_eq!(detect_gamepad_type(&pads(&[("Generic pad", 0x057E)])), GamepadType::Nintendo);
    assert_eq!(detect_gamepad_type(&pads(&[("JOY-CON (L)", 0)])), GamepadType::Nintendo);
}

#[test]
fn the_first_recognised_gamepad_decides() {
    assert_eq!(
        detect_gamepad_type(&pads(&[("X-Box pad", 0x045E), ("Pro Controller", 0), ("PS5 pad", 0)])),
        GamepadType::Nintendo
    );
    assert_eq!(
        detect_gamepad_type(&pads(&[("DualShock 4", 0), ("Joy-Con (R)", 0)])),
        GamepadType::PlayStation
    );
}

#[test]
fn queue_position_stays_in_range() {
    let mut q = PlayQueue::new(vec!["a".to_string(), "b".to_string()]);
    q.skip_track();
    assert_eq!(q.take_load_request(), Some("b".to_string()));
    assert_eq!(q.playlist_index, 1);
    q.skip_track();
    assert_eq!(q.take_load_request(), None);
    assert_eq!(q.playlist_index, 2);
    q.previous_track();
    assert_eq!(q.playlist_index, 1);
    assert_eq!(q.take_load_request(), Some("b".to_string()));
    q.drop_file("c".to_string());
    assert!(q.playlist_index <= q.playlist.len());
}

#[test]
fn stepping_back_then_skipping_returns_to_the_track() {
    let mut q = PlayQueue::new(vec!["a".to_string(), "b".to_string(), "c".to_string()]);
    q.skip_track();
    q.take_load_request();
    q.skip_track();
    assert_eq!(q.take_load_request(), Some("c".to_string()));
    q.previous_track();
    q.skip_track();
    assert_eq!(q.take_load_request(), Some("c".to_string()));
    assert_eq!(q.playlist_index, 2);
}

#[test]
fn switching_forward_then_back_returns() {
    let mut en = vec![true; VISUALIZER_COUNT];
    en[3] = false;
    en[4] = false;
    en[9] = false;
    for cur in 0..VISUALIZER_COUNT {
        if en[cur] {
            assert_eq!(prev_enabled_visualizer(next_enabled_visualizer(cur, &en), &en), cur);
            assert_eq!(next_enabled_visualizer(prev_enabled_visualizer(cur, &en), &en), cur);
        }
        assert!(en[next_enabled_visualizer(cur, &en)]);
        assert!(en[prev_enabled_visualizer(cur, &en)]);
    }
}

#[test]
fn toggling_twice_changes_nothing() {
    let mut en = vec![true, false, true, true];
    let before = en.clone();
    toggle_visualizer_enabled(&mut en, 1);
    assert_eq!(en, vec![true, true, true, true]);
    toggle_visualizer_enabled(&mut en, 1);
    assert_eq!(en, before);
    toggle_visualizer_enabled(&mut en, 0);
    assert_eq!(en, before);
}
