use rusttracker::controls::{
    handle_input, toggle_picker, DialogKey, GestureKind, InputEvent, KeyKind, PadButton, UiAction,
    UiState,
};

fn key(k: KeyKind) -> InputEvent {
    InputEvent::Key { key: k, ctrl: false, alt: false, repeat: false }
}

fn ctrl(k: KeyKind) -> InputEvent {
    InputEvent::Key { key: k, ctrl: true, alt: false, repeat: false }
}

fn pad(b: PadButton) -> InputEvent {
    InputEvent::Pad { button: b, repeat: false, dialog_open: false }
}

fn player() -> UiState {
    UiState::new(vec!["a.mp3".to_string(), "b.mp3".to_string(), "c.mp3".to_string()], false)
}

#[test]
fn escape_closes_the_picker_before_quitting() {
    let mut s = player();
    toggle_picker(&mut s);
    assert!(s.picker_open);
    assert_eq!(handle_input(&mut s, key(KeyKind::Escape)), UiAction::Nothing);
    assert!(!s.picker_open);
    assert_eq!(handle_input(&mut s, key(KeyKind::Q)), UiAction::Quit);
}

#[test]
fn arrows_seek_and_ctrl_arrows_change_tracks() {
    let mut s = player();
    assert_eq!(handle_input(&mut s, key(KeyKind::Right)), UiAction::SeekForward);
    assert_eq!(handle_input(&mut s, key(KeyKind::Left)), UiAction::SeekBackward);
    let held = InputEvent::Key { key: KeyKind::Right, ctrl: false, alt: false, repeat: true };
    assert_eq!(handle_input(&mut s, held), UiAction::SeekForward);
    handle_input(&mut s, ctrl(KeyKind::Right));
    assert!(s.queue.track_ended);
    assert_eq!(s.queue.take_load_request(), Some("b.mp3".to_string()));
    handle_input(&mut s, ctrl(KeyKind::Left));
    assert_eq!(s.queue.playlist_index, 0);
    assert_eq!(s.queue.take_load_request(), Some("a.mp3".to_string()));
    let held = InputEvent::Key { key: KeyKind::Right, ctrl: true, alt: false, repeat: true };
    assert_eq!(handle_input(&mut s, held), UiAction::Nothing);
    assert!(!s.queue.track_ended);
}

#[test]
fn keys_switch_visualizers_and_toggle_views() {
    let mut s = player();
    handle_input(&mut s, key(KeyKind::PageDown));
    assert_eq!(s.visualizer, 1);
    handle_input(&mut s, key(KeyKind::BracketRight));
    assert_eq!(s.visualizer, 2);
    handle_input(&mut s, key(KeyKind::PageUp));
    handle_input(&mut s, key(KeyKind::BracketLeft));
    assert_eq!(s.visualizer, 0);
    handle_input(&mut s, key(KeyKind::BracketLeft));
    assert_eq!(s.visualizer, 11);
    assert_eq!(handle_input(&mut s, key(KeyKind::Up)), UiAction::VolumeUp);
    assert_eq!(handle_input(&mut s, key(KeyKind::Down)), UiAction::VolumeDown);
    assert_eq!(s.visualizer, 11);
    assert_eq!(handle_input(&mut s, key(KeyKind::M)), UiAction::ToggleMute);
    assert!(!s.picker_open);
    handle_input(&mut s, key(KeyKind::Tab));
    assert!(!s.show_hud);
    handle_input(&mut s, key(KeyKind::G));
    assert!(!s.gpu_fft);
    handle_input(&mut s, key(KeyKind::S));
    assert!(s.show_stats);
    handle_input(&mut s, key(KeyKind::H));
    assert!(s.show_help);
    handle_input(&mut s, key(KeyKind::Digit3));
    assert_eq!(s.hud_tab, 2);
    assert_eq!(handle_input(&mut s, key(KeyKind::F)), UiAction::ToggleFullscreen);
    let alt_enter = InputEvent::Key { key: KeyKind::Enter, ctrl: false, alt: true, repeat: false };
    assert_eq!(handle_input(&mut s, alt_enter), UiAction::ToggleFullscreen);
    assert_eq!(handle_input(&mut s, key(KeyKind::T)), UiAction::CycleAudioTrack);
    assert_eq!(handle_input(&mut s, key(KeyKind::Space)), UiAction::PlayPause);
    let repeated = InputEvent::Key { key: KeyKind::Tab, ctrl: false, alt: false, repeat: true };
    handle_input(&mut s, repeated);
    assert!(!s.show_hud);
}

#[test]
fn video_view_cycles_only_with_video() {
    let mut s = player();
    handle_input(&mut s, key(KeyKind::V));
    assert_eq!(s.video_mode, 0);
    s.has_video = true;
    handle_input(&mut s, key(KeyKind::V));
    handle_input(&mut s, pad(PadButton::LeftThumb));
    assert_eq!(s.video_mode, 2);
}

#[test]
fn the_picker_moves_toggles_and_chooses() {
    let mut s = player();
    handle_input(&mut s, key(KeyKind::PageDown));
    toggle_picker(&mut s);
    assert_eq!(s.picker_cursor, 1);
    handle_input(&mut s, key(KeyKind::Down));
    handle_input(&mut s, key(KeyKind::Down));
    assert_eq!(s.picker_cursor, 3);
    handle_input(&mut s, key(KeyKind::Space));
    assert!(!s.enabled[3]);
    handle_input(&mut s, key(KeyKind::Up));
    assert_eq!(s.picker_cursor, 2);
    handle_input(&mut s, key(KeyKind::Enter));
    assert!(!s.picker_open);
    assert_eq!(s.visualizer, 2);
    handle_input(&mut s, key(KeyKind::PageDown));
    assert_eq!(s.visualizer, 4);
}

#[test]
fn the_first_visualizer_cannot_be_disabled_in_the_picker() {
    let mut s = player();
    toggle_picker(&mut s);
    handle_input(&mut s, key(KeyKind::Space));
    assert!(s.enabled[0]);
}

#[test]
fn open_file_depends_on_game_mode() {
    let mut s = player();
    assert_eq!(handle_input(&mut s, key(KeyKind::O)), UiAction::OpenSystemPicker);
    assert!(!s.open_file_request);
    let mut g = UiState::new(vec![], true);
    assert_eq!(handle_input(&mut g, key(KeyKind::O)), UiAction::Nothing);
    assert!(g.open_file_request);
}

#[test]
fn gamepad_buttons() {
    let mut s = player();
    handle_input(&mut s, pad(PadButton::Select));
    assert!(s.show_stats);
    assert_eq!(handle_input(&mut s, pad(PadButton::Start)), UiAction::ToggleFullscreen);
    assert_eq!(handle_input(&mut s, pad(PadButton::South)), UiAction::PlayPause);
    assert_eq!(handle_input(&mut s, pad(PadButton::DPadRight)), UiAction::SeekForward);
    assert_eq!(handle_input(&mut s, pad(PadButton::DPadUp)), UiAction::VolumeUp);
    assert_eq!(handle_input(&mut s, pad(PadButton::DPadDown)), UiAction::VolumeDown);
    handle_input(&mut s, pad(PadButton::RightBumper));
    assert_eq!(s.visualizer, 1);
    handle_input(&mut s, pad(PadButton::LeftBumper));
    handle_input(&mut s, pad(PadButton::LeftBumper));
    assert_eq!(s.visualizer, 11);
    assert_eq!(handle_input(&mut s, pad(PadButton::LeftTrigger)), UiAction::ToggleMute);
    handle_input(&mut s, pad(PadButton::RightTrigger));
    assert!(!s.gpu_fft);
    handle_input(&mut s, pad(PadButton::North));
    assert_eq!(s.hud_tab, 1);
    assert_eq!(handle_input(&mut s, pad(PadButton::West)), UiAction::CycleAudioTrack);
    handle_input(&mut s, pad(PadButton::RightThumb));
    assert!(!s.show_hud);
    handle_input(&mut s, pad(PadButton::East));
    assert!(!s.show_stats);
    let held = InputEvent::Pad { button: PadButton::DPadLeft, repeat: true, dialog_open: false };
    assert_eq!(handle_input(&mut s, held), UiAction::SeekBackward);
    let held = InputEvent::Pad { button: PadButton::South, repeat: true, dialog_open: false };
    assert_eq!(handle_input(&mut s, held), UiAction::Nothing);
}

#[test]
fn gamepad_drives_the_open_file_browser() {
    let mut s = player();
    let ev = |b| InputEvent::Pad { button: b, repeat: false, dialog_open: true };
    assert_eq!(handle_input(&mut s, ev(PadButton::DPadUp)), UiAction::Dialog(DialogKey::Up));
    assert_eq!(handle_input(&mut s, ev(PadButton::South)), UiAction::Dialog(DialogKey::Enter));
    assert_eq!(handle_input(&mut s, ev(PadButton::East)), UiAction::Dialog(DialogKey::Escape));
    handle_input(&mut s, ev(PadButton::Select));
    assert!(s.show_stats);
    handle_input(&mut s, ev(PadButton::RightThumb));
    assert!(!s.show_hud);
}

#[test]
fn gamepad_in_the_picker() {
    let mut s = player();
    toggle_picker(&mut s);
    handle_input(&mut s, pad(PadButton::DPadUp));
    assert_eq!(s.picker_cursor, 11);
    assert_eq!(handle_input(&mut s, pad(PadButton::DPadRight)), UiAction::Nothing);
    handle_input(&mut s, pad(PadButton::South));
    assert_eq!(s.visualizer, 11);
    assert!(!s.picker_open);
    toggle_picker(&mut s);
    handle_input(&mut s, pad(PadButton::East));
    assert!(!s.picker_open);
    assert!(!s.show_stats);
}

#[test]
fn touch_gestures() {
    let mut s = player();
    handle_input(&mut s, InputEvent::Gesture(GestureKind::BottomPaneSwipeLeft));
    assert_eq!(s.visualizer, 1);
    handle_input(&mut s, InputEvent::Gesture(GestureKind::LandscapeSwipeRight));
    assert_eq!(s.visualizer, 0);
    handle_input(&mut s, InputEvent::Gesture(GestureKind::TopPaneSwipeRight));
    assert_eq!(s.hud_tab, 3);
    handle_input(&mut s, InputEvent::Gesture(GestureKind::LandscapeSwipeUp));
    assert_eq!(s.hud_tab, 0);
    handle_input(&mut s, InputEvent::Gesture(GestureKind::TopPaneSwipeUp));
    assert!(!s.video_fullscreen);
    s.has_video = true;
    handle_input(&mut s, InputEvent::Gesture(GestureKind::TopPaneSwipeUp));
    assert!(s.video_fullscreen);
    handle_input(&mut s, InputEvent::Gesture(GestureKind::TopPaneSwipeDown));
    assert!(!s.video_fullscreen);
    assert_eq!(handle_input(&mut s, InputEvent::Gesture(GestureKind::SingleTap)), UiAction::PlayPause);
    handle_input(&mut s, InputEvent::Gesture(GestureKind::DoubleTap));
    assert!(!s.show_hud);
    assert_eq!(
        handle_input(&mut s, InputEvent::Gesture(GestureKind::TwoFingerTap)),
        UiAction::CycleAudioTrack
    );
}
