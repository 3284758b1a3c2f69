//! The player's controls: what each key, gamepad button and touch gesture
//! does to the player's state, and what it asks the surrounding program to do
//! (seeking, pausing, quitting, the split between panels, the audio track).
use vstd::prelude::*;
use crate::state::{
    QueueModel, PlayQueue, VISUALIZER_COUNT, next_enabled, prev_enabled, next_enabled_visualizer,
    prev_enabled_visualizer, previous_track_spec, skip_track_spec, next_video_mode,
    picker_cursor_up, picker_cursor_down, toggle_visualizer_enabled,
};
use crate::text::string_views;

verus! {

/// The keys the player reacts to.
#[derive(Debug, Clone, Copy, PartialEq, Eq, Structural)]
pub enum KeyKind {
    Escape,
    Q,
    Left,
    Right,
    Up,
    Down,
    BracketLeft,
    BracketRight,
    PageUp,
    PageDown,
    Tab,
    F,
    G,
    S,
    H,
    O,
    M,
    V,
    T,
    Space,
    Enter,
    Digit1,
    Digit2,
    Digit3,
    Digit4,
    Other,
}

/// The gamepad buttons the player reacts to (the bumpers are L1/R1 or LB/RB,
/// the triggers L2/R2 or LT/RT, the stick clicks L3/R3; Select is the
/// Back/View button).
#[derive(Debug, Clone, Copy, PartialEq, Eq, Structural)]
pub enum PadButton {
    South,
    East,
    North,
    West,
    LeftBumper,
    RightBumper,
    LeftTrigger,
    RightTrigger,
    Select,
    Start,
    DPadUp,
    DPadDown,
    DPadLeft,
    DPadRight,
    LeftThumb,
    RightThumb,
    Other,
}

/// The touch gestures (see the touch bookkeeping for how they are told apart).
#[derive(Debug, Clone, Copy, PartialEq, Eq, Structural)]
pub enum GestureKind {
    TopPaneSwipeLeft,
    TopPaneSwipeRight,
    TopPaneSwipeUp,
    TopPaneSwipeDown,
    BottomPaneSwipeLeft,
    BottomPaneSwipeRight,
    BottomPaneSwipeUp,
    BottomPaneSwipeDown,
    LandscapeSwipeLeft,
    LandscapeSwipeRight,
    LandscapeSwipeUp,
    LandscapeSwipeDown,
    SingleTap,
    DoubleTap,
    TwoFingerTap,
    TwoFingerDoubleTap,
}

/// One input: a key press (with the Ctrl and Alt modifiers and whether it
/// is a key repeat), a gamepad button press (whether it repeats, and whether
/// the in-app file browser is open), or a touch gesture.
#[derive(Debug, Clone, Copy, PartialEq, Eq, Structural)]
pub enum InputEvent {
    Key { key: KeyKind, ctrl: bool, alt: bool, repeat: bool },
    Pad { button: PadButton, repeat: bool, dialog_open: bool },
    Gesture(GestureKind),
}

/// A key passed on to the in-app file browser.
#[derive(Debug, Clone, Copy, PartialEq, Eq, Structural)]
pub enum DialogKey {
    Up,
    Down,
    Left,
    Right,
    Enter,
    Escape,
}

/// What an input asks of the surrounding program.
#[derive(Debug, Clone, Copy, PartialEq, Eq, Structural)]
pub enum UiAction {
    Nothing,
    Quit,
    ToggleFullscreen,
    /// Seek five seconds forward.
    SeekForward,
    /// Seek five seconds back (not before the start).
    SeekBackward,
    /// Play or pause (or restart a track that has played to its end).
    PlayPause,
    /// Open the system's file picker.
    OpenSystemPicker,
    VolumeUp,
    VolumeDown,
    ToggleMute,
    /// Pass a key to the in-app file browser.
    Dialog(DialogKey),
    /// Switch to the next audio track of a multi-track file.
    CycleAudioTrack,
}

/// The number of HUD tabs: channels, heatmap and lyrics, track info, video.
pub const HUD_TABS: usize = 4;

/// The player's interface state, mathematically.
pub struct UiModel {
    pub queue: QueueModel,
    pub visualizer: int,
    pub enabled: Seq<bool>,
    pub picker_open: bool,
    pub picker_cursor: int,
    pub show_hud: bool,
    pub show_stats: bool,
    pub show_help: bool,
    pub gpu_fft: bool,
    pub open_file_request: bool,
    pub video_mode: int,
    pub has_video: bool,
    pub video_fullscreen: bool,
    pub hud_tab: int,
    pub game_mode: bool,
}

/// The interface states the player is ever in: one enabled flag per
/// visualizer, the current visualizer and the picker cursor among them, the
/// queue position at most one past the playlist's end, a HUD tab and one of
/// the four video views.
pub open spec fn ui_wf(m: UiModel) -> bool {
    &&& m.enabled.len() == VISUALIZER_COUNT
    &&& 0 <= m.visualizer < VISUALIZER_COUNT
    &&& 0 <= m.picker_cursor < VISUALIZER_COUNT
    &&& 0 <= m.queue.index <= m.queue.playlist.len()
    &&& 0 <= m.hud_tab < HUD_TABS
    &&& 0 <= m.video_mode < 4
}

/// Switching to the next enabled visualizer.
pub open spec fn vis_next(m: UiModel) -> UiModel {
    UiModel { visualizer: next_enabled(m.visualizer, m.enabled), ..m }
}

/// Switching to the previous enabled visualizer.
pub open spec fn vis_prev(m: UiModel) -> UiModel {
    UiModel { visualizer: prev_enabled(m.visualizer, m.enabled), ..m }
}

/// The next HUD tab, cyclically.
pub open spec fn tab_next(m: UiModel) -> UiModel {
    UiModel { hud_tab: (m.hud_tab + 1) % (HUD_TABS as int), ..m }
}

/// The previous HUD tab, cyclically.
pub open spec fn tab_prev(m: UiModel) -> UiModel {
    UiModel { hud_tab: (m.hud_tab + HUD_TABS - 1) % (HUD_TABS as int), ..m }
}

/// The picker cursor one entry up, wrapping.
pub open spec fn cursor_up(m: UiModel) -> UiModel {
    UiModel {
        picker_cursor: if m.picker_cursor == 0 {
            VISUALIZER_COUNT - 1
        } else {
            m.picker_cursor - 1
        },
        ..m
    }
}

/// The picker cursor one entry down, wrapping.
pub open spec fn cursor_down(m: UiModel) -> UiModel {
    UiModel { picker_cursor: (m.picker_cursor + 1) % (VISUALIZER_COUNT as int), ..m }
}

/// The visualizer under the picker cursor chosen, and the picker closed.
pub open spec fn picker_select(m: UiModel) -> UiModel {
    UiModel { visualizer: m.picker_cursor, picker_open: false, ..m }
}

/// The visualizer under the picker cursor enabled or disabled (the first one
/// stays enabled).
pub open spec fn picker_toggle(m: UiModel) -> UiModel {
    if m.picker_cursor == 0 {
        m
    } else {
        UiModel { enabled: m.enabled.update(m.picker_cursor, !m.enabled[m.picker_cursor]), ..m }
    }
}

/// The next video view.
pub open spec fn video_next(m: UiModel) -> UiModel {
    UiModel {
        video_mode: if m.has_video {
            (m.video_mode + 1) % 4
        } else {
            0
        },
        ..m
    }
}

/// A key press:
/// - Escape / Q: close the visualizer picker when open, else quit.
/// - Ctrl+Left / Ctrl+Right (not on key repeat): previous track / skip the
///   track; Left / Right alone: seek back / forward (key repeats too).
/// - Every other key acts on its first press only:
///   `]` / `[` and Page Down / Page Up switch to the next / previous
///   visualizer; Tab shows or hides the HUD; F, and Alt+Enter, toggle full
///   screen; G the GPU FFT; S the statistics; H the help; O opens the in-app
///   browser in game mode, else the system picker; M toggles mute; V the next
///   video view; T the next audio track; 1-4 choose a HUD tab.
/// - In the visualizer picker, Up / Down move the cursor, Space enables or
///   disables the visualizer under it and Enter chooses it; otherwise Up /
///   Down turn the volume up / down, Space plays or pauses and Enter does
///   nothing.
pub open spec fn key_step(m: UiModel, key: KeyKind, ctrl: bool, alt: bool, repeat: bool) -> (UiModel, UiAction) {
    match key {
        KeyKind::Escape | KeyKind::Q => if repeat {
            (m, UiAction::Nothing)
        } else if m.picker_open {
            (UiModel { picker_open: false, ..m }, UiAction::Nothing)
        } else {
            (m, UiAction::Quit)
        },
        KeyKind::Left => if !ctrl {
            (m, UiAction::SeekBackward)
        } else if repeat {
            (m, UiAction::Nothing)
        } else {
            (UiModel { queue: previous_track_spec(m.queue), ..m }, UiAction::Nothing)
        },
        KeyKind::Right => if !ctrl {
            (m, UiAction::SeekForward)
        } else if repeat {
            (m, UiAction::Nothing)
        } else {
            (UiModel { queue: skip_track_spec(m.queue), ..m }, UiAction::Nothing)
        },
        _ => if repeat {
            (m, UiAction::Nothing)
        } else {
            key_press_step(m, key, alt)
        },
    }
}

/// A first press of a key other than Escape, Q, Left and Right (see
/// `key_step`).
pub open spec fn key_press_step(m: UiModel, key: KeyKind, alt: bool) -> (UiModel, UiAction) {
    match key {
        KeyKind::BracketLeft => (vis_prev(m), UiAction::Nothing),
        KeyKind::BracketRight => (vis_next(m), UiAction::Nothing),
        KeyKind::PageDown => (vis_next(m), UiAction::Nothing),
        KeyKind::PageUp => (vis_prev(m), UiAction::Nothing),
        KeyKind::Tab => (UiModel { show_hud: !m.show_hud, ..m }, UiAction::Nothing),
        KeyKind::F => (m, UiAction::ToggleFullscreen),
        KeyKind::G => (UiModel { gpu_fft: !m.gpu_fft, ..m }, UiAction::Nothing),
        KeyKind::S => (UiModel { show_stats: !m.show_stats, ..m }, UiAction::Nothing),
        KeyKind::H => (UiModel { show_help: !m.show_help, ..m }, UiAction::Nothing),
        KeyKind::O => if m.game_mode {
            (UiModel { open_file_request: true, ..m }, UiAction::Nothing)
        } else {
            (m, UiAction::OpenSystemPicker)
        },
        KeyKind::M => (m, UiAction::ToggleMute),
        KeyKind::V => (video_next(m), UiAction::Nothing),
        KeyKind::T => (m, UiAction::CycleAudioTrack),
        KeyKind::Space => if m.picker_open {
            (picker_toggle(m), UiAction::Nothing)
        } else {
            (m, UiAction::PlayPause)
        },
        KeyKind::Enter => if alt {
            (m, UiAction::ToggleFullscreen)
        } else if m.picker_open {
            (picker_select(m), UiAction::Nothing)
        } else {
            (m, UiAction::Nothing)
        },
        KeyKind::Up => if m.picker_open {
            (cursor_up(m), UiAction::Nothing)
        } else {
            (m, UiAction::VolumeUp)
        },
        KeyKind::Down => if m.picker_open {
            (cursor_down(m), UiAction::Nothing)
        } else {
            (m, UiAction::VolumeDown)
        },
        KeyKind::Digit1 => (UiModel { hud_tab: 0, ..m }, UiAction::Nothing),
        KeyKind::Digit2 => (UiModel { hud_tab: 1, ..m }, UiAction::Nothing),
        KeyKind::Digit3 => (UiModel { hud_tab: 2, ..m }, UiAction::Nothing),
        KeyKind::Digit4 => (UiModel { hud_tab: 3, ..m }, UiAction::Nothing),
        _ => (m, UiAction::Nothing),
    }
}

/// A gamepad button press:
/// - A repeating button only seeks (D-pad right / left); others do nothing.
/// - Select (Back / View) toggles the statistics and Start toggles full
///   screen, always.
/// - With the in-app file browser open, the D-pad, South (Enter) and East
///   (Escape) go to the browser.
/// - Otherwise: RB / LB switch to the next / previous visualizer; LT toggles
///   mute; RT the GPU FFT; North (Y) the next HUD tab; West (X) the next audio
///   track; R3 shows or hides the HUD; L3 the next video view; East closes the
///   picker when open, else toggles the statistics. Outside the picker the
///   D-pad seeks (left / right) and turns the volume up / down, and South
///   (A) plays or pauses; in the picker up / down move the cursor and South
///   chooses.
pub open spec fn pad_step(m: UiModel, button: PadButton, repeat: bool, dialog_open: bool) -> (UiModel, UiAction) {
    if repeat {
        match button {
            PadButton::DPadRight => (m, UiAction::SeekForward),
            PadButton::DPadLeft => (m, UiAction::SeekBackward),
            _ => (m, UiAction::Nothing),
        }
    } else if button == PadButton::Select {
        (UiModel { show_stats: !m.show_stats, ..m }, UiAction::Nothing)
    } else if button == PadButton::Start {
        (m, UiAction::ToggleFullscreen)
    } else if dialog_open && button == PadButton::DPadUp {
        (m, UiAction::Dialog(DialogKey::Up))
    } else if dialog_open && button == PadButton::DPadDown {
        (m, UiAction::Dialog(DialogKey::Down))
    } else if dialog_open && button == PadButton::DPadLeft {
        (m, UiAction::Dialog(DialogKey::Left))
    } else if dialog_open && button == PadButton::DPadRight {
        (m, UiAction::Dialog(DialogKey::Right))
    } else if dialog_open && button == PadButton::South {
        (m, UiAction::Dialog(DialogKey::Enter))
    } else if dialog_open && button == PadButton::East {
        (m, UiAction::Dialog(DialogKey::Escape))
    } else {
        pad_press_step(m, button)
    }
}

/// A first press of a button with the in-app browser closed, or of a button
/// it does not take (see `pad_step`).
pub open spec fn pad_press_step(m: UiModel, button: PadButton) -> (UiModel, UiAction) {
    match button {
        PadButton::LeftBumper => (vis_prev(m), UiAction::Nothing),
        PadButton::RightBumper => (vis_next(m), UiAction::Nothing),
        PadButton::LeftTrigger => (m, UiAction::ToggleMute),
        PadButton::RightTrigger => (UiModel { gpu_fft: !m.gpu_fft, ..m }, UiAction::Nothing),
        PadButton::North => (tab_next(m), UiAction::Nothing),
        PadButton::West => (m, UiAction::CycleAudioTrack),
        PadButton::RightThumb => (UiModel { show_hud: !m.show_hud, ..m }, UiAction::Nothing),
        PadButton::LeftThumb => (video_next(m), UiAction::Nothing),
        PadButton::East => if m.picker_open {
            (UiModel { picker_open: false, ..m }, UiAction::Nothing)
        } else {
            (UiModel { show_stats: !m.show_stats, ..m }, UiAction::Nothing)
        },
        PadButton::DPadRight => if m.picker_open {
            (m, UiAction::Nothing)
        } else {
            (m, UiAction::SeekForward)
        },
        PadButton::DPadLeft => if m.picker_open {
            (m, UiAction::Nothing)
        } else {
            (m, UiAction::SeekBackward)
        },
        PadButton::DPadUp => if m.picker_open {
            (cursor_up(m), UiAction::Nothing)
        } else {
            (m, UiAction::VolumeUp)
        },
        PadButton::DPadDown => if m.picker_open {
            (cursor_down(m), UiAction::Nothing)
        } else {
            (m, UiAction::VolumeDown)
        },
        PadButton::South => if m.picker_open {
            (picker_select(m), UiAction::Nothing)
        } else {
            (m, UiAction::PlayPause)
        },
        _ => (m, UiAction::Nothing),
    }
}

/// A touch gesture:
/// - Top pane: swipe left / right for the next / previous HUD tab; swipe up
///   for full-screen video when a video stream is shown; swipe down back to
///   the split view.
/// - Bottom pane, and landscape: swipe left / right for the next / previous
///   visualizer; in landscape, swipe up / down for the next / previous HUD tab.
/// - Single tap: play or pause; double tap: show or hide the HUD; two-finger
///   tap: the next audio track.
pub open spec fn gesture_step(m: UiModel, g: GestureKind) -> (UiModel, UiAction) {
    match g {
        GestureKind::TopPaneSwipeLeft => (tab_next(m), UiAction::Nothing),
        GestureKind::TopPaneSwipeRight => (tab_prev(m), UiAction::Nothing),
        GestureKind::TopPaneSwipeUp => if m.has_video {
            (UiModel { video_fullscreen: true, ..m }, UiAction::Nothing)
        } else {
            (m, UiAction::Nothing)
        },
        GestureKind::TopPaneSwipeDown => (UiModel { video_fullscreen: false, ..m }, UiAction::Nothing),
        GestureKind::BottomPaneSwipeLeft => (vis_next(m), UiAction::Nothing),
        GestureKind::BottomPaneSwipeRight => (vis_prev(m), UiAction::Nothing),
        GestureKind::LandscapeSwipeLeft => (vis_next(m), UiAction::Nothing),
        GestureKind::LandscapeSwipeRight => (vis_prev(m), UiAction::Nothing),
        GestureKind::LandscapeSwipeUp => (tab_next(m), UiAction::Nothing),
        GestureKind::LandscapeSwipeDown => (tab_prev(m), UiAction::Nothing),
        GestureKind::SingleTap => (m, UiAction::PlayPause),
        GestureKind::DoubleTap => (UiModel { show_hud: !m.show_hud, ..m }, UiAction::Nothing),
        GestureKind::TwoFingerTap => (m, UiAction::CycleAudioTrack),
        _ => (m, UiAction::Nothing),
    }
}

/// What one input does (see `key_step`, `pad_step` and `gesture_step`).
pub open spec fn ui_step(m: UiModel, ev: InputEvent) -> (UiModel, UiAction) {
    match ev {
        InputEvent::Key { key, ctrl, alt, repeat } => key_step(m, key, ctrl, alt, repeat),
        InputEvent::Pad { button, repeat, dialog_open } => pad_step(m, button, repeat, dialog_open),
        InputEvent::Gesture(g) => gesture_step(m, g),
    }
}

/// The player's interface state.
pub struct UiState {
    pub queue: PlayQueue,
    pub visualizer: usize,
    pub enabled: Vec<bool>,
    pub picker_open: bool,
    pub picker_cursor: usize,
    pub show_hud: bool,
    pub show_stats: bool,
    pub show_help: bool,
    pub gpu_fft: bool,
    pub open_file_request: bool,
    pub video_mode: u32,
    pub has_video: bool,
    pub video_fullscreen: bool,
    pub hud_tab: usize,
    pub game_mode: bool,
}

impl UiState {
    /// The state, mathematically.
    pub open spec fn model(&self) -> UiModel {
        UiModel {
            queue: self.queue.model(),
            visualizer: self.visualizer as int,
            enabled: self.enabled@,
            picker_open: self.picker_open,
            picker_cursor: self.picker_cursor as int,
            show_hud: self.show_hud,
            show_stats: self.show_stats,
            show_help: self.show_help,
            gpu_fft: self.gpu_fft,
            open_file_request: self.open_file_request,
            video_mode: self.video_mode as int,
            has_video: self.has_video,
            video_fullscreen: self.video_fullscreen,
            hud_tab: self.hud_tab as int,
            game_mode: self.game_mode,
        }
    }

    /// Whether the state is one the player is ever in (see `ui_wf`).
    pub open spec fn wf(&self) -> bool {
        ui_wf(self.model())
    }

    /// The state at start-up: the files given, the first visualizer, every
    /// visualizer enabled, the HUD shown and the GPU FFT on, everything else
    /// off or closed.
    pub fn new(playlist: Vec<String>, game_mode: bool) -> (r: UiState)
        ensures
            r.wf(),
            r.model() == (UiModel {
                queue: QueueModel {
                    playlist: string_views(playlist@),
                    index: 0,
                    load_request: None,
                    file_loaded: false,
                    track_ended: false,
                },
                visualizer: 0,
                enabled: Seq::new(VISUALIZER_COUNT as nat, |i: int| true),
                picker_open: false,
                picker_cursor: 0,
                show_hud: true,
                show_stats: false,
                show_help: false,
                gpu_fft: true,
                open_file_request: false,
                video_mode: 0,
                has_video: false,
                video_fullscreen: false,
                hud_tab: 0,
                game_mode,
            }),
    {
        let mut enabled: Vec<bool> = Vec::new();
        for i in 0..VISUALIZER_COUNT
            invariant
                enabled@ =~= Seq::new(i as nat, |k: int| true),
        {
            enabled.push(true);
        }
        UiState {
            queue: PlayQueue::new(playlist),
            visualizer: 0,
            enabled,
            picker_open: false,
            picker_cursor: 0,
            show_hud: true,
            show_stats: false,
            show_help: false,
            gpu_fft: true,
            open_file_request: false,
            video_mode: 0,
            has_video: false,
            video_fullscreen: false,
            hud_tab: 0,
            game_mode,
        }
    }

    fn switch_next(&mut self)
        requires
            old(self).wf(),
        ensures
            final(self).wf(),
            final(self).model() == vis_next(old(self).model()),
    {
        self.visualizer = next_enabled_visualizer(self.visualizer, &self.enabled);
    }

    fn switch_prev(&mut self)
        requires
            old(self).wf(),
        ensures
            final(self).wf(),
            final(self).model() == vis_prev(old(self).model()),
    {
        self.visualizer = prev_enabled_visualizer(self.visualizer, &self.enabled);
    }

    fn tab_forward(&mut self)
        requires
            old(self).wf(),
        ensures
            final(self).wf(),
            final(self).model() == tab_next(old(self).model()),
    {
        self.hud_tab = (self.hud_tab + 1) % HUD_TABS;
    }

    fn tab_back(&mut self)
        requires
            old(self).wf(),
        ensures
            final(self).wf(),
            final(self).model() == tab_prev(old(self).model()),
    {
        self.hud_tab = (self.hud_tab + HUD_TABS - 1) % HUD_TABS;
    }

    fn cursor_up_exec(&mut self)
        requires
            old(self).wf(),
        ensures
            final(self).wf(),
            final(self).model() == cursor_up(old(self).model()),
    {
        self.picker_cursor = picker_cursor_up(self.picker_cursor, VISUALIZER_COUNT);
    }

    fn cursor_down_exec(&mut self)
        requires
            old(self).wf(),
        ensures
            final(self).wf(),
            final(self).model() == cursor_down(old(self).model()),
    {
        self.picker_cursor = picker_cursor_down(self.picker_cursor, VISUALIZER_COUNT);
    }

    fn select_exec(&mut self)
        requires
            old(self).wf(),
        ensures
            final(self).wf(),
            final(self).model() == picker_select(old(self).model()),
    {
        self.visualizer = self.picker_cursor;
        self.picker_open = false;
    }

    fn toggle_exec(&mut self)
        requires
            old(self).wf(),
        ensures
            final(self).wf(),
            final(self).model() == picker_toggle(old(self).model()),
    {
        toggle_visualizer_enabled(&mut self.enabled, self.picker_cursor);
    }

    fn video_exec(&mut self)
        requires
            old(self).wf(),
        ensures
            final(self).wf(),
            final(self).model() == video_next(old(self).model()),
    {
        self.video_mode = next_video_mode(self.video_mode, self.has_video);
    }

    fn previous_exec(&mut self)
        requires
            old(self).wf(),
        ensures
            final(self).wf(),
            final(self).model() == (UiModel { queue: previous_track_spec(old(self).model().queue), ..old(self).model() }),
    {
        self.queue.previous_track();
    }

    fn skip_exec(&mut self)
        requires
            old(self).wf(),
        ensures
            final(self).wf(),
            final(self).model() == (UiModel { queue: skip_track_spec(old(self).model().queue), ..old(self).model() }),
    {
        self.queue.skip_track();
    }

    fn key_input(&mut self, key: KeyKind, ctrl: bool, alt: bool, repeat: bool) -> (act: UiAction)
        requires
            old(self).wf(),
        ensures
            final(self).wf(),
            (final(self).model(), act) == key_step(old(self).model(), key, ctrl, alt, repeat),
    {
        match key {
            KeyKind::Escape | KeyKind::Q => {
                if repeat {
                    UiAction::Nothing
                } else if self.picker_open {
                    self.picker_open = false;
                    UiAction::Nothing
                } else {
                    UiAction::Quit
                }
            },
            KeyKind::Left => {
                if !ctrl {
                    UiAction::SeekBackward
                } else if repeat {
                    UiAction::Nothing
                } else {
                    self.previous_exec();
                    UiAction::Nothing
                }
            },
            KeyKind::Right => {
                if !ctrl {
                    UiAction::SeekForward
                } else if repeat {
                    UiAction::Nothing
                } else {
                    self.skip_exec();
                    UiAction::Nothing
                }
            },
            _ => {
                if repeat {
                    return UiAction::Nothing;
                }
                self.key_press(key, alt)
            },
        }
    }

    fn key_press(&mut self, key: KeyKind, alt: bool) -> (act: UiAction)
        requires
            old(self).wf(),
        ensures
            final(self).wf(),
            (final(self).model(), act) == key_press_step(old(self).model(), key, alt),
    {
        match key {
            KeyKind::BracketLeft => {
                self.switch_prev();
                UiAction::Nothing
            },
            KeyKind::BracketRight => {
                self.switch_next();
                UiAction::Nothing
            },
            KeyKind::PageDown => {
                self.switch_next();
                UiAction::Nothing
            },
            KeyKind::PageUp => {
                self.switch_prev();
                UiAction::Nothing
            },
            KeyKind::Tab => {
                self.show_hud = !self.show_hud;
                UiAction::Nothing
            },
            KeyKind::F => UiAction::ToggleFullscreen,
            KeyKind::G => {
                self.gpu_fft = !self.gpu_fft;
                UiAction::Nothing
            },
            KeyKind::S => {
                self.show_stats = !self.show_stats;
                UiAction::Nothing
            },
            KeyKind::H => {
                self.show_help = !self.show_help;
                UiAction::Nothing
            },
            KeyKind::O => {
                if self.game_mode {
                    self.open_file_request = true;
                    UiAction::Nothing
                } else {
                    UiAction::OpenSystemPicker
                }
            },
            KeyKind::M => UiAction::ToggleMute,
            KeyKind::V => {
                self.video_exec();
                UiAction::Nothing
            },
            KeyKind::T => UiAction::CycleAudioTrack,
            KeyKind::Space => {
                if self.picker_open {
                    self.toggle_exec();
                    UiAction::Nothing
                } else {
                    UiAction::PlayPause
                }
            },
            KeyKind::Enter => {
                if alt {
                    UiAction::ToggleFullscreen
                } else if self.picker_open {
                    self.select_exec();
                    UiAction::Nothing
                } else {
                    UiAction::Nothing
                }
            },
            KeyKind::Up => {
                if self.picker_open {
                    self.cursor_up_exec();
                    UiAction::Nothing
                } else {
                    UiAction::VolumeUp
                }
            },
            KeyKind::Down => {
                if self.picker_open {
                    self.cursor_down_exec();
                    UiAction::Nothing
                } else {
                    UiAction::VolumeDown
                }
            },
            KeyKind::Digit1 => {
                self.hud_tab = 0;
                UiAction::Nothing
            },
            KeyKind::Digit2 => {
                self.hud_tab = 1;
                UiAction::Nothing
            },
            KeyKind::Digit3 => {
                self.hud_tab = 2;
                UiAction::Nothing
            },
            KeyKind::Digit4 => {
                self.hud_tab = 3;
                UiAction::Nothing
            },
            _ => UiAction::Nothing,
        }
    }

    fn pad_input(&mut self, button: PadButton, repeat: bool, dialog_open: bool) -> (act: UiAction)
        requires
            old(self).wf(),
        ensures
            final(self).wf(),
            (final(self).model(), act) == pad_step(old(self).model(), button, repeat, dialog_open),
    {
        if repeat {
            return match button {
                PadButton::DPadRight => UiAction::SeekForward,
                PadButton::DPadLeft => UiAction::SeekBackward,
                _ => UiAction::Nothing,
            };
        }
        if button == PadButton::Select {
            self.show_stats = !self.show_stats;
            return UiAction::Nothing;
        }
        if button == PadButton::Start {
            return UiAction::ToggleFullscreen;
        }
        if dialog_open {
            match button {
                PadButton::DPadUp => {
                    return UiAction::Dialog(DialogKey::Up);
                },
                PadButton::DPadDown => {
                    return UiAction::Dialog(DialogKey::Down);
                },
                PadButton::DPadLeft => {
                    return UiAction::Dialog(DialogKey::Left);
                },
                PadButton::DPadRight => {
                    return UiAction::Dialog(DialogKey::Right);
                },
                PadButton::South => {
                    return UiAction::Dialog(DialogKey::Enter);
                },
                PadButton::East => {
                    return UiAction::Dialog(DialogKey::Escape);
                },
                _ => {},
            }
        }
        self.pad_press(button)
    }

    fn pad_press(&mut self, button: PadButton) -> (act: UiAction)
        requires
            old(self).wf(),
        ensures
            final(self).wf(),
            (final(self).model(), act) == pad_press_step(old(self).model(), button),
    {
        match button {
            PadButton::LeftBumper => {
                self.switch_prev();
                UiAction::Nothing
            },
            PadButton::RightBumper => {
                self.switch_next();
                UiAction::Nothing
            },
            PadButton::LeftTrigger => UiAction::ToggleMute,
            PadButton::RightThumb => {
                self.show_hud = !self.show_hud;
                UiAction::Nothing
            },
            PadButton::LeftThumb => {
                self.video_exec();
                UiAction::Nothing
            },
            PadButton::RightTrigger => {
                self.gpu_fft = !self.gpu_fft;
                UiAction::Nothing
            },
            PadButton::North => {
                self.tab_forward();
                UiAction::Nothing
            },
            PadButton::West => UiAction::CycleAudioTrack,
            PadButton::East => {
                if self.picker_open {
                    self.picker_open = false;
                } else {
                    self.show_stats = !self.show_stats;
                }
                UiAction::Nothing
            },
            PadButton::DPadRight => {
                if self.picker_open {
                    UiAction::Nothing
                } else {
                    UiAction::SeekForward
                }
            },
            PadButton::DPadLeft => {
                if self.picker_open {
                    UiAction::Nothing
                } else {
                    UiAction::SeekBackward
                }
            },
            PadButton::DPadUp => {
                if self.picker_open {
                    self.cursor_up_exec();
                    UiAction::Nothing
                } else {
                    UiAction::VolumeUp
                }
            },
            PadButton::DPadDown => {
                if self.picker_open {
                    self.cursor_down_exec();
                    UiAction::Nothing
                } else {
                    UiAction::VolumeDown
                }
            },
            PadButton::South => {
                if self.picker_open {
                    self.select_exec();
                    UiAction::Nothing
                } else {
                    UiAction::PlayPause
                }
            },
            _ => UiAction::Nothing,
        }
    }

    fn gesture_input(&mut self, g: GestureKind) -> (act: UiAction)
        requires
            old(self).wf(),
        ensures
            final(self).wf(),
            (final(self).model(), act) == gesture_step(old(self).model(), g),
    {
        match g {
            GestureKind::TopPaneSwipeLeft | GestureKind::LandscapeSwipeUp => {
                self.tab_forward();
                UiAction::Nothing
            },
            GestureKind::TopPaneSwipeRight | GestureKind::LandscapeSwipeDown => {
                self.tab_back();
                UiAction::Nothing
            },
            GestureKind::TopPaneSwipeUp => {
                if self.has_video {
                    self.video_fullscreen = true;
                }
                UiAction::Nothing
            },
            GestureKind::TopPaneSwipeDown => {
                self.video_fullscreen = false;
                UiAction::Nothing
            },
            GestureKind::BottomPaneSwipeLeft | GestureKind::LandscapeSwipeLeft => {
                self.switch_next();
                UiAction::Nothing
            },
            GestureKind::BottomPaneSwipeRight | GestureKind::LandscapeSwipeRight => {
                self.switch_prev();
                UiAction::Nothing
            },
            GestureKind::SingleTap => UiAction::PlayPause,
            GestureKind::DoubleTap => {
                self.show_hud = !self.show_hud;
                UiAction::Nothing
            },
            GestureKind::TwoFingerTap => UiAction::CycleAudioTrack,
            _ => UiAction::Nothing,
        }
    }
}

/// The D-pad seeks: with the picker and the in-app browser closed, a first
/// press of D-pad left asks for a seek back and of D-pad right for a seek
/// forward, and neither changes the state; so the two never ask for the
/// same direction.
pub proof fn law_dpad_seeks(m: UiModel)
    requires
        !m.picker_open,
    ensures
        ui_step(m, InputEvent::Pad { button: PadButton::DPadLeft, repeat: false, dialog_open: false })
            == (m, UiAction::SeekBackward),
        ui_step(m, InputEvent::Pad { button: PadButton::DPadRight, repeat: false, dialog_open: false })
            == (m, UiAction::SeekForward),
        ui_step(m, InputEvent::Pad { button: PadButton::DPadLeft, repeat: false, dialog_open: false }).1
            != ui_step(m, InputEvent::Pad { button: PadButton::DPadRight, repeat: false, dialog_open: false }).1,
{
}

/// Held D-pad left / right keep seeking back / forward, whatever is open, and
/// change nothing; so do the Left / Right keys without Ctrl, pressed or held.
pub proof fn law_held_seeks(m: UiModel, dialog_open: bool, alt: bool, repeat: bool)
    ensures
        ui_step(m, InputEvent::Pad { button: PadButton::DPadLeft, repeat: true, dialog_open })
            == (m, UiAction::SeekBackward),
        ui_step(m, InputEvent::Pad { button: PadButton::DPadRight, repeat: true, dialog_open })
            == (m, UiAction::SeekForward),
        ui_step(m, InputEvent::Key { key: KeyKind::Left, ctrl: false, alt, repeat }) == (
            m,
            UiAction::SeekBackward,
        ),
        ui_step(m, InputEvent::Key { key: KeyKind::Right, ctrl: false, alt, repeat }) == (
            m,
            UiAction::SeekForward,
        ),
{
}

/// The gamepad table, outside the picker and the in-app browser: A plays or
/// pauses; D-pad up / down turn the volume up / down; RB / LB switch to the
/// next / previous enabled visualizer; Y shows the next HUD tab; X switches
/// the audio track; R3 shows or hides the HUD; LT toggles mute; Back / View
/// toggles the statistics. Nothing else changes.
pub proof fn law_pad_controls(m: UiModel)
    requires
        !m.picker_open,
    ensures
        ui_step(m, InputEvent::Pad { button: PadButton::South, repeat: false, dialog_open: false })
            == (m, UiAction::PlayPause),
        ui_step(m, InputEvent::Pad { button: PadButton::DPadUp, repeat: false, dialog_open: false })
            == (m, UiAction::VolumeUp),
        ui_step(m, InputEvent::Pad { button: PadButton::DPadDown, repeat: false, dialog_open: false })
            == (m, UiAction::VolumeDown),
        ui_step(m, InputEvent::Pad { button: PadButton::RightBumper, repeat: false, dialog_open: false })
            == (UiModel { visualizer: next_enabled(m.visualizer, m.enabled), ..m }, UiAction::Nothing),
        ui_step(m, InputEvent::Pad { button: PadButton::LeftBumper, repeat: false, dialog_open: false })
            == (UiModel { visualizer: prev_enabled(m.visualizer, m.enabled), ..m }, UiAction::Nothing),
        ui_step(m, InputEvent::Pad { button: PadButton::North, repeat: false, dialog_open: false })
            == (UiModel { hud_tab: (m.hud_tab + 1) % 4, ..m }, UiAction::Nothing),
        ui_step(m, InputEvent::Pad { button: PadButton::West, repeat: false, dialog_open: false })
            == (m, UiAction::CycleAudioTrack),
        ui_step(m, InputEvent::Pad { button: PadButton::RightThumb, repeat: false, dialog_open: false })
            == (UiModel { show_hud: !m.show_hud, ..m }, UiAction::Nothing),
        ui_step(m, InputEvent::Pad { button: PadButton::LeftTrigger, repeat: false, dialog_open: false })
            == (m, UiAction::ToggleMute),
        ui_step(m, InputEvent::Pad { button: PadButton::Select, repeat: false, dialog_open: false })
            == (UiModel { show_stats: !m.show_stats, ..m }, UiAction::Nothing),
{
}

/// The keyboard table, outside the picker, on a first press: Space plays or
/// pauses; Up / Down turn the volume up / down; `]` and Page Down switch to
/// the next enabled visualizer, `[` and Page Up to the previous; Tab shows or
/// hides the HUD; S toggles the statistics; M toggles mute; T switches the
/// audio track; F toggles full screen.
pub proof fn law_key_controls(m: UiModel, alt: bool)
    requires
        !m.picker_open,
    ensures
        ui_step(m, InputEvent::Key { key: KeyKind::Space, ctrl: false, alt, repeat: false }) == (
            m,
            UiAction::PlayPause,
        ),
        ui_step(m, InputEvent::Key { key: KeyKind::Up, ctrl: false, alt, repeat: false }) == (
            m,
            UiAction::VolumeUp,
        ),
        ui_step(m, InputEvent::Key { key: KeyKind::Down, ctrl: false, alt, repeat: false }) == (
            m,
            UiAction::VolumeDown,
        ),
        ui_step(m, InputEvent::Key { key: KeyKind::BracketRight, ctrl: false, alt, repeat: false })
            == (UiModel { visualizer: next_enabled(m.visualizer, m.enabled), ..m }, UiAction::Nothing),
        ui_step(m, InputEvent::Key { key: KeyKind::PageDown, ctrl: false, alt, repeat: false })
            == (UiModel { visualizer: next_enabled(m.visualizer, m.enabled), ..m }, UiAction::Nothing),
        ui_step(m, InputEvent::Key { key: KeyKind::BracketLeft, ctrl: false, alt, repeat: false })
            == (UiModel { visualizer: prev_enabled(m.visualizer, m.enabled), ..m }, UiAction::Nothing),
        ui_step(m, InputEvent::Key { key: KeyKind::PageUp, ctrl: false, alt, repeat: false })
            == (UiModel { visualizer: prev_enabled(m.visualizer, m.enabled), ..m }, UiAction::Nothing),
        ui_step(m, InputEvent::Key { key: KeyKind::Tab, ctrl: false, alt, repeat: false })
            == (UiModel { show_hud: !m.show_hud, ..m }, UiAction::Nothing),
        ui_step(m, InputEvent::Key { key: KeyKind::S, ctrl: false, alt, repeat: false })
            == (UiModel { show_stats: !m.show_stats, ..m }, UiAction::Nothing),
        ui_step(m, InputEvent::Key { key: KeyKind::M, ctrl: false, alt, repeat: false }) == (
            m,
            UiAction::ToggleMute,
        ),
        ui_step(m, InputEvent::Key { key: KeyKind::T, ctrl: false, alt, repeat: false }) == (
            m,
            UiAction::CycleAudioTrack,
        ),
        ui_step(m, InputEvent::Key { key: KeyKind::F, ctrl: false, alt, repeat: false }) == (
            m,
            UiAction::ToggleFullscreen,
        ),
{
}

/// Opening or closing the visualizer picker: it opens at the current
/// visualizer. (The controls table gives the picker no key or button of its
/// own; the program around the library opens it.)
pub open spec fn toggle_picker_spec(m: UiModel) -> UiModel {
    if m.picker_open {
        UiModel { picker_open: false, ..m }
    } else {
        UiModel { picker_open: true, picker_cursor: m.visualizer, ..m }
    }
}

/// Opens or closes the visualizer picker (see `toggle_picker_spec`).
pub fn toggle_picker(state: &mut UiState)
    requires
        old(state).wf(),
    ensures
        final(state).wf(),
        final(state).model() == toggle_picker_spec(old(state).model()),
{
    if state.picker_open {
        state.picker_open = false;
    } else {
        state.picker_open = true;
        state.picker_cursor = state.visualizer;
    }
}

/// Applies one input to the interface state and returns what it asks of the
/// surrounding program (see `ui_step`).
pub fn handle_input(state: &mut UiState, ev: InputEvent) -> (act: UiAction)
    requires
        old(state).wf(),
    ensures
        final(state).wf(),
        (final(state).model(), act) == ui_step(old(state).model(), ev),
{
    match ev {
        InputEvent::Key { key, ctrl, alt, repeat } => state.key_input(key, ctrl, alt, repeat),
        InputEvent::Pad { button, repeat, dialog_open } => state.pad_input(button, repeat, dialog_open),
        InputEvent::Gesture(g) => state.gesture_input(g),
    }
}

} // verus!
