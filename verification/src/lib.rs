//! Media-player core logic: playlists, lyrics, the single-instance protocol
//! and the player's navigation state.

pub mod text;
pub mod playlist;
pub mod ipc;
pub mod lyrics;
pub mod state;
pub mod visual;
pub mod mesh;
pub mod tui_layout;
pub mod tracker_view;
pub mod touch_state;
pub mod controls;
