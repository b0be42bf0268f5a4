//! The rules behind a live scene viewport.
//!
//! A server shows one of the games of a project: it renders the game's scene,
//! streams the frames to viewers, and takes their key presses. This library
//! decides, and proves that it decides rightly:
//!
//! - [`games`]: which directories are games, and in which order they are listed;
//! - [`state`] and [`input`]: which game is shown, and what a key press changes;
//! - [`scene`] and [`draw`]: what of a scene is drawn, and which meshes it takes;
//! - [`readback`] and [`video`]: how rendered pixels become encoded frames;
//! - [`stream`] and [`viewport`]: how frames reach a viewer, and its page;
//! - [`text`]: how names are compared;
//! - [`laws`]: what holds of the calls of all these, in terms of what goes in and
//!   what comes out.

pub mod draw;
pub mod games;
pub mod input;
pub mod laws;
pub mod readback;
pub mod scene;
pub mod state;
pub mod stream;
pub mod text;
pub mod video;
pub mod viewport;
