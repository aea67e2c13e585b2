//! The decisions of a server that plays one video file for every viewer at the
//! same wall-clock moment: which files may be played, who may watch, who may
//! administer, and how the schedule and its intermissions change.
pub mod access;
pub mod admin;
pub mod clock;
pub mod media;
pub mod secrets;
pub mod state;
pub mod text;
pub mod trace;
