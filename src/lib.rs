//! Playback resource manager of an ambient-sound mixer: a catalog of looping
//! sounds mapped onto a fixed pool of output channels, with per-sound and
//! master volume, a global pause control, and a record form for persistence.
//!
//! Volumes are held as integer levels in thousandths (`0..=1000`); the
//! audio layer divides by `FULL_VOLUME` when it drives a real output.

pub mod volume;
pub mod sound;
pub mod sink_handle;
pub mod sound_manager;
pub mod catalog;
pub mod laws;
pub mod navigation;
