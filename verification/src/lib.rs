//! Multi-source frame compositor and playback engine for animated
//! desktop backgrounds.
//!
//! A run takes a list of animation sources (each an ordered sequence of
//! frames with its own frame rate and target rectangle), reconciles them
//! into one output timeline, composites each output frame by scaling and
//! layering every source onto a shared canvas, and drives a cancellable
//! playback loop that presents the precomputed frames through the
//! root-window pixmap convention, restoring the previous background on
//! shutdown.

pub mod bitmap;
pub mod compose;
pub mod config;
pub mod frame;
pub mod present;
pub mod rate;
pub mod text;
pub mod timeline;
pub mod tui;
