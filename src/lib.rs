//! A VT-style terminal engine: a streaming escape-sequence parser, a screen buffer
//! with scrollback, format runs over the buffer's text, the emulator that ties them
//! together, snapshots of all of it, and recordings that can be replayed.

pub mod ansi;
pub mod buffer;
pub mod bytes;
pub mod emulator;
pub mod format_tracker;
pub mod input;
pub mod log;
pub mod recording;
pub mod replay;
pub mod snapshot;
pub mod terminal;
