//! A tick-driven music sequencer for square-wave buzzer outputs.
//!
//! A [`Song`] is an immutable, precompiled score: for each beat, the notes
//! that begin there. A [`Player`] walks that score one tick at a time,
//! keeps the currently sounding notes in a bounded buffer, and maps them
//! onto a fixed set of output channels, time-division multiplexing the last
//! channel when more notes sound than there are channels. The engine itself
//! performs no I/O: each channel's demanded state is plain data that the
//! host environment programs into the real waveform generators.

pub mod laws;
pub mod output;
pub mod player;
pub mod score;
pub mod sounding;

pub use output::{get_top, period_count, ChannelState, ConfigError, CLOCK_RATE_HZ, PWM_DIV_INT};
pub use player::{Player, PlayerView, TickOutcome};

pub use score::{NoteAndDuration, Song};
pub use sounding::NOTE_SLOTS;
