//! Audio synthesis toolkit: a Standard MIDI File decoder, a note scheduler that
//! maps ticks to sounding notes, and PCM/WAV byte serialisation.
//!
//! Everything here works on plain bytes and integers and is proved against
//! mathematical models of the file formats.

pub mod endian;
pub mod errors;
pub mod midi;
pub mod music;
pub mod synthesizer;
pub mod writer;
