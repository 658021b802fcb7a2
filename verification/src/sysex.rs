//! The SysEx parser under a short top-level path.

pub use crate::midi::sysex::{SysExParser, MIDI_MAX_SYSEX};
