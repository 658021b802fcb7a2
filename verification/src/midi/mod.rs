//! MIDI protocol handling: SysEx parsing, the Mystrix LED protocol and the
//! note/LED mapping of incoming and outgoing USB MIDI packets.

pub mod io;
pub mod mystrix;
pub mod sysex;
