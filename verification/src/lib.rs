//! Verified core logic of the MIDI Fighter 64 firmware: button masks and
//! debouncing, LED colours and WS2812 bit buffers, USB MIDI framing and the
//! receive buffer, SysEx/FastRGB/Mystrix decoding, the note/LED mapping of
//! incoming MIDI, the snake idle animation, the HID keyboard mode, telemetry
//! reports and the bootloader entry decisions.

pub mod boot;
pub mod boot_anim;
pub mod bootloader;
pub mod buttons;
pub mod fastled;
pub mod hid;
pub mod instrumentation;
pub mod keyboard;
pub mod led;
pub mod midi;
pub mod palette;
pub mod rng;
pub mod sysex;
pub mod usb_midi;
