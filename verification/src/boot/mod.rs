//! Start-up decisions of the firmware.

pub mod bootloader;
