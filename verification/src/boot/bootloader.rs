//! LUFA DFU bootloader entry: which start-up conditions request it.

use vstd::prelude::*;

use crate::buttons::ButtonMask;

verus! {

/// The LUFA magic key left in `.noinit` RAM to request the bootloader.
pub const MAGIC_BOOT_KEY: u32 = 0xDC42_ACCA;

/// Byte address of the LUFA DFU bootloader; the jump uses its word address
/// (`BOOTLOADER_BYTE_ADDR / 2`, AVR program memory is word addressed).
pub const BOOTLOADER_BYTE_ADDR: u16 = 0x7000;

/// Whether the start-up code jumps to the bootloader: only after a watchdog
/// reset with the magic key in place.
pub fn bootloader_jump_requested(wdt_was_reset: bool, boot_key: u32) -> (jump: bool)
    ensures
        jump == (wdt_was_reset && boot_key == MAGIC_BOOT_KEY),
{
    wdt_was_reset && boot_key == MAGIC_BOOT_KEY
}

/// Returns `true` if button 0 is held at startup (the bootloader combo).
pub fn bootloader_combo_held(key_state: ButtonMask) -> (held: bool)
    ensures
        held == key_state.is_set_spec(0),
{
    key_state.is_set(0)
}

} // verus!
