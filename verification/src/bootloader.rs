//! Bootloader entry decisions over the raw MCU status register and the
//! 64-bit button word.

use vstd::prelude::*;

verus! {

pub use crate::boot::bootloader::MAGIC_BOOT_KEY;

/// Watchdog reset flag (WDRF) of the MCU status register.
pub const MCUSR_WDRF: u8 = 0x08;

/// Whether the start-up check jumps to the bootloader, given the MCU status
/// register and the boot key read from `.noinit` RAM.
pub fn bootloader_jump_requested(mcusr: u8, boot_key: u32) -> (jump: bool)
    ensures
        jump == ((mcusr & MCUSR_WDRF) != 0 && boot_key == MAGIC_BOOT_KEY),
{
    (mcusr & MCUSR_WDRF) != 0 && boot_key == MAGIC_BOOT_KEY
}

/// Returns `true` if button 0 is held at startup.
pub fn bootloader_combo_held(key_state: u64) -> (held: bool)
    ensures
        held == (key_state % 2 == 1),
{
    let held = key_state & 1 == 1;
    assert(key_state & 1 == key_state % 2) by (bit_vector);
    held
}

} // verus!
