//! Mystrix SysEx LED protocol: 4-byte `[idx, r, g, b]` chunks where `idx` is
//! either an XY address (`11..=88`) or a flat button index (`0..=10`).

use vstd::prelude::*;

use crate::buttons::{cell_button, cell_to_btn};
use crate::led::{rgb6, with_button, Color, TOTAL_LEDS};

verus! {

/// Sub-state of an in-flight Mystrix SysEx message.
#[derive(Clone, Copy, PartialEq, Eq, Structural, Debug)]
pub enum MystrixState {
    /// Received `F0 00 02`: waiting for `03 4D 58` (manufacturer ID).
    CheckManufacturer,
    /// Received `03 4D 58`: waiting for `5E` (command byte).
    Header,
    /// Streaming 4-byte `[idx, r, g, b]` LED chunks.
    Data,
}

/// The button a Mystrix index addresses: XY addresses `11..=88` with both
/// digits in `1..=8` map to row `y - 1`, column `x - 1`; indices below 11
/// are flat grid positions; anything else addresses nothing.
pub open spec fn mystrix_button(idx: int) -> Option<int> {
    if 11 <= idx <= 88 {
        let x = idx % 10;
        let y = idx / 10;
        if 1 <= x <= 8 && 1 <= y <= 8 {
            Some(cell_button(y - 1, x - 1))
        } else {
            None
        }
    } else if idx < 64 {
        Some(cell_button(idx / 8, idx % 8))
    } else {
        None
    }
}

/// The chunk `[idx, r, g, b]` applied: the addressed button takes the 6-bit colour.
pub open spec fn mystrix_chunk(leds: Seq<Color>, c: Seq<u8>) -> Seq<Color> {
    match mystrix_button(c[0] as int) {
        Some(btn) => if btn < 64 {
            with_button(leds, btn, rgb6(c[1] & 0x3F, c[2] & 0x3F, c[3] & 0x3F))
        } else {
            leds
        },
        None => leds,
    }
}

/// The chunk addresses a button.
pub open spec fn mystrix_chunk_hits(c: Seq<u8>) -> bool {
    match mystrix_button(c[0] as int) {
        Some(btn) => btn < 64,
        None => false,
    }
}

/// All complete chunks applied left to right.
pub open spec fn mystrix_apply(leds: Seq<Color>, payload: Seq<u8>) -> Seq<Color>
    decreases payload.len(),
{
    if payload.len() < 4 {
        leds
    } else {
        mystrix_apply(mystrix_chunk(leds, payload), payload.skip(4))
    }
}

/// Some complete chunk addresses a button.
pub open spec fn mystrix_any_hit(payload: Seq<u8>) -> bool
    decreases payload.len(),
{
    if payload.len() < 4 {
        false
    } else {
        mystrix_chunk_hits(payload) || mystrix_any_hit(payload.skip(4))
    }
}

/// Apply a decoded Mystrix LED payload to the LED buffer; `modified` is set
/// when any chunk addressed a button.
pub fn apply_leds(payload: &[u8], host_leds: &mut [Color; TOTAL_LEDS], modified: &mut bool)
    ensures
        final(host_leds)@ == mystrix_apply(old(host_leds)@, payload@),
        *final(modified) == (*old(modified) || mystrix_any_hit(payload@)),
{
    let len = payload.len();
    let mut i: usize = 0;
    assert(payload@.skip(0) =~= payload@);
    while len - i >= 4
        invariant
            len == payload@.len(),
            i <= len,
            mystrix_apply(host_leds@, payload@.skip(i as int)) == mystrix_apply(
                old(host_leds)@,
                payload@,
            ),
            (*modified || mystrix_any_hit(payload@.skip(i as int))) == (*old(modified)
                || mystrix_any_hit(payload@)),
        decreases len - i,
    {
        let ghost rest = payload@.skip(i as int);
        let idx = payload[i] as usize;
        let r6 = payload[i + 1] & 0x3F;
        let g6 = payload[i + 2] & 0x3F;
        let b6 = payload[i + 3] & 0x3F;
        proof {
            crate::fastled::lemma_low6(payload@[i + 1]);
            crate::fastled::lemma_low6(payload@[i + 2]);
            crate::fastled::lemma_low6(payload@[i + 3]);
            assert(rest.skip(4) =~= payload@.skip(i + 4));
        }
        let btn_opt: Option<usize> = if 11 <= idx && idx <= 88 {
            let x = (idx % 10) as u8;
            let y = (idx / 10) as u8;
            if 1 <= x && x <= 8 && 1 <= y && y <= 8 {
                Some(cell_to_btn(y - 1, x - 1))
            } else {
                None
            }
        } else if idx < 64 {
            Some(cell_to_btn((idx / 8) as u8, (idx % 8) as u8))
        } else {
            None
        };
        if let Some(btn) = btn_opt {
            if btn < 64 {
                crate::led::set_button_color(host_leds, btn, Color::from_rgb6(r6, g6, b6));
                *modified = true;
            }
        }
        i += 4;
    }
}

} // verus!

verus! {

/// An XY-addressed chunk `[10 * y + x, r, g, b]` with `x` and `y` in 1..=8
/// lights both LEDs of the button in grid row `y - 1` (the tens digit) and
/// column `x - 1` (the units digit), which is button
/// `32 * (x >= 5) + 4 * (y - 1) + (x - 1) % 4`, in the 6-bit colour of the
/// chunk; every other LED keeps its colour, and the chunk counts as a change.
pub proof fn lemma_xy_chunk(leds: Seq<Color>, y: int, x: int, r: u8, g: u8, b: u8)
    requires
        leds.len() == TOTAL_LEDS,
        1 <= x <= 8,
        1 <= y <= 8,
    ensures
        ({
            let btn = (if x >= 5 {
                32int
            } else {
                0int
            }) + 4 * (y - 1) + (x - 1) % 4;
            let out = mystrix_apply(leds, seq![(10 * y + x) as u8, r, g, b]);
            &&& out.len() == TOTAL_LEDS
            &&& forall|i: int|
                0 <= i < TOTAL_LEDS ==> #[trigger] out[i] == if i == 2 * btn || i == 2 * btn + 1 {
                    rgb6(r & 0x3F, g & 0x3F, b & 0x3F)
                } else {
                    leds[i]
                }
        }),
        mystrix_any_hit(seq![(10 * y + x) as u8, r, g, b]),
{
    reveal_with_fuel(mystrix_apply, 2);
    reveal_with_fuel(mystrix_any_hit, 2);
    let c = seq![(10 * y + x) as u8, r, g, b];
    assert(c[0] as int == 10 * y + x);
    assert((10 * y + x) % 10 == x && (10 * y + x) / 10 == y);
    assert(c.skip(4).len() == 0);
}

/// A flat chunk `[idx, r, g, b]` with `idx` in 0..=10 counts the grid row
/// by row from the bottom left, eight cells a row: it lights both LEDs of
/// the button in row `idx / 8`, column `idx % 8`, which is button
/// `32 * (idx % 8 >= 4) + 4 * (idx / 8) + idx % 4`; every other LED keeps its
/// colour.
pub proof fn lemma_flat_chunk(leds: Seq<Color>, idx: u8, r: u8, g: u8, b: u8)
    requires
        leds.len() == TOTAL_LEDS,
        idx <= 10,
    ensures
        ({
            let btn = (if idx % 8 >= 4 {
                32int
            } else {
                0int
            }) + 4 * (idx / 8) + idx % 4;
            let out = mystrix_apply(leds, seq![idx, r, g, b]);
            &&& out.len() == TOTAL_LEDS
            &&& forall|i: int|
                0 <= i < TOTAL_LEDS ==> #[trigger] out[i] == if i == 2 * btn || i == 2 * btn + 1 {
                    rgb6(r & 0x3F, g & 0x3F, b & 0x3F)
                } else {
                    leds[i]
                }
        }),
{
    reveal_with_fuel(mystrix_apply, 2);
    let c = seq![idx, r, g, b];
    assert(c.skip(4).len() == 0);
}

} // verus!
