//! FastRGB SysEx LED updates (Apollo Studio): the uncompressed list format
//! (`F0 6F`), the compressed format (`F0 5F`) and the clear shorthand.
//!
//! Colours arrive as 6-bit channels and are widened to 8 bits; pads are
//! button indices 0..63, each lighting both LEDs of its button.

use vstd::prelude::*;

use crate::led::{clear_leds, rgb6, with_button, all_black, Color, TOTAL_LEDS};

verus! {

/// Mask selecting the pad index (0..63) of a FastRGB target byte.
pub const BUTTON_ID_FLAGS: u8 = 0x3F;

/// Pad `p` set to the 6-bit colour `(r, g, b)`; pads outside 0..63 are ignored.
pub open spec fn set_pad(leds: Seq<Color>, p: u8, r: u8, g: u8, b: u8) -> Seq<Color> {
    if p < 64 {
        with_button(leds, p as int, rgb6(r, g, b))
    } else {
        leds
    }
}

pub proof fn lemma_low6(x: u8)
    ensures
        x & 0x3F < 64,
        !x & 0x3F < 64,
{
    assert(x & 0x3F < 64) by (bit_vector);
    assert(!x & 0x3F < 64) by (bit_vector);
}

/// Clear all LEDs.
pub fn fastrgb_clear(host_leds: &mut [Color; TOTAL_LEDS])
    ensures
        all_black(final(host_leds)@),
{
    clear_leds(host_leds);
}

/// Set pad `p` to the 6-bit colour `(r, g, b)`, widened to 8 bits; pads
/// outside 0..63 are ignored.
fn fastrgb_set_pad(p: u8, r: u8, g: u8, b: u8, host_leds: &mut [Color; TOTAL_LEDS])
    requires
        r < 64,
        g < 64,
        b < 64,
    ensures
        final(host_leds)@ == set_pad(old(host_leds)@, p, r, g, b),
{
    if p < 64 {
        let c = Color::from_rgb6(r, g, b);
        let base_led = (p as usize) * 2;
        host_leds[base_led] = c;
        host_leds[base_led + 1] = c;
    }
}

/// One `[pad, r, g, b]` chunk of the list format applied.
pub open spec fn list_chunk(leds: Seq<Color>, c: Seq<u8>) -> Seq<Color> {
    set_pad(leds, c[0] & BUTTON_ID_FLAGS, c[1] & 0x3F, c[2] & 0x3F, c[3] & 0x3F)
}

/// The list format applied chunk by chunk, left to right; a trailing partial
/// chunk is ignored.
pub open spec fn apply_list(leds: Seq<Color>, data: Seq<u8>) -> Seq<Color>
    decreases data.len(),
{
    if data.len() < 4 {
        leds
    } else {
        apply_list(list_chunk(leds, data), data.skip(4))
    }
}

/// Process an uncompressed list of FastRGB updates (`F0 6F`): each 4-byte
/// chunk is `[pad_id, r, g, b]`.
pub fn fastrgb_list(data: &[u8], host_leds: &mut [Color; TOTAL_LEDS])
    ensures
        final(host_leds)@ == apply_list(old(host_leds)@, data@),
{
    let len = data.len();
    let mut i: usize = 0;
    assert(data@.skip(0) =~= data@);
    while len - i >= 4
        invariant
            len == data@.len(),
            i <= len,
            apply_list(host_leds@, data@.skip(i as int)) == apply_list(old(host_leds)@, data@),
        decreases len - i,
    {
        let ghost rest = data@.skip(i as int);
        let p = data[i];
        let r = data[i + 1] & 0x3F;
        let g = data[i + 2] & 0x3F;
        let b = data[i + 3] & 0x3F;
        proof {
            lemma_low6(data[i + 1 as int]);
            lemma_low6(data[i + 2 as int]);
            lemma_low6(data[i + 3 as int]);
            assert(rest.skip(4) =~= data@.skip(i + 4));
        }
        fastrgb_set_pad(p & BUTTON_ID_FLAGS, r, g, b, host_leds);
        i += 4;
    }
    proof {
        assert(data@.skip(i as int).len() < 4);
    }
}

/// Target count packed into the `0x40` bits of the colour bytes.
pub open spec fn packed_count(r: u8, g: u8, b: u8) -> u8 {
    ((r & 0x40) >> 4u8) | ((g & 0x40) >> 5u8) | ((b & 0x40) >> 6u8)
}

/// Column target: the 8 pads `col | (k << 2)` for k in `0..n`.
pub open spec fn fill_column(leds: Seq<Color>, col: u8, r: u8, g: u8, b: u8, n: nat) -> Seq<
    Color,
>
    decreases n,
{
    if n == 0 {
        leds
    } else {
        let prev = fill_column(leds, col, r, g, b, (n - 1) as nat);
        set_pad(prev, col | (((n - 1) as u8) << 2u8), r, g, b)
    }
}

/// Row target: pads `row | k` and `row | 0x20 | k` for k in `0..n`.
pub open spec fn fill_row(leds: Seq<Color>, row: u8, r: u8, g: u8, b: u8, n: nat) -> Seq<Color>
    decreases n,
{
    if n == 0 {
        leds
    } else {
        let prev = fill_row(leds, row, r, g, b, (n - 1) as nat);
        let k = (n - 1) as u8;
        set_pad(set_pad(prev, row | k, r, g, b), row | 0x20 | k, r, g, b)
    }
}

/// One target byte `x` of the compressed format, in colour `(r, g, b)`:
/// a single pad with optional symmetric and quadrant mirrors, a whole
/// column, or a whole row.
pub open spec fn apply_target(leds: Seq<Color>, x: u8, r: u8, g: u8, b: u8) -> Seq<Color> {
    if (x & 0x70) != 0x60 {
        let l1 = set_pad(leds, x & BUTTON_ID_FLAGS, r, g, b);
        if (x & 0x40) != 0 {
            let x_inv = !x & BUTTON_ID_FLAGS;
            let l2 = set_pad(l1, x_inv, r, g, b);
            if (x & 0x20) != 0 {
                let l3 = set_pad(l2, (x & 0x1C) | (x_inv & 0x03), r, g, b);
                set_pad(l3, (x & 0x23) | (x_inv & 0x1C), r, g, b)
            } else {
                l2
            }
        } else {
            l1
        }
    } else if (x & 0x08) != 0 {
        let col = x & (if (x & 0x04) != 0 {
            0x23u8
        } else {
            0x03u8
        });
        fill_column(leds, col, r, g, b, 8)
    } else {
        fill_row(leds, (x & 0x07) << 2u8, r, g, b, 4)
    }
}

/// Targets `data[from..to]` applied in order.
pub open spec fn apply_targets(
    data: Seq<u8>,
    from: int,
    to: int,
    r: u8,
    g: u8,
    b: u8,
    leds: Seq<Color>,
) -> Seq<Color>
    decreases to - from,
{
    if from >= to {
        leds
    } else {
        apply_targets(data, from + 1, to, r, g, b, apply_target(leds, data[from], r, g, b))
    }
}

/// The compressed format decoded from byte `i` on: each group is `r g b`
/// (6-bit colour, target count in the `0x40` bits, or in an extra count byte
/// when those bits are all clear) followed by that many target bytes. A
/// truncated group applies the targets that are present.
pub open spec fn decompress_from(data: Seq<u8>, i: int, leds: Seq<Color>) -> Seq<Color>
    decreases data.len() - i,
{
    if i < 0 || i + 3 > data.len() {
        leds
    } else {
        let r = data[i];
        let g = data[i + 1];
        let b = data[i + 2];
        let n0 = packed_count(r, g, b);
        if n0 == 0 && i + 3 >= data.len() {
            leds
        } else {
            let n = if n0 == 0 {
                data[i + 3]
            } else {
                n0
            };
            let start = if n0 == 0 {
                i + 4
            } else {
                i + 3
            };
            let end = if start + n > data.len() {
                data.len() as int
            } else {
                start + n
            };
            decompress_from(
                data,
                end,
                apply_targets(data, start, end, r & 0x3F, g & 0x3F, b & 0x3F, leds),
            )
        }
    }
}

/// Apply one compressed-format target byte.
fn fastrgb_target(x: u8, r: u8, g: u8, b: u8, host_leds: &mut [Color; TOTAL_LEDS])
    requires
        r < 64,
        g < 64,
        b < 64,
    ensures
        final(host_leds)@ == apply_target(old(host_leds)@, x, r, g, b),
{
    if (x & 0b01110000) != 0b01100000 {
        // Standard button
        fastrgb_set_pad(x & BUTTON_ID_FLAGS, r, g, b, host_leds);
        // Symmetric copy
        if (x & 0b01000000) != 0 {
            let x_inv = !x & BUTTON_ID_FLAGS;
            fastrgb_set_pad(x_inv, r, g, b, host_leds);
            // Quadrant mirror
            if (x & 0b00100000) != 0 {
                fastrgb_set_pad((x & 0b00011100) | (x_inv & 0b00000011), r, g, b, host_leds);
                fastrgb_set_pad((x & 0b00100011) | (x_inv & 0b00011100), r, g, b, host_leds);
            }
        }
    } else if (x & 0b00001000) != 0 {
        // Entire column
        let col = x & if (x & 0b00000100) != 0 {
            0b00100011u8
        } else {
            0b00000011u8
        };
        let ghost l0 = old(host_leds)@;
        let mut k: u8 = 0;
        while k < 8
            invariant
                k <= 8,
                r < 64,
                g < 64,
                b < 64,
                host_leds@ == fill_column(l0, col, r, g, b, k as nat),
            decreases 8 - k,
        {
            fastrgb_set_pad(col | (k << 2u8), r, g, b, host_leds);
            k += 1;
        }
    } else {
        // Entire row
        let row = (x & 0b00000111) << 2u8;
        let ghost l0 = old(host_leds)@;
        let mut k: u8 = 0;
        while k < 4
            invariant
                k <= 4,
                r < 64,
                g < 64,
                b < 64,
                host_leds@ == fill_row(l0, row, r, g, b, k as nat),
            decreases 4 - k,
        {
            fastrgb_set_pad(row | k, r, g, b, host_leds);
            fastrgb_set_pad(row | 0b00100000 | k, r, g, b, host_leds);
            k += 1;
        }
    }
}

/// Decompress a FastRGB payload (`F0 5F`) and apply it to the LED grid.
pub fn fastrgb_decompress(data: &[u8], host_leds: &mut [Color; TOTAL_LEDS])
    ensures
        final(host_leds)@ == decompress_from(data@, 0, old(host_leds)@),
{
    let len = data.len();
    let mut i: usize = 0;
    while i < len
        invariant
            len == data@.len(),
            i <= len,
            decompress_from(data@, i as int, host_leds@) == decompress_from(
                data@,
                0,
                old(host_leds)@,
            ),
        ensures
            host_leds@ == decompress_from(data@, 0, old(host_leds)@),
        decreases len - i,
    {
        if len - i < 3 {
            break;
        }
        let ghost l0 = host_leds@;
        let mut r = data[i];
        let mut g = data[i + 1];
        let mut b = data[i + 2];
        let mut start = i + 3;

        let mut n = ((r & 0x40) >> 4u8) | ((g & 0x40) >> 5u8) | ((b & 0x40) >> 6u8);
        if n == 0 {
            if start < len {
                n = data[start];
                start += 1;
            } else {
                break;
            }
        }
        proof {
            lemma_low6(r);
            lemma_low6(g);
            lemma_low6(b);
        }
        r &= 0x3F;
        g &= 0x3F;
        b &= 0x3F;
        let end = if len - start < n as usize {
            len
        } else {
            start + n as usize
        };
        i = start;
        while i < end
            invariant
                start <= i <= end <= len,
                len == data@.len(),
                r < 64,
                g < 64,
                b < 64,
                apply_targets(data@, i as int, end as int, r, g, b, host_leds@) == apply_targets(
                    data@,
                    start as int,
                    end as int,
                    r,
                    g,
                    b,
                    l0,
                ),
            decreases end - i,
        {
            let x = data[i];
            i += 1;
            fastrgb_target(x, r, g, b, host_leds);
        }
    }
}

} // verus!

verus! {

proof fn lemma_column_pad_bits(col: u8, k: u8)
    by (bit_vector)
    requires
        col & 0xDC == 0,
        k < 8,
    ensures
        (col | (k << 2u8)) == col + 4 * k,
{
}

proof fn lemma_row_pad_bits(row: u8, k: u8)
    by (bit_vector)
    requires
        row & 0xE3 == 0,
        k < 4,
    ensures
        (row | k) == row + k,
        (row | 0x20 | k) == row + 32 + k,
{
}

proof fn lemma_fill_column(leds: Seq<Color>, col: u8, r: u8, g: u8, b: u8, n: nat)
    requires
        leds.len() == TOTAL_LEDS,
        col & 0xDC == 0,
        n <= 8,
    ensures
        fill_column(leds, col, r, g, b, n).len() == TOTAL_LEDS,
        forall|p: int, j: int|
            0 <= p < 64 && 0 <= j < 2 ==> #[trigger] fill_column(leds, col, r, g, b, n)[2 * p + j]
                == if p % 4 == col % 4 && p / 32 == col / 32 && (p % 32) / 4 < n {
                rgb6(r, g, b)
            } else {
                leds[2 * p + j]
            },
    decreases n,
{
    if n > 0 {
        lemma_fill_column(leds, col, r, g, b, (n - 1) as nat);
        let k = (n - 1) as u8;
        lemma_column_pad_bits(col, k);
        assert(col % 32 < 4 && col < 64) by (bit_vector)
            requires
                col & 0xDC == 0,
        ;
        let q = col + 4 * k;
        let prev = fill_column(leds, col, r, g, b, (n - 1) as nat);
        assert forall|p: int, j: int| 0 <= p < 64 && 0 <= j < 2 implies #[trigger] fill_column(
            leds,
            col,
            r,
            g,
            b,
            n,
        )[2 * p + j] == if p % 4 == col % 4 && p / 32 == col / 32 && (p % 32) / 4 < n {
            rgb6(r, g, b)
        } else {
            leds[2 * p + j]
        } by {
            assert(prev[2 * p + j] == (if p % 4 == col % 4 && p / 32 == col / 32 && (p % 32) / 4
                < n - 1 {
                rgb6(r, g, b)
            } else {
                leds[2 * p + j]
            }));
            assert((p == q) == (p % 4 == col % 4 && p / 32 == col / 32 && (p % 32) / 4 == k));
        }
    }
}

proof fn lemma_fill_row(leds: Seq<Color>, row: u8, r: u8, g: u8, b: u8, n: nat)
    requires
        leds.len() == TOTAL_LEDS,
        row & 0xE3 == 0,
        n <= 4,
    ensures
        fill_row(leds, row, r, g, b, n).len() == TOTAL_LEDS,
        forall|p: int, j: int|
            0 <= p < 64 && 0 <= j < 2 ==> #[trigger] fill_row(leds, row, r, g, b, n)[2 * p + j]
                == if (p % 32) / 4 == row / 4 && p % 4 < n {
                rgb6(r, g, b)
            } else {
                leds[2 * p + j]
            },
    decreases n,
{
    if n > 0 {
        lemma_fill_row(leds, row, r, g, b, (n - 1) as nat);
        let k = (n - 1) as u8;
        lemma_row_pad_bits(row, k);
        assert(row < 32 && row % 4 == 0) by (bit_vector)
            requires
                row & 0xE3 == 0,
        ;
        let prev = fill_row(leds, row, r, g, b, (n - 1) as nat);
        assert forall|p: int, j: int| 0 <= p < 64 && 0 <= j < 2 implies #[trigger] fill_row(
            leds,
            row,
            r,
            g,
            b,
            n,
        )[2 * p + j] == if (p % 32) / 4 == row / 4 && p % 4 < n {
            rgb6(r, g, b)
        } else {
            leds[2 * p + j]
        } by {
            assert(prev[2 * p + j] == (if (p % 32) / 4 == row / 4 && p % 4 < n - 1 {
                rgb6(r, g, b)
            } else {
                leds[2 * p + j]
            }));
            assert((p == row + k || p == row + 32 + k) == ((p % 32) / 4 == row / 4 && p % 4 == k));
        }
    }
}

/// A column target of the compressed format (`x & 0x70 == 0x60`, bit 3 set)
/// lights the eight pads of one column: the pads whose index agrees with `x`
/// in its two low bits, in the right half (pads 32..63) when bit 2 of `x` is
/// set and in the left half (pads 0..31) otherwise. Every other LED keeps
/// its colour.
pub proof fn lemma_column_target(leds: Seq<Color>, x: u8, r: u8, g: u8, b: u8)
    requires
        leds.len() == TOTAL_LEDS,
        x & 0x70 == 0x60,
        x & 0x08 != 0,
    ensures
        apply_target(leds, x, r, g, b).len() == TOTAL_LEDS,
        forall|p: int, j: int|
            0 <= p < 64 && 0 <= j < 2 ==> #[trigger] apply_target(leds, x, r, g, b)[2 * p + j]
                == if p % 4 == x % 4 && (p >= 32) == (x & 0x04 != 0) {
                rgb6(r, g, b)
            } else {
                leds[2 * p + j]
            },
{
    let col = if x & 0x04 != 0 {
        x & 0x23
    } else {
        x & 0x03
    };
    assert(
        (x & 0x23) & 0xDC == 0
        && (x & 0x03) & 0xDC == 0
        && (x & 0x23) % 4 == x % 4
        && (x & 0x03) % 4 == x % 4
        && (x & 0x03) / 32 == 0
        && (x & 0x70 == 0x60 ==> (x & 0x23) / 32 == 1)
    ) by (bit_vector);
    lemma_fill_column(leds, col, r, g, b, 8);
}

/// A row target of the compressed format (`x & 0x70 == 0x60`, bit 3 clear)
/// lights the eight pads of grid row `x & 7`: pads `4 * (x & 7) .. 4 * (x & 7) + 3`
/// of both halves. Every other LED keeps its colour.
pub proof fn lemma_row_target(leds: Seq<Color>, x: u8, r: u8, g: u8, b: u8)
    requires
        leds.len() == TOTAL_LEDS,
        x & 0x70 == 0x60,
        x & 0x08 == 0,
    ensures
        apply_target(leds, x, r, g, b).len() == TOTAL_LEDS,
        forall|p: int, j: int|
            0 <= p < 64 && 0 <= j < 2 ==> #[trigger] apply_target(leds, x, r, g, b)[2 * p + j]
                == if (p % 32) / 4 == x % 8 {
                rgb6(r, g, b)
            } else {
                leds[2 * p + j]
            },
{
    let row = (x & 0x07) << 2u8;
    assert(((x & 0x07) << 2u8) & 0xE3 == 0 && ((x & 0x07) << 2u8) / 4 == x % 8) by (bit_vector);
    lemma_fill_row(leds, row, r, g, b, 4);
}

/// A pad target of the compressed format (`x & 0x70 != 0x60`) lights pad
/// `q = x & 0x3F`; with bit 6 set also its point mirror `q ^ 0x3F`, and with
/// bits 6 and 5 set the whole quadrant orbit `q ^ 0x1C` and `q ^ 0x23` as
/// well. Every other LED keeps its colour.
pub proof fn lemma_pad_target(leds: Seq<Color>, x: u8, r: u8, g: u8, b: u8)
    requires
        leds.len() == TOTAL_LEDS,
        x & 0x70 != 0x60,
    ensures
        apply_target(leds, x, r, g, b).len() == TOTAL_LEDS,
        forall|p: int, j: int|
            0 <= p < 64 && 0 <= j < 2 ==> #[trigger] apply_target(leds, x, r, g, b)[2 * p + j]
                == if p == (x & 0x3F) || (x & 0x40 != 0 && (p == ((x & 0x3F) ^ 0x3F) || (x & 0x20
                != 0 && (p == ((x & 0x3F) ^ 0x1C) || p == ((x & 0x3F) ^ 0x23))))) {
                rgb6(r, g, b)
            } else {
                leds[2 * p + j]
            },
{
    let x_inv = !x & BUTTON_ID_FLAGS;
    assert(
        (!x & 0x3F) == ((x & 0x3F) ^ 0x3F)
        && (x & 0x3F) < 64
        && ((x & 0x3F) ^ 0x3F) < 64
        && (x & 0x20 != 0 ==> ((x & 0x1C) | ((!x & 0x3F) & 0x03)) == ((x & 0x3F) ^ 0x23))
        && (((x & 0x23) | ((!x & 0x3F) & 0x1C)) == ((x & 0x3F) ^ 0x1C))
        && ((x & 0x3F) ^ 0x23) < 64
        && ((x & 0x3F) ^ 0x1C) < 64
    ) by (bit_vector);
}

} // verus!
