//! The stock MIDI Fighter 64 velocity palette (Ableton colour indices).

use vstd::prelude::*;

use crate::led::Color;

verus! {

/// Stock MIDI Fighter 64 pre-scaled palette: `[r, g, b]` for each velocity
/// 0..127. Values peak at 48 to stay under the USB 500mA budget.
pub const ABLETON_COLORS: [[u8; 3]; 128] = [
    [0, 0, 0], [8, 8, 8], [16, 16, 16], [24, 24, 24],
    [40, 12, 12], [48, 0, 0], [32, 0, 0], [16, 0, 0],
    [30, 22, 12], [42, 13, 0], [28, 9, 0], [14, 4, 0],
    [28, 28, 8], [30, 30, 0], [20, 20, 0], [10, 10, 0],
    [20, 38, 11], [13, 42, 0], [9, 28, 0], [4, 14, 0],
    [11, 40, 11], [0, 48, 0], [0, 32, 0], [0, 16, 0],
    [11, 38, 14], [0, 44, 4], [0, 29, 3], [0, 15, 2],
    [10, 36, 19], [6, 40, 14], [4, 26, 9], [2, 13, 4],
    [9, 32, 22], [0, 38, 22], [0, 25, 14], [0, 12, 7],
    [9, 24, 32], [0, 23, 36], [0, 15, 24], [0, 7, 12],
    [10, 19, 36], [0, 19, 39], [0, 13, 26], [0, 6, 13],
    [11, 11, 40], [0, 0, 48], [0, 0, 32], [0, 0, 16],
    [19, 10, 36], [19, 0, 39], [13, 0, 26], [6, 0, 13],
    [28, 8, 28], [30, 0, 30], [20, 0, 20], [10, 0, 10],
    [36, 10, 19], [42, 0, 13], [28, 0, 8], [14, 0, 4],
    [44, 3, 0], [28, 9, 0], [22, 15, 0], [12, 18, 0],
    [0, 10, 0], [0, 16, 9], [0, 15, 23], [0, 0, 48],
    [0, 12, 14], [6, 0, 38], [16, 16, 16], [8, 8, 8],
    [48, 0, 0], [23, 32, 5], [24, 33, 1], [15, 38, 1],
    [3, 26, 0], [0, 38, 20], [0, 25, 38], [0, 7, 44],
    [15, 0, 42], [19, 0, 40], [33, 4, 23], [12, 6, 0],
    [42, 12, 0], [22, 37, 1], [18, 40, 3], [0, 48, 0],
    [9, 42, 6], [12, 36, 15], [7, 32, 25], [13, 19, 36],
    [9, 15, 37], [19, 18, 33], [24, 3, 30], [40, 0, 15],
    [40, 15, 0], [34, 14, 0], [20, 36, 0], [24, 17, 1],
    [10, 8, 0], [3, 14, 3], [2, 15, 10], [3, 3, 7],
    [4, 6, 16], [19, 11, 5], [31, 0, 1], [37, 13, 10],
    [37, 18, 5], [30, 27, 5], [23, 33, 7], [19, 34, 3],
    [5, 5, 9], [24, 28, 12], [15, 30, 22], [19, 19, 32],
    [19, 14, 34], [6, 6, 6], [11, 11, 11], [21, 24, 24],
    [30, 0, 0], [9, 0, 0], [4, 39, 0], [1, 12, 0],
    [29, 28, 0], [11, 9, 0], [33, 17, 0], [14, 3, 0],
];

/// Palette colour of velocity `v` (0..127).
pub open spec fn palette(v: int) -> Color {
    Color { r: ABLETON_COLORS@[v]@[0], g: ABLETON_COLORS@[v]@[1], b: ABLETON_COLORS@[v]@[2] }
}

/// Look up the palette colour of velocity `v`.
pub fn palette_color(v: u8) -> (c: Color)
    requires
        v < 128,
    ensures
        c == palette(v as int),
{
    let e = ABLETON_COLORS[v as usize];
    Color::new(e[0], e[1], e[2])
}

/// The largest channel value of the stock palette.
pub const PALETTE_PEAK: u8 = 48;

/// No channel of `c` exceeds [`PALETTE_PEAK`].
pub open spec fn within_peak(c: Color) -> bool {
    c.r <= PALETTE_PEAK && c.g <= PALETTE_PEAK && c.b <= PALETTE_PEAK
}

/// Every palette colour peaks at 48 per channel, which keeps a full grid of
/// palette colours under the USB current budget without dynamic scaling.
pub proof fn lemma_palette_peak(v: int)
    requires
        0 <= v < 128,
    ensures
        within_peak(palette(v)),
{
    if v < 16 {
        lemma_palette_peak_0(v);
    } else if v < 32 {
        lemma_palette_peak_1(v);
    } else if v < 48 {
        lemma_palette_peak_2(v);
    } else if v < 64 {
        lemma_palette_peak_3(v);
    } else if v < 80 {
        lemma_palette_peak_4(v);
    } else if v < 96 {
        lemma_palette_peak_5(v);
    } else if v < 112 {
        lemma_palette_peak_6(v);
    } else {
        lemma_palette_peak_7(v);
    }
}

proof fn lemma_palette_peak_0(v: int)
    requires
        0 <= v < 16,
    ensures
        within_peak(palette(v)),
{
    if v == 0 {
    } else if v == 1 {
    } else if v == 2 {
    } else if v == 3 {
    } else if v == 4 {
    } else if v == 5 {
    } else if v == 6 {
    } else if v == 7 {
    } else if v == 8 {
    } else if v == 9 {
    } else if v == 10 {
    } else if v == 11 {
    } else if v == 12 {
    } else if v == 13 {
    } else if v == 14 {
    } else if v == 15 {
    }
}

proof fn lemma_palette_peak_1(v: int)
    requires
        16 <= v < 32,
    ensures
        within_peak(palette(v)),
{
    if v == 16 {
    } else if v == 17 {
    } else if v == 18 {
    } else if v == 19 {
    } else if v == 20 {
    } else if v == 21 {
    } else if v == 22 {
    } else if v == 23 {
    } else if v == 24 {
    } else if v == 25 {
    } else if v == 26 {
    } else if v == 27 {
    } else if v == 28 {
    } else if v == 29 {
    } else if v == 30 {
    } else if v == 31 {
    }
}

proof fn lemma_palette_peak_2(v: int)
    requires
        32 <= v < 48,
    ensures
        within_peak(palette(v)),
{
    if v == 32 {
    } else if v == 33 {
    } else if v == 34 {
    } else if v == 35 {
    } else if v == 36 {
    } else if v == 37 {
    } else if v == 38 {
    } else if v == 39 {
    } else if v == 40 {
    } else if v == 41 {
    } else if v == 42 {
    } else if v == 43 {
    } else if v == 44 {
    } else if v == 45 {
    } else if v == 46 {
    } else if v == 47 {
    }
}

proof fn lemma_palette_peak_3(v: int)
    requires
        48 <= v < 64,
    ensures
        within_peak(palette(v)),
{
    if v == 48 {
    } else if v == 49 {
    } else if v == 50 {
    } else if v == 51 {
    } else if v == 52 {
    } else if v == 53 {
    } else if v == 54 {
    } else if v == 55 {
    } else if v == 56 {
    } else if v == 57 {
    } else if v == 58 {
    } else if v == 59 {
    } else if v == 60 {
    } else if v == 61 {
    } else if v == 62 {
    } else if v == 63 {
    }
}

proof fn lemma_palette_peak_4(v: int)
    requires
        64 <= v < 80,
    ensures
        within_peak(palette(v)),
{
    if v == 64 {
    } else if v == 65 {
    } else if v == 66 {
    } else if v == 67 {
    } else if v == 68 {
    } else if v == 69 {
    } else if v == 70 {
    } else if v == 71 {
    } else if v == 72 {
    } else if v == 73 {
    } else if v == 74 {
    } else if v == 75 {
    } else if v == 76 {
    } else if v == 77 {
    } else if v == 78 {
    } else if v == 79 {
    }
}

proof fn lemma_palette_peak_5(v: int)
    requires
        80 <= v < 96,
    ensures
        within_peak(palette(v)),
{
    if v == 80 {
    } else if v == 81 {
    } else if v == 82 {
    } else if v == 83 {
    } else if v == 84 {
    } else if v == 85 {
    } else if v == 86 {
    } else if v == 87 {
    } else if v == 88 {
    } else if v == 89 {
    } else if v == 90 {
    } else if v == 91 {
    } else if v == 92 {
    } else if v == 93 {
    } else if v == 94 {
    } else if v == 95 {
    }
}

proof fn lemma_palette_peak_6(v: int)
    requires
        96 <= v < 112,
    ensures
        within_peak(palette(v)),
{
    if v == 96 {
    } else if v == 97 {
    } else if v == 98 {
    } else if v == 99 {
    } else if v == 100 {
    } else if v == 101 {
    } else if v == 102 {
    } else if v == 103 {
    } else if v == 104 {
    } else if v == 105 {
    } else if v == 106 {
    } else if v == 107 {
    } else if v == 108 {
    } else if v == 109 {
    } else if v == 110 {
    } else if v == 111 {
    }
}

proof fn lemma_palette_peak_7(v: int)
    requires
        112 <= v < 128,
    ensures
        within_peak(palette(v)),
{
    if v == 112 {
    } else if v == 113 {
    } else if v == 114 {
    } else if v == 115 {
    } else if v == 116 {
    } else if v == 117 {
    } else if v == 118 {
    } else if v == 119 {
    } else if v == 120 {
    } else if v == 121 {
    } else if v == 122 {
    } else if v == 123 {
    } else if v == 124 {
    } else if v == 125 {
    } else if v == 126 {
    } else if v == 127 {
    }
}

} // verus!
