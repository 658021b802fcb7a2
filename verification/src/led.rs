//! LED colours and the host LED buffer of the MIDI Fighter 64.
//!
//! 64 arcade buttons, two WS2812 LEDs per button, four strands of 32 LEDs:
//! strand 0 drives LEDs `0..32`, strand 1 `32..64`, strand 2 `64..96` and
//! strand 3 `96..128`. Strands 0, 2 and 3 share PORTB (bits 6, 5, 4) and are
//! sent in parallel from a pre-computed [`ParallelBitBuffer`].

use vstd::prelude::*;

use crate::buttons::ticks_since;

verus! {

pub const NUM_BUTTONS: usize = 64;
pub const LEDS_PER_BUTTON: usize = 2;
pub const BUTTONS_PER_STRAND: usize = 16;
pub const LEDS_PER_STRAND: usize = 32;
pub const NUM_STRANDS: usize = 4;
pub const TOTAL_LEDS: usize = 128;

/// Number of PORTB mid-phase masks for one frame: 32 LEDs × 3 bytes × 8 bits.
pub const PARALLEL_MASKS: usize = 768;

/// Max colour units (R+G+B) across all 128 LEDs to keep power draw under ~450mA total.
pub const SAFE_MAX_COLOR_SUM: u32 = 6200;

/// Max brightness for a single colour channel (approx 30% of 255).
pub const SAFE_MAX_PIXEL_COMPONENT: u8 = 76;

/// An RGB colour value (0–255 per channel).
#[derive(Copy, Clone, Debug, PartialEq, Eq, Structural)]
pub struct Color {
    pub r: u8,
    pub g: u8,
    pub b: u8,
}

pub open spec fn black() -> Color {
    Color { r: 0, g: 0, b: 0 }
}

/// One channel scaled by `scale / 256`, never rounding a lit channel down to 0.
pub open spec fn scale_channel(c: u8, scale: u16) -> u8 {
    let s = (c as int * scale as int) / 256;
    if c > 0 && s == 0 {
        1
    } else {
        s as u8
    }
}

/// The colour scaled channel by channel.
pub open spec fn scaled(c: Color, scale: u16) -> Color {
    Color {
        r: scale_channel(c.r, scale),
        g: scale_channel(c.g, scale),
        b: scale_channel(c.b, scale),
    }
}

/// Scaling by a fraction `scale / 256` of at most one never brightens a
/// channel, never extinguishes a lit one, and keeps an unlit one dark.
pub proof fn lemma_scale_channel_bounds(c: u8, scale: u16)
    requires
        scale <= 256,
    ensures
        scale_channel(c, scale) <= c,
        c > 0 ==> scale_channel(c, scale) > 0,
        c == 0 ==> scale_channel(c, scale) == 0,
{
    let p = c as int * scale as int;
    assert(0 <= p <= c as int * 256) by (nonlinear_arith)
        requires
            0 <= scale <= 256,
            0 <= c,
            p == c as int * scale as int,
    ;
    assert(p / 256 <= c) by (nonlinear_arith)
        requires
            0 <= p <= c as int * 256,
    ;
    assert(0 <= p / 256) by (nonlinear_arith)
        requires
            0 <= p,
    ;
    if c == 0 {
        assert(p == 0);
    }
}

/// Scaling `c` by `scale` stays within 16-bit intermediate arithmetic.
pub open spec fn scalable(c: Color, scale: u16) -> bool {
    &&& c.r as int * scale as int <= u16::MAX
    &&& c.g as int * scale as int <= u16::MAX
    &&& c.b as int * scale as int <= u16::MAX
}

/// A 6-bit channel (0..=63) widened to 8 bits by bit replication (0 stays 0, 63 becomes 255).
pub open spec fn expand6(v: u8) -> u8 {
    if v == 0 {
        0
    } else {
        (v as int * 4 + v as int / 16) as u8
    }
}

/// Widening keeps the ends and the order of the 6-bit range: 0 stays off,
/// 63 becomes full brightness, and a larger 6-bit value is brighter.
pub proof fn lemma_expand6(v: u8, w: u8)
    requires
        v < w < 64,
    ensures
        expand6(0) == 0,
        expand6(63) == 255,
        expand6(v) < expand6(w),
{
    assert(v as int / 16 <= w as int / 16);
}

pub open spec fn rgb6(r: u8, g: u8, b: u8) -> Color {
    Color { r: expand6(r), g: expand6(g), b: expand6(b) }
}

/// The LED buffer with both LEDs of button `btn` set to `c`.
pub open spec fn with_button(leds: Seq<Color>, btn: int, c: Color) -> Seq<Color> {
    leds.update(2 * btn, c).update(2 * btn + 1, c)
}

/// The LED buffer with every LED off.
pub open spec fn cleared(leds: Seq<Color>) -> Seq<Color> {
    Seq::new(leds.len(), |i: int| black())
}

/// All LEDs black.
pub open spec fn all_black(leds: Seq<Color>) -> bool {
    forall|i: int| 0 <= i < leds.len() ==> leds[i] == black()
}

impl Color {
    pub fn new(r: u8, g: u8, b: u8) -> (c: Color)
        ensures
            c == (Color { r, g, b }),
    {
        Color { r, g, b }
    }

    /// All channels off.
    pub fn black() -> (c: Color)
        ensures
            c == black(),
    {
        Color { r: 0, g: 0, b: 0 }
    }

    /// All channels at full brightness.
    pub fn white() -> (c: Color)
        ensures
            c == (Color { r: 255, g: 255, b: 255 }),
    {
        Color { r: 255, g: 255, b: 255 }
    }

    /// Widen 6-bit channels (0..=63) to the 8-bit range by bit replication.
    pub fn from_rgb6(r: u8, g: u8, b: u8) -> (c: Color)
        requires
            r < 64,
            g < 64,
            b < 64,
        ensures
            c == rgb6(r, g, b),
    {
        Color { r: expand6_exec(r), g: expand6_exec(g), b: expand6_exec(b) }
    }

    /// Scale brightness by `scale / 256`. A channel that was lit never rounds down to 0.
    pub fn scale_brightness(self, scale: u16) -> (c: Color)
        requires
            scalable(self, scale),
        ensures
            c == scaled(self, scale),
    {
        let sr = (self.r as u16 * scale) / 256;
        let sg = (self.g as u16 * scale) / 256;
        let sb = (self.b as u16 * scale) / 256;
        Color {
            r: if self.r > 0 && sr == 0 { 1 } else { sr as u8 },
            g: if self.g > 0 && sg == 0 { 1 } else { sg as u8 },
            b: if self.b > 0 && sb == 0 { 1 } else { sb as u8 },
        }
    }
}

fn expand6_exec(v: u8) -> (w: u8)
    requires
        v < 64,
    ensures
        w == expand6(v),
{
    if v == 0 {
        0
    } else {
        v * 4 + v / 16
    }
}

/// Set both LEDs of button `btn` (0..63) to `color`.
pub fn set_button_color(host_leds: &mut [Color; TOTAL_LEDS], btn: usize, color: Color)
    requires
        btn < 64,
    ensures
        final(host_leds)@ == with_button(old(host_leds)@, btn as int, color),
{
    host_leds[btn * 2] = color;
    host_leds[btn * 2 + 1] = color;
}

/// Turn every LED off.
pub fn clear_leds(host_leds: &mut [Color; TOTAL_LEDS])
    ensures
        all_black(final(host_leds)@),
{
    let mut i: usize = 0;
    while i < TOTAL_LEDS
        invariant
            i <= TOTAL_LEDS,
            forall|j: int| 0 <= j < i ==> host_leds@[j] == black(),
        decreases TOTAL_LEDS - i,
    {
        host_leds[i] = Color::black();
        i += 1;
    }
}

// ── Parallel bit buffer ───────────────────────────────────────────────────────

/// Pre-computed PORTB output masks for parallel WS2812 transmission of strands
/// 0 (PB6), 2 (PB5) and 3 (PB4): 32 LED positions × 3 wire bytes (G, R, B) × 8
/// bits, most significant bit first.
pub struct ParallelBitBuffer {
    pub masks: [u8; PARALLEL_MASKS],
}

impl ParallelBitBuffer {
    /// A zeroed buffer.
    pub fn new() -> (b: ParallelBitBuffer)
        ensures
            forall|i: int| 0 <= i < PARALLEL_MASKS ==> b.masks@[i] == 0,
    {
        ParallelBitBuffer { masks: [0u8; PARALLEL_MASKS] }
    }
}

/// Wire byte `ch` of a colour: WS2812 order is G, R, B.
pub open spec fn wire_byte(c: Color, ch: int) -> u8 {
    if ch == 0 {
        c.g
    } else if ch == 1 {
        c.r
    } else {
        c.b
    }
}

/// Bit `bit` of byte `b` moved to position `pos` of a PORTB mask.
pub open spec fn bit_to(b: u8, bit: u8, pos: u8) -> u8 {
    ((b >> bit) & 1) << pos
}

/// The PORTB mask for LED position `led_pos` (0..32), wire byte `ch` (0..3) and
/// the `k`-th bit sent (0..8, bit `7 - k` of the byte): strand 0's bit on PB6,
/// strand 2's on PB5, strand 3's on PB4.
pub open spec fn parallel_mask(leds: Seq<Color>, scale: u16, led_pos: int, ch: int, k: int) -> u8 {
    let bit = (7 - k) as u8;
    let b0 = wire_byte(scaled(leds[led_pos], scale), ch);
    let b2 = wire_byte(scaled(leds[64 + led_pos], scale), ch);
    let b3 = wire_byte(scaled(leds[96 + led_pos], scale), ch);
    bit_to(b0, bit, 6) | bit_to(b2, bit, 5) | bit_to(b3, bit, 4)
}

/// Each PORTB mask drives only the three strand pins: PB6 carries strand
/// 0's bit, PB5 strand 2's and PB4 strand 3's, each the bit `7 - k` of the
/// LED's scaled wire byte `ch` (most significant bit first); all other pins
/// stay low.
pub proof fn lemma_parallel_mask_pins(leds: Seq<Color>, scale: u16, led_pos: int, ch: int, k: int)
    requires
        0 <= k < 8,
    ensures
        ({
            let m = parallel_mask(leds, scale, led_pos, ch, k);
            let bit = (7 - k) as u8;
            &&& (m >> 6u8) & 1 == (wire_byte(scaled(leds[led_pos], scale), ch) >> bit) & 1
            &&& (m >> 5u8) & 1 == (wire_byte(scaled(leds[64 + led_pos], scale), ch) >> bit) & 1
            &&& (m >> 4u8) & 1 == (wire_byte(scaled(leds[96 + led_pos], scale), ch) >> bit) & 1
            &&& m & 0x8F == 0
        }),
{
    let bit = (7 - k) as u8;
    let b0 = wire_byte(scaled(leds[led_pos], scale), ch);
    let b2 = wire_byte(scaled(leds[64 + led_pos], scale), ch);
    let b3 = wire_byte(scaled(leds[96 + led_pos], scale), ch);
    let m = bit_to(b0, bit, 6) | bit_to(b2, bit, 5) | bit_to(b3, bit, 4);
    assert(({
        let m = ((b0 >> bit) & 1) << 6u8 | ((b2 >> bit) & 1) << 5u8 | ((b3 >> bit) & 1) << 4u8;
        &&& (m >> 6u8) & 1 == (b0 >> bit) & 1
        &&& (m >> 5u8) & 1 == (b2 >> bit) & 1
        &&& (m >> 4u8) & 1 == (b3 >> bit) & 1
        &&& m & 0x8F == 0
    })) by (bit_vector)
        requires
            bit < 8,
    ;
}

/// Every colour on strands 0, 2 and 3 can be scaled by `scale`.
pub open spec fn parallel_strands_scalable(leds: Seq<Color>, scale: u16) -> bool {
    forall|i: int|
        #![trigger leds[i]]
        0 <= i < 32 ==> scalable(leds[i], scale) && scalable(leds[64 + i], scale) && scalable(
            leds[96 + i],
            scale,
        )
}

/// Pre-compute the 768 PORTB mid-phase masks from the LED colours, scaled by `scale / 256`.
/// Mask `24 * led_pos + 8 * ch + k` carries bit `7 - k` of wire byte `ch` of LED
/// `led_pos` of strands 0, 2 and 3.
pub fn fill_parallel_buffer_into(
    buf: &mut ParallelBitBuffer,
    host_leds: &[Color; TOTAL_LEDS],
    scale: u16,
)
    requires
        parallel_strands_scalable(host_leds@, scale),
    ensures
        forall|led_pos: int, ch: int, k: int|
            0 <= led_pos < 32 && 0 <= ch < 3 && 0 <= k < 8 ==> #[trigger] final(buf).masks@[24
                * led_pos + 8 * ch + k] == parallel_mask(host_leds@, scale, led_pos, ch, k),
{
    let mut led_pos: usize = 0;
    while led_pos < LEDS_PER_STRAND
        invariant
            led_pos <= 32,
            parallel_strands_scalable(host_leds@, scale),
            forall|p: int, ch: int, k: int|
                0 <= p < led_pos && 0 <= ch < 3 && 0 <= k < 8 ==> #[trigger] buf.masks@[24 * p + 8
                    * ch + k] == parallel_mask(host_leds@, scale, p, ch, k),
        decreases 32 - led_pos,
    {
        let c0 = host_leds[led_pos].scale_brightness(scale);
        let c2 = host_leds[LEDS_PER_STRAND * 2 + led_pos].scale_brightness(scale);
        let c3 = host_leds[LEDS_PER_STRAND * 3 + led_pos].scale_brightness(scale);
        let mut ch: usize = 0;
        while ch < 3
            invariant
                led_pos < 32,
                ch <= 3,
                c0 == scaled(host_leds@[led_pos as int], scale),
                c2 == scaled(host_leds@[64 + led_pos], scale),
                c3 == scaled(host_leds@[96 + led_pos], scale),
                forall|p: int, ch2: int, k: int|
                    0 <= p < led_pos && 0 <= ch2 < 3 && 0 <= k < 8 ==> #[trigger] buf.masks@[24 * p
                        + 8 * ch2 + k] == parallel_mask(host_leds@, scale, p, ch2, k),
                forall|ch2: int, k: int|
                    0 <= ch2 < ch && 0 <= k < 8 ==> #[trigger] buf.masks@[24 * led_pos + 8 * ch2
                        + k] == parallel_mask(host_leds@, scale, led_pos as int, ch2, k),
            decreases 3 - ch,
        {
            let (b0, b2, b3) = if ch == 0 {
                (c0.g, c2.g, c3.g)
            } else if ch == 1 {
                (c0.r, c2.r, c3.r)
            } else {
                (c0.b, c2.b, c3.b)
            };
            let mut k: u8 = 0;
            while k < 8
                invariant
                    led_pos < 32,
                    ch < 3,
                    k <= 8,
                    b0 == wire_byte(scaled(host_leds@[led_pos as int], scale), ch as int),
                    b2 == wire_byte(scaled(host_leds@[64 + led_pos], scale), ch as int),
                    b3 == wire_byte(scaled(host_leds@[96 + led_pos], scale), ch as int),
                    forall|p: int, ch2: int, k2: int|
                        0 <= p < led_pos && 0 <= ch2 < 3 && 0 <= k2 < 8 ==> #[trigger] buf.masks@[24
                            * p + 8 * ch2 + k2] == parallel_mask(host_leds@, scale, p, ch2, k2),
                    forall|ch2: int, k2: int|
                        0 <= ch2 < ch && 0 <= k2 < 8 ==> #[trigger] buf.masks@[24 * led_pos + 8
                            * ch2 + k2] == parallel_mask(host_leds@, scale, led_pos as int, ch2, k2),
                    forall|k2: int|
                        0 <= k2 < k ==> #[trigger] buf.masks@[24 * led_pos + 8 * ch + k2]
                            == parallel_mask(host_leds@, scale, led_pos as int, ch as int, k2),
                decreases 8 - k,
            {
                let bit: u8 = 7 - k;
                let idx = 24 * led_pos + 8 * ch + k as usize;
                buf.masks[idx] = ((b0 >> bit) & 1) << 6u8 | ((b2 >> bit) & 1) << 5u8 | ((b3 >> bit)
                    & 1) << 4u8;
                k += 1;
            }
            ch += 1;
        }
        led_pos += 1;
    }
}

/// The bytes sent on the wire for one strand, in order: for each LED its
/// scaled G, R and B bytes.
pub open spec fn wire_bytes(leds: Seq<Color>, scale: u16) -> Seq<u8> {
    Seq::new(3 * leds.len(), |j: int| wire_byte(scaled(leds[j / 3], scale), j % 3))
}

/// Every colour of `leds` can be scaled by `scale`.
pub open spec fn all_scalable(leds: Seq<Color>, scale: u16) -> bool {
    forall|i: int| 0 <= i < leds.len() ==> #[trigger] scalable(leds[i], scale)
}

/// The byte stream of a strand sent one LED after another (strand 1 on PC6):
/// each colour scaled by `scale / 256`, then its G, R and B bytes.
pub fn strand_wire_bytes(leds: &[Color], scale: u16) -> (out: Vec<u8>)
    requires
        all_scalable(leds@, scale),
        3 * leds@.len() <= usize::MAX,
    ensures
        out@ == wire_bytes(leds@, scale),
{
    let mut out: Vec<u8> = Vec::new();
    let mut i: usize = 0;
    while i < leds.len()
        invariant
            i <= leds@.len(),
            3 * leds@.len() <= usize::MAX,
            all_scalable(leds@, scale),
            out@.len() == 3 * i,
            forall|j: int| 0 <= j < 3 * i ==> #[trigger] out@[j] == wire_byte(scaled(leds@[j / 3], scale), j % 3),
        decreases leds@.len() - i,
    {
        assert(scalable(leds@[i as int], scale));
        let c = leds[i].scale_brightness(scale);
        out.push(c.g);
        out.push(c.r);
        out.push(c.b);
        proof {
            assert forall|j: int| 3 * i <= j < 3 * i + 3 implies #[trigger] out@[j] == wire_byte(
                scaled(leds@[j / 3], scale),
                j % 3,
            ) by {
                assert(j / 3 == i);
            }
        }
        i += 1;
    }
    assert(out@ =~= wire_bytes(leds@, scale));
    out
}

// ── Power budget ──────────────────────────────────────────────────────────────

/// Colour units (R + G + B) of a list of LEDs.
pub open spec fn color_sum(leds: Seq<Color>) -> int
    decreases leds.len(),
{
    if leds.len() == 0 {
        0
    } else {
        color_sum(leds.drop_last()) + leds.last().r + leds.last().g + leds.last().b
    }
}

proof fn lemma_color_sum_bounds(leds: Seq<Color>)
    ensures
        0 <= color_sum(leds) <= 765 * leds.len(),
    decreases leds.len(),
{
    if leds.len() > 0 {
        lemma_color_sum_bounds(leds.drop_last());
    }
}

/// The LEDs scaled by `scale / 256`, as they go on the wire.
pub open spec fn scaled_frame(leds: Seq<Color>, scale: u16) -> Seq<Color> {
    Seq::new(leds.len(), |i: int| scaled(leds[i], scale))
}

/// The brightness scale (out of 256) for a frame of `total` colour units:
/// full brightness within [`SAFE_MAX_COLOR_SUM`], else the fraction that
/// brings the units down to it.
pub open spec fn power_scale_for(total: int) -> int {
    if total <= SAFE_MAX_COLOR_SUM {
        256
    } else {
        SAFE_MAX_COLOR_SUM * 256 / total
    }
}

/// A scaled channel is at most its share `c * scale / 256`, plus the one
/// unit that keeps a lit channel lit.
proof fn lemma_channel_units(c: u8, scale: u16)
    requires
        scale <= 256,
    ensures
        256 * scale_channel(c, scale) <= c * scale + 256,
{
    let p = c as int * scale as int;
    lemma_scale_channel_bounds(c, scale);
    vstd::arithmetic::div_mod::lemma_fundamental_div_mod(p, 256);
    vstd::arithmetic::div_mod::lemma_mod_bound(p, 256);
    assert(0 <= p) by (nonlinear_arith)
        requires
            p == c as int * scale as int,
            c >= 0,
            scale >= 0,
    ;
}

proof fn lemma_frame_units(leds: Seq<Color>, scale: u16)
    requires
        scale <= 256,
    ensures
        256 * color_sum(scaled_frame(leds, scale)) <= scale * color_sum(leds) + 768 * leds.len(),
    decreases leds.len(),
{
    if leds.len() > 0 {
        let init = leds.drop_last();
        let c = leds.last();
        lemma_frame_units(init, scale);
        assert(scaled_frame(leds, scale).drop_last() =~= scaled_frame(init, scale));
        lemma_channel_units(c.r, scale);
        lemma_channel_units(c.g, scale);
        lemma_channel_units(c.b, scale);
        let t = color_sum(init);
        assert(scale * color_sum(leds) == scale * t + c.r * scale + c.g * scale + c.b * scale)
            by (nonlinear_arith)
            requires
                color_sum(leds) == t + c.r + c.g + c.b,
        ;
    }
}

/// Scaling by a full 256/256 leaves every colour as it is.
proof fn lemma_full_scale(leds: Seq<Color>)
    ensures
        scaled_frame(leds, 256) == leds,
{
    assert forall|i: int| 0 <= i < leds.len() implies #[trigger] scaled_frame(leds, 256)[i] == leds[i] by {
        let c = leds[i];
        assert(c.r as int * 256 / 256 == c.r);
        assert(c.g as int * 256 / 256 == c.g);
        assert(c.b as int * 256 / 256 == c.b);
    }
    assert(scaled_frame(leds, 256) =~= leds);
}

/// The power budget: a frame scaled by its [`power_scale_for`] draws at most
/// [`SAFE_MAX_COLOR_SUM`] colour units, plus at most one unit per channel
/// (a lit channel never rounds down to dark); a frame within the budget
/// goes out at full brightness, unchanged.
pub proof fn lemma_power_budget(leds: Seq<Color>)
    requires
        leds.len() == TOTAL_LEDS,
    ensures
        0 < power_scale_for(color_sum(leds)) <= 256,
        color_sum(scaled_frame(leds, power_scale_for(color_sum(leds)) as u16))
            <= SAFE_MAX_COLOR_SUM + 3 * TOTAL_LEDS,
        color_sum(leds) <= SAFE_MAX_COLOR_SUM ==> scaled_frame(
            leds,
            power_scale_for(color_sum(leds)) as u16,
        ) == leds,
{
    let total = color_sum(leds);
    let s = power_scale_for(total);
    let budget = SAFE_MAX_COLOR_SUM * 256;
    lemma_color_sum_bounds(leds);
    if total > SAFE_MAX_COLOR_SUM {
        vstd::arithmetic::div_mod::lemma_fundamental_div_mod(budget as int, total);
        vstd::arithmetic::div_mod::lemma_mod_bound(budget as int, total);
        assert(s * total <= budget) by (nonlinear_arith)
            requires
                budget == total * s + budget % total,
                budget % total >= 0,
        ;
        assert(0 < s <= 256) by (nonlinear_arith)
            requires
                s == budget / total,
                SAFE_MAX_COLOR_SUM < total <= 765 * 128,
                budget == SAFE_MAX_COLOR_SUM * 256,
        ;
    } else {
        lemma_full_scale(leds);
        assert(s * total <= budget);
    }
    lemma_frame_units(leds, s as u16);
}

/// The brightness scale that keeps a frame within the power budget (see
/// [`lemma_power_budget`]).
pub fn power_scale(host_leds: &[Color; TOTAL_LEDS]) -> (scale: u16)
    ensures
        scale == power_scale_for(color_sum(host_leds@)),
        0 < scale <= 256,
{
    let mut total: u32 = 0;
    let mut i: usize = 0;
    while i < TOTAL_LEDS
        invariant
            i <= TOTAL_LEDS,
            total == color_sum(host_leds@.take(i as int)),
            total <= 765 * i,
        decreases TOTAL_LEDS - i,
    {
        let c = host_leds[i];
        proof {
            assert(host_leds@.take(i + 1).drop_last() =~= host_leds@.take(i as int));
        }
        total = total + c.r as u32 + c.g as u32 + c.b as u32;
        i += 1;
    }
    assert(host_leds@.take(TOTAL_LEDS as int) =~= host_leds@);
    proof {
        lemma_power_budget(host_leds@);
    }
    if total <= SAFE_MAX_COLOR_SUM {
        256
    } else {
        ((SAFE_MAX_COLOR_SUM * 256) / total) as u16
    }
}

/// LED frames are sent at most every 52 timer ticks of 64 µs (about 300 Hz).
pub const LED_FRAME_INTERVAL_TICKS: u16 = 52;

/// A new LED frame is sent when the LED buffer changed and at least
/// [`LED_FRAME_INTERVAL_TICKS`] have passed since the last frame.
pub fn frame_due(dirty: bool, now_tick: u16, last_frame_tick: u16) -> (due: bool)
    ensures
        due == (dirty && ticks_since(now_tick, last_frame_tick) >= LED_FRAME_INTERVAL_TICKS),
{
    dirty && now_tick.wrapping_sub(last_frame_tick) >= LED_FRAME_INTERVAL_TICKS
}

} // verus!
