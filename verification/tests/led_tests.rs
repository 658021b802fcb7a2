use rf64::led::{
    clear_leds, fill_parallel_buffer_into, frame_due, power_scale, set_button_color,
    strand_wire_bytes, Color, ParallelBitBuffer, LED_FRAME_INTERVAL_TICKS, SAFE_MAX_COLOR_SUM,
    TOTAL_LEDS,
};

#[test]
fn scale_brightness_halves_channels() {
    let c = Color::new(100, 50, 1).scale_brightness(128);
    assert_eq!(c, Color::new(50, 25, 1));
}

#[test]
fn scale_brightness_keeps_dim_channel_lit() {
    let c = Color::new(3, 0, 255).scale_brightness(10);
    // 3 * 10 / 256 rounds to 0 but the channel was lit; 0 stays 0.
    assert_eq!(c, Color::new(1, 0, 9));
}

#[test]
fn scale_brightness_full_scale_is_identity() {
    let c = Color::new(255, 128, 7).scale_brightness(256);
    assert_eq!(c, Color::new(255, 128, 7));
}

#[test]
fn scale_never_brightens_never_extinguishes() {
    for v in [0u8, 1, 2, 77, 128, 255] {
        for scale in [0u16, 1, 25, 128, 255, 256] {
            let c = Color::new(v, v, v).scale_brightness(scale);
            assert!(c.r <= v);
            if v > 0 {
                assert!(c.r > 0);
            } else {
                assert_eq!(c.r, 0);
            }
        }
    }
}

#[test]
fn from_rgb6_widens_by_bit_replication() {
    assert_eq!(Color::from_rgb6(63, 1, 0), Color::new(255, 4, 0));
    assert_eq!(Color::from_rgb6(32, 16, 48), Color::new(130, 65, 195));
}

#[test]
fn set_button_color_sets_both_leds() {
    let mut leds = [Color::black(); TOTAL_LEDS];
    set_button_color(&mut leds, 63, Color::new(1, 2, 3));
    assert_eq!(leds[126], Color::new(1, 2, 3));
    assert_eq!(leds[127], Color::new(1, 2, 3));
    assert_eq!(leds[125], Color::black());
    clear_leds(&mut leds);
    assert!(leds.iter().all(|c| *c == Color::black()));
}

#[test]
fn parallel_masks_carry_strands_0_2_3() {
    let mut leds = [Color::black(); TOTAL_LEDS];
    // strand 0 LED 0: green 0x80 (only the top bit), strand 2 LED 0: red 0x01,
    // strand 3 LED 0: blue 0xFF.
    leds[0] = Color::new(0, 0x80, 0);
    leds[64] = Color::new(0x01, 0, 0);
    leds[96] = Color::new(0, 0, 0xFF);
    // strand 1 is not part of the parallel buffer
    leds[32] = Color::white();
    let mut buf = ParallelBitBuffer::new();
    fill_parallel_buffer_into(&mut buf, &leds, 256);
    // G byte, first bit sent (bit 7): strand 0 on PB6.
    assert_eq!(buf.masks[0], 0x40);
    for k in 1..8 {
        assert_eq!(buf.masks[k], 0);
    }
    // R byte: strand 2's bit 0 is sent last, on PB5.
    assert_eq!(buf.masks[8 + 7], 0x20);
    for k in 8..15 {
        assert_eq!(buf.masks[k], 0);
    }
    // B byte: strand 3 all ones on PB4.
    for k in 16..24 {
        assert_eq!(buf.masks[k], 0x10);
    }
    assert!(buf.masks[24..].iter().all(|m| *m == 0));
}

#[test]
fn strand_wire_bytes_are_grb_scaled() {
    let leds = [Color::new(10, 20, 30), Color::new(200, 0, 2)];
    let bytes = strand_wire_bytes(&leds, 128);
    assert_eq!(bytes, vec![10, 5, 15, 0, 100, 1]);
}

#[test]
fn frame_due_needs_dirty_and_interval() {
    assert!(!frame_due(false, 1000, 0));
    assert!(!frame_due(true, 51, 0));
    assert!(frame_due(true, LED_FRAME_INTERVAL_TICKS, 0));
    // across the 16-bit wrap
    assert!(frame_due(true, 50, 65530));
    assert!(!frame_due(true, 10, 65500 + 20));
}

#[test]
fn rgb6_widening_is_increasing() {
    let mut prev = Color::from_rgb6(0, 0, 0).r;
    assert_eq!(prev, 0);
    for v in 1..64u8 {
        let r = Color::from_rgb6(v, 0, 0).r;
        assert!(r > prev);
        prev = r;
    }
    assert_eq!(prev, 255);
}

fn units(leds: &[Color], scale: u16) -> u32 {
    leds.iter()
        .map(|c| {
            let s = c.scale_brightness(scale);
            s.r as u32 + s.g as u32 + s.b as u32
        })
        .sum()
}

#[test]
fn dark_and_modest_frames_go_out_at_full_brightness() {
    assert_eq!(power_scale(&[Color::black(); TOTAL_LEDS]), 256);
    let mut leds = [Color::black(); TOTAL_LEDS];
    // 6200 units exactly: 23 LEDs at (255, 5, 0) and one at (220, 0, 0)
    for c in leds.iter_mut().take(23) {
        *c = Color::new(255, 5, 0);
    }
    leds[23] = Color::new(220, 0, 0);
    assert_eq!(units(&leds, 256), SAFE_MAX_COLOR_SUM);
    assert_eq!(power_scale(&leds), 256);
    leds[24] = Color::new(1, 0, 0);
    assert_eq!(power_scale(&leds), 255);
}

#[test]
fn all_white_frame_is_dimmed_to_the_budget() {
    let leds = [Color::white(); TOTAL_LEDS];
    let scale = power_scale(&leds);
    assert_eq!(scale, 16);
    assert_eq!(Color::white().scale_brightness(scale), Color::new(15, 15, 15));
    assert!(units(&leds, scale) <= SAFE_MAX_COLOR_SUM);
}
