use rf64::buttons::ButtonMask;
use rf64::hid::{
    accepts_class_request, hid_descriptor, is_report_descriptor_request,
    KEYBOARD_REPORT_DESCRIPTOR,
};
use rf64::keyboard::{
    build_keyboard_report, build_keyboard_report_for, get_button_color, get_key_color,
    keyboard_combo_held, paint_keyboard, KeyboardMode,
};
use rf64::led::{Color, TOTAL_LEDS};

fn keys_mask(btns: &[usize]) -> ButtonMask {
    let mut m = ButtonMask::empty();
    for b in btns {
        m.set(*b);
    }
    m
}

#[test]
fn single_key_report() {
    // button 7 is SPACE
    let (report, is_fn) = build_keyboard_report(1 << 7);
    assert_eq!(report, [0, 0, 0x2C, 0, 0, 0, 0, 0]);
    assert!(!is_fn);
}

#[test]
fn modifiers_go_to_byte_zero() {
    // LCTRL (button 4) and LSHIFT (button 8) with Z (button 12)
    let (report, _) = build_keyboard_report((1 << 4) | (1 << 8) | (1 << 12));
    assert_eq!(report, [0b0000_0011, 0, 0x1D, 0, 0, 0, 0, 0]);
}

#[test]
fn fn_switches_layer_and_is_not_reported() {
    let (report, is_fn) = build_keyboard_report((1 << 0) | (1 << 16));
    assert!(is_fn);
    // layer 1 button 16 is '9'
    assert_eq!(report, [0, 0, 0x26, 0, 0, 0, 0, 0]);
    // the second FN key (button 35) works as well
    let (_, is_fn) = build_keyboard_report(1 << 35);
    assert!(is_fn);
}

#[test]
fn at_most_six_keys_in_button_order() {
    let mut word = 0u64;
    for b in 12..19 {
        word |= 1 << b;
    }
    let (report, _) = build_keyboard_report(word);
    assert_eq!(report, [0, 0, 0x1D, 0x1B, 0x06, 0x19, 0x04, 0x16]);
}

#[test]
fn unmapped_buttons_are_silent() {
    let (report, is_fn) = build_keyboard_report((1 << 1) | (1 << 2) | (1 << 3));
    assert_eq!(report, [0; 8]);
    assert!(!is_fn);
}

#[test]
fn report_from_mask_matches_word() {
    let m = keys_mask(&[4, 7, 63]);
    let word = (1u64 << 4) | (1 << 7) | (1 << 63);
    assert_eq!(build_keyboard_report_for(m), build_keyboard_report(word));
}

#[test]
fn key_colours_by_category() {
    assert_eq!(get_key_color(0x00), Color::new(0, 0, 0));
    assert_eq!(get_key_color(0xFF), Color::new(255, 255, 255));
    assert_eq!(get_key_color(0xE1), Color::new(220, 0, 220));
    assert_eq!(get_key_color(0x1E), Color::new(0, 180, 255));
    assert_eq!(get_key_color(0x3A), Color::new(0, 180, 255));
    assert_eq!(get_key_color(0x04), Color::new(0, 210, 30));
    assert_eq!(get_key_color(0x4F), Color::new(230, 160, 0));
    assert_eq!(get_key_color(0x2C), Color::new(255, 80, 0));
}

#[test]
fn button_colours_dim_when_idle() {
    assert_eq!(get_button_color(7, true, false), Color::new(255, 80, 0));
    assert_eq!(get_button_color(7, false, false), Color::new(24, 7, 0));
    assert_eq!(get_button_color(1, true, false), Color::black());
    // button 7 has no key on the FN layer
    assert_eq!(get_button_color(7, true, true), Color::black());
}

#[test]
fn keyboard_mode_sends_only_changes() {
    let mut mode = KeyboardMode::new();
    let u = mode.update(ButtonMask::empty());
    assert!(u.report.is_none() && !u.redraw);
    let u = mode.update(keys_mask(&[7]));
    assert_eq!(u.report, Some([0, 0, 0x2C, 0, 0, 0, 0, 0]));
    assert!(u.redraw);
    let u = mode.update(keys_mask(&[7]));
    assert!(u.report.is_none() && !u.redraw);
    // FN alone changes no report but switches the layer shown
    let u = mode.update(keys_mask(&[7, 0]));
    assert_eq!(u.report, Some([0; 8]));
    assert!(u.redraw && u.is_fn_pressed);
    let u = mode.update(keys_mask(&[0]));
    assert!(u.report.is_none() && !u.redraw);
    let u = mode.update(ButtonMask::empty());
    assert!(u.report.is_none() && u.redraw && !u.is_fn_pressed);
}

#[test]
fn keyboard_frame_paints_every_button() {
    let mut leds = [Color::white(); TOTAL_LEDS];
    paint_keyboard(&mut leds, &keys_mask(&[7]), false);
    assert_eq!(leds[14], Color::new(255, 80, 0));
    assert_eq!(leds[15], Color::new(255, 80, 0));
    assert_eq!(leds[2], Color::black());
    assert_eq!(leds[0], get_button_color(0, false, false));
}

#[test]
fn keyboard_combo_is_button_2() {
    assert!(keyboard_combo_held(keys_mask(&[2])));
    assert!(!keyboard_combo_held(keys_mask(&[0, 1, 3])));
}

#[test]
fn hid_descriptor_announces_report_length() {
    assert_eq!(KEYBOARD_REPORT_DESCRIPTOR.len(), 63);
    assert_eq!(hid_descriptor(), [0x11, 0x01, 0x00, 0x01, 0x22, 63, 0x00]);
}

#[test]
fn control_requests() {
    assert!(is_report_descriptor_request(0, 1, 6, 0x2200));
    assert!(!is_report_descriptor_request(0, 1, 6, 0x2100));
    assert!(!is_report_descriptor_request(1, 1, 6, 0x2200));
    assert!(!is_report_descriptor_request(0, 0, 6, 0x2200));
    assert!(accepts_class_request(1, 1, 0x0A));
    assert!(accepts_class_request(1, 1, 0x0B));
    assert!(accepts_class_request(1, 1, 0x09));
    assert!(!accepts_class_request(1, 1, 0x01));
    assert!(!accepts_class_request(0, 1, 0x0A));
    assert!(!accepts_class_request(1, 2, 0x0A));
}

#[test]
fn report_slots_hold_plain_keys_only() {
    // every button at once: FN held, layer 1
    let (report, is_fn) = build_keyboard_report(u64::MAX);
    assert!(is_fn);
    assert_eq!(report[1], 0);
    for k in &report[2..] {
        assert!(*k != 0xFF && !(0xE0..=0xE7).contains(k));
    }
    // first six plain keys of layer 1 in button order: 9, 0, 1, 2, 3, 4
    assert_eq!(&report[2..], &[0x26, 0x27, 0x1E, 0x1F, 0x20, 0x21]);
}
