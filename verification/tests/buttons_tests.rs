use rf64::boot::bootloader::{bootloader_combo_held, bootloader_jump_requested, MAGIC_BOOT_KEY};
use rf64::bootloader;
use rf64::buttons::{cell_to_btn, for_each_button, ButtonMask, Debouncer, DEBOUNCE_TICKS};

fn mask_of(btns: &[usize]) -> ButtonMask {
    let mut m = ButtonMask::empty();
    for b in btns {
        m.set(*b);
    }
    m
}

#[test]
fn mask_set_clear_is_set() {
    let mut m = ButtonMask::empty();
    assert!(m.is_empty());
    assert!(!m.any());
    m.set(0);
    m.set(9);
    m.set(63);
    assert_eq!(m.0, [0x01, 0x02, 0, 0, 0, 0, 0, 0x80]);
    assert!(m.is_set(9) && m.is_set(63) && !m.is_set(8));
    assert!(m.any());
    m.clear(9);
    assert!(!m.is_set(9));
    assert!(m.is_set(0));
}

#[test]
fn mask_ignores_out_of_range_buttons() {
    let mut m = ButtonMask::empty();
    m.set(64);
    m.set(1000);
    assert!(m.is_empty());
    assert!(!m.is_set(64));
    m.clear(70);
    assert!(m.is_empty());
}

#[test]
fn mask_from_levels() {
    let mut levels = [false; 64];
    levels[3] = true;
    levels[40] = true;
    let m = ButtonMask::from_levels(&levels);
    assert_eq!(m, mask_of(&[3, 40]));
}

#[test]
fn for_each_button_in_increasing_order() {
    let m = mask_of(&[63, 5, 17, 0]);
    assert_eq!(for_each_button(m), vec![0, 5, 17, 63]);
    assert_eq!(for_each_button(ButtonMask::empty()), Vec::<u8>::new());
}

#[test]
fn cell_to_btn_drum_rack_layout() {
    assert_eq!(cell_to_btn(0, 0), 0);
    assert_eq!(cell_to_btn(0, 3), 3);
    assert_eq!(cell_to_btn(1, 0), 4);
    assert_eq!(cell_to_btn(0, 4), 32);
    assert_eq!(cell_to_btn(7, 7), 63);
    let mut seen = [false; 64];
    for r in 0..8u8 {
        for c in 0..8u8 {
            let b = cell_to_btn(r, c);
            assert!(!seen[b]);
            seen[b] = true;
        }
    }
}

#[test]
fn debouncer_reports_edge_then_locks_out() {
    let mut d = Debouncer::new();
    let (p, r) = d.update(mask_of(&[3]), 100);
    assert_eq!(p, mask_of(&[3]));
    assert!(r.is_empty());
    assert!(d.state.is_set(3));
    // bounce inside the lockout window is ignored
    let (p, r) = d.update(ButtonMask::empty(), 100 + DEBOUNCE_TICKS - 1);
    assert!(p.is_empty() && r.is_empty());
    assert!(d.state.is_set(3));
    // after the window the release is reported
    let (p, r) = d.update(ButtonMask::empty(), 100 + DEBOUNCE_TICKS);
    assert!(p.is_empty());
    assert_eq!(r, mask_of(&[3]));
    assert!(d.state.is_empty());
}

#[test]
fn debouncer_handles_timer_wrap() {
    let mut d = Debouncer::new();
    let _ = d.update(mask_of(&[10]), 65500);
    // 65500 + 100 wraps to 64: still inside the window
    let (p, r) = d.update(ButtonMask::empty(), 64);
    assert!(p.is_empty() && r.is_empty());
    let (_, r) = d.update(ButtonMask::empty(), 200);
    assert_eq!(r, mask_of(&[10]));
}

#[test]
fn debouncer_buttons_are_independent() {
    let mut d = Debouncer::new();
    let _ = d.update(mask_of(&[1]), 0);
    let (p, _) = d.update(mask_of(&[1, 2]), 5);
    assert_eq!(p, mask_of(&[2]));
}

#[test]
fn bootloader_entry_conditions() {
    assert!(bootloader_jump_requested(true, MAGIC_BOOT_KEY));
    assert!(!bootloader_jump_requested(false, MAGIC_BOOT_KEY));
    assert!(!bootloader_jump_requested(true, 0));
    assert!(bootloader_combo_held(mask_of(&[0])));
    assert!(!bootloader_combo_held(mask_of(&[1, 2])));
    assert!(bootloader::bootloader_jump_requested(0x08, 0xDC42_ACCA));
    assert!(!bootloader::bootloader_jump_requested(0x07, 0xDC42_ACCA));
    assert!(bootloader::bootloader_combo_held(0b1));
    assert!(!bootloader::bootloader_combo_held(0b10));
}

#[test]
fn debouncer_state_accessor() {
    let mut d = Debouncer::new();
    let _ = d.update(mask_of(&[7]), 0);
    assert_eq!(d.state(), mask_of(&[7]));
    assert_eq!(d.state(), d.state);
}
