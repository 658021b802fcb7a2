//! USB HID keyboard emulation: the 8×8 QWERTY layout, its colour scheme and
//! the boot-keyboard report builder.

use vstd::prelude::*;

use crate::buttons::ButtonMask;
use crate::led::{scaled, set_button_color, Color, TOTAL_LEDS};

verus! {

/// Key code of the FN (layer switch) key.
pub const KEY_FN: u8 = 0xFF;

/// Base layer (layer 0), buttons 0..63 bottom to top, left half then right half.
pub const LAYER_0: [u8; 64] = [
    0xFF, 0x00, 0x00, 0x00, // FN, MUTE, VOLD, VOLU (unmapped)
    0xE0, 0xE2, 0xE3, 0x2C, // LCTRL, LALT, LCMD, SPC
    0xE1, 0x33, 0x34, 0x36, // LSHFT, ;, ', ,
    0x1D, 0x1B, 0x06, 0x19, // Z, X, C, V
    0x04, 0x16, 0x07, 0x09, // A, S, D, F
    0x14, 0x1A, 0x08, 0x15, // Q, W, E, R
    0x4A, 0x4E, 0x4B, 0x4D, // HOME, PGDN, PGUP, END
    0x29, 0x2B, 0x35, 0x2D, // ESC, TAB, `, -
    0x00, 0x00, 0x00, 0xFF, // PLAY, PREV, NEXT (unmapped), FN
    0x2C, 0x50, 0x51, 0x4F, // SPC, LEFT, DOWN, RGHT
    0x37, 0x38, 0x52, 0x28, // ., /, UP, ENTR
    0x05, 0x11, 0x10, 0x0F, // B, N, M, L
    0x0A, 0x0B, 0x0D, 0x0E, // G, H, J, K
    0x17, 0x1C, 0x18, 0x0C, // T, Y, U, I
    0x2F, 0x30, 0x12, 0x13, // [, ], O, P
    0x2E, 0x31, 0x4C, 0x2A, // =, \, DEL, BKSP
];

/// Function layer (layer 1): numbers and F-keys.
pub const LAYER_1: [u8; 64] = [
    0xFF, 0x00, 0x00, 0x00, // FN
    0x00, 0x00, 0x00, 0x00,
    0x00, 0x00, 0x00, 0x00,
    0x00, 0x00, 0x00, 0x00,
    0x26, 0x27, 0x00, 0x00, // 9, 0
    0x1E, 0x1F, 0x20, 0x21, // 1, 2, 3, 4
    0x42, 0x43, 0x44, 0x45, // F9, F10, F11, F12
    0x3A, 0x3B, 0x3C, 0x3D, // F1, F2, F3, F4
    0x00, 0x00, 0x00, 0xFF, // FN
    0x00, 0x4A, 0x4E, 0x4D, // HOME, PGDN, END
    0x00, 0x00, 0x4B, 0x00, // PGUP
    0x00, 0x00, 0x00, 0x00,
    0x00, 0x00, 0x00, 0x00,
    0x22, 0x23, 0x24, 0x25, // 5, 6, 7, 8
    0x00, 0x00, 0x00, 0x00,
    0x3E, 0x3F, 0x40, 0x41, // F5, F6, F7, F8
];

/// Key code of button `btn` on the active layer.
pub open spec fn layer_key(is_fn: bool, btn: int) -> u8 {
    if is_fn {
        LAYER_1@[btn]
    } else {
        LAYER_0@[btn]
    }
}

fn load_key(is_fn: bool, btn: usize) -> (k: u8)
    requires
        btn < 64,
    ensures
        k == layer_key(is_fn, btn as int),
{
    if is_fn {
        LAYER_1[btn]
    } else {
        LAYER_0[btn]
    }
}

/// Base colour of a HID key code, by category.
pub open spec fn key_color(key: u8) -> Color {
    if key == 0x00 {
        Color { r: 0, g: 0, b: 0 }
    } else if key == 0xFF {
        Color { r: 255, g: 255, b: 255 }
    } else if 0xE0 <= key <= 0xE7 {
        Color { r: 220, g: 0, b: 220 }
    } else if (0x1E <= key <= 0x27) || (0x3A <= key <= 0x45) {
        Color { r: 0, g: 180, b: 255 }
    } else if 0x04 <= key <= 0x1D {
        Color { r: 0, g: 210, b: 30 }
    } else if 0x4A <= key <= 0x52 {
        Color { r: 230, g: 160, b: 0 }
    } else {
        Color { r: 255, g: 80, b: 0 }
    }
}

/// Returns the base RGB colour for a HID key code: white for FN, magenta for
/// modifiers, cyan for numbers and F-keys, green for letters, amber for
/// navigation, orange for the rest, off for unmapped keys.
pub fn get_key_color(key: u8) -> (c: Color)
    ensures
        c == key_color(key),
{
    if key == 0x00 {
        Color::new(0, 0, 0)
    } else if key == 0xFF {
        Color::new(255, 255, 255)
    } else if 0xE0 <= key && key <= 0xE7 {
        Color::new(220, 0, 220)
    } else if (0x1E <= key && key <= 0x27) || (0x3A <= key && key <= 0x45) {
        Color::new(0, 180, 255)
    } else if 0x04 <= key && key <= 0x1D {
        Color::new(0, 210, 30)
    } else if 0x4A <= key && key <= 0x52 {
        Color::new(230, 160, 0)
    } else {
        Color::new(255, 80, 0)
    }
}

/// Brightness of an unpressed key: 25/256 (about 10%).
pub const IDLE_BRIGHTNESS: u16 = 25;

/// Colour of button `btn`: off when unmapped on the active layer, the full
/// category colour when pressed, dimmed to 25/256 otherwise.
pub open spec fn button_color(btn: int, pressed: bool, is_fn_pressed: bool) -> Color {
    let key = layer_key(is_fn_pressed, btn);
    if key == 0x00 {
        Color { r: 0, g: 0, b: 0 }
    } else if pressed {
        key_color(key)
    } else {
        scaled(key_color(key), IDLE_BRIGHTNESS)
    }
}

/// Returns the colour of physical button `btn` (0..63) for its key category on the active layer.
pub fn get_button_color(btn: usize, pressed: bool, is_fn_pressed: bool) -> (c: Color)
    requires
        btn < 64,
    ensures
        c == button_color(btn as int, pressed, is_fn_pressed),
{
    let key = load_key(is_fn_pressed, btn);
    let base = get_key_color(key);
    if key == 0x00 {
        return Color::new(0, 0, 0);
    }
    if pressed {
        base
    } else {
        base.scale_brightness(IDLE_BRIGHTNESS)
    }
}

/// A pressed button that is the FN key of the base layer.
pub open spec fn fn_held(pressed: Seq<bool>) -> bool {
    exists|btn: int| 0 <= btn < 64 && pressed[btn] && LAYER_0@[btn] == KEY_FN
}

/// A modifier key code (LCTRL..RGUI).
pub open spec fn is_modifier(key: u8) -> bool {
    0xE0 <= key <= 0xE7
}

/// A key that goes into the key-code slots of the report.
pub open spec fn is_plain_key(key: u8) -> bool {
    key != 0x00 && key != KEY_FN && !is_modifier(key)
}

/// Key codes of the pressed plain keys among buttons `0..n`, in button order.
pub open spec fn plain_keys_below(pressed: Seq<bool>, is_fn: bool, n: int) -> Seq<u8>
    decreases n,
{
    if n <= 0 {
        seq![]
    } else {
        let rest = plain_keys_below(pressed, is_fn, n - 1);
        let key = layer_key(is_fn, n - 1);
        if pressed[n - 1] && is_plain_key(key) {
            rest.push(key)
        } else {
            rest
        }
    }
}

/// Modifier byte for the pressed modifier keys among buttons `0..n`.
pub open spec fn modifiers_below(pressed: Seq<bool>, is_fn: bool, n: int) -> u8
    decreases n,
{
    if n <= 0 {
        0
    } else {
        let rest = modifiers_below(pressed, is_fn, n - 1);
        let key = layer_key(is_fn, n - 1);
        if pressed[n - 1] && is_modifier(key) {
            rest | (1u8 << ((key - 0xE0) as u8))
        } else {
            rest
        }
    }
}

/// The boot-keyboard report for the pressed buttons: modifier byte, a
/// reserved zero byte, then the first six plain key codes in button order,
/// zero-padded.
pub open spec fn keyboard_report(pressed: Seq<bool>) -> Seq<u8> {
    let is_fn = fn_held(pressed);
    let keys = plain_keys_below(pressed, is_fn, 64);
    Seq::new(
        8,
        |j: int|
            if j == 0 {
                modifiers_below(pressed, is_fn, 64)
            } else if j >= 2 && j - 2 < keys.len() {
                keys[j - 2]
            } else {
                0u8
            },
    )
}

/// Every key collected is a plain key.
proof fn lemma_plain_keys_are_plain(pressed: Seq<bool>, is_fn: bool, n: int)
    ensures
        forall|k: int|
            0 <= k < plain_keys_below(pressed, is_fn, n).len() ==> is_plain_key(
                #[trigger] plain_keys_below(pressed, is_fn, n)[k],
            ),
    decreases n,
{
    if n > 0 {
        lemma_plain_keys_are_plain(pressed, is_fn, n - 1);
        let rest = plain_keys_below(pressed, is_fn, n - 1);
        let key = layer_key(is_fn, n - 1);
        if pressed[n - 1] && is_plain_key(key) {
            assert forall|k: int| 0 <= k < rest.push(key).len() implies is_plain_key(
                #[trigger] rest.push(key)[k],
            ) by {
                if k < rest.len() {
                    assert(rest.push(key)[k] == rest[k]);
                }
            }
        }
    }
}

/// A boot-keyboard report never carries the FN key or a modifier in its key
/// slots, and its reserved byte is zero: slots hold plain keys or stay empty.
pub proof fn lemma_report_slots(pressed: Seq<bool>)
    ensures
        keyboard_report(pressed).len() == 8,
        keyboard_report(pressed)[1] == 0,
        forall|j: int|
            2 <= j < 8 ==> #[trigger] keyboard_report(pressed)[j] == 0 || is_plain_key(
                keyboard_report(pressed)[j],
            ),
{
    let is_fn = fn_held(pressed);
    lemma_plain_keys_are_plain(pressed, is_fn, 64);
    let keys = plain_keys_below(pressed, is_fn, 64);
    assert forall|j: int| 2 <= j < 8 implies #[trigger] keyboard_report(pressed)[j] == 0
        || is_plain_key(keyboard_report(pressed)[j]) by {
        if j - 2 < keys.len() {
            assert(is_plain_key(keys[j - 2]));
        }
    }
}

/// Report and FN state for pressed buttons given one flag per button.
fn report_from_flags(pressed: &[bool; 64]) -> (out: ([u8; 8], bool))
    ensures
        out.0@ == keyboard_report(pressed@),
        out.1 == fn_held(pressed@),
{
    let mut is_fn_pressed = false;
    let mut btn: usize = 0;
    while btn < 64
        invariant_except_break
            btn <= 64,
            !is_fn_pressed,
            forall|j: int| 0 <= j < btn ==> !(pressed@[j] && LAYER_0@[j] == KEY_FN),
        ensures
            is_fn_pressed == fn_held(pressed@),
        decreases 64 - btn,
    {
        if pressed[btn] && LAYER_0[btn] == KEY_FN {
            is_fn_pressed = true;
            break;
        }
        btn += 1;
    }

    let mut report = [0u8; 8];
    let mut modifier = 0u8;
    let mut count: usize = 0;
    let mut btn: usize = 0;
    let ghost keys = plain_keys_below(pressed@, is_fn_pressed, 64);
    while btn < 64
        invariant
            btn <= 64,
            modifier == modifiers_below(pressed@, is_fn_pressed, btn as int),
            count == if plain_keys_below(pressed@, is_fn_pressed, btn as int).len() < 6 {
                plain_keys_below(pressed@, is_fn_pressed, btn as int).len() as int
            } else {
                6
            },
            report@[0] == 0,
            report@[1] == 0,
            forall|j: int|
                2 <= j < 2 + count ==> report@[j] == plain_keys_below(
                    pressed@,
                    is_fn_pressed,
                    btn as int,
                )[j - 2],
            forall|j: int| 2 + count <= j < 8 ==> report@[j] == 0,
        decreases 64 - btn,
    {
        if pressed[btn] {
            let key = load_key(is_fn_pressed, btn);
            if key != 0x00 && key != KEY_FN {
                if 0xE0 <= key && key <= 0xE7 {
                    modifier = modifier | (1u8 << (key - 0xE0));
                } else if count < 6 {
                    report[2 + count] = key;
                    count += 1;
                }
            }
        }
        btn += 1;
    }
    report[0] = modifier;
    proof {
        assert(report@ =~= keyboard_report(pressed@));
    }
    (report, is_fn_pressed)
}

/// Bit `i` of a 64-bit button word.
pub open spec fn word_bit(x: u64, i: int) -> bool {
    (x & (1u64 << (i as u64))) != 0
}

/// The button flags of a 64-bit button word.
pub open spec fn word_flags(x: u64) -> Seq<bool> {
    Seq::new(64, |i: int| word_bit(x, i))
}

/// Build the 8-byte USB HID boot-keyboard report for the pressed buttons
/// (bit N of `pressed_keys` = button N). Modifier keys (0xE0..=0xE7) go into
/// byte 0, up to six other key codes into bytes 2..7. The FN key switches to
/// layer 1 and is never reported itself. Also returns whether FN is held.
pub fn build_keyboard_report(pressed_keys: u64) -> (out: ([u8; 8], bool))
    ensures
        out.0@ == keyboard_report(word_flags(pressed_keys)),
        out.1 == fn_held(word_flags(pressed_keys)),
{
    let mut flags = [false; 64];
    let mut btn: usize = 0;
    while btn < 64
        invariant
            btn <= 64,
            forall|j: int| 0 <= j < btn ==> flags@[j] == word_bit(pressed_keys, j),
        decreases 64 - btn,
    {
        flags[btn] = (pressed_keys & (1u64 << btn as u64)) != 0;
        btn += 1;
    }
    assert(flags@ =~= word_flags(pressed_keys));
    report_from_flags(&flags)
}

/// The button flags of a mask.
pub open spec fn mask_flags(m: ButtonMask) -> Seq<bool> {
    Seq::new(64, |i: int| m.is_set_spec(i))
}

/// The report and FN state for a debounced button mask.
pub fn build_keyboard_report_for(state: ButtonMask) -> (out: ([u8; 8], bool))
    ensures
        out.0@ == keyboard_report(mask_flags(state)),
        out.1 == fn_held(mask_flags(state)),
{
    let mut flags = [false; 64];
    let mut btn: usize = 0;
    while btn < 64
        invariant
            btn <= 64,
            forall|j: int| 0 <= j < btn ==> flags@[j] == state.is_set_spec(j),
        decreases 64 - btn,
    {
        flags[btn] = state.is_set(btn);
        btn += 1;
    }
    assert(flags@ =~= mask_flags(state));
    report_from_flags(&flags)
}

/// Returns `true` if button 2 (the third button) is held at startup: the
/// keyboard-mode combo.
pub fn keyboard_combo_held(key_state: ButtonMask) -> (held: bool)
    ensures
        held == key_state.is_set_spec(2),
{
    key_state.is_set(2)
}

// ── Keyboard-mode loop ────────────────────────────────────────────────────────

/// The LED buffer of keyboard mode: each button in its category colour on
/// the active layer, full when pressed and dimmed otherwise.
pub open spec fn keyboard_frame(state: ButtonMask, is_fn_pressed: bool) -> Seq<Color> {
    Seq::new(
        TOTAL_LEDS as nat,
        |i: int| button_color(i / 2, state.is_set_spec(i / 2), is_fn_pressed),
    )
}

/// Paint every button in its keyboard-mode colour for the pressed buttons
/// `state` and the active layer.
pub fn paint_keyboard(host_leds: &mut [Color; TOTAL_LEDS], state: &ButtonMask, is_fn_pressed: bool)
    ensures
        final(host_leds)@ == keyboard_frame(*state, is_fn_pressed),
{
    let mut btn: usize = 0;
    while btn < 64
        invariant
            btn <= 64,
            host_leds@.len() == TOTAL_LEDS,
            forall|i: int|
                0 <= i < 2 * btn ==> #[trigger] host_leds@[i] == button_color(
                    i / 2,
                    state.is_set_spec(i / 2),
                    is_fn_pressed,
                ),
        decreases 64 - btn,
    {
        let color = get_button_color(btn, state.is_set(btn), is_fn_pressed);
        set_button_color(host_leds, btn, color);
        proof {
            assert forall|i: int| 0 <= i < 2 * btn + 2 implies #[trigger] host_leds@[i]
                == button_color(i / 2, state.is_set_spec(i / 2), is_fn_pressed) by {
                if i >= 2 * btn {
                    assert(i / 2 == btn);
                }
            }
        }
        btn += 1;
    }
    assert(host_leds@ =~= keyboard_frame(*state, is_fn_pressed));
}

/// Whether two reports hold the same bytes.
fn same_report(a: &[u8; 8], b: &[u8; 8]) -> (same: bool)
    ensures
        same == (a@ == b@),
{
    let mut i: usize = 0;
    while i < 8
        invariant
            i <= 8,
            forall|j: int| 0 <= j < i ==> a@[j] == b@[j],
        decreases 8 - i,
    {
        if a[i] != b[i] {
            return false;
        }
        i += 1;
    }
    assert(a@ =~= b@);
    true
}

/// What one pass of the keyboard-mode loop does: the report to send, if it
/// changed, and whether the LEDs are redrawn.
pub struct KeyboardUpdate {
    pub report: Option<[u8; 8]>,
    pub redraw: bool,
    pub is_fn_pressed: bool,
}

/// The keyboard-mode loop state: the last report sent and the layer shown.
pub struct KeyboardMode {
    pub prev_report: [u8; 8],
    pub prev_fn_pressed: bool,
}

impl KeyboardMode {
    /// Nothing sent yet (an all-zero report), base layer shown.
    pub fn new() -> (k: KeyboardMode)
        ensures
            k.prev_report@ == seq![0u8, 0u8, 0u8, 0u8, 0u8, 0u8, 0u8, 0u8],
            !k.prev_fn_pressed,
    {
        let k = KeyboardMode { prev_report: [0u8; 8], prev_fn_pressed: false };
        assert(k.prev_report@ =~= seq![0u8, 0u8, 0u8, 0u8, 0u8, 0u8, 0u8, 0u8]);
        k
    }

    /// One pass for the debounced buttons `state`: a report is sent only when
    /// it differs from the last one sent, and the LEDs are redrawn when the
    /// report or the active layer changed.
    pub fn update(&mut self, state: ButtonMask) -> (u: KeyboardUpdate)
        ensures
            ({
                let report = keyboard_report(mask_flags(state));
                let is_fn = fn_held(mask_flags(state));
                let changed = report != old(self).prev_report@;
                &&& u.is_fn_pressed == is_fn
                &&& match u.report {
                    Some(r) => changed && r@ == report,
                    None => !changed,
                }
                &&& u.redraw == (changed || is_fn != old(self).prev_fn_pressed)
                &&& final(self).prev_report@ == report
                &&& final(self).prev_fn_pressed == is_fn
            }),
    {
        let (report, is_fn_pressed) = build_keyboard_report_for(state);
        let fn_changed = is_fn_pressed != self.prev_fn_pressed;
        let report_changed = !same_report(&report, &self.prev_report);
        let mut sent: Option<[u8; 8]> = None;
        if report_changed {
            sent = Some(report);
            self.prev_report = report;
        }
        if report_changed || fn_changed {
            self.prev_fn_pressed = is_fn_pressed;
        }
        KeyboardUpdate { report: sent, redraw: report_changed || fn_changed, is_fn_pressed }
    }
}

} // verus!

verus! {

proof fn lemma_or_bit(rest: u8, d: u8, i: u8)
    by (bit_vector)
    requires
        d < 8,
        i < 8,
    ensures
        (((rest | (1u8 << d)) >> i) & 1 == 1) == (((rest >> i) & 1 == 1) || i == d),
{
}

proof fn lemma_modifier_bits(pressed: Seq<bool>, is_fn: bool, n: int, i: u8)
    requires
        0 <= n <= 64,
        i < 8,
    ensures
        ((modifiers_below(pressed, is_fn, n) >> i) & 1 == 1) == exists|btn: int|
            0 <= btn < n && pressed[btn] && #[trigger] layer_key(is_fn, btn) == 0xE0 + i,
    decreases n,
{
    if n <= 0 {
        assert((0u8 >> i) & 1 == 0) by (bit_vector);
    } else {
        lemma_modifier_bits(pressed, is_fn, n - 1, i);
        let rest = modifiers_below(pressed, is_fn, n - 1);
        let key = layer_key(is_fn, n - 1);
        if pressed[n - 1] && is_modifier(key) {
            lemma_or_bit(rest, (key - 0xE0) as u8, i);
        }
        if exists|btn: int| 0 <= btn < n && pressed[btn] && #[trigger] layer_key(is_fn, btn) == 0xE0 + i {
            let btn = choose|btn: int| 0 <= btn < n && pressed[btn] && #[trigger] layer_key(is_fn, btn) == 0xE0 + i;
            if btn < n - 1 {
                assert(0 <= btn < n - 1 && pressed[btn] && layer_key(is_fn, btn) == 0xE0 + i);
            }
        }
    }
}

/// The modifier byte of a boot-keyboard report: bit `i` is set exactly when
/// some pressed button carries the modifier key `0xE0 + i` (left Ctrl,
/// Shift, Alt, GUI, then the right ones) on the active layer.
pub proof fn lemma_report_modifiers(pressed: Seq<bool>, i: u8)
    requires
        i < 8,
    ensures
        ((keyboard_report(pressed)[0] >> i) & 1 == 1) == exists|btn: int|
            0 <= btn < 64 && pressed[btn] && #[trigger] layer_key(fn_held(pressed), btn) == 0xE0
                + i,
{
    lemma_modifier_bits(pressed, fn_held(pressed), 64, i);
}

} // verus!
