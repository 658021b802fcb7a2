//! Button state of the MIDI Fighter 64: the 64-bit button mask, the
//! time-based debouncer and the spatial button layout.
//!
//! The eight cascaded CD4021B shift registers deliver one byte each: byte
//! `N / 8`, bit `N % 8` of a [`ButtonMask`] is button `N`.

use vstd::prelude::*;

verus! {

/// Bit `k` (0..8) of byte `b`.
pub open spec fn byte_bit(b: u8, k: int) -> bool {
    (b & (1u8 << (k as u8))) != 0
}

pub proof fn lemma_bit_set(b: u8, k: u8, j: u8)
    requires
        k < 8,
        j < 8,
    ensures
        ((b | (1u8 << k)) & (1u8 << j) != 0) == (j == k || (b & (1u8 << j)) != 0),
{
    assert(((b | (1u8 << k)) & (1u8 << j) != 0) == (j == k || (b & (1u8 << j)) != 0))
        by (bit_vector)
        requires
            k < 8,
            j < 8,
    ;
}

pub proof fn lemma_bit_clear(b: u8, k: u8, j: u8)
    requires
        k < 8,
        j < 8,
    ensures
        ((b & !(1u8 << k)) & (1u8 << j) != 0) == (j != k && (b & (1u8 << j)) != 0),
{
    assert(((b & !(1u8 << k)) & (1u8 << j) != 0) == (j != k && (b & (1u8 << j)) != 0))
        by (bit_vector)
        requires
            k < 8,
            j < 8,
    ;
}

/// A byte is zero exactly when none of its eight bits is set.
pub proof fn lemma_byte_zero(b: u8)
    ensures
        (b == 0) == (forall|j: int| 0 <= j < 8 ==> !byte_bit(b, j)),
{
    assert((b == 0) == (b & 1 == 0 && b & 2 == 0 && b & 4 == 0 && b & 8 == 0 && b & 16 == 0 && b
        & 32 == 0 && b & 64 == 0 && b & 128 == 0)) by (bit_vector);
    assert(1u8 << 0u8 == 1 && 1u8 << 1u8 == 2 && 1u8 << 2u8 == 4 && 1u8 << 3u8 == 8 && 1u8 << 4u8
        == 16 && 1u8 << 5u8 == 32 && 1u8 << 6u8 == 64 && 1u8 << 7u8 == 128) by (bit_vector);
    if b != 0 {
        if b & 1 != 0 {
            assert(byte_bit(b, 0));
        } else if b & 2 != 0 {
            assert(byte_bit(b, 1));
        } else if b & 4 != 0 {
            assert(byte_bit(b, 2));
        } else if b & 8 != 0 {
            assert(byte_bit(b, 3));
        } else if b & 16 != 0 {
            assert(byte_bit(b, 4));
        } else if b & 32 != 0 {
            assert(byte_bit(b, 5));
        } else if b & 64 != 0 {
            assert(byte_bit(b, 6));
        } else {
            assert(byte_bit(b, 7));
        }
    }
}

/// A 64-bit button bitmask as 8 bytes, one per CD4021B shift register.
#[derive(Copy, Clone, Debug, Eq)]
pub struct ButtonMask(pub [u8; 8]);

impl PartialEq for ButtonMask {
    fn eq(&self, other: &ButtonMask) -> (r: bool) {
        let r = self.0[0] == other.0[0] && self.0[1] == other.0[1] && self.0[2] == other.0[2]
            && self.0[3] == other.0[3] && self.0[4] == other.0[4] && self.0[5] == other.0[5]
            && self.0[6] == other.0[6] && self.0[7] == other.0[7];
        proof {
            if r {
                assert(self.0@ =~= other.0@);
            }
        }
        r
    }
}

impl vstd::std_specs::cmp::PartialEqSpecImpl for ButtonMask {
    open spec fn obeys_eq_spec() -> bool {
        true
    }

    open spec fn eq_spec(&self, other: &ButtonMask) -> bool {
        self.0@ == other.0@
    }
}

impl ButtonMask {
    /// Button `btn` is set (always false outside 0..64).
    pub open spec fn is_set_spec(self, btn: int) -> bool {
        0 <= btn < 64 && byte_bit(self.0@[btn / 8], btn % 8)
    }

    /// No button is set.
    pub open spec fn empty_spec(self) -> bool {
        forall|i: int| 0 <= i < 64 ==> !#[trigger] self.is_set_spec(i)
    }

    /// The mask with no button set.
    pub fn empty() -> (m: ButtonMask)
        ensures
            m.empty_spec(),
            m.0@ == seq![0u8, 0, 0, 0, 0, 0, 0, 0],
    {
        let m = ButtonMask([0u8; 8]);
        proof {
            lemma_byte_zero(0u8);
            assert(m.0@ =~= seq![0u8, 0, 0, 0, 0, 0, 0, 0]);
        }
        m
    }

    pub fn new(bytes: [u8; 8]) -> (m: ButtonMask)
        ensures
            m.0 == bytes,
    {
        ButtonMask(bytes)
    }

    /// True when no button is set.
    pub fn is_empty(&self) -> (r: bool)
        ensures
            r == self.empty_spec(),
    {
        let r = self.0[0] == 0 && self.0[1] == 0 && self.0[2] == 0 && self.0[3] == 0 && self.0[4]
            == 0 && self.0[5] == 0 && self.0[6] == 0 && self.0[7] == 0;
        proof {
            assert forall|k: int| 0 <= k < 8 implies (self.0@[k] == 0) == (forall|j: int|
                0 <= j < 8 ==> !byte_bit(self.0@[k], j)) by {
                lemma_byte_zero(self.0@[k]);
            }
            if r {
                assert forall|i: int| 0 <= i < 64 implies !#[trigger] self.is_set_spec(i) by {
                    assert(0 <= i / 8 < 8);
                }
            } else {
                let k = choose|k: int| 0 <= k < 8 && self.0@[k] != 0;
                assert(exists|k: int| 0 <= k < 8 && self.0@[k] != 0) by {
                    if self.0@[0] != 0 {
                    } else if self.0@[1] != 0 {
                        assert(self.0@[1] != 0);
                    } else if self.0@[2] != 0 {
                        assert(self.0@[2] != 0);
                    } else if self.0@[3] != 0 {
                        assert(self.0@[3] != 0);
                    } else if self.0@[4] != 0 {
                        assert(self.0@[4] != 0);
                    } else if self.0@[5] != 0 {
                        assert(self.0@[5] != 0);
                    } else if self.0@[6] != 0 {
                        assert(self.0@[6] != 0);
                    } else {
                        assert(self.0@[7] != 0);
                    }
                }
                let j = choose|j: int| 0 <= j < 8 && byte_bit(self.0@[k], j);
                assert(self.is_set_spec(8 * k + j));
            }
        }
        r
    }

    /// True when at least one button is set.
    pub fn any(&self) -> (r: bool)
        ensures
            r == !self.empty_spec(),
    {
        !self.is_empty()
    }

    /// The mask of one scan of the shift-register chain: button `i` is set
    /// exactly when its data bit read high (`levels[i]`).
    pub fn from_levels(levels: &[bool; 64]) -> (m: ButtonMask)
        ensures
            forall|i: int| 0 <= i < 64 ==> #[trigger] m.is_set_spec(i) == levels@[i],
    {
        let mut m = ButtonMask::empty();
        let mut btn: usize = 0;
        while btn < 64
            invariant
                btn <= 64,
                forall|i: int| 0 <= i < 64 ==> #[trigger] m.is_set_spec(i) == (i < btn && levels@[i]),
            decreases 64 - btn,
        {
            if levels[btn] {
                m.set(btn);
            }
            btn += 1;
        }
        m
    }

    /// Whether button `btn` is set; false for `btn >= 64`.
    pub fn is_set(&self, btn: usize) -> (r: bool)
        ensures
            r == self.is_set_spec(btn as int),
    {
        if btn < 64 {
            (self.0[btn / 8] & (1u8 << (btn % 8) as u8)) != 0
        } else {
            false
        }
    }

    /// Set button `btn`; no effect for `btn >= 64`.
    pub fn set(&mut self, btn: usize)
        ensures
            forall|i: int| #[trigger]
                final(self).is_set_spec(i) == (old(self).is_set_spec(i) || (i == btn && btn < 64)),
    {
        if btn < 64 {
            let ghost prev = *self;
            let k = (btn % 8) as u8;
            self.0[btn / 8] = self.0[btn / 8] | (1u8 << k);
            proof {
                assert forall|i: int| #[trigger]
                    self.is_set_spec(i) == (prev.is_set_spec(i) || (i == btn && btn < 64)) by {
                    if 0 <= i < 64 {
                        if i / 8 == btn / 8 {
                            lemma_bit_set(prev.0@[i / 8], k, (i % 8) as u8);
                        }
                    }
                }
            }
        }
    }

    /// Clear button `btn`; no effect for `btn >= 64`.
    pub fn clear(&mut self, btn: usize)
        ensures
            forall|i: int| #[trigger]
                final(self).is_set_spec(i) == (old(self).is_set_spec(i) && i != btn),
    {
        if btn < 64 {
            let ghost prev = *self;
            let k = (btn % 8) as u8;
            self.0[btn / 8] = self.0[btn / 8] & !(1u8 << k);
            proof {
                assert forall|i: int| #[trigger]
                    self.is_set_spec(i) == (prev.is_set_spec(i) && i != btn) by {
                    if 0 <= i < 64 {
                        if i / 8 == btn / 8 {
                            lemma_bit_clear(prev.0@[i / 8], k, (i % 8) as u8);
                        }
                    }
                }
            }
        }
    }
}


/// How many timer ticks a button is locked out after an edge transition.
/// At 15,625 Hz (1 tick = 64 µs), 160 ticks = 10.24 ms.
pub const DEBOUNCE_TICKS: u16 = 160;

/// Ticks elapsed from `then` to `now` on the free-running 16-bit timer.
pub open spec fn ticks_since(now: u16, then: u16) -> u16 {
    vstd::wrapping::u16_specs::wrapping_sub(now, then)
}

/// Per-button debounce tracker: an edge is reported immediately, then the
/// button ignores its raw input for [`DEBOUNCE_TICKS`] ticks.
pub struct Debouncer {
    /// Debounced logical state (bit N = 1 if button N is pressed).
    pub state: ButtonMask,
    /// Buttons currently locked out in their debounce cooldown.
    lockout_mask: ButtonMask,
    /// Tick at which each button began its lockout window.
    last_edge_tick: [u16; 64],
}

impl Debouncer {
    /// The debounced button state (the `state` field).
    pub closed spec fn debounced(self) -> ButtonMask {
        self.state
    }

    /// Buttons in their lockout window.
    pub closed spec fn lockout(self) -> ButtonMask {
        self.lockout_mask
    }

    /// Tick at which button `i` last changed state.
    pub closed spec fn edge_tick(self, i: int) -> u16 {
        self.last_edge_tick@[i]
    }

    /// Button `i` is inside its lockout window at `now`.
    pub open spec fn held_off(self, i: int, now: u16) -> bool {
        self.lockout().is_set_spec(i) && ticks_since(now, self.edge_tick(i)) < DEBOUNCE_TICKS
    }

    /// Sampling `raw` at `now` changes the debounced state of button `i`.
    pub open spec fn changes(self, raw: ButtonMask, i: int, now: u16) -> bool {
        !self.held_off(i, now) && raw.is_set_spec(i) != self.debounced().is_set_spec(i)
    }

    /// What one `update(raw, now)` does to button `i`, taking `self` to `next`
    /// and reporting `pressed` / `released` edges.
    pub open spec fn button_step(
        self,
        next: Debouncer,
        raw: ButtonMask,
        now: u16,
        pressed: ButtonMask,
        released: ButtonMask,
        i: int,
    ) -> bool {
        let ch = self.changes(raw, i, now);
        &&& next.debounced().is_set_spec(i) == if ch {
            raw.is_set_spec(i)
        } else {
            self.debounced().is_set_spec(i)
        }
        &&& next.lockout().is_set_spec(i) == (self.held_off(i, now) || ch)
        &&& next.edge_tick(i) == if ch {
            now
        } else {
            self.edge_tick(i)
        }
        &&& pressed.is_set_spec(i) == (ch && raw.is_set_spec(i))
        &&& released.is_set_spec(i) == (ch && !raw.is_set_spec(i))
    }

    spec fn untouched(
        self,
        next: Debouncer,
        pressed: ButtonMask,
        released: ButtonMask,
        i: int,
    ) -> bool {
        &&& next.state.is_set_spec(i) == self.state.is_set_spec(i)
        &&& next.lockout_mask.is_set_spec(i) == self.lockout_mask.is_set_spec(i)
        &&& next.last_edge_tick@[i] == self.last_edge_tick@[i]
        &&& !pressed.is_set_spec(i)
        &&& !released.is_set_spec(i)
    }

    spec fn progress(
        self,
        next: Debouncer,
        raw: ButtonMask,
        now: u16,
        pressed: ButtonMask,
        released: ButtonMask,
        i: int,
        bound: int,
    ) -> bool {
        if i < bound {
            self.button_step(next, raw, now, pressed, released, i)
        } else {
            self.untouched(next, pressed, released, i)
        }
    }

    /// Once a button reports an edge at `t1`, its raw input is ignored until
    /// [`DEBOUNCE_TICKS`] have passed: a later update at `t2` inside that
    /// window reports no edge for it and keeps its debounced state.
    pub proof fn lemma_bounce_ignored(
        d0: Debouncer,
        d1: Debouncer,
        d2: Debouncer,
        raw1: ButtonMask,
        raw2: ButtonMask,
        t1: u16,
        t2: u16,
        p1: ButtonMask,
        r1: ButtonMask,
        p2: ButtonMask,
        r2: ButtonMask,
        i: int,
    )
        requires
            d0.button_step(d1, raw1, t1, p1, r1, i),
            d1.button_step(d2, raw2, t2, p2, r2, i),
            p1.is_set_spec(i) || r1.is_set_spec(i),
            ticks_since(t2, t1) < DEBOUNCE_TICKS,
        ensures
            !p2.is_set_spec(i),
            !r2.is_set_spec(i),
            d2.debounced().is_set_spec(i) == d1.debounced().is_set_spec(i),
    {
    }

    /// The debounced button state.
    pub fn state(&self) -> (s: ButtonMask)
        ensures
            s == self.debounced(),
    {
        self.state
    }

    /// No button pressed, none locked out.
    pub fn new() -> (d: Debouncer)
        ensures
            d.debounced().empty_spec(),
            d.lockout().empty_spec(),
            forall|i: int| 0 <= i < 64 ==> d.edge_tick(i) == 0,
    {
        Debouncer {
            state: ButtonMask::empty(),
            lockout_mask: ButtonMask::empty(),
            last_edge_tick: [0u16; 64],
        }
    }

    /// Update with a new raw sample and the current tick of the free-running
    /// 15,625 Hz counter. Returns `(pressed_edges, released_edges)`: bit N set
    /// when button N changed on this call.
    pub fn update(&mut self, raw: ButtonMask, now: u16) -> (edges: (ButtonMask, ButtonMask))
        ensures
            forall|i: int|
                0 <= i < 64 ==> #[trigger] old(self).button_step(
                    *final(self),
                    raw,
                    now,
                    edges.0,
                    edges.1,
                    i,
                ),
    {
        let ghost prev = *self;
        let mut pressed_edges = ButtonMask::empty();
        let mut released_edges = ButtonMask::empty();

        if self.lockout_mask.is_empty() && raw == self.state {
            proof {
                assert forall|i: int| 0 <= i < 64 implies #[trigger] prev.button_step(
                    *self,
                    raw,
                    now,
                    pressed_edges,
                    released_edges,
                    i,
                ) by {
                    assert(!prev.lockout_mask.is_set_spec(i));
                }
            }
            return (pressed_edges, released_edges);
        }

        let mut byte_idx: usize = 0;
        while byte_idx < 8
            invariant
                byte_idx <= 8,
                forall|i: int|
                    0 <= i < 64 ==> #[trigger] prev.progress(*self, raw, now, pressed_edges, released_edges, i, 8 * byte_idx),
            decreases 8 - byte_idx,
        {
            let r_byte = raw.0[byte_idx];
            let s_byte = self.state.0[byte_idx];
            let l_byte = self.lockout_mask.0[byte_idx];

            if l_byte == 0 && r_byte == s_byte {
                proof {
                    lemma_byte_zero(l_byte);
                    assert forall|i: int| 0 <= i < 64 implies #[trigger] prev.progress(*self, raw, now, pressed_edges, released_edges, i, 8 * (byte_idx + 1)) by {
                        assert(prev.progress(*self, raw, now, pressed_edges, released_edges, i, 8 * byte_idx));
                        if 8 * byte_idx <= i < 8 * byte_idx + 8 {
                            assert(i / 8 == byte_idx);
                            assert(!byte_bit(l_byte, i % 8));
                            assert(!self.lockout_mask.is_set_spec(i));
                            assert(raw.is_set_spec(i) == self.state.is_set_spec(i));
                        }
                    }
                }
                byte_idx += 1;
                continue;
            }
            proof {
                assert forall|k: int| 0 <= k < 8 implies byte_bit(s_byte, k) == prev.state.is_set_spec(
                    #[trigger] (8 * byte_idx + k),
                ) by {
                    let i = 8 * byte_idx + k;
                    assert(prev.progress(*self, raw, now, pressed_edges, released_edges, i, 8 * byte_idx));
                    assert(i / 8 == byte_idx && i % 8 == k);
                }
            }
            let mut bit_idx: usize = 0;
            while bit_idx < 8
                invariant
                    byte_idx < 8,
                    bit_idx <= 8,
                    r_byte == raw.0@[byte_idx as int],
                    forall|k: int|
                        0 <= k < 8 ==> byte_bit(s_byte, k) == prev.state.is_set_spec(
                            #[trigger] (8 * byte_idx + k),
                        ),
                    forall|i: int|
                        0 <= i < 64 ==> #[trigger] prev.progress(*self, raw, now, pressed_edges, released_edges, i, 8 * byte_idx + bit_idx),
                decreases 8 - bit_idx,
            {
                let btn = byte_idx * 8 + bit_idx;
                let bit_mask = 1u8 << bit_idx as u8;
                let ghost before = *self;
                let ghost p0 = pressed_edges;
                let ghost r0 = released_edges;
                assert(btn / 8 == byte_idx && btn % 8 == bit_idx);
                assert(prev.progress(*self, raw, now, pressed_edges, released_edges, btn as int, 8 * byte_idx + bit_idx));
                assert(prev.untouched(*self, pressed_edges, released_edges, btn as int));

                if (self.lockout_mask.0[byte_idx] & bit_mask) != 0 {
                    if now.wrapping_sub(self.last_edge_tick[btn]) < DEBOUNCE_TICKS {
                        bit_idx += 1;
                        proof {
                            assert(prev.held_off(btn as int, now));
                            assert forall|i: int| 0 <= i < 64 implies #[trigger] prev.progress(*self, raw, now, pressed_edges, released_edges, i, 8 * byte_idx + bit_idx) by {
                                assert(prev.progress(*self, raw, now, pressed_edges, released_edges, i, 8 * byte_idx + bit_idx - 1));
                            }
                        }
                        continue;
                    } else {
                        self.lockout_mask.clear(btn);
                    }
                }
                assert(!prev.held_off(btn as int, now));
                let is_raw_pressed = (r_byte & bit_mask) != 0;
                let was_confirmed = (s_byte & bit_mask) != 0;
                assert(is_raw_pressed == raw.is_set_spec(btn as int));
                assert(byte_bit(s_byte, bit_idx as int) == prev.state.is_set_spec(8 * byte_idx + bit_idx));
                assert(was_confirmed == prev.state.is_set_spec(btn as int));

                if is_raw_pressed != was_confirmed {
                    self.last_edge_tick[btn] = now;
                    self.lockout_mask.set(btn);
                    if is_raw_pressed {
                        self.state.set(btn);
                        pressed_edges.set(btn);
                    } else {
                        self.state.clear(btn);
                        released_edges.set(btn);
                    }
                }
                proof {
                    assert forall|i: int| 0 <= i < 64 && i != btn implies {
                        &&& self.state.is_set_spec(i) == before.state.is_set_spec(i)
                        &&& self.lockout_mask.is_set_spec(i) == before.lockout_mask.is_set_spec(i)
                        &&& self.last_edge_tick@[i] == before.last_edge_tick@[i]
                        &&& pressed_edges.is_set_spec(i) == p0.is_set_spec(i)
                        &&& released_edges.is_set_spec(i) == r0.is_set_spec(i)
                    } by {}
                    assert(prev.button_step(
                        *self,
                        raw,
                        now,
                        pressed_edges,
                        released_edges,
                        btn as int,
                    ));
                }
                bit_idx += 1;
                proof {
                    assert forall|i: int| 0 <= i < 64 implies #[trigger] prev.progress(*self, raw, now, pressed_edges, released_edges, i, 8 * byte_idx + bit_idx) by {
                        if i != btn {
                            assert(prev.progress(before, raw, now, p0, r0, i, 8 * byte_idx + bit_idx - 1));
                        }
                    }
                }
            }
            proof {
                assert forall|i: int| 0 <= i < 64 implies #[trigger] prev.progress(*self, raw, now, pressed_edges, released_edges, i, 8 * (byte_idx + 1)) by {
                    assert(prev.progress(*self, raw, now, pressed_edges, released_edges, i, 8 * byte_idx + 8));
                }
            }
            byte_idx += 1;
        }
        proof {
            assert forall|i: int| 0 <= i < 64 implies #[trigger] prev.button_step(*self, raw, now, pressed_edges, released_edges, i) by {
                assert(prev.progress(*self, raw, now, pressed_edges, released_edges, i, 8 * byte_idx));
            }
        }
        (pressed_edges, released_edges)
    }
}


/// Physical button index of spatial grid cell `(row, col)`: the left four
/// columns hold buttons 0..31, the right four 32..63, four buttons per row.
pub open spec fn cell_button(row: int, col: int) -> int {
    (if col >= 4 { 32int } else { 0int }) + row * 4 + col % 4
}

/// The grid layout numbers every button exactly once: each cell of the 8×8
/// grid has a button in 0..63, and distinct cells have distinct buttons.
pub proof fn lemma_cell_button_bijective(r1: int, c1: int, r2: int, c2: int)
    requires
        0 <= r1 < 8,
        0 <= c1 < 8,
        0 <= r2 < 8,
        0 <= c2 < 8,
    ensures
        0 <= cell_button(r1, c1) < 64,
        cell_button(r1, c1) == cell_button(r2, c2) ==> r1 == r2 && c1 == c2,
{
}

/// Map spatial grid cell `(row, col)` to physical button index (Ableton drum
/// rack layout: left 4 columns are buttons 0..31, right 4 columns 32..63).
pub fn cell_to_btn(row: u8, col: u8) -> (btn: usize)
    ensures
        btn == cell_button(row as int, col as int),
{
    let half_offset: usize = if col >= 4 { 32 } else { 0 };
    let c = (col % 4) as usize;
    half_offset + (row as usize * 4) + c
}

/// The set buttons among `0..n`, in increasing order.
pub open spec fn buttons_below(mask: ButtonMask, n: nat) -> Seq<u8>
    decreases n,
{
    if n == 0 {
        seq![]
    } else {
        let rest = buttons_below(mask, (n - 1) as nat);
        if mask.is_set_spec(n - 1) {
            rest.push((n - 1) as u8)
        } else {
            rest
        }
    }
}

/// Every set button of the mask, in increasing order.
pub open spec fn set_buttons(mask: ButtonMask) -> Seq<u8> {
    buttons_below(mask, 64)
}

/// The indices (0..63) of all set buttons, in increasing order: the order in
/// which a caller visits the pressed buttons.
pub fn for_each_button(mask: ButtonMask) -> (btns: Vec<u8>)
    ensures
        btns@ == set_buttons(mask),
{
    let mut btns: Vec<u8> = Vec::new();
    let mut i: usize = 0;
    while i < 64
        invariant
            i <= 64,
            btns@ == buttons_below(mask, i as nat),
        decreases 64 - i,
    {
        if mask.is_set(i) {
            btns.push(i as u8);
        }
        i += 1;
    }
    btns
}

} // verus!
