//! MIDI traffic of the MIDI Fighter 64: the note packets sent for button
//! edges, and the mapping of incoming note/CC/SysEx packets onto the LEDs.
//!
//! Button N sends note `MIDI_BASENOTE + N` on channel 15 (wire value 14).
//! Incoming notes 36..99 on channels 3, 4 and 5 (wire values 2, 3, 4) light
//! both LEDs, the first LED or the second LED of the button, with the
//! velocity selecting the palette colour.

use vstd::prelude::*;

use usbd_midi::data::byte::from_traits::FromClamped;
use usbd_midi::data::byte::u7::U7;
use usbd_midi::data::midi::channel::Channel;
use usbd_midi::data::midi::message::Message;
use usbd_midi::data::midi::notes::Note;
use usbd_midi::data::usb_midi::cable_number::CableNumber;
use usbd_midi::data::usb_midi::usb_midi_event_packet::UsbMidiEventPacket;

use crate::buttons::ButtonMask;
use crate::keyboard::word_bit;
use crate::led::{black, clear_leds, cleared, with_button, Color, TOTAL_LEDS};
use crate::midi::sysex::{packet_outcome, SysExModel, SysExParser};
use crate::palette::{palette, palette_color};
use crate::usb_midi::packets_view;

verus! {

/// MIDI note of button 0 (C2). Button N sends note `MIDI_BASENOTE + N`.
pub const MIDI_BASENOTE: u8 = 36;

/// Wire value of the MIDI channel the buttons send on (channel 15).
pub const MIDI_CHANNEL: u8 = 14;

/// Note velocity sent for button presses and releases.
pub const MIDI_VELOCITY: u8 = 127;

/// USB MIDI cable the packets are sent on.
pub const MIDI_CABLE: u8 = 0;

/// Idle polling rounds (about 10 µs each) after which an incoming burst is stable.
pub const IDLE_CYCLES_STABLE: u8 = 20;

/// The USB MIDI event packet `usbd-midi` produces for a note-on (`on`) or
/// note-off message: header `cable | CIN` (CIN 9 or 8), status
/// `0x90 | channel` or `0x80 | channel`, the note, and the velocity clamped
/// to 127.
pub open spec fn note_packet_bytes(cable: u8, channel: u8, note: u8, velocity: u8, on: bool) -> Seq<
    u8,
> {
    seq![
        cable | (if on { 0x09u8 } else { 0x08u8 }),
        (if on { 0x90u8 } else { 0x80u8 }) | channel,
        note,
        if velocity <= 127 { velocity } else { 127u8 },
    ]
}

/// Encodes a note-on or note-off message with `usbd-midi`: builds a
/// `UsbMidiEventPacket` and converts it to its 4 wire bytes.
/// Trusted: the contract restates `From<UsbMidiEventPacket> for [u8; 4]`,
/// `From<Message> for Raw`, `CodeIndexNumber::find_from_message` and
/// `U4::combine` of usbd-midi 0.3.0 (whose 8-bit shift of the cable
/// number leaves it unshifted, so the header is `cable | CIN`).
#[verifier::external_body]
fn note_event_packet(cable: u8, channel: u8, note: u8, velocity: u8, on: bool) -> (packet: [u8; 4])
    requires
        cable < 16,
        channel < 16,
        note < 128,
    ensures
        packet@ == note_packet_bytes(cable, channel, note, velocity, on),
{
    let cable_number = CableNumber::try_from(cable).ok().unwrap();
    let channel = Channel::try_from(channel).ok().unwrap();
    let note = Note::try_from(note).ok().unwrap();
    let velocity = U7::from_clamped(velocity);
    let message = if on {
        Message::NoteOn(channel, note, velocity)
    } else {
        Message::NoteOff(channel, note, velocity)
    };
    UsbMidiEventPacket { cable_number, message }.into()
}

/// The packet sent when button `btn` is pressed (`on`) or released.
pub open spec fn button_packet(btn: u8, on: bool) -> Seq<u8> {
    note_packet_bytes(MIDI_CABLE, MIDI_CHANNEL, (MIDI_BASENOTE + btn) as u8, MIDI_VELOCITY, on)
}

/// The packet for one button event: note `MIDI_BASENOTE + btn`, which must
/// be a MIDI note (below 128).
pub fn button_event_packet(btn: u8, pressed: bool) -> (packet: [u8; 4])
    requires
        MIDI_BASENOTE + btn < 128,
    ensures
        packet@ == button_packet(btn, pressed),
{
    note_event_packet(MIDI_CABLE, MIDI_CHANNEL, MIDI_BASENOTE + btn, MIDI_VELOCITY, pressed)
}

/// The set bits among `0..n` of a 64-bit word, in increasing order.
pub open spec fn word_buttons_below(x: u64, n: nat) -> Seq<u8>
    decreases n,
{
    if n == 0 {
        seq![]
    } else {
        let rest = word_buttons_below(x, (n - 1) as nat);
        if word_bit(x, n - 1) {
            rest.push((n - 1) as u8)
        } else {
            rest
        }
    }
}

/// The packets for a list of button events of one kind.
pub open spec fn event_packets(btns: Seq<u8>, on: bool) -> Seq<Seq<u8>> {
    btns.map_values(|b: u8| button_packet(b, on))
}

fn append_events(out: &mut Vec<[u8; 4]>, mask: u64, on: bool)
    ensures
        packets_view(final(out)@) == packets_view(old(out)@) + event_packets(
            word_buttons_below(mask, 64),
            on,
        ),
{
    let ghost start = out@;
    let mut btn: usize = 0;
    while btn < 64
        invariant
            btn <= 64,
            packets_view(out@) == packets_view(start) + event_packets(
                word_buttons_below(mask, btn as nat),
                on,
            ),
        decreases 64 - btn,
    {
        let ghost before = out@;
        if (mask & (1u64 << btn as u64)) != 0 {
            let p = button_event_packet(btn as u8, on);
            out.push(p);
            proof {
                assert(word_buttons_below(mask, (btn + 1) as nat) == word_buttons_below(
                    mask,
                    btn as nat,
                ).push(btn as u8));
                assert(packets_view(out@) =~= packets_view(before).push(p@));
                assert(event_packets(word_buttons_below(mask, (btn + 1) as nat), on)
                    =~= event_packets(word_buttons_below(mask, btn as nat), on).push(
                    button_packet(btn as u8, on),
                ));
            }
        }
        btn += 1;
    }
}

/// The MIDI packets to send for button transitions, in sending order: a
/// note-on for every pressed edge, then a note-off for every released edge,
/// each in increasing button order (bit N = button N).
pub fn send_button_events(pressed_mask: u64, released_mask: u64) -> (packets: Vec<[u8; 4]>)
    ensures
        packets_view(packets@) == event_packets(word_buttons_below(pressed_mask, 64), true)
            + event_packets(word_buttons_below(released_mask, 64), false),
{
    let mut packets: Vec<[u8; 4]> = Vec::new();
    proof {
        assert(packets_view(packets@) =~= seq![]);
    }
    append_events(&mut packets, pressed_mask, true);
    append_events(&mut packets, released_mask, false);
    proof {
        assert(packets_view(packets@) =~= event_packets(word_buttons_below(pressed_mask, 64), true)
            + event_packets(word_buttons_below(released_mask, 64), false));
    }
    packets
}


/// Attempts made at most to send one button note while the endpoint is busy.
pub const SEND_ATTEMPTS: u8 = 4;

/// What to do after an attempt to send a button note.
#[derive(Clone, Copy, PartialEq, Eq, Structural, Debug)]
pub enum SendStep {
    /// The endpoint took the packet.
    Sent,
    /// Poll the USB device, then try again.
    PollAndRetry,
    /// Poll the USB device and give the packet up.
    PollAndDrop,
}

/// The retry rule for button notes: after the `attempts`-th attempt (1 to
/// [`SEND_ATTEMPTS`]) the packet is done if it was taken; otherwise the USB
/// device is polled, and the packet is tried again unless this was the last
/// attempt. A dropped note-off would leave the host's LED lit, hence the
/// retries; a packet is sent at most [`SEND_ATTEMPTS`] times.
pub fn after_send_attempt(attempts: u8, ok: bool) -> (step: SendStep)
    requires
        1 <= attempts <= SEND_ATTEMPTS,
    ensures
        step == if ok {
            SendStep::Sent
        } else if attempts < SEND_ATTEMPTS {
            SendStep::PollAndRetry
        } else {
            SendStep::PollAndDrop
        },
{
    if ok {
        SendStep::Sent
    } else if attempts < SEND_ATTEMPTS {
        SendStep::PollAndRetry
    } else {
        SendStep::PollAndDrop
    }
}

// ── Incoming packets ──────────────────────────────────────────────────────────

/// Code index number of a USB MIDI packet.
pub open spec fn packet_cin(p: Seq<u8>) -> u8 {
    p[0] & 0x0F
}

/// A SysEx packet (start/continue or end, code index 4..7).
pub open spec fn is_sysex_packet(p: Seq<u8>) -> bool {
    4 <= packet_cin(p) <= 7
}

pub open spec fn packet_cmd(p: Seq<u8>) -> u8 {
    p[1] & 0xF0
}

pub open spec fn packet_channel(p: Seq<u8>) -> u8 {
    p[1] & 0x0F
}

/// Note-on with a non-zero velocity.
pub open spec fn is_note_on(p: Seq<u8>) -> bool {
    packet_cmd(p) == 0x90 && p[3] > 0
}

/// Note-off, or note-on with velocity 0.
pub open spec fn is_note_off(p: Seq<u8>) -> bool {
    packet_cmd(p) == 0x80 || (packet_cmd(p) == 0x90 && p[3] == 0)
}

/// Control change.
pub open spec fn is_cc(p: Seq<u8>) -> bool {
    packet_cmd(p) == 0xB0
}

/// A note message on a button's note (36..99) on one of the LED channels
/// (wire values 2, 3, 4).
pub open spec fn is_led_note(p: Seq<u8>) -> bool {
    &&& is_note_on(p) || is_note_off(p)
    &&& MIDI_BASENOTE <= p[2] < MIDI_BASENOTE + 64
    &&& 2 <= packet_channel(p) <= 4
}

/// The button a LED note addresses.
pub open spec fn note_button(p: Seq<u8>) -> int {
    p[2] - MIDI_BASENOTE
}

/// The LED colour a LED note sets: the velocity's palette colour for
/// note-on, off for note-off.
pub open spec fn note_color(p: Seq<u8>) -> Color {
    if is_note_on(p) {
        palette(p[3] as int)
    } else {
        black()
    }
}

/// A LED note on channel 2 sets both LEDs of the button, on channel 3 the
/// first, on channel 4 the second.
pub open spec fn note_led_update(leds: Seq<Color>, channel: u8, btn: int, c: Color) -> Seq<Color> {
    if channel == 2 {
        with_button(leds, btn, c)
    } else if channel == 3 {
        leds.update(2 * btn, c)
    } else {
        leds.update(2 * btn + 1, c)
    }
}

/// Progress of one drain of the incoming packet stream.
pub struct DrainState {
    /// Buttons that received a note-on in this burst.
    pub received_on: ButtonMask,
    /// The LED buffer changed.
    pub dirty: bool,
    /// Host activity (note, CC or LED-changing SysEx) was seen.
    pub activity: bool,
    /// Any packet arrived during this drain.
    pub has_received_data: bool,
    /// A packet arrived in the current polling round.
    pub read_any: bool,
    /// Consecutive polling rounds without a packet.
    pub idle_cycles: u8,
}

/// What the receive loop does after a packet.
#[derive(Clone, Copy, PartialEq, Eq, Structural, Debug)]
pub enum PacketAction {
    /// Read the next packet.
    Continue,
    /// A frame boundary: push this packet back and end the drain.
    UnreadAndStop,
}

/// What the receive loop does after a polling round.
#[derive(Clone, Copy, PartialEq, Eq, Structural, Debug)]
pub enum RoundAction {
    /// Poll and read again at once.
    PollAgain,
    /// Wait about 10 µs, poll and read again.
    WaitAndPoll,
    /// The drain is over.
    Finish,
}

/// Turning off the idle animation: it stops and the LEDs go dark.
pub open spec fn stop_animation(leds: Seq<Color>, animating: bool) -> Seq<Color> {
    if animating {
        cleared(leds)
    } else {
        leds
    }
}

/// The buttons that received a note-on in this burst.
pub open spec fn received_set(st: DrainState) -> Set<int> {
    Set::new(|b: int| st.received_on.is_set_spec(b))
}

/// A note-off for a LED button in `received`.
pub open spec fn boundary_in(received: Set<int>, p: Seq<u8>) -> bool {
    is_led_note(p) && is_note_off(p) && received.contains(note_button(p))
}

/// A non-SysEx packet ends the burst: a note-off for a LED button that
/// already received a note-on in this burst.
pub open spec fn is_frame_boundary(st: DrainState, p: Seq<u8>) -> bool {
    boundary_in(received_set(st), p)
}

/// LED buffer after a non-SysEx packet: any host data stops the idle
/// animation first.
pub open spec fn note_packet_leds(st: DrainState, p: Seq<u8>, leds: Seq<Color>, animating: bool) -> Seq<Color> {
    note_leds_in(received_set(st), p, leds, animating)
}

/// LED buffer after a non-SysEx packet, with `received` the burst's note-ons.
pub open spec fn note_leds_in(received: Set<int>, p: Seq<u8>, leds: Seq<Color>, animating: bool) -> Seq<Color> {
    let leds0 = stop_animation(leds, animating);
    if boundary_in(received, p) {
        leds0
    } else if is_cc(p) && p[2] == 123 {
        cleared(leds0)
    } else if is_led_note(p) {
        note_led_update(leds0, packet_channel(p), note_button(p), note_color(p))
    } else {
        leds0
    }
}

/// `dirty` after a non-SysEx packet.
pub open spec fn note_packet_dirty(st: DrainState, p: Seq<u8>, animating: bool) -> bool {
    st.dirty || animating || (!is_frame_boundary(st, p) && ((is_cc(p) && p[2] == 123)
        || is_led_note(p)))
}

/// The burst's note-ons after packet `p`: a LED note-on that is no frame
/// boundary adds its button.
pub open spec fn received_after(received: Set<int>, p: Seq<u8>) -> Set<int> {
    if !is_sysex_packet(p) && !boundary_in(received, p) && is_led_note(p) && is_note_on(p) {
        received.insert(note_button(p))
    } else {
        received
    }
}

/// LED buffer after packet `p`, SysEx or not.
pub open spec fn leds_after(
    received: Set<int>,
    m: SysExModel,
    p: Seq<u8>,
    leds: Seq<Color>,
    animating: bool,
) -> Seq<Color> {
    if is_sysex_packet(p) {
        packet_outcome(m, p, stop_animation(leds, animating)).leds
    } else {
        note_leds_in(received, p, leds, animating)
    }
}

/// SysEx parser model after packet `p`.
pub open spec fn model_after(m: SysExModel, p: Seq<u8>, leds: Seq<Color>, animating: bool) -> SysExModel {
    if is_sysex_packet(p) {
        packet_outcome(m, p, stop_animation(leds, animating)).model
    } else {
        m
    }
}

/// The LEDs at the end of a burst: packets `ps[j..]` handled one after the
/// other by [`MidiRx::handle_packet`], from the burst's note-ons `received`,
/// parser model `m`, LEDs `leds` and animation flag `animating`, until a
/// frame boundary (which is pushed back) or the end of the packets.
pub open spec fn burst_leds(
    received: Set<int>,
    m: SysExModel,
    ps: Seq<Seq<u8>>,
    j: int,
    leds: Seq<Color>,
    animating: bool,
) -> Seq<Color>
    decreases ps.len() - j,
{
    if j < 0 || j >= ps.len() {
        leds
    } else {
        let p = ps[j];
        let next = leds_after(received, m, p, leds, animating);
        if !is_sysex_packet(p) && boundary_in(received, p) {
            next
        } else {
            burst_leds(
                received_after(received, p),
                model_after(m, p, leds, animating),
                ps,
                j + 1,
                next,
                false,
            )
        }
    }
}

/// A whole burst that arrives while the idle animation runs ends with the
/// same LEDs as the same burst handled without the animation on an all-dark
/// grid: the grid is blanked before the first host message is applied.
pub proof fn lemma_burst_blanks_first(
    received: Set<int>,
    m: SysExModel,
    ps: Seq<Seq<u8>>,
    la: Seq<Color>,
    lb: Seq<Color>,
)
    requires
        la.len() == lb.len(),
        ps.len() > 0,
    ensures
        burst_leds(received, m, ps, 0, la, true) == burst_leds(received, m, ps, 0, cleared(lb), false),
{
    assert(cleared(la) =~= cleared(lb));
    assert(stop_animation(la, true) == stop_animation(cleared(lb), false));
}

/// Host data blanks the grid before it is applied: any packet handled while
/// the idle animation runs leaves the same LEDs as the same packet handled
/// without the animation on an all-dark grid (SysEx and other packets
/// alike), and marks the LEDs for redrawing. Since the parser, the burst's
/// note-ons and the animation flag then agree too, the rest of a burst runs
/// alike in both cases.
pub proof fn lemma_host_packet_blanks_first(
    st: DrainState,
    m: SysExModel,
    p: Seq<u8>,
    la: Seq<Color>,
    lb: Seq<Color>,
)
    requires
        la.len() == lb.len(),
    ensures
        note_packet_leds(st, p, la, true) == note_packet_leds(st, p, cleared(lb), false),
        note_packet_dirty(st, p, true),
        packet_outcome(m, p, stop_animation(la, true)) == packet_outcome(
            m,
            p,
            stop_animation(cleared(lb), false),
        ),
{
    assert(cleared(la) =~= cleared(lb));
}

/// A note-on's palette lookup is in range: the velocity of a LED note-on is below 128.
pub open spec fn packet_supported(p: Seq<u8>) -> bool {
    !is_sysex_packet(p) && is_note_on(p) && is_led_note(p) ==> p[3] < 128
}

/// Whether [`MidiRx::handle_packet`] can take `packet`: a note-on for a LED
/// button must carry a velocity below 128, the size of the palette.
pub fn is_supported_packet(packet: &[u8; 4]) -> (r: bool)
    ensures
        r == packet_supported(packet@),
{
    let cin = packet[0] & 0x0F;
    let cmd = packet[1] & 0xF0;
    let channel = packet[1] & 0x0F;
    let note = packet[2];
    let velocity = packet[3];
    let sysex = 0x4 <= cin && cin <= 0x7;
    let led_note_on = cmd == 0x90 && velocity > 0 && MIDI_BASENOTE <= note && note < MIDI_BASENOTE
        + 64 && 2 <= channel && channel <= 4;
    !(!sysex && led_note_on) || velocity < 128
}

/// Receives USB MIDI packets from the host: maps note/velocity commands and
/// SysEx LED commands onto the LED buffer and detects frame boundaries.
pub struct MidiRx {
    _private: (),
}

impl MidiRx {
    pub fn new() -> MidiRx {
        MidiRx { _private: () }
    }

    /// The state at the start of a drain.
    pub fn start_drain(&self) -> (st: DrainState)
        ensures
            st.received_on.empty_spec(),
            !st.dirty,
            !st.activity,
            !st.has_received_data,
            !st.read_any,
            st.idle_cycles == 0,
    {
        DrainState {
            received_on: ButtonMask::empty(),
            dirty: false,
            activity: false,
            has_received_data: false,
            read_any: false,
            idle_cycles: 0,
        }
    }

    /// A new polling round begins.
    pub fn begin_round(&self, st: &mut DrainState)
        ensures
            *final(st) == (DrainState { read_any: false, ..*old(st) }),
    {
        st.read_any = false;
    }

    /// Handle one received packet. Every packet is host data: it stops the
    /// idle animation, which blanks the LEDs before the packet is applied.
    /// SysEx packets go to the parser, and a LED change there counts as
    /// activity; note, note-off and CC packets count as activity too. CC 123
    /// (all notes off) blanks the LEDs. A LED note sets the palette colour
    /// (note-on) or black (note-off) on the addressed LEDs, unless it is a
    /// note-off for a button that already got a note-on in
    /// this burst: then the packet belongs to the next frame and is pushed back.
    pub fn handle_packet(
        &self,
        st: &mut DrainState,
        packet: &[u8; 4],
        host_leds: &mut [Color; TOTAL_LEDS],
        animating: &mut bool,
        sysex: &mut SysExParser,
    ) -> (action: PacketAction)
        requires
            old(sysex).wf(),
            packet_supported(packet@),
        ensures
            final(sysex).wf(),
            final(st).read_any,
            final(st).has_received_data,
            final(st).idle_cycles == old(st).idle_cycles,
            received_set(*final(st)) == received_after(received_set(*old(st)), packet@),
            final(host_leds)@ == leds_after(
                received_set(*old(st)),
                old(sysex)@,
                packet@,
                old(host_leds)@,
                *old(animating),
            ),
            final(sysex)@ == model_after(old(sysex)@, packet@, old(host_leds)@, *old(animating)),
            is_sysex_packet(packet@) ==> {
                let o = packet_outcome(
                    old(sysex)@,
                    packet@,
                    stop_animation(old(host_leds)@, *old(animating)),
                );
                &&& final(sysex)@ == o.model
                &&& packets_view(final(sysex).pending()) == packets_view(old(sysex).pending())
                    + crate::usb_midi::sysex_frames(o.reply)
                &&& final(host_leds)@ == o.leds
                &&& !*final(animating)
                &&& final(st).dirty == (old(st).dirty || o.modified || *old(animating))
                &&& final(st).activity == (old(st).activity || o.modified)
                &&& final(st).received_on == old(st).received_on
                &&& action == PacketAction::Continue
            },
            !is_sysex_packet(packet@) ==> {
                let host = is_note_on(packet@) || is_note_off(packet@) || is_cc(packet@);
                &&& *final(sysex) == *old(sysex)
                &&& final(host_leds)@ == note_packet_leds(
                    *old(st),
                    packet@,
                    old(host_leds)@,
                    *old(animating),
                )
                &&& !*final(animating)
                &&& final(st).dirty == note_packet_dirty(*old(st), packet@, *old(animating))
                &&& final(st).activity == (old(st).activity || host)
                &&& (action == PacketAction::UnreadAndStop) == is_frame_boundary(
                    *old(st),
                    packet@,
                )
                &&& forall|b: int| #[trigger]
                    final(st).received_on.is_set_spec(b) == (old(st).received_on.is_set_spec(b) || (
                    !is_frame_boundary(*old(st), packet@) && is_led_note(packet@) && is_note_on(
                        packet@,
                    ) && b == note_button(packet@)))
            },
    {
        st.read_any = true;
        st.has_received_data = true;

        // any host data stops the idle animation, blanking the LEDs first
        if *animating {
            *animating = false;
            clear_leds(host_leds);
            st.dirty = true;
            proof {
                assert(host_leds@ =~= cleared(old(host_leds)@));
            }
        }

        let status = packet[1];
        let note = packet[2];
        let velocity = packet[3];
        let channel = status & 0x0F;
        let cmd = status & 0xF0;
        let cin = packet[0] & 0x0F;

        if 0x4 <= cin && cin <= 0x7 {
            let modified = sysex.process_packet(packet, host_leds);
            if modified {
                st.activity = true;
                st.dirty = true;
            }
            return PacketAction::Continue;
        }

        let is_on = (cmd == 0x90) && (velocity > 0);
        let is_off = (cmd == 0x80) || ((cmd == 0x90) && (velocity == 0));
        let is_cc = cmd == 0xB0;

        if is_on || is_off || is_cc {
            st.activity = true;
        }
        let ghost leds0 = host_leds@;

        if is_cc && note == 123 {
            clear_leds(host_leds);
            st.dirty = true;
            proof {
                assert(host_leds@ =~= cleared(leds0));
            }
        } else if (is_on || is_off) && MIDI_BASENOTE <= note && note < MIDI_BASENOTE + 64 {
            if 2 <= channel && channel <= 4 {
                let btn = (note - MIDI_BASENOTE) as usize;
                if is_off && st.received_on.is_set(btn) {
                    return PacketAction::UnreadAndStop;
                }
                if is_on {
                    st.received_on.set(btn);
                }
                let color = if is_on {
                    palette_color(velocity)
                } else {
                    Color::black()
                };
                let base_led = btn * 2;
                if channel == 2 {
                    host_leds[base_led] = color;
                    host_leds[base_led + 1] = color;
                } else if channel == 3 {
                    host_leds[base_led] = color;
                } else {
                    host_leds[base_led + 1] = color;
                }
                st.dirty = true;
            }
        }
        PacketAction::Continue
    }

    /// End of a polling round: after a round with packets poll again at once; after
    /// an empty round finish at once if nothing arrived at all, otherwise
    /// count idle rounds and finish when more than [`IDLE_CYCLES_STABLE`]
    /// followed each other.
    pub fn end_round(&self, st: &mut DrainState) -> (action: RoundAction)
        requires
            old(st).idle_cycles <= IDLE_CYCLES_STABLE,
        ensures
            final(st).received_on == old(st).received_on,
            final(st).dirty == old(st).dirty,
            final(st).activity == old(st).activity,
            final(st).has_received_data == old(st).has_received_data,
            final(st).read_any == old(st).read_any,
            old(st).read_any ==> final(st).idle_cycles == 0 && action == RoundAction::PollAgain,
            !old(st).read_any && !old(st).has_received_data ==> final(st).idle_cycles
                == old(st).idle_cycles && action == RoundAction::Finish,
            !old(st).read_any && old(st).has_received_data ==> final(st).idle_cycles
                == old(st).idle_cycles + 1 && action == if final(st).idle_cycles
                > IDLE_CYCLES_STABLE {
                RoundAction::Finish
            } else {
                RoundAction::WaitAndPoll
            },
            action != RoundAction::Finish ==> final(st).idle_cycles <= IDLE_CYCLES_STABLE,
    {
        if st.read_any {
            st.idle_cycles = 0;
            RoundAction::PollAgain
        } else if !st.has_received_data {
            RoundAction::Finish
        } else {
            st.idle_cycles += 1;
            if st.idle_cycles > IDLE_CYCLES_STABLE {
                RoundAction::Finish
            } else {
                RoundAction::WaitAndPoll
            }
        }
    }
}

} // verus!

verus! {

/// A LED note: a note-on or note-off (status `0x8n` or `0x9n`) on a grid
/// note 36..99 and LED channel wire 2, 3 or 4. It writes one colour to the
/// LEDs its channel addresses on button `note - 36`: both LEDs on channel 2,
/// the first on 3, the second on 4. The colour is the velocity's palette
/// entry for a note-on with non-zero velocity, and off for a note-off or a
/// note-on with velocity 0. Every other LED keeps its colour (after the grid
/// is blanked, if the animation ran). The one exception is a note-off for a
/// button that got a note-on earlier in the burst: it belongs to the next
/// frame and writes nothing.
pub proof fn lemma_led_note(st: DrainState, p: Seq<u8>, leds: Seq<Color>, animating: bool)
    requires
        leds.len() == TOTAL_LEDS,
        p.len() == 4,
        p[1] & 0xF0 == 0x80 || p[1] & 0xF0 == 0x90,
        36 <= p[2] < 100,
        2 <= p[1] & 0x0F <= 4,
    ensures
        ({
            let btn = p[2] - 36;
            let ch = p[1] & 0x0F;
            let on = p[1] & 0xF0 == 0x90 && p[3] > 0;
            let written = !(!on && st.received_on.is_set_spec(btn));
            let out = note_packet_leds(st, p, leds, animating);
            &&& out.len() == TOTAL_LEDS
            &&& forall|i: int|
                0 <= i < TOTAL_LEDS ==> #[trigger] out[i] == if written && ((ch == 2 && (i == 2
                    * btn || i == 2 * btn + 1)) || (ch == 3 && i == 2 * btn) || (ch == 4 && i == 2
                    * btn + 1)) {
                    if on {
                        palette(p[3] as int)
                    } else {
                        black()
                    }
                } else if animating {
                    black()
                } else {
                    leds[i]
                }
        }),
{
    let leds0 = stop_animation(leds, animating);
    assert(leds0.len() == TOTAL_LEDS);
}

/// Any other non-SysEx packet writes no LED: control change 123 (all notes
/// off) turns every LED off, and everything else (notes off the grid or on
/// other channels, other controllers, program changes, ...) leaves the LEDs
/// as they are, after the grid is blanked if the animation ran.
pub proof fn lemma_other_packet(st: DrainState, p: Seq<u8>, leds: Seq<Color>, animating: bool)
    requires
        leds.len() == TOTAL_LEDS,
        p.len() == 4,
        !((p[1] & 0xF0 == 0x80 || p[1] & 0xF0 == 0x90) && 36 <= p[2] < 100 && 2 <= p[1] & 0x0F
            <= 4),
    ensures
        ({
            let out = note_packet_leds(st, p, leds, animating);
            &&& out.len() == TOTAL_LEDS
            &&& forall|i: int|
                0 <= i < TOTAL_LEDS ==> #[trigger] out[i] == if (p[1] & 0xF0 == 0xB0 && p[2] == 123)
                    || animating {
                    black()
                } else {
                    leds[i]
                }
        }),
{
}

} // verus!
