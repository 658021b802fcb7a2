//! SysEx parser for FastRGB LED commands, the Mystrix LED protocol and
//! device identification.
//!
//! Incoming SysEx arrives as USB MIDI packets: code index 4 carries three
//! bytes of a message that starts or continues, codes 5, 6 and 7 end it with
//! one, two or three bytes. The parser recognises the message kind from its
//! first bytes, collects the body (at most [`MIDI_MAX_SYSEX`] bytes) and acts
//! on it when the message ends.

use vstd::prelude::*;

use crate::fastled::{apply_list, decompress_from, fastrgb_clear, fastrgb_decompress, fastrgb_list};
use crate::led::{black, cleared, Color, TOTAL_LEDS};
use crate::midi::mystrix::{apply_leds, mystrix_any_hit, mystrix_apply, MystrixState};
use crate::usb_midi::{packets_view, sysex_frames, sysex_packets};

verus! {

/// Largest SysEx body the parser buffers.
pub const MIDI_MAX_SYSEX: usize = 192;

/// Identity reply (DJ TechTools, MIDI Fighter 64) to a universal identity request.
pub const DJTT_IDENTITY: [u8; 17] = [
    0xF0, 0x7E, 0x7F, 0x06, 0x02, 0x00, 0x01, 0x79, // manufacturer 00 01 79
    0x06, 0x00, // family
    0x01, 0x00, // model
    0x30, 0x24, // year MSB, LSB
    0x03, // month
    0x20, // day
    0xF7,
];

/// Identity reply in Mystrix mode (manufacturer 00 02 03 4D 58).
pub const MYSTRIX_IDENTITY: [u8; 17] = [
    0xF0, 0x7E, 0x7F, 0x06, 0x02, 0x00, 0x02, 0x03, 0x4D, 0x58, 0x11, 0x01, 0x00, 0x00, 0x00, 0x01,
    0xF7,
];

/// Parser state: which message kind is being collected.
#[derive(Clone, Copy, PartialEq, Eq, Structural, Debug)]
pub enum SysExState {
    /// Between messages.
    Begin,
    /// `F0 00 01` received: waiting for the DJTT manufacturer byte `79`.
    CheckMid,
    /// Unrecognised or overlong message: ignored until it ends.
    Invalid,
    /// Universal non-realtime message (`F0 7E 7F`).
    NonRealtime,
    /// DJ TechTools message (`F0 00 01 79`).
    Djtt,
    /// FastRGB list (`F0 6F`).
    List6F,
    /// FastRGB compressed (`F0 5F`).
    Compressed5F,
    /// Mystrix message (`F0 00 02`), only recognised in Mystrix mode.
    Mystrix(MystrixState),
}

/// The parser as a state, the collected body and the protocol mode.
pub struct SysExModel {
    pub state: SysExState,
    pub data: Seq<u8>,
    pub mystrix: bool,
}

/// What one packet does: the next parser model, the LED buffer, whether the
/// LEDs changed, and the SysEx reply to send (empty for none).
pub struct SysExOutcome {
    pub model: SysExModel,
    pub leds: Seq<Color>,
    pub modified: bool,
    pub reply: Seq<u8>,
}

pub open spec fn model_wf(m: SysExModel) -> bool {
    &&& m.data.len() <= MIDI_MAX_SYSEX
    &&& m.state == SysExState::Begin ==> m.data.len() == 0
    &&& !m.mystrix ==> !(m.state is Mystrix)
}

pub open spec fn with_state(m: SysExModel, s: SysExState) -> SysExModel {
    SysExModel { state: s, data: m.data, mystrix: m.mystrix }
}

/// Append one body byte; an overlong body makes the message invalid.
pub open spec fn push_model(m: SysExModel, b: u8) -> SysExModel {
    if m.data.len() < MIDI_MAX_SYSEX {
        SysExModel { state: m.state, data: m.data.push(b), mystrix: m.mystrix }
    } else {
        with_state(m, SysExState::Invalid)
    }
}

pub open spec fn push3(m: SysExModel, d1: u8, d2: u8, d3: u8) -> SysExModel {
    push_model(push_model(push_model(m, d1), d2), d3)
}

/// Start of a new message from its first three bytes.
pub open spec fn begin_message(m: SysExModel, d1: u8, d2: u8, d3: u8) -> SysExModel {
    let m0 = SysExModel { state: m.state, data: seq![], mystrix: m.mystrix };
    if d1 == 0xF0 && d2 == 0x7E && d3 == 0x7F {
        with_state(m0, SysExState::NonRealtime)
    } else if d1 == 0xF0 && d2 == 0x00 && d3 == 0x01 {
        with_state(m0, SysExState::CheckMid)
    } else if d1 == 0xF0 && d2 == 0x6F {
        with_state(push_model(m0, d3), SysExState::List6F)
    } else if d1 == 0xF0 && d2 == 0x5F {
        with_state(push_model(m0, d3), SysExState::Compressed5F)
    } else {
        with_state(m0, SysExState::Invalid)
    }
}

/// A start/continue packet consumed by the Mystrix protocol (Mystrix mode only).
pub open spec fn mystrix_takes(m: SysExModel, d1: u8, d2: u8, d3: u8) -> bool {
    m.mystrix && match m.state {
        SysExState::Begin => d1 == 0xF0 && d2 == 0x00 && d3 == 0x02,
        SysExState::Mystrix(_) => true,
        _ => false,
    }
}

pub open spec fn mystrix_continue(m: SysExModel, d1: u8, d2: u8, d3: u8) -> SysExModel {
    match m.state {
        SysExState::Mystrix(MystrixState::CheckManufacturer) => if d1 == 0x03 && d2 == 0x4D && d3
            == 0x58 {
            with_state(m, SysExState::Mystrix(MystrixState::Header))
        } else {
            with_state(m, SysExState::Invalid)
        },
        SysExState::Mystrix(MystrixState::Header) => if d1 == 0x5E {
            with_state(
                push_model(push_model(m, d2), d3),
                SysExState::Mystrix(MystrixState::Data),
            )
        } else {
            with_state(m, SysExState::Invalid)
        },
        SysExState::Mystrix(MystrixState::Data) => push3(m, d1, d2, d3),
        _ => SysExModel {
            state: SysExState::Mystrix(MystrixState::CheckManufacturer),
            data: seq![],
            mystrix: m.mystrix,
        },
    }
}

/// A start/continue packet carrying `d1 d2 d3`.
pub open spec fn on_continue(m: SysExModel, d1: u8, d2: u8, d3: u8) -> SysExModel {
    if mystrix_takes(m, d1, d2, d3) {
        mystrix_continue(m, d1, d2, d3)
    } else {
        match m.state {
            SysExState::Begin => begin_message(m, d1, d2, d3),
            SysExState::CheckMid => if d1 == 0x79 {
                with_state(push_model(push_model(m, d2), d3), SysExState::Djtt)
            } else {
                with_state(m, SysExState::Invalid)
            },
            SysExState::Invalid => m,
            _ => push3(m, d1, d2, d3),
        }
    }
}

/// The bytes 2 and 3 of an end packet with `valid` bytes, pushed as far as present.
pub open spec fn push_tail(m: SysExModel, p: Seq<u8>, valid: int) -> SysExModel {
    let m2 = if valid >= 2 {
        push_model(m, p[2])
    } else {
        m
    };
    if valid == 3 {
        push_model(m2, p[3])
    } else {
        m2
    }
}

/// The model after the bytes of an end packet with `valid` (1..3) bytes,
/// before the message is acted on (state not `Begin`).
pub open spec fn on_end(m: SysExModel, p: Seq<u8>, valid: int) -> SysExModel {
    if m.mystrix && m.state == SysExState::Mystrix(MystrixState::Header) {
        if p[1] == 0x5E {
            with_state(push_tail(m, p, valid), SysExState::Mystrix(MystrixState::Data))
        } else {
            with_state(m, SysExState::Invalid)
        }
    } else {
        match m.state {
            SysExState::CheckMid => if p[1] == 0x79 {
                with_state(push_tail(m, p, valid), SysExState::Djtt)
            } else {
                with_state(m, SysExState::Invalid)
            },
            SysExState::Invalid => m,
            _ => push_tail(push_model(m, p[1]), p, valid),
        }
    }
}

/// The message body without its trailing `F7`.
pub open spec fn body_of(m: SysExModel) -> Seq<u8> {
    if m.data.len() == 0 {
        m.data
    } else {
        m.data.take(m.data.len() - 1)
    }
}

/// The identity reply of the protocol mode.
pub open spec fn identity_reply(mystrix: bool) -> Seq<u8> {
    if mystrix {
        MYSTRIX_IDENTITY@
    } else {
        DJTT_IDENTITY@
    }
}

/// Acting on a complete message: `(leds, modified, reply)`.
pub open spec fn dispatch_effect(m: SysExModel, leds: Seq<Color>) -> (Seq<Color>, bool, Seq<u8>) {
    let body = body_of(m);
    match m.state {
        SysExState::NonRealtime => if body.len() >= 2 && body[0] == 0x06 && body[1] == 0x01 {
            (leds, false, identity_reply(m.mystrix))
        } else {
            (leds, false, seq![])
        },
        SysExState::List6F => (apply_list(leds, body), true, seq![]),
        SysExState::Compressed5F => (decompress_from(body, 0, leds), true, seq![]),
        SysExState::Mystrix(MystrixState::Data) => (
            mystrix_apply(leds, body),
            mystrix_any_hit(body),
            seq![],
        ),
        _ => (leds, false, seq![]),
    }
}

/// What processing one USB MIDI packet `p` does to parser `m` and LEDs `leds`.
pub open spec fn packet_outcome(m: SysExModel, p: Seq<u8>, leds: Seq<Color>) -> SysExOutcome {
    let cin = p[0] & 0x0F;
    if cin == 0x4 {
        SysExOutcome { model: on_continue(m, p[1], p[2], p[3]), leds, modified: false, reply: seq![] }
    } else if 0x5 <= cin <= 0x7 {
        let valid = cin - 4;
        if m.state == SysExState::Begin {
            if valid == 3 && p[1] == 0xF0 && p[2] == 0x6E {
                SysExOutcome { model: m, leds: cleared(leds), modified: true, reply: seq![] }
            } else {
                SysExOutcome { model: m, leds, modified: false, reply: seq![] }
            }
        } else {
            let m2 = on_end(m, p, valid);
            let next = SysExModel { state: SysExState::Begin, data: seq![], mystrix: m.mystrix };
            if m2.state != SysExState::Invalid {
                let e = dispatch_effect(m2, leds);
                SysExOutcome { model: next, leds: e.0, modified: e.1, reply: e.2 }
            } else {
                SysExOutcome { model: next, leds, modified: false, reply: seq![] }
            }
        }
    } else {
        SysExOutcome { model: m, leds, modified: false, reply: seq![] }
    }
}

/// The parser between messages, in mode `mystrix`: what a new parser is.
pub open spec fn fresh_model(mystrix: bool) -> SysExModel {
    SysExModel { state: SysExState::Begin, data: seq![], mystrix }
}

/// An end packet (code index 5, 6 or 7) always leaves the parser fresh:
/// between messages with an empty buffer, in the same mode. From then on it
/// behaves exactly like a new parser of that mode: each later packet has the
/// same outcome (LEDs, change flag and reply), and so has any run of packets.
pub proof fn lemma_end_packet_fresh(m: SysExModel, p: Seq<u8>, leds: Seq<Color>)
    requires
        model_wf(m),
        5 <= p[0] & 0x0F <= 7,
    ensures
        packet_outcome(m, p, leds).model == fresh_model(m.mystrix),
        forall|q: Seq<u8>, l: Seq<Color>|
            #[trigger] packet_outcome(packet_outcome(m, p, leds).model, q, l) == packet_outcome(
                fresh_model(m.mystrix),
                q,
                l,
            ),
        forall|ps: Seq<Seq<u8>>, j: int, l: Seq<Color>|
            #[trigger] run_packets(packet_outcome(m, p, leds).model, ps, j, l) == run_packets(
                fresh_model(m.mystrix),
                ps,
                j,
                l,
            ),
{
    if m.state == SysExState::Begin {
        assert(m.data =~= Seq::<u8>::empty());
    }
}

// ── Framing and parsing together ──────────────────────────────────────────────

/// The parser run over packets `j..` of a packet list: the final model, the
/// final LEDs, and whether any packet changed the LEDs.
pub open spec fn run_packets(m: SysExModel, ps: Seq<Seq<u8>>, j: int, leds: Seq<Color>) -> (
    SysExModel,
    Seq<Color>,
    bool,
)
    decreases ps.len() - j,
{
    if j < 0 || j >= ps.len() {
        (m, leds, false)
    } else {
        let o = packet_outcome(m, ps[j], leds);
        let r = run_packets(o.model, ps, j + 1, o.leds);
        (r.0, r.1, o.modified || r.2)
    }
}

/// The FastRGB message of a kind byte (`6F` list, `5F` compressed) and body.
pub open spec fn fastrgb_message(kind: u8, body: Seq<u8>) -> Seq<u8> {
    seq![0xF0u8, kind] + body + seq![0xF7u8]
}

/// The parser state collecting a FastRGB message of kind `kind`.
pub open spec fn fastrgb_state(kind: u8) -> SysExState {
    if kind == 0x6F {
        SysExState::List6F
    } else {
        SysExState::Compressed5F
    }
}

/// The LEDs after a FastRGB message of kind `kind` with body `body`.
pub open spec fn fastrgb_effect(kind: u8, body: Seq<u8>, leds: Seq<Color>) -> Seq<Color> {
    if kind == 0x6F {
        apply_list(leds, body)
    } else {
        decompress_from(body, 0, leds)
    }
}

/// The parser after the first `j` packets of a FastRGB message: collecting
/// bytes `2..3j` of the message.
spec fn fastrgb_mid(m: SysExModel, msg: Seq<u8>, j: int) -> SysExModel {
    SysExModel { state: fastrgb_state(msg[1]), data: msg.subrange(2, 3 * j), mystrix: m.mystrix }
}

/// The premises shared by the steps of the round trip.
spec fn fastrgb_frame_premise(m: SysExModel, kind: u8, body: Seq<u8>) -> bool {
    &&& kind == 0x6F || kind == 0x5F
    &&& 1 <= body.len()
    &&& body.len() + 1 <= MIDI_MAX_SYSEX
    &&& m.data.len() == 0
}

proof fn lemma_cin_nibbles()
    ensures
        0x4u8 & 0x0F == 0x4,
        0x5u8 & 0x0F == 0x5,
        0x6u8 & 0x0F == 0x6,
        0x7u8 & 0x0F == 0x7,
{
    assert(0x4u8 & 0x0F == 0x4 && 0x5u8 & 0x0F == 0x5 && 0x6u8 & 0x0F == 0x6 && 0x7u8 & 0x0F
        == 0x7) by (bit_vector);
}

proof fn lemma_fastrgb_first(m: SysExModel, kind: u8, body: Seq<u8>, leds: Seq<Color>)
    requires
        fastrgb_frame_premise(m, kind, body),
        m.state == SysExState::Begin,
    ensures
        ({
            let msg = fastrgb_message(kind, body);
            let o = packet_outcome(m, sysex_frames(msg)[0], leds);
            &&& o.model.state == fastrgb_mid(m, msg, 1).state
            &&& o.model.data =~= fastrgb_mid(m, msg, 1).data
            &&& o.model.mystrix == m.mystrix
            &&& o.leds == leds
            &&& !o.modified
        }),
{
    lemma_cin_nibbles();
    let msg = fastrgb_message(kind, body);
    let p = sysex_frames(msg)[0];
    assert(p == crate::usb_midi::sysex_packet_at(msg, 0));
    assert(msg[0] == 0xF0 && msg[1] == kind && msg[2] == body[0]);
    assert(p =~= seq![0x4u8, 0xF0u8, kind, body[0]]);
    assert(msg.subrange(2, 3) =~= seq![body[0]]);
    let m0 = SysExModel { state: m.state, data: seq![], mystrix: m.mystrix };
    assert(push_model(m0, body[0]).data =~= seq![body[0]]);
}

proof fn lemma_fastrgb_continue(m: SysExModel, kind: u8, body: Seq<u8>, j: int, leds: Seq<Color>)
    requires
        fastrgb_frame_premise(m, kind, body),
        1 <= j,
        3 * j + 3 < fastrgb_message(kind, body).len(),
    ensures
        ({
            let msg = fastrgb_message(kind, body);
            let o = packet_outcome(fastrgb_mid(m, msg, j), sysex_frames(msg)[j], leds);
            &&& o.model.state == fastrgb_mid(m, msg, j + 1).state
            &&& o.model.data =~= fastrgb_mid(m, msg, j + 1).data
            &&& o.model.mystrix == m.mystrix
            &&& o.leds == leds
            &&& !o.modified
        }),
{
    lemma_cin_nibbles();
    let msg = fastrgb_message(kind, body);
    let i = 3 * j;
    let mid = fastrgb_mid(m, msg, j);
    assert(sysex_frames(msg)[j] == crate::usb_midi::sysex_packet_at(msg, i));
    let p = sysex_frames(msg)[j];
    assert(p =~= seq![0x4u8, msg[i], msg[i + 1], msg[i + 2]]);
    assert(mid.data.len() + 3 <= MIDI_MAX_SYSEX);
    assert(push3(mid, msg[i], msg[i + 1], msg[i + 2]).data =~= msg.subrange(2, 3 * (j + 1)));
}

proof fn lemma_fastrgb_last(m: SysExModel, kind: u8, body: Seq<u8>, j: int, leds: Seq<Color>)
    requires
        fastrgb_frame_premise(m, kind, body),
        1 <= j,
        3 * j < fastrgb_message(kind, body).len() <= 3 * j + 3,
    ensures
        ({
            let msg = fastrgb_message(kind, body);
            let o = packet_outcome(fastrgb_mid(m, msg, j), sysex_frames(msg)[j], leds);
            &&& o.model.state == SysExState::Begin
            &&& o.model.data.len() == 0
            &&& o.leds == fastrgb_effect(kind, body, leds)
            &&& o.modified
        }),
{
    lemma_cin_nibbles();
    let msg = fastrgb_message(kind, body);
    let len = msg.len() as int;
    let i = 3 * j;
    let mid = fastrgb_mid(m, msg, j);
    let valid = len - i;
    assert(sysex_frames(msg)[j] == crate::usb_midi::sysex_packet_at(msg, i));
    let p = sysex_frames(msg)[j];
    assert(msg[len - 1] == 0xF7);
    assert(p[0] & 0x0F == 4 + valid) by {
        if valid == 3 {
            assert(p[0] == 0x7);
        } else if valid == 2 {
            assert(p[0] == 0x6);
        } else {
            assert(p[0] == 0x5);
        }
    }
    let m2 = on_end(mid, p, valid);
    assert(m2.data =~= msg.subrange(2, len));
    assert(m2.state == fastrgb_state(kind));
    assert(body_of(m2) =~= body);
}

proof fn lemma_fastrgb_run(m: SysExModel, kind: u8, body: Seq<u8>, j: int, leds: Seq<Color>)
    requires
        fastrgb_frame_premise(m, kind, body),
        1 <= j,
        3 * j < fastrgb_message(kind, body).len(),
    ensures
        ({
            let msg = fastrgb_message(kind, body);
            let r = run_packets(fastrgb_mid(m, msg, j), sysex_frames(msg), j, leds);
            &&& r.0.state == SysExState::Begin
            &&& r.0.data.len() == 0
            &&& r.1 == fastrgb_effect(kind, body, leds)
            &&& r.2
        }),
    decreases fastrgb_message(kind, body).len() - 3 * j,
{
    let msg = fastrgb_message(kind, body);
    let len = msg.len() as int;
    let frames = sysex_frames(msg);
    assert(frames.len() == (len + 2) / 3);
    assert(j < frames.len());
    if 3 * j + 3 < len {
        lemma_fastrgb_continue(m, kind, body, j, leds);
        let o = packet_outcome(fastrgb_mid(m, msg, j), frames[j], leds);
        assert(o.model == fastrgb_mid(m, msg, j + 1));
        lemma_fastrgb_run(m, kind, body, j + 1, leds);
    } else {
        lemma_fastrgb_last(m, kind, body, j, leds);
        let o = packet_outcome(fastrgb_mid(m, msg, j), frames[j], leds);
        assert(j + 1 >= frames.len());
        assert(run_packets(o.model, frames, j + 1, o.leds) == (o.model, o.leds, false));
    }
}

/// Framing and parsing fit together: a FastRGB message (`F0 6F` list or
/// `F0 5F` compressed) with a non-empty body that fits the buffer, split into
/// USB MIDI packets and fed to a parser between messages, updates the LEDs
/// exactly as its body says and leaves the parser between messages.
pub proof fn lemma_fastrgb_round_trip(m: SysExModel, kind: u8, body: Seq<u8>, leds: Seq<Color>)
    requires
        model_wf(m),
        m.state == SysExState::Begin,
        kind == 0x6F || kind == 0x5F,
        1 <= body.len(),
        body.len() + 1 <= MIDI_MAX_SYSEX,
    ensures
        ({
            let r = run_packets(m, sysex_frames(fastrgb_message(kind, body)), 0, leds);
            &&& r.0.state == SysExState::Begin
            &&& r.0.data.len() == 0
            &&& r.1 == fastrgb_effect(kind, body, leds)
            &&& r.2
        }),
{
    let msg = fastrgb_message(kind, body);
    assert(sysex_frames(msg).len() >= 2);
    lemma_fastrgb_first(m, kind, body, leds);
    let o = packet_outcome(m, sysex_frames(msg)[0], leds);
    assert(o.model == fastrgb_mid(m, msg, 1));
    lemma_fastrgb_run(m, kind, body, 1, leds);
}

// ── Overlong messages ─────────────────────────────────────────────────────────

/// The parser collecting a FastRGB list with `n` body bytes so far, or
/// dropping it once the body no longer fits the buffer.
pub open spec fn list_collecting(m: SysExModel, n: int) -> bool {
    &&& model_wf(m)
    &&& if n <= MIDI_MAX_SYSEX {
        m.state == SysExState::List6F && m.data.len() == n
    } else {
        m.state == SysExState::Invalid
    }
}

proof fn lemma_list_first(m: SysExModel, p: Seq<u8>, leds: Seq<Color>)
    requires
        model_wf(m),
        m.state == SysExState::Begin,
        p.len() == 4,
        p[0] & 0x0F == 0x4,
        p[1] == 0xF0,
        p[2] == 0x6F,
    ensures
        list_collecting(packet_outcome(m, p, leds).model, 1),
        packet_outcome(m, p, leds).leds == leds,
        !packet_outcome(m, p, leds).modified,
{
}

proof fn lemma_list_continue(m: SysExModel, n: int, p: Seq<u8>, leds: Seq<Color>)
    requires
        list_collecting(m, n),
        0 <= n,
        p.len() == 4,
        p[0] & 0x0F == 0x4,
    ensures
        list_collecting(packet_outcome(m, p, leds).model, n + 3),
        packet_outcome(m, p, leds).leds == leds,
        !packet_outcome(m, p, leds).modified,
{
}

proof fn lemma_list_end(m: SysExModel, n: int, p: Seq<u8>, v: int, leds: Seq<Color>)
    requires
        list_collecting(m, n),
        0 <= n,
        1 <= v <= 3,
        p.len() == 4,
        p[0] & 0x0F == 4 + v,
    ensures
        packet_outcome(m, p, leds).modified == (n + v <= MIDI_MAX_SYSEX),
        !packet_outcome(m, p, leds).modified ==> packet_outcome(m, p, leds).leds == leds,
        packet_outcome(m, p, leds).model.state == SysExState::Begin,
{
}

proof fn lemma_list_run(m: SysExModel, ps: Seq<Seq<u8>>, j: int, n: int, leds: Seq<Color>, v: int)
    requires
        1 <= j < ps.len(),
        list_collecting(m, n),
        n == 1 + 3 * (j - 1),
        1 <= v <= 3,
        forall|i: int| 0 <= i < ps.len() ==> #[trigger] ps[i].len() == 4,
        forall|i: int| 1 <= i < ps.len() - 1 ==> #[trigger] ps[i][0] & 0x0F == 0x4,
        ps[ps.len() - 1][0] & 0x0F == 4 + v,
    ensures
        run_packets(m, ps, j, leds).2 == (1 + 3 * (ps.len() - 2) + v <= MIDI_MAX_SYSEX),
        !run_packets(m, ps, j, leds).2 ==> run_packets(m, ps, j, leds).1 == leds,
    decreases ps.len() - j,
{
    let o = packet_outcome(m, ps[j], leds);
    if j == ps.len() - 1 {
        lemma_list_end(m, n, ps[j], v, leds);
        assert(run_packets(o.model, ps, j + 1, o.leds) == (o.model, o.leds, false));
    } else {
        lemma_list_continue(m, n, ps[j], leds);
        lemma_list_run(o.model, ps, j + 1, n + 3, leds, v);
    }
}

/// An overlong message is dropped whole: a FastRGB list sent as a start
/// packet `F0 6F d`, `k` continue packets and an end packet with `v` bytes
/// changes the LEDs exactly when its `1 + 3k + v` body bytes (with the
/// closing byte) fit the buffer; otherwise the LEDs stay untouched.
pub proof fn lemma_overlong_dropped(m: SysExModel, ps: Seq<Seq<u8>>, v: int, leds: Seq<Color>)
    requires
        model_wf(m),
        m.state == SysExState::Begin,
        ps.len() >= 2,
        1 <= v <= 3,
        forall|i: int| 0 <= i < ps.len() ==> #[trigger] ps[i].len() == 4,
        ps[0][0] & 0x0F == 0x4,
        ps[0][1] == 0xF0,
        ps[0][2] == 0x6F,
        forall|i: int| 1 <= i < ps.len() - 1 ==> #[trigger] ps[i][0] & 0x0F == 0x4,
        ps[ps.len() - 1][0] & 0x0F == 4 + v,
    ensures
        run_packets(m, ps, 0, leds).2 == (1 + 3 * (ps.len() - 2) + v <= MIDI_MAX_SYSEX),
        !run_packets(m, ps, 0, leds).2 ==> run_packets(m, ps, 0, leds).1 == leds,
{
    lemma_list_first(m, ps[0], leds);
    let o = packet_outcome(m, ps[0], leds);
    lemma_list_run(o.model, ps, 1, 1, leds, v);
}

/// SysEx parser state machine with its body buffer and pending replies.
pub struct SysExParser {
    state: SysExState,
    buffer: [u8; MIDI_MAX_SYSEX],
    length: usize,
    mystrix: bool,
    replies: Vec<[u8; 4]>,
}

impl View for SysExParser {
    type V = SysExModel;

    closed spec fn view(&self) -> SysExModel {
        SysExModel { state: self.state, data: self.buffer@.take(self.length as int), mystrix: self.mystrix }
    }
}

impl SysExParser {
    /// The parser's internal consistency: a bounded body, empty between messages.
    pub closed spec fn wf(self) -> bool {
        self.length <= MIDI_MAX_SYSEX && model_wf(self@)
    }

    /// A well-formed parser has a well-formed model: a bounded body, empty
    /// between messages, Mystrix states only in Mystrix mode.
    pub proof fn lemma_wf(&self)
        requires
            self.wf(),
        ensures
            model_wf(self@),
    {
    }

    /// Reply packets waiting to be sent, oldest first.
    pub closed spec fn pending(self) -> Seq<[u8; 4]> {
        self.replies@
    }

    fn with_mode(mystrix: bool) -> (p: SysExParser)
        ensures
            p.wf(),
            p@.state == SysExState::Begin,
            p@.data.len() == 0,
            p@.mystrix == mystrix,
            p.pending().len() == 0,
    {
        let p = SysExParser {
            state: SysExState::Begin,
            buffer: [0u8; MIDI_MAX_SYSEX],
            length: 0,
            mystrix,
            replies: Vec::new(),
        };
        assert(p@.data =~= seq![]);
        p
    }

    /// A parser for the MIDI Fighter 64 protocols (FastRGB, identity).
    pub fn new() -> (p: SysExParser)
        ensures
            p.wf(),
            p@ == fresh_model(false),
            p@.state == SysExState::Begin,
            p@.data.len() == 0,
            !p@.mystrix,
            p.pending().len() == 0,
    {
        let p = Self::with_mode(false);
        assert(p@.data =~= Seq::<u8>::empty());
        p
    }

    /// A parser that also speaks the Mystrix LED protocol and identifies as a Mystrix.
    pub fn new_mystrix() -> (p: SysExParser)
        ensures
            p.wf(),
            p@ == fresh_model(true),
            p@.state == SysExState::Begin,
            p@.data.len() == 0,
            p@.mystrix,
            p.pending().len() == 0,
    {
        let p = Self::with_mode(true);
        assert(p@.data =~= Seq::<u8>::empty());
        p
    }

    /// Process a raw 4-byte USB MIDI event packet containing SysEx data.
    /// Returns `true` if the LED state was modified and requires a redraw.
    /// An identity reply is queued for [`SysExParser::take_replies`].
    pub fn process_packet(&mut self, packet: &[u8; 4], host_leds: &mut [Color; TOTAL_LEDS]) -> (modified: bool)
        requires
            old(self).wf(),
        ensures
            final(self).wf(),
            final(self)@ == packet_outcome(old(self)@, packet@, old(host_leds)@).model,
            final(host_leds)@ == packet_outcome(old(self)@, packet@, old(host_leds)@).leds,
            modified == packet_outcome(old(self)@, packet@, old(host_leds)@).modified,
            packets_view(final(self).pending()) == packets_view(old(self).pending()) + sysex_frames(
                packet_outcome(old(self)@, packet@, old(host_leds)@).reply,
            ),
            5 <= packet@[0] & 0x0F <= 7 ==> final(self)@ == fresh_model(old(self)@.mystrix),
    {
        proof {
            if 5 <= packet@[0] & 0x0F <= 7 {
                lemma_end_packet_fresh(old(self)@, packet@, old(host_leds)@);
            }
        }
        let cin = packet[0] & 0x0F;
        let mut modified = false;
        if cin == 0x4 {
            self.handle_3sc(packet);
            proof {
                assert(packets_view(self.replies@) =~= packets_view(old(self).replies@) + sysex_frames(seq![]));
            }
        } else if cin == 0x5 {
            self.handle_end(packet, 1, host_leds, &mut modified);
        } else if cin == 0x6 {
            self.handle_end(packet, 2, host_leds, &mut modified);
        } else if cin == 0x7 {
            self.handle_end(packet, 3, host_leds, &mut modified);
        } else {
            proof {
                assert(packets_view(self.replies@) =~= packets_view(old(self).replies@) + sysex_frames(seq![]));
            }
        }
        modified
    }

    /// Hand out the queued reply packets, oldest first, leaving none queued.
    pub fn take_replies(&mut self) -> (out: Vec<[u8; 4]>)
        requires
            old(self).wf(),
        ensures
            final(self).wf(),
            final(self)@ == old(self)@,
            out@ == old(self).pending(),
            final(self).pending().len() == 0,
    {
        let mut out: Vec<[u8; 4]> = Vec::new();
        std::mem::swap(&mut out, &mut self.replies);
        out
    }

    fn push(&mut self, byte: u8)
        requires
            old(self).wf_len(),
        ensures
            final(self).wf_len(),
            final(self)@ == push_model(old(self)@, byte),
            final(self).replies == old(self).replies,
    {
        if self.length < MIDI_MAX_SYSEX {
            self.buffer[self.length] = byte;
            self.length += 1;
            proof {
                assert(self@.data =~= old(self)@.data.push(byte));
            }
        } else {
            self.state = SysExState::Invalid;
        }
    }

    spec fn wf_len(self) -> bool {
        self.length <= MIDI_MAX_SYSEX
    }

    fn set_state(&mut self, s: SysExState)
        ensures
            final(self)@ == with_state(old(self)@, s),
            final(self).length == old(self).length,
            final(self).replies == old(self).replies,
    {
        self.state = s;
    }

    fn handle_3sc(&mut self, packet: &[u8; 4])
        requires
            old(self).wf(),
        ensures
            final(self).wf(),
            final(self)@ == on_continue(old(self)@, packet@[1], packet@[2], packet@[3]),
            final(self).replies == old(self).replies,
    {
        let d1 = packet[1];
        let d2 = packet[2];
        let d3 = packet[3];
        if self.mystrix {
            match self.state {
                SysExState::Begin => {
                    if d1 == 0xF0 && d2 == 0x00 && d3 == 0x02 {
                        self.length = 0;
                        self.state = SysExState::Mystrix(MystrixState::CheckManufacturer);
                        proof {
                            assert(self@.data =~= seq![]);
                        }
                        return;
                    }
                },
                SysExState::Mystrix(MystrixState::CheckManufacturer) => {
                    if d1 == 0x03 && d2 == 0x4D && d3 == 0x58 {
                        self.set_state(SysExState::Mystrix(MystrixState::Header));
                    } else {
                        self.set_state(SysExState::Invalid);
                    }
                    return;
                },
                SysExState::Mystrix(MystrixState::Header) => {
                    if d1 == 0x5E {
                        self.push(d2);
                        self.push(d3);
                        self.set_state(SysExState::Mystrix(MystrixState::Data));
                    } else {
                        self.set_state(SysExState::Invalid);
                    }
                    return;
                },
                SysExState::Mystrix(MystrixState::Data) => {
                    self.push(d1);
                    self.push(d2);
                    self.push(d3);
                    return;
                },
                _ => {},
            }
        }
        match self.state {
            SysExState::Begin => {
                self.length = 0;
                proof {
                    assert(self@.data =~= seq![]);
                }
                if d1 == 0xF0 && d2 == 0x7E && d3 == 0x7F {
                    self.set_state(SysExState::NonRealtime);
                } else if d1 == 0xF0 && d2 == 0x00 && d3 == 0x01 {
                    self.set_state(SysExState::CheckMid);
                } else if d1 == 0xF0 && d2 == 0x6F {
                    self.push(d3);
                    self.set_state(SysExState::List6F);
                } else if d1 == 0xF0 && d2 == 0x5F {
                    self.push(d3);
                    self.set_state(SysExState::Compressed5F);
                } else {
                    self.set_state(SysExState::Invalid);
                }
            },
            SysExState::CheckMid => {
                if d1 == 0x79 {
                    self.push(d2);
                    self.push(d3);
                    self.set_state(SysExState::Djtt);
                } else {
                    self.set_state(SysExState::Invalid);
                }
            },
            SysExState::Invalid => {},
            _ => {
                self.push(d1);
                self.push(d2);
                self.push(d3);
            },
        }
    }

    fn handle_end(
        &mut self,
        packet: &[u8; 4],
        valid_bytes: usize,
        host_leds: &mut [Color; TOTAL_LEDS],
        modified: &mut bool,
    )
        requires
            old(self).wf(),
            1 <= valid_bytes <= 3,
            packet@[0] & 0x0F == valid_bytes + 4,
            !*old(modified),
        ensures
            final(self).wf(),
            final(self)@ == packet_outcome(old(self)@, packet@, old(host_leds)@).model,
            final(host_leds)@ == packet_outcome(old(self)@, packet@, old(host_leds)@).leds,
            *final(modified) == packet_outcome(old(self)@, packet@, old(host_leds)@).modified,
            packets_view(final(self).replies@) == packets_view(old(self).replies@) + sysex_frames(
                packet_outcome(old(self)@, packet@, old(host_leds)@).reply,
            ),
    {
        if self.state == SysExState::Begin {
            // Single-packet shorthand: F0 6E F7 clears all LEDs
            if valid_bytes == 3 && packet[1] == 0xF0 && packet[2] == 0x6E {
                fastrgb_clear(host_leds);
                *modified = true;
                proof {
                    assert(host_leds@ =~= cleared(old(host_leds)@));
                }
            }
            proof {
                assert(packets_view(self.replies@) =~= packets_view(old(self).replies@) + sysex_frames(seq![]));
            }
            return;
        }

        if self.mystrix && self.state == SysExState::Mystrix(MystrixState::Header) {
            if packet[1] == 0x5E {
                if valid_bytes >= 2 {
                    self.push(packet[2]);
                }
                if valid_bytes == 3 {
                    self.push(packet[3]);
                }
                self.set_state(SysExState::Mystrix(MystrixState::Data));
            } else {
                self.set_state(SysExState::Invalid);
            }
        } else {
            match self.state {
                SysExState::CheckMid => {
                    if packet[1] == 0x79 {
                        if valid_bytes >= 2 {
                            self.push(packet[2]);
                        }
                        if valid_bytes == 3 {
                            self.push(packet[3]);
                        }
                        self.set_state(SysExState::Djtt);
                    } else {
                        self.set_state(SysExState::Invalid);
                    }
                },
                SysExState::Invalid => {},
                _ => {
                    self.push(packet[1]);
                    if valid_bytes >= 2 {
                        self.push(packet[2]);
                    }
                    if valid_bytes == 3 {
                        self.push(packet[3]);
                    }
                },
            }
        }
        assert(self@ == on_end(old(self)@, packet@, valid_bytes as int));

        if self.state != SysExState::Invalid {
            self.dispatch(host_leds, modified);
        } else {
            proof {
                assert(packets_view(self.replies@) =~= packets_view(old(self).replies@) + sysex_frames(seq![]));
            }
        }

        self.state = SysExState::Begin;
        self.length = 0;
        proof {
            assert(self@.data =~= seq![]);
        }
    }

    fn dispatch(&mut self, host_leds: &mut [Color; TOTAL_LEDS], modified: &mut bool)
        requires
            old(self).wf_len(),
            !*old(modified),
        ensures
            final(self).state == old(self).state,
            final(self).length == old(self).length,
            final(self).mystrix == old(self).mystrix,
            final(host_leds)@ == dispatch_effect(old(self)@, old(host_leds)@).0,
            *final(modified) == dispatch_effect(old(self)@, old(host_leds)@).1,
            packets_view(final(self).replies@) == packets_view(old(self).replies@) + sysex_frames(
                dispatch_effect(old(self)@, old(host_leds)@).2,
            ),
    {
        let plen = if self.length == 0 {
            0
        } else {
            self.length - 1
        };
        let payload = vstd::slice::slice_subrange(self.buffer.as_slice(), 0, plen);
        assert(payload@ =~= body_of(self@));
        let ghost no_reply = packets_view(self.replies@) =~= packets_view(old(self).replies@)
            + sysex_frames(seq![]);
        match self.state {
            SysExState::NonRealtime => {
                if plen >= 2 && payload[0] == 0x06 && payload[1] == 0x01 {
                    let reply = if self.mystrix {
                        sysex_packets(MYSTRIX_IDENTITY.as_slice())
                    } else {
                        sysex_packets(DJTT_IDENTITY.as_slice())
                    };
                    self.queue(reply);
                } else {
                    assert(no_reply);
                }
            },
            SysExState::List6F => {
                fastrgb_list(payload, host_leds);
                *modified = true;
                assert(no_reply);
            },
            SysExState::Compressed5F => {
                fastrgb_decompress(payload, host_leds);
                *modified = true;
                assert(no_reply);
            },
            SysExState::Mystrix(MystrixState::Data) => {
                apply_leds(payload, host_leds, modified);
                assert(no_reply);
            },
            _ => {
                assert(no_reply);
            },
        }
    }

    fn queue(&mut self, packets: Vec<[u8; 4]>)
        ensures
            final(self).state == old(self).state,
            final(self).length == old(self).length,
            final(self).mystrix == old(self).mystrix,
            final(self).buffer == old(self).buffer,
            packets_view(final(self).replies@) == packets_view(old(self).replies@) + packets_view(packets@),
    {
        let mut i: usize = 0;
        let ghost start = self.replies@;
        while i < packets.len()
            invariant
                i <= packets@.len(),
                self.replies@ == start + packets@.take(i as int),
                self.state == old(self).state,
                self.length == old(self).length,
                self.mystrix == old(self).mystrix,
                self.buffer == old(self).buffer,
            decreases packets@.len() - i,
        {
            self.replies.push(packets[i]);
            proof {
                assert(packets@.take(i + 1) =~= packets@.take(i as int).push(packets@[i as int]));
            }
            i += 1;
        }
        proof {
            assert(packets@.take(i as int) =~= packets@);
            assert(packets_view(self.replies@) =~= packets_view(start) + packets_view(packets@));
        }
    }
}

} // verus!
