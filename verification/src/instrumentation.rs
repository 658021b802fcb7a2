//! Low-overhead runtime measurements and pluggable telemetry transports.
//!
//! The measurement core only stores counters; a transport is handed one
//! interval summary about once per second. The MIDI transport sends it as a
//! 7-bit-safe SysEx message:
//! `F0 7D 'R' 'F' version sequence frames render_ticks_total render_ticks_max
//! midi_packets midi_batches max_batch_packets max_batch_ticks checksum F7`,
//! 16-bit counters as two little-endian 7-bit chunks, maxima as 7 bits, and a
//! 7-bit additive checksum over the bytes between `F0` and the checksum.

use vstd::prelude::*;

use crate::usb_midi::{packets_view, sysex_frames, sysex_packets};

verus! {

/// One second at 64 µs per Timer1 tick.
pub const REPORT_INTERVAL_TICKS: u16 = 15_625;

/// Length of the telemetry SysEx message.
pub const REPORT_LEN: usize = 20;

/// A compact interval summary.
#[derive(Clone, Copy, Debug, PartialEq, Eq, Structural)]
pub struct Report {
    pub sequence: u8,
    pub frames: u16,
    pub render_ticks_total: u16,
    pub render_ticks_max: u8,
    pub midi_packets: u16,
    pub midi_batches: u16,
    pub midi_batch_packets_max: u16,
    pub midi_batch_ticks_max: u8,
}

/// Pluggable output for interval reports. Implementations should avoid doing
/// work while LED data is being transmitted.
pub trait ReportTransport {
    /// The reports handed over so far, oldest first.
    spec fn sent(&self) -> Seq<Report>;

    /// Hand over one report: it is appended to [`ReportTransport::sent`].
    fn send(&mut self, report: &Report)
        ensures
            final(self).sent() == old(self).sent().push(*report),
    ;
}

/// Typed events emitted by the firmware.
#[derive(Clone, Copy, Debug, PartialEq, Eq, Structural)]
pub enum TraceEvent {
    RenderFrame { duration_ticks: u16 },
    MidiBatch { packet_count: u16, duration_ticks: u16 },
}

/// No-allocation event sink.
pub trait TraceSink {
    fn event(&mut self, event: TraceEvent);
}

/// Low 7 bits.
pub open spec fn low7(v: int) -> u8 {
    (v % 128) as u8
}

/// Sum of a byte sequence.
pub open spec fn byte_sum(s: Seq<u8>) -> int
    decreases s.len(),
{
    if s.len() == 0 {
        0
    } else {
        byte_sum(s.drop_last()) + s.last()
    }
}

/// The bytes between `F0` and the checksum.
pub open spec fn report_body(r: Report) -> Seq<u8> {
    seq![
        0x7Du8,
        0x52,
        0x46,
        0x01,
        low7(r.sequence as int),
        low7(r.frames as int),
        low7(r.frames as int / 128),
        low7(r.render_ticks_total as int),
        low7(r.render_ticks_total as int / 128),
        low7(r.render_ticks_max as int),
        low7(r.midi_packets as int),
        low7(r.midi_packets as int / 128),
        low7(r.midi_batches as int),
        low7(r.midi_batches as int / 128),
        low7(r.midi_batch_packets_max as int),
        low7(r.midi_batch_packets_max as int / 128),
        low7(r.midi_batch_ticks_max as int),
    ]
}

/// The telemetry SysEx message of a report.
pub open spec fn report_message(r: Report) -> Seq<u8> {
    seq![0xF0u8] + report_body(r) + seq![low7(byte_sum(report_body(r))), 0xF7u8]
}

/// Store `value` as two little-endian 7-bit chunks at `at`, `at + 1`.
fn put_u14(bytes: &mut [u8; REPORT_LEN], at: usize, value: u16)
    requires
        at + 1 < REPORT_LEN,
    ensures
        final(bytes)@ == old(bytes)@.update(at as int, low7(value as int)).update(
            at + 1,
            low7(value as int / 128),
        ),
{
    let lo = value as u8 & 0x7F;
    let hi = (value >> 7u16) as u8 & 0x7F;
    assert(value as u8 & 0x7F == (value % 128) as u8) by (bit_vector);
    assert((value >> 7u16) as u8 & 0x7F == ((value / 128) % 128) as u8) by (bit_vector);
    bytes[at] = lo;
    bytes[at + 1] = hi;
}

fn low7_u8(v: u8) -> (w: u8)
    ensures
        w == low7(v as int),
{
    assert(v & 0x7F == v % 128) by (bit_vector);
    v & 0x7F
}

/// Encode a report as its 20-byte SysEx message.
pub fn report_bytes(report: &Report) -> (bytes: [u8; REPORT_LEN])
    ensures
        bytes@ == report_message(*report),
{
    let mut bytes = [0u8; REPORT_LEN];
    bytes[0] = 0xF0;
    bytes[1] = 0x7D; // educational / non-commercial manufacturer ID
    bytes[2] = 0x52; // 'R'
    bytes[3] = 0x46; // 'F'
    bytes[4] = 0x01; // telemetry protocol version
    bytes[5] = low7_u8(report.sequence);
    put_u14(&mut bytes, 6, report.frames);
    put_u14(&mut bytes, 8, report.render_ticks_total);
    bytes[10] = low7_u8(report.render_ticks_max);
    put_u14(&mut bytes, 11, report.midi_packets);
    put_u14(&mut bytes, 13, report.midi_batches);
    put_u14(&mut bytes, 15, report.midi_batch_packets_max);
    bytes[17] = low7_u8(report.midi_batch_ticks_max);
    let ghost body = report_body(*report);
    assert(bytes@.subrange(1, 18) =~= body);
    let mut sum: u8 = 0;
    let mut i: usize = 1;
    while i < 18
        invariant
            1 <= i <= 18,
            bytes@.subrange(1, 18) == body,
            sum as int == byte_sum(body.take(i - 1)) % 256,
        decreases 18 - i,
    {
        proof {
            assert(body.take(i as int).drop_last() =~= body.take(i - 1));
            vstd::arithmetic::div_mod::lemma_add_mod_noop(
                byte_sum(body.take(i - 1)),
                bytes@[i as int] as int,
                256,
            );
            vstd::arithmetic::div_mod::lemma_small_mod(bytes@[i as int] as nat, 256);
        }
        sum = sum.wrapping_add(bytes[i]);
        i += 1;
    }
    proof {
        assert(body.take(17) =~= body);
        vstd::arithmetic::div_mod::lemma_mod_mod(byte_sum(body), 128, 2);
    }
    bytes[18] = low7_u8(sum);
    bytes[19] = 0xF7;
    assert(bytes@ =~= report_message(*report));
    bytes
}

/// MIDI SysEx transport: each report becomes the USB MIDI packets of its
/// telemetry message, queued in `outbox` for the USB layer to send.
pub struct MidiSysExTransport {
    pub outbox: Vec<[u8; 4]>,
    /// The reports queued so far.
    pub log: Ghost<Seq<Report>>,
}

impl MidiSysExTransport {
    /// A transport with nothing queued.
    pub fn new() -> (t: MidiSysExTransport)
        ensures
            t.outbox@.len() == 0,
            t.sent() == Seq::<Report>::empty(),
    {
        MidiSysExTransport { outbox: Vec::new(), log: Ghost(Seq::empty()) }
    }
}

impl ReportTransport for MidiSysExTransport {
    open spec fn sent(&self) -> Seq<Report> {
        self.log@
    }

    fn send(&mut self, report: &Report)
        ensures
            packets_view(final(self).outbox@) == packets_view(old(self).outbox@) + sysex_frames(
                report_message(*report),
            ),
    {
        let bytes = report_bytes(report);
        let mut packets = sysex_packets(bytes.as_slice());
        let ghost start = self.outbox@;
        let ghost added = packets@;
        self.outbox.append(&mut packets);
        self.log = Ghost(self.log@.push(*report));
        proof {
            assert(packets_view(self.outbox@) =~= packets_view(start) + packets_view(added));
        }
    }
}

/// Collects a one-second measurement window. Durations are in 64 µs ticks.
pub struct Metrics {
    pub sequence: u8,
    pub last_report_tick: u16,
    pub clock_started: bool,
    pub frames: u16,
    pub render_ticks_total: u16,
    pub render_ticks_max: u8,
    pub midi_packets: u16,
    pub midi_batches: u16,
    pub midi_batch_packets_max: u16,
    pub midi_batch_ticks_max: u8,
}

/// `a + b`, saturating at `u16::MAX`.
pub open spec fn sat_add(a: u16, b: u16) -> u16 {
    if a + b > u16::MAX {
        u16::MAX
    } else {
        (a + b) as u16
    }
}

/// A duration clamped to 127 ticks.
pub open spec fn clamp127(d: u16) -> u8 {
    if d < 127 {
        d as u8
    } else {
        127
    }
}

pub open spec fn max_u8(a: u8, b: u8) -> u8 {
    if a >= b {
        a
    } else {
        b
    }
}

pub open spec fn max_u16(a: u16, b: u16) -> u16 {
    if a >= b {
        a
    } else {
        b
    }
}

/// The counters of the current window as a report.
pub open spec fn window_report(m: Metrics) -> Report {
    Report {
        sequence: m.sequence,
        frames: m.frames,
        render_ticks_total: m.render_ticks_total,
        render_ticks_max: m.render_ticks_max,
        midi_packets: m.midi_packets,
        midi_batches: m.midi_batches,
        midi_batch_packets_max: m.midi_batch_packets_max,
        midi_batch_ticks_max: m.midi_batch_ticks_max,
    }
}

/// All window counters are zero.
pub open spec fn counters_cleared(m: Metrics) -> bool {
    &&& m.frames == 0
    &&& m.render_ticks_total == 0
    &&& m.render_ticks_max == 0
    &&& m.midi_packets == 0
    &&& m.midi_batches == 0
    &&& m.midi_batch_packets_max == 0
    &&& m.midi_batch_ticks_max == 0
}

/// Same window counters.
pub open spec fn same_counters(a: Metrics, b: Metrics) -> bool {
    window_report(a) == window_report(b)
}

impl Metrics {
    pub fn new() -> (m: Metrics)
        ensures
            m.sequence == 0,
            m.last_report_tick == 0,
            !m.clock_started,
            counters_cleared(m),
    {
        Metrics {
            sequence: 0,
            last_report_tick: 0,
            clock_started: false,
            frames: 0,
            render_ticks_total: 0,
            render_ticks_max: 0,
            midi_packets: 0,
            midi_batches: 0,
            midi_batch_packets_max: 0,
            midi_batch_ticks_max: 0,
        }
    }

    /// Close the window if a report is due at `now_tick`: the first call only
    /// starts the clock; afterwards, once [`REPORT_INTERVAL_TICKS`] have
    /// elapsed, the window's report is handed to `transport`, the sequence
    /// number advances (modulo 128) and the counters restart. Returns the
    /// report handed over, if any.
    pub fn report_if_due<T: ReportTransport>(&mut self, now_tick: u16, transport: &mut T) -> (sent:
        Option<Report>)
        ensures
            !old(self).clock_started ==> {
                &&& sent is None
                &&& *final(transport) == *old(transport)
                &&& final(self).clock_started
                &&& final(self).last_report_tick == now_tick
                &&& final(self).sequence == old(self).sequence
                &&& same_counters(*final(self), *old(self))
            },
            old(self).clock_started && vstd::wrapping::u16_specs::wrapping_sub(
                now_tick,
                old(self).last_report_tick,
            ) < REPORT_INTERVAL_TICKS ==> {
                &&& sent is None
                &&& *final(self) == *old(self)
                &&& *final(transport) == *old(transport)
            },
            old(self).clock_started && vstd::wrapping::u16_specs::wrapping_sub(
                now_tick,
                old(self).last_report_tick,
            ) >= REPORT_INTERVAL_TICKS ==> {
                &&& sent == Some(window_report(*old(self)))
                &&& final(transport).sent() == old(transport).sent().push(window_report(*old(self)))
                &&& final(self).clock_started
                &&& final(self).sequence == (old(self).sequence as int + 1) % 128
                &&& final(self).last_report_tick == now_tick
                &&& counters_cleared(*final(self))
            },
    {
        if !self.clock_started {
            self.last_report_tick = now_tick;
            self.clock_started = true;
            return None;
        }
        if now_tick.wrapping_sub(self.last_report_tick) < REPORT_INTERVAL_TICKS {
            return None;
        }
        let report = Report {
            sequence: self.sequence,
            frames: self.frames,
            render_ticks_total: self.render_ticks_total,
            render_ticks_max: self.render_ticks_max,
            midi_packets: self.midi_packets,
            midi_batches: self.midi_batches,
            midi_batch_packets_max: self.midi_batch_packets_max,
            midi_batch_ticks_max: self.midi_batch_ticks_max,
        };
        transport.send(&report);

        let next = self.sequence.wrapping_add(1) & 0x7F;
        proof {
            let w = vstd::wrapping::u8_specs::wrapping_add(self.sequence, 1);
            assert(w & 0x7F == w % 128) by (bit_vector);
        }
        self.sequence = next;
        self.last_report_tick = now_tick;
        self.frames = 0;
        self.render_ticks_total = 0;
        self.render_ticks_max = 0;
        self.midi_packets = 0;
        self.midi_batches = 0;
        self.midi_batch_packets_max = 0;
        self.midi_batch_ticks_max = 0;
        Some(report)
    }
}

impl TraceSink for Metrics {
    /// Account one event: a rendered frame adds to the frame count and
    /// render time; a MIDI batch to the packet and batch counts. Sums
    /// saturate; maxima of durations are clamped to 127 ticks.
    fn event(&mut self, event: TraceEvent)
        ensures
            final(self).sequence == old(self).sequence,
            final(self).last_report_tick == old(self).last_report_tick,
            final(self).clock_started == old(self).clock_started,
            match event {
                TraceEvent::RenderFrame { duration_ticks } => {
                    &&& final(self).frames == sat_add(old(self).frames, 1)
                    &&& final(self).render_ticks_total == sat_add(
                        old(self).render_ticks_total,
                        duration_ticks,
                    )
                    &&& final(self).render_ticks_max == max_u8(
                        old(self).render_ticks_max,
                        clamp127(duration_ticks),
                    )
                    &&& final(self).midi_packets == old(self).midi_packets
                    &&& final(self).midi_batches == old(self).midi_batches
                    &&& final(self).midi_batch_packets_max == old(self).midi_batch_packets_max
                    &&& final(self).midi_batch_ticks_max == old(self).midi_batch_ticks_max
                },
                TraceEvent::MidiBatch { packet_count, duration_ticks } => {
                    &&& final(self).frames == old(self).frames
                    &&& final(self).render_ticks_total == old(self).render_ticks_total
                    &&& final(self).render_ticks_max == old(self).render_ticks_max
                    &&& final(self).midi_packets == sat_add(old(self).midi_packets, packet_count)
                    &&& final(self).midi_batches == sat_add(old(self).midi_batches, 1)
                    &&& final(self).midi_batch_packets_max == max_u16(
                        old(self).midi_batch_packets_max,
                        packet_count,
                    )
                    &&& final(self).midi_batch_ticks_max == max_u8(
                        old(self).midi_batch_ticks_max,
                        clamp127(duration_ticks),
                    )
                },
            },
    {
        match event {
            TraceEvent::RenderFrame { duration_ticks } => {
                self.frames = self.frames.saturating_add(1);
                self.render_ticks_total = self.render_ticks_total.saturating_add(duration_ticks);
                let d = if duration_ticks < 127 {
                    duration_ticks as u8
                } else {
                    127u8
                };
                if d > self.render_ticks_max {
                    self.render_ticks_max = d;
                }
            },
            TraceEvent::MidiBatch { packet_count, duration_ticks } => {
                self.midi_packets = self.midi_packets.saturating_add(packet_count);
                self.midi_batches = self.midi_batches.saturating_add(1);
                if packet_count > self.midi_batch_packets_max {
                    self.midi_batch_packets_max = packet_count;
                }
                let d = if duration_ticks < 127 {
                    duration_ticks as u8
                } else {
                    127u8
                };
                if d > self.midi_batch_ticks_max {
                    self.midi_batch_ticks_max = d;
                }
            },
        }
    }
}

} // verus!
