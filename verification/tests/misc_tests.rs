use rf64::instrumentation::{report_bytes, Metrics, MidiSysExTransport, Report, TraceEvent, TraceSink};
use rf64::palette::{palette_color, PALETTE_PEAK};
use rf64::rng::{mix_entropy, next_rand};
use rf64::usb_midi::sysex_packets;

#[test]
fn lcg_step() {
    assert_eq!(next_rand(0), 13849);
    assert_eq!(next_rand(0xACE1), 0xBECE);
    assert_eq!(next_rand(1), 25173 + 13849);
}

#[test]
fn lcg_has_full_period() {
    let mut s = 0u16;
    let mut n = 0u32;
    loop {
        s = next_rand(s);
        n += 1;
        if s == 0 {
            break;
        }
    }
    assert_eq!(n, 65536);
}

#[test]
fn entropy_mixing() {
    assert_eq!(mix_entropy(0x1234, 0xABCD), 0x234D);
    assert_eq!(mix_entropy(0xF000, 0x0010), 0x0000);
}

#[test]
fn palette_peaks_at_48() {
    let mut max = 0u8;
    for v in 0..128u8 {
        let c = palette_color(v);
        max = max.max(c.r).max(c.g).max(c.b);
    }
    assert_eq!(max, PALETTE_PEAK);
}

fn sample_report() -> Report {
    Report {
        sequence: 3,
        frames: 300,
        render_ticks_total: 9000,
        render_ticks_max: 40,
        midi_packets: 200,
        midi_batches: 20,
        midi_batch_packets_max: 17,
        midi_batch_ticks_max: 9,
    }
}

#[test]
fn report_encoding_and_checksum() {
    let bytes = report_bytes(&sample_report());
    assert_eq!(bytes[0], 0xF0);
    assert_eq!(&bytes[1..5], &[0x7D, 0x52, 0x46, 0x01]);
    assert_eq!(bytes[5], 3);
    // 300 = 2 * 128 + 44
    assert_eq!(&bytes[6..8], &[44, 2]);
    let sum: u32 = bytes[1..18].iter().map(|b| *b as u32).sum();
    assert_eq!(bytes[18] as u32, sum % 128);
    assert_eq!(bytes[19], 0xF7);
    assert!(bytes[1..19].iter().all(|b| *b < 0x80));
}

#[test]
fn metrics_report_once_per_interval() {
    let mut m = Metrics::new();
    let mut t = MidiSysExTransport::new();
    assert!(m.report_if_due(100, &mut t).is_none());
    m.event(TraceEvent::RenderFrame { duration_ticks: 200 });
    m.event(TraceEvent::MidiBatch { packet_count: 5, duration_ticks: 3 });
    assert!(m.report_if_due(100 + 15_624, &mut t).is_none());
    let r = m.report_if_due(100 + 15_625, &mut t).unwrap();
    assert_eq!(r.frames, 1);
    assert_eq!(r.render_ticks_total, 200);
    assert_eq!(r.render_ticks_max, 127);
    assert_eq!(r.midi_packets, 5);
    assert_eq!(r.midi_batches, 1);
    assert_eq!(t.outbox, sysex_packets(&report_bytes(&r)));
    assert_eq!(m.sequence, 1);
    assert_eq!(m.frames, 0);
}

#[test]
fn metrics_saturate() {
    let mut m = Metrics::new();
    for _ in 0..3 {
        m.event(TraceEvent::MidiBatch { packet_count: 30_000, duration_ticks: 1 });
    }
    assert_eq!(m.midi_packets, u16::MAX);
    assert_eq!(m.midi_batch_packets_max, 30_000);
}

#[test]
fn lcg_is_a_permutation() {
    let mut seen = vec![false; 65536];
    for s in 0..=u16::MAX {
        let n = next_rand(s) as usize;
        assert!(!seen[n]);
        seen[n] = true;
    }
}
