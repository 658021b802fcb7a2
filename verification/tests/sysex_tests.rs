use rf64::fastled::{fastrgb_clear, fastrgb_decompress, fastrgb_list};
use rf64::led::{Color, TOTAL_LEDS};
use rf64::midi::mystrix::apply_leds;
use rf64::midi::sysex::{SysExParser, DJTT_IDENTITY, MYSTRIX_IDENTITY};
use rf64::usb_midi::{sysex_packets, PacketReader};

fn payloads(packets: &[[u8; 4]]) -> Vec<u8> {
    let mut out = Vec::new();
    for p in packets {
        let n = match p[0] {
            0x5 => 1,
            0x6 => 2,
            _ => 3,
        };
        out.extend_from_slice(&p[1..1 + n]);
    }
    out
}

#[test]
fn framing_identity_request() {
    let pk = sysex_packets(&[0xF0, 0x7E, 0x7F, 0x06, 0x01, 0xF7]);
    assert_eq!(pk, vec![[0x4, 0xF0, 0x7E, 0x7F], [0x7, 0x06, 0x01, 0xF7]]);
}

#[test]
fn framing_short_tails() {
    assert_eq!(sysex_packets(&[0xF7]), vec![[0x5, 0xF7, 0, 0]]);
    assert_eq!(sysex_packets(&[0xF0, 0xF7]), vec![[0x6, 0xF0, 0xF7, 0]]);
    // a complete 3-byte message is a single end packet
    assert_eq!(sysex_packets(&[0xF0, 0x01, 0xF7]), vec![[0x7, 0xF0, 0x01, 0xF7]]);
    // an unfinished 3-byte group only starts the message
    assert_eq!(sysex_packets(&[0xF0, 0x01, 0x02]), vec![[0x4, 0xF0, 0x01, 0x02]]);
    assert!(sysex_packets(&[]).is_empty());
}

#[test]
fn framing_loses_nothing() {
    for len in 0..40usize {
        let data: Vec<u8> = (0..len as u8).collect();
        let pk = sysex_packets(&data);
        assert_eq!(pk.len(), (len + 2) / 3);
        assert_eq!(payloads(&pk), data);
    }
    let pk = sysex_packets(&DJTT_IDENTITY);
    assert_eq!(pk.len(), 6);
    assert_eq!(pk[5], [0x6, 0x20, 0xF7, 0]);
}

fn feed(parser: &mut SysExParser, msg: &[u8], leds: &mut [Color; TOTAL_LEDS]) -> bool {
    let mut modified = false;
    for p in sysex_packets(msg) {
        modified |= parser.process_packet(&p, leds);
    }
    modified
}

#[test]
fn identity_request_is_answered() {
    let mut parser = SysExParser::new();
    let mut leds = [Color::black(); TOTAL_LEDS];
    let modified = feed(&mut parser, &[0xF0, 0x7E, 0x7F, 0x06, 0x01, 0xF7], &mut leds);
    assert!(!modified);
    assert_eq!(parser.take_replies(), sysex_packets(&DJTT_IDENTITY));
    assert!(parser.take_replies().is_empty());
}

#[test]
fn mystrix_identity_in_mystrix_mode() {
    let mut parser = SysExParser::new_mystrix();
    let mut leds = [Color::black(); TOTAL_LEDS];
    feed(&mut parser, &[0xF0, 0x7E, 0x7F, 0x06, 0x01, 0xF7], &mut leds);
    assert_eq!(parser.take_replies(), sysex_packets(&MYSTRIX_IDENTITY));
}

#[test]
fn fastrgb_list_message() {
    let mut parser = SysExParser::new();
    let mut leds = [Color::black(); TOTAL_LEDS];
    let modified = feed(&mut parser, &[0xF0, 0x6F, 0x05, 0x3F, 0x00, 0x00, 0xF7], &mut leds);
    assert!(modified);
    assert_eq!(leds[10], Color::new(255, 0, 0));
    assert_eq!(leds[11], Color::new(255, 0, 0));
    assert_eq!(leds[12], Color::black());
}

#[test]
fn clear_shorthand_blanks_everything() {
    let mut parser = SysExParser::new();
    let mut leds = [Color::white(); TOTAL_LEDS];
    assert!(parser.process_packet(&[0x7, 0xF0, 0x6E, 0xF7], &mut leds));
    assert!(leds.iter().all(|c| *c == Color::black()));
}

#[test]
fn unknown_message_is_ignored() {
    let mut parser = SysExParser::new();
    let mut leds = [Color::black(); TOTAL_LEDS];
    assert!(!feed(&mut parser, &[0xF0, 0x41, 0x10, 0x42, 0x12, 0xF7], &mut leds));
    assert!(parser.take_replies().is_empty());
    // the parser is ready for the next message
    assert!(feed(&mut parser, &[0xF0, 0x6F, 0x00, 0x01, 0x02, 0x03, 0xF7], &mut leds));
    assert_eq!(leds[0], Color::new(4, 8, 12));
}

#[test]
fn overlong_message_is_dropped() {
    let mut parser = SysExParser::new();
    let mut leds = [Color::black(); TOTAL_LEDS];
    let mut msg = vec![0xF0, 0x6F];
    for _ in 0..60 {
        msg.extend_from_slice(&[0x01, 0x3F, 0x3F, 0x3F]);
    }
    msg.push(0xF7);
    assert!(!feed(&mut parser, &msg, &mut leds));
    assert_eq!(leds[2], Color::black());
}

#[test]
fn fastrgb_list_direct() {
    let mut leds = [Color::black(); TOTAL_LEDS];
    fastrgb_list(&[0x41, 0x3F, 0x3F, 0x3F, 0x02, 0x01, 0x00, 0x00, 0x09], &mut leds);
    // pad 0x41 & 0x3F = 1
    assert_eq!(leds[2], Color::white());
    assert_eq!(leds[4], Color::new(4, 0, 0));
    fastrgb_clear(&mut leds);
    assert!(leds.iter().all(|c| *c == Color::black()));
}

#[test]
fn fastrgb_compressed_single_pads() {
    let mut leds = [Color::black(); TOTAL_LEDS];
    // red, count 2 packed in the green byte's 0x40 bit; targets pads 1 and 2
    fastrgb_decompress(&[0x3F, 0x40, 0x00, 0x01, 0x02], &mut leds);
    assert_eq!(leds[2], Color::new(255, 0, 0));
    assert_eq!(leds[4], Color::new(255, 0, 0));
    assert_eq!(leds[0], Color::black());
    assert_eq!(leds[6], Color::black());
}

#[test]
fn fastrgb_compressed_row_and_count_byte() {
    let mut leds = [Color::black(); TOTAL_LEDS];
    // no packed count: explicit count byte 1, row target 0x61 (pads 4..8 and 36..40)
    fastrgb_decompress(&[0x00, 0x3F, 0x00, 0x01, 0x61], &mut leds);
    for pad in [4usize, 5, 6, 7, 36, 37, 38, 39] {
        assert_eq!(leds[2 * pad], Color::new(0, 255, 0));
    }
    assert_eq!(leds[2 * 8], Color::black());
}

#[test]
fn mystrix_chunks() {
    let mut leds = [Color::black(); TOTAL_LEDS];
    let mut modified = false;
    // XY 11 = row 0, col 0 = button 0; 99 addresses nothing
    apply_leds(&[11, 0x3F, 0, 0, 99, 0x3F, 0x3F, 0x3F], &mut leds, &mut modified);
    assert!(modified);
    assert_eq!(leds[0], Color::new(255, 0, 0));
    let mut m2 = false;
    apply_leds(&[99, 1, 1, 1], &mut leds, &mut m2);
    assert!(!m2);
}

#[test]
fn packet_reader_hands_out_and_puts_back() {
    let mut rd = PacketReader::new();
    assert_eq!(rd.take_buffered(), None);
    let mut data = [0u8; 64];
    for (i, b) in data.iter_mut().enumerate() {
        *b = i as u8;
    }
    assert_eq!(rd.load(data, 8), Some([0, 1, 2, 3]));
    assert_eq!(rd.take_buffered(), Some([4, 5, 6, 7]));
    assert_eq!(rd.take_buffered(), None);
    rd.unread();
    assert_eq!(rd.take_buffered(), Some([4, 5, 6, 7]));
    rd.unread();
    rd.unread();
    assert_eq!(rd.take_buffered(), Some([0, 1, 2, 3]));
    // a short transfer empties the buffer
    assert_eq!(rd.load(data, 3), None);
    assert_eq!(rd.take_buffered(), None);
    rd.unread();
    assert_eq!(rd.take_buffered(), None);
}

#[test]
fn compressed_message_through_the_parser() {
    let body = [0x3F, 0x40, 0x00, 0x01, 0x02];
    let mut msg = vec![0xF0, 0x5F];
    msg.extend_from_slice(&body);
    msg.push(0xF7);
    let mut parser = SysExParser::new();
    let mut via_parser = [Color::black(); TOTAL_LEDS];
    assert!(feed(&mut parser, &msg, &mut via_parser));
    let mut direct = [Color::black(); TOTAL_LEDS];
    fastrgb_decompress(&body, &mut direct);
    assert_eq!(via_parser, direct);
    assert_eq!(via_parser[2], Color::new(255, 0, 0));
}

#[test]
fn three_byte_messages_are_complete() {
    // the clear shorthand F0 6E F7 travels as one end packet and clears the grid
    let mut parser = SysExParser::new();
    let mut leds = [Color::white(); TOTAL_LEDS];
    assert!(feed(&mut parser, &[0xF0, 0x6E, 0xF7], &mut leds));
    assert!(leds.iter().all(|c| *c == Color::black()));
    // an empty FastRGB list ends at once and changes nothing; the parser is ready again
    let mut leds = [Color::white(); TOTAL_LEDS];
    assert!(!feed(&mut parser, &[0xF0, 0x6F, 0xF7], &mut leds));
    assert!(feed(&mut parser, &[0xF0, 0x6F, 0x00, 0x01, 0x02, 0x03, 0xF7], &mut leds));
    assert_eq!(leds[0], Color::new(4, 8, 12));
    assert_eq!(leds[2], Color::white());
}

#[test]
fn every_complete_message_ends_with_an_end_packet() {
    for len in 1..40usize {
        let mut data: Vec<u8> = (0..len as u8).collect();
        data[len - 1] = 0xF7;
        let pk = sysex_packets(&data);
        for p in &pk[..pk.len() - 1] {
            assert_eq!(p[0], 0x4);
        }
        let tail = len - 3 * (pk.len() - 1);
        assert_eq!(pk[pk.len() - 1][0] as usize, 4 + tail);
    }
}

#[test]
fn longest_list_that_fits_is_applied_one_more_is_dropped() {
    // body of 191 bytes plus the closing F7 fills the 192-byte buffer exactly
    let mut body = vec![0x01u8, 0x3F, 0x00, 0x00];
    body.resize(191, 0x05);
    let mut msg = vec![0xF0, 0x6F];
    msg.extend_from_slice(&body);
    msg.push(0xF7);
    let mut parser = SysExParser::new();
    let mut leds = [Color::black(); TOTAL_LEDS];
    assert!(feed(&mut parser, &msg, &mut leds));
    assert_eq!(leds[2], Color::new(255, 0, 0));
    // one byte more and the whole message is dropped
    let mut msg2 = vec![0xF0, 0x6F];
    msg2.extend_from_slice(&body);
    msg2.push(0x05);
    msg2.push(0xF7);
    let mut leds2 = [Color::black(); TOTAL_LEDS];
    assert!(!feed(&mut parser, &msg2, &mut leds2));
    assert!(leds2.iter().all(|c| *c == Color::black()));
}
