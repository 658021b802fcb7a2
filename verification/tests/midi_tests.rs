use rf64::midi::io::{after_send_attempt, SendStep, SEND_ATTEMPTS};
use rf64::buttons::ButtonMask;
use rf64::led::{Color, TOTAL_LEDS};
use rf64::midi::io::{
    button_event_packet, is_supported_packet, send_button_events, MidiRx, PacketAction,
    RoundAction,
};
use rf64::midi::sysex::SysExParser;
use rf64::palette::palette_color;

#[test]
fn button_press_is_note_on_channel_15() {
    assert_eq!(button_event_packet(0, true), [0x09, 0x9E, 36, 127]);
}

#[test]
fn button_release_is_note_off() {
    assert_eq!(button_event_packet(63, false), [0x08, 0x8E, 99, 127]);
}

#[test]
fn button_events_presses_then_releases() {
    let packets = send_button_events(0b101, 0b10);
    assert_eq!(
        packets,
        vec![[0x09, 0x9E, 36, 127], [0x09, 0x9E, 38, 127], [0x08, 0x8E, 37, 127]]
    );
    assert!(send_button_events(0, 0).is_empty());
}

fn drain(packets: &[[u8; 4]], leds: &mut [Color; TOTAL_LEDS], animating: &mut bool) -> (Vec<PacketAction>, bool, bool) {
    let rx = MidiRx::new();
    let mut parser = SysExParser::new();
    let mut st = rx.start_drain();
    rx.begin_round(&mut st);
    let mut actions = Vec::new();
    for p in packets {
        actions.push(rx.handle_packet(&mut st, p, leds, animating, &mut parser));
    }
    (actions, st.dirty, st.activity)
}

#[test]
fn note_on_channel_3_sets_both_leds_from_palette() {
    let mut leds = [Color::black(); TOTAL_LEDS];
    let mut animating = false;
    let (actions, dirty, activity) = drain(&[[0x09, 0x92, 40, 5]], &mut leds, &mut animating);
    assert_eq!(actions, vec![PacketAction::Continue]);
    assert!(dirty && activity);
    assert_eq!(leds[8], palette_color(5));
    assert_eq!(leds[9], palette_color(5));
    assert_eq!(palette_color(5), Color::new(48, 0, 0));
}

#[test]
fn channels_4_and_5_set_single_leds() {
    let mut leds = [Color::black(); TOTAL_LEDS];
    let mut animating = false;
    let _ = drain(&[[0x09, 0x93, 36, 21], [0x09, 0x94, 37, 5]], &mut leds, &mut animating);
    assert_eq!(leds[0], Color::new(0, 48, 0));
    assert_eq!(leds[1], Color::black());
    assert_eq!(leds[2], Color::black());
    assert_eq!(leds[3], Color::new(48, 0, 0));
}

#[test]
fn note_off_after_note_on_is_a_frame_boundary() {
    let mut leds = [Color::black(); TOTAL_LEDS];
    let mut animating = false;
    let (actions, _, _) = drain(
        &[[0x09, 0x92, 40, 5], [0x08, 0x82, 40, 0]],
        &mut leds,
        &mut animating,
    );
    assert_eq!(actions, vec![PacketAction::Continue, PacketAction::UnreadAndStop]);
    // the note-off was pushed back, the LED keeps its colour
    assert_eq!(leds[8], Color::new(48, 0, 0));
}

#[test]
fn cc_123_blanks_and_stops_animation() {
    let mut leds = [Color::white(); TOTAL_LEDS];
    let mut animating = true;
    let (_, dirty, activity) = drain(&[[0x0B, 0xB0, 123, 0]], &mut leds, &mut animating);
    assert!(dirty && activity && !animating);
    assert!(leds.iter().all(|c| *c == Color::black()));
}

#[test]
fn notes_outside_the_grid_are_ignored() {
    let mut leds = [Color::black(); TOTAL_LEDS];
    let mut animating = false;
    let (_, dirty, activity) = drain(&[[0x09, 0x92, 100, 5], [0x09, 0x91, 40, 5]], &mut leds, &mut animating);
    assert!(!dirty);
    assert!(activity);
    assert!(leds.iter().all(|c| *c == Color::black()));
}

#[test]
fn drain_rounds() {
    let rx = MidiRx::new();
    let mut st = rx.start_drain();
    rx.begin_round(&mut st);
    // nothing received at all: finish at once
    assert_eq!(rx.end_round(&mut st), RoundAction::Finish);
    st.has_received_data = true;
    st.read_any = true;
    assert_eq!(rx.end_round(&mut st), RoundAction::PollAgain);
    rx.begin_round(&mut st);
    let mut rounds = 0;
    loop {
        let a = rx.end_round(&mut st);
        rounds += 1;
        if a == RoundAction::Finish {
            break;
        }
        assert_eq!(a, RoundAction::WaitAndPoll);
    }
    assert_eq!(rounds, 21);
    let _ = ButtonMask::empty();
}

#[test]
fn highest_button_note() {
    assert_eq!(button_event_packet(91, true), [0x09, 0x9E, 127, 127]);
}

#[test]
fn led_note_velocity_must_fit_the_palette() {
    assert!(is_supported_packet(&[0x09, 0x92, 40, 5]));
    assert!(is_supported_packet(&[0x09, 0x92, 40, 127]));
    assert!(!is_supported_packet(&[0x09, 0x92, 40, 200]));
    // not a LED note: any velocity byte is fine
    assert!(is_supported_packet(&[0x09, 0x91, 40, 200]));
    assert!(is_supported_packet(&[0x09, 0x92, 120, 200]));
    // SysEx data bytes are not velocities
    assert!(is_supported_packet(&[0x04, 0x92, 40, 200]));
}

#[test]
fn any_host_message_stops_the_animation() {
    let mut leds = [Color::white(); TOTAL_LEDS];
    let mut animating = true;
    // a program change is host data too
    let (actions, dirty, activity) = drain(&[[0x0C, 0xC2, 0x05, 0x00]], &mut leds, &mut animating);
    assert_eq!(actions, vec![PacketAction::Continue]);
    assert!(!animating && dirty && !activity);
    assert!(leds.iter().all(|c| *c == Color::black()));
}

#[test]
fn sysex_that_changes_nothing_still_stops_the_animation() {
    let mut leds = [Color::white(); TOTAL_LEDS];
    let mut animating = true;
    let (actions, dirty, activity) = drain(&[[0x7, 0xF0, 0x7E, 0xF7]], &mut leds, &mut animating);
    assert_eq!(actions, vec![PacketAction::Continue]);
    assert!(!animating && dirty && !activity);
    assert!(leds.iter().all(|c| *c == Color::black()));
}

#[test]
fn sysex_led_update_lands_on_the_blanked_grid() {
    let mut leds = [Color::white(); TOTAL_LEDS];
    let mut animating = true;
    let pk = rf64::usb_midi::sysex_packets(&[0xF0, 0x6F, 0x00, 0x3F, 0x00, 0x00, 0xF7]);
    let (_, dirty, activity) = drain(&pk, &mut leds, &mut animating);
    assert!(!animating && dirty && activity);
    assert_eq!(leds[0], Color::new(255, 0, 0));
    assert_eq!(leds[2], Color::black());
}

#[test]
fn button_notes_are_tried_at_most_four_times() {
    assert_eq!(SEND_ATTEMPTS, 4);
    assert_eq!(after_send_attempt(1, true), SendStep::Sent);
    assert_eq!(after_send_attempt(1, false), SendStep::PollAndRetry);
    assert_eq!(after_send_attempt(3, false), SendStep::PollAndRetry);
    assert_eq!(after_send_attempt(4, false), SendStep::PollAndDrop);
    assert_eq!(after_send_attempt(4, true), SendStep::Sent);
}

fn drain_burst(packets: &[[u8; 4]], leds: &mut [Color; TOTAL_LEDS], animating: &mut bool) -> usize {
    let rx = MidiRx::new();
    let mut parser = SysExParser::new();
    let mut st = rx.start_drain();
    rx.begin_round(&mut st);
    let mut handled = 0;
    for p in packets {
        if rx.handle_packet(&mut st, p, leds, animating, &mut parser) == PacketAction::UnreadAndStop {
            break;
        }
        handled += 1;
    }
    handled
}

#[test]
fn burst_during_animation_matches_burst_on_dark_grid() {
    let burst = [
        [0x09, 0x92, 40, 5],
        [0x0C, 0xC2, 0x05, 0x00],
        [0x09, 0x93, 46, 21],
        [0x08, 0x82, 40, 0],
        [0x09, 0x92, 50, 9],
    ];
    let mut a = [Color::white(); TOTAL_LEDS];
    let mut animating_a = true;
    let mut b = [Color::black(); TOTAL_LEDS];
    let mut animating_b = false;
    assert_eq!(drain_burst(&burst, &mut a, &mut animating_a), 3);
    assert_eq!(drain_burst(&burst, &mut b, &mut animating_b), 3);
    assert!(!animating_a && !animating_b);
    assert_eq!(a, b);
    assert_eq!(a[8], palette_color(5));
    assert_eq!(a[9], palette_color(5));
    assert_eq!(a[20], palette_color(21));
    assert_eq!(a[21], Color::black());
    assert_eq!(a[28], Color::black());
}
