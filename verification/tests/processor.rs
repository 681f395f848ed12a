use novation_bridge::automap::{
    AutoMapAction, AutoMapGreeting, AUTOMAP_GREETING, AUTOMAP_OFF, AUTOMAP_OK,
};
use novation_bridge::midi_text::message_text;
use novation_bridge::model_config::EndpointInfo;
use novation_bridge::processor::{
    next_control_transfer, next_transfer, InputReport, Transfer, UsbControlInput, UsbMidiInput,
};
use novation_bridge::ring::{create_midi_ring, MidiRecevier, RawMidi};
use novation_bridge::usb::UsbOut;
use std::cell::Cell;

fn received(rx: &mut MidiRecevier) -> Option<(u32, Vec<u8>)> {
    rx.recv().map(|m| (m.time, m.bytes.to_vec()))
}

fn outcomes(report: &InputReport) -> Vec<(AutoMapAction, bool)> {
    report.handled.iter().map(|h| (h.action, h.sent)).collect()
}

fn texts(report: &InputReport) -> Vec<Option<String>> {
    report.handled.iter().map(|h| h.text.clone()).collect()
}

fn buffer(transfer: Option<Transfer>) -> Option<Vec<u8>> {
    transfer.map(|t| t.buffer)
}

const SENT: (AutoMapAction, bool) = (AutoMapAction::Forward, true);
const REFUSED: (AutoMapAction, bool) = (AutoMapAction::Forward, false);
const GREETED: (AutoMapAction, bool) = (AutoMapAction::SendGreeting, false);
const DISCARDED: (AutoMapAction, bool) = (AutoMapAction::Discard, false);

fn usb_out() -> UsbOut {
    UsbOut::new(&EndpointInfo { input: 1, output: 2 })
}

#[test]
fn midi_is_sent_on_with_its_time() {
    let (mut tx, mut rx) = create_midi_ring(256);
    let mut input = UsbMidiInput::new();
    let clock = Cell::new(10);
    let stamp = |_: &[u8]| {
        clock.set(clock.get() + 1);
        clock.get()
    };
    let report = input.process(&[7, 0x90, 1], stamp, &mut tx);
    assert_eq!(outcomes(&report), vec![]);
    assert_eq!(report.skipped, vec![7]);
    assert_eq!(received(&mut rx), None);
    let report = input.process(&[2, 0xf8, 0xc0, 3], stamp, &mut tx);
    assert_eq!(outcomes(&report), vec![SENT, SENT, SENT]);
    assert_eq!(report.skipped, vec![]);
    assert_eq!(report.too_long, 0);
    assert_eq!(received(&mut rx), Some((11, vec![0x90, 1, 2])));
    assert_eq!(received(&mut rx), Some((12, vec![0xf8])));
    assert_eq!(received(&mut rx), Some((13, vec![0xc0, 3])));
    assert_eq!(received(&mut rx), None);
    assert_eq!(outcomes(&input.process(&[], stamp, &mut tx)), vec![]);
}

#[test]
fn midi_that_finds_the_ring_full_is_counted() {
    let (mut tx, mut rx) = create_midi_ring(12);
    let mut input = UsbMidiInput::new();
    let data = [0x90, 1, 2, 0x90, 3, 4, 0xf8, 0xf8];
    let report = input.process(&data, |m| m.len() as u32, &mut tx);
    assert_eq!(outcomes(&report), vec![SENT, REFUSED, SENT, REFUSED]);
    assert_eq!(received(&mut rx), Some((3, vec![0x90, 1, 2])));
    assert_eq!(received(&mut rx), Some((1, vec![0xf8])));
}

#[test]
fn every_message_has_its_text() {
    let (mut tx, _rx) = create_midi_ring(256);
    let mut input = UsbMidiInput::new();
    let report = input.process(&[0x90, 60, 2, 0xf8, 0xf7], |_| 0, &mut tx);
    let note = [0x90, 60, 2];
    let note = wmidi::MidiMessage::try_from(&note[..]).unwrap();
    assert_eq!(
        texts(&report),
        vec![Some(format!("{:?}", note)), Some("TimingClock".to_string()), None]
    );
    assert_eq!(message_text(&[0xfa]), Some("Start".to_string()));
    assert_eq!(message_text(&[0xc0, 5]), Some("ProgramChange(Ch1, U7(5))".to_string()));
    assert_eq!(message_text(&[]), None);
    assert_eq!(message_text(&[1, 2, 3]), None);
    assert_eq!(message_text(&[0x90, 1]), None);
}

#[test]
fn what_is_dropped_is_reported() {
    let (mut tx, mut rx) = create_midi_ring(256);
    let mut input = UsbMidiInput::new();
    let mut data = vec![1, 2, 0xf8, 3, 0xf0];
    data.extend([4; 4095]);
    data.push(0xf7);
    let report = input.process(&data, |_| 0, &mut tx);
    assert_eq!(report.skipped, vec![1, 2, 3]);
    assert_eq!(report.too_long, 1);
    assert_eq!(outcomes(&report), vec![SENT]);
    assert_eq!(received(&mut rx), Some((0, vec![0xf8])));
    // From then on every message is dropped.
    let report = input.process(&[0xf8, 5, 0x90, 1, 2], |_| 0, &mut tx);
    assert_eq!(report.skipped, vec![5]);
    assert_eq!(report.too_long, 2);
    assert_eq!(outcomes(&report), vec![]);

    let greeting = AutoMapGreeting::new();
    let report = UsbControlInput::new().process(&data, |_| 0, &greeting, &mut tx);
    assert_eq!(report.skipped, vec![1, 2, 3]);
    assert_eq!(report.too_long, 1);
    assert_eq!(outcomes(&report), vec![DISCARDED]);
    assert_eq!(texts(&report), vec![Some("TimingClock".to_string())]);
}

#[test]
fn packets_of_any_size_are_handled_alike() {
    let mut data = vec![9, 0xb0, 1, 1];
    data.extend(AUTOMAP_OFF);
    data.extend(AUTOMAP_OK);
    data.extend([0xb0, 2, 2, 7]);
    let greeting = AutoMapGreeting::new();
    let (mut tx, _rx) = create_midi_ring(256);
    let whole = UsbControlInput::new().process(&data, |_| 0, &greeting, &mut tx);
    assert_eq!(outcomes(&whole), vec![DISCARDED, DISCARDED, GREETED, SENT]);
    assert_eq!(whole.skipped, vec![9, 7]);
    for cut in 0..=data.len() {
        let mut input = UsbControlInput::new();
        let first = input.process(&data[..cut], |_| 0, &greeting, &mut tx);
        let second = input.process(&data[cut..], |_| 0, &greeting, &mut tx);
        let actions = |r: &InputReport| r.handled.iter().map(|h| h.action).collect::<Vec<_>>();
        assert_eq!([actions(&first), actions(&second)].concat(), actions(&whole));
        assert_eq!([first.skipped, second.skipped].concat(), whole.skipped);
    }
}

#[test]
fn control_is_forwarded_while_automap_is_on() {
    let (mut tx, mut rx) = create_midi_ring(256);
    let mut input = UsbControlInput::new();
    let greeting = AutoMapGreeting::new();
    assert_eq!(greeting.message(), Some(&AUTOMAP_OK[..]));
    let mut data = vec![0xb0, 1, 1];
    data.extend(AUTOMAP_OK);
    data.extend([0xb0, 2, 2]);
    data.extend(AUTOMAP_OFF);
    data.extend([0xb0, 3, 3]);
    let report = input.process(&data, |_| 5, &greeting, &mut tx);
    assert_eq!(outcomes(&report), vec![DISCARDED, DISCARDED, SENT, DISCARDED, DISCARDED]);
    assert_eq!(texts(&report)[0], message_text(&[0xb0, 1, 1]));
    assert_eq!(texts(&report)[1], message_text(&AUTOMAP_OK));
    assert_eq!(greeting.message(), None);
    assert_eq!(received(&mut rx), Some((5, vec![0xb0, 2, 2])));
    assert_eq!(received(&mut rx), None);

    let mut data = AUTOMAP_OK.to_vec();
    data.extend([0xb0, 4, 4]);
    let report = input.process(&data, |_| 6, &greeting, &mut tx);
    assert_eq!(outcomes(&report), vec![GREETED, SENT]);
    assert_eq!(greeting.message(), Some(&AUTOMAP_OK[..]));
    assert_eq!(greeting.message(), Some(&AUTOMAP_GREETING[..]));
    assert_eq!(greeting.message(), None);
    assert_eq!(received(&mut rx), Some((6, vec![0xb0, 4, 4])));
}

#[test]
fn control_that_finds_the_ring_full_is_counted() {
    let (mut tx, _rx) = create_midi_ring(4);
    let mut input = UsbControlInput::new();
    let greeting = AutoMapGreeting::new();
    let mut data = AUTOMAP_OK.to_vec();
    data.extend([0xf8, 0xf8]);
    let report = input.process(&data, |_| 0, &greeting, &mut tx);
    assert_eq!(outcomes(&report), vec![DISCARDED, REFUSED, REFUSED]);
}

#[test]
fn transfers_carry_messages() {
    let (mut tx, mut rx) = create_midi_ring(64);
    let mut out = usb_out();
    assert!(next_transfer(None, &mut rx, &mut out, 0).is_none());
    assert!(tx.send(RawMidi { time: 1, bytes: &[0xc0, 1] }));
    assert!(next_transfer(None, &mut rx, &mut out, 128).is_none());
    let first = next_transfer(Some(&[9]), &mut rx, &mut out, 127).unwrap();
    assert_eq!(first.buffer, vec![9]);
    assert_eq!(first.text, None);
    let second = next_transfer(None, &mut rx, &mut out, 127).unwrap();
    assert_eq!(second.buffer, vec![0xc0, 1]);
    assert_eq!(second.text, Some("ProgramChange(Ch1, U7(1))".to_string()));
    assert!(next_transfer(None, &mut rx, &mut out, 0).is_none());
}

#[test]
fn greeting_goes_before_the_ring() {
    let (mut tx, mut rx) = create_midi_ring(64);
    let mut out = usb_out();
    let greeting = AutoMapGreeting::new();
    assert!(tx.send(RawMidi { time: 1, bytes: &[0xc0, 1] }));
    // A busy endpoint leaves the greeting alone.
    assert!(next_control_transfer(&greeting, &mut rx, &mut out, 128).is_none());
    let first = next_control_transfer(&greeting, &mut rx, &mut out, 0);
    assert_eq!(buffer(first), Some(AUTOMAP_OK.to_vec()));
    let second = next_control_transfer(&greeting, &mut rx, &mut out, 1);
    assert_eq!(buffer(second), Some(vec![0xc0, 1]));
    assert!(next_control_transfer(&greeting, &mut rx, &mut out, 2).is_none());
}
