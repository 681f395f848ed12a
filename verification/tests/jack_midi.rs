use novation_bridge::jack_midi::{
    frame_in_cycle, join_control, note_outcome, port_names, Control, JackMidiConnection, Notice,
};
use novation_bridge::ring::RawMidi;

#[test]
fn either_port_pair_stops_jack() {
    assert_eq!(join_control(Control::Continue, Control::Continue), Control::Continue);
    assert_eq!(join_control(Control::Quit, Control::Continue), Control::Quit);
    assert_eq!(join_control(Control::Continue, Control::Quit), Control::Quit);
    assert_eq!(join_control(Control::Quit, Control::Quit), Control::Quit);
}

#[test]
fn outcomes_are_reported_once() {
    let mut failing = false;
    assert_eq!(note_outcome(&mut failing, true), Notice::Nothing);
    assert_eq!(note_outcome(&mut failing, false), Notice::Failed);
    assert_eq!(note_outcome(&mut failing, false), Notice::Nothing);
    assert!(failing);
    assert_eq!(note_outcome(&mut failing, true), Notice::Resolved);
    assert_eq!(note_outcome(&mut failing, true), Notice::Nothing);
    assert!(!failing);
}

#[test]
fn frames_within_a_cycle() {
    assert_eq!(frame_in_cycle(1100, 1000, 256), 100);
    assert_eq!(frame_in_cycle(900, 1000, 256), 0);
    assert_eq!(frame_in_cycle(2000, 1000, 256), 256);
    assert_eq!(frame_in_cycle(1256, 1000, 256), 256);
}

#[test]
fn messages_for_jack_are_timed() {
    let (mut connection, mut processor) = JackMidiConnection::new();
    assert!(processor.next_message(64).is_none());
    assert_eq!(processor.end_cycle(1000), Control::Continue);
    let (tx, _) = connection.split();
    assert!(tx.send(RawMidi { time: 1010, bytes: &[0x90, 1, 2] }));
    assert!(tx.send(RawMidi { time: 5000, bytes: &[0xc0, 3] }));
    let midi = processor.next_message(64).unwrap();
    assert_eq!((midi.time, midi.bytes), (10, &[0x90, 1, 2][..]));
    let midi = processor.next_message(64).unwrap();
    assert_eq!((midi.time, midi.bytes), (64, &[0xc0, 3][..]));
    assert!(processor.next_message(64).is_none());
    assert_eq!(processor.wrote(false), Notice::Failed);
    assert_eq!(processor.wrote(false), Notice::Nothing);
    assert_eq!(processor.wrote(true), Notice::Resolved);
}

#[test]
fn messages_from_jack_are_sent_on() {
    let (mut connection, mut processor) = JackMidiConnection::new();
    assert_eq!(processor.accept(RawMidi { time: 5, bytes: &[0xf6] }), Notice::Nothing);
    let large = vec![0u8; 32768];
    assert_eq!(processor.accept(RawMidi { time: 6, bytes: &large }), Notice::Failed);
    assert_eq!(processor.accept(RawMidi { time: 6, bytes: &large }), Notice::Nothing);
    assert_eq!(processor.accept(RawMidi { time: 7, bytes: &[0xf8] }), Notice::Resolved);
    let (_, rx) = connection.split();
    assert_eq!(rx.recv().map(|m| (m.time, m.bytes.to_vec())), Some((5, vec![0xf6])));
    assert_eq!(rx.recv().map(|m| (m.time, m.bytes.to_vec())), Some((7, vec![0xf8])));
    assert!(rx.recv().is_none());
}

#[test]
fn names_of_ports() {
    assert_eq!(port_names("midi"), ("midi_in".to_string(), "midi_out".to_string()));
    assert_eq!(port_names(""), ("_in".to_string(), "_out".to_string()));
}
