use novation_bridge::midi_builder::{MidiBuilder, MidiLength, Taken};

fn feed(builder: &mut MidiBuilder, data: &[u8]) -> Vec<Vec<u8>> {
    let mut found = Vec::new();
    for &b in data {
        if let Some(m) = builder.push(b) {
            found.push(m.to_vec());
        }
    }
    found
}

#[test]
fn lengths_of_status_bytes() {
    for status in 0x80..=0xbf {
        assert_eq!(MidiLength::new(status), MidiLength::Fixed(3));
    }
    for status in 0xc0..=0xdf {
        assert_eq!(MidiLength::new(status), MidiLength::Fixed(2));
    }
    for status in 0xe0..=0xef {
        assert_eq!(MidiLength::new(status), MidiLength::Fixed(3));
    }
    assert_eq!(MidiLength::new(0xf0), MidiLength::SysEx);
    assert_eq!(MidiLength::new(0xf1), MidiLength::Fixed(1));
    assert_eq!(MidiLength::new(0xf2), MidiLength::Fixed(3));
    assert_eq!(MidiLength::new(0xf3), MidiLength::Fixed(2));
    for status in 0xf4..=0xff {
        assert_eq!(MidiLength::new(status), MidiLength::Fixed(1));
    }
    assert_eq!(MidiLength::new(0x00), MidiLength::Fixed(1));
}

#[test]
fn last_bytes() {
    assert!(!MidiLength::Fixed(3).was_last_byte(2, 0xf7));
    assert!(MidiLength::Fixed(3).was_last_byte(3, 0));
    assert!(!MidiLength::SysEx.was_last_byte(100, 0));
    assert!(MidiLength::SysEx.was_last_byte(2, 0xf7));
}

#[test]
fn messages_are_taken_apart() {
    let mut builder = MidiBuilder::with_capacity(16);
    let data = [0x90, 60, 100, 0xc1, 7, 0xf8, 0xf0, 1, 0x90, 0xf7, 0xf2, 1, 2];
    let expected: Vec<Vec<u8>> = vec![
        vec![0x90, 60, 100],
        vec![0xc1, 7],
        vec![0xf8],
        vec![0xf0, 1, 0x90, 0xf7],
        vec![0xf2, 1, 2],
    ];
    assert_eq!(feed(&mut builder, &data), expected);

    // Any cut into packets gives the same messages.
    for cut in 0..=data.len() {
        let mut builder = MidiBuilder::with_capacity(16);
        let mut found = feed(&mut builder, &data[..cut]);
        found.extend(feed(&mut builder, &data[cut..]));
        assert_eq!(found, expected);
    }
}

#[test]
fn bytes_in_front_of_a_status_byte_are_dropped() {
    let mut builder = MidiBuilder::with_capacity(16);
    assert_eq!(feed(&mut builder, &[1, 2, 0x7f, 0x80, 3, 4]), vec![vec![0x80, 3, 4]]);
    assert_eq!(feed(&mut builder, &[5, 6, 0xf6]), vec![vec![0xf6]]);
    // No running status: a byte behind a whole message empties the buffer.
    assert!(feed(&mut builder, &[5]).is_empty());
    assert_eq!(builder.message(), Some(&[][..]));
}

#[test]
fn reset_drops_the_message_under_way() {
    let mut builder = MidiBuilder::with_capacity(16);
    assert!(feed(&mut builder, &[0x90, 1]).is_empty());
    assert_eq!(builder.message(), None);
    builder.reset();
    assert!(feed(&mut builder, &[2, 3]).is_empty());
    assert_eq!(builder.message(), None);
    assert_eq!(feed(&mut builder, &[0xc0, 4]), vec![vec![0xc0, 4]]);
    assert_eq!(builder.message(), Some(&[0xc0, 4][..]));
    builder.reset();
    assert_eq!(builder.message(), None);
}

#[test]
fn too_long_messages_are_dropped() {
    let mut builder = MidiBuilder::with_capacity(4);
    assert_eq!(feed(&mut builder, &[0xf0, 1, 2, 0xf7]), vec![vec![0xf0, 1, 2, 0xf7]]);
    assert!(feed(&mut builder, &[0xf0, 1, 2, 3, 0xf7]).is_empty());
    assert_eq!(builder.message(), Some(&[0xf0, 1, 2, 3][..]));
    // From then on nothing is completed, though the messages are still built.
    assert!(feed(&mut builder, &[0xf6]).is_empty());
    assert_eq!(builder.message(), Some(&[0xf6][..]));
}

#[test]
fn smallest_builder_keeps_two_bytes() {
    let mut builder = MidiBuilder::with_capacity(0);
    assert_eq!(feed(&mut builder, &[0xc0, 1]), vec![vec![0xc0, 1]]);
    assert!(feed(&mut builder, &[0x90, 1, 2, 3, 4]).is_empty());
    assert_eq!(builder.message(), None);
}

#[test]
fn scan_stops_behind_each_message() {
    let mut builder = MidiBuilder::with_capacity(16);
    let data = [0xc0, 1, 0xf6, 0x90, 2];
    assert_eq!(builder.scan(&data, 0), (2, Some(&[0xc0, 1][..])));
    assert_eq!(builder.scan(&data, 2), (3, Some(&[0xf6][..])));
    assert_eq!(builder.scan(&data, 3), (5, None));
    assert_eq!(builder.scan(&[3], 0), (1, Some(&[0x90, 2, 3][..])));
}

#[test]
fn builder_says_what_became_of_a_byte() {
    let mut builder = MidiBuilder::with_capacity(3);
    assert_eq!(builder.take(0x7f), Taken::Skipped);
    assert_eq!(builder.take(0xc0), Taken::Kept);
    assert_eq!(builder.take(1), Taken::Message(&[0xc0, 1]));
    assert_eq!(builder.take(2), Taken::Skipped);
    assert_eq!(builder.take(0xf0), Taken::Kept);
    assert_eq!(builder.take(1), Taken::Kept);
    assert_eq!(builder.take(2), Taken::Kept);
    assert_eq!(builder.take(3), Taken::Kept);
    assert_eq!(builder.take(0xf7), Taken::TooLong);
    assert_eq!(builder.take(0xf8), Taken::TooLong);
}
