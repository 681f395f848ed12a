use novation_bridge::midi_builder::MidiBuilder;
use novation_bridge::ring::{create_midi_ring, frame_fits, read_chunk, write_chunk, RawMidi};
use std::cell::RefCell;

#[test]
fn midi_ring() {
    let (mut tx, mut rx) = create_midi_ring(127);
    let lengths = [3, 2, 64, 3, 1, 1, 1, 64, 3, 2, 112, 3, 64];

    let make_msg = |len| {
        let bytes = match len {
            0 => unreachable!(),
            1 => vec![0xf1],
            2 => vec![0xf3, 0x00],
            3 => vec![0xb0, 0x00, 0x00],
            _ => {
                let mut b = vec![0; len];
                b[0] = 0xf0;
                b[len - 1] = 0xf7;
                b
            }
        };

        RawMidi {
            time: 123456,
            bytes: bytes.leak(),
        }
    };

    for len in lengths {
        let msg = make_msg(len);
        assert!(tx.send(msg));

        let m = rx.recv();
        let m = m.unwrap();

        assert_eq!(m.time, 123456);
        assert_eq!(m.bytes.len(), len);

        let m = rx.recv();
        assert!(m.is_none());
    }
}

fn sent(tx: &mut novation_bridge::ring::MidiSender, time: u32, bytes: &[u8]) -> bool {
    tx.send(RawMidi { time, bytes })
}

fn received(rx: &mut novation_bridge::ring::MidiRecevier) -> Option<(u32, Vec<u8>)> {
    rx.recv().map(|m| (m.time, m.bytes.to_vec()))
}

#[test]
fn messages_come_out_in_order() {
    let (mut tx, mut rx) = create_midi_ring(64);
    assert!(sent(&mut tx, 0xfedcba98, &[0x90, 60, 100]));
    assert!(sent(&mut tx, 1, &[0xc0, 5]));
    assert!(sent(&mut tx, 2, &[0xf0, 1, 2, 3, 0xf7]));
    assert_eq!(received(&mut rx), Some((0xfedcba98, vec![0x90, 60, 100])));
    assert_eq!(received(&mut rx), Some((1, vec![0xc0, 5])));
    assert_eq!(received(&mut rx), Some((2, vec![0xf0, 1, 2, 3, 0xf7])));
    assert_eq!(received(&mut rx), None);
}

#[test]
fn message_is_refused_when_ring_is_full() {
    let (mut tx, mut rx) = create_midi_ring(10);
    assert!(!sent(&mut tx, 7, &[0xf0, 1, 2, 3, 4, 5, 0xf7]));
    assert!(sent(&mut tx, 7, &[0xf0, 1, 2, 3, 4, 0xf7]));
    assert!(!sent(&mut tx, 8, &[0xf6]));
    assert_eq!(received(&mut rx), Some((7, vec![0xf0, 1, 2, 3, 4, 0xf7])));
    assert!(sent(&mut tx, 8, &[0xf6]));
    assert_eq!(received(&mut rx), Some((8, vec![0xf6])));
}

#[test]
fn empty_ring_takes_nothing() {
    let (mut tx, mut rx) = create_midi_ring(0);
    assert!(!sent(&mut tx, 0, &[]));
    assert_eq!(received(&mut rx), None);
}

#[test]
fn message_across_the_end_of_memory() {
    // Seven bytes put the next frame one byte in front of the end.
    let (mut tx, mut rx) = create_midi_ring(8);
    assert!(sent(&mut tx, 1, &[0x90, 1, 2]));
    assert_eq!(received(&mut rx), Some((1, vec![0x90, 1, 2])));
    assert!(sent(&mut tx, 0x01020304, &[0xf6]));
    assert_eq!(received(&mut rx), Some((0x01020304, vec![0xf6])));
}

#[test]
fn short_message_with_cut_time_is_lost() {
    // Seven bytes put the next frame two bytes in front of the end, so that three of the
    // five bytes of a one-byte message lie behind it.
    let (mut tx, mut rx) = create_midi_ring(9);
    assert!(sent(&mut tx, 1, &[0x90, 1, 2]));
    assert_eq!(received(&mut rx), Some((1, vec![0x90, 1, 2])));
    assert!(sent(&mut tx, 2, &[0xf6]));
    assert_eq!(received(&mut rx), None);
    assert!(sent(&mut tx, 3, &[0x90, 3, 4]));
    assert_eq!(received(&mut rx), Some((3, vec![0x90, 3, 4])));
}

#[test]
fn message_that_ends_with_the_memory_is_lost_if_more_follows() {
    let (mut tx, mut rx) = create_midi_ring(12);
    assert!(sent(&mut tx, 1, &[0xf3, 1]));
    assert_eq!(received(&mut rx), Some((1, vec![0xf3, 1])));
    assert!(sent(&mut tx, 2, &[0xf3, 2]));
    assert!(sent(&mut tx, 3, &[0xf3, 3]));
    assert_eq!(received(&mut rx), Some((2, vec![0xf3, 3])));
    assert_eq!(received(&mut rx), None);
}

#[test]
fn too_long_message_stops_the_builder_of_a_ring() {
    let (mut tx, mut rx) = create_midi_ring(16384);
    let mut long = vec![0u8; 4097];
    long[0] = 0xf0;
    long[4096] = 0xf7;
    assert!(sent(&mut tx, 1, &long));
    // What was kept of the message comes out, shortened.
    assert_eq!(received(&mut rx).unwrap().1.len(), 4096);
    // Of two messages in the ring only the last one comes out now.
    assert!(sent(&mut tx, 2, &[0xf6]));
    assert!(sent(&mut tx, 3, &[0xf8]));
    assert_eq!(received(&mut rx), Some((2, vec![0xf8])));
    assert!(sent(&mut tx, 4, &[0xf6]));
    assert_eq!(received(&mut rx), Some((4, vec![0xf6])));
}

#[test]
fn recv_while_stops_where_told() {
    let (mut tx, mut rx) = create_midi_ring(64);
    for time in 0..4 {
        assert!(sent(&mut tx, time, &[0xc0, 9]));
    }
    let seen = RefCell::new(Vec::new());
    rx.recv_while(|m| {
        seen.borrow_mut().push(m.time);
        m.time < 1
    });
    assert_eq!(*seen.borrow(), vec![0, 1]);
    rx.recv_while(|_| true);
    assert_eq!(received(&mut rx), None);
}

#[test]
fn sender_and_receiver_share_the_notifier() {
    let (mut tx, rx) = create_midi_ring(64);
    let waiting = rx.notifier();
    let mut cx = std::task::Context::from_waker(std::task::Waker::noop());
    let mut wait = Box::pin(waiting.notified());
    assert!(std::future::Future::poll(wait.as_mut(), &mut cx).is_pending());
    assert!(!sent(&mut tx, 0, &[0; 61]));
    assert!(std::future::Future::poll(wait.as_mut(), &mut cx).is_pending());
    assert!(sent(&mut tx, 0, &[0xf6]));
    assert!(std::future::Future::poll(wait.as_mut(), &mut cx).is_ready());
}

#[test]
fn each_message_notifies_once() {
    let (mut tx, rx) = create_midi_ring(64);
    let waiting = rx.notifier();
    let mut cx = std::task::Context::from_waker(std::task::Waker::noop());
    let mut first = Box::pin(waiting.notified());
    let mut second = Box::pin(waiting.notified());
    assert!(std::future::Future::poll(first.as_mut(), &mut cx).is_pending());
    assert!(std::future::Future::poll(second.as_mut(), &mut cx).is_pending());
    assert!(sent(&mut tx, 0, &[0xf6]));
    assert!(std::future::Future::poll(first.as_mut(), &mut cx).is_ready());
    assert!(std::future::Future::poll(second.as_mut(), &mut cx).is_pending());
    assert!(sent(&mut tx, 0, &[0xf6]));
    assert!(std::future::Future::poll(second.as_mut(), &mut cx).is_ready());
}

#[test]
fn lone_message_comes_out_at_every_position() {
    let (mut tx, mut rx) = create_midi_ring(17);
    for round in 0..17 * 7 {
        let bytes = match round % 3 {
            0 => vec![0x90, 1, 2],
            1 => vec![0xf0, 3, 4, 5, 0xf7],
            _ => vec![0xf0, 1, 2, 3, 4, 5, 6, 7, 8, 9, 10, 11, 0xf7],
        };
        // Once the ring is empty, all of it is free: the last of these fills it.
        assert!(sent(&mut tx, round, &bytes));
        assert_eq!(received(&mut rx), Some((round, bytes)));
        assert_eq!(received(&mut rx), None);
    }
}

#[test]
fn frames_need_four_bytes_for_the_time() {
    assert!(frame_fits(5, 1));
    assert!(!frame_fits(4, 1));
    assert!(frame_fits(4, 0));
    assert!(!frame_fits(3, 0));
    assert!(!frame_fits(3, usize::MAX));
    assert!(!frame_fits(usize::MAX, usize::MAX));
}

#[test]
fn chunks_are_filled_from_the_frame() {
    let time = [1, 2, 3, 4];
    let mut first = [0u8; 2];
    assert_eq!(write_chunk(&mut first, 0, &time, &[0x90, 5, 6]), 2);
    assert_eq!(first, [1, 2]);
    let mut second = [0u8; 5];
    assert_eq!(write_chunk(&mut second, 2, &time, &[0x90, 5, 6]), 5);
    assert_eq!(second, [3, 4, 0x90, 5, 6]);
    let mut last = [0u8; 1];
    assert_eq!(write_chunk(&mut last, 6, &time, &[0x90, 5, 6]), 1);
    assert_eq!(last, [6]);
}

#[test]
fn chunks_are_read_up_to_the_end_of_a_message() {
    let mut builder = MidiBuilder::with_capacity(16);
    let mut time = [9, 9, 9, 9];
    assert_eq!(read_chunk(&mut builder, &mut time, &[1, 2, 3, 4, 0x90, 5, 6, 7], 0), 7);
    assert_eq!(time, [1, 2, 3, 4]);
    assert_eq!(builder.message(), Some(&[0x90, 5, 6][..]));

    let mut builder = MidiBuilder::with_capacity(16);
    let mut time = [9, 9, 9, 9];
    assert_eq!(read_chunk(&mut builder, &mut time, &[1, 2, 3], 0), 3);
    assert_eq!(time, [1, 2, 3, 9]);
    assert_eq!(read_chunk(&mut builder, &mut time, &[4, 0xf6], 3), 2);
    assert_eq!(time, [1, 2, 3, 9]);
    assert_eq!(builder.message(), None);
    assert_eq!(read_chunk(&mut builder, &mut time, &[4, 0xc0, 1, 2], 3), 3);
    assert_eq!(time, [1, 2, 3, 4]);
    assert_eq!(builder.message(), Some(&[0xc0, 1][..]));
}
