# novation_bridge

A bridge between Novation synthesizers (UltraNova, MiniNova) on USB and JACK.

`src/` is a library verified with Verus. It holds everything that the bridge decides:

- how a stream of bytes is taken apart into MIDI messages,
- how timed messages travel through a ring between two threads,
- the AutoMap handshake on the control port,
- what is sent on, what is dropped and what is reported,
- which devices are served and which of their interfaces are claimed.

All that is taken on trust stands in `src/ring_buffer.rs` (the byte ring of
`direct_ring_buffer` and the wake-ups of `tokio`) and in `src/midi_text.rs` (the text that
`wmidi` gives a message).

`app/` is the program around it: the JACK client, the USB queues and the tasks that wait for
both. It decides nothing.

`tests/` runs the library.

## What a reader should know

- A message in a ring starts with the four bytes of its time. Where the end of the ring's
  memory cuts the time of a message while less than four bytes follow, or falls just behind
  a message while more follow, that message does not come out as it was sent.
  `ring_laws.rs` states exactly when this happens (`comes_out_whole`) and proves that every other message
  comes out as it went in, in order.
- Once a builder has been given a message that is too long, it completes no message any
  more. A receiver then finds a message only where it is the last one in the ring.
- `0xf1` is taken as a message of one byte.
