//! The pair of rings between a JACK port pair and the task that serves a synthesizer.
use crate::bytes::le_bytes;
use crate::midi_builder::{BuilderState, MESSAGE_LIMIT};
use crate::ring::{
    create_midi_ring, linked, midi_view, Message, MidiRecevier, MidiSender, RawMidi, ReceiverState,
    SenderState,
};
use vstd::prelude::*;

verus! {

/// The size of each ring in bytes.
pub const RING_SIZE: usize = 32768;

/// Whether JACK keeps calling.
#[derive(Clone, Copy, Debug, PartialEq, Eq, Structural)]
pub enum Control {
    /// JACK calls again.
    Continue,
    /// JACK does not call any more.
    Quit,
}

/// What both port pairs together tell JACK: to stop as soon as one of them asks for it.
pub fn join_control(midi: Control, control: Control) -> (joined: Control)
    ensures
        joined == Control::Quit <==> midi == Control::Quit || control == Control::Quit,
{
    let mut joined = Control::Continue;
    if let Control::Quit = midi {
        joined = Control::Quit;
    }
    if let Control::Quit = control {
        joined = Control::Quit;
    }
    joined
}

/// What there is to report about an operation that can fail again and again.
#[derive(Clone, Copy, Debug, PartialEq, Eq, Structural)]
pub enum Notice {
    /// Nothing new.
    Nothing,
    /// It failed, and had not failed the last time.
    Failed,
    /// It succeeded, and had failed the last time.
    Resolved,
}

/// What there is to report about an operation that failed the last time if `failing`.
pub open spec fn notice_of(failing: bool, succeeded: bool) -> Notice {
    if failing == !succeeded {
        Notice::Nothing
    } else if succeeded {
        Notice::Resolved
    } else {
        Notice::Failed
    }
}

/// Takes note of the outcome of an operation and says what there is to report about it.
pub fn note_outcome(failing: &mut bool, succeeded: bool) -> (notice: Notice)
    ensures
        notice == notice_of(*old(failing), succeeded),
        notice == Notice::Failed <==> !succeeded && !*old(failing),
        notice == Notice::Resolved <==> succeeded && *old(failing),
        *final(failing) == !succeeded,
{
    if !succeeded {
        let notice = if !*failing {
            Notice::Failed
        } else {
            Notice::Nothing
        };
        *failing = true;
        notice
    } else if *failing {
        *failing = false;
        Notice::Resolved
    } else {
        Notice::Nothing
    }
}

/// The place in a cycle of `n_frames` frames at which a message of time `time` is due, if
/// the cycle before it began at `last_frame_time`.
pub open spec fn due_frame(time: u32, last_frame_time: u32, n_frames: u32) -> u32 {
    let since = if time >= last_frame_time { (time - last_frame_time) as u32 } else { 0 };
    if since <= n_frames {
        since
    } else {
        n_frames
    }
}

/// The place in a cycle of `n_frames` frames at which a message of time `time` is due, if
/// the cycle before it began at `last_frame_time`.
pub fn frame_in_cycle(time: u32, last_frame_time: u32, n_frames: u32) -> (frame: u32)
    ensures
        frame == due_frame(time, last_frame_time, n_frames),
        frame == if time < last_frame_time {
            0
        } else if time - last_frame_time > n_frames {
            n_frames as int
        } else {
            time - last_frame_time
        },
{
    let since: u32 = time.saturating_sub(last_frame_time);
    if since <= n_frames {
        since
    } else {
        n_frames
    }
}

/// What the JACK side of a port pair holds.
pub struct ProcessorState {
    /// The end from which messages for JACK come.
    pub rx: ReceiverState,
    /// The end into which messages from JACK go.
    pub tx: SenderState,
    /// When the last cycle began.
    pub last_frame_time: u32,
    /// Whether the last message could not be written to JACK.
    pub write_err: bool,
    /// Whether the last message from JACK found the ring full.
    pub buf_full: bool,
}

/// The JACK side of a port pair.
pub struct JackMidiProcessor {
    midi_rx: MidiRecevier,
    midi_tx: MidiSender,
    last_frame_time: u32,
    midi_write_err: bool,
    tx_buf_full: bool,
}

impl View for JackMidiProcessor {
    type V = ProcessorState;

    closed spec fn view(&self) -> ProcessorState {
        ProcessorState {
            rx: self.midi_rx@,
            tx: self.midi_tx@,
            last_frame_time: self.last_frame_time,
            write_err: self.midi_write_err,
            buf_full: self.tx_buf_full,
        }
    }
}

impl JackMidiProcessor {
    /// The next message for JACK, if there is one, timed for a cycle of `n_frames` frames.
    pub fn next_message(&mut self, n_frames: u32) -> (midi: Option<RawMidi<'_>>)
        ensures
            old(self)@.rx.receives(final(self)@.rx, old(self)@.rx.next_read().0.message()),
            final(self)@ == (ProcessorState { rx: final(self)@.rx, ..old(self)@ }),
            midi_view(midi) == match old(self)@.rx.next_read().0.message() {
                Some(message) => Some(
                    Message {
                        time: due_frame(message.time, old(self)@.last_frame_time, n_frames),
                        ..message
                    },
                ),
                None => None,
            },
            midi is None <==> old(self)@.rx.next_read().0.message() is None,
            midi matches Some(raw) ==> {
                let start = old(self)@.last_frame_time;
                &&& old(self)@.rx.next_read().0.message() matches Some(message)
                &&& raw.bytes@ == message.bytes
                &&& raw.time == if message.time < start {
                    0
                } else if message.time - start > n_frames {
                    n_frames as int
                } else {
                    message.time - start
                }
            },
    {
        let last_frame_time = self.last_frame_time;
        match self.midi_rx.recv() {
            Some(midi) => Some(
                RawMidi {
                    time: frame_in_cycle(midi.time, last_frame_time, n_frames),
                    bytes: midi.bytes,
                },
            ),
            None => None,
        }
    }

    /// Takes note of whether a message could be written to JACK, and says what there is to
    /// report about it.
    pub fn wrote(&mut self, succeeded: bool) -> (notice: Notice)
        ensures
            notice == notice_of(old(self)@.write_err, succeeded),
            notice == Notice::Failed <==> !succeeded && !old(self)@.write_err,
            notice == Notice::Resolved <==> succeeded && old(self)@.write_err,
            final(self)@ == (ProcessorState { write_err: !succeeded, ..old(self)@ }),
    {
        note_outcome(&mut self.midi_write_err, succeeded)
    }

    /// Sends a message from JACK on, and says what there is to report about it.
    pub fn accept(&mut self, midi: RawMidi<'_>) -> (notice: Notice)
        ensures
            final(self)@ == (ProcessorState {
                tx: final(self)@.tx,
                buf_full: final(self)@.buf_full,
                ..old(self)@
            }),
            notice == notice_of(old(self)@.buf_full, !final(self)@.buf_full),
            old(self)@.tx.offers(final(self)@.tx, midi@, !final(self)@.buf_full),
            old(self)@.tx.sent + 4 + midi.bytes@.len() <= old(self)@.tx.slots
                ==> !final(self)@.buf_full,
            !final(self)@.buf_full ==> {
                let from = old(self)@.tx.sent as int;
                let to = final(self)@.tx.sent as int;
                let put = final(self)@.tx.stream.subrange(from, to);
                &&& to == from + 4 + midi.bytes@.len()
                &&& put.take(4) == le_bytes(midi.time)
                &&& put.skip(4) == midi.bytes@
                &&& final(self)@.tx.wakeups == old(self)@.tx.wakeups + 1
            },
            final(self)@.buf_full ==> final(self)@.tx == old(self)@.tx,
            notice == Notice::Failed <==> final(self)@.buf_full && !old(self)@.buf_full,
            notice == Notice::Resolved <==> !final(self)@.buf_full && old(self)@.buf_full,
    {
        let sent = self.midi_tx.send(midi);
        note_outcome(&mut self.tx_buf_full, sent)
    }

    /// Ends a cycle that began at `last_frame_time`.
    pub fn end_cycle(&mut self, last_frame_time: u32) -> (control: Control)
        ensures
            control == Control::Continue,
            final(self)@ == (ProcessorState { last_frame_time, ..old(self)@ }),
    {
        self.last_frame_time = last_frame_time;
        Control::Continue
    }
}

/// The other side of a port pair.
pub struct JackMidiConnection {
    midi_rx: MidiRecevier,
    midi_tx: MidiSender,
}

impl JackMidiConnection {
    /// The end from which messages from JACK come.
    pub closed spec fn rx(&self) -> MidiRecevier {
        self.midi_rx
    }

    /// The end into which messages for JACK go.
    pub closed spec fn tx(&self) -> MidiSender {
        self.midi_tx
    }

    /// Both sides of a new port pair: what one of them sends, the other receives.
    pub fn new() -> (sides: (Self, JackMidiProcessor))
        ensures
            linked(sides.0.tx()@, sides.1@.rx, Seq::empty()),
            linked(sides.1@.tx, sides.0.rx()@, Seq::empty()),
            sides.0.tx()@.stream == sides.1@.rx.stream,
            sides.0.tx()@.waker == sides.1@.rx.waker,
            sides.1@.tx.stream == sides.0.rx()@.stream,
            sides.1@.tx.waker == sides.0.rx()@.waker,
            sides.0.tx()@.slots == RING_SIZE,
            sides.1@.tx.slots == RING_SIZE,
            sides.0.tx()@.slots == 32768,
            sides.1@.tx.slots == 32768,
            sides.0.rx()@.builder.limit == 4096,
            sides.1@.rx.builder.limit == 4096,
            sides.0.tx()@.sent == 0,
            sides.1@.tx.sent == 0,
            sides.0.rx()@.taken == 0,
            sides.1@.rx.taken == 0,
            sides.0.rx()@.builder == BuilderState::fresh(MESSAGE_LIMIT as nat),
            sides.1@.rx.builder == BuilderState::fresh(MESSAGE_LIMIT as nat),
            sides.0.rx()@.time == seq![0u8, 0u8, 0u8, 0u8],
            sides.1@.rx.time == seq![0u8, 0u8, 0u8, 0u8],
            sides.0.tx()@.wakeups == 0,
            sides.1@.tx.wakeups == 0,
            sides.1@.last_frame_time == 0,
            !sides.1@.write_err,
            !sides.1@.buf_full,
    {
        let (midi_tx, jack_midi_rx) = create_midi_ring(RING_SIZE);
        let (jack_midi_tx, midi_rx) = create_midi_ring(RING_SIZE);
        let processor = JackMidiProcessor {
            midi_rx: jack_midi_rx,
            midi_tx: jack_midi_tx,
            last_frame_time: 0,
            midi_write_err: false,
            tx_buf_full: false,
        };
        (JackMidiConnection { midi_rx, midi_tx }, processor)
    }

    /// The two ends that this side holds.
    pub fn split(&mut self) -> (ends: (&mut MidiSender, &mut MidiRecevier))
        ensures
            *ends.0 == old(self).tx(),
            *ends.1 == old(self).rx(),
            final(self).tx() == *final(ends.0),
            final(self).rx() == *final(ends.1),
    {
        (&mut self.midi_tx, &mut self.midi_rx)
    }
}

/// The names of the two ports of a port pair, the one that JACK writes to first.
pub fn port_names(port_name: &str) -> (names: (String, String))
    ensures
        names.0@ == port_name@ + "_in"@,
        names.1@ == port_name@ + "_out"@,
{
    let mut input = port_name.to_owned();
    input.append("_in");
    let mut output = port_name.to_owned();
    output.append("_out");
    (input, output)
}

/// A message is due within the cycle, at its distance from the start of the cycle before
/// where that is possible, and an earlier message is never due later than a later one.
pub proof fn lemma_due_in_order(one: u32, other: u32, last_frame_time: u32, n_frames: u32)
    requires
        one <= other,
    ensures
        due_frame(one, last_frame_time, n_frames) <= due_frame(other, last_frame_time, n_frames)
            <= n_frames,
        last_frame_time <= one <= last_frame_time + n_frames ==> due_frame(
            one,
            last_frame_time,
            n_frames,
        ) == one - last_frame_time,
{
}

/// Of a run of equal outcomes only the first is reported.
pub proof fn lemma_reported_once(failing: bool, succeeded: bool)
    ensures
        notice_of(!succeeded, succeeded) == Notice::Nothing,
        notice_of(failing, succeeded) != Notice::Nothing <==> failing == succeeded,
        notice_of(failing, succeeded) == Notice::Failed <==> !failing && !succeeded,
        notice_of(failing, succeeded) == Notice::Resolved <==> failing && succeeded,
{
}

} // verus!
