//! A queue of MIDI messages between two threads.
//!
//! A message travels as a frame: the four bytes of its time, the least significant one
//! first, and the bytes of the message. The receiver finds the end of a frame by taking
//! the message apart.
use crate::bytes::{from_le_bytes, le_bytes, le_value, to_le_bytes};
use crate::midi_builder::{BuilderState, MidiBuilder, MESSAGE_LIMIT};
use crate::ring_buffer::{
    available, consumer_count, consumer_marks, consumer_slots, consumer_stream, consumer_waiting,
    create_ring_buffer, new_notify, producer_count, producer_marks, producer_slots,
    producer_stream, read_slices, write_slices, Bell,
};
use crate::ring_laws::lemma_message_takes_bytes;
use direct_ring_buffer::{Consumer, Producer};
use std::sync::Arc;
use tokio::sync::Notify;
use vstd::prelude::*;

verus! {

/// A message together with the time at which it is due.
pub struct Message {
    /// The time, in frames.
    pub time: u32,
    /// The bytes of the message.
    pub bytes: Seq<u8>,
}

impl Message {
    /// The bytes that stand for this message in a ring.
    pub open spec fn frame(self) -> Seq<u8> {
        le_bytes(self.time) + self.bytes
    }
}

/// A MIDI message that borrows its bytes.
#[derive(Clone, Copy, Debug)]
pub struct RawMidi<'a> {
    /// The time, in frames.
    pub time: u32,
    /// The bytes of the message.
    pub bytes: &'a [u8],
}

impl<'a> View for RawMidi<'a> {
    type V = Message;

    open spec fn view(&self) -> Message {
        Message { time: self.time, bytes: self.bytes@ }
    }
}

/// The message of an optional borrowed message.
pub open spec fn midi_view(midi: Option<RawMidi<'_>>) -> Option<Message> {
    match midi {
        Some(raw) => Some(raw@),
        None => None,
    }
}

/// What a receiver holds while it reads one message.
pub struct ReadState {
    /// The builder that collects the bytes of the message.
    pub builder: BuilderState,
    /// The bytes of the message's time.
    pub time: Seq<u8>,
}

impl ReadState {
    /// Reads the piece `chunk`, in front of which `offset` bytes were taken in the same
    /// read. Returns the new state and how many bytes were taken.
    ///
    /// A piece of less than four bytes that starts inside the time is taken whole, and
    /// only those of its bytes are used that come before the piece's own length.
    pub open spec fn chunk_read(self, chunk: Seq<u8>, offset: nat) -> (ReadState, nat) {
        let head = if chunk.len() < 4 { chunk.len() } else { 4 };
        let time = if offset < head {
            self.time.take(offset as int) + chunk.take(head - offset) + self.time.skip(head as int)
        } else {
            self.time
        };
        if offset < 4 && chunk.len() < 4 {
            (ReadState { time, ..self }, chunk.len())
        } else {
            let from = if offset < 4 { (4 - offset) as nat } else { 0 };
            let scan = self.builder.scanned(chunk.skip(from as int));
            (ReadState { builder: scan.builder, time }, from + scan.count)
        }
    }

    /// Reads `contents`, which a ring hands out in two pieces, the first of at most
    /// `until_wrap` bytes. The second piece is read only if the first was taken whole.
    pub open spec fn drained(self, contents: Seq<u8>, until_wrap: nat) -> (ReadState, nat) {
        if contents.len() == 0 {
            (self, 0)
        } else if contents.len() <= until_wrap {
            self.chunk_read(contents, 0)
        } else {
            let first = self.chunk_read(contents.take(until_wrap as int), 0);
            if first.1 < until_wrap {
                first
            } else {
                let second = first.0.chunk_read(contents.skip(until_wrap as int), until_wrap);
                (second.0, until_wrap + second.1)
            }
        }
    }

    /// The message that was read, if one was.
    pub open spec fn message(self) -> Option<Message> {
        match self.builder.message() {
            Some(bytes) => Some(Message { time: le_value(self.time), bytes }),
            None => None,
        }
    }
}

/// Fills `ring`, in front of which `offset` bytes were written in the same write, with the
/// bytes of a frame from position `offset` on.
pub fn write_chunk(ring: &mut [u8], offset: usize, time: &[u8; 4], bytes: &[u8]) -> (written: usize)
    requires
        offset + old(ring)@.len() <= 4 + bytes@.len(),
    ensures
        written == old(ring)@.len(),
        final(ring)@ == (time@ + bytes@).subrange(offset as int, offset + old(ring)@.len()),
{
    let ghost frame = time@ + bytes@;
    let len = ring.len();
    let mut read_offset: usize = offset;
    let mut write_offset: usize = 0;
    while read_offset < 4
        invariant
            write_offset <= len,
            len == ring@.len() == old(ring)@.len(),
            read_offset == offset + write_offset,
            offset + len <= frame.len(),
            frame == time@ + bytes@,
            forall|i: int| 0 <= i < write_offset ==> ring@[i] == frame[offset + i],
        decreases 4 - read_offset,
    {
        if len <= write_offset {
            assert(ring@ =~= frame.subrange(offset as int, offset + len));
            return len;
        }
        ring[write_offset] = time[read_offset];
        read_offset += 1;
        write_offset += 1;
    }
    let mut bytes_offset: usize = read_offset - 4;
    while write_offset < len
        invariant
            write_offset <= len,
            len == ring@.len() == old(ring)@.len(),
            4 + bytes_offset == offset + write_offset,
            offset + len <= frame.len(),
            frame == time@ + bytes@,
            forall|i: int| 0 <= i < write_offset ==> ring@[i] == frame[offset + i],
        decreases len - write_offset,
    {
        ring[write_offset] = bytes[bytes_offset];
        bytes_offset += 1;
        write_offset += 1;
    }
    assert(ring@ =~= frame.subrange(offset as int, offset + len));
    len
}

/// Reads the piece `ring`, in front of which `offset` bytes were taken in the same read,
/// into `time` and `builder`. Returns how many bytes were taken.
pub fn read_chunk(
    builder: &mut MidiBuilder,
    time: &mut [u8; 4],
    ring: &[u8],
    offset: usize,
) -> (taken: usize)
    ensures
        ({
            let before = ReadState { builder: old(builder)@, time: old(time)@ };
            let after = ReadState { builder: final(builder)@, time: final(time)@ };
            (after, taken as nat) == before.chunk_read(ring@, offset as nat)
        }),
        taken <= ring@.len(),
{
    let ghost head: int = if ring@.len() < 4 { ring@.len() as int } else { 4 };
    let mut offset_now: usize = offset;
    let mut read_offset: usize = 0;
    while offset_now < 4
        invariant
            offset_now == offset + read_offset,
            offset_now <= head || read_offset == 0,
            head == if ring@.len() < 4 { ring@.len() as int } else { 4 },
            builder@ == old(builder)@,
            time@ =~= if offset < offset_now {
                old(time)@.take(offset as int) + ring@.take(read_offset as int)
                    + old(time)@.skip(offset_now as int)
            } else {
                old(time)@
            },
        decreases 4 - offset_now,
    {
        if ring.len() <= offset_now {
            return ring.len();
        }
        time[offset_now] = ring[read_offset];
        offset_now += 1;
        read_offset += 1;
    }
    let (next, _) = builder.scan(ring, read_offset);
    next
}

/// Whether no message ends between the places `from` and `to` of a stream.
pub open spec fn unmarked(marks: Set<nat>, from: nat, to: nat) -> bool {
    forall|place: nat| from < place < to ==> !#[trigger] marks.contains(place)
}

/// What a sender has sent.
pub struct SenderState {
    /// The bytes that pass through the ring during its whole life.
    pub stream: Seq<u8>,
    /// The places in the stream at which a message ends, and the start of the stream.
    pub marks: Set<nat>,
    /// How many bytes the sender has put into the ring.
    pub sent: nat,
    /// How many bytes the ring can hold.
    pub slots: nat,
    /// What the sender notifies.
    pub waker: Notify,
    /// How often the sender has notified it.
    pub wakeups: nat,
}

impl SenderState {
    /// Whether `after` is this state after `message` was put into the ring and the
    /// receiver was notified, once.
    pub open spec fn sends(self, after: SenderState, message: Message) -> bool {
        &&& after.stream == self.stream
        &&& after.marks == self.marks
        &&& after.slots == self.slots
        &&& after.waker == self.waker
        &&& after.wakeups == self.wakeups + 1
        &&& message.frame().len() <= self.slots
        &&& after.sent == self.sent + message.frame().len()
        &&& after.sent <= after.stream.len()
        &&& after.stream.subrange(self.sent as int, after.sent as int) == message.frame()
        &&& unmarked(after.marks, self.sent, after.sent)
    }

    /// Whether `after` is this state after `message` was offered to the ring and was put
    /// into it or not, as `sent` says.
    ///
    /// How much of what was sent has been taken is up to the other end, and so is whether
    /// there is room, except where the message is larger than the ring, or fits besides
    /// all that was ever sent.
    pub open spec fn offers(self, after: SenderState, message: Message, sent: bool) -> bool {
        &&& sent ==> self.sends(after, message)
        &&& !sent ==> after == self
        &&& message.frame().len() > self.slots ==> !sent
        &&& self.sent + message.frame().len() <= self.slots ==> sent
    }
}

/// Whether a message of `len` bytes fits into `free` slots, its time included.
pub fn frame_fits(free: usize, len: usize) -> (fits: bool)
    ensures
        fits == (len + 4 <= free),
{
    free >= 4 && free - 4 >= len
}

/// The sending end of a ring.
pub struct MidiSender {
    bell: Bell,
    producer: Producer<u8>,
}

impl View for MidiSender {
    type V = SenderState;

    closed spec fn view(&self) -> SenderState {
        SenderState {
            stream: producer_stream(self.producer),
            marks: producer_marks(self.producer),
            sent: producer_count(self.producer),
            slots: producer_slots(self.producer),
            waker: self.bell.target(),
            wakeups: self.bell.count(),
        }
    }
}

impl MidiSender {
    /// Puts `midi` into the ring and notifies the receiver, unless the ring has no room for
    /// the whole of it. Returns whether the message was put into the ring.
    pub fn send(&mut self, midi: RawMidi<'_>) -> (sent: bool)
        ensures
            old(self)@.offers(final(self)@, midi@, sent),
            old(self)@.sent + 4 + midi.bytes@.len() <= old(self)@.slots ==> sent,
            sent ==> 4 + midi.bytes@.len() <= old(self)@.slots,
            !sent ==> final(self)@ == old(self)@,
            sent ==> {
                let from = old(self)@.sent as int;
                let to = final(self)@.sent as int;
                let put = final(self)@.stream.subrange(from, to);
                &&& to == from + 4 + midi.bytes@.len()
                &&& put.take(4) == le_bytes(midi.time)
                &&& put.skip(4) == midi.bytes@
                &&& final(self)@.wakeups == old(self)@.wakeups + 1
                &&& final(self)@.waker == old(self)@.waker
                &&& final(self)@.stream == old(self)@.stream
                &&& final(self)@.slots == old(self)@.slots
            },
    {
        let free = available(&self.producer);
        if !frame_fits(free, midi.bytes.len()) {
            return false;
        }
        let size: usize = midi.bytes.len() + 4;
        let time = to_le_bytes(midi.time);
        let _ = write_slices(&mut self.producer, &time, midi.bytes, size);
        assert((time@ + midi.bytes@).take(size as int) =~= midi@.frame());
        self.bell.ring();
        assert(midi@.frame().take(4) =~= le_bytes(midi.time));
        assert(midi@.frame().skip(4) =~= midi.bytes@);
        true
    }
}

/// What a receiver has taken and what it finds.
pub struct ReceiverState {
    /// The bytes that pass through the ring during its whole life.
    pub stream: Seq<u8>,
    /// The places in the stream at which a message ends, and the start of the stream.
    pub marks: Set<nat>,
    /// How many bytes the receiver has taken out of the ring.
    pub taken: nat,
    /// How many bytes the ring can hold.
    pub slots: nat,
    /// How many bytes the next read finds in the ring.
    pub waiting: nat,
    /// What the sender notifies.
    pub waker: Notify,
    /// The builder, as the last read left it.
    pub builder: BuilderState,
    /// The bytes of the time, as the last read left them.
    pub time: Seq<u8>,
}

impl ReceiverState {
    /// The bytes that the next read finds in the ring.
    pub open spec fn contents(self) -> Seq<u8> {
        self.stream.subrange(self.taken as int, (self.taken + self.waiting) as int)
    }

    /// How many bytes lie between the next byte to take and the end of the ring's memory.
    pub open spec fn until_wrap(self) -> nat {
        (self.slots - self.taken as int % self.slots as int) as nat
    }

    /// The outcome of the next read: what the receiver holds then, and how many bytes it
    /// has taken.
    pub open spec fn next_read(self) -> (ReadState, nat) {
        let start = ReadState { builder: self.builder.restarted(), time: self.time };
        start.drained(self.contents(), self.until_wrap())
    }

    /// Whether `after` is this state after a read that returned `message`.
    pub open spec fn receives(self, after: ReceiverState, message: Option<Message>) -> bool {
        let read = self.next_read();
        &&& message == read.0.message()
        &&& after.builder == read.0.builder
        &&& after.time == read.0.time
        &&& after.stream == self.stream
        &&& after.marks == self.marks
        &&& after.slots == self.slots
        &&& after.waker == self.waker
        &&& after.taken == self.taken + read.1
        &&& read.1 <= self.waiting <= after.waiting + read.1
        &&& self.marks.contains(self.taken + self.waiting)
        &&& after.taken + after.waiting <= after.stream.len()
    }
}

/// The receiving end of a ring.
pub struct MidiRecevier {
    notify: Arc<Notify>,
    consumer: Consumer<u8>,
    builder: MidiBuilder,
    time: [u8; 4],
}

impl View for MidiRecevier {
    type V = ReceiverState;

    closed spec fn view(&self) -> ReceiverState {
        ReceiverState {
            stream: consumer_stream(self.consumer),
            marks: consumer_marks(self.consumer),
            taken: consumer_count(self.consumer),
            slots: consumer_slots(self.consumer),
            waiting: consumer_waiting(self.consumer),
            waker: *self.notify,
            builder: self.builder@,
            time: self.time@,
        }
    }
}

impl MidiRecevier {
    /// What the sender notifies when it has sent something.
    pub fn notifier(&self) -> (notify: Arc<Notify>)
        ensures
            *notify == self@.waker,
    {
        self.notify.clone()
    }

    /// Takes the next message out of the ring, if there is one.
    pub fn recv(&mut self) -> (midi: Option<RawMidi<'_>>)
        ensures
            old(self)@.receives(final(self)@, midi_view(midi)),
            midi is None <==> old(self)@.next_read().0.message() is None,
            midi matches Some(raw) ==> (old(self)@.next_read().0.message() matches Some(message)
                && raw.time == message.time && raw.bytes@ == message.bytes),
    {
        self.builder.reset();
        let _ = read_slices(&mut self.consumer, &mut self.builder, &mut self.time);
        match self.builder.message() {
            Some(bytes) => Some(RawMidi { time: from_le_bytes(self.time), bytes }),
            None => None,
        }
    }
}

/// Whether reads lead from each of `states` to the next and return `messages`.
pub open spec fn reads_in_turn(states: Seq<ReceiverState>, messages: Seq<Message>) -> bool {
    &&& states.len() == messages.len() + 1
    &&& forall|i: int|
        #![trigger messages[i]]
        0 <= i < messages.len() ==> states[i].receives(states[i + 1], Some(messages[i]))
}

/// Whether `f` may answer `answer` when it is given `message`.
pub open spec fn answers<F: Fn(RawMidi<'_>) -> bool>(
    f: F,
    message: Message,
    answer: bool,
) -> bool {
    exists|midi: RawMidi<'_>| midi@ == message && call_ensures(f, (midi,), answer)
}

/// Whether a run of reads that returned `messages` and went through `states` was ended in
/// `last`, either because `f` turned down the last message or because nothing was left.
pub open spec fn ends_with<F: Fn(RawMidi<'_>) -> bool>(
    f: F,
    states: Seq<ReceiverState>,
    messages: Seq<Message>,
    last: ReceiverState,
) -> bool {
    let accepted = |count: int|
        forall|i: int| #![trigger messages[i]] 0 <= i < count ==> answers(f, messages[i], true);
    ||| {
        &&& accepted(messages.len() as int)
        &&& states.last().receives(last, None)
    }
    ||| {
        &&& messages.len() > 0
        &&& accepted(messages.len() - 1)
        &&& answers(f, messages.last(), false)
        &&& states.last() == last
    }
}

/// A run of reads hands `f` each message that a read returned, in order, and goes on as long
/// as `f` accepts them. It ends with the first message that `f` turns down, which is the last
/// one that was read, or with a read that returns nothing.
pub proof fn lemma_run_of_reads<F: Fn(RawMidi<'_>) -> bool>(
    f: F,
    states: Seq<ReceiverState>,
    messages: Seq<Message>,
    last: ReceiverState,
)
    requires
        reads_in_turn(states, messages),
        ends_with(f, states, messages, last),
    ensures
        states.len() == messages.len() + 1,
        forall|i: int|
            #![trigger messages[i]]
            0 <= i < messages.len() ==> states[i].receives(states[i + 1], Some(messages[i])),
        forall|i: int|
            #![trigger messages[i]]
            0 <= i < messages.len() - 1 ==> exists|midi: RawMidi<'_>|
                midi.time == messages[i].time && midi.bytes@ == messages[i].bytes
                    && #[trigger] call_ensures(f, (midi,), true),
        ({
            ||| states.last().receives(last, None)
            ||| messages.len() > 0 && states.last() == last && exists|midi: RawMidi<'_>|
                midi.time == messages.last().time && midi.bytes@ == messages.last().bytes
                    && #[trigger] call_ensures(f, (midi,), false)
        }),
{
    assert forall|i: int| #![trigger messages[i]] 0 <= i < messages.len() - 1 implies exists|
        midi: RawMidi<'_>,
    |
        midi.time == messages[i].time && midi.bytes@ == messages[i].bytes
            && #[trigger] call_ensures(f, (midi,), true) by {
        assert(answers(f, messages[i], true));
        let midi = choose|midi: RawMidi<'_>|
            midi@ == messages[i] && call_ensures(f, (midi,), true);
        assert(midi@.time == midi.time && call_ensures(f, (midi,), true));
    }
    if !states.last().receives(last, None) {
        assert(answers(f, messages.last(), false));
        let midi = choose|midi: RawMidi<'_>|
            midi@ == messages.last() && call_ensures(f, (midi,), false);
        assert(midi@.time == midi.time && call_ensures(f, (midi,), false));
    }
}

impl MidiRecevier {
    /// Gives `f` the messages in the ring, one after the other, until it turns one down or
    /// none is left.
    pub fn recv_while<F: Fn(RawMidi<'_>) -> bool>(&mut self, f: F)
        requires
            forall|midi: RawMidi<'_>| call_requires(f, (midi,)),
        ensures
            exists|states: Seq<ReceiverState>, messages: Seq<Message>| #[trigger]
                reads_in_turn(states, messages) && states[0] == old(self)@ && ends_with(
                    f,
                    states,
                    messages,
                    final(self)@,
                ),
            (forall|midi: RawMidi<'_>, answer: bool| #[trigger]
                call_ensures(f, (midi,), answer) ==> answer) ==> exists|
                states: Seq<ReceiverState>,
                messages: Seq<Message>,
            | #[trigger]
                reads_in_turn(states, messages) && states[0] == old(self)@
                    && states.last().receives(final(self)@, None),
    {
        let ghost mut states: Seq<ReceiverState> = seq![self@];
        let ghost mut messages: Seq<Message> = Seq::empty();
        loop
            invariant
                reads_in_turn(states, messages),
                states[0] == old(self)@,
                states.last() == self@,
                forall|i: int| #![trigger messages[i]] 0 <= i < messages.len() ==> answers(
                    f,
                    messages[i],
                    true,
                ),
                forall|midi: RawMidi<'_>| call_requires(f, (midi,)),
            decreases self@.stream.len() - self@.taken,
        {
            let ghost before = self@;
            match self.recv() {
                Some(midi) => {
                    let ghost message = midi@;
                    let go_on = f(midi);
                    proof {
                        assert(answers(f, message, go_on));
                        lemma_message_takes_bytes(before, self@, message);
                        let longer = messages.push(message);
                        let further = states.push(self@);
                        assert forall|i: int| #![trigger longer[i]] 0 <= i < longer.len() implies
                            further[i].receives(further[i + 1], Some(longer[i])) by {
                            if i < messages.len() {
                                assert(longer[i] == messages[i]);
                            }
                        }
                        assert forall|i: int| #![trigger longer[i]] 0 <= i < messages.len() implies
                            answers(f, longer[i], true) by {
                            assert(longer[i] == messages[i]);
                        }
                        messages = longer;
                        states = further;
                        assert(reads_in_turn(states, messages));
                    }
                    if !go_on {
                        return;
                    }
                },
                None => {
                    return;
                },
            }
        }
    }
}

/// The two ends of a new ring of `size` bytes.
pub fn create_midi_ring(size: usize) -> (ends: (MidiSender, MidiRecevier))
    requires
        size <= isize::MAX,
    ensures
        linked(ends.0@, ends.1@, Seq::empty()),
        ends.0@.stream == ends.1@.stream,
        ends.0@.marks == ends.1@.marks,
        ends.0@.waker == ends.1@.waker,
        ends.0@.sent == 0,
        ends.0@.slots == size,
        ends.0@.wakeups == 0,
        ends.1@.taken == 0,
        ends.1@.slots == size,
        ends.1@.builder == BuilderState::fresh(MESSAGE_LIMIT as nat),
        ends.1@.builder.limit == 4096,
        !ends.1@.builder.oversized,
        ends.1@.time == seq![0u8, 0u8, 0u8, 0u8],
{
    let (producer, consumer) = create_ring_buffer(size);
    let notify = Arc::new(new_notify());
    let sender = MidiSender { bell: Bell::new(notify.clone()), producer };
    let receiver = MidiRecevier {
        notify,
        consumer,
        builder: MidiBuilder::with_capacity(MESSAGE_LIMIT),
        time: [0, 0, 0, 0],
    };
    assert(sender@.stream.subrange(0, 0) =~= frames(Seq::empty()));
    assert(receiver@.time =~= seq![0u8, 0u8, 0u8, 0u8]);
    (sender, receiver)
}

/// The frames of `messages`, one after the other.
pub open spec fn frames(messages: Seq<Message>) -> Seq<u8>
    decreases messages.len(),
{
    if messages.len() == 0 {
        Seq::empty()
    } else {
        frames(messages.drop_last()) + messages.last().frame()
    }
}

/// Whether `sender` and `receiver` are the ends of one ring, in which the messages of
/// `queue` are on their way.
pub open spec fn linked(
    sender: SenderState,
    receiver: ReceiverState,
    queue: Seq<Message>,
) -> bool {
    &&& sender.stream == receiver.stream
    &&& sender.marks == receiver.marks
    &&& sender.slots == receiver.slots
    &&& sender.waker == receiver.waker
    &&& receiver.taken <= sender.sent <= sender.stream.len()
    &&& sender.stream.subrange(receiver.taken as int, sender.sent as int) == frames(queue)
    &&& forall|i: int|
        #![trigger queue[i]]
        0 <= i < queue.len() ==> {
            let start = receiver.taken + frames(queue.take(i)).len();
            &&& queue[i].frame().len() <= sender.slots
            &&& unmarked(sender.marks, start, start + queue[i].frame().len())
        }
}

} // verus!
