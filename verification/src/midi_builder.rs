//! Reassembly of MIDI messages from a stream of single bytes.
use vstd::prelude::*;

verus! {

/// The most bytes of a message that the bridge handles.
pub const MESSAGE_LIMIT: usize = 4096;

/// How the end of a message is recognised.
#[derive(Clone, Copy, Debug, PartialEq, Eq, Structural)]
pub enum MidiLength {
    /// The message has this many bytes, status byte included.
    Fixed(usize),
    /// The message runs up to and with the first `0xf7`.
    SysEx,
}

/// The length rule that a status byte announces.
pub open spec fn length_of_status(status: u8) -> MidiLength {
    if status == 0xf0 {
        MidiLength::SysEx
    } else if status == 0xf2 || 0x80 <= status < 0xc0 || 0xe0 <= status < 0xf0 {
        MidiLength::Fixed(3)
    } else if status == 0xf3 || 0xc0 <= status < 0xe0 {
        MidiLength::Fixed(2)
    } else {
        MidiLength::Fixed(1)
    }
}

impl MidiLength {
    /// Whether `byte`, after which `len` bytes are held, ends the message.
    pub open spec fn ends(self, len: nat, byte: u8) -> bool {
        match self {
            MidiLength::Fixed(n) => len >= n,
            MidiLength::SysEx => byte == 0xf7,
        }
    }

    /// The length rule for a message whose first byte is `first_byte`.
    pub fn new(first_byte: u8) -> (length: Self)
        ensures
            length == length_of_status(first_byte),
            length is SysEx <==> first_byte == 0xf0,
            length == MidiLength::Fixed(3) <==> 0x80 <= first_byte <= 0xbf || 0xe0 <= first_byte
                <= 0xef || first_byte == 0xf2,
            length == MidiLength::Fixed(2) <==> 0xc0 <= first_byte <= 0xdf || first_byte == 0xf3,
            length matches MidiLength::Fixed(n) ==> 1 <= n <= 3,
    {
        match first_byte {
            0xf0 => MidiLength::SysEx,
            0xf2 | 0x80..=0xbf | 0xe0..=0xef => MidiLength::Fixed(3),
            0xf3 | 0xc0..=0xdf => MidiLength::Fixed(2),
            _ => MidiLength::Fixed(1),
        }
    }

    /// Whether `byte`, after which `len` bytes are held, is the last of the message.
    pub fn was_last_byte(&self, len: usize, byte: u8) -> (last: bool)
        ensures
            last == self.ends(len as nat, byte),
            *self is SysEx ==> last == (byte == 0xf7),
            *self matches MidiLength::Fixed(n) ==> last == (len >= n),
    {
        match self {
            MidiLength::Fixed(n) => len >= *n,
            MidiLength::SysEx => byte == 0xf7,
        }
    }
}

/// What a [`MidiBuilder`] remembers between two bytes.
pub struct BuilderState {
    /// The bytes kept of the current message.
    pub buffer: Seq<u8>,
    /// The length rule of the current message.
    pub length: MidiLength,
    /// Whether the current message has ended.
    pub done: bool,
    /// Whether the next byte has to start a message.
    pub reset: bool,
    /// Whether a message has ever outgrown the buffer.
    pub oversized: bool,
    /// The most bytes that are kept of a message.
    pub limit: nat,
}

impl BuilderState {
    /// The state before any byte has been seen.
    pub open spec fn fresh(limit: nat) -> Self {
        BuilderState {
            buffer: Seq::empty(),
            length: MidiLength::SysEx,
            done: true,
            reset: true,
            oversized: false,
            limit,
        }
    }

    /// The buffer holds no more than its limit, which leaves room for a status byte and
    /// one data byte.
    pub open spec fn wf(self) -> bool {
        &&& self.limit >= 2
        &&& self.buffer.len() <= self.limit
    }

    /// Whether the next byte starts a message.
    pub open spec fn at_start(self) -> bool {
        self.done || self.reset
    }

    /// Whether `byte` is dropped while the builder looks for the start of a message.
    pub open spec fn skips(self, byte: u8) -> bool {
        self.at_start() && byte < 0x80
    }

    /// The state in which `byte` is about to be stored.
    pub open spec fn opened(self, byte: u8) -> Self {
        if self.at_start() {
            BuilderState {
                buffer: Seq::empty(),
                length: length_of_status(byte),
                done: false,
                reset: false,
                ..self
            }
        } else {
            self
        }
    }

    /// The state after `byte` was stored, or was found not to fit.
    pub open spec fn stored(self, byte: u8) -> Self {
        if self.buffer.len() < self.limit {
            BuilderState { buffer: self.buffer.push(byte), ..self }
        } else {
            BuilderState { oversized: true, ..self }
        }
    }

    /// The state after `byte`.
    pub open spec fn pushed(self, byte: u8) -> Self {
        if self.skips(byte) {
            BuilderState { buffer: Seq::empty(), ..self }
        } else {
            let s = self.opened(byte).stored(byte);
            BuilderState { done: s.length.ends(s.buffer.len(), byte), ..s }
        }
    }

    /// The message that `byte` completes, if it completes one.
    pub open spec fn completed(self, byte: u8) -> Option<Seq<u8>> {
        let s = self.pushed(byte);
        if !self.skips(byte) && s.done && !s.oversized {
            Some(s.buffer)
        } else {
            None
        }
    }

    /// Whether `byte` ends a message that is dropped because one has outgrown the buffer.
    pub open spec fn drops(self, byte: u8) -> bool {
        let s = self.pushed(byte);
        !self.skips(byte) && s.done && s.oversized
    }

    /// The state after a request to start over.
    pub open spec fn restarted(self) -> Self {
        BuilderState { reset: true, ..self }
    }

    /// The bytes of the current message, once it has ended.
    pub open spec fn message(self) -> Option<Seq<u8>> {
        if self.done && !self.reset {
            Some(self.buffer)
        } else {
            None
        }
    }
}

/// What became of a run of bytes that was pushed up to the end of a message.
pub struct Scan {
    /// The builder after the last byte pushed.
    pub builder: BuilderState,
    /// How many bytes were pushed.
    pub count: nat,
    /// The message that the last byte pushed completes, if it completes one.
    pub message: Option<Seq<u8>>,
}

impl BuilderState {
    /// Pushes the bytes of `data` until one of them completes a message.
    pub open spec fn scanned(self, data: Seq<u8>) -> Scan
        decreases data.len(),
    {
        if data.len() == 0 {
            Scan { builder: self, count: 0, message: None }
        } else if self.completed(data[0]) is Some {
            Scan {
                builder: self.pushed(data[0]),
                count: 1,
                message: self.completed(data[0]),
            }
        } else {
            let rest = self.pushed(data[0]).scanned(data.skip(1));
            Scan { count: rest.count + 1, ..rest }
        }
    }

    /// The state after all bytes of `data`.
    pub open spec fn fed(self, data: Seq<u8>) -> Self
        decreases data.len(),
    {
        if data.len() == 0 {
            self
        } else {
            self.pushed(data[0]).fed(data.skip(1))
        }
    }

    /// The messages that the bytes of `data` complete, in order.
    pub open spec fn delivered(self, data: Seq<u8>) -> Seq<Seq<u8>>
        decreases data.len(),
    {
        if data.len() == 0 {
            Seq::empty()
        } else {
            let rest = self.pushed(data[0]).delivered(data.skip(1));
            match self.completed(data[0]) {
                Some(message) => seq![message] + rest,
                None => rest,
            }
        }
    }

    /// The bytes of `data` that are dropped in front of the start of a message, in order.
    pub open spec fn skipped(self, data: Seq<u8>) -> Seq<u8>
        decreases data.len(),
    {
        if data.len() == 0 {
            Seq::empty()
        } else {
            let rest = self.pushed(data[0]).skipped(data.skip(1));
            if self.skips(data[0]) {
                seq![data[0]] + rest
            } else {
                rest
            }
        }
    }

    /// How many messages that end in `data` are dropped because one has outgrown the buffer.
    pub open spec fn dropped(self, data: Seq<u8>) -> nat
        decreases data.len(),
    {
        if data.len() == 0 {
            0
        } else {
            let rest = self.pushed(data[0]).dropped(data.skip(1));
            if self.drops(data[0]) {
                rest + 1
            } else {
                rest
            }
        }
    }

    /// The state after the first `count` bytes of `message`, none of which ended it.
    pub open spec fn midway(self, message: Seq<u8>, count: nat) -> Self {
        if count == 0 {
            self
        } else {
            BuilderState {
                buffer: message.take(count as int),
                length: length_of_status(message[0]),
                done: false,
                reset: false,
                ..self
            }
        }
    }

    /// The state after the whole of `message`.
    pub open spec fn after_message(self, message: Seq<u8>) -> Self {
        BuilderState {
            buffer: message,
            length: length_of_status(message[0]),
            done: true,
            reset: false,
            ..self
        }
    }
}

/// Whether `bytes` is one whole message: a status byte and as many bytes as it announces,
/// or everything up to and with the first `0xf7` if it opens a system exclusive message.
pub open spec fn is_message(bytes: Seq<u8>) -> bool {
    &&& bytes.len() > 0
    &&& bytes[0] >= 0x80
    &&& match length_of_status(bytes[0]) {
        MidiLength::Fixed(n) => bytes.len() == n,
        MidiLength::SysEx => {
            &&& bytes.last() == 0xf7
            &&& forall|i: int| 0 <= i < bytes.len() - 1 ==> bytes[i] != 0xf7
        },
    }
}

/// What became of a byte that was given to a [`MidiBuilder`].
#[derive(Clone, Copy, Debug, PartialEq, Eq)]
pub enum Taken<'a> {
    /// It cannot start a message and was dropped.
    Skipped,
    /// It belongs to a message that goes on.
    Kept,
    /// It ended a message that is dropped because one has outgrown the buffer.
    TooLong,
    /// It completed this message.
    Message(&'a [u8]),
}

impl<'a> Taken<'a> {
    /// Whether this is what becomes of `byte` in a builder in `state`.
    pub open spec fn comes_of(self, state: BuilderState, byte: u8) -> bool {
        match self {
            Taken::Skipped => state.skips(byte),
            Taken::Kept => !state.skips(byte) && !state.drops(byte) && state.completed(
                byte,
            ) is None,
            Taken::TooLong => state.drops(byte),
            Taken::Message(message) => state.completed(byte) == Some(message@),
        }
    }
}

/// Collects bytes into MIDI messages.
///
/// Bytes in front of a status byte are dropped, so that the builder falls into step with
/// a stream that it joined in the middle of a message.
pub struct MidiBuilder {
    buffer: Vec<u8>,
    limit: usize,
    length: MidiLength,
    done: bool,
    reset: bool,
    oversized: bool,
}

impl View for MidiBuilder {
    type V = BuilderState;

    closed spec fn view(&self) -> BuilderState {
        BuilderState {
            buffer: self.buffer@,
            length: self.length,
            done: self.done,
            reset: self.reset,
            oversized: self.oversized,
            limit: self.limit as nat,
        }
    }
}

/// The bytes of an optional slice.
pub open spec fn slice_view(slice: Option<&[u8]>) -> Option<Seq<u8>> {
    match slice {
        Some(bytes) => Some(bytes@),
        None => None,
    }
}

impl MidiBuilder {
    /// A builder for messages of up to `capacity` bytes, two at least.
    pub fn with_capacity(capacity: usize) -> (builder: Self)
        requires
            capacity <= isize::MAX,
        ensures
            builder@ == BuilderState::fresh(if capacity < 2 { 2 } else { capacity as nat }),
            builder@.wf(),
            builder@.limit == if capacity < 2 { 2 } else { capacity as int },
            builder@.reset && builder@.done && !builder@.oversized,
            builder@.buffer == Seq::<u8>::empty(),
    {
        let limit: usize = if capacity < 2 {
            2
        } else {
            capacity
        };
        MidiBuilder {
            buffer: Vec::with_capacity(limit),
            limit,
            length: MidiLength::SysEx,
            done: true,
            reset: true,
            oversized: false,
        }
    }

    /// Takes the next byte and says what became of it.
    pub fn take(&mut self, byte: u8) -> (taken: Taken<'_>)
        ensures
            final(self)@ == old(self)@.pushed(byte),
            taken.comes_of(old(self)@, byte),
            taken is Skipped <==> old(self)@.skips(byte),
            taken is TooLong <==> old(self)@.drops(byte),
            taken is Message <==> old(self)@.completed(byte) is Some,
            taken matches Taken::Message(message) ==> old(self)@.completed(byte) == Some(
                message@,
            ),
    {
        if self.done || self.reset {
            self.buffer.clear();

            // Every message starts with a status byte: until one comes, drop what is not.
            if byte < 0x80 {
                return Taken::Skipped;
            }
            self.length = MidiLength::new(byte);
            self.done = false;
            self.reset = false;
        }
        if self.buffer.len() < self.limit {
            self.buffer.push(byte);
        } else {
            self.oversized = true;
        }
        if self.length.was_last_byte(self.buffer.len(), byte) {
            self.done = true;
            if self.oversized {
                Taken::TooLong
            } else {
                Taken::Message(self.buffer.as_slice())
            }
        } else {
            Taken::Kept
        }
    }

    /// Takes the next byte and returns the message that it completes, if any.
    pub fn push(&mut self, byte: u8) -> (message: Option<&[u8]>)
        ensures
            final(self)@ == old(self)@.pushed(byte),
            slice_view(message) == old(self)@.completed(byte),
    {
        match self.take(byte) {
            Taken::Message(message) => Some(message),
            _ => None,
        }
    }

    /// Takes the bytes of `data` from position `from` on until one of them completes a
    /// message. Returns the position behind the last byte taken, and the message.
    pub fn scan(&mut self, data: &[u8], from: usize) -> (found: (usize, Option<&[u8]>))
        requires
            from <= data@.len(),
        ensures
            ({
                let scan = old(self)@.scanned(data@.skip(from as int));
                &&& final(self)@ == scan.builder
                &&& found.0 == from + scan.count
                &&& slice_view(found.1) == scan.message
            }),
            from <= found.0 <= data@.len(),
    {
        let ghost all = self@.scanned(data@.skip(from as int));
        let mut next: usize = from;
        while next < data.len()
            invariant
                from <= next <= data@.len(),
                all == old(self)@.scanned(data@.skip(from as int)),
                all == ({
                    let rest = self@.scanned(data@.skip(next as int));
                    Scan { count: (next - from) as nat + rest.count, ..rest }
                }),
            decreases data@.len() - next,
        {
            let ghost rest = data@.skip(next as int);
            assert(rest[0] == data@[next as int]);
            assert(rest.skip(1) =~= data@.skip(next + 1));
            if self.push(data[next]).is_some() {
                return (next + 1, self.message());
            }
            next += 1;
        }
        (next, None)
    }

    /// Makes the next byte start a message.
    pub fn reset(&mut self)
        ensures
            final(self)@ == old(self)@.restarted(),
    {
        self.reset = true;
    }

    /// The bytes kept of the current message, once it has ended.
    pub fn message(&self) -> (message: Option<&[u8]>)
        ensures
            slice_view(message) == self@.message(),
    {
        if self.done && !self.reset {
            Some(self.buffer.as_slice())
        } else {
            None
        }
    }
}

/// A new builder has seen nothing, has nothing to show, and takes messages of up to its limit.
pub proof fn lemma_fresh(limit: nat)
    ensures
        BuilderState::fresh(limit).limit == limit,
        BuilderState::fresh(limit).reset,
        BuilderState::fresh(limit).at_start(),
        !BuilderState::fresh(limit).oversized,
        BuilderState::fresh(limit).buffer == Seq::<u8>::empty(),
        BuilderState::fresh(limit).message() is None,
{
}

/// The invariant of the builder's state: it holds of a fresh builder of the smallest limit
/// or more, and every operation keeps it.
pub proof fn lemma_wf_kept(state: BuilderState, byte: u8)
    requires
        state.wf(),
    ensures
        state.pushed(byte).wf(),
        state.restarted().wf(),
        state.pushed(byte).limit == state.limit,
        state.completed(byte) matches Some(message) ==> message.len() <= state.limit,
{
}

/// While a builder waits for the start of a message, bytes that cannot start one are
/// dropped: they complete nothing, and what follows is taken as if they had not come.
pub proof fn lemma_falls_into_step(state: BuilderState, noise: Seq<u8>, data: Seq<u8>)
    requires
        state.at_start(),
        forall|i: int| 0 <= i < noise.len() ==> noise[i] < 0x80,
    ensures
        state.delivered(noise) == Seq::<Seq<u8>>::empty(),
        state.delivered(noise + data) == state.delivered(data),
        state.skipped(noise) == noise,
        state.reset ==> state.fed(noise).message() is None,
    decreases noise.len(),
{
    if noise.len() == 0 {
        assert(noise + data =~= data);
    } else {
        let next = state.pushed(noise[0]);
        assert((noise + data)[0] == noise[0]);
        assert((noise + data).skip(1) =~= noise.skip(1) + data);
        lemma_falls_into_step(next, noise.skip(1), data);
        assert(seq![noise[0]] + noise.skip(1) =~= noise);
        if data.len() > 0 {
            assert(next.pushed(data[0]) == state.pushed(data[0]));
        }
    }
}

/// Once a message has outgrown the buffer, no byte completes a message any more.
pub proof fn lemma_oversized_stays(state: BuilderState, data: Seq<u8>)
    requires
        state.oversized,
    ensures
        state.fed(data).oversized,
        state.delivered(data) == Seq::<Seq<u8>>::empty(),
    decreases data.len(),
{
    if data.len() > 0 {
        lemma_oversized_stays(state.pushed(data[0]), data.skip(1));
    }
}

/// A byte in the middle of a message is stored and does not end it; the last byte does.
proof fn lemma_message_step(state: BuilderState, message: Seq<u8>, at: nat)
    requires
        is_message(message),
        state.at_start(),
        at < message.len(),
        at < state.limit,
    ensures
        ({
            let here = state.midway(message, at);
            let byte = message[at as int];
            &&& !here.skips(byte)
            &&& at + 1 < message.len() ==> {
                &&& here.pushed(byte) == state.midway(message, at + 1)
                &&& here.completed(byte) is None
            }
            &&& at + 1 == message.len() ==> {
                &&& here.pushed(byte) == state.after_message(message)
                &&& here.completed(byte) == if state.oversized { None } else { Some(message) }
            }
        }),
{
    let here = state.midway(message, at);
    let byte = message[at as int];
    let opened = here.opened(byte);
    assert(opened.buffer =~= message.take(at as int));
    assert(message.take(at as int).push(byte) =~= message.take((at + 1) as int));
    assert(message.take(message.len() as int) =~= message);
}

/// Part of a message up to a place in front of its last byte is taken whole.
pub proof fn lemma_scan_part(state: BuilderState, message: Seq<u8>, from: nat, to: nat)
    requires
        is_message(message),
        state.at_start(),
        message.len() <= state.limit,
        from <= to < message.len(),
    ensures
        state.midway(message, from).scanned(message.subrange(from as int, to as int)) == (Scan {
            builder: state.midway(message, to),
            count: (to - from) as nat,
            message: None,
        }),
    decreases to - from,
{
    let data = message.subrange(from as int, to as int);
    if from < to {
        lemma_message_step(state, message, from);
        lemma_scan_part(state, message, from + 1, to);
        assert(data[0] == message[from as int]);
        assert(data.skip(1) =~= message.subrange((from + 1) as int, to as int));
    }
}

/// The rest of a message is taken up to its last byte, whatever follows. A builder that
/// once was given too long a message does not stop there, so for it nothing may follow.
pub proof fn lemma_scan_rest(state: BuilderState, message: Seq<u8>, from: nat, after: Seq<u8>)
    requires
        is_message(message),
        state.at_start(),
        message.len() <= state.limit,
        from < message.len(),
        state.oversized ==> after.len() == 0,
    ensures
        state.midway(message, from).scanned(message.skip(from as int) + after) == (Scan {
            builder: state.after_message(message),
            count: (message.len() - from) as nat,
            message: if state.oversized { None } else { Some(message) },
        }),
    decreases message.len() - from,
{
    let data = message.skip(from as int) + after;
    lemma_message_step(state, message, from);
    assert(data[0] == message[from as int]);
    assert(data.skip(1) =~= message.skip((from + 1) as int) + after);
    if from + 1 < message.len() {
        lemma_scan_rest(state, message, from + 1, after);
    } else {
        assert(data.skip(1) =~= after);
        if state.oversized {
            reveal_with_fuel(BuilderState::scanned, 2);
        }
    }
}

/// No byte of the rest of a message that fits is dropped, nor is the message.
proof fn lemma_message_kept(state: BuilderState, message: Seq<u8>, from: nat)
    requires
        is_message(message),
        state.at_start(),
        !state.oversized,
        message.len() <= state.limit,
        from < message.len(),
    ensures
        ({
            let here = state.midway(message, from);
            let rest = message.skip(from as int);
            &&& here.skipped(rest) == Seq::<u8>::empty()
            &&& here.dropped(rest) == 0
        }),
    decreases message.len() - from,
{
    let here = state.midway(message, from);
    let rest = message.skip(from as int);
    lemma_message_step(state, message, from);
    assert(rest[0] == message[from as int]);
    assert(rest.skip(1) =~= message.skip((from + 1) as int));
    if from + 1 < message.len() {
        lemma_message_kept(state, message, from + 1);
    } else {
        assert(rest.skip(1) =~= Seq::<u8>::empty());
        assert(here.pushed(rest[0]).skipped(rest.skip(1)) =~= Seq::<u8>::empty());
        assert(here.pushed(rest[0]).dropped(rest.skip(1)) == 0);
    }
}

/// A message that does not fit is dropped, whatever its length. If it is a system exclusive
/// message, which has an end of its own, that is reported once.
pub proof fn lemma_too_long_dropped(state: BuilderState, message: Seq<u8>)
    requires
        is_message(message),
        state.wf(),
        state.at_start(),
        message.len() > state.limit,
    ensures
        state.delivered(message) == Seq::<Seq<u8>>::empty(),
        state.skipped(message) == Seq::<u8>::empty(),
        state.dropped(message) == if length_of_status(message[0]) is SysEx { 1nat } else { 0nat },
        state.fed(message).oversized,
{
    assert(message.skip(0) =~= message);
    lemma_too_long_from(state, message, 0);
}

/// The rest of a message that does not fit is dropped.
proof fn lemma_too_long_from(state: BuilderState, message: Seq<u8>, from: nat)
    requires
        is_message(message),
        state.wf(),
        state.at_start(),
        message.len() > state.limit,
        from <= state.limit,
    ensures
        ({
            let here = state.midway(message, from);
            let rest = message.skip(from as int);
            &&& here.delivered(rest) == Seq::<Seq<u8>>::empty()
            &&& here.skipped(rest) == Seq::<u8>::empty()
            &&& here.dropped(rest) == if length_of_status(message[0]) is SysEx {
                1nat
            } else {
                0nat
            }
            &&& here.fed(rest).oversized
        }),
    decreases state.limit - from,
{
    let here = state.midway(message, from);
    let rest = message.skip(from as int);
    let next = here.pushed(message[from as int]);
    assert(rest[0] == message[from as int]);
    assert(rest.skip(1) =~= message.skip((from + 1) as int));
    if from < state.limit {
        lemma_message_step(state, message, from);
        lemma_too_long_from(state, message, from + 1);
    } else {
        assert(here.opened(rest[0]).buffer.len() == from);
        assert(next.oversized);
        lemma_oversized_stays(next, rest.skip(1));
        lemma_overflow_counted(here, rest);
    }
}

/// The bytes `rest` at the end of a message that has filled the buffer are not skipped, and
/// the message is reported once, unless its length is fixed, so that it never ends.
proof fn lemma_overflow_counted(here: BuilderState, rest: Seq<u8>)
    requires
        !here.at_start(),
        here.buffer.len() >= here.limit,
        rest.len() > 0,
        match here.length {
            MidiLength::Fixed(n) => here.buffer.len() < n,
            MidiLength::SysEx => {
                &&& rest.last() == 0xf7
                &&& forall|i: int| 0 <= i < rest.len() - 1 ==> rest[i] != 0xf7
            },
        },
    ensures
        here.skipped(rest) == Seq::<u8>::empty(),
        here.dropped(rest) == if here.length is SysEx { 1nat } else { 0nat },
    decreases rest.len(),
{
    let next = here.pushed(rest[0]);
    let tail = rest.skip(1);
    if tail.len() > 0 {
        assert(tail.last() == rest.last());
        lemma_overflow_counted(next, tail);
    } else {
        assert(next.skipped(tail) =~= Seq::<u8>::empty());
        assert(next.dropped(tail) == 0);
    }
}

/// A builder that was once given too long a message takes every run of bytes whole.
pub proof fn lemma_oversized_scan(state: BuilderState, data: Seq<u8>)
    requires
        state.oversized,
    ensures
        state.scanned(data).count == data.len(),
        state.scanned(data).builder.oversized,
        state.scanned(data).message is None,
    decreases data.len(),
{
    if data.len() > 0 {
        lemma_oversized_scan(state.pushed(data[0]), data.skip(1));
    }
}

/// Where a stream of bytes is cut into packets does not change the messages found in it, nor
/// what is dropped of it.
pub proof fn lemma_packets_do_not_matter(state: BuilderState, first: Seq<u8>, second: Seq<u8>)
    ensures
        state.delivered(first + second) == state.delivered(first) + state.fed(first).delivered(
            second,
        ),
        state.fed(first + second) == state.fed(first).fed(second),
        state.skipped(first + second) == state.skipped(first) + state.fed(first).skipped(second),
        state.dropped(first + second) == state.dropped(first) + state.fed(first).dropped(second),
    decreases first.len(),
{
    let both = first + second;
    if first.len() == 0 {
        assert(both =~= second);
        assert(state.delivered(first) + state.delivered(second) =~= state.delivered(second));
        assert(state.skipped(first) + state.skipped(second) =~= state.skipped(second));
    } else {
        assert(both[0] == first[0]);
        assert(both.skip(1) =~= first.skip(1) + second);
        lemma_packets_do_not_matter(state.pushed(first[0]), first.skip(1), second);
        assert(state.delivered(both) =~= state.delivered(first) + state.fed(first).delivered(
            second,
        ));
        assert(state.skipped(both) =~= state.skipped(first) + state.fed(first).skipped(second));
    }
}

/// Pushing a run of bytes message by message finds the messages of the whole run.
pub proof fn lemma_scan_by_scan(state: BuilderState, data: Seq<u8>)
    ensures
        ({
            let scan = state.scanned(data);
            let rest = data.skip(scan.count as int);
            &&& scan.count <= data.len()
            &&& scan.builder == state.fed(data.take(scan.count as int))
            &&& scan.message is None ==> scan.count == data.len() && state.delivered(data)
                == Seq::<Seq<u8>>::empty()
            &&& scan.message matches Some(message) ==> scan.count > 0 && state.delivered(data)
                == seq![message] + scan.builder.delivered(rest)
        }),
    decreases data.len(),
{
    let scan = state.scanned(data);
    if data.len() == 0 {
        assert(data.take(0) =~= data);
    } else {
        let next = state.pushed(data[0]);
        let taken = data.take(scan.count as int);
        if state.completed(data[0]) is Some {
            assert(taken.skip(1) =~= Seq::<u8>::empty());
            assert(next.fed(taken.skip(1)) == next);
        } else {
            lemma_scan_by_scan(next, data.skip(1));
            let inner = next.scanned(data.skip(1));
            assert(taken.skip(1) =~= data.skip(1).take(inner.count as int));
            assert(data.skip(1).skip(inner.count as int) =~= data.skip(scan.count as int));
        }
    }
}

/// Every message comes out of a builder just as it went in, and nothing of it is dropped: a
/// status byte with two data bytes, with one or with none, whatever these are, and a system
/// exclusive message with anything in it. The builder then holds the message, and waits for
/// the next one.
pub proof fn lemma_message_found(state: BuilderState, message: Seq<u8>)
    requires
        state.done || state.reset,
        !state.oversized,
        state.limit >= 3,
        message.len() <= state.limit,
        ({
            let status = message[0];
            ||| message.len() == 3 && (0x80 <= status <= 0xbf || 0xe0 <= status <= 0xef || status
                == 0xf2)
            ||| message.len() == 2 && (0xc0 <= status <= 0xdf || status == 0xf3)
            ||| message.len() == 1 && (status == 0xf1 || 0xf4 <= status <= 0xff)
            ||| message.len() >= 2 && status == 0xf0 && message.last() == 0xf7 && forall|i: int|
                0 <= i < message.len() - 1 ==> message[i] != 0xf7
        }),
    ensures
        state.delivered(message) == seq![message],
        state.skipped(message) == Seq::<u8>::empty(),
        state.dropped(message) == 0,
        state.fed(message).message() == Some(message),
        state.fed(message).done,
        !state.fed(message).oversized,
        state.fed(message).limit == state.limit,
{
    let messages = seq![message];
    assert(is_message(message));
    lemma_messages_delivered(state, messages);
    assert(messages.skip(1) =~= Seq::<Seq<u8>>::empty());
    assert(joined(messages.skip(1)) =~= Seq::<u8>::empty());
    assert(joined(messages) =~= message);
    lemma_scan_rest(state, message, 0, Seq::empty());
    assert(message.skip(0) + Seq::<u8>::empty() =~= message);
    lemma_scan_by_scan(state, message);
    assert(message.take(message.len() as int) =~= message);
}

/// While part of a message is still to come, nothing is delivered or dropped, and the builder
/// has no message to show.
pub proof fn lemma_message_under_way(state: BuilderState, message: Seq<u8>, count: nat)
    requires
        state.at_start(),
        is_message(message),
        message.len() <= state.limit,
        0 < count < message.len(),
    ensures
        ({
            let part = message.take(count as int);
            &&& state.delivered(part) == Seq::<Seq<u8>>::empty()
            &&& state.fed(part).message() is None
            &&& state.fed(part).buffer == part
            &&& !state.oversized ==> state.skipped(part) == Seq::<u8>::empty()
            &&& !state.oversized ==> state.dropped(part) == 0
        }),
{
    let part = message.take(count as int);
    let rest = message.skip(count as int);
    lemma_scan_part(state, message, 0, count);
    assert(message.subrange(0, count as int) =~= part);
    lemma_scan_by_scan(state, part);
    assert(part.take(part.len() as int) =~= part);
    if !state.oversized {
        assert(part + rest =~= message);
        lemma_packets_do_not_matter(state, part, rest);
        lemma_message_kept(state, message, 0);
        assert(message.skip(0) =~= message);
        assert(state.skipped(part).len() == 0);
        assert(state.skipped(part) =~= Seq::<u8>::empty());
    }
}

/// A builder that was told to start over treats what comes like a new one, whatever it was
/// in the middle of.
pub proof fn lemma_reset_forgets(state: BuilderState, data: Seq<u8>)
    requires
        !state.oversized,
    ensures
        state.restarted().message() is None,
        state.restarted().delivered(data) == BuilderState::fresh(state.limit).delivered(data),
        state.restarted().skipped(data) == BuilderState::fresh(state.limit).skipped(data),
        state.restarted().dropped(data) == BuilderState::fresh(state.limit).dropped(data),
{
    lemma_starts_agree(state.restarted(), BuilderState::fresh(state.limit), data);
}

/// Two builders that wait for the start of a message treat what comes alike.
proof fn lemma_starts_agree(one: BuilderState, other: BuilderState, data: Seq<u8>)
    requires
        one.at_start(),
        other.at_start(),
        one.limit == other.limit,
        one.oversized == other.oversized,
    ensures
        one.delivered(data) == other.delivered(data),
        one.skipped(data) == other.skipped(data),
        one.dropped(data) == other.dropped(data),
    decreases data.len(),
{
    if data.len() > 0 {
        if one.skips(data[0]) {
            lemma_starts_agree(one.pushed(data[0]), other.pushed(data[0]), data.skip(1));
        } else {
            assert(one.pushed(data[0]) == other.pushed(data[0]));
        }
    }
}

/// Once a message has outgrown the buffer, every message that follows is reported as dropped,
/// once, and nothing of it is skipped.
pub proof fn lemma_dropped_from_then_on(state: BuilderState, message: Seq<u8>)
    requires
        state.oversized,
        state.at_start(),
        is_message(message),
        message.len() <= state.limit,
    ensures
        state.dropped(message) == 1,
        state.skipped(message) == Seq::<u8>::empty(),
        state.delivered(message) == Seq::<Seq<u8>>::empty(),
{
    lemma_oversized_stays(state, message);
    assert(message.skip(0) =~= message);
    lemma_dropped_message(state, message, 0);
}

/// The rest of a message behind one that has outgrown the buffer is reported as one.
proof fn lemma_dropped_message(state: BuilderState, message: Seq<u8>, from: nat)
    requires
        state.oversized,
        state.at_start(),
        is_message(message),
        message.len() <= state.limit,
        from < message.len(),
    ensures
        state.midway(message, from).dropped(message.skip(from as int)) == 1,
        state.midway(message, from).skipped(message.skip(from as int)) == Seq::<u8>::empty(),
    decreases message.len() - from,
{
    let here = state.midway(message, from);
    let rest = message.skip(from as int);
    lemma_message_step(state, message, from);
    assert(rest[0] == message[from as int]);
    assert(rest.skip(1) =~= message.skip((from + 1) as int));
    if from + 1 < message.len() {
        lemma_dropped_message(state, message, from + 1);
    } else {
        let next = here.pushed(rest[0]);
        assert(rest.skip(1) =~= Seq::<u8>::empty());
        assert(next.dropped(rest.skip(1)) == 0);
        assert(next.skipped(rest.skip(1)) =~= Seq::<u8>::empty());
    }
}

/// The bytes of whole messages, one after the other.
pub open spec fn joined(messages: Seq<Seq<u8>>) -> Seq<u8>
    decreases messages.len(),
{
    if messages.len() == 0 {
        Seq::empty()
    } else {
        messages[0] + joined(messages.skip(1))
    }
}

/// A stream that holds nothing but whole messages that fit is taken apart into just these
/// messages, and nothing of it is dropped.
pub proof fn lemma_messages_delivered(state: BuilderState, messages: Seq<Seq<u8>>)
    requires
        state.at_start(),
        !state.oversized,
        forall|i: int|
            #![trigger messages[i]]
            0 <= i < messages.len() ==> is_message(messages[i]) && messages[i].len() <= state.limit,
    ensures
        state.delivered(joined(messages)) == messages,
        state.skipped(joined(messages)) == Seq::<u8>::empty(),
        state.dropped(joined(messages)) == 0,
        state.fed(joined(messages)).at_start(),
        !state.fed(joined(messages)).oversized,
    decreases messages.len(),
{
    let data = joined(messages);
    if messages.len() == 0 {
        assert(state.delivered(data) =~= messages);
    } else {
        let message = messages[0];
        let rest = messages.skip(1);
        lemma_scan_rest(state, message, 0, joined(rest));
        assert(message.skip(0) =~= message);
        lemma_scan_by_scan(state, data);
        let after = state.after_message(message);
        assert(data.skip(message.len() as int) =~= joined(rest));
        assert(data.take(message.len() as int) =~= message);
        assert forall|i: int| #![trigger rest[i]] 0 <= i < rest.len() implies is_message(rest[i])
            && rest[i].len() <= after.limit by {
            assert(rest[i] == messages[i + 1]);
        }
        lemma_messages_delivered(after, rest);
        lemma_message_kept(state, message, 0);
        assert(seq![message] + rest =~= messages);
        lemma_packets_do_not_matter(state, message, joined(rest));
    }
}

} // verus!
