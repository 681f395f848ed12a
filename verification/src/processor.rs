//! What happens to the bytes that come from a synthesizer, and what is sent to it.
use crate::automap::{
    greeting_message, AutoMapAction, AutoMapGreetingState, AutoMapState, GreetingRecord, Greets,
    Starts, AUTOMAP_GREETING, AUTOMAP_OFF, AUTOMAP_OK,
};
use crate::midi_builder::{
    lemma_packets_do_not_matter, slice_view, BuilderState, MidiBuilder, Taken, MESSAGE_LIMIT,
};
use crate::midi_text::{message_text, midi_text_of, text_view};
use crate::ring::{
    frames, linked, Message, MidiRecevier, MidiSender, RawMidi, ReceiverState, SenderState,
};
use crate::ring_laws::{lemma_offer_with_room, lemma_send_appends};
use crate::usb::{lemma_transfer_is_message, OutState, UsbOut, TRANSFER_LIMIT};
use vstd::prelude::*;

verus! {

/// Whether `stamp` may give `message` the time `time`.
pub open spec fn stamps<S: Fn(&[u8]) -> u32>(stamp: S, message: Seq<u8>, time: u32) -> bool {
    exists|bytes: &[u8]| bytes@ == message && call_ensures(stamp, (bytes,), time)
}

/// What was done about one message from a synthesizer.
#[derive(Debug)]
pub struct Handled {
    /// The message as text, if it is one that has a text.
    pub text: Option<String>,
    /// What there was to do about the message.
    pub action: AutoMapAction,
    /// Whether the message was put into the ring. One that was to be passed on and was not
    /// found the ring full.
    pub sent: bool,
}

/// What came of reading bytes from a synthesizer.
#[derive(Debug)]
pub struct InputReport {
    /// What was done about each message, in order.
    pub handled: Vec<Handled>,
    /// The bytes that were dropped in front of the start of a message, in order.
    pub skipped: Vec<u8>,
    /// How many messages were dropped because one has outgrown the builder.
    pub too_long: usize,
}

impl InputReport {
    /// Whether this report tells all that was dropped of `data` by a builder in `state`.
    pub open spec fn tells_drops(self, state: BuilderState, data: Seq<u8>) -> bool {
        &&& self.skipped@ == state.skipped(data)
        &&& self.too_long == state.dropped(data)
    }
}

/// Whether the sender of a ring goes from `before` to `after` while `message` is handled as
/// `handled` tells: it is offered to the ring, with a time that `stamp` gives it, if the action
/// is to pass it on, and the ring is left alone if not.
pub open spec fn handles<S: Fn(&[u8]) -> u32>(
    stamp: S,
    message: Seq<u8>,
    action: AutoMapAction,
    handled: Handled,
    before: SenderState,
    after: SenderState,
) -> bool {
    &&& text_view(handled.text) == midi_text_of(message)
    &&& handled.action == action
    &&& if action == AutoMapAction::Forward {
        exists|time: u32|
            #![trigger stamps(stamp, message, time)]
            stamps(stamp, message, time) && before.offers(
                after,
                Message { time, bytes: message },
                handled.sent,
            )
    } else {
        !handled.sent && after == before
    }
}

/// Whether `messages` were handled one after the other, as `actions` say, while the sender of
/// a ring went through `states`.
pub open spec fn handled_in_turn<S: Fn(&[u8]) -> u32>(
    stamp: S,
    messages: Seq<Seq<u8>>,
    actions: Seq<AutoMapAction>,
    handled: Seq<Handled>,
    states: Seq<SenderState>,
) -> bool {
    &&& actions.len() == messages.len()
    &&& handled.len() == messages.len()
    &&& states.len() == messages.len() + 1
    &&& forall|i: int|
        #![trigger messages[i]]
        0 <= i < messages.len() ==> handles(
            stamp,
            messages[i],
            actions[i],
            handled[i],
            states[i],
            states[i + 1],
        )
}

/// Whether the sender of a ring went from `before` to `after` while `messages` were handled
/// one after the other, as `actions` say and `handled` tells.
pub open spec fn handles_all<S: Fn(&[u8]) -> u32>(
    stamp: S,
    messages: Seq<Seq<u8>>,
    actions: Seq<AutoMapAction>,
    handled: Seq<Handled>,
    before: SenderState,
    after: SenderState,
) -> bool {
    exists|states: Seq<SenderState>| #[trigger]
        handled_in_turn(stamp, messages, actions, handled, states) && states[0] == before
            && states.last() == after
}

/// Nothing is done about no messages.
proof fn lemma_handled_none<S: Fn(&[u8]) -> u32>(stamp: S, state: SenderState)
    ensures
        handles_all(stamp, Seq::empty(), Seq::empty(), Seq::empty(), state, state),
{
    assert(handled_in_turn(stamp, Seq::empty(), Seq::empty(), Seq::empty(), seq![state]));
}

/// A run of messages goes on with one more.
proof fn lemma_handled_one_more<S: Fn(&[u8]) -> u32>(
    stamp: S,
    messages: Seq<Seq<u8>>,
    actions: Seq<AutoMapAction>,
    handled: Seq<Handled>,
    before: SenderState,
    middle: SenderState,
    message: Seq<u8>,
    action: AutoMapAction,
    latest: Handled,
    after: SenderState,
)
    requires
        handles_all(stamp, messages, actions, handled, before, middle),
        handles(stamp, message, action, latest, middle, after),
    ensures
        handles_all(
            stamp,
            messages.push(message),
            actions.push(action),
            handled.push(latest),
            before,
            after,
        ),
{
    let states = choose|states: Seq<SenderState>| #[trigger]
        handled_in_turn(stamp, messages, actions, handled, states) && states[0] == before
            && states.last() == middle;
    let longer = messages.push(message);
    let actions2 = actions.push(action);
    let handled2 = handled.push(latest);
    let states2 = states.push(after);
    assert forall|i: int| #![trigger longer[i]] 0 <= i < longer.len() implies handles(
        stamp,
        longer[i],
        actions2[i],
        handled2[i],
        states2[i],
        states2[i + 1],
    ) by {
        if i < messages.len() {
            assert(longer[i] == messages[i]);
        }
    }
    assert(handled_in_turn(stamp, longer, actions2, handled2, states2));
}

/// How many bytes `messages` take in a ring, the four bytes of the time of each counted.
pub open spec fn ring_bytes(messages: Seq<Seq<u8>>) -> nat
    decreases messages.len(),
{
    if messages.len() == 0 {
        0
    } else {
        ring_bytes(messages.drop_last()) + 4 + messages.last().len()
    }
}

/// A message takes four bytes more in a ring than it has.
pub proof fn lemma_ring_bytes(messages: Seq<Seq<u8>>)
    ensures
        ring_bytes(messages) == messages.fold_left(
            0int,
            |sum: int, message: Seq<u8>| sum + 4 + message.len(),
        ),
    decreases messages.len(),
{
    if messages.len() > 0 {
        lemma_ring_bytes(messages.drop_last());
    }
}

/// Those of `messages` that were put into the ring, each with its time.
pub open spec fn put_into_ring(
    messages: Seq<Seq<u8>>,
    times: Seq<u32>,
    handled: Seq<Handled>,
) -> Seq<Message>
    decreases messages.len(),
{
    if messages.len() == 0 {
        Seq::empty()
    } else {
        let rest = put_into_ring(messages.drop_last(), times.drop_last(), handled.drop_last());
        if handled.last().sent {
            rest.push(Message { time: times.last(), bytes: messages.last() })
        } else {
            rest
        }
    }
}

/// As many messages are put into the ring as the reports say, and if all were, they are just
/// the messages, in their order.
pub proof fn lemma_put_into_ring(
    messages: Seq<Seq<u8>>,
    times: Seq<u32>,
    handled: Seq<Handled>,
)
    requires
        times.len() == messages.len(),
        handled.len() == messages.len(),
    ensures
        put_into_ring(messages, times, handled).len() == handled.filter(
            |one: Handled| one.sent,
        ).len(),
        (forall|i: int| 0 <= i < handled.len() ==> (#[trigger] handled[i]).sent) ==> put_into_ring(
            messages,
            times,
            handled,
        ) == Seq::new(
            messages.len(),
            |i: int| Message { time: times[i], bytes: messages[i] },
        ),
    decreases messages.len(),
{
    reveal(Seq::filter);
    if messages.len() > 0 {
        let last = messages.len() - 1;
        let told = handled.drop_last();
        lemma_put_into_ring(messages.drop_last(), times.drop_last(), told);
        if forall|i: int| 0 <= i < handled.len() ==> (#[trigger] handled[i]).sent {
            assert forall|i: int| 0 <= i < told.len() implies (#[trigger] told[i]).sent by {
                assert(told[i] == handled[i]);
            }
            assert(handled[last].sent);
            assert(put_into_ring(messages, times, handled) =~= Seq::new(
                messages.len(),
                |i: int| Message { time: times[i], bytes: messages[i] },
            ));
        }
    } else {
        assert(put_into_ring(messages, times, handled) =~= Seq::new(
            messages.len(),
            |i: int| Message { time: times[i], bytes: messages[i] },
        ));
    }
}

/// What is put into the ring while messages are handled is what the stream has next: the
/// messages to be passed on, in their order, each with a time that `stamp` gave it, and
/// nothing else. The receiver is notified once for each. All of them are put into the ring if
/// it has room for all, besides what was ever sent. Each message is told with its action and
/// its text.
pub proof fn lemma_handled_reach_the_ring<S: Fn(&[u8]) -> u32>(
    stamp: S,
    messages: Seq<Seq<u8>>,
    actions: Seq<AutoMapAction>,
    handled: Seq<Handled>,
    before: SenderState,
    after: SenderState,
) -> (times: Seq<u32>)
    requires
        handles_all(stamp, messages, actions, handled, before, after),
    ensures
        times.len() == messages.len(),
        handled.len() == messages.len(),
        forall|i: int| #![trigger handled[i]] 0 <= i < messages.len() ==> {
            &&& handled[i].action == actions[i]
            &&& text_view(handled[i].text) == midi_text_of(messages[i])
            &&& handled[i].sent ==> handled[i].action == AutoMapAction::Forward
            &&& handled[i].action == AutoMapAction::Forward ==> exists|bytes: &[u8]|
                bytes@ == messages[i] && #[trigger] call_ensures(stamp, (bytes,), times[i])
            &&& handled[i].action == AutoMapAction::Forward && before.sent + ring_bytes(messages)
                <= before.slots ==> handled[i].sent
        },
        before.sent <= after.sent,
        before.sent < after.sent ==> after.sent <= after.stream.len(),
        after.stream == before.stream,
        after.slots == before.slots,
        before.sent <= before.stream.len() ==> after.stream.subrange(
            before.sent as int,
            after.sent as int,
        ) == frames(put_into_ring(messages, times, handled)),
        after.wakeups == before.wakeups + put_into_ring(messages, times, handled).len(),
        after.sent <= before.sent + ring_bytes(messages),
    decreases messages.len(),
{
    let states = choose|states: Seq<SenderState>| #[trigger]
        handled_in_turn(stamp, messages, actions, handled, states) && states[0] == before
            && states.last() == after;
    if messages.len() == 0 {
        if before.sent <= before.stream.len() {
            assert(after.stream.subrange(before.sent as int, after.sent as int) =~= Seq::<
                u8,
            >::empty());
        }
        Seq::empty()
    } else {
        let last = messages.len() - 1;
        let message = messages[last];
        let middle = states[last];
        let fewer = messages.drop_last();
        let told = handled.drop_last();
        let states1 = states.drop_last();
        assert forall|i: int| #![trigger fewer[i]] 0 <= i < fewer.len() implies handles(
            stamp,
            fewer[i],
            actions.drop_last()[i],
            told[i],
            states1[i],
            states1[i + 1],
        ) by {
            assert(fewer[i] == messages[i]);
        }
        assert(handled_in_turn(stamp, fewer, actions.drop_last(), told, states1));
        let times1 = lemma_handled_reach_the_ring(
            stamp,
            fewer,
            actions.drop_last(),
            told,
            before,
            middle,
        );
        assert(message == messages[last]);
        assert(handles(stamp, message, actions[last], handled[last], middle, after));
        let time: u32 = if actions[last] == AutoMapAction::Forward {
            choose|time: u32|
                #![trigger stamps(stamp, message, time)]
                stamps(stamp, message, time) && middle.offers(
                    after,
                    Message { time, bytes: message },
                    handled[last].sent,
                )
        } else {
            0
        };
        let times = times1.push(time);
        assert(times.drop_last() =~= times1);
        let stamped = Message { time, bytes: message };
        if actions[last] == AutoMapAction::Forward {
            lemma_offer_with_room(middle, after, stamped, handled[last].sent);
        }
        let from = before.sent as int;
        let whole = after.stream.subrange(from, after.sent as int);
        let first = after.stream.subrange(from, middle.sent as int);
        let put = put_into_ring(messages, times, handled);
        if handled[last].sent && before.sent <= before.stream.len() {
            let second = after.stream.subrange(middle.sent as int, after.sent as int);
            assert(whole =~= first + second);
            assert(second =~= second.take(4) + second.skip(4));
            assert(second =~= stamped.frame());
        }
        if handled[last].sent {
            assert(put.drop_last() =~= put_into_ring(fewer, times1, told));
        }
        assert forall|i: int| #![trigger handled[i]] 0 <= i < messages.len() implies {
            &&& handled[i].action == actions[i]
            &&& text_view(handled[i].text) == midi_text_of(messages[i])
            &&& handled[i].sent ==> handled[i].action == AutoMapAction::Forward
            &&& handled[i].action == AutoMapAction::Forward ==> exists|bytes: &[u8]|
                bytes@ == messages[i] && #[trigger] call_ensures(stamp, (bytes,), times[i])
            &&& handled[i].action == AutoMapAction::Forward && before.sent + ring_bytes(messages)
                <= before.slots ==> handled[i].sent
        } by {
            if i < last {
                assert(told[i] == handled[i]);
                assert(times[i] == times1[i]);
                assert(fewer[i] == messages[i]);
            } else if actions[last] == AutoMapAction::Forward {
                let bytes = choose|bytes: &[u8]|
                    bytes@ == message && call_ensures(stamp, (bytes,), time);
                assert(bytes@ == messages[i] && call_ensures(stamp, (bytes,), times[i]));
            }
        }
        times
    }
}

/// What is put into the ring while messages are handled is on its way to the receiver, behind
/// what was on its way before.
pub proof fn lemma_handled_are_on_their_way<S: Fn(&[u8]) -> u32>(
    stamp: S,
    messages: Seq<Seq<u8>>,
    actions: Seq<AutoMapAction>,
    handled: Seq<Handled>,
    before: SenderState,
    after: SenderState,
    receiver: ReceiverState,
    queue: Seq<Message>,
) -> (times: Seq<u32>)
    requires
        handles_all(stamp, messages, actions, handled, before, after),
        linked(before, receiver, queue),
    ensures
        times.len() == messages.len() == handled.len(),
        linked(after, receiver, queue + put_into_ring(messages, times, handled)),
        forall|i: int|
            #![trigger handled[i]]
            0 <= i < messages.len() && handled[i].sent ==> exists|bytes: &[u8]|
                bytes@ == messages[i] && #[trigger] call_ensures(stamp, (bytes,), times[i]),
    decreases messages.len(),
{
    let states = choose|states: Seq<SenderState>| #[trigger]
        handled_in_turn(stamp, messages, actions, handled, states) && states[0] == before
            && states.last() == after;
    if messages.len() == 0 {
        assert(queue + put_into_ring(messages, Seq::empty(), handled) =~= queue);
        Seq::empty()
    } else {
        let last = messages.len() - 1;
        let message = messages[last];
        let middle = states[last];
        let fewer = messages.drop_last();
        let told = handled.drop_last();
        let states1 = states.drop_last();
        assert forall|i: int| #![trigger fewer[i]] 0 <= i < fewer.len() implies handles(
            stamp,
            fewer[i],
            actions.drop_last()[i],
            told[i],
            states1[i],
            states1[i + 1],
        ) by {
            assert(fewer[i] == messages[i]);
        }
        assert(handled_in_turn(stamp, fewer, actions.drop_last(), told, states1));
        let times1 = lemma_handled_are_on_their_way(
            stamp,
            fewer,
            actions.drop_last(),
            told,
            before,
            middle,
            receiver,
            queue,
        );
        assert(handles(stamp, message, actions[last], handled[last], middle, after));
        let put1 = put_into_ring(fewer, times1, told);
        let time: u32 = if handled[last].sent {
            choose|time: u32|
                #![trigger stamps(stamp, message, time)]
                stamps(stamp, message, time) && middle.offers(
                    after,
                    Message { time, bytes: message },
                    handled[last].sent,
                )
        } else {
            0
        };
        let times = times1.push(time);
        let put = put_into_ring(messages, times, handled);
        assert(times.drop_last() =~= times1);
        if handled[last].sent {
            let stamped = Message { time, bytes: message };
            lemma_send_appends(middle, after, receiver, queue + put1, stamped);
            assert((queue + put1).push(stamped) =~= queue + put);
        } else {
            assert(after == middle);
            assert(put =~= put1);
        }
        assert forall|i: int|
            #![trigger handled[i]]
            0 <= i < messages.len() && handled[i].sent implies exists|bytes: &[u8]|
            bytes@ == messages[i] && #[trigger] call_ensures(stamp, (bytes,), times[i]) by {
            if i < last {
                assert(told[i] == handled[i]);
                assert(times[i] == times1[i]);
                assert(fewer[i] == messages[i]);
            } else {
                let bytes = choose|bytes: &[u8]|
                    bytes@ == message && call_ensures(stamp, (bytes,), time);
                assert(bytes@ == messages[i] && call_ensures(stamp, (bytes,), times[i]));
            }
        }
        times
    }
}

/// The actions about `count` messages that are all passed on.
pub open spec fn all_forward(count: nat) -> Seq<AutoMapAction> {
    Seq::new(count, |i: int| AutoMapAction::Forward)
}

/// Every message from a MIDI endpoint is to be passed on, however many there are.
pub proof fn lemma_all_forward(count: nat)
    ensures
        all_forward(count).len() == count,
        forall|i: int|
            0 <= i < count ==> #[trigger] all_forward(count)[i] == AutoMapAction::Forward,
{
}

/// What is read from a synthesizer's MIDI endpoint.
pub struct UsbMidiInput {
    midi_builder: MidiBuilder,
}

impl View for UsbMidiInput {
    type V = BuilderState;

    closed spec fn view(&self) -> BuilderState {
        self.midi_builder@
    }
}

impl UsbMidiInput {
    /// An input from which nothing was read yet.
    pub fn new() -> (input: Self)
        ensures
            input@ == BuilderState::fresh(MESSAGE_LIMIT as nat),
            input@.limit == 4096,
            input@.reset && !input@.oversized,
    {
        UsbMidiInput { midi_builder: MidiBuilder::with_capacity(MESSAGE_LIMIT) }
    }

    /// Reads all of `data` and passes the messages in it on, each with the time that `stamp`
    /// gives it.
    pub fn process<S: Fn(&[u8]) -> u32>(
        &mut self,
        data: &[u8],
        stamp: S,
        midi_tx: &mut MidiSender,
    ) -> (report: InputReport)
        requires
            forall|bytes: &[u8]| call_requires(stamp, (bytes,)),
        ensures
            final(self)@ == old(self)@.fed(data@),
            ({
                let messages = old(self)@.delivered(data@);
                handles_all(
                    stamp,
                    messages,
                    all_forward(messages.len()),
                    report.handled@,
                    old(midi_tx)@,
                    final(midi_tx)@,
                )
            }),
            report.tells_drops(old(self)@, data@),
            report.skipped@ == old(self)@.skipped(data@),
            report.too_long == old(self)@.dropped(data@),
            ({
                let messages = old(self)@.delivered(data@);
                let room = old(midi_tx)@.sent + ring_bytes(messages) <= old(midi_tx)@.slots;
                &&& report.handled@.len() == messages.len()
                &&& forall|i: int|
                    #![trigger report.handled@[i]]
                    0 <= i < messages.len() ==> {
                        &&& report.handled@[i].action == AutoMapAction::Forward
                        &&& text_view(report.handled@[i].text) == midi_text_of(messages[i])
                        &&& room ==> report.handled@[i].sent
                    }
            }),
    {
        let ghost mut found: Seq<Seq<u8>> = Seq::empty();
        let mut handled: Vec<Handled> = Vec::new();
        let mut skipped: Vec<u8> = Vec::new();
        let mut too_long: usize = 0;
        let mut next: usize = 0;
        proof {
            assert(data@.skip(0) =~= data@);
            assert(found + self@.delivered(data@) =~= self@.delivered(data@));
            assert(skipped@ + self@.skipped(data@) =~= self@.skipped(data@));
            assert(all_forward(0) =~= Seq::<AutoMapAction>::empty());
            lemma_handled_none(stamp, midi_tx@);
        }
        while next < data.len()
            invariant
                too_long <= next <= data@.len(),
                old(self)@.fed(data@) == self@.fed(data@.skip(next as int)),
                old(self)@.delivered(data@) == found + self@.delivered(data@.skip(next as int)),
                old(self)@.skipped(data@) == skipped@ + self@.skipped(data@.skip(next as int)),
                old(self)@.dropped(data@) == too_long + self@.dropped(data@.skip(next as int)),
                handles_all(
                    stamp,
                    found,
                    all_forward(found.len()),
                    handled@,
                    old(midi_tx)@,
                    midi_tx@,
                ),
                forall|bytes: &[u8]| call_requires(stamp, (bytes,)),
            decreases data@.len() - next,
        {
            let byte = data[next];
            proof {
                let rest = data@.skip(next as int);
                assert(rest[0] == byte);
                assert(rest.skip(1) =~= data@.skip(next + 1));
            }
            let ghost skipped_so_far = skipped@;
            next += 1;
            let ghost rest = data@.skip(next as int);
            let ghost after = self@.pushed(byte);
            match self.midi_builder.take(byte) {
                Taken::Skipped => {
                    skipped.push(byte);
                    assert(skipped_so_far + (seq![byte] + after.skipped(rest)) =~= skipped@
                        + after.skipped(rest));
                },
                Taken::Kept => {},
                Taken::TooLong => {
                    too_long += 1;
                },
                Taken::Message(msg) => {
                    let ghost message = msg@;
                    let ghost middle = midi_tx@;
                    let ghost before = handled@;
                    let time: u32 = stamp(msg);
                    let text = message_text(msg);
                    let sent = midi_tx.send(RawMidi { time, bytes: msg });
                    handled.push(Handled { text, action: AutoMapAction::Forward, sent });
                    proof {
                        assert(stamps(stamp, message, time));
                        lemma_handled_one_more(
                            stamp,
                            found,
                            all_forward(found.len()),
                            before,
                            old(midi_tx)@,
                            middle,
                            message,
                            AutoMapAction::Forward,
                            handled@.last(),
                            midi_tx@,
                        );
                        assert(before.push(handled@.last()) =~= handled@);
                        assert(all_forward(found.len()).push(AutoMapAction::Forward)
                            =~= all_forward(found.len() + 1));
                        assert(found + (seq![message] + after.delivered(rest)) =~= found.push(
                            message,
                        ) + after.delivered(rest));
                        found = found.push(message);
                    }
                },
            }
        }
        proof {
            let rest = data@.skip(next as int);
            assert(rest =~= Seq::<u8>::empty());
            assert(found + self@.delivered(rest) =~= found);
            assert(skipped@ + self@.skipped(rest) =~= skipped@);
            let _ = lemma_handled_reach_the_ring(
                stamp,
                found,
                all_forward(found.len()),
                handled@,
                old(midi_tx)@,
                midi_tx@,
            );
        }
        InputReport { handled, skipped, too_long }
    }
}

/// How far the AutoMap handshake has come after `messages`, if it had come to `automap` before.
pub open spec fn automap_after(automap: AutoMapState, messages: Seq<Seq<u8>>) -> AutoMapState
    decreases messages.len(),
{
    if messages.len() == 0 {
        automap
    } else {
        automap_after(automap, messages.drop_last()).next(messages.last())
    }
}

/// What there is to do about each of `messages`, if the AutoMap handshake had come to
/// `automap` before them.
pub open spec fn actions_of(automap: AutoMapState, messages: Seq<Seq<u8>>) -> Seq<
    AutoMapAction,
> {
    Seq::new(
        messages.len(),
        |i: int| automap_after(automap, messages.take(i)).action(messages[i]),
    )
}

/// What is kept between two reads from a control endpoint.
pub struct ControlState {
    /// The builder that collects messages.
    pub builder: BuilderState,
    /// How far the AutoMap handshake has come.
    pub automap: AutoMapState,
}

impl ControlState {
    /// The state after all bytes of `data`.
    pub open spec fn fed(self, data: Seq<u8>) -> ControlState {
        ControlState {
            builder: self.builder.fed(data),
            automap: automap_after(self.automap, self.builder.delivered(data)),
        }
    }

    /// What there is to do about each of the messages that the bytes of `data` complete.
    pub open spec fn actions(self, data: Seq<u8>) -> Seq<AutoMapAction> {
        actions_of(self.automap, self.builder.delivered(data))
    }
}

/// What is read from a synthesizer's control endpoint.
pub struct UsbControlInput {
    midi_builder: MidiBuilder,
    automap_state: AutoMapState,
    record: GreetingRecord,
}

impl View for UsbControlInput {
    type V = ControlState;

    closed spec fn view(&self) -> ControlState {
        ControlState { builder: self.midi_builder@, automap: self.automap_state }
    }
}

/// How many of the messages that were handled made a greeting due.
pub open spec fn greetings_due(handled: Seq<Handled>) -> nat
    decreases handled.len(),
{
    if handled.len() == 0 {
        0
    } else {
        greetings_due(handled.drop_last()) + if handled.last().action
            == AutoMapAction::SendGreeting {
            1nat
        } else {
            0nat
        }
    }
}

/// A greeting is due for each message that is answered by one, wherever it lies.
pub proof fn lemma_greetings_due(handled: Seq<Handled>)
    ensures
        greetings_due(handled) == handled.filter(
            |one: Handled| one.action == AutoMapAction::SendGreeting,
        ).len(),
    decreases handled.len(),
{
    reveal(Seq::filter);
    if handled.len() > 0 {
        lemma_greetings_due(handled.drop_last());
    }
}

impl UsbControlInput {
    /// How often a greeting was started, for each call of `process`.
    pub closed spec fn starts(&self) -> Seq<Starts> {
        self.record@.started
    }

    /// An input from which nothing was read yet.
    pub fn new() -> (input: Self)
        ensures
            input@ == (ControlState {
                builder: BuilderState::fresh(MESSAGE_LIMIT as nat),
                automap: AutoMapState::Startup,
            }),
            input.starts() == Seq::<Starts>::empty(),
            input@.builder.limit == 4096,
            input@.builder.reset && !input@.builder.oversized,
    {
        UsbControlInput {
            midi_builder: MidiBuilder::with_capacity(MESSAGE_LIMIT),
            automap_state: AutoMapState::Startup,
            record: GreetingRecord::new(),
        }
    }

    /// Reads all of `data` and does what there is to do about the messages in it: those
    /// that are to be passed on are offered to the ring with the time that `stamp` gives
    /// them, and where a greeting is due it is started.
    ///
    /// The greeting is started once for each message for which one is due, and never else.
    pub fn process<'g, S: Fn(&[u8]) -> u32, G: Greets<'g>>(
        &mut self,
        data: &[u8],
        stamp: S,
        greeting: G,
        midi_tx: &mut MidiSender,
    ) -> (report: InputReport)
        requires
            forall|bytes: &[u8]| call_requires(stamp, (bytes,)),
        ensures
            final(self)@ == old(self)@.fed(data@),
            handles_all(
                stamp,
                old(self)@.builder.delivered(data@),
                old(self)@.actions(data@),
                report.handled@,
                old(midi_tx)@,
                final(midi_tx)@,
            ),
            report.tells_drops(old(self)@.builder, data@),
            report.skipped@ == old(self)@.builder.skipped(data@),
            report.too_long == old(self)@.builder.dropped(data@),
            final(self).starts() == old(self).starts().push(
                Starts { greeting: greeting.meant(), count: greetings_due(report.handled@) },
            ),
            greetings_due(report.handled@) > 0 ==> greeting.meant().took(2),
            ({
                let messages = old(self)@.builder.delivered(data@);
                let actions = old(self)@.actions(data@);
                let room = old(midi_tx)@.sent + ring_bytes(messages) <= old(midi_tx)@.slots;
                &&& report.handled@.len() == messages.len() == actions.len()
                &&& forall|i: int|
                    #![trigger report.handled@[i]]
                    0 <= i < messages.len() ==> {
                        &&& report.handled@[i].action == actions[i]
                        &&& text_view(report.handled@[i].text) == midi_text_of(messages[i])
                        &&& report.handled@[i].sent ==> actions[i] == AutoMapAction::Forward
                        &&& room && actions[i] == AutoMapAction::Forward
                            ==> report.handled@[i].sent
                    }
            }),
    {
        let ghost meant = greeting.meant();
        let mut starter = greeting.starter();
        let ghost mut found: Seq<Seq<u8>> = Seq::empty();
        let mut handled: Vec<Handled> = Vec::new();
        let mut skipped: Vec<u8> = Vec::new();
        let mut too_long: usize = 0;
        let mut next: usize = 0;
        proof {
            let builder = self@.builder;
            assert(data@.skip(0) =~= data@);
            assert(found + builder.delivered(data@) =~= builder.delivered(data@));
            assert(skipped@ + builder.skipped(data@) =~= builder.skipped(data@));
            assert(actions_of(self@.automap, found) =~= Seq::<AutoMapAction>::empty());
            lemma_handled_none(stamp, midi_tx@);
        }
        while next < data.len()
            invariant
                too_long <= next <= data@.len(),
                old(self)@.builder.fed(data@) == self@.builder.fed(data@.skip(next as int)),
                old(self)@.builder.delivered(data@) == found + self@.builder.delivered(
                    data@.skip(next as int),
                ),
                old(self)@.builder.skipped(data@) == skipped@ + self@.builder.skipped(
                    data@.skip(next as int),
                ),
                old(self)@.builder.dropped(data@) == too_long + self@.builder.dropped(
                    data@.skip(next as int),
                ),
                self@.automap == automap_after(old(self)@.automap, found),
                self.starts() == old(self).starts(),
                starter@ == (Starts { greeting: meant, count: greetings_due(handled@) }),
                greetings_due(handled@) > 0 ==> meant.took(2),
                handles_all(
                    stamp,
                    found,
                    actions_of(old(self)@.automap, found),
                    handled@,
                    old(midi_tx)@,
                    midi_tx@,
                ),
                forall|bytes: &[u8]| call_requires(stamp, (bytes,)),
            decreases data@.len() - next,
        {
            let byte = data[next];
            proof {
                let rest = data@.skip(next as int);
                assert(rest[0] == byte);
                assert(rest.skip(1) =~= data@.skip(next + 1));
            }
            let ghost skipped_so_far = skipped@;
            next += 1;
            let ghost rest = data@.skip(next as int);
            let ghost after = self@.builder.pushed(byte);
            match self.midi_builder.take(byte) {
                Taken::Skipped => {
                    skipped.push(byte);
                    assert(skipped_so_far + (seq![byte] + after.skipped(rest)) =~= skipped@
                        + after.skipped(rest));
                },
                Taken::Kept => {},
                Taken::TooLong => {
                    too_long += 1;
                },
                Taken::Message(msg) => {
                    let ghost message = msg@;
                    let ghost middle = midi_tx@;
                    let ghost before = handled@;
                    let text = message_text(msg);
                    let action = self.automap_state.process(msg);
                    let mut sent = false;
                    match action {
                        AutoMapAction::Forward => {
                            let time: u32 = stamp(msg);
                            sent = midi_tx.send(RawMidi { time, bytes: msg });
                            assert(stamps(stamp, message, time));
                        },
                        AutoMapAction::SendGreeting => {
                            starter.start();
                        },
                        AutoMapAction::Discard => {},
                    }
                    handled.push(Handled { text, action, sent });
                    proof {
                        lemma_handled_one_more(
                            stamp,
                            found,
                            actions_of(old(self)@.automap, found),
                            before,
                            old(midi_tx)@,
                            middle,
                            message,
                            action,
                            handled@.last(),
                            midi_tx@,
                        );
                        lemma_one_more_action(old(self)@.automap, found, message);
                        assert(handled@.drop_last() =~= before);
                        assert(before.push(handled@.last()) =~= handled@);
                        assert(found + (seq![message] + after.delivered(rest)) =~= found.push(
                            message,
                        ) + after.delivered(rest));
                        found = found.push(message);
                    }
                },
            }
        }
        proof {
            let rest = data@.skip(next as int);
            assert(rest =~= Seq::<u8>::empty());
            assert(found + self@.builder.delivered(rest) =~= found);
            assert(skipped@ + self@.builder.skipped(rest) =~= skipped@);
            let _ = lemma_handled_reach_the_ring(
                stamp,
                found,
                actions_of(old(self)@.automap, found),
                handled@,
                old(midi_tx)@,
                midi_tx@,
            );
        }
        self.record.add_starts(starter);
        InputReport { handled, skipped, too_long }
    }
}

/// One more message adds the action about it, and moves the handshake on.
proof fn lemma_one_more_action(automap: AutoMapState, messages: Seq<Seq<u8>>, message: Seq<u8>)
    ensures
        actions_of(automap, messages.push(message)) == actions_of(automap, messages).push(
            automap_after(automap, messages).action(message),
        ),
        automap_after(automap, messages.push(message)) == automap_after(automap, messages).next(
            message,
        ),
{
    let longer = messages.push(message);
    assert(longer.drop_last() =~= messages);
    assert forall|i: int| 0 <= i <= messages.len() implies #[trigger] longer.take(i)
        == messages.take(i) by {
        assert(longer.take(i) =~= messages.take(i));
    }
    assert(messages.take(messages.len() as int) =~= messages);
    assert(actions_of(automap, longer) =~= actions_of(automap, messages).push(
        automap_after(automap, messages).action(message),
    ));
}

/// What is done about some messages and then about others is what is done about all of them.
proof fn lemma_actions_split(automap: AutoMapState, first: Seq<Seq<u8>>, second: Seq<Seq<u8>>)
    ensures
        automap_after(automap, first + second) == automap_after(
            automap_after(automap, first),
            second,
        ),
        actions_of(automap, first + second) == actions_of(automap, first) + actions_of(
            automap_after(automap, first),
            second,
        ),
    decreases second.len(),
{
    let middle = automap_after(automap, first);
    if second.len() == 0 {
        assert(first + second =~= first);
        assert(actions_of(automap, first) + actions_of(middle, second) =~= actions_of(
            automap,
            first,
        ));
    } else {
        let fewer = second.drop_last();
        let message = second.last();
        lemma_actions_split(automap, first, fewer);
        lemma_one_more_action(automap, first + fewer, message);
        lemma_one_more_action(middle, fewer, message);
        assert((first + fewer).push(message) =~= first + second);
        assert(fewer.push(message) =~= second);
        assert(actions_of(automap, first + second) =~= actions_of(automap, first) + actions_of(
            middle,
            second,
        ));
    }
}

/// AutoMap is on after some messages if the last of them that switched it switched it on, and
/// off if that one switched it off; if none did, it is as it was before.
pub proof fn lemma_last_switch_counts(automap: AutoMapState, messages: Seq<Seq<u8>>)
    ensures
        automap_after(automap, messages) == AutoMapState::Listen <==> {
            ||| automap == AutoMapState::Listen && forall|k: int|
                0 <= k < messages.len() ==> #[trigger] messages[k] != AUTOMAP_OFF@
            ||| exists|j: int|
                0 <= j < messages.len() && #[trigger] messages[j] == AUTOMAP_OK@ && forall|k: int|
                    j < k < messages.len() ==> #[trigger] messages[k] != AUTOMAP_OFF@
        },
        automap_after(automap, messages) == AutoMapState::Wait <==> {
            ||| automap == AutoMapState::Wait && forall|k: int|
                0 <= k < messages.len() ==> #[trigger] messages[k] != AUTOMAP_OK@
            ||| exists|j: int|
                0 <= j < messages.len() && #[trigger] messages[j] == AUTOMAP_OFF@ && forall|k: int|
                    j < k < messages.len() ==> #[trigger] messages[k] != AUTOMAP_OK@
        },
    decreases messages.len(),
{
    assert(AUTOMAP_OK@[2] != AUTOMAP_OFF@[2]);
    if messages.len() > 0 {
        let fewer = messages.drop_last();
        let last = messages.len() - 1;
        lemma_last_switch_counts(automap, fewer);
        assert forall|k: int| 0 <= k < last implies #[trigger] fewer[k] == messages[k] by {}
        assert forall|k: int| 0 <= k < last implies #[trigger] messages[k] == fewer[k] by {}
        assert(messages[last] == messages.last());
    }
}

/// What is done about each message from a control endpoint: it is passed on if AutoMap is on
/// and it does not switch it off, and answered by a greeting if it switches AutoMap on again.
/// AutoMap is on as told by the last message before that switched it.
pub proof fn lemma_forwarded_while_on(automap: AutoMapState, messages: Seq<Seq<u8>>, i: int)
    requires
        0 <= i < messages.len(),
    ensures
        actions_of(automap, messages).len() == messages.len(),
        actions_of(automap, messages)[i] == AutoMapAction::Forward <==> messages[i] != AUTOMAP_OFF@
            && {
            ||| automap == AutoMapState::Listen && forall|k: int|
                0 <= k < i ==> #[trigger] messages[k] != AUTOMAP_OFF@
            ||| exists|j: int|
                0 <= j < i && #[trigger] messages[j] == AUTOMAP_OK@ && forall|k: int|
                    j < k < i ==> #[trigger] messages[k] != AUTOMAP_OFF@
        },
        actions_of(automap, messages)[i] == AutoMapAction::SendGreeting <==> messages[i]
            == AUTOMAP_OK@ && {
            ||| automap == AutoMapState::Wait && forall|k: int|
                0 <= k < i ==> #[trigger] messages[k] != AUTOMAP_OK@
            ||| exists|j: int|
                0 <= j < i && #[trigger] messages[j] == AUTOMAP_OFF@ && forall|k: int|
                    j < k < i ==> #[trigger] messages[k] != AUTOMAP_OK@
        },
{
    let earlier = messages.take(i);
    lemma_last_switch_counts(automap, earlier);
    assert forall|k: int| 0 <= k < i implies #[trigger] messages[k] == earlier[k] by {}
    assert forall|k: int| 0 <= k < i implies #[trigger] earlier[k] == messages[k] by {}
    assert(AUTOMAP_OK@[2] != AUTOMAP_OFF@[2]);
}

/// Where the bytes from a control endpoint are cut into packets does not change what is
/// kept of them, nor what is done about them.
pub proof fn lemma_control_packets_do_not_matter(
    state: ControlState,
    first: Seq<u8>,
    second: Seq<u8>,
)
    ensures
        state.fed(first + second) == state.fed(first).fed(second),
        state.actions(first + second) == state.actions(first) + state.fed(first).actions(second),
{
    lemma_packets_do_not_matter(state.builder, first, second);
    lemma_actions_split(
        state.automap,
        state.builder.delivered(first),
        state.builder.fed(first).delivered(second),
    );
}

/// A transfer to a synthesizer.
#[derive(Debug)]
pub struct Transfer {
    /// The bytes to send.
    pub buffer: Vec<u8>,
    /// The message as text, if it is one that has a text.
    pub text: Option<String>,
}

/// What a [`Transfer`] stands for.
pub struct TransferState {
    /// The bytes to send.
    pub buffer: Seq<u8>,
    /// The message as text, if it is one that has a text.
    pub text: Option<Seq<char>>,
}

impl View for Transfer {
    type V = TransferState;

    open spec fn view(&self) -> TransferState {
        TransferState { buffer: self.buffer@, text: text_view(self.text) }
    }
}

/// What an optional transfer stands for.
pub open spec fn transfer_view(transfer: Option<Transfer>) -> Option<TransferState> {
    match transfer {
        Some(sending) => Some(sending@),
        None => None,
    }
}

/// The transfer of `message` through an endpoint in the state `out`.
pub open spec fn transfer_of(out: OutState, message: Seq<u8>) -> TransferState {
    TransferState { buffer: out.transfer(message), text: midi_text_of(message) }
}

/// What is transferred for a message is the message itself, as long as the endpoint keeps only
/// empty buffers, and what is told of it is its text.
pub proof fn lemma_transfer_carries_message(out: OutState, message: Seq<u8>)
    requires
        out.wf(),
    ensures
        transfer_of(out, message).buffer == message,
        transfer_of(out, message).text == midi_text_of(message),
{
    lemma_transfer_is_message(out, message);
}

/// Sends `message` through `usb_out`.
fn submit(usb_out: &mut UsbOut, message: &[u8]) -> (transfer: Transfer)
    ensures
        final(usb_out)@ == old(usb_out)@.submitted(),
        transfer@ == transfer_of(old(usb_out)@, message@),
        text_view(transfer.text) == midi_text_of(message@),
        old(usb_out)@.wf() ==> transfer.buffer@ == message@ && final(usb_out)@.wf(),
        final(usb_out).heard() == old(usb_out).heard(),
{
    let text = message_text(message);
    Transfer { buffer: usb_out.submit(message), text }
}

/// The next transfer to a synthesizer, if there is one: that of `first` if it is given, and
/// of the next message in the ring if not. Nothing is taken while the endpoint is busy.
pub fn next_transfer(
    first: Option<&[u8]>,
    midi_rx: &mut MidiRecevier,
    usb_out: &mut UsbOut,
    pending: usize,
) -> (transfer: Option<Transfer>)
    ensures
        transfers(
            slice_view(first),
            pending as nat,
            old(midi_rx)@,
            final(midi_rx)@,
            old(usb_out)@,
            final(usb_out)@,
            transfer_view(transfer),
        ),
        final(usb_out).heard() == old(usb_out).heard(),
        old(usb_out)@.wf() ==> final(usb_out)@.wf(),
        pending >= 128 ==> {
            &&& transfer is None
            &&& final(midi_rx)@ == old(midi_rx)@
            &&& final(usb_out)@ == old(usb_out)@
        },
        pending < 128 ==> match first {
            Some(message) => {
                &&& final(midi_rx)@ == old(midi_rx)@
                &&& transfer matches Some(sending)
                &&& text_view(sending.text) == midi_text_of(message@)
                &&& old(usb_out)@.wf() ==> sending.buffer@ == message@
            },
            None => {
                let received = old(midi_rx)@.next_read().0.message();
                &&& old(midi_rx)@.receives(final(midi_rx)@, received)
                &&& transfer is Some <==> received is Some
                &&& received matches Some(message) ==> {
                    &&& transfer matches Some(sending)
                    &&& text_view(sending.text) == midi_text_of(message.bytes)
                    &&& old(usb_out)@.wf() ==> sending.buffer@ == message.bytes
                }
                &&& received is None ==> final(usb_out)@ == old(usb_out)@
            },
        },
{
    if !usb_out.can_submit(pending) {
        return None;
    }
    match first {
        Some(msg) => Some(submit(usb_out, msg)),
        None => match midi_rx.recv() {
            Some(midi) => Some(submit(usb_out, midi.bytes)),
            None => None,
        },
    }
}

/// Whether `transfer` is the next transfer to a synthesizer while `pending` transfers are
/// under way and `first` waits to be sent in front of what is in the ring.
pub open spec fn transfers(
    first: Option<Seq<u8>>,
    pending: nat,
    rx_before: ReceiverState,
    rx_after: ReceiverState,
    out_before: OutState,
    out_after: OutState,
    transfer: Option<TransferState>,
) -> bool {
    let received = rx_before.next_read().0.message();
    if pending >= TRANSFER_LIMIT {
        transfer is None && rx_after == rx_before && out_after == out_before
    } else if let Some(message) = first {
        &&& rx_after == rx_before
        &&& out_after == out_before.submitted()
        &&& transfer == Some(transfer_of(out_before, message))
    } else {
        &&& rx_before.receives(rx_after, received)
        &&& match received {
            Some(message) => {
                &&& out_after == out_before.submitted()
                &&& transfer == Some(transfer_of(out_before, message.bytes))
            },
            None => out_after == out_before && transfer is None,
        }
    }
}

/// The next transfer to a synthesizer's control endpoint, if there is one: a message of the
/// greeting under way comes before those in the ring.
///
/// What the greeting has to say may change at any time. It is asked just once, and not while
/// the endpoint is busy; what it gives up then is what is transferred.
pub fn next_control_transfer<'g, G: Greets<'g>>(
    greeting: G,
    midi_rx: &mut MidiRecevier,
    usb_out: &mut UsbOut,
    pending: usize,
) -> (transfer: Option<Transfer>)
    ensures
        exists|loaded: u8, exchanged: Result<u8, u8>|
            transfers(
                #[trigger] greeting_message(loaded, exchanged),
                pending as nat,
                old(midi_rx)@,
                final(midi_rx)@,
                old(usb_out)@,
                final(usb_out)@,
                transfer_view(transfer),
            ),
        old(usb_out)@.wf() ==> final(usb_out)@.wf(),
        pending >= 128 ==> {
            &&& transfer is None
            &&& final(midi_rx)@ == old(midi_rx)@
            &&& final(usb_out)@ == old(usb_out)@
            &&& final(usb_out).heard() == old(usb_out).heard()
        },
        pending < 128 ==> {
            let said = final(usb_out).heard().last();
            &&& final(usb_out).heard() == old(usb_out).heard().push(said)
            &&& said.greeting == greeting.meant()
            &&& exists|loaded: u8, exchanged: Result<u8, u8>|
                said.message == #[trigger] greeting_message(loaded, exchanged)
                    && greeting.meant().moved_on(loaded, exchanged)
            &&& transfers(
                said.message,
                pending as nat,
                old(midi_rx)@,
                final(midi_rx)@,
                old(usb_out)@,
                final(usb_out)@,
                transfer_view(transfer),
            )
            &&& match said.message {
                Some(message) => {
                    &&& final(midi_rx)@ == old(midi_rx)@
                    &&& transfer matches Some(sending)
                    &&& text_view(sending.text) == midi_text_of(message)
                    &&& old(usb_out)@.wf() ==> sending.buffer@ == message
                },
                None => {
                    let received = old(midi_rx)@.next_read().0.message();
                    &&& old(midi_rx)@.receives(final(midi_rx)@, received)
                    &&& transfer is Some <==> received is Some
                    &&& received matches Some(message) ==> {
                        &&& transfer matches Some(sending)
                        &&& text_view(sending.text) == midi_text_of(message.bytes)
                        &&& old(usb_out)@.wf() ==> sending.buffer@ == message.bytes
                    }
                },
            }
        },
{
    if !usb_out.can_submit(pending) {
        assert(transfers(
            greeting_message(0, Err(0)),
            pending as nat,
            midi_rx@,
            midi_rx@,
            usb_out@,
            usb_out@,
            None,
        ));
        return None;
    }
    let reply = greeting.ask();
    let first = reply.message();
    usb_out.hear(reply);
    next_transfer(first, midi_rx, usb_out, pending)
}

/// A greeting that nothing else interferes with is transferred message by message, in front
/// of what is in the ring: one that was just started says that AutoMap is on, and then greets;
/// one that is new says just that AutoMap is on.
pub proof fn lemma_greeting_is_transferred(
    state: AutoMapGreetingState,
    pending: nat,
    rx_before: ReceiverState,
    rx_after: ReceiverState,
    out_before: OutState,
    out_after: OutState,
    transfer: Option<TransferState>,
)
    requires
        pending < 128,
        out_before.wf(),
        state != AutoMapGreetingState::Silent,
        transfers(
            greeting_message(state.number(), Ok(state.number())),
            pending,
            rx_before,
            rx_after,
            out_before,
            out_after,
            transfer,
        ),
    ensures
        rx_after == rx_before,
        transfer matches Some(sending) && sending.buffer == if state
            == AutoMapGreetingState::Greet {
            AUTOMAP_GREETING@
        } else {
            AUTOMAP_OK@
        },
        state.after() == if state == AutoMapGreetingState::AnswerOk {
            AutoMapGreetingState::Greet
        } else {
            AutoMapGreetingState::Silent
        },
{
    lemma_transfer_is_message(out_before, AUTOMAP_GREETING@);
    lemma_transfer_is_message(out_before, AUTOMAP_OK@);
}

} // verus!
