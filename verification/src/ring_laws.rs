//! What holds of a ring from its sender to its receiver.
use crate::bytes::{le_bytes, lemma_le_round_trip};
use crate::midi_builder::{
    is_message, lemma_oversized_scan, lemma_scan_part, lemma_scan_rest, BuilderState,
};
use crate::ring::{frames, linked, unmarked, Message, ReadState, ReceiverState, SenderState};
use vstd::prelude::*;

verus! {

/// Whether a frame of `frame` bytes at the head of a ring comes out of it whole.
///
/// In the ring the next read finds `waiting` bytes, and `until_wrap` bytes lie in front of
/// the end of the ring's memory. Two frames do not come out whole: one whose time is cut
/// by the end of the memory while less than four bytes lie behind it, and one that ends
/// just there while more bytes follow. A builder that was once given too long a message
/// needs the frame to be the last one.
pub open spec fn comes_out_whole(
    frame: nat,
    waiting: nat,
    until_wrap: nat,
    oversized: bool,
) -> bool {
    &&& until_wrap >= 4 || waiting >= until_wrap + 4
    &&& waiting == frame || (until_wrap != frame && !oversized)
}

/// Most frames come out whole: those whose time is not cut by the end of the memory and that
/// do not end just there, and those that are alone in the ring, unless their time is cut while
/// less than four bytes lie behind the cut.
pub proof fn lemma_most_frames_come_out(frame: nat, waiting: nat, until_wrap: nat)
    ensures
        until_wrap >= 4 && until_wrap != frame ==> comes_out_whole(
            frame,
            waiting,
            until_wrap,
            false,
        ),
        until_wrap < 4 && waiting >= until_wrap + 4 && frame >= 4 ==> comes_out_whole(
            frame,
            waiting,
            until_wrap,
            false,
        ),
        forall|oversized: bool|
            until_wrap >= 4 || frame >= until_wrap + 4 ==> #[trigger] comes_out_whole(
                frame,
                frame,
                until_wrap,
                oversized,
            ),
{
}

/// The frames of a queue are the frame of its first message and those of the others.
proof fn lemma_frames_first(queue: Seq<Message>)
    requires
        queue.len() > 0,
    ensures
        frames(queue) == queue[0].frame() + frames(queue.drop_first()),
    decreases queue.len(),
{
    let first = queue[0].frame();
    let others = queue.drop_first();
    if queue.len() == 1 {
        assert(queue.drop_last() =~= Seq::<Message>::empty());
        assert(frames(queue.drop_last()) =~= Seq::<u8>::empty());
        assert(frames(others) =~= Seq::<u8>::empty());
        assert(frames(queue) =~= first + frames(others));
    } else {
        lemma_frames_first(queue.drop_last());
        assert(queue.drop_last().drop_first() =~= others.drop_last());
        assert(others.last() == queue.last());
        assert(frames(queue) =~= first + frames(others));
    }
}

/// The state of a reader that has taken the whole frame of `message`.
spec fn frame_taken(start: ReadState, message: Message) -> ReadState {
    ReadState {
        builder: start.builder.after_message(message.bytes),
        time: le_bytes(message.time),
    }
}

/// Whether a reader that starts in `start` can take `message`, behind which `rest` follows.
spec fn can_take(start: ReadState, message: Message, rest: Seq<u8>) -> bool {
    &&& start.builder.at_start()
    &&& start.time.len() == 4
    &&& is_message(message.bytes)
    &&& message.bytes.len() <= start.builder.limit
    &&& start.builder.oversized ==> rest.len() == 0
}

/// A piece that starts with a whole frame is read up to the end of the frame.
proof fn lemma_read_in_one(start: ReadState, message: Message, rest: Seq<u8>)
    requires
        can_take(start, message, rest),
    ensures
        start.chunk_read(message.frame() + rest, 0) == (
            frame_taken(start, message),
            message.frame().len(),
        ),
{
    let chunk = message.frame() + rest;
    assert(start.time.take(0) + chunk.take(4) + start.time.skip(4) =~= le_bytes(message.time));
    assert(chunk.skip(4) =~= message.bytes.skip(0) + rest);
    lemma_scan_rest(start.builder, message.bytes, 0, rest);
}

/// A frame whose time is cut is read whole if four bytes or more follow the cut.
proof fn lemma_read_cut_time(start: ReadState, message: Message, rest: Seq<u8>, cut: nat)
    requires
        can_take(start, message, rest),
        0 < cut < 4,
        message.frame().len() + rest.len() >= cut + 4,
    ensures
        start.drained(message.frame() + rest, cut) == (
            frame_taken(start, message),
            message.frame().len(),
        ),
{
    let contents = message.frame() + rest;
    let first = contents.take(cut as int);
    let second = contents.skip(cut as int);
    let middle = start.chunk_read(first, 0);
    let k = cut as int;
    let time = le_bytes(message.time);
    assert(middle.0.time =~= time.take(k) + start.time.skip(k));
    assert(second.take(4 - k) =~= time.skip(k));
    assert(middle.0.time.take(k) =~= time.take(k));
    assert(middle.0.time.take(k) + second.take(4 - k) + middle.0.time.skip(4) =~= time);
    assert(second.skip(4 - k) =~= message.bytes.skip(0) + rest);
    lemma_scan_rest(start.builder, message.bytes, 0, rest);
}

/// A frame that is cut behind its time is read whole.
proof fn lemma_read_cut_bytes(start: ReadState, message: Message, rest: Seq<u8>, cut: nat)
    requires
        can_take(start, message, rest),
        4 <= cut < message.frame().len(),
    ensures
        start.drained(message.frame() + rest, cut) == (
            frame_taken(start, message),
            message.frame().len(),
        ),
{
    let contents = message.frame() + rest;
    let first = contents.take(cut as int);
    let second = contents.skip(cut as int);
    let at = (cut - 4) as nat;
    assert(start.time.take(0) + first.take(4) + start.time.skip(4) =~= le_bytes(message.time));
    assert(first.skip(4) =~= message.bytes.subrange(0, at as int));
    lemma_scan_part(start.builder, message.bytes, 0, at);
    assert(second.skip(0) =~= message.bytes.skip(at as int) + rest);
    lemma_scan_rest(start.builder, message.bytes, at, rest);
}

/// A read of a ring that holds the frame of `message` and then `rest` returns `message`
/// and takes its frame, and no byte of `rest`.
pub proof fn lemma_frame_read(start: ReadState, message: Message, rest: Seq<u8>, until_wrap: nat)
    requires
        start.builder.at_start(),
        start.time.len() == 4,
        is_message(message.bytes),
        message.bytes.len() <= start.builder.limit,
        until_wrap > 0,
        comes_out_whole(
            message.frame().len(),
            message.frame().len() + rest.len(),
            until_wrap,
            start.builder.oversized,
        ),
    ensures
        ({
            let read = start.drained(message.frame() + rest, until_wrap);
            &&& read.0.message() == Some(message)
            &&& read.0.builder == start.builder.after_message(message.bytes)
            &&& read.0.time == le_bytes(message.time)
            &&& read.1 == message.frame().len()
        }),
{
    let frame = message.frame();
    let contents = frame + rest;
    lemma_le_round_trip(message.time);
    if contents.len() <= until_wrap {
        lemma_read_in_one(start, message, rest);
    } else if until_wrap > frame.len() {
        let first = contents.take(until_wrap as int);
        let behind = rest.take(until_wrap - frame.len());
        assert(first =~= frame + behind);
        lemma_read_in_one(start, message, behind);
    } else if until_wrap < 4 {
        lemma_read_cut_time(start, message, rest, until_wrap);
    } else {
        lemma_read_cut_bytes(start, message, rest, until_wrap);
    }
}

/// A frame whose time is cut by the end of the memory while less than four bytes lie behind it
/// is lost: a read takes all there is and returns nothing.
pub proof fn lemma_cut_frame_is_taken(start: ReadState, contents: Seq<u8>, until_wrap: nat)
    requires
        start.builder.reset,
        0 < until_wrap < 4,
        until_wrap < contents.len() < until_wrap + 4,
    ensures
        start.drained(contents, until_wrap).1 == contents.len(),
        start.drained(contents, until_wrap).0.message() is None,
        start.drained(contents, until_wrap).0.builder == start.builder,
{
}

/// Only the frames that [`comes_out_whole`] names do: of any other frame, a read does not
/// return the message and take just its bytes.
pub proof fn lemma_other_frames_lost(
    start: ReadState,
    message: Message,
    rest: Seq<u8>,
    until_wrap: nat,
)
    requires
        start.builder.reset,
        start.time.len() == 4,
        is_message(message.bytes),
        message.bytes.len() <= start.builder.limit,
        until_wrap > 0,
        !comes_out_whole(
            message.frame().len(),
            message.frame().len() + rest.len(),
            until_wrap,
            start.builder.oversized,
        ),
    ensures
        ({
            let read = start.drained(message.frame() + rest, until_wrap);
            !(read.0.message() == Some(message) && read.1 == message.frame().len())
        }),
{
    let contents = message.frame() + rest;
    let k = until_wrap as int;
    if k < 4 && contents.len() < k + 4 {
        assert(start.drained(contents, until_wrap).0.builder == start.builder);
    } else if start.builder.oversized {
        if contents.len() <= k {
            lemma_oversized_scan(start.builder, contents.skip(4));
        } else {
            let first = contents.take(k);
            let second = contents.skip(k);
            let middle = start.chunk_read(first, 0).0.builder;
            if k >= 4 {
                lemma_oversized_scan(start.builder, first.skip(4));
                lemma_oversized_scan(middle, second.skip(0));
            } else {
                lemma_oversized_scan(middle, second.skip(4 - k));
            }
        }
    } else {
        let second = contents.skip(k);
        assert(contents.take(k) =~= message.frame() + Seq::<u8>::empty());
        lemma_read_in_one(start, message, Seq::empty());
        reveal_with_fuel(BuilderState::scanned, 2);
    }
}

/// A message that is offered to a ring with room for it besides all that was ever sent is
/// put into it: the four bytes of its time and its own bytes come next in the stream, and the
/// receiver is notified once. A message that is not put into the ring leaves no trace, and
/// nothing that is offered changes what was sent before.
pub proof fn lemma_offer_with_room(
    before: SenderState,
    after: SenderState,
    message: Message,
    sent: bool,
)
    requires
        before.offers(after, message, sent),
    ensures
        before.sent + 4 + message.bytes.len() <= before.slots ==> sent,
        4 + message.bytes.len() > before.slots ==> !sent,
        !sent ==> after == before,
        sent ==> {
            let put = after.stream.subrange(before.sent as int, after.sent as int);
            &&& after.sent == before.sent + 4 + message.bytes.len()
            &&& put.take(4) == le_bytes(message.time)
            &&& put.skip(4) == message.bytes
            &&& after.wakeups == before.wakeups + 1
        },
        after.stream == before.stream,
        after.marks == before.marks,
        after.slots == before.slots,
        after.waker == before.waker,
{
    assert(message.frame().take(4) =~= le_bytes(message.time));
    assert(message.frame().skip(4) =~= message.bytes);
}

/// A message that was sent is behind those that were on their way before.
pub proof fn lemma_send_appends(
    before: SenderState,
    after: SenderState,
    receiver: ReceiverState,
    queue: Seq<Message>,
    message: Message,
)
    requires
        linked(before, receiver, queue),
        before.sends(after, message),
    ensures
        linked(after, receiver, queue.push(message)),
{
    let longer = queue.push(message);
    let taken = receiver.taken as int;
    assert(longer.drop_last() =~= queue);
    assert(after.stream.subrange(taken, after.sent as int) =~= before.stream.subrange(
        taken,
        before.sent as int,
    ) + after.stream.subrange(before.sent as int, after.sent as int));
    assert forall|i: int| #![trigger longer[i]] 0 <= i < longer.len() implies {
        let start = receiver.taken + frames(longer.take(i)).len();
        &&& longer[i].frame().len() <= after.slots
        &&& unmarked(after.marks, start, start + longer[i].frame().len())
    } by {
        assert(longer.take(i) =~= queue.take(i));
        if i < queue.len() {
            assert(longer[i] == queue[i]);
        } else {
            assert(queue.take(i) =~= queue);
        }
    }
}

/// Messages come out of a ring as they were sent, and in the order in which they were
/// sent: a read that finds anything returns the message that was sent first, and leaves
/// those that were sent after it on their way.
pub proof fn lemma_recv_returns_sent(
    sender: SenderState,
    before: ReceiverState,
    after: ReceiverState,
    queue: Seq<Message>,
    received: Option<Message>,
)
    requires
        linked(sender, before, queue),
        queue.len() > 0,
        is_message(queue[0].bytes),
        queue[0].bytes.len() <= before.builder.limit,
        before.time.len() == 4,
        before.waiting > 0,
        comes_out_whole(
            queue[0].frame().len(),
            before.waiting,
            before.until_wrap(),
            before.builder.oversized,
        ),
        before.receives(after, received),
    ensures
        received == Some(queue[0]),
        linked(sender, after, queue.drop_first()),
        after.builder.limit == before.builder.limit,
        after.builder.oversized == before.builder.oversized,
        after.time.len() == 4,
{
    let rest = lemma_first_frame_waits(sender, before, queue);
    let start = ReadState { builder: before.builder.restarted(), time: before.time };
    lemma_frame_read(start, queue[0], rest, before.until_wrap());
    lemma_queue_moves_up(sender, before, after, queue);
}

/// How many slots of a ring hold no byte that is on its way.
pub open spec fn free_slots(sender: SenderState, receiver: ReceiverState) -> int {
    sender.slots - (sender.sent - receiver.taken)
}

/// A message of three bytes or more that is alone in a ring comes out of it wherever the end
/// of the ring's memory falls, even if a message was too long before: a read that finds all
/// that was sent returns it, and leaves the ring empty, with all its slots free again.
pub proof fn lemma_lone_message_returns(
    sender_before: SenderState,
    sender: SenderState,
    before: ReceiverState,
    after: ReceiverState,
    message: Message,
    received: Option<Message>,
)
    requires
        linked(sender_before, before, Seq::empty()),
        sender_before.sends(sender, message),
        is_message(message.bytes),
        3 <= message.bytes.len() <= before.builder.limit,
        before.time.len() == 4,
        before.taken + before.waiting == sender.sent,
        before.receives(after, received),
    ensures
        received == Some(message),
        linked(sender, after, Seq::empty()),
        after.taken == sender.sent,
        free_slots(sender, after) == sender.slots,
{
    let queue = seq![message];
    lemma_send_appends(sender_before, sender, before, Seq::empty(), message);
    assert(Seq::<Message>::empty().push(message) =~= queue);
    assert(frames(Seq::<Message>::empty()).len() == 0);
    assert(before.waiting == message.frame().len());
    lemma_recv_returns_sent(sender, before, after, queue, received);
    assert(queue.drop_first() =~= Seq::<Message>::empty());
}

/// What the next read finds, if it finds anything, starts with the frame of the message
/// that was sent first. Returns what follows it.
proof fn lemma_first_frame_waits(
    sender: SenderState,
    receiver: ReceiverState,
    queue: Seq<Message>,
) -> (rest: Seq<u8>)
    requires
        linked(sender, receiver, queue),
        queue.len() > 0,
        receiver.waiting > 0,
        receiver.taken + receiver.waiting <= receiver.stream.len(),
        receiver.marks.contains(receiver.taken + receiver.waiting),
    ensures
        receiver.contents() == queue[0].frame() + rest,
        receiver.waiting == queue[0].frame().len() + rest.len(),
        receiver.until_wrap() > 0,
{
    let first = queue[0].frame();
    let from = receiver.taken as int;
    let n = first.len() as int;
    let stream = receiver.stream;
    lemma_first_frame_found(sender, receiver, queue);
    let rest = stream.subrange(from + n, from + receiver.waiting);
    assert(receiver.contents() =~= stream.subrange(from, from + n) + rest);
    lemma_position_in_memory(from, receiver.slots as int);
    rest
}

/// The frame of the message that was sent first lies at the head of the ring, and a read
/// that finds anything finds all of it.
proof fn lemma_first_frame_found(
    sender: SenderState,
    receiver: ReceiverState,
    queue: Seq<Message>,
)
    requires
        linked(sender, receiver, queue),
        queue.len() > 0,
        receiver.waiting > 0,
        receiver.marks.contains(receiver.taken + receiver.waiting),
    ensures
        ({
            let from = receiver.taken as int;
            let first = queue[0].frame();
            &&& first.len() <= receiver.waiting
            &&& first.len() <= receiver.slots
            &&& receiver.stream.subrange(from, from + first.len()) == first
        }),
{
    let first = queue[0].frame();
    let from = receiver.taken as int;
    let on_the_way = receiver.stream.subrange(from, sender.sent as int);
    assert(queue.take(0) =~= Seq::<Message>::empty());
    assert(frames(queue.take(0)).len() == 0);
    assert(unmarked(sender.marks, receiver.taken, receiver.taken + first.len()));
    assert(first.len() <= receiver.waiting);
    lemma_frames_first(queue);
    assert(on_the_way == first + frames(queue.drop_first()));
    assert(on_the_way.take(first.len() as int) =~= first);
    assert(receiver.stream.subrange(from, from + first.len()) =~= on_the_way.take(
        first.len() as int,
    ));
}

/// A position in the ring's memory is smaller than the number of slots.
proof fn lemma_position_in_memory(count: int, slots: int)
    by (nonlinear_arith)
    requires
        slots > 0,
    ensures
        0 <= count % slots < slots,
{
}

/// Once the frame of the first message is taken, the others are on their way.
proof fn lemma_queue_moves_up(
    sender: SenderState,
    before: ReceiverState,
    after: ReceiverState,
    queue: Seq<Message>,
)
    requires
        linked(sender, before, queue),
        queue.len() > 0,
        after.stream == before.stream,
        after.marks == before.marks,
        after.slots == before.slots,
        after.waker == before.waker,
        after.taken == before.taken + queue[0].frame().len(),
    ensures
        linked(sender, after, queue.drop_first()),
{
    let others = queue.drop_first();
    let from = before.taken as int;
    let n = queue[0].frame().len() as int;
    let on_the_way = before.stream.subrange(from, sender.sent as int);
    lemma_frames_first(queue);
    assert(n <= on_the_way.len());
    assert(before.stream.subrange(from + n, sender.sent as int) =~= on_the_way.skip(n));
    assert(on_the_way.skip(n) =~= frames(others));
    assert forall|i: int| #![trigger others[i]] 0 <= i < others.len() implies {
        let start = after.taken + frames(others.take(i)).len();
        &&& others[i].frame().len() <= sender.slots
        &&& unmarked(sender.marks, start, start + others[i].frame().len())
    } by {
        assert(others[i] == queue[i + 1]);
        lemma_frames_first(queue.take(i + 1));
        assert(queue.take(i + 1).drop_first() =~= others.take(i));
    }
}

/// A read that returns a message takes at least one byte.
pub proof fn lemma_message_takes_bytes(
    before: ReceiverState,
    after: ReceiverState,
    message: Message,
)
    requires
        before.receives(after, Some(message)),
    ensures
        after.taken > before.taken,
{
    reveal_with_fuel(BuilderState::scanned, 2);
}

/// A read that finds nothing returns nothing and takes nothing.
pub proof fn lemma_recv_nothing(
    before: ReceiverState,
    after: ReceiverState,
    received: Option<Message>,
)
    requires
        before.waiting == 0,
        before.receives(after, received),
    ensures
        received is None,
        after.taken == before.taken,
{
    assert(before.contents() =~= Seq::<u8>::empty());
}

} // verus!
