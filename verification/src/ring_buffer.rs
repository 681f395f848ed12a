//! What the MIDI ring takes on trust from `direct_ring_buffer` and `tokio`.
//!
//! The producer and the consumer of a ring are two values that two threads may use at the
//! same time. So nothing is said of one of them that the other could change behind its
//! back: what is in the ring is spoken of as of the next read, and what is free in it as of
//! the next write. What ties the two together is the stream of bytes that passes through
//! the ring, of which the producer writes one part after the other and the consumer takes
//! one part after the other. Which bytes these are is settled only as they are written, so
//! the stream is known up to the bytes written so far and no further.
//!
//! That a read which follows a write in time finds what was written is not stated: the
//! order of two operations on two values cannot be spoken of.
use crate::midi_builder::MidiBuilder;
use crate::ring::{read_chunk, write_chunk, ReadState};
use direct_ring_buffer::{Consumer, Producer};
use std::sync::Arc;
use tokio::sync::Notify;
use vstd::prelude::*;

verus! {

/// The writing end of a ring.
#[verifier::external_type_specification]
#[verifier::external_body]
#[verifier::reject_recursive_types(T)]
pub struct ExProducer<T>(direct_ring_buffer::Producer<T>);

/// The reading end of a ring.
#[verifier::external_type_specification]
#[verifier::external_body]
#[verifier::reject_recursive_types(T)]
pub struct ExConsumer<T>(direct_ring_buffer::Consumer<T>);

/// The bytes that pass through the ring of `producer` during its whole life, in the order
/// in which they are written.
pub uninterp spec fn producer_stream(producer: Producer<u8>) -> Seq<u8>;

/// The places in the stream of `producer` at which a write ends, and the start of the stream.
pub uninterp spec fn producer_marks(producer: Producer<u8>) -> Set<nat>;

/// How many bytes `producer` has written so far.
pub uninterp spec fn producer_count(producer: Producer<u8>) -> nat;

/// How many bytes the ring of `producer` can hold.
pub uninterp spec fn producer_slots(producer: Producer<u8>) -> nat;

/// How many slots the next write of `producer` finds free. The consumer may free more of
/// them at any time.
pub uninterp spec fn producer_room(producer: Producer<u8>) -> nat;

/// The bytes that pass through the ring of `consumer` during its whole life, in the order
/// in which they are written.
pub uninterp spec fn consumer_stream(consumer: Consumer<u8>) -> Seq<u8>;

/// The places in the stream of `consumer` at which a write ends, and the start of the stream.
pub uninterp spec fn consumer_marks(consumer: Consumer<u8>) -> Set<nat>;

/// How many bytes `consumer` has taken so far.
pub uninterp spec fn consumer_count(consumer: Consumer<u8>) -> nat;

/// How many bytes the ring of `consumer` can hold.
pub uninterp spec fn consumer_slots(consumer: Consumer<u8>) -> nat;

/// How many bytes the next read of `consumer` finds. The producer may add more of them at
/// any time.
pub uninterp spec fn consumer_waiting(consumer: Consumer<u8>) -> nat;

/// The bytes that the next read of `consumer` finds.
pub open spec fn consumer_contents(consumer: Consumer<u8>) -> Seq<u8> {
    let from = consumer_count(consumer) as int;
    consumer_stream(consumer).subrange(from, from + consumer_waiting(consumer))
}

/// How many bytes lie between the next byte that `consumer` takes and the end of the ring's
/// memory. A read hands out the bytes in front of that point first and those behind it,
/// which lie at the start of the memory, in a second piece.
pub open spec fn consumer_until_wrap(consumer: Consumer<u8>) -> nat {
    let slots = consumer_slots(consumer) as int;
    (slots - consumer_count(consumer) as int % slots) as nat
}

/// Calls `direct_ring_buffer::create_ring_buffer`.
///
/// Trusted: the two ends belong to one ring of `size` slots, and nothing was written to it
/// or taken out of it yet. The ring's memory is allocated as a vector, which cannot have more
/// than `isize::MAX` bytes.
#[verifier::external_body]
pub(crate) fn create_ring_buffer(size: usize) -> (ends: (Producer<u8>, Consumer<u8>))
    requires
        size <= isize::MAX,
    ensures
        producer_stream(ends.0) == consumer_stream(ends.1),
        producer_marks(ends.0) == consumer_marks(ends.1),
        producer_count(ends.0) == 0,
        consumer_count(ends.1) == 0,
        producer_slots(ends.0) == size,
        consumer_slots(ends.1) == size,
{
    direct_ring_buffer::create_ring_buffer(size)
}

/// Calls `Producer::available`.
///
/// Trusted: the result is at most the size of the ring, and at least that size less all
/// that was ever written. Only the producer uses slots up, so its next write finds no fewer
/// of them free. How many of the bytes written were taken is up to the consumer, so no more
/// is said.
#[verifier::external_body]
pub(crate) fn available(producer: &Producer<u8>) -> (free: usize)
    ensures
        free <= producer_slots(*producer),
        free + producer_count(*producer) >= producer_slots(*producer),
        free <= producer_room(*producer),
{
    producer.available()
}

/// Calls `Producer::write_slices` with [`write_chunk`] and the limit `size`.
///
/// Trusted: as many bytes are written as are free, `size` at most; they are the next bytes
/// of the stream. The slices that are handed out cover the bytes to write one after the
/// other, each with the number of bytes in front of it, and [`write_chunk`] fills each of
/// them with the bytes of the frame `time + bytes` from that place on. The consumer is shown
/// all of them at once, so no place between them is one at which a write ends.
#[verifier::external_body]
pub(crate) fn write_slices(
    producer: &mut Producer<u8>,
    time: &[u8; 4],
    bytes: &[u8],
    size: usize,
) -> (written: usize)
    requires
        size <= 4 + bytes@.len(),
    ensures
        written == if size < producer_room(*old(producer)) { size as nat } else {
            producer_room(*old(producer)) },
        producer_stream(*final(producer)) == producer_stream(*old(producer)),
        producer_marks(*final(producer)) == producer_marks(*old(producer)),
        forall|place: nat|
            producer_count(*old(producer)) < place < producer_count(*final(producer))
                ==> !#[trigger] producer_marks(*final(producer)).contains(place),
        producer_slots(*final(producer)) == producer_slots(*old(producer)),
        producer_count(*final(producer)) == producer_count(*old(producer)) + written,
        producer_count(*final(producer)) <= producer_stream(*final(producer)).len(),
        producer_stream(*final(producer)).subrange(
            producer_count(*old(producer)) as int,
            producer_count(*final(producer)) as int,
        ) == (time@ + bytes@).take(written as int),
{
    producer.write_slices(|ring, offset| write_chunk(ring, offset, time, bytes), Some(size))
}

/// Calls `Consumer::read_slices` with [`read_chunk`] and no limit.
///
/// Trusted: the bytes that are in the ring are the next ones of the stream, up to a place at
/// which a write ended. They are handed out in one slice, or in two if they reach beyond the
/// end of the ring's memory, each with the number of bytes in front of it; the second only
/// if [`read_chunk`] took the whole of the first. The position in the memory is the number of
/// bytes taken so far, modulo the number of slots. Just the bytes that [`read_chunk`] took are
/// gone afterwards, and the next read finds at least the others.
#[verifier::external_body]
pub(crate) fn read_slices(
    consumer: &mut Consumer<u8>,
    builder: &mut MidiBuilder,
    time: &mut [u8; 4],
) -> (taken: usize)
    ensures
        ({
            let before = ReadState { builder: old(builder)@, time: old(time)@ };
            let after = ReadState { builder: final(builder)@, time: final(time)@ };
            (after, taken as nat) == before.drained(
                consumer_contents(*old(consumer)),
                consumer_until_wrap(*old(consumer)),
            )
        }),
        consumer_stream(*final(consumer)) == consumer_stream(*old(consumer)),
        consumer_marks(*final(consumer)) == consumer_marks(*old(consumer)),
        consumer_marks(*final(consumer)).contains(
            consumer_count(*old(consumer)) + consumer_waiting(*old(consumer)),
        ),
        consumer_slots(*final(consumer)) == consumer_slots(*old(consumer)),
        consumer_count(*final(consumer)) == consumer_count(*old(consumer)) + taken,
        taken <= consumer_waiting(*old(consumer)) <= consumer_waiting(*final(consumer)) + taken,
        consumer_count(*final(consumer)) + consumer_waiting(*final(consumer))
            <= consumer_stream(*final(consumer)).len(),
{
    consumer.read_slices(|ring, offset| read_chunk(builder, time, ring, offset), None)
}

/// What wakes a waiting task.
#[verifier::external_type_specification]
#[verifier::external_body]
pub struct ExNotify(tokio::sync::Notify);

/// Calls `tokio::sync::Notify::new`. Nothing is claimed of the result.
#[verifier::external_body]
pub(crate) fn new_notify() -> (notify: Notify) {
    Notify::new()
}

/// What a sender wakes its receiver with, and how often it has done so.
pub struct Bell {
    notify: Arc<Notify>,
    rings: Ghost<nat>,
}

impl Bell {
    /// What is notified when the bell is rung.
    pub closed spec fn target(&self) -> Notify {
        *self.notify
    }

    /// How often the bell was rung.
    pub closed spec fn count(&self) -> nat {
        self.rings@
    }

    /// A bell for `notify` that was not rung yet.
    pub(crate) fn new(notify: Arc<Notify>) -> (bell: Self)
        ensures
            bell.target() == *notify,
            bell.count() == 0,
    {
        Bell { notify, rings: Ghost(0) }
    }

    /// Calls `tokio::sync::Notify::notify_one` on what the bell is for.
    ///
    /// Trusted: this is one more call, and of the same `Notify`. Nothing else adds to the
    /// count. The call wakes the task that waits, or else the next one that is about to
    /// wait; which task that is and when it runs is not stated.
    #[verifier::external_body]
    pub(crate) fn ring(&mut self)
        ensures
            final(self).target() == old(self).target(),
            final(self).count() == old(self).count() + 1,
    {
        self.notify.notify_one()
    }
}

} // verus!
