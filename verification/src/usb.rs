//! What the bridge keeps track of while it moves bytes over USB endpoints.
//!
//! The transfers themselves are made by whoever owns the endpoint's queue, and how many of
//! them are pending is told by that queue.
use crate::automap::{GreetingRecord, Reply, Said};
use crate::model_config::EndpointInfo;
use vstd::prelude::*;

verus! {

/// The size of a transfer in bytes.
pub const TRANSFER_SIZE: usize = 1024;

/// The most transfers that are pending at an endpoint at one time, and the most buffers
/// that are kept for later transfers.
pub const TRANSFER_LIMIT: usize = 128;

/// An endpoint to read from.
pub struct UsbIn {
    address: u8,
    read_err: bool,
}

impl UsbIn {
    /// The USB address of the endpoint.
    pub closed spec fn endpoint(&self) -> u8 {
        self.address
    }

    /// Whether a transfer has failed.
    pub closed spec fn failed(&self) -> bool {
        self.read_err
    }

    /// The endpoint to read from of `endpoint_info`.
    pub fn new(endpoint_info: &EndpointInfo) -> (usb_in: Self)
        ensures
            usb_in.endpoint() == endpoint_info.input_number(),
            usb_in.endpoint() == endpoint_info.input | 0x80,
            !usb_in.failed(),
    {
        UsbIn { address: endpoint_info.input_address(), read_err: false }
    }

    /// The USB address of the endpoint.
    pub fn address(&self) -> (address: u8)
        ensures
            address == self.endpoint(),
    {
        self.address
    }

    /// Whether one more transfer is to be requested while `pending` are.
    pub fn can_request(&self, pending: usize) -> (can: bool)
        ensures
            can == (pending < TRANSFER_LIMIT),
            can == (pending < 128),
    {
        pending < TRANSFER_LIMIT
    }

    /// Takes note of a completed transfer.
    pub fn recv(&mut self, succeeded: bool)
        ensures
            final(self).endpoint() == old(self).endpoint(),
            final(self).failed() == (old(self).failed() || !succeeded),
    {
        if !succeeded {
            self.read_err = true;
        }
    }

    /// Whether a transfer has failed.
    pub fn has_err(&self) -> (failed: bool)
        ensures
            failed == self.failed(),
    {
        self.read_err
    }
}

/// What to wait for before the next transfer to an endpoint.
#[derive(Clone, Copy, Debug, PartialEq, Eq, Structural)]
pub enum SendStep {
    /// The completion of the oldest pending transfer.
    Completion,
    /// News from the other side, for a short while.
    Notification,
}

/// What an endpoint to write to keeps.
pub struct OutState {
    /// The USB address of the endpoint.
    pub endpoint: u8,
    /// The buffers kept for later transfers.
    pub buffers: Seq<Seq<u8>>,
    /// Whether a transfer has failed.
    pub failed: bool,
}

impl OutState {
    /// No more buffers are kept than transfers can be pending, and all of them are empty.
    pub open spec fn wf(self) -> bool {
        &&& self.buffers.len() <= TRANSFER_LIMIT
        &&& forall|i: int|
            #![trigger self.buffers[i]]
            0 <= i < self.buffers.len() ==> self.buffers[i].len() == 0
    }

    /// The state after a buffer was taken for a transfer.
    pub open spec fn submitted(self) -> OutState {
        if self.buffers.len() == 0 {
            self
        } else {
            OutState { buffers: self.buffers.drop_last(), ..self }
        }
    }

    /// The buffer to transfer for `bytes`.
    pub open spec fn transfer(self, bytes: Seq<u8>) -> Seq<u8> {
        if self.buffers.len() == 0 {
            bytes
        } else {
            self.buffers.last() + bytes
        }
    }

    /// The state after a transfer was completed and gave back `buffer`.
    pub open spec fn completed(self, succeeded: bool, buffer: Seq<u8>) -> OutState {
        OutState {
            buffers: if self.buffers.len() < TRANSFER_LIMIT {
                self.buffers.push(buffer)
            } else {
                self.buffers
            },
            failed: self.failed || !succeeded,
            ..self
        }
    }
}

/// An endpoint to write to.
pub struct UsbOut {
    address: u8,
    out_bufs: Vec<Vec<u8>>,
    write_err: bool,
    record: GreetingRecord,
}

impl View for UsbOut {
    type V = OutState;

    closed spec fn view(&self) -> OutState {
        OutState {
            endpoint: self.address,
            buffers: self.out_bufs@.map_values(|buffer: Vec<u8>| buffer@),
            failed: self.write_err,
        }
    }
}

impl UsbOut {
    /// What the greeting said each time that it was asked for this endpoint, in order.
    pub closed spec fn heard(&self) -> Seq<Said> {
        self.record@.said
    }

    /// The endpoint to write to of `endpoint_info`.
    pub fn new(endpoint_info: &EndpointInfo) -> (usb_out: Self)
        ensures
            usb_out@.endpoint == endpoint_info.output_number(),
            usb_out@.endpoint == endpoint_info.output & 0x7f,
            usb_out.heard() == Seq::<Said>::empty(),
            usb_out@.buffers == Seq::<Seq<u8>>::empty(),
            !usb_out@.failed,
            usb_out@.wf(),
    {
        let usb_out = UsbOut {
            address: endpoint_info.output_address(),
            out_bufs: Vec::new(),
            write_err: false,
            record: GreetingRecord::new(),
        };
        assert(usb_out@.buffers =~= Seq::<Seq<u8>>::empty());
        usb_out
    }

    /// The USB address of the endpoint.
    pub fn address(&self) -> (address: u8)
        ensures
            address == self@.endpoint,
    {
        self.address
    }

    /// Whether one more transfer may be submitted while `pending` are.
    pub fn can_submit(&self, pending: usize) -> (can: bool)
        ensures
            can == (pending < TRANSFER_LIMIT),
            can == (pending < 128),
    {
        pending < TRANSFER_LIMIT
    }

    /// Takes note of what the greeting said when it was asked for this endpoint.
    pub fn hear(&mut self, reply: Reply)
        ensures
            final(self)@ == old(self)@,
            final(self).heard() == old(self).heard().push(reply@),
    {
        self.record.add_reply(reply);
    }

    /// The buffer to transfer for `bytes`: one that was kept, if there is one, with `bytes`
    /// behind what it holds.
    pub fn submit(&mut self, bytes: &[u8]) -> (buffer: Vec<u8>)
        ensures
            buffer@ == old(self)@.transfer(bytes@),
            final(self)@ == old(self)@.submitted(),
            old(self)@.wf() ==> buffer@ == bytes@ && final(self)@.wf(),
            final(self).heard() == old(self).heard(),
            final(self)@.endpoint == old(self)@.endpoint,
            final(self)@.failed == old(self)@.failed,
            final(self)@.buffers == if old(self)@.buffers.len() == 0 {
                old(self)@.buffers
            } else {
                old(self)@.buffers.drop_last()
            },
    {
        proof {
            if self@.wf() {
                lemma_transfer_is_message(self@, bytes@);
                lemma_wf_kept(self@, true, Seq::empty());
            }
        }
        let kept = self.out_bufs.pop();
        assert(self@.buffers =~= old(self)@.submitted().buffers);
        let mut buffer = match kept {
            Some(buffer) => buffer,
            None => Vec::with_capacity(TRANSFER_SIZE),
        };
        buffer.extend_from_slice(bytes);
        assert(buffer@ =~= old(self)@.transfer(bytes@));
        buffer
    }

    /// What to wait for while `pending` transfers are.
    pub fn send(&self, pending: usize) -> (step: SendStep)
        ensures
            step == if pending > 0 { SendStep::Completion } else { SendStep::Notification },
    {
        if pending > 0 {
            SendStep::Completion
        } else {
            SendStep::Notification
        }
    }

    /// Takes note of a completed transfer, and keeps its buffer for a later one.
    pub fn sent(&mut self, succeeded: bool, buffer: Vec<u8>)
        ensures
            final(self)@ == old(self)@.completed(succeeded, buffer@),
            final(self)@.failed == (old(self)@.failed || !succeeded),
            final(self)@.endpoint == old(self)@.endpoint,
            final(self)@.buffers == if old(self)@.buffers.len() < 128 {
                old(self)@.buffers.push(buffer@)
            } else {
                old(self)@.buffers
            },
            final(self).heard() == old(self).heard(),
    {
        if !succeeded {
            self.write_err = true;
        }
        if self.out_bufs.len() < TRANSFER_LIMIT {
            self.out_bufs.push(buffer);
        }
        assert(self@.buffers =~= old(self)@.completed(succeeded, buffer@).buffers);
    }

    /// Whether a transfer has failed.
    pub fn has_err(&self) -> (failed: bool)
        ensures
            failed == self@.failed,
    {
        self.write_err
    }
}

/// The two endpoints of an interface.
pub struct InteractiveInterface {
    usb_in: UsbIn,
    usb_out: UsbOut,
}

impl InteractiveInterface {
    /// The endpoint to read from.
    pub closed spec fn input(&self) -> UsbIn {
        self.usb_in
    }

    /// The endpoint to write to.
    pub closed spec fn output(&self) -> UsbOut {
        self.usb_out
    }

    /// The endpoints of `endpoint_info`.
    pub fn new(endpoint_info: EndpointInfo) -> (interface: Self)
        ensures
            interface.input().endpoint() == endpoint_info.input_number(),
            !interface.input().failed(),
            interface.output()@.endpoint == endpoint_info.output_number(),
            interface.output()@.buffers == Seq::<Seq<u8>>::empty(),
            !interface.output()@.failed,
            interface.input().endpoint() == endpoint_info.input | 0x80,
            interface.output()@.endpoint == endpoint_info.output & 0x7f,
            interface.output()@.wf(),
            interface.output().heard() == Seq::<Said>::empty(),
    {
        InteractiveInterface {
            usb_in: UsbIn::new(&endpoint_info),
            usb_out: UsbOut::new(&endpoint_info),
        }
    }

    /// Both endpoints.
    pub fn split(&mut self) -> (ends: (&mut UsbIn, &mut UsbOut))
        ensures
            *ends.0 == old(self).input(),
            *ends.1 == old(self).output(),
            final(self).input() == *final(ends.0),
            final(self).output() == *final(ends.1),
    {
        (&mut self.usb_in, &mut self.usb_out)
    }

    /// Whether a transfer has failed in either direction.
    pub fn has_err(&self) -> (failed: bool)
        ensures
            failed == (self.input().failed() || self.output()@.failed),
    {
        self.usb_in.has_err() || self.usb_out.has_err()
    }
}

/// The invariant of an endpoint to write to: every operation keeps it, as long as
/// completed transfers give back empty buffers.
pub proof fn lemma_wf_kept(state: OutState, succeeded: bool, buffer: Seq<u8>)
    requires
        state.wf(),
        buffer.len() == 0,
    ensures
        state.submitted().wf(),
        state.completed(succeeded, buffer).wf(),
{
    let after = state.completed(succeeded, buffer);
    assert forall|i: int| #![trigger after.buffers[i]] 0 <= i < after.buffers.len() implies
        after.buffers[i].len() == 0 by {
        if i < state.buffers.len() {
            assert(after.buffers[i] == state.buffers[i]);
        }
    }
    let taken = state.submitted();
    assert forall|i: int| #![trigger taken.buffers[i]] 0 <= i < taken.buffers.len() implies
        taken.buffers[i].len() == 0 by {
        assert(taken.buffers[i] == state.buffers[i]);
    }
}

/// What is transferred for a message is the message itself, whichever buffer carries it.
pub proof fn lemma_transfer_is_message(state: OutState, bytes: Seq<u8>)
    requires
        state.wf(),
    ensures
        state.transfer(bytes) == bytes,
{
    if state.buffers.len() > 0 {
        assert(state.buffers[state.buffers.len() - 1].len() == 0);
        assert(state.buffers.last() + bytes =~= bytes);
    }
}

/// A failure is never forgotten.
pub proof fn lemma_failure_stays(state: OutState, succeeded: bool, buffer: Seq<u8>)
    requires
        state.failed,
    ensures
        state.submitted().failed,
        state.completed(succeeded, buffer).failed,
{
}

} // verus!
