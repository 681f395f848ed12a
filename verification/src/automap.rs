//! The AutoMap handshake on a synthesizer's control port.
use crate::bytes::same_bytes;
use crate::midi_builder::slice_view;
use std::sync::atomic::{AtomicU8, Ordering};
use vstd::prelude::*;

verus! {

/// The message by which either side says that AutoMap is on.
pub const AUTOMAP_OK: [u8; 4] = [0xf0, 0x00, 0x01, 0xf7];

/// The message by which the synthesizer says that AutoMap is off.
pub const AUTOMAP_OFF: [u8; 4] = [0xf0, 0x00, 0x00, 0xf7];

/// The message that makes the synthesizer show `Connected`.
pub const AUTOMAP_GREETING: [u8; 14] = [
    0xf0, 0x02, 0x00, 0x1e, 0x43, 0x6f, 0x6e, 0x6e, 0x65, 0x63, 0x74, 0x65, 0x64, 0xf7,
];

/// How far the handshake has come.
#[derive(Clone, Copy, Debug, PartialEq, Eq, Structural)]
pub enum AutoMapState {
    /// Nothing was heard yet.
    Startup,
    /// AutoMap was switched off.
    Wait,
    /// AutoMap is on.
    Listen,
}

/// What to do with a message from the synthesizer.
#[derive(Clone, Copy, Debug, PartialEq, Eq, Structural)]
pub enum AutoMapAction {
    /// Pass it on.
    Forward,
    /// Drop it and greet the synthesizer.
    SendGreeting,
    /// Drop it.
    Discard,
}

impl AutoMapState {
    /// The state after `message`.
    pub open spec fn next(self, message: Seq<u8>) -> AutoMapState {
        if message == AUTOMAP_OK@ {
            AutoMapState::Listen
        } else if message == AUTOMAP_OFF@ {
            AutoMapState::Wait
        } else {
            self
        }
    }

    /// What to do with `message`.
    pub open spec fn action(self, message: Seq<u8>) -> AutoMapAction {
        match self {
            AutoMapState::Startup => AutoMapAction::Discard,
            AutoMapState::Wait => if message == AUTOMAP_OK@ {
                AutoMapAction::SendGreeting
            } else {
                AutoMapAction::Discard
            },
            AutoMapState::Listen => if message == AUTOMAP_OFF@ {
                AutoMapAction::Discard
            } else {
                AutoMapAction::Forward
            },
        }
    }

    /// Takes note of a message from the synthesizer and says what to do with it.
    pub fn process(&mut self, msg: &[u8]) -> (action: AutoMapAction)
        ensures
            *final(self) == old(self).next(msg@),
            action == old(self).action(msg@),
            msg@ == AUTOMAP_OK@ ==> *final(self) == AutoMapState::Listen,
            msg@ == AUTOMAP_OFF@ ==> *final(self) == AutoMapState::Wait,
            msg@ != AUTOMAP_OK@ && msg@ != AUTOMAP_OFF@ ==> *final(self) == *old(self),
            action == AutoMapAction::Forward <==> *old(self) == AutoMapState::Listen && msg@
                != AUTOMAP_OFF@,
            action == AutoMapAction::SendGreeting <==> *old(self) == AutoMapState::Wait && msg@
                == AUTOMAP_OK@,
    {
        let ok = same_bytes(msg, &AUTOMAP_OK);
        let off = same_bytes(msg, &AUTOMAP_OFF);
        proof {
            assert(AUTOMAP_OK@[2] != AUTOMAP_OFF@[2]);
        }
        match *self {
            AutoMapState::Startup => {
                if ok {
                    *self = AutoMapState::Listen;
                } else if off {
                    *self = AutoMapState::Wait;
                }
                AutoMapAction::Discard
            },
            AutoMapState::Wait => {
                if ok {
                    *self = AutoMapState::Listen;
                    AutoMapAction::SendGreeting
                } else {
                    AutoMapAction::Discard
                }
            },
            AutoMapState::Listen => {
                if off {
                    *self = AutoMapState::Wait;
                    AutoMapAction::Discard
                } else {
                    AutoMapAction::Forward
                }
            },
        }
    }
}

/// What is left to say in a greeting.
#[derive(Clone, Copy, Debug, PartialEq, Eq, Structural)]
pub enum AutoMapGreetingState {
    /// That AutoMap is on, once, when the program starts.
    InitialOk,
    /// That AutoMap is on, and then the greeting.
    AnswerOk,
    /// The greeting.
    Greet,
    /// Nothing.
    Silent,
}

impl AutoMapGreetingState {
    /// What is left to say after the next message.
    pub open spec fn after(self) -> AutoMapGreetingState {
        match self {
            AutoMapGreetingState::AnswerOk => AutoMapGreetingState::Greet,
            _ => AutoMapGreetingState::Silent,
        }
    }

    /// The next message to send, if any.
    pub open spec fn says(self) -> Option<Seq<u8>> {
        match self {
            AutoMapGreetingState::InitialOk | AutoMapGreetingState::AnswerOk => Some(AUTOMAP_OK@),
            AutoMapGreetingState::Greet => Some(AUTOMAP_GREETING@),
            AutoMapGreetingState::Silent => None,
        }
    }

    /// The number by which the state is stored.
    pub open spec fn number(self) -> u8 {
        match self {
            AutoMapGreetingState::InitialOk => 3,
            AutoMapGreetingState::AnswerOk => 2,
            AutoMapGreetingState::Greet => 1,
            AutoMapGreetingState::Silent => 0,
        }
    }

    /// The state that is stored as `number`.
    pub open spec fn of_number(number: u8) -> AutoMapGreetingState {
        match number {
            3 => AutoMapGreetingState::InitialOk,
            2 => AutoMapGreetingState::AnswerOk,
            1 => AutoMapGreetingState::Greet,
            _ => AutoMapGreetingState::Silent,
        }
    }

    /// What is left to say after the next message.
    pub fn next(&self) -> (next: Self)
        ensures
            next == self.after(),
    {
        match self {
            AutoMapGreetingState::InitialOk => AutoMapGreetingState::Silent,
            AutoMapGreetingState::AnswerOk => AutoMapGreetingState::Greet,
            AutoMapGreetingState::Greet => AutoMapGreetingState::Silent,
            AutoMapGreetingState::Silent => AutoMapGreetingState::Silent,
        }
    }

    /// The next message to send, if any.
    pub fn message(&self) -> (message: Option<&'static [u8]>)
        ensures
            slice_view(message) == self.says(),
    {
        match self {
            AutoMapGreetingState::InitialOk | AutoMapGreetingState::AnswerOk => Some(&AUTOMAP_OK),
            AutoMapGreetingState::Greet => Some(&AUTOMAP_GREETING),
            AutoMapGreetingState::Silent => None,
        }
    }

    /// The number by which the state is stored.
    pub fn code(&self) -> (code: u8)
        ensures
            code == self.number(),
    {
        match self {
            AutoMapGreetingState::InitialOk => 3,
            AutoMapGreetingState::AnswerOk => 2,
            AutoMapGreetingState::Greet => 1,
            AutoMapGreetingState::Silent => 0,
        }
    }
}

impl From<u8> for AutoMapGreetingState {
    fn from(value: u8) -> (state: Self) {
        match value {
            3 => AutoMapGreetingState::InitialOk,
            2 => AutoMapGreetingState::AnswerOk,
            1 => AutoMapGreetingState::Greet,
            _ => AutoMapGreetingState::Silent,
        }
    }
}

impl vstd::std_specs::convert::FromSpecImpl<u8> for AutoMapGreetingState {
    open spec fn obeys_from_spec() -> bool {
        true
    }

    open spec fn from_spec(value: u8) -> Self {
        AutoMapGreetingState::of_number(value)
    }
}

/// The number that replaces the stored number `loaded` when a greeting moves on, or `None`
/// if there is nothing to say.
pub open spec fn step_after(loaded: u8) -> Option<u8> {
    let state = AutoMapGreetingState::of_number(loaded);
    if state == AutoMapGreetingState::Silent {
        None
    } else {
        Some(state.after().number())
    }
}

/// The message to send once the stored number was exchanged: that of the state which was
/// replaced, and none if another exchange came first.
pub open spec fn reply_to_exchange(exchanged: Result<u8, u8>) -> Option<Seq<u8>> {
    match exchanged {
        Ok(replaced) => AutoMapGreetingState::of_number(replaced).says(),
        Err(_) => None,
    }
}

/// The number that replaces the stored number `loaded` when a greeting moves on, or `None`
/// if there is nothing to say.
pub fn next_step(loaded: u8) -> (next: Option<u8>)
    ensures
        next == step_after(loaded),
        next == if loaded == 2 {
            Some(1u8)
        } else if loaded == 1 || loaded == 3 {
            Some(0u8)
        } else {
            None
        },
{
    let state = AutoMapGreetingState::from(loaded);
    match state {
        AutoMapGreetingState::Silent => None,
        _ => Some(state.next().code()),
    }
}

/// The message to send once the stored number was exchanged: that of the state which was
/// replaced, and none if another exchange came first.
pub fn exchange_reply(exchanged: Result<u8, u8>) -> (message: Option<&'static [u8]>)
    ensures
        slice_view(message) == reply_to_exchange(exchanged),
        slice_view(message) == if exchanged == Ok::<u8, u8>(2) || exchanged == Ok::<u8, u8>(3) {
            Some(AUTOMAP_OK@)
        } else if exchanged == Ok::<u8, u8>(1) {
            Some(AUTOMAP_GREETING@)
        } else {
            None
        },
{
    match exchanged {
        Ok(replaced) => AutoMapGreetingState::from(replaced).message(),
        Err(_) => None,
    }
}

/// The greeting under way, shared by the task that starts it and the one that sends it.
///
/// The number stored in it changes through shared references, so what it is at a given
/// moment cannot be stated. What is stated is which accesses to it were made, what they gave,
/// and what follows from that. How often it is started and what it said when it was asked is
/// kept in [`Starter`] and [`Reply`].
pub struct AutoMapGreeting {
    step: AtomicU8,
    first: Ghost<AutoMapGreetingState>,
}

impl AutoMapGreeting {
    /// Whether the greeting was made with the number `number` stored in it.
    pub closed spec fn made_with(&self, number: u8) -> bool {
        call_ensures(AtomicU8::new, (number,), self.step)
    }

    /// Whether `number` was stored in the greeting.
    pub closed spec fn took(&self, number: u8) -> bool {
        call_ensures(AtomicU8::store, (&self.step, number, Ordering::Relaxed), ())
    }

    /// Whether `number` was found in the greeting.
    pub closed spec fn held(&self, number: u8) -> bool {
        call_ensures(AtomicU8::load, (&self.step, Ordering::Relaxed), number)
    }

    /// Whether the request to replace `current` by `next` in the greeting, if it is still
    /// there, had the outcome `exchanged`.
    pub closed spec fn exchanged(&self, current: u8, next: u8, exchanged: Result<u8, u8>) -> bool {
        call_ensures(
            AtomicU8::compare_exchange,
            (&self.step, current, next, Ordering::Relaxed, Ordering::Relaxed),
            exchanged,
        )
    }

    /// Whether the greeting, which was found to hold `loaded`, was then asked to move on, with
    /// the outcome `outcome`: from having two messages left to having one, and from any other
    /// number of them to none. It is not asked if it has nothing to say.
    pub open spec fn moved_on(&self, loaded: u8, outcome: Result<u8, u8>) -> bool {
        &&& self.held(loaded)
        &&& loaded == 2 ==> self.exchanged(2, 1, outcome)
        &&& loaded == 1 || loaded == 3 ==> self.exchanged(loaded, 0, outcome)
    }
}

/// What a greeting said when it was asked.
pub struct Said {
    /// The greeting that was asked.
    pub greeting: AutoMapGreeting,
    /// The message that it gave up, if it had one to give.
    pub message: Option<Seq<u8>>,
}

/// The answer of a greeting that was asked, once, for its next message.
///
/// There is no other way to come by one than to ask a greeting.
pub struct Reply {
    message: Option<&'static [u8]>,
    greeting: Ghost<AutoMapGreeting>,
}

impl View for Reply {
    type V = Said;

    closed spec fn view(&self) -> Said {
        Said { greeting: self.greeting@, message: slice_view(self.message) }
    }
}

impl Reply {
    /// The message that the greeting gave up, if it had one to give.
    pub fn message(&self) -> (message: Option<&'static [u8]>)
        ensures
            slice_view(message) == self@.message,
    {
        self.message
    }
}

/// How often a greeting was started.
pub struct Starts {
    /// The greeting that was started.
    pub greeting: AutoMapGreeting,
    /// How often.
    pub count: nat,
}

/// Starts a greeting, and keeps count.
///
/// There is no other way to come by one than to ask a greeting for it.
pub struct Starter<'a> {
    greeting: &'a AutoMapGreeting,
    count: Ghost<nat>,
}

impl<'a> View for Starter<'a> {
    type V = Starts;

    closed spec fn view(&self) -> Starts {
        Starts { greeting: *self.greeting, count: self.count@ }
    }
}

impl<'a> Starter<'a> {
    /// Starts a whole greeting, by storing the number of [`AutoMapGreetingState::AnswerOk`].
    pub fn start(&mut self)
        ensures
            final(self)@ == (Starts { count: old(self)@.count + 1, ..old(self)@ }),
            final(self)@.greeting.took(2),
    {
        self.greeting.step.store(AutoMapGreetingState::AnswerOk.code(), Ordering::Relaxed);
        self.count = Ghost(self.count@ + 1);
    }
}

/// Access to a greeting that is good for one thing: to ask it once, or to start it. What it
/// is used for can be told from what it turns into.
pub trait Greets<'a>: Sized {
    /// The greeting that this gives access to.
    spec fn meant(&self) -> AutoMapGreeting;

    /// Asks for the next message of the greeting; the greeting moves on behind it.
    ///
    /// The stored number may change between any two accesses. Whatever the two accesses
    /// find, the result is that of the number which was exchanged.
    fn ask(self) -> (reply: Reply)
        ensures
            reply@.greeting == self.meant(),
            exists|loaded: u8, exchanged: Result<u8, u8>|
                reply@.message == #[trigger] greeting_message(loaded, exchanged)
                    && self.meant().moved_on(loaded, exchanged),
    ;

    /// What starts the greeting. It was not started yet.
    fn starter(self) -> (starter: Starter<'a>)
        ensures
            starter@.greeting == self.meant(),
            starter@.count == 0,
    ;
}

impl<'a> Greets<'a> for &'a AutoMapGreeting {
    open spec fn meant(&self) -> AutoMapGreeting {
        **self
    }

    fn ask(self) -> (reply: Reply) {
        let loaded: u8 = self.step.load(Ordering::Relaxed);
        match next_step(loaded) {
            None => {
                assert(slice_view(None) == greeting_message(loaded, Err(loaded)));
                Reply { message: None, greeting: Ghost(*self) }
            },
            Some(next) => {
                let state = AutoMapGreetingState::from(loaded);
                let exchanged = self.step.compare_exchange(
                    state.code(),
                    next,
                    Ordering::Relaxed,
                    Ordering::Relaxed,
                );
                let message = exchange_reply(exchanged);
                assert(slice_view(message) == greeting_message(loaded, exchanged));
                Reply { message, greeting: Ghost(*self) }
            },
        }
    }

    fn starter(self) -> (starter: Starter<'a>) {
        Starter { greeting: self, count: Ghost(0) }
    }
}

/// What greetings were started and what they said, in order.
pub struct GreetingLog {
    /// How often a greeting was started, for each run of starts.
    pub started: Seq<Starts>,
    /// What a greeting said, for each time that one was asked.
    pub said: Seq<Said>,
}

/// A record of the uses of greetings, to which only uses that were made can be added.
pub struct GreetingRecord {
    log: Ghost<GreetingLog>,
}

impl View for GreetingRecord {
    type V = GreetingLog;

    closed spec fn view(&self) -> GreetingLog {
        self.log@
    }
}

impl GreetingRecord {
    /// A record of nothing.
    pub fn new() -> (record: Self)
        ensures
            record@.started == Seq::<Starts>::empty(),
            record@.said == Seq::<Said>::empty(),
    {
        GreetingRecord { log: Ghost(GreetingLog { started: Seq::empty(), said: Seq::empty() }) }
    }

    /// Adds a run of starts.
    pub fn add_starts(&mut self, starter: Starter<'_>)
        ensures
            final(self)@.started == old(self)@.started.push(starter@),
            final(self)@.said == old(self)@.said,
    {
        self.log = Ghost(GreetingLog { started: self.log@.started.push(starter@), ..self.log@ });
    }

    /// Adds what a greeting said.
    pub fn add_reply(&mut self, reply: Reply)
        ensures
            final(self)@.started == old(self)@.started,
            final(self)@.said == old(self)@.said.push(reply@),
    {
        self.log = Ghost(GreetingLog { said: self.log@.said.push(reply@), ..self.log@ });
    }
}

impl AutoMapGreeting {
    /// The state that the greeting was made for, which is recorded beside the stored number.
    /// It says nothing of that number.
    pub closed spec fn first_state(&self) -> AutoMapGreetingState {
        self.first@
    }

    /// A greeting that is made for `state`.
    fn made_for(state: AutoMapGreetingState) -> (greeting: Self)
        ensures
            greeting.first_state() == state,
            greeting.made_with(state.number()),
    {
        AutoMapGreeting { step: AtomicU8::new(state.code()), first: Ghost(state) }
    }

    /// A greeting that says once that AutoMap is on, unless it is started over before: it is
    /// made for [`AutoMapGreetingState::InitialOk`].
    pub fn new() -> (greeting: Self)
        ensures
            greeting.first_state() == AutoMapGreetingState::InitialOk,
            greeting.made_with(3),
    {
        Self::made_for(AutoMapGreetingState::InitialOk)
    }

    /// Starts a whole greeting.
    pub fn send(&self)
        ensures
            self.took(2),
    {
        self.starter().start();
    }

    /// The next message of the greeting, if any; the greeting moves on behind it.
    pub fn message(&self) -> (message: Option<&'static [u8]>)
        ensures
            exists|loaded: u8, exchanged: Result<u8, u8>|
                slice_view(message) == #[trigger] greeting_message(loaded, exchanged)
                    && self.moved_on(loaded, exchanged),
    {
        self.ask().message()
    }
}

/// The next message of a greeting whose stored number was first found to be `loaded` and
/// was then exchanged with the outcome `exchanged`.
pub open spec fn greeting_message(loaded: u8, exchanged: Result<u8, u8>) -> Option<Seq<u8>> {
    if step_after(loaded) is None {
        None
    } else {
        reply_to_exchange(exchanged)
    }
}

/// The messages that a greeting in `state` sends until it falls silent, if nothing else
/// touches it.
pub open spec fn whole_greeting(state: AutoMapGreetingState) -> Seq<Seq<u8>>
    decreases state.number(),
{
    match state.says() {
        Some(message) => seq![message] + whole_greeting(state.after()),
        None => Seq::empty(),
    }
}

/// A number that was stored is read back as the state it was stored for.
pub proof fn lemma_number_round_trip(state: AutoMapGreetingState)
    ensures
        AutoMapGreetingState::of_number(state.number()) == state,
{
}

/// An exchange that nothing else interferes with says what the state says, and leaves the
/// state that comes after it.
pub proof fn lemma_undisturbed_message(state: AutoMapGreetingState)
    ensures
        greeting_message(state.number(), Ok(state.number())) == state.says(),
        step_after(state.number()) matches Some(next) ==> AutoMapGreetingState::of_number(next)
            == state.after(),
        step_after(state.number()) is None <==> state.says() is None,
{
}

/// The greeting of a new program is the single message that AutoMap is on; one that is
/// started later is that message followed by the greeting proper.
pub proof fn lemma_whole_greeting()
    ensures
        whole_greeting(AutoMapGreetingState::InitialOk) == seq![AUTOMAP_OK@],
        whole_greeting(AutoMapGreetingState::AnswerOk) == seq![AUTOMAP_OK@, AUTOMAP_GREETING@],
{
    reveal_with_fuel(whole_greeting, 3);
    assert(whole_greeting(AutoMapGreetingState::InitialOk) =~= seq![AUTOMAP_OK@]);
    assert(whole_greeting(AutoMapGreetingState::AnswerOk) =~= seq![
        AUTOMAP_OK@,
        AUTOMAP_GREETING@,
    ]);
}

/// What a greeting says depends on the number that was replaced alone: nothing if another
/// exchange came first or nothing was left to say, the greeting proper if that was left, and
/// that AutoMap is on if more was left.
pub proof fn lemma_said_is_what_was_left(loaded: u8, exchanged: Result<u8, u8>)
    ensures
        greeting_message(loaded, exchanged) == if 1 <= loaded <= 3 && exchanged == Ok::<u8, u8>(1) {
            Some(AUTOMAP_GREETING@)
        } else if 1 <= loaded <= 3 && (exchanged == Ok::<u8, u8>(2) || exchanged == Ok::<u8, u8>(
            3,
        )) {
            Some(AUTOMAP_OK@)
        } else {
            None
        },
{
}

/// Only the messages that switch AutoMap on and off move the handshake: any other message
/// leaves it as it is, so that the same message is treated alike before and after it.
pub proof fn lemma_other_messages_change_nothing(
    state: AutoMapState,
    message: Seq<u8>,
    later: Seq<u8>,
)
    requires
        message != AUTOMAP_OK@,
        message != AUTOMAP_OFF@,
    ensures
        state.next(message) == state,
        state.next(message).action(later) == state.action(later),
        state.action(message) == if state == AutoMapState::Listen {
            AutoMapAction::Forward
        } else {
            AutoMapAction::Discard
        },
{
}

/// A message is passed on only while AutoMap is on, and neither of the two messages that
/// switch it on and off is taken for anything else.
pub proof fn lemma_forward_only_when_on(state: AutoMapState, message: Seq<u8>)
    ensures
        state.action(message) == AutoMapAction::Forward <==> state == AutoMapState::Listen
            && message != AUTOMAP_OFF@,
        state.action(message) == AutoMapAction::SendGreeting <==> state == AutoMapState::Wait
            && state.next(message) == AutoMapState::Listen,
        state.next(AUTOMAP_OK@) == AutoMapState::Listen,
        state.next(AUTOMAP_OFF@) == AutoMapState::Wait,
{
    assert(AUTOMAP_OK@[2] != AUTOMAP_OFF@[2]);
}

} // verus!
