use novation_bridge::automap::{
    exchange_reply, next_step, AutoMapAction, AutoMapGreeting, AutoMapGreetingState, AutoMapState,
    AUTOMAP_GREETING, AUTOMAP_OFF, AUTOMAP_OK,
};

#[test]
fn handshake_from_startup() {
    let mut state = AutoMapState::Startup;
    assert_eq!(state.process(&[0x90, 1, 2]), AutoMapAction::Discard);
    assert_eq!(state, AutoMapState::Startup);
    assert_eq!(state.process(&AUTOMAP_OK), AutoMapAction::Discard);
    assert_eq!(state, AutoMapState::Listen);
    assert_eq!(state.process(&[0x90, 1, 2]), AutoMapAction::Forward);
    assert_eq!(state.process(&AUTOMAP_OK), AutoMapAction::Forward);
    assert_eq!(state, AutoMapState::Listen);
    assert_eq!(state.process(&AUTOMAP_OFF), AutoMapAction::Discard);
    assert_eq!(state, AutoMapState::Wait);
    assert_eq!(state.process(&AUTOMAP_OFF), AutoMapAction::Discard);
    assert_eq!(state.process(&[0x90, 1, 2]), AutoMapAction::Discard);
    assert_eq!(state, AutoMapState::Wait);
    assert_eq!(state.process(&AUTOMAP_OK), AutoMapAction::SendGreeting);
    assert_eq!(state, AutoMapState::Listen);
}

#[test]
fn startup_waits_after_off() {
    let mut state = AutoMapState::Startup;
    assert_eq!(state.process(&AUTOMAP_OFF), AutoMapAction::Discard);
    assert_eq!(state, AutoMapState::Wait);
    assert_eq!(state.process(&AUTOMAP_OK[..3]), AutoMapAction::Discard);
    assert_eq!(state, AutoMapState::Wait);
}

#[test]
fn greeting_bytes() {
    assert_eq!(AUTOMAP_OK, [0xf0, 0x00, 0x01, 0xf7]);
    assert_eq!(AUTOMAP_OFF, [0xf0, 0x00, 0x00, 0xf7]);
    assert_eq!(&AUTOMAP_GREETING[..], b"\xf0\x02\x00\x1eConnected\xf7");
}

#[test]
fn greeting_says_ok_once_at_the_start() {
    let greeting = AutoMapGreeting::new();
    assert_eq!(greeting.message(), Some(&AUTOMAP_OK[..]));
    assert_eq!(greeting.message(), None);
    assert_eq!(greeting.message(), None);
}

#[test]
fn greeting_is_ok_and_then_the_greeting() {
    let greeting = AutoMapGreeting::new();
    greeting.send();
    assert_eq!(greeting.message(), Some(&AUTOMAP_OK[..]));
    assert_eq!(greeting.message(), Some(&AUTOMAP_GREETING[..]));
    assert_eq!(greeting.message(), None);
    greeting.send();
    assert_eq!(greeting.message(), Some(&AUTOMAP_OK[..]));
    greeting.send();
    assert_eq!(greeting.message(), Some(&AUTOMAP_OK[..]));
    assert_eq!(greeting.message(), Some(&AUTOMAP_GREETING[..]));
    assert_eq!(greeting.message(), None);
}

#[test]
fn greeting_states() {
    let states = [
        (AutoMapGreetingState::InitialOk, 3, AutoMapGreetingState::Silent),
        (AutoMapGreetingState::AnswerOk, 2, AutoMapGreetingState::Greet),
        (AutoMapGreetingState::Greet, 1, AutoMapGreetingState::Silent),
        (AutoMapGreetingState::Silent, 0, AutoMapGreetingState::Silent),
    ];
    for (state, code, next) in states {
        assert_eq!(state.code(), code);
        assert_eq!(AutoMapGreetingState::from(code), state);
        assert_eq!(state.next(), next);
    }
    assert_eq!(AutoMapGreetingState::from(4), AutoMapGreetingState::Silent);
    assert_eq!(AutoMapGreetingState::InitialOk.message(), Some(&AUTOMAP_OK[..]));
    assert_eq!(AutoMapGreetingState::AnswerOk.message(), Some(&AUTOMAP_OK[..]));
    assert_eq!(AutoMapGreetingState::Greet.message(), Some(&AUTOMAP_GREETING[..]));
    assert_eq!(AutoMapGreetingState::Silent.message(), None);
}

#[test]
fn lost_exchange_says_nothing() {
    assert_eq!(next_step(3), Some(0));
    assert_eq!(next_step(2), Some(1));
    assert_eq!(next_step(1), Some(0));
    assert_eq!(next_step(0), None);
    assert_eq!(next_step(200), None);
    assert_eq!(exchange_reply(Ok(1)), Some(&AUTOMAP_GREETING[..]));
    assert_eq!(exchange_reply(Ok(0)), None);
    assert_eq!(exchange_reply(Err(2)), None);
}
