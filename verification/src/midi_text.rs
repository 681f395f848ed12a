//! MIDI messages as text, for the log.
use vstd::prelude::*;

verus! {

/// The characters of an optional string.
pub open spec fn text_view(text: Option<String>) -> Option<Seq<char>> {
    match text {
        Some(string) => Some(string@),
        None => None,
    }
}

/// What `wmidi` makes of `bytes`: the text of the message at their start, or nothing if they
/// do not start with one.
pub uninterp spec fn midi_text_of(bytes: Seq<u8>) -> Option<Seq<char>>;

/// Calls `wmidi::MidiMessage::try_from` and writes its message out with `Debug`.
///
/// Trusted: whether the bytes are taken for a message, and the text of the message, depend on
/// the bytes alone.
#[verifier::external_body]
pub(crate) fn midi_text(bytes: &[u8]) -> (text: Option<String>)
    ensures
        text_view(text) == midi_text_of(bytes@),
{
    match wmidi::MidiMessage::try_from(bytes) {
        Ok(midi) => Some(format!("{:?}", midi)),
        Err(_) => None,
    }
}

/// The text of the message `bytes`, if it is one that `wmidi` knows.
pub fn message_text(bytes: &[u8]) -> (text: Option<String>)
    ensures
        text_view(text) == midi_text_of(bytes@),
{
    midi_text(bytes)
}

} // verus!
