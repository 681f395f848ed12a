//! The rules by which a bridge between Novation synthesizers and JACK works.
//!
//! - [`midi_builder`] takes a stream of bytes apart into MIDI messages.
//! - [`midi_text`] gives a message a text for the log; what `wmidi` makes of it is taken on
//!   trust.
//! - [`ring`] carries timed messages from one thread to another, on top of
//!   [`ring_buffer`], which holds what is taken on trust of a ring of bytes; [`ring_laws`]
//!   proves that what is received is what was sent.
//! - [`automap`] follows the AutoMap handshake on the control port.
//! - [`processor`] decides what happens to the bytes from a synthesizer and what is sent to
//!   it, and [`usb`] what the endpoints have to remember.
//! - [`jack_midi`] is the side that JACK calls.
//! - [`model_config`] knows the synthesizers, and [`device`] the connected ones.

pub mod automap;
pub mod bytes;
pub mod device;
pub mod jack_midi;
pub mod midi_builder;
pub mod midi_text;
pub mod model_config;
pub mod processor;
pub mod ring;
pub mod ring_buffer;
pub mod ring_laws;
pub mod usb;
