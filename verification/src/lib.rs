//! Reading and writing of Standard MIDI Files.
//!
//! The crate holds the event model, the variable-length quantity that
//! prefixes every event, an encoder that lays a list of messages out as a
//! file image, and a decoder that turns a file image back into messages.

pub mod formats;
pub mod messages;
pub mod writer;
pub mod reader;
pub mod laws;
