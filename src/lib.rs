//! Coordination logic of a content-sharing peer: the announcement wire format,
//! the content directory, the address book, the offered content, the tracker of
//! outstanding transfer requests, and the event handling that drives them.

pub mod bytes;
pub mod varint;
pub mod codec;
pub mod table;
pub mod node;
pub mod protocol;
pub mod command;
pub mod laws;
