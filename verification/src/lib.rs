//! An in-memory notes service: the note store, the request handlers that
//! work on it, and the parsing of note identifiers.

pub mod handlers;
pub mod laws;
pub mod note_id;
pub mod store;
