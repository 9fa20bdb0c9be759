//! Pane: the verified core of a clipboard manager with a text expander.
//!
//! `text` holds the character-sequence vocabulary the other modules speak in,
//! `numbers` writes and reads numerals, `categories` classifies copied text,
//! `clipboard` decides what a clipboard change turns into, `db` holds the
//! records and the rules applied around the database, and `expander` is the
//! typed-keys state machine of the text expander.

pub mod text;
pub mod numbers;
pub mod categories;
pub mod clipboard;
pub mod db;
pub mod expander;
