//! A rendering of tokens as JSON text. The text is meant to be read, not
//! to be read back: it loses information.

pub mod ser;
