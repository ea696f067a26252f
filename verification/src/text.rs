//! Scanning of text, seen as a sequence of characters.

pub mod case;
pub mod number;
pub mod scan;
pub mod utf;
