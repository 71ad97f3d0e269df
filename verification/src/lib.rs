//! Core of an interactive typing-practice tool.
//!
//! A reference text is presented line by line and retyped by the user.
//! The library tracks correctness, cursor position and typing speed:
//! * [`speed::SpeedWindow`] keeps a sliding window of per-line speed samples;
//! * [`typing::TypingState`] is the state machine that interprets input
//!   events (character, line break, backspace);
//! * [`render`] turns a state snapshot into styled text segments;
//! * [`persist`] builds and parses the header-plus-lines resume format.
//!
//! Terminal handling, file access and argument parsing are left to the
//! surrounding application, which hands the library plain values.

use vstd::prelude::*;

pub mod laws;
pub mod persist;
pub mod render;
pub mod speed;
pub mod typing;

verus! {

/// Command-line configuration: the file holding the text to practice on.
pub struct Args {
    pub filename: String,
}

} // verus!
