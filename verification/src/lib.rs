//! A lexical scanner: it turns lines of raw text into a list of typed,
//! positioned tokens, or — when some part of the input matches no lexical
//! rule — into the complete ordered list of positioned lexical errors.
//!
//! The lexical grammar is a fixed, ordered rule table; earlier rules take
//! priority over later ones at every match position, and matching restarts
//! right after the end of each match. Everything the scanner returns is
//! pinned down by specification functions over sequences of characters.

use vstd::prelude::*;

pub mod chars;
pub mod rules;
pub mod token;
pub mod scan;
pub mod laws;

pub use token::{Token, TokenPosition};
pub use scan::{tokenize, int_lexemes_fit};

