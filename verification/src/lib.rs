//! Engine of a terminal typing-speed test.
//!
//! The crate holds the parts of the game that decide something: the Markov
//! text generator, the word-wrap layout, the cursor model over wrapped
//! lines, the keystroke state machine and the result metrics. Terminal
//! input and output are left to the program built around it.

use crate::layout::LayoutError;
use crate::markov::MarkovError;
use vstd::prelude::*;

pub mod cursor;
pub mod input;
pub mod layout;
pub mod markov;
pub mod results;
pub mod text;

verus! {

/// The error that ends a run: a message for the user.
#[derive(Debug)]
pub struct GameError {
    pub msg: String,
}

impl From<String> for GameError {
    fn from(error: String) -> (err: GameError) {
        GameError { msg: error }
    }
}

impl vstd::std_specs::convert::FromSpecImpl<String> for GameError {
    open spec fn obeys_from_spec() -> bool {
        true
    }

    open spec fn from_spec(error: String) -> GameError {
        GameError { msg: error }
    }
}

impl GameError {
    /// The error for a terminal too small for the text: it says what the
    /// game requires and what it got.
    pub fn from_layout(error: LayoutError) -> (err: GameError)
        ensures
            err.msg@ == error.message_text(),
    {
        GameError { msg: error.message() }
    }

    /// The error for a corpus that no text can be generated from.
    pub fn from_markov(error: MarkovError) -> (err: GameError)
        ensures
            err.msg@ == error.message_text(),
    {
        GameError { msg: error.message() }
    }
}

} // verus!
