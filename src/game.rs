//! Screen states and the data carried by an answer button.

use vstd::prelude::*;

verus! {

/// The screen that is shown.
#[derive(Clone, Copy, Debug, PartialEq, Eq, Structural)]
pub enum GameState {
    Menu,
    Options,
    Play,
}

/// What an answer button reports when pressed: the slot of the correct
/// candidate, the slot of this button, and the kanji being tested.
#[derive(Clone, Copy, Debug, PartialEq, Eq, Structural)]
pub struct AnswerData {
    pub correct_index: u8,
    pub index_to_test: u8,
    pub kanji: char,
}

/// The action bound to a button.
#[derive(Clone, Copy, Debug, PartialEq, Eq, Structural)]
pub enum ButtonAction {
    CheckAnswer(AnswerData),
}

impl AnswerData {
    /// Whether this button holds the correct candidate.
    pub fn is_correct(&self) -> (r: bool)
        ensures
            r == (self.index_to_test == self.correct_index),
    {
        self.index_to_test == self.correct_index
    }
}

} // verus!
