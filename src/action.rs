//! The moves a transition can make.

use vstd::prelude::*;

verus! {

/// What a machine does with its head after writing a symbol.
///
/// `Wait` and `Replicate` are used by colonies: `Wait` leaves the head where
/// it is, and `Replicate` asks the colony for an offspring.
#[derive(Clone, Copy, Debug, PartialEq, Eq, Structural)]
pub enum Action {
    Up,
    Down,
    Left,
    Right,
    Wait,
    Replicate,
}

/// Number of actions that random tables draw from.
pub const ACTION_COUNT: usize = 6;

impl Action {
    /// The action a uniform draw `k` in `[0, ACTION_COUNT)` stands for; any
    /// larger draw is read as `Replicate`.
    pub open spec fn spec_from_draw(k: nat) -> Action {
        if k == 0 {
            Action::Up
        } else if k == 1 {
            Action::Down
        } else if k == 2 {
            Action::Left
        } else if k == 3 {
            Action::Right
        } else if k == 4 {
            Action::Wait
        } else {
            Action::Replicate
        }
    }

    pub fn from_draw(k: u32) -> (a: Action)
        ensures
            a == Self::spec_from_draw(k as nat),
    {
        match k {
            0 => Action::Up,
            1 => Action::Down,
            2 => Action::Left,
            3 => Action::Right,
            4 => Action::Wait,
            _ => Action::Replicate,
        }
    }

    /// The action that a code of the text encoding stands for. Only the four
    /// moves have a code.
    pub open spec fn spec_from_code(c: u8) -> Option<Action> {
        if c == 0 {
            Some(Action::Left)
        } else if c == 1 {
            Some(Action::Right)
        } else if c == 2 {
            Some(Action::Up)
        } else if c == 3 {
            Some(Action::Down)
        } else {
            None
        }
    }

    pub fn from_code(c: u8) -> (r: Option<Action>)
        ensures
            r == Self::spec_from_code(c),
    {
        match c {
            0 => Some(Action::Left),
            1 => Some(Action::Right),
            2 => Some(Action::Up),
            3 => Some(Action::Down),
            _ => None,
        }
    }

    /// The code of this action in the text encoding, if it has one.
    pub open spec fn spec_code(self) -> Option<u8> {
        match self {
            Action::Left => Some(0u8),
            Action::Right => Some(1u8),
            Action::Up => Some(2u8),
            Action::Down => Some(3u8),
            _ => None,
        }
    }

    pub fn code(self) -> (r: Option<u8>)
        ensures
            r == self.spec_code(),
    {
        match self {
            Action::Left => Some(0),
            Action::Right => Some(1),
            Action::Up => Some(2),
            Action::Down => Some(3),
            _ => None,
        }
    }

    /// Decoding a code gives back the action it was taken from.
    pub proof fn lemma_code_round_trip(self)
        ensures
            self.spec_code() is Some ==> Self::spec_from_code(self.spec_code()->0) == Some(self),
    {
    }
}

} // verus!
