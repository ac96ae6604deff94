//! The human participant: the orchestration loop pairs it against the
//! computer player of [`crate::ai`].  Reading a human's move is the loop's
//! business; the type here only records which colour the human drops.

use vstd::prelude::*;

use crate::board::Token;

verus! {

/// A human player, identified by the colour it drops.
pub struct Human {
    pub token: Token,
}

impl Human {
    /// A human player of colour `token`.
    pub fn new(token: Token) -> (h: Human)
        ensures
            h.token == token,
    {
        Human { token }
    }

    /// The colour this player drops.
    pub fn token(&self) -> (t: Token)
        ensures
            t == self.token,
    {
        self.token
    }
}

} // verus!
