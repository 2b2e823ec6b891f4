//! What one call of `Cycle::next` tells its caller to do.

use vstd::prelude::*;
use crate::rotation::Rotation;
use crate::tokens::Token;

verus! {

/// How long a caller is prepared to wait for a token while all are locked.
#[derive(Clone, Copy, Debug, PartialEq, Eq, Structural)]
pub enum Patience {
    /// The caller waits for as long as it takes.
    Unbounded,
    /// The caller waits this many more times, then gives up.
    Polls(u64),
}

impl Patience {
    /// The caller is prepared to wait once more.
    pub open spec fn can_wait(self) -> bool {
        match self {
            Patience::Unbounded => true,
            Patience::Polls(n) => n > 0,
        }
    }

    /// What is left of the patience after one wait.
    pub open spec fn after_wait(self) -> Patience {
        match self {
            Patience::Unbounded => Patience::Unbounded,
            Patience::Polls(n) => if n > 0 {
                Patience::Polls((n - 1) as u64)
            } else {
                Patience::Polls(0)
            },
        }
    }
}

/// The answer of one call of `Cycle::next`.
#[derive(Debug, PartialEq, Eq)]
pub enum Step {
    /// This token is next in the rotation.
    Token(String),
    /// Every token is locked. Wait for `millis` milliseconds without holding
    /// the cycle, then call again with `patience`.
    Wait { millis: u64, patience: Patience },
    /// There is nothing to hand out: the list is empty, or all of it is
    /// locked and the caller's patience has run out.
    NoCandidates,
}

/// A `Step` as the contracts see it: the token is taken as the sequence of
/// its characters.
pub enum Outcome {
    /// The scan found this token.
    Token(Token),
    /// Every token is locked, and the caller is prepared to wait.
    Wait { millis: u64, patience: Patience },
    /// The list is empty, or all of it is locked and the caller is not
    /// prepared to wait.
    NoCandidates,
}

impl View for Step {
    type V = Outcome;

    open spec fn view(&self) -> Outcome {
        match *self {
            Step::Token(t) => Outcome::Token(t@),
            Step::Wait { millis, patience } => Outcome::Wait { millis, patience },
            Step::NoCandidates => Outcome::NoCandidates,
        }
    }
}

impl Rotation {
    /// What a scan answers to a caller with the given patience.
    pub open spec fn outcome(self, patience: Patience) -> Outcome {
        match self.next_slot() {
            Some(j) => Outcome::Token(self.items[j]),
            None => if self.items.len() > 0 && patience.can_wait() {
                Outcome::Wait { millis: self.poll_interval, patience: patience.after_wait() }
            } else {
                Outcome::NoCandidates
            },
        }
    }
}

} // verus!
