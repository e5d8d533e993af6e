//! How a guess stands to the secret, and what the player is told.

use vstd::prelude::*;

verus! {

/// The three ways in which a guess can stand to the secret.
#[derive(Clone, Copy, Debug, PartialEq, Eq, Structural)]
pub enum Comparison {
    /// The guess is below the secret.
    Less,
    /// The guess is above the secret.
    Greater,
    /// The guess is the secret.
    Equal,
}

/// How `guess` stands to `secret`.
pub open spec fn comparison_of(guess: int, secret: int) -> Comparison {
    if guess < secret {
        Comparison::Less
    } else if guess > secret {
        Comparison::Greater
    } else {
        Comparison::Equal
    }
}

/// Each outcome stands for one order of the two numbers and for no other, so
/// of any guess and secret exactly one outcome holds.
pub proof fn lemma_comparison_exclusive(guess: int, secret: int)
    ensures
        comparison_of(guess, secret) == Comparison::Less <==> guess < secret,
        comparison_of(guess, secret) == Comparison::Greater <==> guess > secret,
        comparison_of(guess, secret) == Comparison::Equal <==> guess == secret,
{
}

/// Compares a guess to the secret.
pub fn compare(guess: u32, secret: u32) -> (r: Comparison)
    ensures
        r == comparison_of(guess as int, secret as int),
{
    if guess < secret {
        Comparison::Less
    } else if guess > secret {
        Comparison::Greater
    } else {
        Comparison::Equal
    }
}

impl Comparison {
    /// The words for each outcome.
    pub open spec fn hint(self) -> Seq<char> {
        match self {
            Comparison::Less => "Too small!"@,
            Comparison::Greater => "Too big!"@,
            Comparison::Equal => "You win!"@,
        }
    }

    /// What the player is told about a guess with this outcome.
    pub fn message(self) -> (r: &'static str)
        ensures
            r@ == self.hint(),
    {
        match self {
            Comparison::Less => "Too small!",
            Comparison::Greater => "Too big!",
            Comparison::Equal => "You win!",
        }
    }
}

/// The answer to one line of input.
#[derive(Clone, Copy, Debug, PartialEq, Eq, Structural)]
pub enum Reply {
    /// The line held no guess.
    Invalid,
    /// The line held `guess`, which stands to the secret as `comparison` says.
    Compared { guess: u32, comparison: Comparison },
}

impl Reply {
    /// The reply to a guess that hit the secret.
    pub open spec fn wins(self) -> bool {
        self matches Reply::Compared { comparison, .. } && comparison == Comparison::Equal
    }

    /// The words for each reply.
    pub open spec fn notice(self) -> Seq<char> {
        match self {
            Reply::Invalid => "Invalid value"@,
            Reply::Compared { comparison, .. } => comparison.hint(),
        }
    }

    /// Whether this reply ends the game.
    pub fn is_win(&self) -> (r: bool)
        ensures
            r == self.wins(),
    {
        match self {
            Reply::Invalid => false,
            Reply::Compared { comparison, .. } => *comparison == Comparison::Equal,
        }
    }

    /// What the player is told.
    pub fn message(&self) -> (r: &'static str)
        ensures
            r@ == self.notice(),
    {
        match self {
            Reply::Invalid => "Invalid value",
            Reply::Compared { comparison, .. } => comparison.message(),
        }
    }
}

} // verus!
