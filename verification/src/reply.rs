//! The session's answer to one line of input, and the three-way
//! comparison that produces it.

use vstd::prelude::*;

verus! {

/// What the session reports after reading one line of input.
#[derive(Debug, Clone, Copy, PartialEq, Eq, Structural)]
pub enum Reply {
    /// The line did not parse as a base-10 signed integer.
    Invalid,
    /// The parsed guess is below the target.
    Smaller,
    /// The parsed guess is above the target.
    Greater,
    /// The parsed guess equals the target; the session is over.
    Right,
}

/// Three-way comparison of a parsed guess against the target.
pub open spec fn compare_spec(guess: int, target: int) -> Reply {
    if guess < target {
        Reply::Smaller
    } else if guess > target {
        Reply::Greater
    } else {
        Reply::Right
    }
}

/// Compares a parsed guess against the target.
pub fn compare_guess(guess: i32, target: i32) -> (r: Reply)
    ensures
        r == compare_spec(guess as int, target as int),
{
    if guess < target {
        Reply::Smaller
    } else if guess > target {
        Reply::Greater
    } else {
        Reply::Right
    }
}

impl Reply {
    /// The user-visible wording of this reply.
    pub fn message(&self) -> (r: String)
        ensures
            self is Invalid ==> r@ == "please enter a valid number"@,
            self is Smaller ==> r@ == "your guessed number is smaller"@,
            self is Greater ==> r@ == "your guessed number is greater"@,
            self is Right ==> r@ == "you are right"@,
    {
        match self {
            Reply::Invalid => "please enter a valid number".to_owned(),
            Reply::Smaller => "your guessed number is smaller".to_owned(),
            Reply::Greater => "your guessed number is greater".to_owned(),
            Reply::Right => "you are right".to_owned(),
        }
    }
}

/// The comparison is a pure function of the pair of values: for two
/// distinct integers, comparing them in either order yields the two
/// opposite inequality replies, and never the winning one.
pub proof fn lemma_compare_antisymmetric(a: int, b: int)
    requires
        a != b,
    ensures
        compare_spec(a, b) == Reply::Smaller <==> compare_spec(b, a) == Reply::Greater,
        compare_spec(a, b) == Reply::Greater <==> compare_spec(b, a) == Reply::Smaller,
        compare_spec(a, b) != Reply::Right,
{
}

/// Comparing any integer with itself yields the winning reply.
pub proof fn lemma_compare_equal(a: int)
    ensures
        compare_spec(a, a) == Reply::Right,
{
}

} // verus!
