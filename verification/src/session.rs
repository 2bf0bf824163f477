//! The guessing session: a secret target and the loop that answers
//! textual guesses until one matches.

use crate::parse;
use crate::parse::parse_spec;
use crate::random;
use crate::reply::{compare_guess, compare_spec, Reply};
use vstd::prelude::*;

verus! {

/// Why the loop stopped normally.
#[derive(Debug, Clone, Copy, PartialEq, Eq, Structural)]
pub enum TerminationReason {
    /// A parsed guess equalled the target.
    Won,
}

/// The one fatal failure of the loop.
#[derive(Debug, Clone, Copy, PartialEq, Eq, Structural)]
pub enum RunError {
    /// The input source yielded no further line.
    InputExhausted,
}

/// The reply the session gives to one raw input line: a parse failure is
/// reported as invalid, a parsed value by its comparison with the target.
pub open spec fn line_outcome(line: Seq<char>, target: int) -> Reply {
    match parse_spec(line) {
        Some(v) => compare_spec(v, target),
        None => Reply::Invalid,
    }
}

/// Whether one raw input line wins against the target.
pub open spec fn wins(line: Seq<char>, target: int) -> bool {
    line_outcome(line, target) == Reply::Right
}

/// The character views of a sequence of input lines.
pub open spec fn line_views(lines: Seq<String>) -> Seq<Seq<char>> {
    lines.map_values(|l: String| l@)
}

/// The replies given to a sequence of processed lines, in order.
pub open spec fn replies_of(ls: Seq<Seq<char>>, target: int) -> Seq<Reply> {
    ls.map_values(|l: Seq<char>| line_outcome(l, target))
}

/// How many of the given lines parse successfully.
pub open spec fn valid_parses(ls: Seq<Seq<char>>) -> int
    decreases ls.len(),
{
    if ls.len() == 0 {
        0
    } else {
        valid_parses(ls.drop_last()) + if parse_spec(ls.last()) is Some {
            1int
        } else {
            0int
        }
    }
}

proof fn lemma_valid_parses_le_len(ls: Seq<Seq<char>>)
    ensures
        0 <= valid_parses(ls) <= ls.len(),
    decreases ls.len(),
{
    if ls.len() > 0 {
        lemma_valid_parses_le_len(ls.drop_last());
    }
}

/// One run of the guessing game: a secret target in `[1, 100]` and the
/// number of parse-successful comparisons made so far.
pub struct GuessingSession {
    target: i32,
    attempts: u64,
}

impl GuessingSession {
    /// The secret target value.
    pub closed spec fn target_spec(&self) -> int {
        self.target as int
    }

    /// The number of successful parses so far.
    pub closed spec fn attempts_spec(&self) -> int {
        self.attempts as int
    }

    /// The session invariant: the target lies in `[1, 100]`.
    pub open spec fn wf(&self) -> bool {
        1 <= self.target_spec() <= 100
    }

    /// Starts a session with a target drawn at random from `[1, 100]`.
    pub fn new() -> (s: GuessingSession)
        ensures
            s.wf(),
            s.attempts_spec() == 0,
    {
        GuessingSession { target: random::sample_inclusive(1, 100), attempts: 0 }
    }

    /// Starts a session with the given target, for callers that fix it.
    pub fn with_target(target: i32) -> (s: GuessingSession)
        requires
            1 <= target <= 100,
        ensures
            s.wf(),
            s.target_spec() == target,
            s.attempts_spec() == 0,
    {
        GuessingSession { target, attempts: 0 }
    }

    /// The target value.
    pub fn target(&self) -> (t: i32)
        ensures
            t as int == self.target_spec(),
    {
        self.target
    }

    /// How many guesses have parsed successfully so far.
    pub fn attempt_count(&self) -> (c: u64)
        ensures
            c as int == self.attempts_spec(),
    {
        self.attempts
    }

    /// Handles one line of input. A malformed line is answered as invalid
    /// and changes nothing; a parsed guess counts one attempt and is
    /// answered by its comparison with the target, which never changes.
    pub fn process_line(&mut self, line: &str) -> (r: Reply)
        requires
            old(self).attempts_spec() < u64::MAX,
        ensures
            r == line_outcome(line@, old(self).target_spec()),
            final(self).target_spec() == old(self).target_spec(),
            final(self).attempts_spec() == old(self).attempts_spec() + if parse_spec(line@)
                is Some {
                1int
            } else {
                0int
            },
    {
        match parse::parse_guess(line) {
            None => Reply::Invalid,
            Some(v) => {
                self.attempts = self.attempts + 1;
                compare_guess(v, self.target)
            },
        }
    }

    /// Drives the loop over a finite input source. Every line up to and
    /// including the first winning one is answered with a reply pushed to
    /// `outputs`; the session wins at the first line whose parsed value
    /// equals the target, and reports exhausted input if none does.
    pub fn run(&mut self, lines: &Vec<String>, outputs: &mut Vec<Reply>) -> (r: Result<
        TerminationReason,
        RunError,
    >)
        requires
            old(self).attempts_spec() + lines@.len() <= u64::MAX,
        ensures
            final(self).target_spec() == old(self).target_spec(),
            match r {
                Ok(reason) => {
                    &&& reason is Won
                    &&& exists|k: int|
                        {
                            &&& 0 <= k < lines@.len()
                            &&& wins(
                                #[trigger] line_views(lines@)[k],
                                old(self).target_spec(),
                            )
                            &&& forall|j: int|
                                0 <= j < k ==> !wins(
                                    #[trigger] line_views(lines@)[j],
                                    old(self).target_spec(),
                                )
                            &&& final(outputs)@ == old(outputs)@ + replies_of(
                                line_views(lines@).take(k + 1),
                                old(self).target_spec(),
                            )
                            &&& final(self).attempts_spec() == old(self).attempts_spec()
                                + valid_parses(line_views(lines@).take(k + 1))
                        }
                },
                Err(e) => {
                    &&& e is InputExhausted
                    &&& forall|j: int|
                        0 <= j < lines@.len() ==> !wins(
                            #[trigger] line_views(lines@)[j],
                            old(self).target_spec(),
                        )
                    &&& final(outputs)@ == old(outputs)@ + replies_of(
                        line_views(lines@),
                        old(self).target_spec(),
                    )
                    &&& final(self).attempts_spec() == old(self).attempts_spec() + valid_parses(
                        line_views(lines@),
                    )
                },
            },
    {
        let ghost tgt = self.target_spec();
        let ghost ls = line_views(lines@);
        let ghost outs0 = outputs@;
        let ghost att0 = self.attempts_spec();
        let mut idx: usize = 0;
        while idx < lines.len()
            invariant
                0 <= idx <= lines@.len(),
                ls == line_views(lines@),
                ls.len() == lines@.len(),
                tgt == self.target_spec(),
                tgt == old(self).target_spec(),
                att0 == old(self).attempts_spec(),
                outs0 == old(outputs)@,
                att0 + lines@.len() <= u64::MAX,
                self.attempts_spec() == att0 + valid_parses(ls.take(idx as int)),
                outputs@ == outs0 + replies_of(ls.take(idx as int), tgt),
                forall|j: int| 0 <= j < idx ==> !wins(#[trigger] ls[j], tgt),
            decreases lines@.len() - idx,
        {
            proof {
                lemma_valid_parses_le_len(ls.take(idx as int));
            }
            let line = &lines[idx];
            let r = self.process_line(line.as_str());
            outputs.push(r);
            proof {
                assert(ls[idx as int] == lines@[idx as int]@);
                assert(ls.take(idx + 1).drop_last() =~= ls.take(idx as int));
                assert(ls.take(idx + 1).last() == ls[idx as int]);
                assert(replies_of(ls.take(idx + 1), tgt) =~= replies_of(
                    ls.take(idx as int),
                    tgt,
                ).push(line_outcome(ls[idx as int], tgt)));
                assert(outputs@ =~= outs0 + replies_of(ls.take(idx + 1), tgt));
            }
            if r == Reply::Right {
                proof {
                    let k = idx as int;
                    assert(
                        {
                            &&& 0 <= k < lines@.len()
                            &&& wins(line_views(lines@)[k], tgt)
                            &&& forall|j: int|
                                0 <= j < k ==> !wins(#[trigger] line_views(lines@)[j], tgt)
                            &&& outputs@ == outs0 + replies_of(line_views(lines@).take(k + 1), tgt)
                            &&& self.attempts_spec() == att0 + valid_parses(
                                line_views(lines@).take(k + 1),
                            )
                        });
                }
                return Ok(TerminationReason::Won);
            }
            idx += 1;
        }
        proof {
            assert(ls.take(lines@.len() as int) =~= ls);
        }
        Err(RunError::InputExhausted)
    }
}

} // verus!
