//! One game: a secret that never changes and the lines typed against it.

use crate::guessing_game::input::{guess_of, holds_guess, parse_guess};
use crate::guessing_game::outcome::{compare, comparison_of, Comparison, Reply};
use crate::guessing_game::secret::{draw_secret, valid_secret};
use vstd::prelude::*;

verus! {

/// Where a game stands.
#[derive(Clone, Copy, Debug, PartialEq, Eq, Structural)]
pub enum Phase {
    /// The secret has not been guessed yet.
    AwaitingGuess,
    /// The secret was guessed; the game is over.
    Won,
}

/// What a game is, to the contracts: its secret and its phase.
pub struct SessionState {
    pub secret: u32,
    pub phase: Phase,
}

/// The reply to `line` in a game with this secret.
pub open spec fn reply_to(secret: u32, line: Seq<char>) -> Reply {
    match guess_of(line) {
        Ok(guess) => Reply::Compared {
            guess,
            comparison: comparison_of(guess as int, secret as int),
        },
        Err(_) => Reply::Invalid,
    }
}

/// The game after `line` was put to it: won if the line held the secret,
/// unchanged if not.
pub open spec fn after_line(state: SessionState, line: Seq<char>) -> SessionState {
    if reply_to(state.secret, line).wins() {
        SessionState { secret: state.secret, phase: Phase::Won }
    } else {
        state
    }
}

/// The game after `lines` were put to it in order. Once the game is won no
/// further line is read.
pub open spec fn after_lines(state: SessionState, lines: Seq<Seq<char>>) -> SessionState
    decreases lines.len(),
{
    if lines.len() == 0 || state.phase == Phase::Won {
        state
    } else {
        after_lines(after_line(state, lines[0]), lines.drop_first())
    }
}

/// The replies to `lines`, in order, one for each line that is read: those up
/// to and including the first that wins the game.
pub open spec fn replies_to(state: SessionState, lines: Seq<Seq<char>>) -> Seq<Reply>
    decreases lines.len(),
{
    if lines.len() == 0 || state.phase == Phase::Won {
        Seq::empty()
    } else {
        seq![reply_to(state.secret, lines[0])] + replies_to(
            after_line(state, lines[0]),
            lines.drop_first(),
        )
    }
}

/// A guess is answered by how it stands to the secret, whatever its value:
/// the smallest and the largest number that a secret can be are compared as
/// any other.
pub proof fn lemma_reply_follows_comparison(secret: u32, line: Seq<char>, guess: u32)
    requires
        holds_guess(line, guess),
    ensures
        reply_to(secret, line) == (Reply::Compared {
            guess,
            comparison: comparison_of(guess as int, secret as int),
        }),
        reply_to(secret, line).wins() <==> guess == secret,
{
}

/// An open game ends with a line exactly when that line holds the secret.
pub proof fn lemma_won_iff_secret_guessed(state: SessionState, line: Seq<char>)
    requires
        state.phase == Phase::AwaitingGuess,
    ensures
        after_line(state, line).phase == Phase::Won <==> holds_guess(line, state.secret),
        reply_to(state.secret, line).wins() <==> holds_guess(line, state.secret),
        after_line(state, line).secret == state.secret,
{
}

/// A line that holds no guess is answered as invalid and leaves the game as
/// it was, so the next line is read as if this one had not been typed.
pub proof fn lemma_malformed_line_ignored(state: SessionState, line: Seq<char>)
    requires
        guess_of(line) is Err,
    ensures
        reply_to(state.secret, line) == Reply::Invalid,
        after_line(state, line) == state,
{
}

/// Any number of lines that hold no guess leave an open game as it was, and
/// each of them is answered as invalid.
pub proof fn lemma_malformed_lines_ignored(state: SessionState, lines: Seq<Seq<char>>)
    requires
        state.phase == Phase::AwaitingGuess,
        forall|i: int| 0 <= i < lines.len() ==> guess_of(#[trigger] lines[i]) is Err,
    ensures
        after_lines(state, lines) == state,
        replies_to(state, lines) == Seq::new(lines.len(), |i: int| Reply::Invalid),
    decreases lines.len(),
{
    if lines.len() > 0 {
        let rest = lines.drop_first();
        assert forall|i: int| 0 <= i < rest.len() implies guess_of(#[trigger] rest[i]) is Err by {
            assert(rest[i] == lines[i + 1]);
        }
        lemma_malformed_lines_ignored(state, rest);
    }
    assert(replies_to(state, lines) == Seq::new(lines.len(), |i: int| Reply::Invalid));
}

/// The secret of a game never changes.
pub proof fn lemma_secret_never_changes(state: SessionState, lines: Seq<Seq<char>>)
    ensures
        after_lines(state, lines).secret == state.secret,
    decreases lines.len(),
{
    if lines.len() > 0 && state.phase != Phase::Won {
        lemma_secret_never_changes(after_line(state, lines[0]), lines.drop_first());
    }
}

/// An open game is won by a sequence of lines exactly when one of them holds
/// the secret.
pub proof fn lemma_won_iff_some_line_holds_secret(state: SessionState, lines: Seq<Seq<char>>)
    requires
        state.phase == Phase::AwaitingGuess,
    ensures
        after_lines(state, lines).phase == Phase::Won <==> exists|i: int|
            0 <= i < lines.len() && #[trigger] holds_guess(lines[i], state.secret),
    decreases lines.len(),
{
    if lines.len() > 0 {
        let rest = lines.drop_first();
        if holds_guess(lines[0], state.secret) {
            assert(after_lines(after_line(state, lines[0]), rest) == after_line(state, lines[0]));
        } else {
            lemma_won_iff_some_line_holds_secret(state, rest);
            if after_lines(state, lines).phase == Phase::Won {
                let j = choose|j: int|
                    0 <= j < rest.len() && #[trigger] holds_guess(rest[j], state.secret);
                assert(lines[j + 1] == rest[j]);
            }
            if exists|i: int|
                0 <= i < lines.len() && #[trigger] holds_guess(lines[i], state.secret) {
                let i = choose|i: int|
                    0 <= i < lines.len() && #[trigger] holds_guess(lines[i], state.secret);
                assert(rest[i - 1] == lines[i]);
            }
        }
    }
}

/// What the replies to a sequence of lines look like. There is one for each
/// line that is read, in order; no reply but the last wins; and the last wins
/// exactly when the game is won, in which case the lines behind it are not
/// read. A game that stays open has read every line.
pub proof fn lemma_replies_shape(state: SessionState, lines: Seq<Seq<char>>)
    requires
        state.phase == Phase::AwaitingGuess,
    ensures
        ({
            let told = replies_to(state, lines);
            let end = after_lines(state, lines);
            &&& told.len() <= lines.len()
            &&& forall|i: int|
                0 <= i < told.len() ==> #[trigger] told[i] == reply_to(state.secret, lines[i])
            &&& forall|i: int| 0 <= i < told.len() - 1 ==> !(#[trigger] told[i]).wins()
            &&& end.phase == Phase::Won <==> told.len() > 0 && told.last().wins()
            &&& end.phase == Phase::AwaitingGuess ==> told.len() == lines.len()
        }),
    decreases lines.len(),
{
    if lines.len() > 0 {
        let told = replies_to(state, lines);
        let rest = lines.drop_first();
        let first = reply_to(state.secret, lines[0]);
        let next = after_line(state, lines[0]);
        let tail = replies_to(next, rest);
        assert(told == seq![first] + tail);
        if first.wins() {
            assert(tail == Seq::<Reply>::empty());
            assert(after_lines(next, rest) == next);
        } else {
            lemma_replies_shape(state, rest);
            assert forall|i: int| 0 <= i < told.len() implies #[trigger] told[i] == reply_to(
                state.secret,
                lines[i],
            ) by {
                if i > 0 {
                    assert(told[i] == tail[i - 1]);
                    assert(rest[i - 1] == lines[i]);
                }
            }
            assert forall|i: int| 0 <= i < told.len() - 1 implies !(#[trigger] told[i]).wins() by {
                if i > 0 {
                    assert(told[i] == tail[i - 1]);
                }
            }
            if tail.len() > 0 {
                assert(told.last() == tail.last());
            }
        }
    }
}

/// One game of guessing. Its secret is always one of the numbers that can be
/// drawn, and nothing changes it while the game lasts.
#[derive(Debug, PartialEq, Eq)]
pub struct Session {
    secret: u32,
    phase: Phase,
}

impl View for Session {
    type V = SessionState;

    closed spec fn view(&self) -> SessionState {
        SessionState { secret: self.secret, phase: self.phase }
    }
}

impl Clone for Session {
    /// A second game with the same secret, standing where this one stands.
    fn clone(&self) -> (s: Session)
        ensures
            s@ == self@,
    {
        proof {
            use_type_invariant(self);
        }
        Session { secret: self.secret, phase: self.phase }
    }
}

impl Session {
    #[verifier::type_invariant]
    spec fn secret_is_valid(&self) -> bool {
        valid_secret(self.secret)
    }

    /// A new game with the given secret.
    pub fn new(secret: u32) -> (s: Session)
        requires
            valid_secret(secret),
        ensures
            s@ == (SessionState { secret, phase: Phase::AwaitingGuess }),
    {
        Session { secret, phase: Phase::AwaitingGuess }
    }

    /// A new game with a secret drawn at random.
    pub fn start() -> (s: Session)
        ensures
            valid_secret(s@.secret),
            s@.phase == Phase::AwaitingGuess,
    {
        Session::new(draw_secret())
    }

    /// The secret of this game.
    pub fn secret(&self) -> (n: u32)
        ensures
            n == self@.secret,
            valid_secret(n),
    {
        proof {
            use_type_invariant(self);
        }
        self.secret
    }

    /// Where this game stands.
    pub fn phase(&self) -> (p: Phase)
        ensures
            p == self@.phase,
    {
        self.phase
    }

    /// Whether the secret was guessed.
    pub fn is_won(&self) -> (r: bool)
        ensures
            r == (self@.phase == Phase::Won),
    {
        self.phase == Phase::Won
    }

    /// Puts one line of input to a game that is still open and says what the
    /// player is to be told. The game is won by a line that holds the secret
    /// and is left as it was by any other.
    pub fn submit(&mut self, line: &str) -> (r: Reply)
        requires
            old(self)@.phase == Phase::AwaitingGuess,
        ensures
            r == reply_to(old(self)@.secret, line@),
            final(self)@ == after_line(old(self)@, line@),
    {
        proof {
            use_type_invariant(&*self);
        }
        match parse_guess(line) {
            Err(_) => Reply::Invalid,
            Ok(guess) => {
                let comparison = compare(guess, self.secret);
                if comparison == Comparison::Equal {
                    self.phase = Phase::Won;
                }
                Reply::Compared { guess, comparison }
            },
        }
    }

    /// Puts `lines` to the game in order for as long as it is open, and
    /// returns the replies to the lines that were read.
    pub fn play(&mut self, lines: &[String]) -> (out: Vec<Reply>)
        ensures
            out@ == replies_to(old(self)@, lines.deep_view()),
            final(self)@ == after_lines(old(self)@, lines.deep_view()),
    {
        let ghost begin = self@;
        let ghost texts = lines.deep_view();
        let n: usize = lines.len();
        let mut out: Vec<Reply> = Vec::new();
        let mut i: usize = 0;
        assert(texts.subrange(0, n as int) == texts);
        while i < n && !self.is_won()
            invariant
                i <= n == lines.len() == texts.len(),
                texts == lines.deep_view(),
                out@ + replies_to(self@, texts.subrange(i as int, n as int)) == replies_to(
                    begin,
                    texts,
                ),
                after_lines(self@, texts.subrange(i as int, n as int)) == after_lines(begin, texts),
            decreases n - i,
        {
            let ghost rest = texts.subrange(i as int, n as int);
            let ghost before = self@;
            let ghost told = out@;
            assert(rest[0] == lines[i as int]@);
            assert(rest.drop_first() == texts.subrange(i + 1, n as int));
            let reply = self.submit(lines[i].as_str());
            out.push(reply);
            i = i + 1;
            assert(out@ + replies_to(self@, rest.drop_first()) == told + replies_to(before, rest));
        }
        out
    }
}

} // verus!
