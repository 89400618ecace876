//! One player of the puzzle: the secret pattern, the guess as it stands,
//! and the rank with which the player finished.

use crate::alphabet::{
    is_arrangement, lemma_arrangement_facts, MAXIMUM_PATTERN_LENGTH, MINIMUM_PATTERN_LENGTH,
};
use crate::generator::{pattern_from_picks, pattern_of, picks_valid};
use crate::scoring::{lemma_swap_keeps_symbols, match_count, score, swap_symbols, swapped};
use crate::validation::{rejection, validate, InitialGuessError};
use itertools::Itertools;
use vstd::prelude::*;

verus! {

/// How often a pattern is drawn anew, at most, for a first guess that
/// already equals it.
pub const REGENERATION_LIMIT: usize = 1000;

/// A player. The pattern is an arrangement of the first symbols of the
/// alphabet; the guess is empty until a first guess has been accepted and
/// from then on as long as the pattern.
#[derive(Clone, Debug)]
pub struct Player {
    pattern: Vec<char>,
    guess: Vec<char>,
    has_won: usize,
}

/// What a player amounts to: pattern and guess as sequences of symbols, and
/// the rank, which is 0 for a player who has not finished.
#[verifier::ext_equal]
pub struct PlayerView {
    pub pattern: Seq<char>,
    pub guess: Seq<char>,
    pub win_rank: nat,
}

impl PlayerView {
    /// The pattern has an admissible length and arranges the first symbols
    /// of the alphabet, the guess is absent or as long as the pattern, and
    /// a rank is held only with a guess that equals the pattern.
    pub open spec fn wf(self) -> bool {
        &&& MINIMUM_PATTERN_LENGTH <= self.pattern.len() <= MAXIMUM_PATTERN_LENGTH
        &&& is_arrangement(self.pattern, self.pattern.len())
        &&& (self.guess.len() == 0 || self.guess.len() == self.pattern.len())
        &&& (self.win_rank > 0 ==> self.guess == self.pattern)
    }

    /// No first guess has been accepted yet.
    pub open spec fn awaiting(self) -> bool {
        self.guess.len() == 0
    }

    /// A first guess has been accepted and the player has not finished.
    pub open spec fn playing(self) -> bool {
        self.guess.len() > 0 && self.win_rank == 0
    }

    /// The player has finished and holds a rank.
    pub open spec fn won(self) -> bool {
        self.win_rank > 0
    }

    /// The number of positions at which the guess agrees with the pattern.
    pub open spec fn matches(self) -> nat {
        match_count(self.pattern, self.guess)
    }

    /// The player after a move that exchanges the positions `i` and `j` of
    /// the guess, in a session in which `finished` players have finished
    /// before: a guess that now equals the pattern earns the next rank.
    pub open spec fn after_swap(self, i: int, j: int, finished: nat) -> PlayerView {
        let guess = swapped(self.guess, i, j);
        PlayerView {
            pattern: self.pattern,
            guess,
            win_rank: if guess == self.pattern {
                finished + 1
            } else {
                self.win_rank
            },
        }
    }
}

impl View for Player {
    type V = PlayerView;

    closed spec fn view(&self) -> PlayerView {
        PlayerView {
            pattern: self.pattern@,
            guess: self.guess@,
            win_rank: self.has_won as nat,
        }
    }
}

/// `symbols` never descends from one place to the next.
pub open spec fn ascending(symbols: Seq<char>) -> bool {
    forall|i: int, j: int| 0 <= i <= j < symbols.len() ==> symbols[i] <= symbols[j]
}

/// The symbols in ascending order, from `Itertools::sorted` of `itertools`,
/// which collects them and sorts them with the standard stable sort. The
/// result holds every symbol as often as `symbols` does and never descends;
/// characters are ordered by their code points.
#[verifier::external_body]
fn sorted_symbols(symbols: &Vec<char>) -> (sorted: Vec<char>)
    ensures
        sorted@.to_multiset() == symbols@.to_multiset(),
        ascending(sorted@),
{
    symbols.iter().copied().sorted().collect()
}

impl Player {
    /// A player with a pattern of `pattern_length` symbols drawn at random,
    /// who has yet to make a first guess.
    pub fn new(pattern_length: usize) -> (player: Player)
        requires
            MINIMUM_PATTERN_LENGTH <= pattern_length <= MAXIMUM_PATTERN_LENGTH,
        ensures
            player@.wf(),
            player@.awaiting(),
            player@.pattern.len() == pattern_length,
            player@.win_rank == 0,
    {
        Player {
            pattern: Player::generate_pattern(pattern_length),
            guess: Vec::with_capacity(pattern_length),
            has_won: 0,
        }
    }

    /// A player whose pattern is drawn from the first `pattern_length`
    /// symbols by following `picks`, who has yet to make a first guess.
    /// Returns `None` unless the length is admissible and the picks are as
    /// many as the pattern is long, each naming a place of the pool as it
    /// stands at its turn.
    pub fn from_picks(pattern_length: usize, picks: &Vec<usize>) -> (player: Option<Player>)
        ensures
            player is Some <==> {
                &&& MINIMUM_PATTERN_LENGTH <= pattern_length <= MAXIMUM_PATTERN_LENGTH
                &&& picks@.len() == pattern_length
                &&& picks_valid(pattern_length as nat, picks@)
            },
            player matches Some(p) ==> {
                &&& p@.wf()
                &&& p@.awaiting()
                &&& p@.pattern == pattern_of(pattern_length as nat, picks@)
                &&& p@.win_rank == 0
            },
    {
        if pattern_length < MINIMUM_PATTERN_LENGTH || picks.len() != pattern_length {
            return None;
        }
        match pattern_from_picks(pattern_length, picks) {
            Some(pattern) => Some(
                Player { pattern, guess: Vec::with_capacity(pattern_length), has_won: 0 },
            ),
            None => None,
        }
    }

    /// The secret pattern.
    pub fn pattern(&self) -> (pattern: &Vec<char>)
        ensures
            pattern@ == self@.pattern,
    {
        &self.pattern
    }

    /// The guess as it stands; empty before a first guess is accepted.
    pub fn guess(&self) -> (guess: &Vec<char>)
        ensures
            guess@ == self@.guess,
    {
        &self.guess
    }

    /// The rank with which the player finished, or 0.
    pub fn win_rank(&self) -> (rank: usize)
        ensures
            rank == self@.win_rank,
    {
        self.has_won
    }

    /// Whether the player has finished.
    pub fn is_won(&self) -> (won: bool)
        ensures
            won == self@.won(),
    {
        self.has_won > 0
    }

    /// The symbols of the pattern in ascending order of their code points:
    /// what a player may be told of a pattern without giving it away.
    pub fn pattern_characters(&self) -> (characters: Vec<char>)
        ensures
            characters@.to_multiset() == self@.pattern.to_multiset(),
            characters@.len() == self@.pattern.len(),
            ascending(characters@),
    {
        let characters = sorted_symbols(&self.pattern);
        proof {
            characters@.to_multiset_ensures();
            self.pattern@.to_multiset_ensures();
        }
        characters
    }

    /// The number of positions at which the guess agrees with the pattern.
    pub fn count_matches(&self) -> (matches: usize)
        ensures
            matches == self@.matches(),
            matches <= self@.pattern.len(),
            self@.guess.len() == self@.pattern.len() ==> (matches == self@.pattern.len()
                <==> self@.guess == self@.pattern),
    {
        score(&self.pattern, &self.guess)
    }

    /// Judges `guess` as a first guess. An accepted guess becomes the
    /// player's guess and its match count is returned; a guess that is
    /// turned down leaves the player as it was. The pattern stays as it is
    /// either way, also where the guess equals it.
    pub fn initial_guess(&mut self, guess: &str) -> (result: Result<usize, InitialGuessError>)
        requires
            old(self)@.wf(),
            !old(self)@.won(),
        ensures
            final(self)@.wf(),
            final(self)@.pattern == old(self)@.pattern,
            final(self)@.win_rank == old(self)@.win_rank,
            match result {
                Ok(matches) => {
                    &&& rejection(guess@, old(self)@.pattern) is None
                    &&& final(self)@.guess == guess@
                    &&& matches == final(self)@.matches()
                    &&& matches <= final(self)@.pattern.len()
                    &&& (matches == final(self)@.pattern.len() <==> final(self)@.guess
                        == final(self)@.pattern)
                },
                Err(error) => {
                    &&& rejection(guess@, old(self)@.pattern) == Some(error)
                    &&& final(self)@.guess == old(self)@.guess
                },
            },
    {
        match validate(guess, &self.pattern) {
            Ok(accepted) => {
                self.guess = accepted;
                Ok(self.count_matches())
            },
            Err(error) => Err(error),
        }
    }

    /// Accepts a first guess and sees to it that play starts unsolved. The
    /// guess is judged as by `initial_guess`. Where the accepted guess
    /// equals the pattern, the pattern is drawn anew, up to
    /// `REGENERATION_LIMIT` times, until the two differ; should every draw
    /// repeat the guess, the first two symbols of the last draw change
    /// places. The guess is never altered, and the match count returned is
    /// below the length of the pattern.
    pub fn accept_initial_guess(&mut self, raw_input: &str) -> (result: Result<
        usize,
        InitialGuessError,
    >)
        requires
            old(self)@.wf(),
            !old(self)@.won(),
        ensures
            final(self)@.wf(),
            final(self)@.pattern.len() == old(self)@.pattern.len(),
            final(self)@.win_rank == old(self)@.win_rank,
            match result {
                Ok(matches) => {
                    &&& rejection(raw_input@, old(self)@.pattern) is None
                    &&& final(self)@.guess == raw_input@
                    &&& final(self)@.playing()
                    &&& matches == final(self)@.matches()
                    &&& matches < final(self)@.pattern.len()
                    &&& final(self)@.guess != final(self)@.pattern
                    &&& (raw_input@ != old(self)@.pattern ==> final(self)@.pattern
                        == old(self)@.pattern)
                },
                Err(error) => {
                    &&& rejection(raw_input@, old(self)@.pattern) == Some(error)
                    &&& final(self)@ == old(self)@
                },
            },
    {
        let length = self.pattern.len();
        match self.initial_guess(raw_input) {
            Ok(first_matches) => {
                let mut matches = first_matches;
                let mut draws: usize = 0;
                while matches == length && draws < REGENERATION_LIMIT
                    invariant
                        self@.wf(),
                        self@.guess == raw_input@,
                        self@.guess.len() == length,
                        self@.pattern.len() == length,
                        self@.win_rank == old(self)@.win_rank,
                        self@.win_rank == 0,
                        matches == self@.matches(),
                        matches <= length,
                        matches == length <==> self@.guess == self@.pattern,
                        draws <= REGENERATION_LIMIT,
                        draws == 0 ==> self@.pattern == old(self)@.pattern,
                        draws > 0 ==> raw_input@ == old(self)@.pattern,
                    decreases REGENERATION_LIMIT - draws,
                {
                    self.pattern = Player::generate_pattern(length);
                    matches = self.count_matches();
                    draws += 1;
                }
                if matches == length {
                    proof {
                        lemma_arrangement_facts(self.pattern@, length as nat);
                        lemma_swap_keeps_symbols(self.pattern@, 0, 1);
                    }
                    swap_symbols(&mut self.pattern, 0, 1);
                    matches = self.count_matches();
                }
                Ok(matches)
            },
            Err(error) => Err(error),
        }
    }

    /// Exchanges the symbols at the positions `a_index` and `b_index` of
    /// the guess, counted from 0, and returns the match count of the guess
    /// as it then stands. Pattern and rank stay as they are.
    pub fn swap(&mut self, a_index: usize, b_index: usize) -> (matches: usize)
        requires
            old(self)@.wf(),
            !old(self)@.won(),
            a_index < old(self)@.guess.len(),
            b_index < old(self)@.guess.len(),
        ensures
            final(self)@.wf(),
            final(self)@.pattern == old(self)@.pattern,
            final(self)@.win_rank == old(self)@.win_rank,
            final(self)@.guess == swapped(old(self)@.guess, a_index as int, b_index as int),
            matches == final(self)@.matches(),
            matches <= final(self)@.pattern.len(),
            matches == final(self)@.pattern.len() <==> final(self)@.guess == final(self)@.pattern,
    {
        swap_symbols(&mut self.guess, a_index, b_index);
        self.count_matches()
    }

    /// Resolves one move: exchanges two symbols of the guess as `swap`
    /// does, and, where the guess then equals the pattern, counts the
    /// player as the next to finish: `finished`, the number of players of
    /// the session who have finished, goes up by one, and its new value is
    /// the player's rank. Returns the match count after the exchange.
    pub fn apply_swap(&mut self, a_index: usize, b_index: usize, finished: &mut usize) -> (matches:
        usize)
        requires
            old(self)@.wf(),
            !old(self)@.won(),
            a_index < old(self)@.guess.len(),
            b_index < old(self)@.guess.len(),
            *old(finished) < usize::MAX,
        ensures
            final(self)@.wf(),
            final(self)@ == old(self)@.after_swap(
                a_index as int,
                b_index as int,
                *old(finished) as nat,
            ),
            *final(finished) == if final(self)@.won() {
                *old(finished) + 1
            } else {
                *old(finished) as int
            },
            matches == final(self)@.matches(),
            matches <= final(self)@.pattern.len(),
            matches == final(self)@.pattern.len() <==> final(self)@.won(),
    {
        let matches = self.swap(a_index, b_index);
        if matches == self.pattern.len() {
            *finished += 1;
            self.has_won = *finished;
        }
        proof {
            assert(self@ =~= old(self)@.after_swap(
                a_index as int,
                b_index as int,
                *old(finished) as nat,
            ));
        }
        matches
    }
}

} // verus!
