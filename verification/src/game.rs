//! A session: its players, the length of their patterns, and the count of
//! those who have finished, from which the ranks are handed out.

use crate::alphabet::{
    MAXIMUM_PATTERN_LENGTH, MAXIMUM_PLAYER_COUNT, MINIMUM_PATTERN_LENGTH, MINIMUM_PLAYER_COUNT,
};
use crate::player::{Player, PlayerView};
use crate::scoring::swapped;
use crate::validation::{rejection, InitialGuessError};
use vstd::prelude::*;
use vstd::relations::injective_on;
use vstd::set_lib::*;

verus! {

/// The players of one session.
pub struct Game {
    players: Vec<Player>,
    pattern_length: usize,
    win_count: usize,
}

/// What a session amounts to: its players in their fixed order, the length
/// that all patterns share, and the number of players who have finished.
#[verifier::ext_equal]
pub struct GameView {
    pub players: Seq<PlayerView>,
    pub pattern_length: nat,
    pub win_count: nat,
}

/// The ranks `1` to `win_count` have been handed out, each once, and no
/// other rank has: every rank is at most `win_count`, no two players share
/// a rank above 0, and every rank from 1 to `win_count` is held by someone.
pub open spec fn ranks_in_order(ranks: Seq<nat>, win_count: nat) -> bool {
    &&& forall|i: int| 0 <= i < ranks.len() ==> #[trigger] ranks[i] <= win_count
    &&& forall|i: int, j: int|
        0 <= i < ranks.len() && 0 <= j < ranks.len() && i != j && ranks[i] > 0
            ==> #[trigger] ranks[i] != #[trigger] ranks[j]
    &&& forall|rank: nat| 1 <= rank <= win_count ==> #[trigger] ranks.contains(rank)
}

impl GameView {
    /// The rank of every player, in the order of the players; 0 stands for
    /// a player who has not finished.
    pub open spec fn ranks(self) -> Seq<nat> {
        Seq::new(self.players.len(), |i: int| self.players[i].win_rank)
    }

    /// The places of the players who have finished.
    pub open spec fn winners(self) -> Set<int> {
        Set::new(|i: int| 0 <= i < self.players.len() && self.players[i].won())
    }

    /// Every player has finished.
    pub open spec fn over(self) -> bool {
        self.win_count == self.players.len()
    }

    /// The session after the player at place `player` has exchanged the
    /// positions `i` and `j` of the guess: that player is as `after_swap`
    /// says, with the next rank if the guess now equals the pattern; the
    /// count of finished players goes up by one if it does; all else stays.
    pub open spec fn after_move(self, player: int, i: int, j: int) -> GameView {
        let moved = self.players[player].after_swap(i, j, self.win_count);
        GameView {
            players: self.players.update(player, moved),
            pattern_length: self.pattern_length,
            win_count: if moved.won() {
                self.win_count + 1
            } else {
                self.win_count
            },
        }
    }

    /// The session differs from `before` at most in the player at place
    /// `player`.
    pub open spec fn differs_at(self, before: GameView, player: int) -> bool {
        &&& self.pattern_length == before.pattern_length
        &&& self.win_count == before.win_count
        &&& self.players == before.players.update(player, self.players[player])
    }

    /// The session has an admissible number of players and an admissible
    /// pattern length, every player is well formed with a pattern of that
    /// length, a player who is still playing has a guess unlike the
    /// pattern, and the ranks are in order.
    pub open spec fn wf(self) -> bool {
        &&& MINIMUM_PLAYER_COUNT <= self.players.len() <= MAXIMUM_PLAYER_COUNT
        &&& MINIMUM_PATTERN_LENGTH <= self.pattern_length <= MAXIMUM_PATTERN_LENGTH
        &&& forall|i: int|
            0 <= i < self.players.len() ==> {
                &&& (#[trigger] self.players[i]).wf()
                &&& self.players[i].pattern.len() == self.pattern_length
                &&& (self.players[i].playing() ==> self.players[i].guess != self.players[i].pattern)
            }
        &&& ranks_in_order(self.ranks(), self.win_count)
    }
}

impl View for Game {
    type V = GameView;

    closed spec fn view(&self) -> GameView {
        GameView {
            players: Seq::new(self.players@.len(), |i: int| self.players@[i]@),
            pattern_length: self.pattern_length as nat,
            win_count: self.win_count as nat,
        }
    }
}

/// The places that hold a rank above 0.
pub open spec fn rank_holders(ranks: Seq<nat>) -> Set<int> {
    Set::new(|i: int| 0 <= i < ranks.len() && ranks[i] > 0)
}

/// Ranks in order are held by exactly `win_count` places.
pub proof fn lemma_rank_holders_counted(ranks: Seq<nat>, win_count: nat)
    requires
        ranks_in_order(ranks, win_count),
    ensures
        rank_holders(ranks).finite(),
        rank_holders(ranks).len() == win_count,
        win_count <= ranks.len(),
{
    let holders = rank_holders(ranks);
    let handed_out = set_int_range(1, win_count as int + 1);
    let rank_at = |i: int| ranks[i] as int;
    lemma_int_range(0, ranks.len() as int);
    lemma_int_range(1, win_count as int + 1);
    lemma_len_subset(holders, set_int_range(0, ranks.len() as int));
    assert(injective_on(rank_at, holders));
    assert forall|rank: int| handed_out.contains(rank) implies holders.map(rank_at).contains(
        rank,
    ) by {
        assert(ranks.contains(rank as nat));
        let i = choose|i: int| 0 <= i < ranks.len() && ranks[i] == rank as nat;
        assert(holders.contains(i) && rank_at(i) == rank);
    }
    assert(holders.map(rank_at) =~= handed_out);
    lemma_map_size(holders, handed_out, rank_at);
}

/// Handing the next rank to a place that holds none keeps the ranks in
/// order.
pub proof fn lemma_next_rank(ranks: Seq<nat>, win_count: nat, place: int)
    requires
        ranks_in_order(ranks, win_count),
        0 <= place < ranks.len(),
        ranks[place] == 0,
    ensures
        ranks_in_order(ranks.update(place, win_count + 1), win_count + 1),
        win_count < ranks.len(),
{
    let after = ranks.update(place, win_count + 1);
    assert forall|rank: nat| 1 <= rank <= win_count + 1 implies #[trigger] after.contains(
        rank,
    ) by {
        if rank <= win_count {
            assert(ranks.contains(rank));
            let i = choose|i: int| 0 <= i < ranks.len() && ranks[i] == rank;
            assert(after[i] == rank);
        } else {
            assert(after[place] == rank);
        }
    }
    assert forall|i: int| 0 <= i < after.len() implies #[trigger] after[i] <= win_count + 1 by {
        if i != place {
            assert(ranks[i] <= win_count);
        }
    }
    assert forall|i: int, j: int|
        0 <= i < after.len() && 0 <= j < after.len() && i != j && after[i] > 0
        implies #[trigger] after[i] != #[trigger] after[j] by {
        if i != place {
            assert(ranks[i] <= win_count);
        }
        if j != place {
            assert(ranks[j] <= win_count);
        }
    }
    lemma_rank_holders_counted(after, win_count + 1);
}

/// The ranks handed out in a session are exactly 1 to N, where N is the
/// number of players who have finished: no rank is left out and none is
/// held twice. The session is over exactly when every player has finished.
pub proof fn lemma_ranks_exact(game: GameView)
    requires
        game.wf(),
    ensures
        game.winners().finite(),
        game.winners().len() == game.win_count,
        game.win_count <= game.players.len(),
        forall|rank: nat|
            rank >= 1 ==> (#[trigger] game.ranks().contains(rank) <==> rank <= game.win_count),
        forall|i: int, j: int|
            game.winners().contains(i) && game.winners().contains(j) && i != j
                ==> game.players[i].win_rank != game.players[j].win_rank,
        game.over() <==> forall|i: int|
            0 <= i < game.players.len() ==> (#[trigger] game.players[i]).won(),
{
    let ranks = game.ranks();
    let winners = game.winners();
    let everyone = set_int_range(0, game.players.len() as int);
    lemma_rank_holders_counted(ranks, game.win_count);
    assert(winners =~= rank_holders(ranks));
    assert forall|rank: nat| rank >= 1 && #[trigger] ranks.contains(rank) implies rank
        <= game.win_count by {
        let i = choose|i: int| 0 <= i < ranks.len() && ranks[i] == rank;
        assert(ranks[i] <= game.win_count);
    }
    assert forall|i: int, j: int|
        winners.contains(i) && winners.contains(j) && i != j implies game.players[i].win_rank
        != game.players[j].win_rank by {
        assert(ranks[i] != ranks[j]);
    }
    lemma_int_range(0, game.players.len() as int);
    if game.over() {
        lemma_subset_equality(winners, everyone);
        assert forall|i: int| 0 <= i < game.players.len() implies (
        #[trigger] game.players[i]).won() by {
            assert(everyone.contains(i));
        }
    }
    if forall|i: int| 0 <= i < game.players.len() ==> (#[trigger] game.players[i]).won() {
        assert(winners =~= everyone);
    }
}

/// `number` as a count, if it lies from `least` to `most`.
pub open spec fn within(number: int, least: int, most: int) -> Option<usize> {
    if least <= number <= most {
        Some(number as usize)
    } else {
        None
    }
}

/// Tells whether `number` lies from `least` to `most`, and returns it as a
/// count if it does.
fn number_within(number: isize, least: usize, most: usize) -> (count: Option<usize>)
    ensures
        count == within(number as int, least as int, most as int),
{
    if number < 0 {
        return None;
    }
    let count = number as usize;
    if least <= count && count <= most {
        Some(count)
    } else {
        None
    }
}

/// The number of players that `number` asks for, if a session may have so
/// many: at least `MINIMUM_PLAYER_COUNT` and at most
/// `MAXIMUM_PLAYER_COUNT`.
pub fn player_count_from(number: isize) -> (count: Option<usize>)
    ensures
        count == within(
            number as int,
            MINIMUM_PLAYER_COUNT as int,
            MAXIMUM_PLAYER_COUNT as int,
        ),
{
    number_within(number, MINIMUM_PLAYER_COUNT, MAXIMUM_PLAYER_COUNT)
}

/// The pattern length that `number` asks for, if a session may use it: at
/// least `MINIMUM_PATTERN_LENGTH` and at most `MAXIMUM_PATTERN_LENGTH`.
pub fn pattern_length_from(number: isize) -> (length: Option<usize>)
    ensures
        length == within(
            number as int,
            MINIMUM_PATTERN_LENGTH as int,
            MAXIMUM_PATTERN_LENGTH as int,
        ),
{
    number_within(number, MINIMUM_PATTERN_LENGTH, MAXIMUM_PATTERN_LENGTH)
}

/// The position that `number` names in a guess of `length` symbols, if
/// there is one: positions are counted from 1.
pub fn position_from(number: isize, length: usize) -> (position: Option<usize>)
    ensures
        position == within(number as int, 1, length as int),
{
    number_within(number, 1, length)
}

impl Game {
    /// A session of `player_count` players, each with a pattern of
    /// `pattern_length` symbols drawn at random and a first guess yet to
    /// make. Nobody has finished.
    pub fn new(player_count: usize, pattern_length: usize) -> (game: Game)
        requires
            MINIMUM_PLAYER_COUNT <= player_count <= MAXIMUM_PLAYER_COUNT,
            MINIMUM_PATTERN_LENGTH <= pattern_length <= MAXIMUM_PATTERN_LENGTH,
        ensures
            game@.wf(),
            game@.players.len() == player_count,
            game@.pattern_length == pattern_length,
            game@.win_count == 0,
            forall|i: int| 0 <= i < player_count ==> (#[trigger] game@.players[i]).awaiting(),
    {
        let mut players: Vec<Player> = Vec::with_capacity(player_count);
        let mut place: usize = 0;
        while place < player_count
            invariant
                MINIMUM_PATTERN_LENGTH <= pattern_length <= MAXIMUM_PATTERN_LENGTH,
                place <= player_count,
                players@.len() == place,
                forall|i: int|
                    0 <= i < place ==> {
                        &&& (#[trigger] players@[i])@.wf()
                        &&& players@[i]@.awaiting()
                        &&& players@[i]@.pattern.len() == pattern_length
                        &&& players@[i]@.win_rank == 0
                    },
            decreases player_count - place,
        {
            players.push(Player::new(pattern_length));
            place += 1;
        }
        let game = Game { players, pattern_length, win_count: 0 };
        proof {
            assert forall|i: int| 0 <= i < game@.players.len() implies {
                &&& (#[trigger] game@.players[i]).wf()
                &&& game@.players[i].awaiting()
                &&& game@.players[i].win_rank == 0
                &&& game@.players[i].pattern.len() == game@.pattern_length
            } by {
                assert(game@.players[i] == game.players@[i]@);
            }
        }
        game
    }

    /// The number of players.
    pub fn player_count(&self) -> (count: usize)
        ensures
            count == self@.players.len(),
    {
        self.players.len()
    }

    /// The length that all patterns of the session share.
    pub fn pattern_length(&self) -> (length: usize)
        ensures
            length == self@.pattern_length,
    {
        self.pattern_length
    }

    /// The number of players who have finished: the last rank handed out.
    pub fn win_count(&self) -> (count: usize)
        ensures
            count == self@.win_count,
    {
        self.win_count
    }

    /// Whether every player has finished.
    pub fn is_over(&self) -> (over: bool)
        ensures
            over == self@.over(),
    {
        self.win_count == self.players.len()
    }

    /// The player at place `place`, counted from 0.
    pub fn player(&self, place: usize) -> (player: &Player)
        requires
            place < self@.players.len(),
        ensures
            player@ == self@.players[place as int],
    {
        &self.players[place]
    }

    /// The turn order: the first player at place `from` or after it who
    /// has not finished, or `None` if all of them have. A player who has
    /// finished is passed over.
    pub fn next_to_move(&self, from: usize) -> (place: Option<usize>)
        ensures
            match place {
                Some(next) => {
                    &&& from <= next < self@.players.len()
                    &&& !self@.players[next as int].won()
                    &&& forall|i: int| from <= i < next ==> (#[trigger] self@.players[i]).won()
                },
                None => forall|i: int|
                    from <= i < self@.players.len() ==> (#[trigger] self@.players[i]).won(),
            },
    {
        let mut place = from;
        while place < self.players.len()
            invariant
                from <= place,
                forall|i: int| from <= i < place ==> (#[trigger] self@.players[i]).won(),
            decreases self.players.len() - place,
        {
            if !self.players[place].is_won() {
                return Some(place);
            }
            place += 1;
        }
        None
    }

    /// Takes `input` as the first guess of the player at place `player`,
    /// as `Player::accept_initial_guess` does: an accepted guess is kept
    /// and its match count returned, after the pattern has been drawn anew
    /// if the guess equalled it; a guess that is turned down changes
    /// nothing. The other players stay as they are.
    pub fn init(&mut self, player: usize, input: &str) -> (result: Result<usize, InitialGuessError>)
        requires
            old(self)@.wf(),
            player < old(self)@.players.len(),
            !old(self)@.players[player as int].won(),
        ensures
            final(self)@.wf(),
            final(self)@.differs_at(old(self)@, player as int),
            match result {
                Ok(matches) => {
                    let before = old(self)@.players[player as int];
                    let after = final(self)@.players[player as int];
                    &&& rejection(input@, before.pattern) is None
                    &&& after.guess == input@
                    &&& after.playing()
                    &&& matches == after.matches()
                    &&& matches < after.pattern.len()
                    &&& (input@ != before.pattern ==> after.pattern == before.pattern)
                },
                Err(error) => {
                    &&& rejection(input@, old(self)@.players[player as int].pattern) == Some(error)
                    &&& final(self)@ == old(self)@
                },
            },
    {
        let result = self.players[player].accept_initial_guess(input);
        proof {
            let before = old(self)@;
            let after = self@;
            assert(after.players =~= before.players.update(
                player as int,
                after.players[player as int],
            ));
            assert(after.ranks() =~= before.ranks());
            assert forall|i: int| 0 <= i < after.players.len() implies {
                &&& (#[trigger] after.players[i]).wf()
                &&& after.players[i].pattern.len() == after.pattern_length
                &&& (after.players[i].playing() ==> after.players[i].guess
                    != after.players[i].pattern)
            } by {
                if i != player {
                    assert(before.players[i].wf());
                }
            }
            if result is Err {
                assert(after =~= before);
            }
        }
        result
    }

    /// Resolves one move of the player at place `player`: the symbols at
    /// the positions `a_position` and `b_position` of the guess, counted
    /// from 1, change places. Where the guess then equals the pattern the
    /// player has finished and takes the next rank. Returns the match count
    /// after the exchange. Nothing else in the session changes.
    pub fn play(&mut self, player: usize, a_position: usize, b_position: usize) -> (matches: usize)
        requires
            old(self)@.wf(),
            player < old(self)@.players.len(),
            old(self)@.players[player as int].playing(),
            1 <= a_position <= old(self)@.pattern_length,
            1 <= b_position <= old(self)@.pattern_length,
        ensures
            final(self)@.wf(),
            final(self)@ == old(self)@.after_move(
                player as int,
                a_position - 1,
                b_position - 1,
            ),
            matches == final(self)@.players[player as int].matches(),
            matches <= final(self)@.pattern_length,
            matches == final(self)@.pattern_length <==> final(self)@.players[player as int].won(),
            final(self)@.players[player as int].won() ==> forall|i: int|
                0 <= i < final(self)@.players.len() && i != player ==> (
                #[trigger] final(self)@.players[i]).win_rank < final(self)@.win_count,
    {
        proof {
            assert(old(self)@.ranks()[player as int] == 0);
            lemma_next_rank(old(self)@.ranks(), old(self)@.win_count, player as int);
        }
        let matches = self.players[player].apply_swap(
            a_position - 1,
            b_position - 1,
            &mut self.win_count,
        );
        proof {
            let before = old(self)@;
            let after = self@;
            assert(after =~= before.after_move(player as int, a_position - 1, b_position - 1));
            assert forall|i: int| 0 <= i < after.players.len() && i != player implies (
            #[trigger] after.players[i]).win_rank <= before.win_count by {
                assert(before.ranks()[i] <= before.win_count);
            }
            if after.players[player as int].won() {
                assert(after.ranks() =~= before.ranks().update(
                    player as int,
                    before.win_count + 1,
                ));
            } else {
                assert(after.ranks() =~= before.ranks());
            }
            assert forall|i: int| 0 <= i < after.players.len() implies {
                &&& (#[trigger] after.players[i]).wf()
                &&& after.players[i].pattern.len() == after.pattern_length
                &&& (after.players[i].playing() ==> after.players[i].guess
                    != after.players[i].pattern)
            } by {
                if i != player {
                    assert(before.players[i].wf());
                }
            }
        }
        matches
    }
}

} // verus!
