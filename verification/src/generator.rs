//! Drawing patterns: symbols leave a pool one by one, each from a place
//! chosen at random or handed in by the caller.

use crate::alphabet::{
    first_symbols, is_arrangement, lemma_arrangement_facts, symbol_pool, MAXIMUM_PATTERN_LENGTH,
};
use crate::player::Player;
use rand::Rng;
use vstd::multiset::Multiset;
use vstd::prelude::*;
use vstd::seq_lib::*;

verus! {

/// The pool after the symbol at `index` has left it: what remains, or, once
/// nothing remains, the full pool again.
pub open spec fn pool_after(full: Seq<char>, pool: Seq<char>, index: int) -> Seq<char> {
    if pool.remove(index).len() == 0 {
        full
    } else {
        pool.remove(index)
    }
}

/// Every pick names a place of the pool as it stands when its turn comes.
pub open spec fn picks_fit(full: Seq<char>, pool: Seq<char>, picks: Seq<usize>) -> bool
    decreases picks.len(),
{
    picks.len() == 0 || (picks[0] < pool.len() && picks_fit(
        full,
        pool_after(full, pool, picks[0] as int),
        picks.drop_first(),
    ))
}

/// The symbols that leave the pool when the picks are followed in turn.
pub open spec fn drawn(full: Seq<char>, pool: Seq<char>, picks: Seq<usize>) -> Seq<char>
    decreases picks.len(),
{
    if picks.len() == 0 {
        Seq::empty()
    } else {
        seq![pool[picks[0] as int]] + drawn(
            full,
            pool_after(full, pool, picks[0] as int),
            picks.drop_first(),
        )
    }
}

/// The picks can be followed on a pool that starts out with the first
/// `length` symbols.
pub open spec fn picks_valid(length: nat, picks: Seq<usize>) -> bool {
    picks_fit(first_symbols(length), first_symbols(length), picks)
}

/// The pattern that the picks draw from the first `length` symbols.
pub open spec fn pattern_of(length: nat, picks: Seq<usize>) -> Seq<char> {
    drawn(first_symbols(length), first_symbols(length), picks)
}

/// One symbol is drawn for every pick.
pub proof fn lemma_drawn_len(full: Seq<char>, pool: Seq<char>, picks: Seq<usize>)
    ensures
        drawn(full, pool, picks).len() == picks.len(),
    decreases picks.len(),
{
    if picks.len() > 0 {
        lemma_drawn_len(full, pool_after(full, pool, picks[0] as int), picks.drop_first());
    }
}

/// As many fitting picks as the pool has symbols draw every symbol of the
/// pool exactly as often as the pool holds it.
pub proof fn lemma_drawn_empties_pool(full: Seq<char>, pool: Seq<char>, picks: Seq<usize>)
    requires
        picks.len() == pool.len(),
        picks_fit(full, pool, picks),
    ensures
        drawn(full, pool, picks).to_multiset() == pool.to_multiset(),
    decreases picks.len(),
{
    broadcast use group_to_multiset_ensures;

    if picks.len() == 0 {
        assert(pool =~= Seq::<char>::empty());
    } else {
        let index = picks[0] as int;
        let head = seq![pool[index]];
        let next = pool_after(full, pool, index);
        let tail = drawn(full, next, picks.drop_first());
        lemma_multiset_commutative(head, tail);
        assert(head =~= Seq::<char>::empty().push(pool[index]));
        if pool.len() == 1 {
            assert(tail =~= Seq::<char>::empty());
            assert(pool =~= head);
        } else {
            lemma_drawn_empties_pool(full, next, picks.drop_first());
            assert(pool.to_multiset().count(pool[index]) > 0);
            assert(head.to_multiset().add(pool.to_multiset().remove(pool[index]))
                =~= pool.to_multiset());
        }
    }
}

/// As many valid picks as the pattern is long draw an arrangement of the
/// first `length` symbols.
pub proof fn lemma_pattern_of_arranged(length: nat, picks: Seq<usize>)
    requires
        picks.len() == length,
        length <= 64,
        picks_valid(length, picks),
    ensures
        is_arrangement(pattern_of(length, picks), length),
{
    crate::alphabet::lemma_first_symbols_distinct(length);
    lemma_drawn_empties_pool(first_symbols(length), first_symbols(length), picks);
}

/// A place of a pool of `bound` symbols, chosen by `rand`'s thread-local
/// generator through `Rng::gen_range` on the range from 0 up to, not
/// including, `bound`. Of the place nothing is claimed but that it lies in
/// that range; the call itself panics on an empty range, which the
/// precondition rules out.
#[verifier::external_body]
fn random_index(bound: usize) -> (index: usize)
    requires
        bound > 0,
    ensures
        index < bound,
{
    rand::thread_rng().gen_range(0..bound)
}

/// Takes the symbol at `index` out of the pool and returns it. A pool that
/// this empties is filled again with the first `length` symbols.
pub fn draw(pool: &mut Vec<char>, length: usize, index: usize) -> (symbol: char)
    requires
        length <= MAXIMUM_PATTERN_LENGTH,
        index < old(pool).len(),
    ensures
        symbol == old(pool)@[index as int],
        final(pool)@ == pool_after(first_symbols(length as nat), old(pool)@, index as int),
{
    let symbol = pool.remove(index);
    if pool.len() == 0 {
        *pool = symbol_pool(length);
    }
    symbol
}

/// Draws a pattern from the first `length` symbols by following `picks`:
/// each pick is the place, in the pool as it then stands, of the symbol
/// that comes next. Returns `None` if `length` is more than the alphabet
/// has symbols, or if a pick names no place of the pool.
pub fn pattern_from_picks(length: usize, picks: &Vec<usize>) -> (pattern: Option<Vec<char>>)
    ensures
        pattern is Some <==> length <= MAXIMUM_PATTERN_LENGTH && picks_valid(
            length as nat,
            picks@,
        ),
        pattern matches Some(symbols) ==> symbols@ == pattern_of(length as nat, picks@),
        pattern matches Some(symbols) ==> symbols@.len() == picks@.len(),
        pattern matches Some(symbols) ==> (picks@.len() == length ==> is_arrangement(
            symbols@,
            length as nat,
        )),
{
    if length > MAXIMUM_PATTERN_LENGTH {
        return None;
    }
    let ghost full = first_symbols(length as nat);
    let mut pool = symbol_pool(length);
    let mut pattern: Vec<char> = Vec::with_capacity(picks.len());
    let mut turn: usize = 0;
    proof {
        assert(picks@.skip(0) =~= picks@);
    }
    while turn < picks.len()
        invariant
            length <= MAXIMUM_PATTERN_LENGTH,
            full == first_symbols(length as nat),
            turn <= picks.len(),
            picks_fit(full, full, picks@) == picks_fit(full, pool@, picks@.skip(turn as int)),
            drawn(full, full, picks@) == pattern@ + drawn(full, pool@, picks@.skip(turn as int)),
        decreases picks.len() - turn,
    {
        let index = picks[turn];
        proof {
            assert(picks@.skip(turn as int).drop_first() =~= picks@.skip(turn as int + 1));
        }
        if index >= pool.len() {
            return None;
        }
        let symbol = draw(&mut pool, length, index);
        pattern.push(symbol);
        proof {
            let rest = drawn(full, pool@, picks@.skip(turn as int + 1));
            assert(pattern@ + rest =~= pattern@.drop_last() + (seq![symbol] + rest));
        }
        turn += 1;
    }
    proof {
        lemma_drawn_len(full, full, picks@);
        assert(pattern@ + Seq::<char>::empty() =~= pattern@);
        if picks@.len() == length {
            lemma_pattern_of_arranged(length as nat, picks@);
        }
    }
    Some(pattern)
}

impl Player {
    /// Draws a pattern of `length` symbols at random: an arrangement of the
    /// first `length` symbols of the alphabet. Every place is chosen anew from
    /// the pool of the symbols not yet drawn, so whatever the choices, each of
    /// the symbols is placed exactly once.
    pub fn generate_pattern(length: usize) -> (pattern: Vec<char>)
        requires
            length <= MAXIMUM_PATTERN_LENGTH,
        ensures
            is_arrangement(pattern@, length as nat),
            pattern@.len() == length,
            pattern@.no_duplicates(),
            forall|i: int|
                0 <= i < pattern@.len() ==> first_symbols(length as nat).contains(
                    #[trigger] pattern@[i],
                ),
    {
        broadcast use group_to_multiset_ensures;

        let ghost full = first_symbols(length as nat);
        let mut pattern: Vec<char> = Vec::with_capacity(length);
        let mut pool = symbol_pool(length);
        let mut turn: usize = 0;
        proof {
            assert(pattern@.to_multiset().add(pool@.to_multiset()) =~= full.to_multiset());
        }
        while turn < length
            invariant
                length <= MAXIMUM_PATTERN_LENGTH,
                full == first_symbols(length as nat),
                turn <= length,
                pattern@.len() == turn,
                turn < length ==> pool@.len() == length - turn,
                turn < length ==> pattern@.to_multiset().add(pool@.to_multiset())
                    == full.to_multiset(),
                turn == length ==> pattern@.to_multiset() == full.to_multiset(),
            decreases length - turn,
        {
            let ghost pool_before = pool@;
            let ghost pattern_before = pattern@;
            let index = random_index(pool.len());
            let symbol = draw(&mut pool, length, index);
            pattern.push(symbol);
            proof {
                broadcast use group_to_multiset_ensures;

                let left = pool_before.remove(index as int);
                assert(pool_before.contains(symbol));
                assert(pattern@.to_multiset().add(left.to_multiset())
                    =~= pattern_before.to_multiset().add(pool_before.to_multiset()));
                if left.len() == 0 {
                    assert(left.to_multiset() =~= Multiset::<char>::empty());
                    assert(pattern@.to_multiset().add(left.to_multiset())
                        =~= pattern@.to_multiset());
                }
            }
            turn += 1;
        }
        proof {
            lemma_arrangement_facts(pattern@, length as nat);
            assert forall|i: int| 0 <= i < pattern@.len() implies full.contains(
                #[trigger] pattern@[i],
            ) by {
                assert(pattern@.contains(pattern@[i]));
            }
        }
        pattern
    }
}

} // verus!
