//! Counting the positions at which a guess agrees with a pattern, and the
//! exchange of two symbols, the one move of the puzzle.

use vstd::prelude::*;
use vstd::relations::injective_on;
use vstd::set_lib::*;

verus! {

/// The positions, present in both sequences, at which the two hold the same
/// symbol.
pub open spec fn matching_positions(pattern: Seq<char>, guess: Seq<char>) -> Set<int> {
    Set::new(|i: int| 0 <= i < pattern.len() && i < guess.len() && pattern[i] == guess[i])
}

/// The match count: how many positions agree. Where the lengths differ,
/// only the positions of the shorter sequence can agree.
pub open spec fn match_count(pattern: Seq<char>, guess: Seq<char>) -> nat {
    matching_positions(pattern, guess).len()
}

/// `guess` with the symbols at `i` and `j` exchanged.
pub open spec fn swapped(guess: Seq<char>, i: int, j: int) -> Seq<char> {
    guess.update(i, guess[j]).update(j, guess[i])
}

/// `order` lists every position below `length` exactly once.
pub open spec fn is_reordering(order: Seq<int>, length: nat) -> bool {
    &&& order.len() == length
    &&& order.no_duplicates()
    &&& forall|i: int| 0 <= i < order.len() ==> 0 <= #[trigger] order[i] < length
}

/// `symbols` read in the order that `order` gives: the result holds at `i`
/// what `symbols` holds at `order[i]`.
pub open spec fn reordered(symbols: Seq<char>, order: Seq<int>) -> Seq<char> {
    Seq::new(order.len(), |i: int| symbols[order[i]])
}

/// The agreeing positions below `bound`.
spec fn matches_below(pattern: Seq<char>, guess: Seq<char>, bound: int) -> Set<int> {
    Set::new(|i: int| 0 <= i < bound && matching_positions(pattern, guess).contains(i))
}

/// The agreeing positions below a bound are finitely many, at most `bound`.
proof fn lemma_matches_below_finite(pattern: Seq<char>, guess: Seq<char>, bound: int)
    requires
        0 <= bound,
    ensures
        matches_below(pattern, guess, bound).finite(),
        matches_below(pattern, guess, bound).len() <= bound,
{
    lemma_int_range(0, bound);
    lemma_len_subset(matches_below(pattern, guess, bound), set_int_range(0, bound));
}

/// Raising the bound by one adds the position `bound` if the sequences agree
/// there, and nothing otherwise.
proof fn lemma_matches_below_step(pattern: Seq<char>, guess: Seq<char>, bound: int)
    requires
        0 <= bound < pattern.len(),
        bound < guess.len(),
    ensures
        matches_below(pattern, guess, bound + 1).len() == matches_below(pattern, guess, bound).len()
            + if pattern[bound] == guess[bound] {
            1int
        } else {
            0int
        },
{
    let before = matches_below(pattern, guess, bound);
    let after = matches_below(pattern, guess, bound + 1);
    lemma_matches_below_finite(pattern, guess, bound);
    if pattern[bound] == guess[bound] {
        assert(after =~= before.insert(bound));
    } else {
        assert(after =~= before);
    }
}

/// The match count never exceeds the length of either sequence.
pub proof fn lemma_match_count_bounded(pattern: Seq<char>, guess: Seq<char>)
    ensures
        matching_positions(pattern, guess).finite(),
        match_count(pattern, guess) <= pattern.len(),
        match_count(pattern, guess) <= guess.len(),
{
    let shorter = if pattern.len() <= guess.len() {
        pattern.len() as int
    } else {
        guess.len() as int
    };
    lemma_matches_below_finite(pattern, guess, shorter);
    assert(matches_below(pattern, guess, shorter) =~= matching_positions(pattern, guess));
}

/// Two sequences of one length agree everywhere exactly if they are equal:
/// the match count reaches the length for equal sequences and for no others.
pub proof fn lemma_full_score(pattern: Seq<char>, guess: Seq<char>)
    requires
        pattern.len() == guess.len(),
    ensures
        match_count(pattern, guess) == pattern.len() <==> pattern == guess,
{
    let length = pattern.len() as int;
    let agreeing = matching_positions(pattern, guess);
    lemma_int_range(0, length);
    lemma_match_count_bounded(pattern, guess);
    if pattern == guess {
        assert(agreeing =~= set_int_range(0, length));
    }
    if match_count(pattern, guess) == pattern.len() {
        lemma_subset_equality(agreeing, set_int_range(0, length));
        assert forall|i: int| 0 <= i < length implies pattern[i] == guess[i] by {
            assert(set_int_range(0, length).contains(i));
        }
        assert(pattern =~= guess);
    }
}

/// Reordering pattern and guess in the same way leaves the match count as
/// it was.
pub proof fn lemma_score_reordered(pattern: Seq<char>, guess: Seq<char>, order: Seq<int>)
    requires
        pattern.len() == guess.len(),
        is_reordering(order, pattern.len()),
    ensures
        match_count(reordered(pattern, order), reordered(guess, order)) == match_count(
            pattern,
            guess,
        ),
{
    let length = pattern.len() as int;
    let moved = matching_positions(reordered(pattern, order), reordered(guess, order));
    let agreeing = matching_positions(pattern, guess);
    let source = |i: int| order[i];
    lemma_match_count_bounded(reordered(pattern, order), reordered(guess, order));
    // Every position below the length is named by `order`.
    lemma_int_range(0, length);
    order.unique_seq_to_set();
    lemma_subset_equality(order.to_set(), set_int_range(0, length));
    assert(injective_on(source, moved));
    assert forall|j: int| agreeing.contains(j) implies moved.map(source).contains(j) by {
        assert(order.to_set().contains(j));
        let i = choose|i: int| 0 <= i < order.len() && order[i] == j;
        assert(moved.contains(i) && source(i) == j);
    }
    assert(moved.map(source) =~= agreeing);
    lemma_map_size(moved, agreeing, source);
}

/// Exchanging a position with itself changes neither the guess nor its
/// match count.
pub proof fn lemma_swap_same_position(pattern: Seq<char>, guess: Seq<char>, i: int)
    requires
        0 <= i < guess.len(),
    ensures
        swapped(guess, i, i) == guess,
        match_count(pattern, swapped(guess, i, i)) == match_count(pattern, guess),
{
    assert(swapped(guess, i, i) =~= guess);
}

/// Exchanging the same two positions twice brings back the guess, and with
/// it the match count.
pub proof fn lemma_swap_twice(pattern: Seq<char>, guess: Seq<char>, i: int, j: int)
    requires
        0 <= i < guess.len(),
        0 <= j < guess.len(),
    ensures
        swapped(swapped(guess, i, j), i, j) == guess,
        match_count(pattern, swapped(swapped(guess, i, j), i, j)) == match_count(pattern, guess),
{
    assert(swapped(swapped(guess, i, j), i, j) =~= guess);
}

/// An exchange moves symbols about; it neither adds a symbol nor loses one.
pub proof fn lemma_swap_keeps_symbols(guess: Seq<char>, i: int, j: int)
    requires
        0 <= i < guess.len(),
        0 <= j < guess.len(),
    ensures
        swapped(guess, i, j).len() == guess.len(),
        swapped(guess, i, j).to_multiset() == guess.to_multiset(),
{
    broadcast use vstd::seq_lib::group_to_multiset_ensures;

    let half = guess.update(i, guess[j]);
    assert(half.update(j, guess[i]).to_multiset() =~= guess.to_multiset());
}

/// Counts the positions at which `guess` agrees with `pattern`. Of two
/// sequences of different lengths only the positions of the shorter one are
/// compared.
pub fn score(pattern: &Vec<char>, guess: &Vec<char>) -> (count: usize)
    ensures
        count == match_count(pattern@, guess@),
        count <= pattern.len(),
        count <= guess.len(),
        pattern.len() == guess.len() ==> (count == pattern.len() <==> pattern@ == guess@),
{
    let shorter = if pattern.len() <= guess.len() {
        pattern.len()
    } else {
        guess.len()
    };
    let mut count: usize = 0;
    let mut position: usize = 0;
    proof {
        lemma_matches_below_finite(pattern@, guess@, 0);
        assert(matches_below(pattern@, guess@, 0) =~= Set::<int>::empty());
    }
    while position < shorter
        invariant
            position <= shorter,
            shorter <= pattern.len(),
            shorter <= guess.len(),
            count <= position,
            count == matches_below(pattern@, guess@, position as int).len(),
        decreases shorter - position,
    {
        proof {
            lemma_matches_below_step(pattern@, guess@, position as int);
        }
        if pattern[position] == guess[position] {
            count += 1;
        }
        position += 1;
    }
    proof {
        assert(matches_below(pattern@, guess@, shorter as int) =~= matching_positions(
            pattern@,
            guess@,
        ));
        if pattern.len() == guess.len() {
            lemma_full_score(pattern@, guess@);
        }
    }
    count
}

/// Exchanges the symbols at the positions `i` and `j` of `guess`.
pub fn swap_symbols(guess: &mut Vec<char>, i: usize, j: usize)
    requires
        i < old(guess).len(),
        j < old(guess).len(),
    ensures
        final(guess)@ == swapped(old(guess)@, i as int, j as int),
{
    let first = guess[i];
    let second = guess[j];
    guess.set(i, second);
    guess.set(j, first);
}

} // verus!
