//! The symbols that patterns are made of, and the bounds of a session.

use vstd::prelude::*;

verus! {

/// The shortest pattern a session may use.
pub const MINIMUM_PATTERN_LENGTH: usize = 4;

/// The longest pattern a session may use: one place for every symbol.
pub const MAXIMUM_PATTERN_LENGTH: usize = 64;

/// The fewest players of a session.
pub const MINIMUM_PLAYER_COUNT: usize = 1;

/// The most players of a session.
pub const MAXIMUM_PLAYER_COUNT: usize = 8;

/// The symbols in their fixed order. A pattern of length `n` is made of the
/// first `n` of them.
pub const CHARACTERS: [char; 64] = [
    '0', '1', '2', '3', '4', '5', '6', '7', '8', '9', 'a', 'b', 'c', 'd', 'e', 'f', 'g', 'h', 'i',
    'j', 'k', 'l', 'm', 'n', 'o', 'p', 'q', 'r', 's', 't', 'u', 'v', 'w', 'x', 'y', 'z', 'A', 'B',
    'C', 'D', 'E', 'F', 'G', 'H', 'I', 'J', 'K', 'L', 'M', 'N', 'O', 'P', 'Q', 'R', 'S', 'T', 'U',
    'V', 'W', 'X', 'Y', 'Z', '-', '_',
];

/// The symbols as a sequence.
pub open spec fn alphabet() -> Seq<char> {
    CHARACTERS@
}

/// The first `length` symbols, in the order of the alphabet.
pub open spec fn first_symbols(length: nat) -> Seq<char> {
    alphabet().take(length as int)
}

/// `symbols` holds each of the first `length` symbols exactly once, and
/// nothing else.
pub open spec fn is_arrangement(symbols: Seq<char>, length: nat) -> bool {
    symbols.to_multiset() == first_symbols(length).to_multiset()
}

/// The alphabet has 64 symbols, and no symbol occurs in it twice.
pub proof fn lemma_alphabet_distinct()
    ensures
        alphabet().len() == 64,
        alphabet().no_duplicates(),
{
}

/// The first `length` symbols are `length` many, all different.
pub proof fn lemma_first_symbols_distinct(length: nat)
    requires
        length <= 64,
    ensures
        first_symbols(length).len() == length,
        first_symbols(length).no_duplicates(),
{
    lemma_alphabet_distinct();
}

/// What being an arrangement amounts to, position by position: the length
/// is right, nothing occurs twice, and a symbol occurs if and only if it is
/// one of the first `length` symbols.
pub proof fn lemma_arrangement_facts(symbols: Seq<char>, length: nat)
    requires
        length <= 64,
        is_arrangement(symbols, length),
    ensures
        symbols.len() == length,
        symbols.no_duplicates(),
        forall|c: char| symbols.contains(c) <==> first_symbols(length).contains(c),
{
    let first = first_symbols(length);
    lemma_first_symbols_distinct(length);
    symbols.to_multiset_ensures();
    first.to_multiset_ensures();
    first.lemma_multiset_has_no_duplicates();
    symbols.lemma_multiset_has_no_duplicates_conv();
    assert forall|c: char| symbols.contains(c) <==> first.contains(c) by {
        assert(symbols.contains(c) <==> symbols.to_multiset().count(c) > 0);
        assert(first.contains(c) <==> first.to_multiset().count(c) > 0);
    }
}

/// A fresh pool holding the first `length` symbols in alphabet order.
pub fn symbol_pool(length: usize) -> (pool: Vec<char>)
    requires
        length <= MAXIMUM_PATTERN_LENGTH,
    ensures
        pool@ == first_symbols(length as nat),
{
    let mut pool: Vec<char> = Vec::with_capacity(length);
    let mut index: usize = 0;
    while index < length
        invariant
            index <= length <= 64,
            pool@ == first_symbols(index as nat),
        decreases length - index,
    {
        pool.push(CHARACTERS[index]);
        index += 1;
    }
    pool
}

} // verus!
