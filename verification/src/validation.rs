//! Judging a first guess: it must have as many characters as the pattern
//! has symbols, be written in decimal digits only, and use no symbol that
//! the pattern lacks.

use vstd::prelude::*;
use vstd::string::*;

verus! {

/// Why a first guess is turned down.
#[derive(Debug, Clone, Copy, PartialEq, Eq)]
pub enum InitialGuessError {
    /// The guess has more or fewer characters than the pattern has symbols.
    WrongLength,
    /// The guess holds this character, which is no decimal digit.
    NotADigit(char),
    /// The guess holds this digit, which the pattern does not hold.
    NotInPattern(char),
}

/// `c` is one of the decimal digits `'0'` to `'9'`.
pub open spec fn is_digit(c: char) -> bool {
    '0' <= c && c <= '9'
}

/// Position `i` holds the first character of `raw` that is no digit.
pub open spec fn is_first_non_digit(raw: Seq<char>, i: int) -> bool {
    &&& 0 <= i < raw.len()
    &&& !is_digit(raw[i])
    &&& forall|j: int| 0 <= j < i ==> is_digit(#[trigger] raw[j])
}

/// Position `i` holds the first character of `raw` that occurs nowhere in
/// `pattern`.
pub open spec fn is_first_stranger(raw: Seq<char>, pattern: Seq<char>, i: int) -> bool {
    &&& 0 <= i < raw.len()
    &&& !pattern.contains(raw[i])
    &&& forall|j: int| 0 <= j < i ==> pattern.contains(#[trigger] raw[j])
}

/// The reason for which `raw` is turned down as a first guess at `pattern`,
/// or `None` if it is accepted. The length is judged first, then the digits
/// of the whole guess, then its symbols against the pattern; the character
/// reported is the first that fails.
pub open spec fn rejection(raw: Seq<char>, pattern: Seq<char>) -> Option<InitialGuessError> {
    if raw.len() != pattern.len() {
        Some(InitialGuessError::WrongLength)
    } else if exists|i: int| is_first_non_digit(raw, i) {
        Some(InitialGuessError::NotADigit(raw[choose|i: int| is_first_non_digit(raw, i)]))
    } else if exists|i: int| is_first_stranger(raw, pattern, i) {
        Some(
            InitialGuessError::NotInPattern(raw[choose|i: int| is_first_stranger(raw, pattern, i)]),
        )
    } else {
        None
    }
}

/// An accepted guess is as long as the pattern, all digits, and made of
/// symbols of the pattern; a guess with these three traits is accepted.
pub proof fn lemma_accepted(raw: Seq<char>, pattern: Seq<char>)
    ensures
        rejection(raw, pattern) is None <==> {
            &&& raw.len() == pattern.len()
            &&& forall|i: int| 0 <= i < raw.len() ==> is_digit(#[trigger] raw[i])
            &&& forall|i: int| 0 <= i < raw.len() ==> pattern.contains(#[trigger] raw[i])
        },
{
    if raw.len() == pattern.len() {
        if exists|i: int| 0 <= i < raw.len() && !is_digit(raw[i]) {
            let i = choose|i: int| 0 <= i < raw.len() && !is_digit(raw[i]);
            let digit = |c: char| is_digit(c);
            lemma_first_failure(raw, digit, i);
            let first = choose|k: int| is_first_failure(raw, digit, k);
            assert(is_first_non_digit(raw, first));
        } else if exists|i: int| 0 <= i < raw.len() && !pattern.contains(raw[i]) {
            let i = choose|i: int| 0 <= i < raw.len() && !pattern.contains(raw[i]);
            let known = |c: char| pattern.contains(c);
            lemma_first_failure(raw, known, i);
            let first = choose|k: int| is_first_failure(raw, known, k);
            assert(is_first_stranger(raw, pattern, first));
        }
    }
}

/// Position `i` holds the first element of `s` that fails `passes`.
spec fn is_first_failure(s: Seq<char>, passes: spec_fn(char) -> bool, i: int) -> bool {
    &&& 0 <= i < s.len()
    &&& !passes(s[i])
    &&& forall|j: int| 0 <= j < i ==> passes(#[trigger] s[j])
}

/// Where some element fails, some element is the first to fail.
proof fn lemma_first_failure(s: Seq<char>, passes: spec_fn(char) -> bool, i: int)
    requires
        0 <= i < s.len(),
        !passes(s[i]),
    ensures
        exists|k: int| is_first_failure(s, passes, k),
    decreases i,
{
    if exists|j: int| 0 <= j < i && !passes(s[j]) {
        let j = choose|j: int| 0 <= j < i && !passes(s[j]);
        lemma_first_failure(s, passes, j);
    } else {
        assert(is_first_failure(s, passes, i));
    }
}

/// Tells whether `c` is a decimal digit.
pub fn is_decimal_digit(c: char) -> (digit: bool)
    ensures
        digit == is_digit(c),
{
    '0' <= c && c <= '9'
}

/// Tells whether `symbol` occurs in `pattern`.
pub fn pattern_holds(pattern: &Vec<char>, symbol: char) -> (found: bool)
    ensures
        found == pattern@.contains(symbol),
{
    let mut place: usize = 0;
    while place < pattern.len()
        invariant
            place <= pattern.len(),
            forall|k: int| 0 <= k < place ==> pattern@[k] != symbol,
        decreases pattern.len() - place,
    {
        if pattern[place] == symbol {
            return true;
        }
        place += 1;
    }
    false
}

/// Judges `raw_guess` as a first guess at `pattern`. An accepted guess is
/// returned as a sequence of symbols; a guess that is turned down yields
/// the reason that `rejection` names.
pub fn validate(raw_guess: &str, pattern: &Vec<char>) -> (result: Result<
    Vec<char>,
    InitialGuessError,
>)
    ensures
        match result {
            Ok(guess) => rejection(raw_guess@, pattern@) is None && guess@ == raw_guess@,
            Err(error) => rejection(raw_guess@, pattern@) == Some(error),
        },
{
    let length = raw_guess.unicode_len();
    if length != pattern.len() {
        return Err(InitialGuessError::WrongLength);
    }
    let mut guess: Vec<char> = Vec::with_capacity(length);
    let mut place: usize = 0;
    while place < length
        invariant
            length == raw_guess@.len(),
            length == pattern@.len(),
            place <= length,
            guess@ == raw_guess@.take(place as int),
            forall|j: int| 0 <= j < place ==> is_digit(#[trigger] raw_guess@[j]),
        decreases length - place,
    {
        let character = raw_guess.get_char(place);
        if !is_decimal_digit(character) {
            proof {
                let raw = raw_guess@;
                assert(is_first_non_digit(raw, place as int));
                let first = choose|i: int| is_first_non_digit(raw, i);
                if first < place {
                    assert(is_digit(raw[first]));
                } else if place < first {
                    assert(is_digit(raw[place as int]));
                }
            }
            return Err(InitialGuessError::NotADigit(character));
        }
        guess.push(character);
        proof {
            assert(guess@ =~= raw_guess@.take(place as int + 1));
        }
        place += 1;
    }
    proof {
        assert(guess@ =~= raw_guess@);
    }
    place = 0;
    while place < length
        invariant
            length == guess@.len(),
            length == pattern@.len(),
            guess@ == raw_guess@,
            place <= length,
            forall|j: int| 0 <= j < length ==> is_digit(#[trigger] guess@[j]),
            forall|j: int| 0 <= j < place ==> pattern@.contains(#[trigger] guess@[j]),
        decreases length - place,
    {
        let character = guess[place];
        if !pattern_holds(pattern, character) {
            proof {
                let raw = raw_guess@;
                assert(is_first_stranger(raw, pattern@, place as int));
                let first = choose|i: int| is_first_stranger(raw, pattern@, i);
                if first < place {
                    assert(pattern@.contains(raw[first]));
                } else if place < first {
                    assert(pattern@.contains(raw[place as int]));
                }
                assert forall|i: int| !is_first_non_digit(raw, i) by {
                    if 0 <= i < raw.len() {
                        assert(is_digit(raw[i]));
                    }
                }
            }
            return Err(InitialGuessError::NotInPattern(character));
        }
        place += 1;
    }
    proof {
        lemma_accepted(raw_guess@, pattern@);
    }
    Ok(guess)
}

} // verus!
