//! The wording of what a move brought about: which symbols changed places,
//! and how a player who finished is told so.

use ordinal::Ordinal;
use vstd::prelude::*;
use vstd::string::*;

verus! {

/// The decimal digit for a value below ten.
pub open spec fn digit(value: nat) -> char {
    seq!['0', '1', '2', '3', '4', '5', '6', '7', '8', '9'][value as int]
}

/// `number` written in decimal digits, without leading zeros.
pub open spec fn decimal(number: nat) -> Seq<char>
    decreases number,
{
    if number < 10 {
        seq![digit(number)]
    } else {
        decimal(number / 10).push(digit(number % 10))
    }
}

/// The two letters that make a number an ordinal: "th" after 11, 12 and 13
/// in the last two digits, else "st", "nd" or "rd" after a last digit of
/// 1, 2 or 3, and "th" after every other.
pub open spec fn ordinal_suffix(number: nat) -> Seq<char> {
    if 11 <= number % 100 <= 13 {
        seq!['t', 'h']
    } else if number % 10 == 1 {
        seq!['s', 't']
    } else if number % 10 == 2 {
        seq!['n', 'd']
    } else if number % 10 == 3 {
        seq!['r', 'd']
    } else {
        seq!['t', 'h']
    }
}

/// `number` as an ordinal: its decimal digits and its suffix, as in "1st",
/// "12th" or "23rd".
pub open spec fn ordinal_text(number: nat) -> Seq<char> {
    decimal(number) + ordinal_suffix(number)
}

/// What is said of an exchange of the positions `a_position` and
/// `b_position`.
pub open spec fn swap_announcement(a_position: nat, b_position: nat) -> Seq<char> {
    "You have swapped the "@ + ordinal_text(a_position) + " and "@ + ordinal_text(b_position)
        + " characters:"@
}

/// What a player is told who finishes as number `win_count` of
/// `player_count` players: the rank where more than two play, the victory
/// where the first of two finishes, and the completion otherwise.
pub open spec fn win_announcement(player_count: nat, win_count: nat) -> Seq<char> {
    if player_count > 2 {
        "You've won in "@ + ordinal_text(win_count) + " place!"@
    } else if player_count == 2 && win_count == 1 {
        "You've beat your opponent!"@
    } else {
        "You've completed the puzzle!"@
    }
}

/// `number` as an ordinal, from the `Display` of `ordinal::Ordinal`, which
/// writes the number as the standard library displays it, in decimal
/// digits, followed by the suffix that the number's `ToOrdinal::suffix`
/// gives. The contract claims that text in full.
#[verifier::external_body]
fn ordinal_string(number: usize) -> (text: String)
    ensures
        text@ == ordinal_text(number as nat),
{
    Ordinal(number).to_string()
}

/// The announcement of an exchange of the positions `a_position` and
/// `b_position`, both named as ordinals.
pub fn swap_message(a_position: usize, b_position: usize) -> (message: String)
    ensures
        message@ == swap_announcement(a_position as nat, b_position as nat),
{
    let first = ordinal_string(a_position);
    let second = ordinal_string(b_position);
    let mut message = String::from_str("You have swapped the ");
    message.append(first.as_str());
    message.append(" and ");
    message.append(second.as_str());
    message.append(" characters:");
    message
}

/// The announcement for the player who finishes as number `win_count` of
/// a session of `player_count` players.
pub fn win_message(player_count: usize, win_count: usize) -> (message: String)
    ensures
        message@ == win_announcement(player_count as nat, win_count as nat),
{
    if player_count > 2 {
        let place = ordinal_string(win_count);
        let mut message = String::from_str("You've won in ");
        message.append(place.as_str());
        message.append(" place!");
        message
    } else if player_count == 2 && win_count == 1 {
        String::from_str("You've beat your opponent!")
    } else {
        String::from_str("You've completed the puzzle!")
    }
}

} // verus!
