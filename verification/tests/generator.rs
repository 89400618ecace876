use pattern_swap::alphabet::{symbol_pool, CHARACTERS};
use pattern_swap::generator::{draw, pattern_from_picks};
use pattern_swap::Player;

fn symbols(text: &str) -> Vec<char> {
    text.chars().collect()
}

#[test]
fn alphabet_has_sixty_four_distinct_symbols() {
    assert_eq!(CHARACTERS.len(), 64);
    for i in 0..64 {
        for j in 0..i {
            assert_ne!(CHARACTERS[i], CHARACTERS[j]);
        }
    }
    let text: String = CHARACTERS.iter().collect();
    assert_eq!(text, "0123456789abcdefghijklmnopqrstuvwxyzABCDEFGHIJKLMNOPQRSTUVWXYZ-_");
}

#[test]
fn symbol_pool_holds_the_first_symbols_in_order() {
    assert_eq!(symbol_pool(0), symbols(""));
    assert_eq!(symbol_pool(4), symbols("0123"));
    assert_eq!(symbol_pool(12), symbols("0123456789ab"));
    assert_eq!(symbol_pool(64), CHARACTERS.to_vec());
}

#[test]
fn draw_takes_the_symbol_out_of_the_pool() {
    let mut pool = symbols("0123");
    assert_eq!(draw(&mut pool, 4, 2), '2');
    assert_eq!(pool, symbols("013"));
    assert_eq!(draw(&mut pool, 4, 0), '0');
    assert_eq!(pool, symbols("13"));
    assert_eq!(draw(&mut pool, 4, 1), '3');
    assert_eq!(pool, symbols("1"));
}

#[test]
fn draw_refills_a_pool_that_it_empties() {
    let mut pool = symbols("1");
    assert_eq!(draw(&mut pool, 4, 0), '1');
    assert_eq!(pool, symbols("0123"));
    let mut other = symbols("5");
    assert_eq!(draw(&mut other, 6, 0), '5');
    assert_eq!(other, symbols("012345"));
}

#[test]
fn pattern_from_picks_follows_the_picks() {
    assert_eq!(pattern_from_picks(4, &vec![0, 0, 1, 0]), Some(symbols("0132")));
    assert_eq!(pattern_from_picks(4, &vec![0, 0, 0, 0]), Some(symbols("0123")));
    assert_eq!(pattern_from_picks(4, &vec![3, 2, 1, 0]), Some(symbols("3210")));
    assert_eq!(pattern_from_picks(4, &vec![1, 2, 0, 0]), Some(symbols("1302")));
    assert_eq!(pattern_from_picks(6, &vec![5, 0, 3, 1, 1, 0]), Some(symbols("504231")));
}

#[test]
fn pattern_from_picks_draws_one_symbol_for_every_pick() {
    assert_eq!(pattern_from_picks(4, &vec![]), Some(symbols("")));
    assert_eq!(pattern_from_picks(4, &vec![2]), Some(symbols("2")));
    assert_eq!(pattern_from_picks(4, &vec![2, 2]), Some(symbols("23")));
    assert_eq!(pattern_from_picks(0, &vec![]), Some(symbols("")));
}

#[test]
fn pattern_from_picks_refills_the_pool_once_it_is_empty() {
    assert_eq!(pattern_from_picks(4, &vec![0, 0, 0, 0, 0, 0]), Some(symbols("012301")));
    assert_eq!(pattern_from_picks(4, &vec![3, 2, 1, 0, 3, 0, 0]), Some(symbols("3210301")));
    assert_eq!(pattern_from_picks(1, &vec![0, 0, 0]), Some(symbols("000")));
}

#[test]
fn pattern_from_picks_rejects_a_pick_outside_the_pool() {
    assert_eq!(pattern_from_picks(4, &vec![4]), None);
    assert_eq!(pattern_from_picks(4, &vec![0, 3]), None);
    assert_eq!(pattern_from_picks(4, &vec![0, 0, 0, 1]), None);
    assert_eq!(pattern_from_picks(4, &vec![0, 0, 0, 0, 4]), None);
    assert_eq!(pattern_from_picks(0, &vec![0]), None);
}

#[test]
fn pattern_from_picks_rejects_a_length_beyond_the_alphabet() {
    assert_eq!(pattern_from_picks(65, &vec![0]), None);
    assert_eq!(pattern_from_picks(65, &vec![]), None);
    assert_eq!(pattern_from_picks(64, &vec![63]), Some(symbols("_")));
}

#[test]
fn generate_pattern_arranges_the_first_symbols() {
    for length in 4..=64usize {
        for _ in 0..20 {
            let pattern = Player::generate_pattern(length);
            assert_eq!(pattern.len(), length);
            for symbol in &pattern {
                assert!(CHARACTERS[..length].contains(symbol));
            }
            let mut sorted = pattern.clone();
            sorted.sort();
            sorted.dedup();
            assert_eq!(sorted.len(), length);
            for symbol in &CHARACTERS[..length] {
                assert!(pattern.contains(symbol));
            }
        }
    }
}

#[test]
fn generate_pattern_handles_lengths_below_the_minimum() {
    assert_eq!(Player::generate_pattern(0), symbols(""));
    assert_eq!(Player::generate_pattern(1), symbols("0"));
    let two = Player::generate_pattern(2);
    assert!(two == symbols("01") || two == symbols("10"));
}

#[test]
fn generate_pattern_varies() {
    let first = Player::generate_pattern(64);
    let mut differs = false;
    for _ in 0..20 {
        if Player::generate_pattern(64) != first {
            differs = true;
        }
    }
    assert!(differs);
}
