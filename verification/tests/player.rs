use pattern_swap::{InitialGuessError, Player};

fn symbols(text: &str) -> Vec<char> {
    text.chars().collect()
}

fn text(symbols: &Vec<char>) -> String {
    symbols.iter().collect()
}

/// A player whose pattern is "0132".
fn player_0132() -> Player {
    Player::from_picks(4, &vec![0, 0, 1, 0]).unwrap()
}

#[test]
fn new_player_awaits_a_first_guess() {
    for length in 4..=64usize {
        let player = Player::new(length);
        assert_eq!(player.pattern().len(), length);
        assert_eq!(player.guess().len(), 0);
        assert_eq!(player.win_rank(), 0);
        assert!(!player.is_won());
        assert_eq!(player.count_matches(), 0);
    }
}

#[test]
fn from_picks_builds_the_pattern() {
    let player = player_0132();
    assert_eq!(player.pattern(), &symbols("0132"));
    assert_eq!(player.guess().len(), 0);
    assert_eq!(player.win_rank(), 0);
    assert!(!player.is_won());
}

#[test]
fn from_picks_wants_a_whole_pattern_of_admissible_length() {
    assert!(Player::from_picks(4, &vec![0, 0, 0]).is_none());
    assert!(Player::from_picks(4, &vec![0, 0, 0, 0, 0]).is_none());
    assert!(Player::from_picks(4, &vec![0, 0, 2, 0]).is_none());
    assert!(Player::from_picks(3, &vec![0, 0, 0]).is_none());
    assert!(Player::from_picks(65, &vec![0; 65]).is_none());
    assert!(Player::from_picks(64, &vec![0; 64]).is_some());
    assert!(Player::from_picks(4, &vec![0; 4]).is_some());
}

#[test]
fn pattern_characters_are_sorted() {
    let player = Player::from_picks(4, &vec![3, 2, 1, 0]).unwrap();
    assert_eq!(player.pattern(), &symbols("3210"));
    assert_eq!(player.pattern_characters(), symbols("0123"));
    let other = Player::from_picks(6, &vec![4, 0, 3, 1, 1, 0]).unwrap();
    assert_eq!(other.pattern(), &symbols("405231"));
    assert_eq!(other.pattern_characters(), symbols("012345"));
}

#[test]
fn pattern_characters_are_ordered_by_code_point() {
    let player = Player::from_picks(64, &vec![0; 64]).unwrap();
    assert_eq!(
        text(player.pattern()),
        "0123456789abcdefghijklmnopqrstuvwxyzABCDEFGHIJKLMNOPQRSTUVWXYZ-_"
    );
    assert_eq!(
        text(&player.pattern_characters()),
        "-0123456789ABCDEFGHIJKLMNOPQRSTUVWXYZ_abcdefghijklmnopqrstuvwxyz"
    );
}

#[test]
fn initial_guess_scores_the_accepted_guess() {
    let mut player = player_0132();
    assert_eq!(player.initial_guess("0123"), Ok(2));
    assert_eq!(player.guess(), &symbols("0123"));
    assert_eq!(player.pattern(), &symbols("0132"));
    assert_eq!(player.count_matches(), 2);
    assert_eq!(player.win_rank(), 0);
}

#[test]
fn initial_guess_keeps_the_pattern_of_a_full_match() {
    let mut player = player_0132();
    assert_eq!(player.initial_guess("0132"), Ok(4));
    assert_eq!(player.pattern(), &symbols("0132"));
    assert_eq!(player.guess(), &symbols("0132"));
    assert_eq!(player.win_rank(), 0);
}

#[test]
fn initial_guess_reports_each_error() {
    let mut player = player_0132();
    assert_eq!(player.initial_guess("012"), Err(InitialGuessError::WrongLength));
    assert_eq!(player.initial_guess("01a2"), Err(InitialGuessError::NotADigit('a')));
    assert_eq!(player.initial_guess("0124"), Err(InitialGuessError::NotInPattern('4')));
    assert_eq!(player.guess().len(), 0);
    assert_eq!(player.pattern(), &symbols("0132"));
}

#[test]
fn accept_initial_guess_keeps_an_unsolved_start() {
    let mut player = player_0132();
    assert_eq!(player.accept_initial_guess("0123"), Ok(2));
    assert_eq!(player.pattern(), &symbols("0132"));
    assert_eq!(player.guess(), &symbols("0123"));
    assert_eq!(player.win_rank(), 0);
}

#[test]
fn accept_initial_guess_redraws_a_solved_pattern() {
    for _ in 0..200 {
        let mut player = player_0132();
        let matches = player.accept_initial_guess("0132").unwrap();
        assert!(matches < 4);
        assert_eq!(player.guess(), &symbols("0132"));
        assert_ne!(player.pattern(), &symbols("0132"));
        assert_eq!(player.count_matches(), matches);
        assert_eq!(player.pattern_characters(), symbols("0123"));
        assert_eq!(player.win_rank(), 0);
    }
}

#[test]
fn accept_initial_guess_reports_each_error_and_changes_nothing() {
    let mut player = player_0132();
    assert_eq!(player.accept_initial_guess("01320"), Err(InitialGuessError::WrongLength));
    assert_eq!(player.accept_initial_guess("013x"), Err(InitialGuessError::NotADigit('x')));
    assert_eq!(player.accept_initial_guess("0135"), Err(InitialGuessError::NotInPattern('5')));
    assert_eq!(player.guess().len(), 0);
    assert_eq!(player.pattern(), &symbols("0132"));
    assert_eq!(player.win_rank(), 0);
}

#[test]
fn swap_exchanges_and_rescores() {
    let mut player = player_0132();
    player.initial_guess("0123").unwrap();
    assert_eq!(player.swap(0, 1), 0);
    assert_eq!(player.guess(), &symbols("1023"));
    assert_eq!(player.swap(0, 1), 2);
    assert_eq!(player.guess(), &symbols("0123"));
    assert_eq!(player.swap(2, 3), 4);
    assert_eq!(player.guess(), &symbols("0132"));
    assert_eq!(player.win_rank(), 0);
}

#[test]
fn swap_of_equal_indices_is_harmless() {
    let mut player = player_0132();
    player.initial_guess("0123").unwrap();
    for i in 0..4 {
        assert_eq!(player.swap(i, i), 2);
        assert_eq!(player.guess(), &symbols("0123"));
    }
}

#[test]
fn swap_is_its_own_inverse() {
    let mut player = player_0132();
    player.initial_guess("3201").unwrap();
    let before = player.count_matches();
    for i in 0..4 {
        for j in 0..4 {
            player.swap(i, j);
            assert_eq!(player.swap(i, j), before);
            assert_eq!(player.guess(), &symbols("3201"));
        }
    }
}

#[test]
fn example_swap_wins_with_rank_one() {
    let mut player = player_0132();
    let mut finished = 0;
    assert_eq!(player.accept_initial_guess("0123"), Ok(2));
    assert_eq!(player.apply_swap(2, 3, &mut finished), 4);
    assert_eq!(player.guess(), &symbols("0132"));
    assert!(player.is_won());
    assert_eq!(player.win_rank(), 1);
    assert_eq!(finished, 1);
}

#[test]
fn apply_swap_leaves_the_count_while_unsolved() {
    let mut player = player_0132();
    let mut finished = 3;
    player.accept_initial_guess("0123").unwrap();
    assert_eq!(player.apply_swap(0, 1, &mut finished), 0);
    assert!(!player.is_won());
    assert_eq!(player.win_rank(), 0);
    assert_eq!(finished, 3);
    assert_eq!(player.apply_swap(0, 1, &mut finished), 2);
    assert_eq!(player.apply_swap(3, 2, &mut finished), 4);
    assert!(player.is_won());
    assert_eq!(player.win_rank(), 4);
    assert_eq!(finished, 4);
}

#[test]
fn players_can_be_cloned() {
    let mut player = player_0132();
    player.initial_guess("0123").unwrap();
    let copy = player.clone();
    player.swap(2, 3);
    assert_eq!(copy.guess(), &symbols("0123"));
    assert_eq!(copy.pattern(), &symbols("0132"));
    assert_eq!(player.guess(), &symbols("0132"));
}
