use tempguess::guess::{compare, parse_guess, Feedback, GameState, GuessError, GuessOutcome};

#[test]
fn test_parse_guess_accepts_in_range() {
    assert_eq!(parse_guess("50", 1, 100), Ok(50));
    assert_eq!(parse_guess(" 1 \n", 1, 100), Ok(1));
    assert_eq!(parse_guess("100", 1, 100), Ok(100));
    assert_eq!(parse_guess("007", 1, 100), Ok(7));
}

#[test]
fn test_parse_guess_invalid_format() {
    assert_eq!(parse_guess("", 1, 100), Err(GuessError::InvalidFormat));
    assert_eq!(parse_guess("   ", 1, 100), Err(GuessError::InvalidFormat));
    assert_eq!(parse_guess("abc", 1, 100), Err(GuessError::InvalidFormat));
    assert_eq!(parse_guess("12a", 1, 100), Err(GuessError::InvalidFormat));
    assert_eq!(parse_guess("4 2", 1, 100), Err(GuessError::InvalidFormat));
    assert_eq!(parse_guess("-5", 1, 100), Err(GuessError::InvalidFormat));
    assert_eq!(parse_guess("3.5", 1, 100), Err(GuessError::InvalidFormat));
}

#[test]
fn test_parse_guess_out_of_range() {
    assert_eq!(parse_guess("0", 1, 100), Err(GuessError::OutOfRange));
    assert_eq!(parse_guess("101", 1, 100), Err(GuessError::OutOfRange));
    assert_eq!(
        parse_guess("18446744073709551616", 1, 100),
        Err(GuessError::OutOfRange)
    );
}

#[test]
fn test_compare_oracle() {
    assert_eq!(compare(3, 5), GuessOutcome::Less);
    assert_eq!(compare(7, 5), GuessOutcome::Greater);
    assert_eq!(compare(5, 5), GuessOutcome::Equal);
}

#[test]
fn test_game_scenario() {
    let mut game = GameState::new(1, 100, 50);
    assert_eq!(game.step("30"), Feedback::TooSmall);
    assert_eq!(game.step("70"), Feedback::TooBig);
    assert_eq!(game.step("50"), Feedback::Win);
    assert_eq!(game.attempts, 3);
    assert!(game.won);
}

#[test]
fn test_game_rejects_without_counting() {
    let mut game = GameState::new(1, 100, 42);
    assert_eq!(
        game.step("abc"),
        Feedback::Rejected(GuessError::InvalidFormat)
    );
    assert_eq!(game.attempts, 0);
    assert_eq!(game.step("999"), Feedback::Rejected(GuessError::OutOfRange));
    assert_eq!(game.attempts, 0);
    assert!(!game.won);
    assert_eq!(game.step(" 42 "), Feedback::Win);
    assert_eq!(game.attempts, 1);
    assert!(game.won);
}
