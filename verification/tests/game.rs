use wordle::game::{
    get_index, is_complete, Error, Game, GameStatus, LetterStatus, MAX_GAME_ROUND,
};
use wordle::grade::status_text;

fn list(words: &[&str]) -> Vec<String> {
    words.iter().map(|w| w.to_string()).collect()
}

fn statuses(s: &str) -> [LetterStatus; 5] {
    let mut out = [LetterStatus::Unknown; 5];
    for (i, c) in s.chars().enumerate() {
        out[i] = match c {
            'G' => LetterStatus::Green,
            'Y' => LetterStatus::Yellow,
            'R' => LetterStatus::Red,
            _ => LetterStatus::Unknown,
        };
    }
    out
}

fn key(game: &Game, c: char) -> LetterStatus {
    game.get_alphabet()[get_index(c)]
}

fn play(game: &mut Game, word: &str, words: &Vec<String>) -> Result<GameStatus, Error> {
    game.guess(&word.to_string(), words)
}

#[test]
fn grades_repeated_letters_left_to_right() {
    let words = list(&["ERASE", "SPEED"]);
    let mut game = Game::new("SPEED", false, &words).unwrap();
    let status = play(&mut game, "ERASE", &words).unwrap();
    assert_eq!(status, GameStatus::Going);
    assert_eq!(game.get_guesses()[0].0, "ERASE");
    // R is not in the answer; each E and the S claim a letter that is.
    assert_eq!(game.get_guesses()[0].1, statuses("YRRYY"));
}

#[test]
fn surplus_copy_of_a_letter_is_red() {
    let words = list(&["ABBEY", "BOBBY", "KEBAB"]);
    let mut game = Game::new("ABBEY", false, &words).unwrap();
    play(&mut game, "BOBBY", &words).unwrap();
    // One B is in place; of the two others only one can be claimed.
    assert_eq!(game.get_guesses()[0].1, statuses("YRGRG"));
    play(&mut game, "KEBAB", &words).unwrap();
    assert_eq!(game.get_guesses()[1].1, statuses("RYGYY"));
}

#[test]
fn green_takes_a_letter_before_yellow_can() {
    let words = list(&["ALLOY", "LLAMA", "HELLO"]);
    let mut game = Game::new("HELLO", false, &words).unwrap();
    play(&mut game, "LLAMA", &words).unwrap();
    // Two L in the answer, none in place: both L of the guess are yellow.
    assert_eq!(game.get_guesses()[0].1, statuses("YYRRR"));
    play(&mut game, "ALLOY", &words).unwrap();
    // The L in place is green, the other L claims the remaining one.
    assert_eq!(game.get_guesses()[1].1, statuses("RYGYR"));
}

#[test]
fn bad_answer_is_refused() {
    let words = list(&["CRANE"]);
    assert!(matches!(Game::new("SLATE", false, &words), Err(Error::BadAnswer)));
    assert!(matches!(Game::new("", false, &words), Err(Error::BadAnswer)));
    assert!(matches!(Game::new("CRANE", false, &list(&[])), Err(Error::BadAnswer)));
}

#[test]
fn new_game_is_empty() {
    let words = list(&["CRANE", "SLATE"]);
    let game = Game::new("SLATE", true, &words).unwrap();
    assert_eq!(game.get_round(), 0);
    assert!(game.get_guesses().is_empty());
    assert!(game.get_alphabet().iter().all(|s| *s == LetterStatus::Unknown));
    assert!(game.is_difficult());
    assert_eq!(game.get_answer(), "SLATE");
}

#[test]
fn guessing_the_answer_wins_with_the_round() {
    let words = list(&["CRANE", "SLATE", "TRACE"]);
    let mut first = Game::new("CRANE", false, &words).unwrap();
    assert_eq!(play(&mut first, "CRANE", &words), Ok(GameStatus::Won(1)));
    assert_eq!(first.get_guesses()[0].1, statuses("GGGGG"));

    let mut third = Game::new("CRANE", false, &words).unwrap();
    assert_eq!(play(&mut third, "SLATE", &words), Ok(GameStatus::Going));
    assert_eq!(play(&mut third, "TRACE", &words), Ok(GameStatus::Going));
    assert_eq!(play(&mut third, "CRANE", &words), Ok(GameStatus::Won(3)));
    assert_eq!(third.get_round(), 3);
}

#[test]
fn guessing_the_answer_wins_in_hard_mode() {
    let words = list(&["CRANE", "SLATE", "TRACE", "CRATE"]);
    let mut game = Game::new("CRANE", true, &words).unwrap();
    assert_eq!(play(&mut game, "TRACE", &words), Ok(GameStatus::Going));
    assert_eq!(play(&mut game, "CRATE", &words), Ok(GameStatus::Going));
    assert_eq!(play(&mut game, "CRANE", &words), Ok(GameStatus::Won(3)));
}

#[test]
fn winning_on_the_last_round_is_a_win() {
    let words = list(&["CRANE", "SLATE"]);
    let mut game = Game::new("CRANE", false, &words).unwrap();
    for _ in 0..5 {
        assert_eq!(play(&mut game, "SLATE", &words), Ok(GameStatus::Going));
    }
    assert_eq!(play(&mut game, "CRANE", &words), Ok(GameStatus::Won(6)));
}

#[test]
fn sixth_wrong_guess_loses_and_gives_the_answer() {
    let words = list(&["CRANE", "SLATE", "TRACE", "BRICK", "MOUND", "FIGHT", "JUMPY"]);
    let mut game = Game::new("CRANE", false, &words).unwrap();
    for word in ["SLATE", "TRACE", "BRICK", "MOUND", "FIGHT"] {
        assert_eq!(play(&mut game, word, &words), Ok(GameStatus::Going));
    }
    assert_eq!(game.get_round(), 5);
    assert_eq!(play(&mut game, "JUMPY", &words), Ok(GameStatus::Failed("CRANE".to_string())));
    assert_eq!(game.get_round(), MAX_GAME_ROUND);
}

#[test]
fn wrong_length_is_checked_before_the_list() {
    let words = list(&["CRANE", "SLATE", "CRAN", "CRANES"]);
    let mut game = Game::new("CRANE", false, &words).unwrap();
    // Neither in the list nor of the right length: the length decides.
    assert_eq!(play(&mut game, "", &words), Err(Error::UnexpectedWordLength));
    assert_eq!(play(&mut game, "ABCDEFG", &words), Err(Error::UnexpectedWordLength));
    // In the list, but of the wrong length.
    assert_eq!(play(&mut game, "CRAN", &words), Err(Error::UnexpectedWordLength));
    assert_eq!(play(&mut game, "CRANES", &words), Err(Error::UnexpectedWordLength));
    assert_eq!(game.get_round(), 0);
    assert!(game.get_guesses().is_empty());
    assert!(game.get_alphabet().iter().all(|s| *s == LetterStatus::Unknown));
}

#[test]
fn length_is_counted_in_bytes() {
    let words = list(&["CRANE"]);
    let mut game = Game::new("CRANE", false, &words).unwrap();
    // Five characters in seven bytes.
    assert_eq!(play(&mut game, "CR\u{c4}N\u{c9}", &words), Err(Error::UnexpectedWordLength));
    // Four characters in five bytes pass the length check.
    assert_eq!(play(&mut game, "CR\u{c4}N", &words), Err(Error::UnknownWord));
    assert_eq!(game.get_round(), 0);
}

#[test]
fn unknown_word_leaves_the_game_unchanged() {
    let words = list(&["CRANE", "SLATE"]);
    let mut game = Game::new("CRANE", false, &words).unwrap();
    play(&mut game, "SLATE", &words).unwrap();
    let guesses = game.get_guesses().clone();
    let alphabet = *game.get_alphabet();
    assert_eq!(play(&mut game, "TRACE", &words), Err(Error::UnknownWord));
    assert_eq!(play(&mut game, "crane", &words), Err(Error::UnknownWord));
    assert_eq!(game.get_round(), 1);
    assert_eq!(*game.get_guesses(), guesses);
    assert_eq!(*game.get_alphabet(), alphabet);
}

#[test]
fn word_list_need_not_be_sorted() {
    let words = list(&["SLATE", "CRANE", "TRACE", "BRICK"]);
    let mut game = Game::new("BRICK", false, &words).unwrap();
    assert_eq!(play(&mut game, "CRANE", &words), Ok(GameStatus::Going));
    assert_eq!(play(&mut game, "BRICK", &words), Ok(GameStatus::Won(2)));
}

#[test]
fn hard_mode_keeps_green_letters_in_place() {
    let words = list(&["CRANE", "CRATE", "SLATE", "TRACE", "BRICK"]);
    let mut game = Game::new("CRANE", true, &words).unwrap();
    // C, R, A and E are green.
    assert_eq!(play(&mut game, "CRATE", &words), Ok(GameStatus::Going));
    assert_eq!(game.get_guesses()[0].1, statuses("GGGRG"));
    assert_eq!(play(&mut game, "SLATE", &words), Err(Error::HintUnused));
    assert_eq!(play(&mut game, "TRACE", &words), Err(Error::HintUnused));
    assert_eq!(game.get_round(), 1);
    assert_eq!(play(&mut game, "CRANE", &words), Ok(GameStatus::Won(2)));
}

#[test]
fn hard_mode_keeps_yellow_letters_in_the_word() {
    let words = list(&["CRANE", "NIGHT", "BLOCK", "UNCLE", "NONCE"]);
    let mut game = Game::new("CRANE", true, &words).unwrap();
    // N is yellow.
    assert_eq!(play(&mut game, "NIGHT", &words), Ok(GameStatus::Going));
    assert_eq!(game.get_guesses()[0].1, statuses("YRRRR"));
    assert_eq!(play(&mut game, "BLOCK", &words), Err(Error::HintUnused));
    // A yellow letter may stay where it was: only the strict rule minds.
    assert_eq!(play(&mut game, "NONCE", &words), Ok(GameStatus::Going));
    // Of the two N only the first can claim the N of the answer.
    assert_eq!(game.get_guesses()[1].1, statuses("YRRYG"));
    assert_eq!(play(&mut game, "NIGHT", &words), Err(Error::HintUnused));
    assert_eq!(play(&mut game, "UNCLE", &words), Ok(GameStatus::Going));
}

#[test]
fn hard_mode_counts_repeated_hints() {
    let words = list(&["HELLO", "LLAMA", "LEVEL", "WORLD", "ALLOY"]);
    let mut game = Game::new("HELLO", true, &words).unwrap();
    // Both L are yellow: the next word needs two L.
    assert_eq!(play(&mut game, "LLAMA", &words), Ok(GameStatus::Going));
    assert_eq!(play(&mut game, "WORLD", &words), Err(Error::HintUnused));
    assert_eq!(play(&mut game, "ALLOY", &words), Ok(GameStatus::Going));
}

#[test]
fn hints_hold_however_often_hard_mode_is_switched() {
    let words = list(&["CRANE", "CRATE", "SLATE", "BRICK", "CRAZE"]);
    let mut game = Game::new("CRANE", false, &words).unwrap();
    // Made in normal mode: C, R, A and E are green.
    assert_eq!(play(&mut game, "CRATE", &words), Ok(GameStatus::Going));
    // In normal mode nothing holds the player to it.
    assert_eq!(play(&mut game, "BRICK", &words), Ok(GameStatus::Going));
    game.set_difficult(true);
    game.set_difficult(false);
    game.set_difficult(true);
    assert!(game.is_difficult());
    assert_eq!(game.get_round(), 2);
    // The first guess still binds, though a later one was made since.
    assert_eq!(play(&mut game, "SLATE", &words), Err(Error::HintUnused));
    assert_eq!(play(&mut game, "BRICK", &words), Err(Error::HintUnused));
    assert_eq!(play(&mut game, "CRAZE", &words), Ok(GameStatus::Going));
    game.set_difficult(false);
    assert_eq!(play(&mut game, "SLATE", &words), Ok(GameStatus::Going));
    assert_eq!(game.get_round(), 4);
}

#[test]
fn set_difficult_keeps_guesses_and_keyboard() {
    let words = list(&["CRANE", "SLATE"]);
    let mut game = Game::new("CRANE", false, &words).unwrap();
    play(&mut game, "SLATE", &words).unwrap();
    let guesses = game.get_guesses().clone();
    let alphabet = *game.get_alphabet();
    game.set_difficult(true);
    assert_eq!(*game.get_guesses(), guesses);
    assert_eq!(*game.get_alphabet(), alphabet);
    assert_eq!(game.get_answer(), "CRANE");
}

#[test]
fn keyboard_shows_the_best_verdict() {
    let words = list(&["CRANE", "NIGHT", "UNCLE", "BLOCK"]);
    let mut game = Game::new("CRANE", false, &words).unwrap();
    play(&mut game, "NIGHT", &words).unwrap();
    assert_eq!(key(&game, 'N'), LetterStatus::Yellow);
    assert_eq!(key(&game, 'I'), LetterStatus::Red);
    assert_eq!(key(&game, 'C'), LetterStatus::Unknown);
    play(&mut game, "BLOCK", &words).unwrap();
    assert_eq!(key(&game, 'C'), LetterStatus::Yellow);
    assert_eq!(key(&game, 'N'), LetterStatus::Yellow);
    assert_eq!(key(&game, 'B'), LetterStatus::Red);
    assert_eq!(key(&game, 'Z'), LetterStatus::Unknown);
}

#[test]
fn a_green_key_stays_green() {
    let words = list(&["CRANE", "ENACT", "ELATE", "BRINE"]);
    let mut game = Game::new("CRANE", false, &words).unwrap();
    play(&mut game, "BRINE", &words).unwrap();
    assert_eq!(game.get_guesses()[0].1, statuses("RGRGG"));
    assert_eq!(key(&game, 'E'), LetterStatus::Green);
    assert_eq!(key(&game, 'N'), LetterStatus::Green);
    // E and N are only yellow here, and the second E of ELATE is green.
    play(&mut game, "ENACT", &words).unwrap();
    assert_eq!(game.get_guesses()[1].1, statuses("YYGYR"));
    assert_eq!(key(&game, 'E'), LetterStatus::Green);
    assert_eq!(key(&game, 'N'), LetterStatus::Green);
    assert_eq!(key(&game, 'A'), LetterStatus::Green);
    assert_eq!(key(&game, 'T'), LetterStatus::Red);
    play(&mut game, "ELATE", &words).unwrap();
    assert_eq!(game.get_guesses()[2].1, statuses("RRGRG"));
    assert_eq!(key(&game, 'E'), LetterStatus::Green);
    assert_eq!(key(&game, 'L'), LetterStatus::Red);
}

#[test]
fn a_key_takes_the_best_verdict_within_one_guess() {
    let words = list(&["ABBEY", "BOBBY"]);
    let mut game = Game::new("ABBEY", false, &words).unwrap();
    play(&mut game, "BOBBY", &words).unwrap();
    // B is yellow, green and red in one guess.
    assert_eq!(key(&game, 'B'), LetterStatus::Green);
    assert_eq!(key(&game, 'O'), LetterStatus::Red);
    assert_eq!(key(&game, 'Y'), LetterStatus::Green);
}

#[test]
fn validation_changes_nothing() {
    let words = list(&["CRANE", "CRATE", "SLATE"]);
    let mut game = Game::new("CRANE", true, &words).unwrap();
    play(&mut game, "CRATE", &words).unwrap();
    let guesses = game.get_guesses().clone();
    let alphabet = *game.get_alphabet();
    assert_eq!(game.validate_guess(true, false, &"CRANE".to_string(), &words), Ok(()));
    assert_eq!(
        game.validate_guess(true, false, &"SLATE".to_string(), &words),
        Err(Error::HintUnused)
    );
    assert_eq!(
        game.validate_guess(true, true, &"BRICK".to_string(), &words),
        Err(Error::UnknownWord)
    );
    assert_eq!(game.get_round(), 1);
    assert_eq!(*game.get_guesses(), guesses);
    assert_eq!(*game.get_alphabet(), alphabet);
}

#[test]
fn validation_goes_by_the_flag_it_is_given() {
    let words = list(&["CRANE", "CRATE", "SLATE"]);
    let mut game = Game::new("CRANE", true, &words).unwrap();
    play(&mut game, "CRATE", &words).unwrap();
    // The game is in hard mode, the question is asked for normal mode.
    assert_eq!(game.validate_guess(false, false, &"SLATE".to_string(), &words), Ok(()));
    assert_eq!(game.validate_guess(false, true, &"SLATE".to_string(), &words), Ok(()));
    game.set_difficult(false);
    assert_eq!(
        game.validate_guess(true, false, &"SLATE".to_string(), &words),
        Err(Error::HintUnused)
    );
}

#[test]
fn validation_takes_words_of_any_length() {
    let words = list(&["CRANE", "CRATE", "CR", "CRATERS", "SL"]);
    let mut game = Game::new("CRANE", false, &words).unwrap();
    play(&mut game, "CRATE", &words).unwrap();
    assert_eq!(
        game.validate_guess(true, false, &"CRAT".to_string(), &words),
        Err(Error::UnknownWord)
    );
    // Only the places that both words have are compared.
    assert_eq!(game.validate_guess(true, false, &"CR".to_string(), &words), Ok(()));
    assert_eq!(game.validate_guess(true, false, &"SL".to_string(), &words), Err(Error::HintUnused));
    assert_eq!(game.validate_guess(true, false, &"CRATERS".to_string(), &words), Ok(()));
    assert_eq!(game.validate_guess(false, false, &"SL".to_string(), &words), Ok(()));
}

#[test]
fn strict_rule_turns_down_letters_known_to_be_absent() {
    let words = list(&["CRANE", "SLATE", "TRACE", "CRAZE", "PRANK"]);
    let mut game = Game::new("CRANE", false, &words).unwrap();
    // S, L and T are red, A and E green.
    play(&mut game, "SLATE", &words).unwrap();
    assert_eq!(game.get_guesses()[0].1, statuses("RRGRG"));
    // TRACE uses the hints, but T is known not to be in the answer.
    assert_eq!(game.validate_guess(true, false, &"TRACE".to_string(), &words), Ok(()));
    assert_eq!(
        game.validate_guess(true, true, &"TRACE".to_string(), &words),
        Err(Error::HintUnused)
    );
    assert_eq!(game.validate_guess(true, true, &"CRAZE".to_string(), &words), Ok(()));
    assert_eq!(game.validate_guess(true, true, &"CRANE".to_string(), &words), Ok(()));
    // PRANK drops the green E.
    assert_eq!(
        game.validate_guess(true, true, &"PRANK".to_string(), &words),
        Err(Error::HintUnused)
    );
}

#[test]
fn strict_rule_moves_yellow_letters() {
    let words = list(&["CRANE", "NIGHT", "NONCE", "UNCLE", "CRONE"]);
    let mut game = Game::new("CRANE", false, &words).unwrap();
    // N is yellow in the first place.
    play(&mut game, "NIGHT", &words).unwrap();
    assert_eq!(game.validate_guess(true, false, &"NONCE".to_string(), &words), Ok(()));
    assert_eq!(
        game.validate_guess(true, true, &"NONCE".to_string(), &words),
        Err(Error::HintUnused)
    );
    assert_eq!(game.validate_guess(true, true, &"UNCLE".to_string(), &words), Ok(()));
    assert_eq!(game.validate_guess(true, true, &"CRONE".to_string(), &words), Ok(()));
}

#[test]
fn strict_rule_holds_a_red_copy_to_the_revealed_count() {
    let words = list(&["ABBEY", "BOBBY", "KEBAB"]);
    let mut game = Game::new("ABBEY", false, &words).unwrap();
    // B: yellow, green, red. Two B are revealed, and a third is ruled out.
    play(&mut game, "BOBBY", &words).unwrap();
    assert_eq!(game.get_guesses()[0].1, statuses("YRGRG"));
    assert_eq!(game.validate_guess(true, true, &"ABBEY".to_string(), &words), Ok(()));
    // KEBAB has two B, but drops the green Y.
    assert_eq!(
        game.validate_guess(true, true, &"KEBAB".to_string(), &words),
        Err(Error::HintUnused)
    );
    // BOBBY itself keeps every hint, but has a B too many.
    assert_eq!(game.validate_guess(true, false, &"BOBBY".to_string(), &words), Ok(()));
    assert_eq!(
        game.validate_guess(true, true, &"BOBBY".to_string(), &words),
        Err(Error::HintUnused)
    );
}

#[test]
fn the_answer_is_always_a_hint() {
    let words = list(&["SPEED", "ERASE", "GEESE", "SEEDS", "DEEDS", "ESSES"]);
    let mut game = Game::new("SPEED", false, &words).unwrap();
    for word in ["ERASE", "GEESE", "SEEDS", "DEEDS", "ESSES"] {
        play(&mut game, word, &words).unwrap();
        assert_eq!(game.validate_guess(true, true, &"SPEED".to_string(), &words), Ok(()));
    }
}

#[test]
fn restore_replays_the_guesses() {
    let words = list(&["CRANE", "SLATE", "BRINE", "ENACT"]);
    let mut played = Game::new("CRANE", true, &words).unwrap();
    play(&mut played, "SLATE", &words).unwrap();
    played.set_difficult(false);
    play(&mut played, "BRINE", &words).unwrap();
    let history = list(&["SLATE", "BRINE"]);
    let restored = Game::restore("CRANE", false, &history).unwrap();
    assert_eq!(restored.get_round(), 2);
    assert_eq!(restored.get_guesses(), played.get_guesses());
    assert_eq!(restored.get_alphabet(), played.get_alphabet());
    assert_eq!(restored.get_answer(), "CRANE");
    assert!(!restored.is_difficult());
}

#[test]
fn restore_takes_playable_words_only() {
    assert!(Game::restore("CRANE", false, &list(&[])).is_some());
    assert!(Game::restore("crane", false, &list(&[])).is_none());
    assert!(Game::restore("CRAN", false, &list(&[])).is_none());
    assert!(Game::restore("CRANE", false, &list(&["SLATE", "slate"])).is_none());
    assert!(Game::restore("CRANE", false, &list(&["SLAT3"])).is_none());
    let six = list(&["SLATE"; 6]);
    assert!(Game::restore("CRANE", false, &six).is_some());
    let seven = list(&["SLATE"; 7]);
    assert!(Game::restore("CRANE", false, &seven).is_none());
}

#[test]
fn statuses_are_ordered() {
    assert!(LetterStatus::Unknown < LetterStatus::Red);
    assert!(LetterStatus::Red < LetterStatus::Yellow);
    assert!(LetterStatus::Yellow < LetterStatus::Green);
    assert_eq!(LetterStatus::Yellow.max(LetterStatus::Red), LetterStatus::Yellow);
    assert_eq!(LetterStatus::Unknown.max(LetterStatus::Green), LetterStatus::Green);
    assert_eq!(LetterStatus::Red.max(LetterStatus::Red), LetterStatus::Red);
    let all = [
        LetterStatus::Unknown,
        LetterStatus::Red,
        LetterStatus::Yellow,
        LetterStatus::Green,
    ];
    for a in all {
        for b in all {
            assert_eq!(a.max(b), std::cmp::max(a, b));
        }
    }
}

#[test]
fn statuses_have_their_letters() {
    assert_eq!(LetterStatus::Unknown.to_char(), 'X');
    assert_eq!(LetterStatus::Red.to_char(), 'R');
    assert_eq!(LetterStatus::Yellow.to_char(), 'Y');
    assert_eq!(LetterStatus::Green.to_char(), 'G');
    assert_eq!(status_text(&statuses("GYRXG")), "GYRXG");
    assert_eq!(status_text(&[]), "");
    assert_eq!(status_text(&[LetterStatus::Unknown; 26]), "X".repeat(26));
}

#[test]
fn complete_row_is_all_green() {
    assert!(is_complete(&statuses("GGGGG")));
    assert!(!is_complete(&statuses("GGGGY")));
    assert!(!is_complete(&statuses("RGGGG")));
    assert!(!is_complete(&statuses("XXXXX")));
}

#[test]
fn letters_have_their_places() {
    assert_eq!(get_index('A'), 0);
    assert_eq!(get_index('B'), 1);
    assert_eq!(get_index('Z'), 25);
    assert_eq!(get_index('a'), 32);
}

#[test]
fn errors_have_their_messages() {
    assert_eq!(Error::UnexpectedWordLength.what(), "The length of a word should be 5.");
    assert_eq!(Error::UnknownWord.what(), "Unknown word, please try again.");
    assert_eq!(
        Error::BadAnswer.what(),
        "That seems not suitable for a Wordle game. Maybe pick another?"
    );
    assert_eq!(Error::HintUnused.what(), "You must use the hint in difficult mode.");
}

#[test]
fn status_follows_the_last_guess() {
    let words = list(&["CRANE", "SLATE", "TRACE"]);
    let mut game = Game::new("CRANE", false, &words).unwrap();
    assert_eq!(game.get_status(), GameStatus::Going);
    for round in 1..=5 {
        let status = play(&mut game, "SLATE", &words).unwrap();
        assert_eq!(game.get_status(), status);
        assert_eq!(game.get_round(), round);
    }
    let status = play(&mut game, "TRACE", &words).unwrap();
    assert_eq!(status, GameStatus::Failed("CRANE".to_string()));
    assert_eq!(game.get_status(), status);
    let won = Game::restore("CRANE", false, &list(&["SLATE", "CRANE"])).unwrap();
    assert_eq!(won.get_status(), GameStatus::Won(2));
    let going = Game::restore("CRANE", false, &list(&["CRANE", "SLATE"])).unwrap();
    assert_eq!(going.get_status(), GameStatus::Going);
}
