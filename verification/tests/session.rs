use wordle::args::Args;
use wordle::game::GameStatus;
use wordle::grade::LetterStatus;
use wordle::session::WordleApp;
use wordle::theme::{Letter, BACKSPACE, ENTER};

fn day_words(words: &[&str]) -> Vec<String> {
    words.iter().map(|w| w.to_string()).collect()
}

/// A sitting on the given day, with the answers in the order given.
fn sitting(day: u32, difficult: bool) -> WordleApp {
    let mut app = WordleApp::default();
    app.args = Args { day: Some(day), seed: Some(1), difficult, ..Args::default() };
    app.word_list = day_words(&["BRICK", "CRANE", "CRATE", "MOUND", "SLATE", "TRACE"]);
    app.answer_list = day_words(&["CRANE", "SLATE", "BRICK"]);
    app.start();
    app
}

fn type_word(app: &mut WordleApp, word: &str) {
    for c in word.chars() {
        app.press(c);
    }
}

fn answer(app: &WordleApp) -> String {
    app.game.as_ref().unwrap().get_answer().clone()
}

#[test]
fn fresh_sitting_has_no_game() {
    let app = WordleApp::default();
    assert!(app.game.is_none());
    assert!(app.game_status.is_none());
    assert_eq!(app.guess, "");
    assert!(app.word_list.is_empty());
    assert!(app.answer_list.is_empty());
    assert_eq!(app.stats.get_wins(), 0);
}

#[test]
fn start_takes_the_answer_of_the_day() {
    let app = sitting(1, true);
    assert_eq!(answer(&app), "SLATE");
    assert!(app.game.as_ref().unwrap().is_difficult());
    assert_eq!(app.game.as_ref().unwrap().get_round(), 0);
    assert_eq!(app.game_status, Some(GameStatus::Going));
    assert_eq!(app.guess, "");
    assert_eq!(answer(&sitting(0, false)), "CRANE");
    assert_eq!(answer(&sitting(2, false)), "BRICK");
}

#[test]
fn start_clears_what_was_typed() {
    let mut app = sitting(0, false);
    type_word(&mut app, "SLA");
    app.start();
    assert_eq!(app.guess, "");
    assert_eq!(app.game.as_ref().unwrap().get_round(), 0);
}

#[test]
fn days_go_round() {
    let mut app = sitting(0, false);
    app.another_day();
    assert_eq!(app.args.day, Some(1));
    app.another_day();
    assert_eq!(app.args.day, Some(2));
    app.another_day();
    assert_eq!(app.args.day, Some(0));
    // The game in play is not touched.
    assert_eq!(answer(&app), "CRANE");
}

#[test]
fn letters_are_typed_up_to_five() {
    let mut app = sitting(0, false);
    type_word(&mut app, "SLA");
    assert_eq!(app.guess, "SLA");
    type_word(&mut app, "TEXYZ");
    assert_eq!(app.guess, "SLATE");
    app.press(BACKSPACE);
    assert_eq!(app.guess, "SLAT");
    app.press('S');
    assert_eq!(app.guess, "SLATS");
    for _ in 0..7 {
        app.press(BACKSPACE);
    }
    assert_eq!(app.guess, "");
    assert_eq!(app.game.as_ref().unwrap().get_round(), 0);
    assert_eq!(app.game_status, Some(GameStatus::Going));
}

#[test]
fn enter_submits_the_typed_word() {
    let mut app = sitting(0, false);
    type_word(&mut app, "SLATE");
    app.press(ENTER);
    assert_eq!(app.guess, "");
    assert_eq!(app.game_status, Some(GameStatus::Going));
    assert_eq!(app.game.as_ref().unwrap().get_round(), 1);
    assert_eq!(app.game.as_ref().unwrap().get_guesses()[0].0, "SLATE");
    assert_eq!(app.stats.get_word_usage()[0], ("SLATE".to_string(), 1));
    assert_eq!(app.stats.get_wins(), 0);
    assert_eq!(app.stats.get_fails(), 0);
}

#[test]
fn a_word_turned_down_stays_typed() {
    let mut app = sitting(0, true);
    type_word(&mut app, "JUMPY");
    app.press(ENTER);
    assert_eq!(app.guess, "JUMPY");
    assert_eq!(app.game.as_ref().unwrap().get_round(), 0);
    assert!(app.stats.get_word_usage().is_empty());
    for _ in 0..5 {
        app.press(BACKSPACE);
    }
    type_word(&mut app, "CRA");
    app.press(ENTER);
    assert_eq!(app.guess, "CRA");
    type_word(&mut app, "TE");
    app.press(ENTER);
    assert_eq!(app.guess, "");
    // CRATE showed four green letters; SLATE drops three of them.
    type_word(&mut app, "SLATE");
    app.press(ENTER);
    assert_eq!(app.guess, "SLATE");
    assert_eq!(app.game.as_ref().unwrap().get_round(), 1);
    assert_eq!(app.stats.get_word_usage().len(), 1);
    assert_eq!(app.game_status, Some(GameStatus::Going));
}

#[test]
fn a_win_is_counted_and_the_next_key_starts_the_next_day() {
    let mut app = sitting(0, false);
    type_word(&mut app, "SLATE");
    app.press(ENTER);
    type_word(&mut app, "CRANE");
    app.press(ENTER);
    assert_eq!(app.game_status, Some(GameStatus::Won(2)));
    assert_eq!(app.stats.get_wins(), 1);
    assert_eq!(app.stats.get_tries(), 2);
    assert_eq!(app.stats.get_fails(), 0);
    assert_eq!(app.definition_word(), Some(&"CRANE".to_string()));
    // Letters do nothing once the game has ended.
    app.press('A');
    assert_eq!(app.guess, "");
    assert_eq!(app.game_status, Some(GameStatus::Won(2)));
    assert_eq!(app.args.day, Some(0));
    app.press(ENTER);
    assert_eq!(app.args.day, Some(1));
    assert_eq!(answer(&app), "SLATE");
    assert_eq!(app.game_status, Some(GameStatus::Going));
    assert_eq!(app.game.as_ref().unwrap().get_round(), 0);
    assert_eq!(app.stats.get_wins(), 1);
    assert_eq!(app.definition_word(), None);
}

#[test]
fn a_loss_is_counted_and_backspace_starts_the_next_day() {
    let mut app = sitting(2, false);
    for word in ["SLATE", "CRANE", "CRATE", "MOUND", "TRACE", "SLATE"] {
        assert_eq!(app.game_status, Some(GameStatus::Going));
        type_word(&mut app, word);
        app.press(ENTER);
    }
    assert_eq!(app.game_status, Some(GameStatus::Failed("BRICK".to_string())));
    assert_eq!(app.stats.get_fails(), 1);
    assert_eq!(app.stats.get_wins(), 0);
    assert_eq!(app.stats.get_tries(), 0);
    assert_eq!(app.stats.get_word_usage()[0], ("SLATE".to_string(), 2));
    assert_eq!(app.definition_word(), Some(&"BRICK".to_string()));
    app.press(BACKSPACE);
    // After the last day comes the first.
    assert_eq!(app.args.day, Some(0));
    assert_eq!(answer(&app), "CRANE");
    assert_eq!(app.game_status, Some(GameStatus::Going));
}

#[test]
fn board_shows_guesses_then_typed_letters() {
    let mut app = sitting(0, false);
    type_word(&mut app, "SLATE");
    app.press(ENTER);
    type_word(&mut app, "CR");
    let cell = |letter, status| Letter { letter, status };
    assert_eq!(app.cell(0, 0), cell(Some('S'), LetterStatus::Red));
    assert_eq!(app.cell(0, 2), cell(Some('A'), LetterStatus::Green));
    assert_eq!(app.cell(0, 4), cell(Some('E'), LetterStatus::Green));
    assert_eq!(app.cell(1, 0), cell(Some('C'), LetterStatus::Unknown));
    assert_eq!(app.cell(1, 1), cell(Some('R'), LetterStatus::Unknown));
    assert_eq!(app.cell(1, 2), cell(None, LetterStatus::Unknown));
    assert_eq!(app.cell(2, 0), cell(None, LetterStatus::Unknown));
    assert_eq!(app.cell(5, 4), cell(None, LetterStatus::Unknown));
}

#[test]
fn prepare_sets_defaults_and_starts_a_game() {
    let mut app = WordleApp::default();
    let words = day_words(&["BRICK", "CRANE", "SLATE"]);
    app.prepare(words.clone(), day_words(&["SLATE", "CRANE", "BRICK"]));
    assert_eq!(app.args.seed, Some(19260817));
    assert_eq!(app.args.day, Some(0));
    assert_eq!(app.word_list, words);
    let mut answers = app.answer_list.clone();
    answers.sort();
    assert_eq!(answers, words);
    assert_eq!(answer(&app), app.answer_list[0]);
    assert_eq!(app.game_status, Some(GameStatus::Going));
    // A game in play is kept, with what was typed.
    type_word(&mut app, "CR");
    let playing = answer(&app);
    app.args.day = Some(2);
    app.args.seed = Some(3);
    app.prepare(words.clone(), day_words(&["SLATE", "CRANE", "BRICK"]));
    assert_eq!(answer(&app), playing);
    assert_eq!(app.guess, "CR");
    assert_eq!(app.args.day, Some(2));
    assert_eq!(app.args.seed, Some(3));
}

#[test]
fn keys_can_be_handled_while_the_counts_have_room() {
    let mut app = sitting(0, false);
    assert!(app.can_press(ENTER));
    assert!(app.can_press(BACKSPACE));
    assert!(app.can_press('A'));
    app.stats = wordle::stats::Stats::restore(i32::MAX, 0, 0, vec![], vec![]).unwrap();
    assert!(!app.can_press(ENTER));
    assert!(app.can_press('A'));
    app.stats = wordle::stats::Stats::restore(0, 0, i32::MAX - 5, vec![], vec![]).unwrap();
    assert!(!app.can_press(ENTER));
    app.stats = wordle::stats::Stats::restore(0, 0, i32::MAX - 6, vec![], vec![]).unwrap();
    assert!(app.can_press(ENTER));
    // Once the game has ended, enter and backspace need a next day.
    app.game_status = Some(GameStatus::Won(1));
    assert!(app.can_press(ENTER));
    app.args.day = None;
    assert!(!app.can_press(ENTER));
    assert!(!app.can_press(BACKSPACE));
    assert!(app.can_press('A'));
    app.args.day = Some(u32::MAX);
    assert!(!app.can_press(BACKSPACE));
    app.args.day = Some(5);
    assert!(app.can_press(BACKSPACE));
    app.answer_list.clear();
    assert!(!app.can_press(BACKSPACE));
}
