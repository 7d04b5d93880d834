use wordle::lists::{shuffle, sort};
use wordle::session::WordleApp;
use wordle::wordfile::{is_sublist, parse_word_list, split_words};
use wordle::words::{check_word, check_words, contains_word, letters};

fn file_words(words: &[&str]) -> Vec<String> {
    words.iter().map(|w| w.to_string()).collect()
}

#[test]
fn words_are_split_at_white_space_and_put_in_uppercase() {
    assert_eq!(parse_word_list("crane slate\nabbey"), file_words(&["CRANE", "SLATE", "ABBEY"]));
    assert_eq!(
        parse_word_list("  crane\t\tSlate \r\n\n BRICK\u{a0}mound\u{3000}"),
        file_words(&["CRANE", "SLATE", "BRICK", "MOUND"])
    );
    assert_eq!(parse_word_list(""), file_words(&[]));
    assert_eq!(parse_word_list(" \n\t "), file_words(&[]));
    assert_eq!(parse_word_list("a"), file_words(&["A"]));
    assert_eq!(parse_word_list("stra\u{df}e x-ray"), file_words(&["STRASSE", "X-RAY"]));
}

#[test]
fn sublist_is_checked_word_by_word() {
    let whole = file_words(&["CRANE", "SLATE", "BRICK"]);
    assert!(is_sublist(&file_words(&[]), &whole));
    assert!(is_sublist(&file_words(&["BRICK", "CRANE", "BRICK"]), &whole));
    assert!(!is_sublist(&file_words(&["BRICK", "MOUND"]), &whole));
    assert!(!is_sublist(&file_words(&["crane"]), &whole));
    assert!(!is_sublist(&whole, &file_words(&[])));
}

#[test]
fn playable_words_are_five_capital_letters() {
    assert!(check_word("CRANE"));
    assert!(check_word("AZAZA"));
    for bad in ["", "CRAN", "CRANES", "crane", "CRANe", "CRAN3", "CR\u{c4}NE", "@RANE", "[RANE"] {
        assert!(!check_word(bad));
    }
    assert!(check_words(&file_words(&[])));
    assert!(check_words(&file_words(&["CRANE", "SLATE"])));
    assert!(!check_words(&file_words(&["CRANE", "slate"])));
}

#[test]
fn words_are_found_in_lists() {
    let list = file_words(&["SLATE", "CRANE"]);
    assert!(contains_word(&list, &"CRANE".to_string()));
    assert!(contains_word(&list, &"SLATE".to_string()));
    assert!(!contains_word(&list, &"CRAN".to_string()));
    assert!(!contains_word(&file_words(&[]), &"CRANE".to_string()));
    assert_eq!(letters("CR\u{c4}N"), vec!['C', 'R', '\u{c4}', 'N']);
    assert_eq!(letters(""), Vec::<char>::new());
}

#[test]
fn shuffle_keeps_the_words_and_goes_by_the_seed() {
    let words = file_words(&[
        "MOUND", "CRANE", "SLATE", "BRICK", "FIGHT", "JUMPY", "ABBEY", "TRACE", "ZEBRA", "QUILT",
    ]);
    let mut sorted = words.clone();
    sorted.sort();
    let shuffle = |list: &Vec<String>, seed: u64| {
        let mut app = WordleApp::default();
        app.answer_list = list.clone();
        app.shuffle_answer_list(seed);
        app.answer_list
    };
    let first = shuffle(&words, 19260817);
    let mut back = first.clone();
    back.sort();
    assert_eq!(back, sorted);
    // The order does not depend on the order in which the words came.
    assert_eq!(shuffle(&sorted, 19260817), first);
    assert_eq!(shuffle(&first, 19260817), first);
    // It is not the sorted order, nor the order given, and another seed
    // gives another order.
    assert_ne!(first, sorted);
    assert_ne!(first, words);
    assert_ne!(shuffle(&words, 1), first);
    assert_eq!(shuffle(&file_words(&[]), 5), file_words(&[]));
    assert_eq!(shuffle(&file_words(&["CRANE"]), 5), file_words(&["CRANE"]));
}

#[test]
fn lists_are_sorted_as_strings_compare() {
    let mut words = file_words(&["slate", "CRANE", "CRAN", "Zebra", "CRANES", "\u{c4}RGER", "CRANE", ""]);
    sort(&mut words);
    assert_eq!(
        words,
        file_words(&["", "CRAN", "CRANE", "CRANE", "CRANES", "Zebra", "slate", "\u{c4}RGER"])
    );
    let mut none = file_words(&[]);
    sort(&mut none);
    assert!(none.is_empty());
}

#[test]
fn plain_shuffle_goes_by_the_order_given() {
    let words = file_words(&[
        "MOUND", "CRANE", "SLATE", "BRICK", "FIGHT", "JUMPY", "ABBEY", "TRACE", "ZEBRA", "QUILT",
    ]);
    let mut first = words.clone();
    shuffle(&mut first, 42);
    let mut again = words.clone();
    shuffle(&mut again, 42);
    assert_eq!(first, again);
    assert_ne!(first, words);
    let mut back = first.clone();
    back.sort();
    let mut sorted = words.clone();
    sorted.sort();
    assert_eq!(back, sorted);
    // The same seed permutes the places, whatever stands in them.
    let mut reversed: Vec<String> = words.iter().rev().cloned().collect();
    shuffle(&mut reversed, 42);
    assert_ne!(reversed, first);
}

#[test]
fn words_are_split_at_the_marked_characters() {
    let split = |text: &str, marks: &str| {
        let text: Vec<char> = text.chars().collect();
        let blank: Vec<bool> = marks.chars().map(|m| m == '_').collect();
        split_words(&text, &blank)
    };
    assert_eq!(split("ab cd", "  _  "), file_words(&["ab", "cd"]));
    assert_eq!(split("abXcd", "  _  "), file_words(&["ab", "cd"]));
    assert_eq!(split("ab cd", "     "), file_words(&["ab cd"]));
    assert_eq!(split("  ab  ", "__  __"), file_words(&["ab"]));
    assert_eq!(split("abc", "___"), file_words(&[]));
    assert_eq!(split("", ""), file_words(&[]));
    // Characters past the marks are letters; marks past the text do nothing.
    assert_eq!(split("a b c", "  "), file_words(&["a b c"]));
    assert_eq!(split("a b c", " _"), file_words(&["a", "b c"]));
    assert_eq!(split("ab", " _____"), file_words(&["a"]));
}
