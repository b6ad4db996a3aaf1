use guessing_game::game::GameApp;
use guessing_game::get_res_from_arc_mutex;
use guessing_game::start_game;

fn single_word_game(word: &str) -> GameApp {
    GameApp::with_vocabulary(vec![word.to_string()])
}

#[test]
fn server_greeting() {
    assert_eq!(start_game(), "The server is running well!");
}

#[test]
fn fresh_session_draws_from_vocabulary() {
    let g = GameApp::new();
    let words = ["mb", "windy", "gomes", "johnny", "seoul", "interesting"];
    assert!(words.contains(&g.current_word.as_str()));
    assert!(g.right_guesses.is_empty());
    assert!(g.wrong_guesses.is_empty());
}

#[test]
fn single_word_vocabulary_is_deterministic() {
    let g = single_word_game("seoul");
    assert_eq!(g.current_word, "seoul");
}

#[test]
fn seoul_scenario() {
    let mut g = single_word_game("seoul");

    let msg = g.take_guess("s".to_string());
    assert_eq!(msg, "Yes, it contains a s!\ns****");
    assert_eq!(g.right_guesses, vec!['s']);
    assert!(g.wrong_guesses.is_empty());

    let msg = g.take_guess("s".to_string());
    assert_eq!(msg, "You already guessed s!\ns****");
    assert_eq!(g.right_guesses, vec!['s']);
    assert!(g.wrong_guesses.is_empty());

    let msg = g.take_guess("z".to_string());
    assert_eq!(msg, "Nope, it doesn't contain a z!\ns****");
    assert_eq!(g.right_guesses, vec!['s']);
    assert_eq!(g.wrong_guesses, vec!['z']);

    let msg = g.take_guess("seoul".to_string());
    assert_eq!(msg, "You guessed right, it's seoul! Let's play again!");
    assert_eq!(g.current_word, "seoul");
    assert!(g.right_guesses.is_empty());
    assert!(g.wrong_guesses.is_empty());
}

#[test]
fn losing_word_guess_reveals_and_resets() {
    let mut g = single_word_game("seoul");
    let msg = g.take_guess("x".to_string());
    assert_eq!(msg, "Nope, it doesn't contain a x!\n*****");

    let msg = g.take_guess("banana".to_string());
    assert_eq!(
        msg,
        "Bzzt! It's not banana, it's seoul.\nTime to move on to another word!"
    );
    assert_eq!(g.current_word, "seoul");
    assert!(g.right_guesses.is_empty());
    assert!(g.wrong_guesses.is_empty());
}

#[test]
fn guesses_are_case_insensitive() {
    let mut g = single_word_game("seoul");
    let msg = g.take_guess("S".to_string());
    assert_eq!(msg, "Yes, it contains a s!\ns****");
    let msg = g.take_guess("SEOUL".to_string());
    assert_eq!(msg, "You guessed right, it's seoul! Let's play again!");
}

#[test]
fn empty_guess_is_a_wrong_word_guess() {
    let mut g = single_word_game("seoul");
    let msg = g.take_guess(String::new());
    assert_eq!(msg, "Bzzt! It's not , it's seoul.\nTime to move on to another word!");
    assert!(g.right_guesses.is_empty());
    assert!(g.wrong_guesses.is_empty());
}

#[test]
fn wrong_letters_accumulate_in_reveal() {
    let mut g = single_word_game("gomes");
    let msg = g.take_guess("o".to_string());
    assert_eq!(msg, "Yes, it contains a o!\n*o***");
    let msg = g.take_guess("e".to_string());
    assert_eq!(msg, "Yes, it contains a e!\n*o*e*");
    let msg = g.take_guess("q".to_string());
    assert_eq!(msg, "Nope, it doesn't contain a q!\n*o*e*");
    assert_eq!(g.right_guesses, vec!['o', 'e']);
    assert_eq!(g.wrong_guesses, vec!['q']);
}

#[test]
fn repeated_letter_in_word_is_revealed_everywhere() {
    let mut g = single_word_game("interesting");
    let msg = g.take_guess("i".to_string());
    assert_eq!(msg, "Yes, it contains a i!\ni*******i**");
    let msg = g.take_guess("n".to_string());
    assert_eq!(msg, "Yes, it contains a n!\nin******in*");
}

#[test]
fn full_reveal_by_letters_does_not_reset() {
    let mut g = single_word_game("mb");
    let msg = g.take_guess("m".to_string());
    assert_eq!(msg, "Yes, it contains a m!\nm*");
    let msg = g.take_guess("b".to_string());
    assert_eq!(msg, "Yes, it contains a b!\nmb");
    assert_eq!(g.right_guesses, vec!['m', 'b']);
    assert_eq!(g.current_word, "mb");
}

#[test]
fn non_ascii_letter_is_classified_wrong() {
    let mut g = single_word_game("seoul");
    let msg = g.take_guess("é".to_string());
    assert_eq!(msg, "Nope, it doesn't contain a é!\n*****");
    assert_eq!(g.wrong_guesses, vec!['é']);
}

#[test]
fn shared_instance_path_matches_engine() {
    let mut g = single_word_game("seoul");
    let msg = get_res_from_arc_mutex(&mut g, "s".to_string());
    assert_eq!(msg, "Yes, it contains a s!\ns****");
    let msg = get_res_from_arc_mutex(&mut g, "seoul".to_string());
    assert_eq!(msg, "You guessed right, it's seoul! Let's play again!");
}
