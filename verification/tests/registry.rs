use guessing_game::registry::SessionRegistry;

fn single_word_registry(word: &str) -> SessionRegistry {
    SessionRegistry::new(vec![word.to_string()])
}

fn entry_position(reg: &SessionRegistry, token: u64) -> Option<usize> {
    reg.entries.iter().position(|e| e.token == token)
}

#[test]
fn first_guess_creates_the_session() {
    let mut reg = single_word_registry("seoul");
    assert!(reg.entries.is_empty());
    let msg = reg.apply_guess(7, "s".to_string(), 100);
    assert_eq!(msg, "Yes, it contains a s!\ns****");
    assert_eq!(reg.entries.len(), 1);
    assert_eq!(reg.entries[0].token, 7);
    assert_eq!(reg.entries[0].last_access, 100);
}

#[test]
fn distinct_tokens_have_distinct_sessions() {
    let mut reg = single_word_registry("seoul");
    let msg_a = reg.apply_guess(1, "s".to_string(), 0);
    let msg_b = reg.apply_guess(2, "z".to_string(), 0);
    assert_eq!(msg_a, "Yes, it contains a s!\ns****");
    assert_eq!(msg_b, "Nope, it doesn't contain a z!\n*****");

    let a = entry_position(&reg, 1).unwrap();
    let b = entry_position(&reg, 2).unwrap();
    assert_eq!(reg.entries[a].session.right_guesses, vec!['s']);
    assert!(reg.entries[a].session.wrong_guesses.is_empty());
    assert!(reg.entries[b].session.right_guesses.is_empty());
    assert_eq!(reg.entries[b].session.wrong_guesses, vec!['z']);
}

#[test]
fn same_token_guesses_serialize() {
    let mut reg = single_word_registry("seoul");
    let first = reg.apply_guess(5, "s".to_string(), 0);
    let second = reg.apply_guess(5, "s".to_string(), 1);
    assert_eq!(first, "Yes, it contains a s!\ns****");
    assert_eq!(second, "You already guessed s!\ns****");
    assert_eq!(reg.entries.len(), 1);
    assert_eq!(reg.entries[0].last_access, 1);
}

#[test]
fn resolve_reuses_the_existing_session() {
    let mut reg = single_word_registry("seoul");
    let i = reg.resolve(9, 0);
    let j = reg.resolve(9, 50);
    assert_eq!(i, j);
    assert_eq!(reg.entries.len(), 1);
    assert_eq!(reg.entries[i].last_access, 0);
}

#[test]
fn evict_idle_removes_only_stale_entries() {
    let mut reg = single_word_registry("seoul");
    reg.apply_guess(1, "s".to_string(), 0);
    reg.apply_guess(2, "e".to_string(), 5000);
    reg.evict_idle(6000, 2000);
    assert!(entry_position(&reg, 1).is_none());
    let kept = entry_position(&reg, 2).unwrap();
    assert_eq!(reg.entries[kept].session.right_guesses, vec!['e']);
    assert_eq!(reg.entries[kept].last_access, 5000);
}

#[test]
fn evicted_token_restarts_fresh() {
    let mut reg = single_word_registry("seoul");
    reg.apply_guess(1, "s".to_string(), 0);
    reg.evict_idle(10_000, 200);
    assert!(reg.entries.is_empty());
    let msg = reg.apply_guess(1, "s".to_string(), 10_001);
    assert_eq!(msg, "Yes, it contains a s!\ns****");
}

#[test]
fn eviction_boundary_is_strict() {
    let mut reg = single_word_registry("seoul");
    reg.apply_guess(1, "s".to_string(), 1000);
    reg.evict_idle(3000, 2000);
    assert_eq!(reg.entries.len(), 1);
    reg.evict_idle(3001, 2000);
    assert!(reg.entries.is_empty());
}

#[test]
fn winning_guess_resets_inside_registry() {
    let mut reg = single_word_registry("seoul");
    reg.apply_guess(3, "s".to_string(), 0);
    let msg = reg.apply_guess(3, "Seoul".to_string(), 1);
    assert_eq!(msg, "You guessed right, it's seoul! Let's play again!");
    let i = entry_position(&reg, 3).unwrap();
    assert!(reg.entries[i].session.right_guesses.is_empty());
    assert!(reg.entries[i].session.wrong_guesses.is_empty());
    assert_eq!(reg.entries[i].session.current_word, "seoul");
}

#[test]
fn start_session_issues_a_playable_token() {
    let mut reg = single_word_registry("seoul");
    let token = reg.start_session(0);
    assert!((1..10_000_000).contains(&token));
    let i = entry_position(&reg, token).unwrap();
    assert!(reg.entries[i].session.right_guesses.is_empty());
    assert!(reg.entries[i].session.wrong_guesses.is_empty());
    let msg = reg.apply_guess(token, "s".to_string(), 1);
    assert_eq!(msg, "Yes, it contains a s!\ns****");
}
