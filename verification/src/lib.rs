//! A session-scoped word-guessing game engine.
//!
//! The game engine ([`game::GameApp`]) is pure state-transition logic over
//! one session's word and guess state. The session registry
//! ([`registry::SessionRegistry`]) maps opaque session tokens to game
//! sessions, so that each player mutates only their own session, and evicts
//! sessions that have been idle too long. A small [`stopwatch::Stopwatch`]
//! over a caller-supplied clock rounds out the crate.

pub mod game;
pub mod registry;
pub mod stopwatch;

use vstd::prelude::*;

use crate::game::GameApp;
use crate::game::letter_message;
use crate::game::letter_step;
use crate::game::lower_seq;
use crate::game::reset_with;
use crate::game::word_message;

verus! {

/// Health-check message served before any game request.
pub fn start_game() -> (r: String)
    ensures
        r@ == "The server is running well!"@,
{
    String::from_str("The server is running well!")
}

/// Takes one guess against the single shared game instance. Exclusive access
/// is what the `&mut` borrow expresses: the caller holds whatever lock guards
/// the shared instance for the duration of this one evaluation.
pub fn get_res_from_arc_mutex(game: &mut GameApp, guess: String) -> (r: String)
    requires
        old(game)@.wf(),
    ensures
        final(game)@.wf(),
        final(game)@.vocab == old(game)@.vocab,
        lower_seq(guess@).len() == 1 ==> final(game)@ == letter_step(
            old(game)@,
            lower_seq(guess@)[0],
        ) && r@ == letter_message(old(game)@, lower_seq(guess@)[0]),
        lower_seq(guess@).len() != 1 ==> r@ == word_message(old(game)@, lower_seq(guess@))
            && exists|i: int|
            0 <= i < old(game)@.vocab.len() && final(game)@ == reset_with(
                old(game)@,
                old(game)@.vocab[i],
            ),
{
    game.take_guess(guess)
}

} // verus!

