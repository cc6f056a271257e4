//! A turn-based card game engine: players buy into a shared pot, receive two
//! cards each, act in turn, and a single final step pays the pot out to the
//! best-scoring player who has not folded.
//!
//! Each transition (`join`, `deal`, `play`, `end_game`) is a verified
//! function over `&mut Game`. Its effect is stated by a spec function
//! (`join_model`, `deal_model`, `play_model`, `end_model`) over the abstract
//! view `GameModel`, and `laws` proves what holds across runs of them.

mod engine;
mod identity;
mod laws;
mod shuffle;
mod state;

pub use engine::{
    applied, deal, deal_model, dealt, end_game, end_model, find_seat, find_winner, fresh_player,
    has_active, initial_model, initialize, is_winner, join, join_model, next_turn, play,
    play_model, winner, CALL, FOLD, RAISE,
};
pub use identity::Identity;
pub use laws::{
    join_all, lemma_deal_is_deterministic, lemma_joins_add_buy_ins, lemma_winner_exists,
    lemma_joins_stay_within_capacity, lemma_plays_add_wagers, lemma_pot_is_buy_ins_plus_wagers,
    play_all, wagered, PlayRequest,
};
pub use shuffle::{card_at, rng_start, rng_state, rng_step, LCG_MODULUS, LCG_MULTIPLIER};
pub use state::{ErrorCode, Game, GameModel, Phase, Player, DECK_SIZE, MAX_PLAYERS};
