//! A single-player blackjack round engine: hand evaluation with soft/hard
//! aces, per-hand action eligibility, the player turn state machine with
//! splitting, the fixed-policy dealer hand, and payout settlement.

pub mod actions;
pub mod display;
pub mod hand_value;
pub mod models;
pub mod round;
pub mod shoe;

pub use actions::{all_elements_equal, contains_action, get_player_actions};
pub use display::{print_hand, print_hand_legacy, print_hands, print_player_actions};
pub use hand_value::get_hand_sum_legacy;
pub use models::{Player, PlayerAction, PlayerHand, PlayerProfile, MAX_ROUND_BALANCE};
pub use round::{
    apply_player_action, get_first_incomplete_hand_index, get_hand_sum, play_dealer_hand,
    settle_hands, start_round, total_payout, RoundState,
};
pub use shoe::{deal_from_deck, deal_from_deck_legacy};
