use blackjack::models::{PlayerAction, PlayerHand};
use blackjack::round::{
    apply_player_action, get_first_incomplete_hand_index, play_dealer_hand, settle_hands,
    start_round, total_payout,
};

fn fresh_hand(cards: Vec<u8>, bet: i32) -> PlayerHand {
    PlayerHand {
        cards,
        bet,
        payout: None,
        is_complete_taking_actions: false,
        avaiable_actions: Vec::new(),
        previous_actions_taken: Vec::new(),
        is_starting_hand: true,
    }
}

// The cards of a stacked draw pile are taken from its end, so the last
// element is the player's first card, the one before it the dealer's, and
// so on.

#[test]
fn test_blackjack_pays_three_to_two() {
    // Player {1,10} = 21, dealer {10,9} = 19: automatic blackjack.
    let mut deck: Vec<u8> = vec![9, 10, 10, 1];
    let state = start_round(&mut deck, 100, 10);
    assert_eq!(state.player.hands.len(), 1);
    let hand = &state.player.hands[0];
    assert_eq!(hand.cards, vec![1, 10]);
    assert_eq!(state.dealer_hand, vec![10, 9]);
    assert!(hand.is_complete_taking_actions);
    assert_eq!(hand.payout, Some(15));
    assert_eq!(state.working_balance, 90);
}

#[test]
fn test_blackjack_against_dealer_blackjack_pushes() {
    // Player {1,10} = 21 and dealer {10,1} = 21: push for 0.
    let mut deck: Vec<u8> = vec![1, 10, 10, 1];
    let state = start_round(&mut deck, 100, 10);
    let hand = &state.player.hands[0];
    assert!(hand.is_complete_taking_actions);
    assert_eq!(hand.payout, Some(0));
}

#[test]
fn test_dealer_blackjack_loses_wager() {
    // Player {9,10} = 19, dealer {10,1} = 21: the wager is lost at once.
    let mut deck: Vec<u8> = vec![1, 10, 10, 9];
    let state = start_round(&mut deck, 100, 25);
    let hand = &state.player.hands[0];
    assert!(hand.is_complete_taking_actions);
    assert_eq!(hand.payout, Some(-25));
}

#[test]
fn test_split_deals_each_hand_a_new_card() {
    // Player {8,8}, dealer {5,10}; the split hands draw 2 and 7.
    let mut deck: Vec<u8> = vec![7, 2, 10, 8, 5, 8];
    let mut state = start_round(&mut deck, 100, 10);
    assert_eq!(state.player.hands[0].cards, vec![8, 8]);
    assert!(state.player.hands[0]
        .avaiable_actions
        .contains(&PlayerAction::Split));
    let applied = apply_player_action(&mut deck, &mut state, 0, PlayerAction::Split);
    assert!(applied);
    assert_eq!(state.player.hands.len(), 2);
    assert_eq!(state.player.hands[0].cards, vec![8, 2]);
    assert_eq!(state.player.hands[1].cards, vec![8, 7]);
    assert_eq!(state.player.hands[0].bet, 10);
    assert_eq!(state.player.hands[1].bet, 10);
    assert!(!state.player.hands[1].is_starting_hand);
    // The original wager was deducted a second time for the new hand.
    assert_eq!(state.working_balance, 80);
}

#[test]
fn test_stand_wins_on_eighteen_versus_seventeen() {
    // Player {10,8} = 18 stands; dealer {10,6} draws an ace to 17 and stands.
    let mut deck: Vec<u8> = vec![1, 6, 8, 10, 10];
    let mut state = start_round(&mut deck, 100, 10);
    let applied = apply_player_action(&mut deck, &mut state, 0, PlayerAction::Stay);
    assert!(applied);
    play_dealer_hand(&mut deck, &mut state);
    assert_eq!(state.dealer_hand, vec![10, 6, 1]);
    settle_hands(&mut state);
    assert_eq!(state.player.hands[0].payout, Some(10));
    assert_eq!(total_payout(&state.player), 10);
}

#[test]
fn test_hit_past_twenty_one_busts_immediately() {
    // Player {10,5} hits into an 8 for 23: complete with the wager lost.
    let mut deck: Vec<u8> = vec![8, 9, 5, 10, 10];
    let mut state = start_round(&mut deck, 100, 10);
    let applied = apply_player_action(&mut deck, &mut state, 0, PlayerAction::Hit);
    assert!(applied);
    let hand = &state.player.hands[0];
    assert_eq!(hand.cards, vec![10, 5, 8]);
    assert!(hand.is_complete_taking_actions);
    assert_eq!(hand.payout, Some(-10));
    assert_eq!(get_first_incomplete_hand_index(&state.player), None);
}

#[test]
fn test_dealer_bust_pays_every_open_hand_its_wager() {
    // Player {10,2} = 12 stands; dealer {10,6} draws a 10 and busts at 26.
    let mut deck: Vec<u8> = vec![10, 6, 2, 10, 10];
    let mut state = start_round(&mut deck, 100, 10);
    let applied = apply_player_action(&mut deck, &mut state, 0, PlayerAction::Stay);
    assert!(applied);
    play_dealer_hand(&mut deck, &mut state);
    assert_eq!(state.dealer_hand, vec![10, 6, 10]);
    assert_eq!(state.player.hands[0].payout, Some(10));
    settle_hands(&mut state);
    assert_eq!(total_payout(&state.player), 10);
}

#[test]
fn test_double_down_doubles_wager_and_completes() {
    // Player {5,6} = 11 doubles into a 9 for 20; dealer {10,8} = 18 stands.
    let mut deck: Vec<u8> = vec![9, 8, 6, 10, 5];
    let mut state = start_round(&mut deck, 100, 10);
    let applied = apply_player_action(&mut deck, &mut state, 0, PlayerAction::DoubleDown);
    assert!(applied);
    let hand = &state.player.hands[0];
    assert_eq!(hand.cards, vec![5, 6, 9]);
    assert_eq!(hand.bet, 20);
    assert!(hand.is_complete_taking_actions);
    assert_eq!(hand.payout, None);
    assert_eq!(state.working_balance, 80);
    play_dealer_hand(&mut deck, &mut state);
    settle_hands(&mut state);
    assert_eq!(state.player.hands[0].payout, Some(20));
    assert_eq!(total_payout(&state.player), 20);
}

#[test]
fn test_ineligible_action_is_rejected_without_change() {
    // Player {10,5}: no pair, so a split request changes nothing.
    let mut deck: Vec<u8> = vec![8, 9, 5, 10, 10];
    let mut state = start_round(&mut deck, 100, 10);
    let applied = apply_player_action(&mut deck, &mut state, 0, PlayerAction::Split);
    assert!(!applied);
    assert_eq!(state.player.hands.len(), 1);
    assert_eq!(state.player.hands[0].cards, vec![10, 5]);
    assert!(!state.player.hands[0].is_complete_taking_actions);
    assert_eq!(deck.len(), 1);
}

#[test]
fn test_total_payout_sums_split_hands() {
    // Player {8,8} splits into {8,2} = 10 and {8,7} = 15, stands on both;
    // the dealer draws a 4 to 19 and both hands lose their own wager.
    let mut deck: Vec<u8> = vec![4, 7, 2, 10, 8, 5, 8];
    let mut state = start_round(&mut deck, 100, 10);
    assert!(apply_player_action(
        &mut deck,
        &mut state,
        0,
        PlayerAction::Split
    ));
    assert_eq!(get_first_incomplete_hand_index(&state.player), Some(0));
    assert!(apply_player_action(
        &mut deck,
        &mut state,
        0,
        PlayerAction::Stay
    ));
    assert_eq!(get_first_incomplete_hand_index(&state.player), Some(1));
    assert!(apply_player_action(
        &mut deck,
        &mut state,
        1,
        PlayerAction::Stay
    ));
    assert_eq!(get_first_incomplete_hand_index(&state.player), None);
    play_dealer_hand(&mut deck, &mut state);
    assert_eq!(state.dealer_hand, vec![5, 10, 4]);
    settle_hands(&mut state);
    assert_eq!(state.player.hands[0].payout, Some(-10));
    assert_eq!(state.player.hands[1].payout, Some(-10));
    assert_eq!(total_payout(&state.player), -20);
}

#[test]
fn test_refill_deals_from_a_fresh_deck() {
    // Drawing from an empty pile refills it with 52 cards first.
    let mut deck: Vec<u8> = Vec::new();
    let mut hand: Vec<u8> = Vec::new();
    blackjack::deal_from_deck_legacy(&mut deck, &mut hand);
    assert_eq!(hand.len(), 1);
    assert!(hand[0] >= 1 && hand[0] <= 10);
    assert_eq!(deck.len(), 51);
    for card in deck.iter() {
        assert!((1..=10).contains(card));
    }
}

#[test]
fn test_double_down_bust_loses_doubled_wager() {
    // Player {10,6} doubles into a 10 for 26: the doubled wager is lost.
    let mut deck: Vec<u8> = vec![10, 9, 6, 10, 10];
    let mut state = start_round(&mut deck, 100, 10);
    let applied = apply_player_action(&mut deck, &mut state, 0, PlayerAction::DoubleDown);
    assert!(applied);
    let hand = &state.player.hands[0];
    assert_eq!(hand.bet, 20);
    assert!(hand.is_complete_taking_actions);
    assert_eq!(hand.payout, Some(-20));
}

#[test]
fn test_push_on_equal_totals() {
    // Player {10,8} = 18 stands; dealer {10,8} = 18: push for 0.
    let mut deck: Vec<u8> = vec![8, 8, 10, 10];
    let mut state = start_round(&mut deck, 100, 10);
    assert!(apply_player_action(
        &mut deck,
        &mut state,
        0,
        PlayerAction::Stay
    ));
    play_dealer_hand(&mut deck, &mut state);
    settle_hands(&mut state);
    assert_eq!(state.player.hands[0].payout, Some(0));
    assert_eq!(total_payout(&state.player), 0);
}

#[test]
fn test_double_down_taken_once_never_offered_again() {
    let mut hand = fresh_hand(vec![5, 6], 10);
    hand.previous_actions_taken.push(PlayerAction::DoubleDown);
    let actions = blackjack::get_player_actions(100, &hand);
    assert!(!actions.contains(&PlayerAction::DoubleDown));
    // More cards change nothing about it.
    hand.cards.push(4);
    let actions = blackjack::get_player_actions(100, &hand);
    assert!(!actions.contains(&PlayerAction::DoubleDown));
}

#[test]
fn test_round_from_empty_pile_refills() {
    // Four cards come out of a fresh shuffled deck: 48 remain.
    let mut deck: Vec<u8> = Vec::new();
    let state = start_round(&mut deck, 100, 10);
    assert_eq!(deck.len(), 48);
    assert_eq!(state.player.hands[0].cards.len(), 2);
    assert_eq!(state.dealer_hand.len(), 2);
    for card in state.player.hands[0]
        .cards
        .iter()
        .chain(state.dealer_hand.iter())
        .chain(deck.iter())
    {
        assert!((1..=10).contains(card));
    }
}
