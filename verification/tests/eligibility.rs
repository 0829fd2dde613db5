use blackjack::models::{PlayerAction, PlayerHand};
use blackjack::{all_elements_equal, contains_action, get_player_actions};

fn hand_with(cards: Vec<u8>, bet: i32) -> PlayerHand {
    PlayerHand {
        cards,
        bet,
        payout: None,
        is_complete_taking_actions: false,
        avaiable_actions: Vec::new(),
        previous_actions_taken: Vec::new(),
        is_starting_hand: true,
    }
}

#[test]
fn test_hit_and_stay_always_offered() {
    let hand = hand_with(vec![10, 5], 10);
    let actions = get_player_actions(0, &hand);
    assert!(actions.contains(&PlayerAction::Hit));
    assert!(actions.contains(&PlayerAction::Stay));
    assert!(!actions.contains(&PlayerAction::DoubleDown));
    assert!(!actions.contains(&PlayerAction::Split));
}

#[test]
fn test_split_needs_equal_ranks() {
    let unequal = hand_with(vec![8, 9], 10);
    let actions = get_player_actions(100, &unequal);
    assert!(!actions.contains(&PlayerAction::Split));
    let pair = hand_with(vec![8, 8], 10);
    let actions = get_player_actions(100, &pair);
    assert!(actions.contains(&PlayerAction::Split));
}

#[test]
fn test_split_needs_covered_wager() {
    let pair = hand_with(vec![8, 8], 50);
    let actions = get_player_actions(49, &pair);
    assert!(!actions.contains(&PlayerAction::Split));
    assert!(!actions.contains(&PlayerAction::DoubleDown));
    let actions = get_player_actions(50, &pair);
    assert!(actions.contains(&PlayerAction::Split));
    assert!(actions.contains(&PlayerAction::DoubleDown));
}

#[test]
fn test_split_not_offered_twice_on_one_hand() {
    let mut pair = hand_with(vec![8, 8], 10);
    pair.previous_actions_taken.push(PlayerAction::Split);
    let actions = get_player_actions(100, &pair);
    assert!(!actions.contains(&PlayerAction::Split));
}

#[test]
fn test_split_needs_exactly_two_cards() {
    let three = hand_with(vec![8, 8, 8], 10);
    let actions = get_player_actions(100, &three);
    assert!(!actions.contains(&PlayerAction::Split));
}

#[test]
fn test_contains_action_reports_membership() {
    let actions = vec![PlayerAction::Hit, PlayerAction::Stay];
    assert!(contains_action(&actions, PlayerAction::Hit));
    assert!(!contains_action(&actions, PlayerAction::Split));
}

#[test]
fn test_all_elements_equal() {
    assert!(all_elements_equal(&vec![]));
    assert!(all_elements_equal(&vec![8]));
    assert!(all_elements_equal(&vec![8, 8]));
    assert!(!all_elements_equal(&vec![8, 9]));
}
