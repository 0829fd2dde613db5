use blackjack::display::usize_to_string;
use blackjack::models::{Player, PlayerAction, PlayerHand};
use blackjack::{print_hand, print_hand_legacy, print_hands, print_player_actions};

fn hand_with(cards: Vec<u8>, complete: bool) -> PlayerHand {
    PlayerHand {
        cards,
        bet: 10,
        payout: None,
        is_complete_taking_actions: complete,
        avaiable_actions: Vec::new(),
        previous_actions_taken: Vec::new(),
        is_starting_hand: true,
    }
}

#[test]
fn test_number_rendering() {
    assert_eq!(usize_to_string(0), "0");
    assert_eq!(usize_to_string(7), "7");
    assert_eq!(usize_to_string(10), "10");
    assert_eq!(usize_to_string(345), "345");
}

#[test]
fn test_print_hand_brackets_and_marker() {
    let hand = hand_with(vec![10, 8], false);
    assert_eq!(print_hand("Player", &hand, false), "Player: [10 8]");
    assert_eq!(print_hand("Player", &hand, true), "Player: [10 8]*");
    let empty = hand_with(Vec::new(), false);
    assert_eq!(print_hand("Player", &empty, false), "Player: []");
}

#[test]
fn test_print_dealer_hand_hides_hole_card() {
    let cards: Vec<u8> = vec![10, 9];
    assert_eq!(print_hand_legacy("Dealer", &cards, true), "Dealer: [* 9]");
    assert_eq!(print_hand_legacy("Dealer", &cards, false), "Dealer: [10 9]");
}

#[test]
fn test_print_hands_marks_active_hand() {
    let player = Player {
        hands: vec![hand_with(vec![10, 8], true), hand_with(vec![8, 7], false)],
    };
    let dealer: Vec<u8> = vec![10, 9];
    let text = print_hands(&dealer, &player, true);
    assert_eq!(
        text,
        "Dealer: [* 9]\nPlayer hand 1: [10 8]\nPlayer hand 2: [8 7]*\n"
    );
}

#[test]
fn test_print_single_hand_without_label_number() {
    let player = Player {
        hands: vec![hand_with(vec![5, 6], false)],
    };
    let dealer: Vec<u8> = vec![2, 3];
    let text = print_hands(&dealer, &player, false);
    assert_eq!(text, "Dealer: [2 3]\nPlayer: [5 6]\n");
}

#[test]
fn test_print_player_actions_line() {
    let actions = vec![
        PlayerAction::Hit,
        PlayerAction::Stay,
        PlayerAction::DoubleDown,
        PlayerAction::Split,
    ];
    assert_eq!(
        print_player_actions(&actions),
        "(h)it (s)tay (d)ouble down s(p)lit"
    );
}
