//! Action eligibility: which of hit, stay, double down and split a hand may
//! take, given the player's spendable balance and the hand's history.

use vstd::prelude::*;
use crate::models::{PlayerAction, PlayerHand};

verus! {

/// House rule: a hand created by a split may itself be split again.
pub const ALLOW_SPLIT_OF_SPLIT: bool = true;

/// House rule: a hand created by a split may double down.
pub const ALLOW_DOUBLE_DOWN_ON_SPLIT: bool = true;

/// Double down is open while the wager can be covered a second time, the
/// hand has not already doubled, and the house rules admit the hand.
pub open spec fn spec_can_double(balance: int, hand: PlayerHand) -> bool {
    &&& hand.bet <= balance
    &&& !hand.previous_actions_taken@.contains(PlayerAction::DoubleDown)
    &&& (ALLOW_DOUBLE_DOWN_ON_SPLIT || hand.is_starting_hand)
}

/// Split is open for an as-yet-unsplit two-card pair whose wager can be
/// covered a second time, subject to the house rules.
pub open spec fn spec_can_split(balance: int, hand: PlayerHand) -> bool {
    &&& hand.cards@.len() == 2
    &&& hand.cards@[0] == hand.cards@[1]
    &&& (ALLOW_SPLIT_OF_SPLIT || hand.is_starting_hand)
    &&& hand.bet <= balance
    &&& !hand.previous_actions_taken@.contains(PlayerAction::Split)
}

/// The exact action list offered on a hand: hit and stay always, then
/// double down and split when eligible, in that order.
pub open spec fn spec_actions(balance: int, hand: PlayerHand) -> Seq<PlayerAction> {
    seq![PlayerAction::Hit, PlayerAction::Stay] + (if spec_can_double(balance, hand) {
        seq![PlayerAction::DoubleDown]
    } else {
        Seq::empty()
    }) + (if spec_can_split(balance, hand) {
        seq![PlayerAction::Split]
    } else {
        Seq::empty()
    })
}

/// Membership in the offered action list, spelled out per action.
pub proof fn lemma_actions_contains(balance: int, hand: PlayerHand)
    ensures
        spec_actions(balance, hand).contains(PlayerAction::Hit),
        spec_actions(balance, hand).contains(PlayerAction::Stay),
        spec_actions(balance, hand).contains(PlayerAction::DoubleDown) <==> spec_can_double(
            balance,
            hand,
        ),
        spec_actions(balance, hand).contains(PlayerAction::Split) <==> spec_can_split(
            balance,
            hand,
        ),
{
    let s = spec_actions(balance, hand);
    assert(s[0] == PlayerAction::Hit);
    assert(s[1] == PlayerAction::Stay);
    if spec_can_double(balance, hand) {
        assert(s[2] == PlayerAction::DoubleDown);
    }
    if spec_can_split(balance, hand) {
        assert(s[s.len() - 1] == PlayerAction::Split);
    }
    assert forall|i: int| 0 <= i < s.len() implies (s[i] == PlayerAction::DoubleDown
        ==> spec_can_double(balance, hand)) && (s[i] == PlayerAction::Split ==> spec_can_split(
        balance,
        hand,
    )) by {}
}

/// Split is never offered when the hand is not a two-card pair of equal
/// ranks, nor when the wager exceeds the spendable balance.
pub proof fn lemma_split_needs_pair_and_funds(balance: int, hand: PlayerHand)
    requires
        (hand.cards@.len() == 2 && hand.cards@[0] != hand.cards@[1]) || hand.bet > balance,
    ensures
        !spec_actions(balance, hand).contains(PlayerAction::Split),
{
    lemma_actions_contains(balance, hand);
}

/// Once double down is on a hand's history it is never offered again on
/// that hand, whatever its cards or the balance.
pub proof fn lemma_double_down_never_again(balance: int, hand: PlayerHand)
    requires
        hand.previous_actions_taken@.contains(PlayerAction::DoubleDown),
    ensures
        !spec_actions(balance, hand).contains(PlayerAction::DoubleDown),
{
    lemma_actions_contains(balance, hand);
}

/// Whether an action list holds the given action.
pub fn contains_action(actions: &Vec<PlayerAction>, action: PlayerAction) -> (found: bool)
    ensures
        found == actions@.contains(action),
{
    let mut i: usize = 0;
    while i < actions.len()
        invariant
            0 <= i <= actions.len(),
            forall|j: int| 0 <= j < i ==> #[trigger] actions@[j] != action,
        decreases actions.len() - i,
    {
        if actions[i] == action {
            return true;
        }
        i = i + 1;
    }
    false
}

/// Whether every element equals the first (vacuously true when empty).
pub fn all_elements_equal(vec: &Vec<u8>) -> (eq: bool)
    ensures
        eq == (forall|i: int| 0 <= i < vec@.len() ==> #[trigger] vec@[i] == vec@[0]),
{
    if vec.len() == 0 {
        return true;
    }
    let first = vec[0];
    let mut i: usize = 0;
    while i < vec.len()
        invariant
            0 <= i <= vec.len(),
            vec@.len() > 0,
            first == vec@[0],
            forall|j: int| 0 <= j < i ==> #[trigger] vec@[j] == first,
        decreases vec.len() - i,
    {
        if vec[i] != first {
            return false;
        }
        i = i + 1;
    }
    true
}

/// The action list offered on `player_hand` with `player_working_balance`
/// still spendable: hit and stay always; double down and split as the
/// rules of eligibility say.
pub fn get_player_actions(player_working_balance: i32, player_hand: &PlayerHand) -> (actions: Vec<
    PlayerAction,
>)
    ensures
        actions@ == spec_actions(player_working_balance as int, *player_hand),
{
    let mut player_actions: Vec<PlayerAction> = Vec::new();
    player_actions.push(PlayerAction::Hit);
    player_actions.push(PlayerAction::Stay);

    let has_doubled = contains_action(&player_hand.previous_actions_taken, PlayerAction::DoubleDown);
    if player_hand.bet <= player_working_balance && !has_doubled && (ALLOW_DOUBLE_DOWN_ON_SPLIT
        || player_hand.is_starting_hand) {
        player_actions.push(PlayerAction::DoubleDown);
    }

    let has_split = contains_action(&player_hand.previous_actions_taken, PlayerAction::Split);
    let is_pair = all_elements_equal(&player_hand.cards);
    if player_hand.cards.len() == 2 && is_pair && (ALLOW_SPLIT_OF_SPLIT
        || player_hand.is_starting_hand) && player_hand.bet <= player_working_balance
        && !has_split {
        player_actions.push(PlayerAction::Split);
    }

    proof {
        assert(player_actions@ =~= spec_actions(player_working_balance as int, *player_hand));
    }
    player_actions
}

} // verus!
