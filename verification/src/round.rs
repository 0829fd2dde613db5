//! The round engine: opening deal with the blackjack check, the per-hand
//! player action state machine with splitting, the fixed-policy dealer
//! hand, and payout settlement.

use vstd::prelude::*;
use crate::actions::{contains_action, get_player_actions, lemma_actions_contains, spec_actions};
use crate::hand_value::{
    get_hand_sum_legacy, lemma_hand_value_sound, spec_hand_value, spec_min_sum, spec_valid_ranks,
};
use crate::models::{
    lemma_bet_le_sum_bets, lemma_sum_bets_nonneg, lemma_sum_bets_push, lemma_sum_bets_update,
    spec_sum_bets, spec_total_payout, Player, PlayerAction, PlayerHand, MAX_ROUND_BALANCE,
};
use crate::shoe::spec_drawn;

verus! {

/// Everything a round owns while it runs: the player's hands, the dealer's
/// cards, and the balance still spendable on doubles and splits.
pub struct RoundState {
    pub player: Player,
    pub dealer_hand: Vec<u8>,
    pub working_balance: i32,
}

impl RoundState {
    /// Well-formedness of a running round: every hand is well formed, the
    /// spendable balance is nonnegative, wagers plus spendable balance stay
    /// under the cap (so no later double, split or payout can overflow), and
    /// the dealer's cards are in range with an evaluable total.
    pub open spec fn wf(self) -> bool {
        &&& self.player.wf()
        &&& 0 <= self.working_balance
        &&& spec_sum_bets(self.player.hands@) + self.working_balance <= MAX_ROUND_BALANCE
        &&& spec_valid_ranks(self.dealer_hand@)
        &&& spec_min_sum(self.dealer_hand@) <= 255
    }
}

/// The value of a player hand's cards.
pub fn get_hand_sum(hand: &PlayerHand) -> (total: u8)
    requires
        spec_valid_ranks(hand.cards@),
        spec_min_sum(hand.cards@) <= 255,
    ensures
        total == spec_hand_value(hand.cards@),
{
    get_hand_sum_legacy(&hand.cards)
}

/// The leftmost hand the player is still acting on, if any: hands resolve
/// strictly left to right.
pub fn get_first_incomplete_hand_index(player: &Player) -> (index: Option<usize>)
    ensures
        match index {
            Some(i) => i < player.hands@.len() && !player.hands@[i as int].is_complete_taking_actions
                && forall|j: int|
                0 <= j < i ==> (#[trigger] player.hands@[j]).is_complete_taking_actions,
            None => forall|j: int|
                0 <= j < player.hands@.len() ==> (
                #[trigger] player.hands@[j]).is_complete_taking_actions,
        },
{
    let mut i: usize = 0;
    while i < player.hands.len()
        invariant
            0 <= i <= player.hands@.len(),
            forall|j: int| 0 <= j < i ==> (#[trigger] player.hands@[j]).is_complete_taking_actions,
        decreases player.hands@.len() - i,
    {
        if !player.hands[i].is_complete_taking_actions {
            return Some(i);
        }
        i = i + 1;
    }
    None
}

/// Whether some hand still lacks a settled payout.
fn has_unresolved_hand(player: &Player) -> (unresolved: bool)
    ensures
        unresolved == exists|i: int|
            0 <= i < player.hands@.len() && (#[trigger] player.hands@[i]).payout is None,
{
    let mut i: usize = 0;
    while i < player.hands.len()
        invariant
            0 <= i <= player.hands@.len(),
            forall|j: int| 0 <= j < i ==> (#[trigger] player.hands@[j]).payout is Some,
        decreases player.hands@.len() - i,
    {
        if player.hands[i].payout.is_none() {
            return true;
        }
        i = i + 1;
    }
    false
}

/// Every prefix of the hands has a wager sum no greater than the whole.
proof fn lemma_sum_bets_prefix_le(hands: Seq<PlayerHand>, n: int)
    requires
        forall|j: int| 0 <= j < hands.len() ==> (#[trigger] hands[j]).bet >= 0,
        0 <= n <= hands.len(),
    ensures
        spec_sum_bets(hands.take(n)) <= spec_sum_bets(hands),
    decreases hands.len() - n,
{
    if n < hands.len() {
        lemma_sum_bets_prefix_le(hands, n + 1);
        assert(hands.take(n + 1).drop_last() =~= hands.take(n));
        assert(hands.take(n + 1).last() == hands[n]);
    } else {
        assert(hands.take(n) =~= hands);
    }
}

/// The aggregate payout of the round: the exact sum of every hand's settled
/// payout.
pub fn total_payout(player: &Player) -> (total: i32)
    requires
        player.wf(),
        forall|i: int| 0 <= i < player.hands@.len() ==> (#[trigger] player.hands@[i]).payout is Some,
        spec_sum_bets(player.hands@) <= MAX_ROUND_BALANCE,
    ensures
        total == spec_total_payout(player.hands@),
{
    let hands = &player.hands;
    let mut total: i32 = 0;
    let mut i: usize = 0;
    while i < hands.len()
        invariant
            0 <= i <= hands@.len(),
            player.wf(),
            forall|k: int| 0 <= k < hands@.len() ==> (#[trigger] hands@[k]).payout is Some,
            spec_sum_bets(hands@) <= MAX_ROUND_BALANCE,
            hands == &player.hands,
            total == spec_total_payout(hands@.take(i as int)),
            -2 * spec_sum_bets(hands@.take(i as int)) <= total <= 2 * spec_sum_bets(
                hands@.take(i as int),
            ),
        decreases hands@.len() - i,
    {
        proof {
            assert(hands@.take(i + 1).drop_last() =~= hands@.take(i as int));
            assert(hands@.take(i + 1).last() == hands@[i as int]);
            lemma_sum_bets_prefix_le(hands@, i + 1);
            assert(hands@[i as int].wf());
            lemma_sum_bets_nonneg(hands@.take(i as int));
        }
        let payout = match hands[i].payout {
            Some(p) => p,
            None => 0,
        };
        total = total + payout;
        i = i + 1;
    }
    proof {
        assert(hands@.take(hands@.len() as int) =~= hands@);
    }
    total
}

/// Settles every hand that still lacks a payout against the dealer's total:
/// equal totals push for 0, a greater hand total wins the wager, a lesser
/// one loses it. Hands already settled are untouched, as are the dealer's
/// cards and the balance.
pub fn settle_hands(state: &mut RoundState)
    requires
        old(state).wf(),
        forall|i: int|
            0 <= i < old(state).player.hands@.len() ==> (#[trigger] old(
                state,
            ).player.hands@[i]).is_complete_taking_actions,
    ensures
        final(state).wf(),
        final(state).dealer_hand == old(state).dealer_hand,
        final(state).working_balance == old(state).working_balance,
        final(state).player.hands@.len() == old(state).player.hands@.len(),
        forall|i: int|
            0 <= i < old(state).player.hands@.len() && (#[trigger] old(
                state,
            ).player.hands@[i]).payout is Some ==> final(state).player.hands@[i] == old(
                state,
            ).player.hands@[i],
        forall|i: int|
            0 <= i < old(state).player.hands@.len() && (#[trigger] old(
                state,
            ).player.hands@[i]).payout is None ==> spec_settled(
                old(state).player.hands@[i],
                final(state).player.hands@[i],
                spec_hand_value(old(state).dealer_hand@),
            ),
{
    let dealer_hand_sum = get_hand_sum_legacy(&state.dealer_hand);
    let ghost ohands = state.player.hands@;
    let mut i: usize = 0;
    while i < state.player.hands.len()
        invariant
            0 <= i <= ohands.len(),
            state.player.hands@.len() == ohands.len(),
            state.dealer_hand == old(state).dealer_hand,
            state.working_balance == old(state).working_balance,
            ohands == old(state).player.hands@,
            old(state).wf(),
            dealer_hand_sum == spec_hand_value(state.dealer_hand@),
            forall|j: int| i <= j < ohands.len() ==> state.player.hands@[j] == ohands[j],
            forall|j: int|
                0 <= j < i && (#[trigger] ohands[j]).payout is Some ==> state.player.hands@[j]
                    == ohands[j],
            forall|j: int|
                0 <= j < i && (#[trigger] ohands[j]).payout is None ==> spec_settled(
                    ohands[j],
                    state.player.hands@[j],
                    spec_hand_value(state.dealer_hand@),
                ),
            forall|j: int| 0 <= j < ohands.len() ==> (#[trigger] state.player.hands@[j]).wf(),
            forall|j: int|
                0 <= j < ohands.len() ==> (
                #[trigger] state.player.hands@[j]).is_complete_taking_actions,
            spec_sum_bets(state.player.hands@) == spec_sum_bets(ohands),
        decreases ohands.len() - i,
    {
        if state.player.hands[i].payout.is_none() {
            let ghost pre = state.player.hands@;
            proof {
                assert(pre[i as int].wf());
            }
            let mut hand = state.player.hands.remove(i);
            let hand_sum = get_hand_sum(&hand);
            if hand_sum == dealer_hand_sum {
                hand.payout = Some(0);
            } else if hand_sum > dealer_hand_sum {
                hand.payout = Some(hand.bet);
            } else {
                hand.payout = Some(-hand.bet);
            }
            proof {
                assert(hand.wf());
            }
            state.player.hands.insert(i, hand);
            proof {
                assert(state.player.hands@ =~= pre.update(i as int, hand));
                lemma_sum_bets_update(pre, i as int, hand);
            }
        }
        i = i + 1;
    }
}

/// How an unsettled, complete hand is resolved against the dealer total:
/// only the payout changes, and it is 0 on a push, the wager on a win, and
/// the negated wager on a loss.
pub open spec fn spec_settled(h: PlayerHand, nh: PlayerHand, dealer_value: int) -> bool {
    &&& nh.cards == h.cards
    &&& nh.bet == h.bet
    &&& nh.is_complete_taking_actions == h.is_complete_taking_actions
    &&& nh.avaiable_actions == h.avaiable_actions
    &&& nh.previous_actions_taken == h.previous_actions_taken
    &&& nh.is_starting_hand == h.is_starting_hand
    &&& nh.payout is Some
    &&& (spec_hand_value(h.cards@) == dealer_value ==> nh.payout->0 == 0)
    &&& (spec_hand_value(h.cards@) > dealer_value ==> nh.payout->0 == h.bet)
    &&& (spec_hand_value(h.cards@) < dealer_value ==> nh.payout->0 == -(h.bet as int))
}


/// How many more points the dealer can be short of 17: the termination
/// measure of the dealer's draw loop, clamped at zero once the dealer
/// must stand.
pub open spec fn spec_dealer_fuel(cards: Seq<u8>) -> int {
    if spec_hand_value(cards) >= 17 || spec_min_sum(cards) >= 17 {
        0
    } else {
        17 - spec_min_sum(cards)
    }
}

/// Fields of a hand that settlement never touches.
pub open spec fn spec_same_but_payout(h: PlayerHand, nh: PlayerHand) -> bool {
    &&& nh.cards == h.cards
    &&& nh.bet == h.bet
    &&& nh.is_complete_taking_actions == h.is_complete_taking_actions
    &&& nh.avaiable_actions == h.avaiable_actions
    &&& nh.previous_actions_taken == h.previous_actions_taken
    &&& nh.is_starting_hand == h.is_starting_hand
}

/// Opens a round: deducts the wager, deals two cards to the player's single
/// starting hand and two to the dealer (alternating, player first), offers
/// the starting hand its actions, and applies the immediate blackjack
/// check: both at 21 push for 0; a player natural pays the 3:2 bonus
/// rounded down; a dealer natural alone loses the wager; otherwise the hand
/// awaits actions. With at least four cards stacked, the cards dealt are
/// exactly the top four of the pile.
pub fn start_round(deck: &mut Vec<u8>, initial_player_balance: i32, initial_player_bet: i32) -> (
    state: RoundState)
    requires
        spec_valid_ranks(old(deck)@),
        1 <= initial_player_bet <= initial_player_balance <= MAX_ROUND_BALANCE,
    ensures
        state.wf(),
        spec_valid_ranks(final(deck)@),
        state.working_balance == initial_player_balance - initial_player_bet,
        state.player.hands@.len() == 1,
        state.dealer_hand@.len() == 2,
        ({
            let h = state.player.hands@[0];
            let pv = spec_hand_value(h.cards@);
            let dv = spec_hand_value(state.dealer_hand@);
            &&& h.cards@.len() == 2
            &&& h.bet == initial_player_bet
            &&& h.is_starting_hand
            &&& h.previous_actions_taken@.len() == 0
            &&& h.avaiable_actions@ == spec_actions(state.working_balance as int, h)
            &&& (pv == 21 && dv == 21 ==> h.is_complete_taking_actions && h.payout == Some(0i32))
            &&& (pv == 21 && dv != 21 ==> h.is_complete_taking_actions && h.payout is Some
                && h.payout->0 == h.bet + h.bet / 2)
            &&& (pv != 21 && dv == 21 ==> h.is_complete_taking_actions && h.payout is Some
                && h.payout->0 == -(h.bet as int))
            &&& (pv != 21 && dv != 21 ==> !h.is_complete_taking_actions && h.payout is None)
        }),
        old(deck)@.len() >= 4 ==> ({
            let n = old(deck)@.len() as int;
            &&& state.player.hands@[0].cards@ == seq![old(deck)@[n - 1], old(deck)@[n - 3]]
            &&& state.dealer_hand@ == seq![old(deck)@[n - 2], old(deck)@[n - 4]]
            &&& final(deck)@ == old(deck)@.take(n - 4)
        }),
{
    let working_balance = initial_player_balance - initial_player_bet;
    let mut hand = PlayerHand {
        cards: Vec::new(),
        bet: initial_player_bet,
        payout: None,
        is_complete_taking_actions: false,
        avaiable_actions: Vec::new(),
        previous_actions_taken: Vec::new(),
        is_starting_hand: true,
    };
    let mut dealer_hand: Vec<u8> = Vec::new();

    let ghost d0 = deck@;
    crate::shoe::deal_from_deck(deck, &mut hand);
    let ghost d1 = deck@;
    crate::shoe::deal_from_deck_legacy(deck, &mut dealer_hand);
    let ghost d2 = deck@;
    crate::shoe::deal_from_deck(deck, &mut hand);
    let ghost d3 = deck@;
    crate::shoe::deal_from_deck_legacy(deck, &mut dealer_hand);

    proof {
        assert(hand.cards@ =~= seq![hand.cards@[0], hand.cards@[1]]);
        assert(dealer_hand@ =~= seq![dealer_hand@[0], dealer_hand@[1]]);
        crate::hand_value::lemma_min_sum_two(hand.cards@);
        crate::hand_value::lemma_min_sum_two(dealer_hand@);
        if d0.len() >= 4 {
            assert(d1 =~= d0.drop_last());
            assert(d2 =~= d1.drop_last());
            assert(d3 =~= d2.drop_last());
            assert(deck@ =~= d0.take(d0.len() - 4));
            assert(hand.cards@ =~= seq![d0[d0.len() - 1], d0[d0.len() - 3]]);
            assert(dealer_hand@ =~= seq![d0[d0.len() - 2], d0[d0.len() - 4]]);
        }
    }

    hand.avaiable_actions = get_player_actions(working_balance, &hand);

    let player_hand_sum = get_hand_sum(&hand);
    let dealer_hand_sum = get_hand_sum_legacy(&dealer_hand);
    let is_dealer_blackjack = dealer_hand_sum == 21;
    let is_hand_blackjack = player_hand_sum == 21;
    if is_hand_blackjack && is_dealer_blackjack {
        hand.is_complete_taking_actions = true;
        hand.payout = Some(0);
    } else if is_hand_blackjack {
        hand.is_complete_taking_actions = true;
        hand.payout = Some(hand.bet + hand.bet / 2);
    } else if is_dealer_blackjack {
        hand.is_complete_taking_actions = true;
        hand.payout = Some(-hand.bet);
    }
    proof {
        lemma_hand_value_sound(hand.cards@);
    }

    let mut player = Player { hands: Vec::new() };
    player.hands.push(hand);
    let state = RoundState { player, dealer_hand, working_balance };
    proof {
        assert(state.player.hands@.drop_last() =~= Seq::<PlayerHand>::empty());
        assert(spec_sum_bets(Seq::<PlayerHand>::empty()) == 0);
        assert(spec_sum_bets(state.player.hands@) == spec_sum_bets(
            state.player.hands@.drop_last(),
        ) + state.player.hands@.last().bet);
        assert(spec_sum_bets(state.player.hands@) == initial_player_bet);
    }
    state
}

/// Plays the dealer's fixed policy when at least one hand still lacks a
/// payout: hit strictly below 17, stand at 17 or more. If the dealer busts
/// (ends above 21), every unsettled hand immediately wins its own wager,
/// with no comparison of totals; otherwise all payouts are left for
/// settlement. With every hand already settled, nothing happens at all.
pub fn play_dealer_hand(deck: &mut Vec<u8>, state: &mut RoundState)
    requires
        old(state).wf(),
        spec_valid_ranks(old(deck)@),
        forall|i: int|
            0 <= i < old(state).player.hands@.len() ==> (#[trigger] old(
                state,
            ).player.hands@[i]).is_complete_taking_actions,
    ensures
        final(state).wf(),
        spec_valid_ranks(final(deck)@),
        final(state).working_balance == old(state).working_balance,
        final(state).player.hands@.len() == old(state).player.hands@.len(),
        forall|i: int|
            0 <= i < old(state).player.hands@.len() && (#[trigger] old(
                state,
            ).player.hands@[i]).payout is Some ==> final(state).player.hands@[i] == old(
                state,
            ).player.hands@[i],
        (forall|i: int|
            0 <= i < old(state).player.hands@.len() ==> (#[trigger] old(
                state,
            ).player.hands@[i]).payout is Some) ==> *final(state) == *old(state) && final(deck)@
            == old(deck)@,
        (exists|i: int|
            0 <= i < old(state).player.hands@.len() && (#[trigger] old(
                state,
            ).player.hands@[i]).payout is None) ==> ({
            let d = final(state).dealer_hand@;
            let od = old(state).dealer_hand@;
            &&& d.len() >= od.len()
            &&& d.take(od.len() as int) == od
            &&& (d.len() - od.len() <= old(deck)@.len() ==> final(deck)@ == old(deck)@.take(
                old(deck)@.len() - (d.len() - od.len()),
            ) && (forall|k: int|
                0 <= k < d.len() - od.len() ==> #[trigger] d[od.len() + k] == old(deck)@[old(
                    deck,
                )@.len() - 1 - k]))
            &&& spec_hand_value(d) >= 17
            &&& (forall|k: int|
                od.len() <= k < d.len() ==> spec_hand_value(#[trigger] d.take(k)) < 17)
            &&& (spec_hand_value(d) > 21 ==> forall|i: int|
                0 <= i < old(state).player.hands@.len() && (#[trigger] old(
                    state,
                ).player.hands@[i]).payout is None ==> spec_same_but_payout(
                    old(state).player.hands@[i],
                    final(state).player.hands@[i],
                ) && final(state).player.hands@[i].payout is Some
                    && final(state).player.hands@[i].payout->0 == old(
                    state,
                ).player.hands@[i].bet)
            &&& (spec_hand_value(d) <= 21 ==> forall|i: int|
                0 <= i < old(state).player.hands@.len() ==> final(state).player.hands@[i] == old(
                    state,
                ).player.hands@[i])
        }),
{
    if !has_unresolved_hand(&state.player) {
        return ;
    }
    let ghost od = state.dealer_hand@;
    let mut dealer_hand_sum = get_hand_sum_legacy(&state.dealer_hand);
    proof {
        lemma_hand_value_sound(state.dealer_hand@);
        assert(deck@ =~= deck@.take(deck@.len() as int));
    }
    while dealer_hand_sum < 17
        invariant
            dealer_hand_sum == spec_hand_value(state.dealer_hand@),
            spec_min_sum(state.dealer_hand@) <= spec_hand_value(state.dealer_hand@),
            spec_valid_ranks(state.dealer_hand@),
            spec_min_sum(state.dealer_hand@) <= 255,
            spec_valid_ranks(deck@),
            state.dealer_hand@.len() >= od.len(),
            state.dealer_hand@.take(od.len() as int) == od,
            state.dealer_hand@.len() - od.len() <= old(deck)@.len() ==> deck@ == old(deck)@.take(
                old(deck)@.len() - (state.dealer_hand@.len() - od.len()),
            ) && (forall|k: int|
                0 <= k < state.dealer_hand@.len() - od.len() ==> #[trigger] state.dealer_hand@[od.len()
                    + k] == old(deck)@[old(deck)@.len() - 1 - k]),
            forall|k: int|
                od.len() <= k < state.dealer_hand@.len() ==> spec_hand_value(
                    #[trigger] state.dealer_hand@.take(k),
                ) < 17,
            state.player == old(state).player,
            state.working_balance == old(state).working_balance,
        decreases spec_dealer_fuel(state.dealer_hand@),
    {
        proof {
            lemma_hand_value_sound(state.dealer_hand@);
            assert(spec_min_sum(state.dealer_hand@) < 17);
        }
        let ghost before = state.dealer_hand@;
        let ghost deck_before = deck@;
        crate::shoe::deal_from_deck_legacy(deck, &mut state.dealer_hand);
        proof {
            assert(state.dealer_hand@.drop_last() =~= before);
            let draws = before.len() - od.len();
            if draws + 1 <= old(deck)@.len() {
                assert(deck_before == old(deck)@.take(old(deck)@.len() - draws));
                assert(deck_before.len() == old(deck)@.len() - draws > 0);
                assert(state.dealer_hand@.last() == deck_before.last());
                assert(deck_before.last() == old(deck)@[old(deck)@.len() - 1 - draws]);
                assert(deck@ =~= old(deck)@.take(old(deck)@.len() - (draws + 1)));
                assert forall|k: int| 0 <= k < draws + 1 implies #[trigger] state.dealer_hand@[od.len()
                    + k] == old(deck)@[old(deck)@.len() - 1 - k] by {
                    if k < draws {
                        assert(state.dealer_hand@[od.len() + k] == before[od.len() + k]);
                    }
                }
            }
            assert(spec_min_sum(state.dealer_hand@) == spec_min_sum(before)
                + state.dealer_hand@.last());
            assert(state.dealer_hand@.take(before.len() as int) =~= before);
            assert(state.dealer_hand@.take(od.len() as int) =~= before.take(od.len() as int));
            assert forall|k: int|
                od.len() <= k < state.dealer_hand@.len() implies spec_hand_value(
                #[trigger] state.dealer_hand@.take(k),
            ) < 17 by {
                assert(state.dealer_hand@.take(k) =~= before.take(k));
                if k == before.len() {
                    assert(before.take(k) =~= before);
                }
            }
        }
        dealer_hand_sum = get_hand_sum_legacy(&state.dealer_hand);
        proof {
            lemma_hand_value_sound(state.dealer_hand@);
            assert(state.dealer_hand@.last() >= 1);
            assert(spec_min_sum(state.dealer_hand@) == spec_min_sum(before)
                + state.dealer_hand@.last());
            assert(spec_min_sum(state.dealer_hand@) > spec_min_sum(before));
        }
    }
    if dealer_hand_sum > 21 {
        let ghost mhands = state.player.hands@;
        let ghost dfin = state.dealer_hand@;
        let mut i: usize = 0;
        while i < state.player.hands.len()
            invariant
                0 <= i <= mhands.len(),
                state.player.hands@.len() == mhands.len(),
                mhands == old(state).player.hands@,
                old(state).wf(),
                state.dealer_hand@ == dfin,
                spec_valid_ranks(state.dealer_hand@),
                spec_min_sum(state.dealer_hand@) <= 255,
                state.working_balance == old(state).working_balance,
                forall|j: int|
                    0 <= j < mhands.len() ==> (
                    #[trigger] mhands[j]).is_complete_taking_actions,
                forall|j: int| i <= j < mhands.len() ==> state.player.hands@[j] == mhands[j],
                forall|j: int|
                    0 <= j < i && (#[trigger] mhands[j]).payout is Some ==> state.player.hands@[j]
                        == mhands[j],
                forall|j: int|
                    0 <= j < i && (#[trigger] mhands[j]).payout is None ==> spec_same_but_payout(
                        mhands[j],
                        state.player.hands@[j],
                    ) && state.player.hands@[j].payout is Some && state.player.hands@[j].payout->0
                        == mhands[j].bet,
                forall|j: int| 0 <= j < mhands.len() ==> (#[trigger] state.player.hands@[j]).wf(),
                spec_sum_bets(state.player.hands@) == spec_sum_bets(mhands),
            decreases mhands.len() - i,
        {
            if state.player.hands[i].payout.is_none() {
                let ghost pre = state.player.hands@;
                proof {
                    assert(pre[i as int].wf());
                }
                let mut hand = state.player.hands.remove(i);
                proof {
                    assert(hand == pre[i as int]);
                    assert(pre[i as int] == mhands[i as int]);
                    assert(mhands[i as int].is_complete_taking_actions);
                    assert(hand.is_complete_taking_actions);
                }
                hand.payout = Some(hand.bet);
                proof {
                    assert(hand.wf());
                }
                state.player.hands.insert(i, hand);
                proof {
                    assert(state.player.hands@ =~= pre.update(i as int, hand));
                    lemma_sum_bets_update(pre, i as int, hand);
                }
            }
            i = i + 1;
        }
    }
}


/// The acted-on hand after a stay: the history records the stay, the hand
/// is complete, and only the offered action list is refreshed.
pub open spec fn spec_stay_transition(h: PlayerHand, nh: PlayerHand, balance: int) -> bool {
    &&& nh.cards == h.cards
    &&& nh.bet == h.bet
    &&& nh.is_starting_hand == h.is_starting_hand
    &&& nh.payout == h.payout
    &&& nh.is_complete_taking_actions
    &&& nh.previous_actions_taken@ == h.previous_actions_taken@.push(PlayerAction::Stay)
    &&& nh.avaiable_actions@ == spec_actions(balance, nh)
}

/// The acted-on hand after a hit: one card drawn onto the hand and the hit
/// recorded. Passing 21 busts the hand on the spot for the negated wager;
/// otherwise it stays open with a refreshed action list.
pub open spec fn spec_hit_transition(h: PlayerHand, nh: PlayerHand, balance: int) -> bool {
    &&& nh.cards@ == h.cards@.push(nh.cards@.last())
    &&& nh.cards@.len() == h.cards@.len() + 1
    &&& 1 <= nh.cards@.last() <= 10
    &&& nh.bet == h.bet
    &&& nh.is_starting_hand == h.is_starting_hand
    &&& nh.previous_actions_taken@ == h.previous_actions_taken@.push(PlayerAction::Hit)
    &&& (spec_hand_value(nh.cards@) > 21 ==> nh.is_complete_taking_actions && nh.payout is Some
        && nh.payout->0 == -(h.bet as int))
    &&& (spec_hand_value(nh.cards@) <= 21 ==> !nh.is_complete_taking_actions && nh.payout is None)
    &&& nh.avaiable_actions@ == spec_actions(balance, nh)
}

/// The acted-on hand after a double down: the wager doubled (its amount
/// deducted once more from the balance), exactly one card drawn, and the
/// hand complete. A total past 21 loses the doubled wager at once;
/// otherwise the payout waits for settlement.
pub open spec fn spec_double_transition(h: PlayerHand, nh: PlayerHand, balance: int) -> bool {
    &&& nh.cards@ == h.cards@.push(nh.cards@.last())
    &&& nh.cards@.len() == h.cards@.len() + 1
    &&& 1 <= nh.cards@.last() <= 10
    &&& nh.bet == 2 * h.bet
    &&& nh.is_starting_hand == h.is_starting_hand
    &&& nh.previous_actions_taken@ == h.previous_actions_taken@.push(PlayerAction::DoubleDown)
    &&& nh.is_complete_taking_actions
    &&& (spec_hand_value(nh.cards@) > 21 ==> nh.payout is Some && nh.payout->0 == -(nh.bet as int))
    &&& (spec_hand_value(nh.cards@) <= 21 ==> nh.payout is None)
    &&& nh.avaiable_actions@ == spec_actions(balance, nh)
}

/// The two hands after a split of a pair: the kept hand retains the first
/// card and draws a replacement; the new hand is seeded with the removed
/// second card, draws one card, carries the same wager (deducted once more
/// from the balance), and is marked as a non-original hand. Both hands are
/// open with freshly computed action lists.
pub open spec fn spec_split_transition(
    h: PlayerHand,
    nh: PlayerHand,
    extra: PlayerHand,
    balance: int,
) -> bool {
    &&& nh.cards@.len() == 2
    &&& nh.cards@[0] == h.cards@[0]
    &&& 1 <= nh.cards@[1] <= 10
    &&& nh.bet == h.bet
    &&& nh.is_starting_hand == h.is_starting_hand
    &&& nh.payout is None
    &&& !nh.is_complete_taking_actions
    &&& nh.previous_actions_taken@ == h.previous_actions_taken@.push(PlayerAction::Split)
    &&& nh.avaiable_actions@ == spec_actions(balance, nh)
    &&& extra.cards@.len() == 2
    &&& extra.cards@[0] == h.cards@[1]
    &&& 1 <= extra.cards@[1] <= 10
    &&& extra.bet == h.bet
    &&& extra.payout is None
    &&& !extra.is_complete_taking_actions
    &&& extra.previous_actions_taken@.len() == 0
    &&& !extra.is_starting_hand
    &&& extra.avaiable_actions@ == spec_actions(balance, extra)
}

/// One step of the player turn state machine on the leftmost open hand.
/// The requested action is validated against the hand's currently eligible
/// actions under the current balance: an ineligible action is rejected
/// with no change at all. An eligible action is applied exactly as the
/// per-action transition says, every other hand is untouched, and the
/// round stays well formed.
pub fn apply_player_action(
    deck: &mut Vec<u8>,
    state: &mut RoundState,
    hand_index: usize,
    action: PlayerAction,
) -> (applied: bool)
    requires
        old(state).wf(),
        spec_valid_ranks(old(deck)@),
        hand_index < old(state).player.hands@.len(),
        !old(state).player.hands@[hand_index as int].is_complete_taking_actions,
        forall|j: int|
            0 <= j < hand_index ==> (#[trigger] old(
                state,
            ).player.hands@[j]).is_complete_taking_actions,
    ensures
        final(state).wf(),
        spec_valid_ranks(final(deck)@),
        applied == spec_actions(
            old(state).working_balance as int,
            old(state).player.hands@[hand_index as int],
        ).contains(action),
        !applied ==> *final(state) == *old(state) && final(deck)@ == old(deck)@,
        applied ==> ({
            let h = old(state).player.hands@[hand_index as int];
            let nh = final(state).player.hands@[hand_index as int];
            let nb = final(state).working_balance as int;
            let ob = old(state).working_balance as int;
            let n = old(state).player.hands@.len() as int;
            &&& (forall|j: int|
                0 <= j < n && j != hand_index ==> final(state).player.hands@[j] == #[trigger] old(
                    state,
                ).player.hands@[j])
            &&& final(state).dealer_hand == old(state).dealer_hand
            &&& (action == PlayerAction::Stay ==> final(state).player.hands@.len() == n && nb == ob
                && spec_stay_transition(h, nh, nb) && final(deck)@ == old(deck)@)
            &&& (action == PlayerAction::Hit ==> final(state).player.hands@.len() == n && nb == ob
                && spec_hit_transition(h, nh, nb) && spec_drawn(
                old(deck)@,
                final(deck)@,
                nh.cards@.last(),
            ))
            &&& (action == PlayerAction::DoubleDown ==> final(state).player.hands@.len() == n && nb
                == ob - h.bet && spec_double_transition(h, nh, nb) && spec_drawn(
                old(deck)@,
                final(deck)@,
                nh.cards@.last(),
            ))
            &&& (action == PlayerAction::Split ==> final(state).player.hands@.len() == n + 1 && nb
                == ob - h.bet && spec_split_transition(
                h,
                nh,
                final(state).player.hands@.last(),
                nb,
            ) && (old(deck)@.len() >= 2 ==> nh.cards@[1] == old(deck)@[old(deck)@.len() - 1]
                && final(state).player.hands@.last().cards@[1] == old(deck)@[old(deck)@.len() - 2]
                && final(deck)@ == old(deck)@.take(old(deck)@.len() - 2)))
        }),
{
    let i = hand_index;
    let ghost ohands = state.player.hands@;
    let ghost oh = ohands[i as int];
    let ghost ob = state.working_balance as int;
    let current_actions = get_player_actions(state.working_balance, &state.player.hands[i]);
    if !contains_action(&current_actions, action) {
        return false;
    }
    proof {
        lemma_actions_contains(ob, oh);
        assert(oh.wf());
        assert forall|j: int| 0 <= j < ohands.len() implies (#[trigger] ohands[j]).bet >= 0 by {
            assert(ohands[j].wf());
        }
        lemma_bet_le_sum_bets(ohands, i as int);
    }
    let mut h = state.player.hands.remove(i);
    match action {
        PlayerAction::Stay => {
            h.previous_actions_taken.push(PlayerAction::Stay);
            h.is_complete_taking_actions = true;
            h.avaiable_actions = get_player_actions(state.working_balance, &h);
            proof {
                assert(h.wf());
            }
            state.player.hands.insert(i, h);
            proof {
                assert(state.player.hands@ =~= ohands.update(i as int, h));
                lemma_sum_bets_update(ohands, i as int, h);
            }
        },
        PlayerAction::Hit => {
            h.previous_actions_taken.push(PlayerAction::Hit);
            let ghost precards = h.cards@;
            crate::shoe::deal_from_deck(deck, &mut h);
            proof {
                assert(h.cards@.drop_last() =~= precards);
                assert(spec_min_sum(h.cards@) == spec_min_sum(precards) + h.cards@.last());
                lemma_hand_value_sound(precards);
                lemma_hand_value_sound(h.cards@);
            }
            let player_hand_sum = get_hand_sum(&h);
            if player_hand_sum > 21 {
                h.is_complete_taking_actions = true;
                h.payout = Some(-h.bet);
            }
            h.avaiable_actions = get_player_actions(state.working_balance, &h);
            proof {
                assert(h.wf());
            }
            state.player.hands.insert(i, h);
            proof {
                assert(state.player.hands@ =~= ohands.update(i as int, h));
                lemma_sum_bets_update(ohands, i as int, h);
            }
        },
        PlayerAction::DoubleDown => {
            h.previous_actions_taken.push(PlayerAction::DoubleDown);
            state.working_balance = state.working_balance - h.bet;
            proof {
                assert(2 * h.bet <= h.bet + ob <= MAX_ROUND_BALANCE);
            }
            h.bet = h.bet * 2;
            let ghost precards = h.cards@;
            crate::shoe::deal_from_deck(deck, &mut h);
            proof {
                assert(h.cards@.drop_last() =~= precards);
                assert(spec_min_sum(h.cards@) == spec_min_sum(precards) + h.cards@.last());
                lemma_hand_value_sound(precards);
                lemma_hand_value_sound(h.cards@);
            }
            let player_hand_sum = get_hand_sum(&h);
            if player_hand_sum > 21 {
                h.payout = Some(-h.bet);
            }
            h.is_complete_taking_actions = true;
            h.avaiable_actions = get_player_actions(state.working_balance, &h);
            proof {
                assert(h.wf());
            }
            state.player.hands.insert(i, h);
            proof {
                assert(state.player.hands@ =~= ohands.update(i as int, h));
                lemma_sum_bets_update(ohands, i as int, h);
            }
        },
        PlayerAction::Split => {
            h.previous_actions_taken.push(PlayerAction::Split);
            state.working_balance = state.working_balance - h.bet;
            let ghost paircards = h.cards@;
            let moved_card = h.cards.remove(1);
            proof {
                assert(h.cards@ =~= seq![paircards[0]]);
            }
            let ghost middeck = deck@;
            crate::shoe::deal_from_deck(deck, &mut h);
            proof {
                assert(h.cards@ =~= seq![paircards[0], h.cards@[1]]);
                crate::hand_value::lemma_min_sum_two(h.cards@);
                lemma_hand_value_sound(h.cards@);
            }
            let mut new_hand = PlayerHand {
                cards: Vec::new(),
                bet: h.bet,
                payout: None,
                is_complete_taking_actions: false,
                avaiable_actions: Vec::new(),
                previous_actions_taken: Vec::new(),
                is_starting_hand: false,
            };
            new_hand.cards.push(moved_card);
            crate::shoe::deal_from_deck(deck, &mut new_hand);
            proof {
                assert(new_hand.cards@ =~= seq![paircards[1], new_hand.cards@[1]]);
                crate::hand_value::lemma_min_sum_two(new_hand.cards@);
                lemma_hand_value_sound(new_hand.cards@);
            }
            new_hand.avaiable_actions = get_player_actions(state.working_balance, &new_hand);
            h.avaiable_actions = get_player_actions(state.working_balance, &h);
            proof {
                assert(h.wf());
                assert(new_hand.wf());
            }
            state.player.hands.insert(i, h);
            state.player.hands.push(new_hand);
            proof {
                assert(state.player.hands@ =~= ohands.update(i as int, h).push(new_hand));
                lemma_sum_bets_update(ohands, i as int, h);
                lemma_sum_bets_push(ohands.update(i as int, h), new_hand);
            }
        },
    }
    true
}

} // verus!
