//! The data model of a round: card-holding hands with wagers and action
//! history, the player who owns them, and the persisted chip balance.

use vstd::prelude::*;
use crate::hand_value::{spec_valid_ranks, spec_min_sum, spec_hand_value};

verus! {

/// The largest balance a round accepts. Wagers never exceed the balance, so
/// every bet, every doubled bet, every blackjack bonus and the aggregate
/// payout of a round stay within `i32` when the balance starts at or below
/// this cap.
pub const MAX_ROUND_BALANCE: i32 = 0x3fff_ffff;

/// One of the four moves a player may make on a hand.
#[derive(Clone, Copy, Debug, PartialEq, Eq, Structural)]
pub enum PlayerAction {
    Hit,
    Stay,
    DoubleDown,
    Split,
}

/// The player's durable record: the chip balance carried between rounds.
pub struct PlayerProfile {
    pub balance: i32,
}

/// One blackjack hand: its cards in draw order, its wager, its settled
/// payout (absent until resolved), whether the player is done acting on it,
/// the actions currently offered, the actions already taken, and whether it
/// is an original (non-split) hand.
pub struct PlayerHand {
    pub cards: Vec<u8>,
    pub bet: i32,
    pub payout: Option<i32>,
    pub is_complete_taking_actions: bool,
    pub avaiable_actions: Vec<PlayerAction>,
    pub previous_actions_taken: Vec<PlayerAction>,
    pub is_starting_hand: bool,
}

/// The player: one hand at round start, more after splits.
pub struct Player {
    pub hands: Vec<PlayerHand>,
}

impl PlayerHand {
    /// Well-formedness of a hand, preserved by every engine step: ranks are
    /// in range, the wager is positive and capped, the minimum total is small
    /// enough that evaluation cannot overflow, a hand still taking actions
    /// has not busted, and a settled payout implies the hand is complete and
    /// lies between losing the wager and the 3:2 blackjack bonus.
    pub open spec fn wf(self) -> bool {
        &&& spec_valid_ranks(self.cards@)
        &&& 1 <= self.bet <= MAX_ROUND_BALANCE
        &&& spec_min_sum(self.cards@) <= 31
        &&& (!self.is_complete_taking_actions ==> spec_hand_value(self.cards@) <= 21)
        &&& (self.payout is Some ==> self.is_complete_taking_actions)
        &&& (self.payout is Some ==> -self.bet <= self.payout->0 <= self.bet + self.bet / 2)
    }
}

/// The total of all wagers currently riding on the player's hands.
pub open spec fn spec_sum_bets(hands: Seq<PlayerHand>) -> int
    decreases hands.len(),
{
    if hands.len() == 0 {
        0
    } else {
        spec_sum_bets(hands.drop_last()) + hands.last().bet
    }
}

/// The sum of every hand's settled payout.
pub open spec fn spec_total_payout(hands: Seq<PlayerHand>) -> int
    decreases hands.len(),
{
    if hands.len() == 0 {
        0
    } else {
        spec_total_payout(hands.drop_last()) + hands.last().payout->0
    }
}

impl Player {
    pub open spec fn wf(self) -> bool {
        &&& self.hands@.len() >= 1
        &&& forall|i: int| 0 <= i < self.hands@.len() ==> (#[trigger] self.hands@[i]).wf()
    }
}

pub proof fn lemma_sum_bets_nonneg(hands: Seq<PlayerHand>)
    requires
        forall|i: int| 0 <= i < hands.len() ==> (#[trigger] hands[i]).bet >= 0,
    ensures
        spec_sum_bets(hands) >= 0,
    decreases hands.len(),
{
    if hands.len() > 0 {
        lemma_sum_bets_nonneg(hands.drop_last());
    }
}

/// With nonnegative wagers, every single wager is at most the sum of all.
pub proof fn lemma_bet_le_sum_bets(hands: Seq<PlayerHand>, i: int)
    requires
        forall|j: int| 0 <= j < hands.len() ==> (#[trigger] hands[j]).bet >= 0,
        0 <= i < hands.len(),
    ensures
        hands[i].bet <= spec_sum_bets(hands),
    decreases hands.len(),
{
    if i == hands.len() - 1 {
        lemma_sum_bets_nonneg(hands.drop_last());
    } else {
        lemma_bet_le_sum_bets(hands.drop_last(), i);
    }
}

/// Changing one hand changes the wager sum by the difference of that hand's
/// wager.
pub proof fn lemma_sum_bets_update(hands: Seq<PlayerHand>, i: int, h: PlayerHand)
    requires
        0 <= i < hands.len(),
    ensures
        spec_sum_bets(hands.update(i, h)) == spec_sum_bets(hands) - hands[i].bet + h.bet,
    decreases hands.len(),
{
    let updated = hands.update(i, h);
    if i == hands.len() - 1 {
        assert(updated.drop_last() =~= hands.drop_last());
    } else {
        assert(updated.drop_last() =~= hands.drop_last().update(i, h));
        lemma_sum_bets_update(hands.drop_last(), i, h);
    }
}

/// Appending a hand adds its wager to the sum.
pub proof fn lemma_sum_bets_push(hands: Seq<PlayerHand>, h: PlayerHand)
    ensures
        spec_sum_bets(hands.push(h)) == spec_sum_bets(hands) + h.bet,
{
    assert(hands.push(h).drop_last() =~= hands);
}

} // verus!
