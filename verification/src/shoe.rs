//! The shoe: the draw pile of card ranks. Drawing takes the last card;
//! an empty pile transparently refills itself with a freshly shuffled
//! four-suit deck, so draws never fail.

use vstd::prelude::*;
use rand::seq::SliceRandom;
use crate::hand_value::spec_valid_ranks;
use crate::models::PlayerHand;

verus! {

/// One suit of thirteen ranks, face cards normalized to 10.
pub open spec fn spec_suit() -> Seq<u8> {
    seq![1u8, 2u8, 3u8, 4u8, 5u8, 6u8, 7u8, 8u8, 9u8, 10u8, 10u8, 10u8, 10u8]
}

/// The 52 cards of a fresh deck, in the order they are stacked before the
/// shuffle: four suits of thirteen normalized ranks.
pub open spec fn spec_fresh_deck() -> Seq<u8> {
    spec_suit() + spec_suit() + spec_suit() + spec_suit()
}

pub proof fn lemma_fresh_deck_valid()
    ensures
        spec_fresh_deck().len() == 52,
        spec_valid_ranks(spec_fresh_deck()),
{
    assert forall|i: int| 0 <= i < spec_fresh_deck().len() implies 1 <= #[trigger] spec_fresh_deck()[i]
        <= 10 by {
        let j = i % 13;
        assert(0 <= j < 13);
        assert(spec_fresh_deck()[i] == spec_suit()[j]);
        assert(1 <= spec_suit()[j] <= 10);
    }
}

/// A sequence drawn from the same multiset as a rank-valid one is itself
/// rank-valid.
pub proof fn lemma_valid_ranks_from_multiset(a: Seq<u8>, b: Seq<u8>)
    requires
        a.to_multiset() == b.to_multiset(),
        spec_valid_ranks(b),
    ensures
        spec_valid_ranks(a),
{
    broadcast use vstd::seq_lib::group_to_multiset_ensures;

    assert forall|i: int| 0 <= i < a.len() implies 1 <= #[trigger] a[i] <= 10 by {
        assert(a.contains(a[i]));
        assert(a.to_multiset().count(a[i]) > 0);
        assert(b.contains(a[i]));
        let j = choose|j: int| 0 <= j < b.len() && b[j] == a[i];
        assert(1 <= b[j] <= 10);
    }
}

/// Relies on `rand::seq::SliceRandom::shuffle` with `rand::thread_rng`: an
/// in-place permutation of the slice. The resulting order is random, so
/// nothing beyond multiset preservation is promised.
#[verifier::external_body]
fn shuffle_cards(deck: &mut Vec<u8>)
    ensures
        final(deck)@.to_multiset() == old(deck)@.to_multiset(),
{
    deck.as_mut_slice().shuffle(&mut rand::thread_rng());
}

/// Pushes one suit of thirteen normalized ranks onto the pile.
fn push_suit(deck: &mut Vec<u8>)
    ensures
        final(deck)@ == old(deck)@ + spec_suit(),
{
    deck.push(1);
    deck.push(2);
    deck.push(3);
    deck.push(4);
    deck.push(5);
    deck.push(6);
    deck.push(7);
    deck.push(8);
    deck.push(9);
    deck.push(10);
    deck.push(10);
    deck.push(10);
    deck.push(10);
    proof {
        assert(deck@ =~= old(deck)@ + spec_suit());
    }
}

/// Refills an empty pile with a freshly shuffled four-suit deck.
fn shuffle_new_deck(deck: &mut Vec<u8>)
    requires
        old(deck)@.len() == 0,
    ensures
        final(deck)@.to_multiset() == spec_fresh_deck().to_multiset(),
        final(deck)@.len() == 52,
        spec_valid_ranks(final(deck)@),
{
    push_suit(deck);
    push_suit(deck);
    push_suit(deck);
    push_suit(deck);
    proof {
        assert(deck@ =~= spec_fresh_deck());
    }
    shuffle_cards(deck);
    proof {
        broadcast use vstd::seq_lib::group_to_multiset_ensures;

        lemma_fresh_deck_valid();
        lemma_valid_ranks_from_multiset(deck@, spec_fresh_deck());
        assert(deck@.len() == deck@.to_multiset().len());
        assert(spec_fresh_deck().len() == spec_fresh_deck().to_multiset().len());
    }
}

/// What a draw promises: one card in [1, 10] came off the pile. With cards
/// left, the drawn card is the last and the rest stay put; from an empty
/// pile, the card comes out of a fresh 52-card deck whose other 51 cards
/// remain, in an order that the shuffle chose.
pub open spec fn spec_drawn(old_deck: Seq<u8>, new_deck: Seq<u8>, card: u8) -> bool {
    &&& 1 <= card <= 10
    &&& spec_valid_ranks(new_deck)
    &&& (old_deck.len() > 0 ==> new_deck == old_deck.drop_last() && card == old_deck.last())
    &&& (old_deck.len() == 0 ==> new_deck.push(card).to_multiset() == spec_fresh_deck().to_multiset()
        && new_deck.len() == 51)
}

/// Draws the top card of the pile (refilling first if it is empty) into a
/// player hand; nothing else of the hand changes.
pub fn deal_from_deck(deck: &mut Vec<u8>, hand: &mut PlayerHand)
    requires
        spec_valid_ranks(old(deck)@),
    ensures
        final(hand).cards@ == old(hand).cards@.push(final(hand).cards@.last()),
        spec_drawn(old(deck)@, final(deck)@, final(hand).cards@.last()),
        final(hand).bet == old(hand).bet,
        final(hand).payout == old(hand).payout,
        final(hand).is_complete_taking_actions == old(hand).is_complete_taking_actions,
        final(hand).avaiable_actions == old(hand).avaiable_actions,
        final(hand).previous_actions_taken == old(hand).previous_actions_taken,
        final(hand).is_starting_hand == old(hand).is_starting_hand,
{
    let card = draw_card(deck);
    hand.cards.push(card);
}

/// Draws the top card of the pile (refilling first if it is empty) into a
/// bare card list, as used for the dealer's hand.
pub fn deal_from_deck_legacy(deck: &mut Vec<u8>, hand: &mut Vec<u8>)
    requires
        spec_valid_ranks(old(deck)@),
    ensures
        final(hand)@ == old(hand)@.push(final(hand)@.last()),
        spec_drawn(old(deck)@, final(deck)@, final(hand)@.last()),
{
    let card = draw_card(deck);
    hand.push(card);
}

/// Takes the top card off the pile, refilling an empty pile first.
fn draw_card(deck: &mut Vec<u8>) -> (card: u8)
    requires
        spec_valid_ranks(old(deck)@),
    ensures
        spec_drawn(old(deck)@, final(deck)@, card),
{
    if deck.len() == 0 {
        shuffle_new_deck(deck);
        let ghost full = deck@;
        let card = deck.pop().unwrap();
        proof {
            assert(full.drop_last().push(full.last()) =~= full);
            assert(spec_valid_ranks(full.drop_last())) by {
                assert(forall|i: int|
                    0 <= i < full.len() - 1 ==> full.drop_last()[i] == #[trigger] full[i]);
            }
        }
        card
    } else {
        let ghost full = deck@;
        let card = deck.pop().unwrap();
        proof {
            assert(spec_valid_ranks(full.drop_last())) by {
                assert(forall|i: int|
                    0 <= i < full.len() - 1 ==> full.drop_last()[i] == #[trigger] full[i]);
            }
        }
        card
    }
}

} // verus!
