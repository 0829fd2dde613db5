//! Hand evaluation: the best blackjack total of a sequence of card ranks,
//! counting each ace as 1 or 11 so that the total stays at or below 21
//! whenever that is possible.

use vstd::prelude::*;

verus! {

/// Every rank is a normalized card value in [1, 10] (aces are 1, face cards 10).
pub open spec fn spec_valid_ranks(cards: Seq<u8>) -> bool {
    forall|i: int| 0 <= i < cards.len() ==> 1 <= #[trigger] cards[i] <= 10
}

/// The minimum total of a hand: every ace counted as 1.
pub open spec fn spec_min_sum(cards: Seq<u8>) -> int
    decreases cards.len(),
{
    if cards.len() == 0 {
        0
    } else {
        spec_min_sum(cards.drop_last()) + cards.last()
    }
}

/// How many aces (rank 1) a hand holds.
pub open spec fn spec_ace_count(cards: Seq<u8>) -> int
    decreases cards.len(),
{
    if cards.len() == 0 {
        0int
    } else {
        spec_ace_count(cards.drop_last()) + if cards.last() == 1u8 {
            1int
        } else {
            0int
        }
    }
}

/// How many aces are promoted from 1 to 11 (worth +10 each): as many as the
/// hand holds, but never so many that the total would pass 21.
pub open spec fn spec_promotions(cards: Seq<u8>) -> int {
    let min_total = spec_min_sum(cards);
    let usable = if min_total >= 21 {
        0int
    } else {
        (21 - min_total) / 10
    };
    if spec_ace_count(cards) <= usable {
        spec_ace_count(cards)
    } else {
        usable
    }
}

/// The value of a hand: the minimum total plus 10 for every promoted ace.
/// This is the best total not exceeding 21 when one exists, and the
/// minimum total (signalling a bust) otherwise.
pub open spec fn spec_hand_value(cards: Seq<u8>) -> int {
    spec_min_sum(cards) + 10 * spec_promotions(cards)
}

pub proof fn lemma_ace_count_bounds(cards: Seq<u8>)
    ensures
        0 <= spec_ace_count(cards) <= cards.len(),
    decreases cards.len(),
{
    if cards.len() > 0 {
        lemma_ace_count_bounds(cards.drop_last());
    }
}

proof fn lemma_min_sum_nonneg(cards: Seq<u8>)
    ensures
        spec_min_sum(cards) >= 0,
    decreases cards.len(),
{
    if cards.len() > 0 {
        lemma_min_sum_nonneg(cards.drop_last());
    }
}

/// The value of a hand is always an achievable total: the all-aces-low
/// minimum plus ten for each of some number of the aces actually held.
/// With no aces the value is exactly the arithmetic sum of the ranks.
/// Whenever some choice of promotions stays at or below 21, the value does;
/// otherwise the value is the minimum total itself.
pub proof fn lemma_hand_value_sound(cards: Seq<u8>)
    ensures
        0 <= spec_promotions(cards) <= spec_ace_count(cards),
        spec_hand_value(cards) == spec_min_sum(cards) + 10 * spec_promotions(cards),
        spec_ace_count(cards) == 0 ==> spec_hand_value(cards) == spec_min_sum(cards),
        spec_min_sum(cards) <= 21 ==> spec_hand_value(cards) <= 21,
        spec_min_sum(cards) > 21 ==> spec_hand_value(cards) == spec_min_sum(cards),
{
    lemma_ace_count_bounds(cards);
    lemma_min_sum_nonneg(cards);
    let k = spec_promotions(cards);
    assert(0 <= k <= spec_ace_count(cards));
    let min_total = spec_min_sum(cards);
    if min_total <= 21 {
        if min_total < 21 {
            assert(10 * ((21 - min_total) / 10) <= 21 - min_total) by (nonlinear_arith)
                requires
                    min_total < 21,
            ;
            assert(k <= (21 - min_total) / 10);
            assert(10 * k <= 10 * ((21 - min_total) / 10)) by (nonlinear_arith)
                requires
                    k <= (21 - min_total) / 10,
            ;
        }
    }
}

/// No smaller choice of ace promotions beats the evaluator: any number of
/// promoted aces that keeps the total at or below 21 gives a total no
/// greater than the hand's value.
pub proof fn lemma_hand_value_best(cards: Seq<u8>, k: int)
    requires
        0 <= k <= spec_ace_count(cards),
        spec_min_sum(cards) + 10 * k <= 21,
    ensures
        spec_min_sum(cards) + 10 * k <= spec_hand_value(cards),
{
    let min_total = spec_min_sum(cards);
    if k > 0 {
        lemma_min_sum_nonneg(cards);
        assert(min_total < 21);
        assert(k <= (21 - min_total) / 10) by (nonlinear_arith)
            requires
                10 * k <= 21 - min_total,
                k >= 0,
        ;
        assert(spec_promotions(cards) >= k);
        assert(10 * spec_promotions(cards) >= 10 * k) by (nonlinear_arith)
            requires
                spec_promotions(cards) >= k,
        ;
    }
}

/// A hand's value exceeds 21 exactly when even its minimum total does;
/// in that case the two are equal.
pub proof fn lemma_bust_iff_min_bust(cards: Seq<u8>)
    ensures
        spec_hand_value(cards) > 21 <==> spec_min_sum(cards) > 21,
        spec_min_sum(cards) > 21 ==> spec_hand_value(cards) == spec_min_sum(cards),
{
    lemma_hand_value_sound(cards);
}

/// The best blackjack total of `cards`: the sum with every ace low, plus 10
/// for each ace that can be promoted to 11 without passing 21.
pub fn get_hand_sum_legacy(cards: &Vec<u8>) -> (total: u8)
    requires
        spec_valid_ranks(cards@),
        spec_min_sum(cards@) <= 255,
    ensures
        total == spec_hand_value(cards@),
{
    proof {
        lemma_min_sum_nonneg(cards@);
    }
    let mut min_sum: u8 = 0;
    let mut number_of_aces: u8 = 0;
    let mut i: usize = 0;
    while i < cards.len()
        invariant
            0 <= i <= cards.len(),
            spec_valid_ranks(cards@),
            spec_min_sum(cards@) <= 255,
            min_sum == spec_min_sum(cards@.take(i as int)),
            number_of_aces == spec_ace_count(cards@.take(i as int)),
        decreases cards.len() - i,
    {
        proof {
            assert(cards@.take(i + 1).drop_last() =~= cards@.take(i as int));
            assert(cards@.take(i + 1).last() == cards@[i as int]);
            lemma_min_sum_prefix_le(cards@, i + 1);
            lemma_min_sum_nonneg(cards@.take(i as int));
            lemma_ace_count_bounds(cards@.take(i as int));
            lemma_ace_count_le_min_sum(cards@.take(i + 1));
        }
        min_sum = min_sum + cards[i];
        if cards[i] == 1 {
            number_of_aces = number_of_aces + 1;
        }
        i = i + 1;
    }
    proof {
        assert(cards@.take(cards.len() as int) =~= cards@);
    }
    let max_ace_10_padding: u8 = (21u8.saturating_sub(min_sum)) / 10;
    let ace_adjustment: u8 = if number_of_aces < max_ace_10_padding {
        number_of_aces
    } else {
        max_ace_10_padding
    };
    proof {
        if min_sum < 21 {
            assert(10 * ((21 - min_sum as int) / 10) <= 21 - min_sum as int) by (nonlinear_arith)
                requires
                    min_sum < 21,
            ;
        }
    }
    min_sum + ace_adjustment * 10
}

/// Every prefix of a hand has a minimum total no greater than the whole
/// hand's, provided ranks are nonnegative (they are `u8`s).
proof fn lemma_min_sum_prefix_le(cards: Seq<u8>, n: int)
    requires
        0 <= n <= cards.len(),
    ensures
        spec_min_sum(cards.take(n)) <= spec_min_sum(cards),
    decreases cards.len() - n,
{
    if n < cards.len() {
        lemma_min_sum_prefix_le(cards, n + 1);
        assert(cards.take(n + 1).drop_last() =~= cards.take(n));
        assert(cards.take(n + 1).last() == cards[n]);
    } else {
        assert(cards.take(n) =~= cards);
    }
}

/// A hand never holds more aces than its minimum total.
proof fn lemma_ace_count_le_min_sum(cards: Seq<u8>)
    ensures
        spec_ace_count(cards) <= spec_min_sum(cards),
    decreases cards.len(),
{
    if cards.len() > 0 {
        lemma_ace_count_le_min_sum(cards.drop_last());
    }
}


/// The minimum total of a two-card hand is the sum of its two ranks.
pub proof fn lemma_min_sum_two(s: Seq<u8>)
    requires
        s.len() == 2,
    ensures
        spec_min_sum(s) == s[0] + s[1],
{
    let s1 = s.drop_last();
    let s0 = s1.drop_last();
    assert(s0.len() == 0);
    assert(spec_min_sum(s0) == 0);
    assert(spec_min_sum(s1) == spec_min_sum(s0) + s1.last());
    assert(spec_min_sum(s) == spec_min_sum(s1) + s.last());
    assert(s1.last() == s[0]);
    assert(s.last() == s[1]);
}

} // verus!
