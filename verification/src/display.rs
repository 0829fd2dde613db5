//! Textual rendering of hands and action lists. These build the exact
//! strings shown at the table; writing them to the terminal is the
//! caller's business.

use vstd::prelude::*;
use crate::hand_value::spec_valid_ranks;
use crate::models::{Player, PlayerAction, PlayerHand};
use crate::round::get_first_incomplete_hand_index;

verus! {

/// The decimal digit character for `d` in [0, 9].
pub open spec fn spec_digit_char(d: int) -> char {
    if d == 0 {
        '0'
    } else if d == 1 {
        '1'
    } else if d == 2 {
        '2'
    } else if d == 3 {
        '3'
    } else if d == 4 {
        '4'
    } else if d == 5 {
        '5'
    } else if d == 6 {
        '6'
    } else if d == 7 {
        '7'
    } else if d == 8 {
        '8'
    } else {
        '9'
    }
}

/// The decimal rendering of a nonnegative number, most significant digit
/// first.
pub open spec fn spec_dec(n: int) -> Seq<char>
    decreases n,
{
    if n < 10 {
        seq![spec_digit_char(n)]
    } else {
        spec_dec(n / 10) + seq![spec_digit_char(n % 10)]
    }
}

/// The single decimal digit `d` as a string.
fn digit_str(d: u8) -> (s: &'static str)
    requires
        d < 10,
    ensures
        s@ == seq![spec_digit_char(d as int)],
{
    proof {
        reveal_strlit("0");
        reveal_strlit("1");
        reveal_strlit("2");
        reveal_strlit("3");
        reveal_strlit("4");
        reveal_strlit("5");
        reveal_strlit("6");
        reveal_strlit("7");
        reveal_strlit("8");
        reveal_strlit("9");
    }
    match d {
        0 => "0",
        1 => "1",
        2 => "2",
        3 => "3",
        4 => "4",
        5 => "5",
        6 => "6",
        7 => "7",
        8 => "8",
        _ => "9",
    }
}

/// The decimal rendering of `n`.
pub fn usize_to_string(n: usize) -> (s: String)
    ensures
        s@ == spec_dec(n as int),
    decreases n,
{
    if n < 10 {
        String::from_str(digit_str(n as u8))
    } else {
        let mut s = usize_to_string(n / 10);
        s.append(digit_str((n % 10) as u8));
        s
    }
}

/// The rendering of the first `n` cards, separated by single spaces; the
/// separator follows every card but the hand's last.
pub open spec fn spec_cards_prefix(cards: Seq<u8>, n: int) -> Seq<char>
    decreases n,
{
    if n <= 0 {
        Seq::empty()
    } else {
        spec_cards_prefix(cards, n - 1) + spec_dec(cards[n - 1] as int) + (if n - 1 < cards.len()
            - 1 {
            seq![' ']
        } else {
            Seq::empty()
        })
    }
}

/// A hand's cards between brackets: `[c1 c2 ... ck]`.
pub open spec fn spec_hand_chars(cards: Seq<u8>) -> Seq<char> {
    seq!['['] + spec_cards_prefix(cards, cards.len() as int) + seq![']']
}

/// As `spec_cards_prefix`, but the first card replaced by `*` (the
/// dealer's hole card kept hidden).
pub open spec fn spec_cards_prefix_hidden(cards: Seq<u8>, n: int) -> Seq<char>
    decreases n,
{
    if n <= 0 {
        Seq::empty()
    } else {
        spec_cards_prefix_hidden(cards, n - 1) + (if n == 1 {
            seq!['*']
        } else {
            spec_dec(cards[n - 1] as int)
        }) + (if n - 1 < cards.len() - 1 {
            seq![' ']
        } else {
            Seq::empty()
        })
    }
}

/// A hand's cards between brackets with the first card hidden.
pub open spec fn spec_hand_chars_hidden(cards: Seq<u8>) -> Seq<char> {
    seq!['['] + spec_cards_prefix_hidden(cards, cards.len() as int) + seq![']']
}

/// One displayed line for a hand: the owner's name, a separating colon,
/// the bracketed cards, and a trailing `*` marking the active hand.
pub open spec fn spec_hand_line(name: Seq<char>, cards: Seq<u8>, marker: bool) -> Seq<char> {
    name + seq![':', ' '] + spec_hand_chars(cards) + (if marker {
        seq!['*']
    } else {
        Seq::empty()
    })
}

/// Renders one player hand as `name: [cards]`, with a trailing `*` when
/// `display_active_marker` is set.
pub fn print_hand(player_name: &str, hand: &PlayerHand, display_active_marker: bool) -> (line:
    String)
    requires
        spec_valid_ranks(hand.cards@),
    ensures
        line@ == spec_hand_line(player_name@, hand.cards@, display_active_marker),
{
    let mut line = String::from_str(player_name);
    proof {
        reveal_strlit(": ");
        reveal_strlit("[");
        reveal_strlit("]");
        reveal_strlit("*");
    }
    line.append(": ");
    line.append("[");
    let mut i: usize = 0;
    while i < hand.cards.len()
        invariant
            0 <= i <= hand.cards@.len(),
            spec_valid_ranks(hand.cards@),
            line@ == player_name@ + seq![':', ' '] + seq!['['] + spec_cards_prefix(
                hand.cards@,
                i as int,
            ),
        decreases hand.cards@.len() - i,
    {
        let card = hand.cards[i];
        let card_text = usize_to_string(card as usize);
        line.append(card_text.as_str());
        if i < hand.cards.len() - 1 {
            proof {
                reveal_strlit(" ");
            }
            line.append(" ");
        }
        i = i + 1;
    }
    line.append("]");
    if display_active_marker {
        line.append("*");
    }
    proof {
        assert(line@ =~= spec_hand_line(player_name@, hand.cards@, display_active_marker));
    }
    line
}

/// Renders a bare card list as `name: [cards]`, optionally hiding the
/// first card behind `*`, as for the dealer while the round is live.
pub fn print_hand_legacy(player_name: &str, hand: &Vec<u8>, hide_first_card: bool) -> (line: String)
    requires
        spec_valid_ranks(hand@),
    ensures
        !hide_first_card ==> line@ == player_name@ + seq![':', ' '] + spec_hand_chars(hand@),
        hide_first_card ==> line@ == player_name@ + seq![':', ' '] + spec_hand_chars_hidden(hand@),
{
    let mut line = String::from_str(player_name);
    proof {
        reveal_strlit(": ");
        reveal_strlit("[");
        reveal_strlit("]");
        reveal_strlit("*");
        reveal_strlit(" ");
    }
    line.append(": ");
    line.append("[");
    let mut i: usize = 0;
    while i < hand.len()
        invariant
            0 <= i <= hand@.len(),
            spec_valid_ranks(hand@),
            !hide_first_card ==> line@ == player_name@ + seq![':', ' '] + seq!['[']
                + spec_cards_prefix(hand@, i as int),
            hide_first_card ==> line@ == player_name@ + seq![':', ' '] + seq!['[']
                + spec_cards_prefix_hidden(hand@, i as int),
        decreases hand@.len() - i,
    {
        proof {
            reveal_strlit("*");
            reveal_strlit(" ");
        }
        if hide_first_card && i == 0 {
            line.append("*");
        } else {
            let card = hand[i];
            let card_text = usize_to_string(card as usize);
            line.append(card_text.as_str());
        }
        if i < hand.len() - 1 {
            line.append(" ");
        }
        proof {
            if hide_first_card {
                assert(line@ =~= player_name@ + seq![':', ' '] + seq!['[']
                    + spec_cards_prefix_hidden(hand@, i + 1));
            } else {
                assert(line@ =~= player_name@ + seq![':', ' '] + seq!['[']
                    + spec_cards_prefix(hand@, i + 1));
            }
        }
        i = i + 1;
    }
    line.append("]");
    proof {
        if hide_first_card {
            assert(line@ =~= player_name@ + seq![':', ' '] + spec_hand_chars_hidden(hand@));
        } else {
            assert(line@ =~= player_name@ + seq![':', ' '] + spec_hand_chars(hand@));
        }
    }
    line
}

/// The player lines of the table rendering, one per hand and each ended
/// by a newline. With several hands each is labelled by its number, and
/// the one at `active` (if any) carries the `*` marker; a lone hand is
/// labelled plainly with no marker.
pub open spec fn spec_player_lines(hands: Seq<PlayerHand>, n: int, active: int) -> Seq<char>
    decreases n,
{
    if n <= 0 {
        Seq::empty()
    } else if hands.len() > 1 {
        spec_player_lines(hands, n - 1, active) + spec_hand_line(
            "Player hand "@ + spec_dec(n),
            hands[n - 1].cards@,
            n - 1 == active,
        ) + seq!['\n']
    } else {
        spec_player_lines(hands, n - 1, active) + spec_hand_line(
            "Player"@,
            hands[n - 1].cards@,
            false,
        ) + seq!['\n']
    }
}

/// The full table rendering: the dealer's line (hole card hidden on
/// request), then every player hand's line, the active one marked when
/// several hands are in play. Each line ends with a newline.
pub fn print_hands(dealer_hand: &Vec<u8>, player: &Player, hide_first_dealer_card: bool) -> (text:
    String)
    requires
        spec_valid_ranks(dealer_hand@),
        forall|i: int|
            0 <= i < player.hands@.len() ==> spec_valid_ranks(
                (#[trigger] player.hands@[i]).cards@,
            ),
    ensures
        text@ == "Dealer"@ + seq![':', ' '] + (if hide_first_dealer_card {
            spec_hand_chars_hidden(dealer_hand@)
        } else {
            spec_hand_chars(dealer_hand@)
        }) + seq!['\n'] + spec_player_lines(
            player.hands@,
            player.hands@.len() as int,
            match spec_first_incomplete(player.hands@) {
                Some(i) => i,
                None => -1,
            },
        ),
{
    let mut text = print_hand_legacy("Dealer", dealer_hand, hide_first_dealer_card);
    proof {
        reveal_strlit("\n");
    }
    text.append("\n");
    let first_incomplete_hand_index = get_first_incomplete_hand_index(player);
    let ghost active: int = match first_incomplete_hand_index {
        Some(i) => i as int,
        None => -1,
    };
    proof {
        lemma_first_incomplete_matches(player.hands@, first_incomplete_hand_index);
    }
    let many = player.hands.len() > 1;
    let mut i: usize = 0;
    while i < player.hands.len()
        invariant
            0 <= i <= player.hands@.len(),
            many == (player.hands@.len() > 1),
            forall|j: int|
                0 <= j < player.hands@.len() ==> spec_valid_ranks(
                    (#[trigger] player.hands@[j]).cards@,
                ),
            first_incomplete_hand_index matches Some(k) ==> active == k && k
                < player.hands@.len(),
            first_incomplete_hand_index is None ==> active == -1,
            text@ == "Dealer"@ + seq![':', ' '] + (if hide_first_dealer_card {
                spec_hand_chars_hidden(dealer_hand@)
            } else {
                spec_hand_chars(dealer_hand@)
            }) + seq!['\n'] + spec_player_lines(player.hands@, i as int, active),
        decreases player.hands@.len() - i,
    {
        if many {
            proof {
                reveal_strlit("Player hand ");
            }
            let mut label = String::from_str("Player hand ");
            let number = usize_to_string(i + 1);
            label.append(number.as_str());
            let needs_active_marker = match first_incomplete_hand_index {
                Some(val) => i == val,
                None => false,
            };
            let hand_line = print_hand(label.as_str(), &player.hands[i], needs_active_marker);
            text.append(hand_line.as_str());
        } else {
            proof {
                reveal_strlit("Player");
            }
            let hand_line = print_hand("Player", &player.hands[i], false);
            text.append(hand_line.as_str());
        }
        proof {
            reveal_strlit("\n");
        }
        text.append("\n");
        proof {
            assert(text@ =~= "Dealer"@ + seq![':', ' '] + (if hide_first_dealer_card {
                spec_hand_chars_hidden(dealer_hand@)
            } else {
                spec_hand_chars(dealer_hand@)
            }) + seq!['\n'] + spec_player_lines(player.hands@, i + 1, active));
        }
        i = i + 1;
    }
    text
}

/// A helper relating the executable search for the first open hand to the
/// ghost `active` index used by the rendering specification.
pub open spec fn spec_first_incomplete(hands: Seq<PlayerHand>) -> Option<int> {
    if exists|i: int| 0 <= i < hands.len() && !(#[trigger] hands[i]).is_complete_taking_actions {
        Some(
            choose|i: int|
                0 <= i < hands.len() && !(#[trigger] hands[i]).is_complete_taking_actions
                    && forall|j: int|
                    0 <= j < i ==> (#[trigger] hands[j]).is_complete_taking_actions,
        )
    } else {
        None
    }
}

proof fn lemma_first_incomplete_matches(hands: Seq<PlayerHand>, found: Option<usize>)
    requires
        match found {
            Some(i) => i < hands.len() && !hands[i as int].is_complete_taking_actions
                && forall|j: int| 0 <= j < i ==> (#[trigger] hands[j]).is_complete_taking_actions,
            None => forall|j: int|
                0 <= j < hands.len() ==> (#[trigger] hands[j]).is_complete_taking_actions,
        },
    ensures
        match found {
            Some(i) => spec_first_incomplete(hands) == Some(i as int),
            None => spec_first_incomplete(hands) is None,
        },
{
    match found {
        Some(i) => {
            assert(exists|k: int|
                0 <= k < hands.len() && !(#[trigger] hands[k]).is_complete_taking_actions);
            let w = choose|k: int|
                0 <= k < hands.len() && !(#[trigger] hands[k]).is_complete_taking_actions
                    && forall|j: int|
                    0 <= j < k ==> (#[trigger] hands[j]).is_complete_taking_actions;
            assert(0 <= i < hands.len() && !hands[i as int].is_complete_taking_actions
                && forall|j: int|
                0 <= j < i ==> (#[trigger] hands[j]).is_complete_taking_actions);
            if w < i {
                assert(hands[w].is_complete_taking_actions);
            }
            if i < w {
                assert(hands[i as int].is_complete_taking_actions);
            }
        },
        None => {},
    }
}

/// The displayed form of one action.
pub open spec fn spec_action_label(action: PlayerAction) -> Seq<char> {
    match action {
        PlayerAction::Hit => "(h)it"@,
        PlayerAction::Stay => "(s)tay"@,
        PlayerAction::DoubleDown => "(d)ouble down"@,
        PlayerAction::Split => "s(p)lit"@,
    }
}

/// The displayed form of the first `n` actions, joined by single spaces.
pub open spec fn spec_action_line(actions: Seq<PlayerAction>, n: int) -> Seq<char>
    decreases n,
{
    if n <= 0 {
        Seq::empty()
    } else if n == 1 {
        spec_action_label(actions[0])
    } else {
        spec_action_line(actions, n - 1) + seq![' '] + spec_action_label(actions[n - 1])
    }
}

/// Renders an action list for display, each action with its key, joined
/// by spaces: `(h)it (s)tay (d)ouble down s(p)lit`.
pub fn print_player_actions(player_actions: &Vec<PlayerAction>) -> (line: String)
    ensures
        line@ == spec_action_line(player_actions@, player_actions@.len() as int),
{
    proof {
        reveal_strlit("(h)it");
        reveal_strlit("(s)tay");
        reveal_strlit("(d)ouble down");
        reveal_strlit("s(p)lit");
        reveal_strlit(" ");
    }
    let mut line = String::new();
    let mut i: usize = 0;
    while i < player_actions.len()
        invariant
            0 <= i <= player_actions@.len(),
            line@ == spec_action_line(player_actions@, i as int),
        decreases player_actions@.len() - i,
    {
        proof {
            reveal_strlit("(h)it");
            reveal_strlit("(s)tay");
            reveal_strlit("(d)ouble down");
            reveal_strlit("s(p)lit");
            reveal_strlit(" ");
        }
        if i > 0 {
            line.append(" ");
        }
        let label = match player_actions[i] {
            PlayerAction::Hit => "(h)it",
            PlayerAction::Stay => "(s)tay",
            PlayerAction::DoubleDown => "(d)ouble down",
            PlayerAction::Split => "s(p)lit",
        };
        line.append(label);
        proof {
            assert(line@ =~= spec_action_line(player_actions@, i + 1));
        }
        i = i + 1;
    }
    line
}

} // verus!
