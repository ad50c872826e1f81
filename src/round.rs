use vstd::prelude::*;
use crate::card::{Card, Hand, all_wf, card_value, hand_value, lemma_total_push, rank_points, total};
use crate::shoe::Shoe;

verus! {

/// The side that won a round, or a tie.
#[derive(Clone, Copy, Debug, PartialEq, Eq, Structural)]
pub enum Outcome {
    Player,
    Dealer,
    Tie,
}

/// The player's first two cards: the first and third of the shoe.
pub open spec fn initial_player(s: Seq<Card>) -> Seq<Card> {
    seq![s[0], s[2]]
}

/// The dealer's first two cards: the second and fourth of the shoe.
pub open spec fn initial_dealer(s: Seq<Card>) -> Seq<Card> {
    seq![s[1], s[3]]
}

/// Either side's first two cards are worth more than seven: nobody draws.
pub open spec fn is_natural(s: Seq<Card>) -> bool {
    total(initial_player(s)) > 7 || total(initial_dealer(s)) > 7
}

/// A side whose hand is worth `value` draws from position `i` on, one card at a
/// time, while its value is under six. The position after its last card, or
/// `None` when the shoe runs out first.
pub open spec fn stop_at(s: Seq<Card>, i: nat, value: nat) -> Option<nat>
    decreases s.len() - i,
{
    if value >= 6 {
        Some(i)
    } else if i >= s.len() {
        None
    } else {
        stop_at(s, i + 1, (value + rank_points(s[i as int].rank)) % 10)
    }
}

/// Where the player's drawing ends.
pub open spec fn player_stop(s: Seq<Card>) -> Option<nat> {
    stop_at(s, 4, total(initial_player(s)))
}

/// Where the dealer's drawing ends: it starts where the player's ended.
pub open spec fn dealer_stop(s: Seq<Card>) -> Option<nat> {
    match player_stop(s) {
        Some(p) => stop_at(s, p, total(initial_dealer(s))),
        None => None,
    }
}

/// The shoe holds every card that a round dealt from it asks for.
pub open spec fn round_fits(s: Seq<Card>) -> bool {
    &&& s.len() >= 4
    &&& (is_natural(s) || dealer_stop(s) is Some)
}

/// How many cards a round takes from the front of the shoe.
pub open spec fn consumed(s: Seq<Card>) -> nat {
    if is_natural(s) {
        4
    } else {
        dealer_stop(s)->Some_0
    }
}

/// The player's finished hand.
pub open spec fn player_cards(s: Seq<Card>) -> Seq<Card> {
    if is_natural(s) {
        initial_player(s)
    } else {
        initial_player(s) + s.subrange(4, player_stop(s)->Some_0 as int)
    }
}

/// The dealer's finished hand.
pub open spec fn dealer_cards(s: Seq<Card>) -> Seq<Card> {
    if is_natural(s) {
        initial_dealer(s)
    } else {
        initial_dealer(s) + s.subrange(
            player_stop(s)->Some_0 as int,
            dealer_stop(s)->Some_0 as int,
        )
    }
}

/// The outcome of a round from the two hand values.
pub open spec fn outcome_of(player: nat, dealer: nat) -> Outcome {
    if player == dealer {
        Outcome::Tie
    } else if player > dealer {
        Outcome::Player
    } else {
        Outcome::Dealer
    }
}

/// The outcome of the round dealt from the front of the shoe.
pub open spec fn round_outcome(s: Seq<Card>) -> Outcome {
    outcome_of(total(player_cards(s)), total(dealer_cards(s)))
}

/// Draws into `hand` from position `i` on while its value is under six, and
/// returns the position after the last card drawn.
fn draw_while_under_six(cards: &Vec<Card>, hand: &mut Hand, i: usize) -> (r: usize)
    requires
        all_wf(cards@),
        all_wf(old(hand).cards@),
        i <= cards@.len(),
        stop_at(cards@, i as nat, total(old(hand).cards@)) is Some,
    ensures
        r as nat == stop_at(cards@, i as nat, total(old(hand).cards@))->Some_0,
        i <= r <= cards@.len(),
        final(hand).cards@ == old(hand).cards@ + cards@.subrange(i as int, r as int),
        total(final(hand).cards@) >= 6,
        all_wf(final(hand).cards@),
{
    let ghost goal = stop_at(cards@, i as nat, total(old(hand).cards@));
    let ghost start = old(hand).cards@;
    let mut j: usize = i;
    while hand_value(hand) < 6
        invariant
            all_wf(cards@),
            all_wf(hand.cards@),
            i <= j <= cards.len(),
            hand.cards@ == start + cards@.subrange(i as int, j as int),
            stop_at(cards@, j as nat, total(hand.cards@)) == goal,
            goal is Some,
        decreases cards@.len() - j,
    {
        assert(j < cards@.len());
        let c = cards[j];
        proof {
            lemma_total_push(hand.cards@, c);
            assert(cards@.subrange(i as int, j + 1) =~= cards@.subrange(i as int, j as int).push(
                c,
            ));
        }
        hand.cards.push(c);
        j += 1;
    }
    j
}

/// Where a side that holds `value` and draws from position `i` on stops, as a
/// position of the shoe; `None` when the shoe runs out first.
fn stop_position(cards: &Vec<Card>, i: usize, value: u8) -> (r: Option<usize>)
    requires
        all_wf(cards@),
        i <= cards@.len(),
        value < 10,
    ensures
        match r {
            Some(j) => stop_at(cards@, i as nat, value as nat) == Some(j as nat) && j <= cards@.len(),
            None => stop_at(cards@, i as nat, value as nat) is None,
        },
{
    let mut j: usize = i;
    let mut v: u8 = value;
    while v < 6
        invariant
            all_wf(cards@),
            i <= j <= cards.len(),
            v < 10,
            stop_at(cards@, j as nat, v as nat) == stop_at(cards@, i as nat, value as nat),
        decreases cards@.len() - j,
    {
        if j >= cards.len() {
            return None;
        }
        v = (v + card_value(&cards[j])) % 10;
        j += 1;
    }
    Some(j)
}

/// Whether a round can be dealt from the shoe: it holds the four opening cards
/// and every card that the drawing rules then ask for.
pub fn can_deal(shoe: &Shoe) -> (r: bool)
    requires
        all_wf(shoe.cards@),
    ensures
        r == round_fits(shoe.cards@),
{
    let cards = &shoe.cards;
    if cards.len() < 4 {
        return false;
    }
    let player = Hand { cards: vec![cards[0], cards[2]] };
    let dealer = Hand { cards: vec![cards[1], cards[3]] };
    assert(player.cards@ =~= initial_player(cards@));
    assert(dealer.cards@ =~= initial_dealer(cards@));
    let pv = hand_value(&player);
    let dv = hand_value(&dealer);
    if pv > 7 || dv > 7 {
        return true;
    }
    match stop_position(cards, 4, pv) {
        Some(p) => stop_position(cards, p, dv).is_some(),
        None => false,
    }
}

/// Deals one round from the front of the shoe: two cards to each side in turn,
/// then, unless either side holds a natural, the player and after it the dealer
/// draw while under six. The cards dealt leave the shoe.
pub fn play_hand(shoe: Shoe) -> (r: (Shoe, Hand, Hand))
    requires
        all_wf(shoe.cards@),
        round_fits(shoe.cards@),
    ensures
        r.0.cards@ == shoe.cards@.skip(consumed(shoe.cards@) as int),
        r.1.cards@ == player_cards(shoe.cards@),
        r.2.cards@ == dealer_cards(shoe.cards@),
        all_wf(r.0.cards@),
        all_wf(r.1.cards@),
        all_wf(r.2.cards@),
        4 <= consumed(shoe.cards@) <= shoe.cards@.len(),
        is_natural(shoe.cards@) ==> r.1.cards@.len() == 2 && r.2.cards@.len() == 2
            && r.0.cards@.len() == shoe.cards@.len() - 4,
        !is_natural(shoe.cards@) ==> total(r.1.cards@) >= 6 && total(r.2.cards@) >= 6,
{
    let ghost s = shoe.cards@;
    let mut cards = shoe.cards;
    let mut player = Hand { cards: Vec::new() };
    let mut dealer = Hand { cards: Vec::new() };
    player.cards.push(cards[0]);
    dealer.cards.push(cards[1]);
    player.cards.push(cards[2]);
    dealer.cards.push(cards[3]);
    assert(player.cards@ =~= initial_player(s));
    assert(dealer.cards@ =~= initial_dealer(s));
    if hand_value(&player) > 7 || hand_value(&dealer) > 7 {
        let rest = cards.split_off(4);
        assert(rest@ =~= s.skip(4));
        return (Shoe { cards: rest }, player, dealer);
    }
    let p = draw_while_under_six(&cards, &mut player, 4);
    let d = draw_while_under_six(&cards, &mut dealer, p);
    let rest = cards.split_off(d);
    assert(rest@ =~= s.skip(d as int));
    (Shoe { cards: rest }, player, dealer)
}

/// Classifies a finished round by comparing the two hand values.
pub fn check_outcome(player_hand: &Hand, dealer_hand: &Hand) -> (r: Outcome)
    requires
        all_wf(player_hand.cards@),
        all_wf(dealer_hand.cards@),
    ensures
        r == outcome_of(total(player_hand.cards@), total(dealer_hand.cards@)),
{
    let p = hand_value(player_hand);
    let d = hand_value(dealer_hand);
    if p == d {
        Outcome::Tie
    } else if p > d {
        Outcome::Player
    } else {
        Outcome::Dealer
    }
}

} // verus!
