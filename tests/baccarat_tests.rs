use baccarat::card::{card_value, hand_value, Card, Hand, Suit};
use baccarat::game::{cut_bounds, cut_card_position, play_shoe, Tally};
use baccarat::round::{can_deal, check_outcome, play_hand, Outcome};
use baccarat::shoe::{create_deck, create_shoe, Deck, Shoe};

const SUITS: [Suit; 4] = [Suit::Spades, Suit::Clubs, Suit::Hearts, Suit::Diamonds];

fn card(rank: u8) -> Card {
    Card { rank, suit: Suit::Hearts }
}

fn hand(ranks: &[u8]) -> Hand {
    Hand { cards: ranks.iter().map(|r| card(*r)).collect() }
}

fn shoe(ranks: &[u8]) -> Shoe {
    Shoe { cards: ranks.iter().map(|r| card(*r)).collect() }
}

fn ranks(cards: &[Card]) -> Vec<u8> {
    cards.iter().map(|c| c.rank).collect()
}

fn count_of(cards: &[Card], rank: u8, suit: Suit) -> usize {
    cards.iter().filter(|c| c.rank == rank && c.suit == suit).count()
}

#[test]
fn card_value_of_pip_ranks_is_the_rank() {
    for r in 1..=9u8 {
        assert_eq!(card_value(&card(r)), r);
    }
}

#[test]
fn card_value_of_ten_and_court_cards_is_ten() {
    for r in 10..=13u8 {
        assert_eq!(card_value(&card(r)), 10);
    }
}

#[test]
fn card_new_checks_the_rank() {
    assert_eq!(Card::new(0, Suit::Spades), None);
    assert_eq!(Card::new(14, Suit::Spades), None);
    assert_eq!(Card::new(1, Suit::Clubs), Some(Card { rank: 1, suit: Suit::Clubs }));
    assert_eq!(Card::new(13, Suit::Diamonds), Some(Card { rank: 13, suit: Suit::Diamonds }));
}

#[test]
fn hand_value_of_five_king_two_is_seven() {
    assert_eq!(hand_value(&hand(&[5, 13, 2])), 7);
}

#[test]
fn hand_value_reduces_modulo_ten() {
    assert_eq!(hand_value(&hand(&[])), 0);
    assert_eq!(hand_value(&hand(&[10, 11])), 0);
    assert_eq!(hand_value(&hand(&[9, 9, 9])), 7);
    assert_eq!(hand_value(&hand(&[4, 6])), 0);
}

#[test]
fn ordered_deck_lays_out_suits_then_ranks() {
    let deck = Deck::ordered();
    assert_eq!(deck.cards.len(), 52);
    assert_eq!(deck.cards[0], Card { rank: 1, suit: Suit::Spades });
    assert_eq!(deck.cards[12], Card { rank: 13, suit: Suit::Spades });
    assert_eq!(deck.cards[13], Card { rank: 1, suit: Suit::Clubs });
    assert_eq!(deck.cards[26], Card { rank: 1, suit: Suit::Hearts });
    assert_eq!(deck.cards[51], Card { rank: 13, suit: Suit::Diamonds });
}

#[test]
fn shuffled_deck_is_a_permutation_of_the_base_deck() {
    let deck = create_deck();
    assert_eq!(deck.cards.len(), 52);
    for suit in SUITS {
        for r in 1..=13u8 {
            assert_eq!(count_of(&deck.cards, r, suit), 1);
        }
    }
}

#[test]
fn shuffled_decks_differ_from_base_order() {
    let base = Deck::ordered();
    let moved = (0..5).any(|_| create_deck().cards != base.cards);
    assert!(moved);
}

#[test]
fn deck_shuffle_keeps_the_cards() {
    let mut deck = Deck::ordered();
    deck.shuffle();
    let mut got = deck.cards.clone();
    got.sort_by_key(|c| (c.rank, c.suit as u8));
    let mut want = Deck::ordered().cards;
    want.sort_by_key(|c| (c.rank, c.suit as u8));
    assert_eq!(got, want);
}

#[test]
fn shoe_of_eight_decks_holds_eight_of_each_card() {
    let s = create_shoe(8);
    assert_eq!(s.cards.len(), 416);
    for suit in SUITS {
        for r in 1..=13u8 {
            assert_eq!(count_of(&s.cards, r, suit), 8);
        }
    }
}

#[test]
fn shoe_decks_are_shuffled_one_by_one() {
    let s = create_shoe(3);
    assert_eq!(s.cards.len(), 156);
    for block in s.cards.chunks(52) {
        for suit in SUITS {
            for r in 1..=13u8 {
                assert_eq!(count_of(block, r, suit), 1);
            }
        }
    }
}

#[test]
fn shoe_of_no_decks_is_empty() {
    assert!(create_shoe(0).cards.is_empty());
}

#[test]
fn natural_stops_all_drawing() {
    // player 9 + 10 = 9, dealer 2 + 3 = 5
    let (rest, p, d) = play_hand(shoe(&[9, 2, 10, 3, 4, 5, 6]));
    assert_eq!(ranks(&p.cards), vec![9, 10]);
    assert_eq!(ranks(&d.cards), vec![2, 3]);
    assert_eq!(ranks(&rest.cards), vec![4, 5, 6]);
}

#[test]
fn dealer_natural_stops_player_drawing() {
    // player 1 + 2 = 3, dealer 4 + 4 = 8
    let (rest, p, d) = play_hand(shoe(&[1, 4, 2, 4, 7]));
    assert_eq!(p.cards.len(), 2);
    assert_eq!(d.cards.len(), 2);
    assert_eq!(ranks(&rest.cards), vec![7]);
}

#[test]
fn one_draw_each_side_takes_six_cards() {
    // player 2 + 3 = 5 draws 1 -> 6; dealer 1 + 4 = 5 draws 2 -> 7
    let (rest, p, d) = play_hand(shoe(&[2, 1, 3, 4, 1, 2, 7, 8]));
    assert_eq!(ranks(&p.cards), vec![2, 3, 1]);
    assert_eq!(ranks(&d.cards), vec![1, 4, 2]);
    assert_eq!(ranks(&rest.cards), vec![7, 8]);
    assert_eq!(hand_value(&p), 6);
    assert_eq!(hand_value(&d), 7);
}

#[test]
fn drawing_continues_through_ten_valued_cards() {
    // player 2 + 2 = 4 draws 10, 12 and then 3 -> 7; dealer 3 + 3 = 6 stands
    let (rest, p, d) = play_hand(shoe(&[2, 3, 2, 3, 10, 12, 3, 9]));
    assert_eq!(ranks(&p.cards), vec![2, 2, 10, 12, 3]);
    assert_eq!(ranks(&d.cards), vec![3, 3]);
    assert_eq!(ranks(&rest.cards), vec![9]);
}

#[test]
fn can_deal_checks_what_the_rules_ask_for() {
    assert!(!can_deal(&shoe(&[9, 2, 10])));
    assert!(can_deal(&shoe(&[9, 2, 10, 3])));
    assert!(!can_deal(&shoe(&[2, 1, 3, 4])));
    assert!(!can_deal(&shoe(&[2, 1, 3, 4, 1])));
    assert!(can_deal(&shoe(&[2, 1, 3, 4, 1, 2])));
}

#[test]
fn outcome_of_equal_values_is_a_tie() {
    assert_eq!(check_outcome(&hand(&[5]), &hand(&[2, 3])), Outcome::Tie);
}

#[test]
fn outcome_of_higher_player_value_is_player() {
    assert_eq!(check_outcome(&hand(&[7]), &hand(&[3])), Outcome::Player);
}

#[test]
fn outcome_of_higher_dealer_value_is_dealer() {
    assert_eq!(check_outcome(&hand(&[2]), &hand(&[8])), Outcome::Dealer);
}

#[test]
fn cut_bounds_of_eight_decks() {
    assert_eq!(cut_bounds(416), (291, 374));
    assert_eq!(cut_bounds(52), (36, 46));
    assert_eq!(cut_bounds(0), (0, 0));
}

#[test]
fn cut_card_falls_within_bounds() {
    let mut seen = std::collections::BTreeSet::new();
    for _ in 0..200 {
        let c = cut_card_position(416);
        assert!((291..374).contains(&c));
        seen.insert(c);
    }
    assert!(seen.len() > 1);
}

#[test]
fn play_shoe_counts_each_round() {
    // three natural rounds, each won by the player (9 against 5)
    let s = shoe(&[9, 2, 10, 3, 9, 2, 10, 3, 9, 2, 10, 3]);
    let t = play_shoe(s, 12);
    assert_eq!(t, Tally { player_wins: 3, dealer_wins: 0, ties: 0 });
}

#[test]
fn play_shoe_stops_at_the_cut_card() {
    let s = shoe(&[9, 2, 10, 3, 9, 2, 10, 3, 9, 2, 10, 3]);
    let t = play_shoe(s, 8);
    assert_eq!(t, Tally { player_wins: 2, dealer_wins: 0, ties: 0 });
}

#[test]
fn play_shoe_never_deals_a_round_that_does_not_fit() {
    // a natural round, then five cards that run out during the draws
    let s = shoe(&[9, 2, 10, 3, 2, 1, 3, 4, 1]);
    let t = play_shoe(s, 9);
    assert_eq!(t, Tally { player_wins: 1, dealer_wins: 0, ties: 0 });
}

#[test]
fn play_shoe_classifies_every_outcome() {
    // dealer natural (3 vs 8), tie (6 vs 6), one draw each (6 vs 7)
    let s = shoe(&[1, 4, 2, 4, 3, 2, 3, 4, 2, 1, 3, 4, 1, 2]);
    let t = play_shoe(s, 14);
    assert_eq!(t, Tally { player_wins: 0, dealer_wins: 2, ties: 1 });
}

#[test]
fn play_shoe_of_a_real_shoe_plays_rounds() {
    let s = create_shoe(8);
    let cut = cut_card_position(s.cards.len());
    let t = play_shoe(s, cut);
    let rounds = t.player_wins + t.dealer_wins + t.ties;
    assert!(rounds >= 291 / 12);
    assert!(rounds <= 374 / 4 + 1);
}

#[test]
fn tally_combine_adds_and_detects_overflow() {
    let a = Tally { player_wins: 1, dealer_wins: 2, ties: 3 };
    let b = Tally { player_wins: 10, dealer_wins: 20, ties: 30 };
    assert_eq!(a.combine(&b), Some(Tally { player_wins: 11, dealer_wins: 22, ties: 33 }));
    let big = Tally { player_wins: usize::MAX, dealer_wins: 0, ties: 0 };
    assert_eq!(big.combine(&a), None);
    assert_eq!(Tally::new().combine(&a), Some(a));
}
