use vstd::prelude::*;
use crate::card::{Card, Suit, all_wf};
use rand::seq::SliceRandom;

verus! {

broadcast use vstd::seq_lib::group_to_multiset_ensures, vstd::multiset::group_multiset_axioms;

/// The number of cards in one deck.
pub const DECK_SIZE: usize = 52;

/// A single deck of cards.
#[derive(Debug)]
pub struct Deck {
    pub cards: Vec<Card>,
}

/// The cards still to be dealt, front first.
#[derive(Debug)]
pub struct Shoe {
    pub cards: Vec<Card>,
}

/// The suits in the order in which a fresh deck lays them out.
pub open spec fn suit_at(k: int) -> Suit {
    if k == 0 {
        Suit::Spades
    } else if k == 1 {
        Suit::Clubs
    } else if k == 2 {
        Suit::Hearts
    } else {
        Suit::Diamonds
    }
}

/// The place of a suit in a fresh deck.
pub open spec fn suit_index(s: Suit) -> int {
    match s {
        Suit::Spades => 0,
        Suit::Clubs => 1,
        Suit::Hearts => 2,
        Suit::Diamonds => 3,
    }
}

/// The card at position `i` of a fresh deck: thirteen ranks per suit, ace first.
pub open spec fn base_card(i: int) -> Card {
    Card { rank: (i % 13 + 1) as u8, suit: suit_at(i / 13) }
}

/// A fresh, unshuffled deck.
pub open spec fn base_deck() -> Seq<Card> {
    Seq::new(DECK_SIZE as nat, |i: int| base_card(i))
}

/// Where a well formed card stands in a fresh deck.
pub open spec fn card_index(c: Card) -> int {
    suit_index(c.suit) * 13 + c.rank - 1
}

/// The cards of the `j`-th deck of a shoe.
pub open spec fn deck_block(s: Seq<Card>, j: int) -> Seq<Card> {
    s.subrange(DECK_SIZE * j, DECK_SIZE * j + DECK_SIZE)
}

/// Position `i` of a fresh deck holds exactly the well formed card whose index
/// is `i`.
proof fn lemma_base_card_index(i: int, c: Card)
    requires
        0 <= i < 52,
    ensures
        (base_card(i) == c) <==> (c.wf() && card_index(c) == i),
{
    vstd::arithmetic::div_mod::lemma_fundamental_div_mod(i, 13);
    assert(0 <= i / 13 < 4);
    if c.wf() && card_index(c) == i {
        vstd::arithmetic::div_mod::lemma_fundamental_div_mod_converse(
            i,
            13,
            suit_index(c.suit),
            c.rank - 1,
        );
    }
}

/// The first `k` cards of a fresh deck hold each well formed card of index
/// under `k` once.
proof fn lemma_base_prefix_count(k: int, c: Card)
    requires
        0 <= k <= 52,
    ensures
        base_deck().take(k).to_multiset().count(c) == (if c.wf() && card_index(c) < k {
            1nat
        } else {
            0nat
        }),
    decreases k,
{
    if k == 0 {
        assert(base_deck().take(k) =~= Seq::<Card>::empty());
    } else {
        lemma_base_prefix_count(k - 1, c);
        assert(base_deck().take(k) =~= base_deck().take(k - 1).push(base_card(k - 1)));
        lemma_base_card_index(k - 1, c);
    }
}

/// A fresh deck holds each of the 52 suit and rank combinations once, and
/// nothing else.
pub proof fn lemma_base_deck_count(c: Card)
    ensures
        base_deck().to_multiset().count(c) == (if c.wf() {
            1nat
        } else {
            0nat
        }),
{
    lemma_base_prefix_count(52, c);
    assert(base_deck().take(52) =~= base_deck());
}

/// A sequence with the multiset of a fresh deck holds well formed cards only.
proof fn lemma_deck_permutation_wf(s: Seq<Card>)
    requires
        s.to_multiset() == base_deck().to_multiset(),
    ensures
        all_wf(s),
{
    assert forall|i: int| 0 <= i < s.len() implies (#[trigger] s[i]).wf() by {
        assert(s.contains(s[i]));
        lemma_base_deck_count(s[i]);
    }
}

/// The suit that a fresh deck lays out in place `k`.
fn suit_from_index(k: usize) -> (r: Suit)
    requires
        k < 4,
    ensures
        r == suit_at(k as int),
{
    if k == 0 {
        Suit::Spades
    } else if k == 1 {
        Suit::Clubs
    } else if k == 2 {
        Suit::Hearts
    } else {
        Suit::Diamonds
    }
}

/// Relies on rand's `SliceRandom::shuffle` with the thread-local generator: it
/// only swaps elements, so the result is a permutation of the input.
#[verifier::external_body]
fn shuffle_cards(cards: &mut Vec<Card>)
    ensures
        final(cards)@.len() == old(cards)@.len(),
        final(cards)@.to_multiset() == old(cards)@.to_multiset(),
{
    cards.shuffle(&mut rand::thread_rng());
}

impl Deck {
    /// A fresh deck in its base order: for each suit in turn (spades, clubs,
    /// hearts, diamonds), the ranks from ace to king.
    pub fn ordered() -> (r: Deck)
        ensures
            r.cards@ == base_deck(),
    {
        let mut cards: Vec<Card> = Vec::new();
        let mut k: usize = 0;
        while k < 4
            invariant
                k <= 4,
                cards@ == base_deck().take(13 * k as int),
            decreases 4 - k,
        {
            let suit = suit_from_index(k);
            let mut rank: u8 = 1;
            while rank <= 13
                invariant
                    k < 4,
                    1 <= rank <= 14,
                    suit == suit_at(k as int),
                    cards@ == base_deck().take(13 * k + rank - 1),
                decreases 14 - rank,
            {
                proof {
                    let i = 13 * k + rank - 1;
                    vstd::arithmetic::div_mod::lemma_fundamental_div_mod_converse(
                        i,
                        13,
                        k as int,
                        rank - 1,
                    );
                    assert(base_deck().take(i + 1) =~= base_deck().take(i).push(base_card(i)));
                }
                cards.push(Card { rank, suit });
                rank += 1;
            }
            k += 1;
        }
        assert(base_deck().take(52) =~= base_deck());
        Deck { cards }
    }

    /// Puts the cards in a random order.
    pub fn shuffle(&mut self)
        ensures
            final(self).cards@.len() == old(self).cards@.len(),
            final(self).cards@.to_multiset() == old(self).cards@.to_multiset(),
    {
        shuffle_cards(&mut self.cards);
    }
}

/// A fresh deck, shuffled: a permutation of the 52 cards of the base order.
pub fn create_deck() -> (r: Deck)
    ensures
        r.cards@.len() == DECK_SIZE,
        r.cards@.to_multiset() == base_deck().to_multiset(),
        all_wf(r.cards@),
{
    let mut deck = Deck::ordered();
    deck.shuffle();
    proof {
        lemma_deck_permutation_wf(deck.cards@);
    }
    deck
}

/// A shoe of `num_decks` decks, each built and shuffled on its own and laid
/// one after the other: every block of 52 cards is a permutation of a fresh
/// deck, so each suit and rank combination occurs once per deck.
pub fn create_shoe(num_decks: u8) -> (r: Shoe)
    ensures
        r.cards@.len() == DECK_SIZE * num_decks,
        forall|j: int|
            0 <= j < num_decks ==> (#[trigger] deck_block(r.cards@, j)).to_multiset()
                == base_deck().to_multiset(),
        forall|c: Card|
            #[trigger] r.cards@.to_multiset().count(c) == (if c.wf() {
                num_decks as nat
            } else {
                0nat
            }),
        all_wf(r.cards@),
{
    let mut cards: Vec<Card> = Vec::new();
    let mut k: u8 = 0;
    while k < num_decks
        invariant
            k <= num_decks,
            cards@.len() == DECK_SIZE * k,
            forall|j: int|
                0 <= j < k ==> (#[trigger] deck_block(cards@, j)).to_multiset()
                    == base_deck().to_multiset(),
            forall|c: Card|
                #[trigger] cards@.to_multiset().count(c) == (if c.wf() {
                    k as nat
                } else {
                    0nat
                }),
            all_wf(cards@),
        decreases num_decks - k,
    {
        let mut deck = create_deck();
        let ghost before = cards@;
        let ghost added = deck.cards@;
        cards.append(&mut deck.cards);
        proof {
            vstd::seq_lib::lemma_multiset_commutative(before, added);
            assert forall|j: int| 0 <= j < k + 1 implies (#[trigger] deck_block(cards@, j)).to_multiset()
                == base_deck().to_multiset() by {
                if j < k {
                    assert(DECK_SIZE * j + DECK_SIZE <= DECK_SIZE * k) by (nonlinear_arith)
                        requires
                            j < k,
                    ;
                    assert(deck_block(cards@, j) =~= deck_block(before, j));
                } else {
                    assert(deck_block(cards@, j) =~= added);
                }
            }
            assert forall|c: Card| #[trigger] cards@.to_multiset().count(c) == (if c.wf() {
                (k + 1) as nat
            } else {
                0nat
            }) by {
                lemma_base_deck_count(c);
            }
        }
        k += 1;
    }
    Shoe { cards }
}

} // verus!
