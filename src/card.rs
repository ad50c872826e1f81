use vstd::prelude::*;

verus! {

/// The four suits. A suit never affects the score of a card.
#[derive(Clone, Copy, Debug, PartialEq, Eq, Structural)]
pub enum Suit {
    Spades,
    Clubs,
    Hearts,
    Diamonds,
}

/// A playing card: a rank from 1 (ace) to 13 (king) and a suit.
#[derive(Clone, Copy, Debug, PartialEq, Eq, Structural)]
pub struct Card {
    pub rank: u8,
    pub suit: Suit,
}

/// The cards dealt to one side in a round.
#[derive(Clone, Debug)]
pub struct Hand {
    pub cards: Vec<Card>,
}

pub const LOWEST_RANK: u8 = 1;

pub const HIGHEST_RANK: u8 = 13;

impl Card {
    /// A card is well formed when its rank lies in `1..=13`.
    pub open spec fn wf(self) -> bool {
        LOWEST_RANK <= self.rank <= HIGHEST_RANK
    }

    /// Builds a card, refusing a rank outside `1..=13`.
    pub fn new(rank: u8, suit: Suit) -> (r: Option<Card>)
        ensures
            r == (if LOWEST_RANK <= rank <= HIGHEST_RANK {
                Some(Card { rank, suit })
            } else {
                None::<Card>
            }),
    {
        if LOWEST_RANK <= rank && rank <= HIGHEST_RANK {
            Some(Card { rank, suit })
        } else {
            None
        }
    }
}

/// Every card of the sequence is well formed.
pub open spec fn all_wf(cards: Seq<Card>) -> bool {
    forall|i: int| 0 <= i < cards.len() ==> (#[trigger] cards[i]).wf()
}

/// Point value of a rank: ace to nine count their rank, ten and the court cards
/// count ten.
pub open spec fn rank_points(rank: u8) -> nat {
    if rank <= 9 {
        rank as nat
    } else {
        10
    }
}

/// Sum of the point values of the cards, before any reduction.
pub open spec fn points(cards: Seq<Card>) -> nat
    decreases cards.len(),
{
    if cards.len() == 0 {
        0
    } else {
        points(cards.drop_last()) + rank_points(cards.last().rank)
    }
}

/// Value of a hand: the sum of its points modulo ten.
pub open spec fn total(cards: Seq<Card>) -> nat {
    points(cards) % 10
}

/// Adding a card to a hand adds its points.
pub proof fn lemma_points_push(cards: Seq<Card>, c: Card)
    ensures
        points(cards.push(c)) == points(cards) + rank_points(c.rank),
{
    assert(cards.push(c).drop_last() =~= cards);
}

/// Adding a card to a hand adds its points to the value, modulo ten.
pub proof fn lemma_total_push(cards: Seq<Card>, c: Card)
    ensures
        total(cards.push(c)) == (total(cards) + rank_points(c.rank)) % 10,
{
    lemma_points_push(cards, c);
    vstd::arithmetic::div_mod::lemma_add_mod_noop(points(cards) as int, rank_points(c.rank) as int, 10);
    vstd::arithmetic::div_mod::lemma_mod_twice(points(cards) as int, 10);
}

/// The point value of a card.
pub fn card_value(card: &Card) -> (r: u8)
    requires
        card.wf(),
    ensures
        r as nat == rank_points(card.rank),
        1 <= r <= 10,
{
    if card.rank <= 9 {
        card.rank
    } else {
        10
    }
}

/// The value of a hand: its points reduced modulo ten.
pub fn hand_value(hand: &Hand) -> (r: u8)
    requires
        all_wf(hand.cards@),
    ensures
        r as nat == total(hand.cards@),
        r < 10,
{
    let mut acc: u8 = 0;
    let mut i: usize = 0;
    while i < hand.cards.len()
        invariant
            0 <= i <= hand.cards@.len(),
            all_wf(hand.cards@),
            acc < 10,
            acc as nat == points(hand.cards@.take(i as int)) % 10,
        decreases hand.cards@.len() - i,
    {
        let v = card_value(&hand.cards[i]);
        proof {
            let prefix = hand.cards@.take(i as int);
            assert(hand.cards@.take(i as int + 1) =~= prefix.push(hand.cards@[i as int]));
            lemma_points_push(prefix, hand.cards@[i as int]);
            vstd::arithmetic::div_mod::lemma_add_mod_noop(points(prefix) as int, v as int, 10);
            vstd::arithmetic::div_mod::lemma_mod_twice(points(prefix) as int, 10);
        }
        acc = (acc + v) % 10;
        i += 1;
    }
    assert(hand.cards@.take(i as int) =~= hand.cards@);
    acc
}

} // verus!
