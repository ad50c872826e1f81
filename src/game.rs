use vstd::prelude::*;
use crate::card::{Card, all_wf, rank_points, total};
use crate::round::{
    Outcome,
    can_deal,
    check_outcome,
    consumed,
    initial_dealer,
    initial_player,
    is_natural,
    play_hand,
    player_stop,
    round_fits,
    round_outcome,
    stop_at,
};
use crate::shoe::Shoe;
use rand::Rng;

verus! {

broadcast use vstd::seq_lib::group_to_multiset_ensures, vstd::multiset::group_multiset_axioms;

/// Wins of each side and ties over the rounds of a shoe.
#[derive(Clone, Copy, Debug, PartialEq, Eq, Structural)]
pub struct Tally {
    pub player_wins: usize,
    pub dealer_wins: usize,
    pub ties: usize,
}

/// Lowest cut-card position for a shoe of `len` cards: 70% of it, rounded down.
pub open spec fn cut_lower(len: nat) -> nat {
    len * 7 / 10
}

/// Bound (exclusive) on the cut-card position: 90% of the shoe, rounded down.
pub open spec fn cut_upper(len: nat) -> nat {
    len * 9 / 10
}

/// A side that draws from a position within the shoe stops within it.
proof fn lemma_stop_within(s: Seq<Card>, i: nat, value: nat)
    requires
        i <= s.len(),
        stop_at(s, i, value) is Some,
    ensures
        i <= stop_at(s, i, value)->Some_0 <= s.len(),
    decreases s.len() - i,
{
    if value < 6 {
        lemma_stop_within(s, i + 1, (value + rank_points(s[i as int].rank)) % 10);
    }
}

/// A round that fits takes at least the four opening cards and no more than
/// the shoe holds.
pub proof fn lemma_consumed_bounds(s: Seq<Card>)
    requires
        round_fits(s),
    ensures
        4 <= consumed(s) <= s.len(),
{
    if !is_natural(s) {
        let p = player_stop(s)->Some_0;
        lemma_stop_within(s, 4, total(initial_player(s)));
        lemma_stop_within(s, p, total(initial_dealer(s)));
    }
}

/// The outcomes of the rounds dealt from `s` while more than `keep` cards
/// remain and the next round fits in the shoe.
pub open spec fn shoe_outcomes(s: Seq<Card>, keep: nat) -> Seq<Outcome>
    decreases s.len(),
{
    // The last conjunct holds of every round that fits (`lemma_consumed_bounds`);
    // it is spelled out so that the recursion visibly shrinks the shoe.
    if s.len() > keep && round_fits(s) && 4 <= consumed(s) <= s.len() {
        seq![round_outcome(s)] + shoe_outcomes(s.skip(consumed(s) as int), keep)
    } else {
        Seq::empty()
    }
}

/// How often `o` occurs among `outs`.
pub open spec fn occurrences(outs: Seq<Outcome>, o: Outcome) -> nat {
    outs.to_multiset().count(o)
}

/// Relies on rand's `Rng::gen_range` with the thread-local generator: for a
/// non-empty range `lower..upper` it returns a value within it, and it panics
/// on an empty one.
#[verifier::external_body]
fn random_in_range(lower: usize, upper: usize) -> (r: usize)
    requires
        lower < upper,
    ensures
        lower <= r < upper,
{
    rand::thread_rng().gen_range(lower..upper)
}

/// The bounds of the cut-card position for a shoe of `len` cards: 70% and 90%
/// of it, each rounded down.
pub fn cut_bounds(len: usize) -> (r: (usize, usize))
    ensures
        r.0 == cut_lower(len as nat),
        r.1 == cut_upper(len as nat),
{
    let q = len / 10;
    let m = len % 10;
    proof {
        vstd::arithmetic::div_mod::lemma_fundamental_div_mod(len as int, 10);
        assert(len * 7 == m * 7 + (q * 7) * 10 && len * 9 == m * 9 + (q * 9) * 10
            && q * 9 <= len) by (nonlinear_arith)
            requires
                len == 10 * q + m,
                0 <= m,
                0 <= q,
        ;
        vstd::arithmetic::div_mod::lemma_hoist_over_denominator(m * 7, q * 7, 10);
        vstd::arithmetic::div_mod::lemma_hoist_over_denominator(m * 9, q * 9, 10);
    }
    (q * 7 + m * 7 / 10, q * 9 + m * 9 / 10)
}

/// Draws the cut-card position of a shoe of `len` cards, uniformly within
/// its bounds.
pub fn cut_card_position(len: usize) -> (r: usize)
    requires
        cut_lower(len as nat) < cut_upper(len as nat),
    ensures
        cut_lower(len as nat) <= r < cut_upper(len as nat),
{
    let (lower, upper) = cut_bounds(len);
    random_in_range(lower, upper)
}

impl Tally {
    /// No rounds played.
    pub fn new() -> (r: Tally)
        ensures
            r == (Tally { player_wins: 0, dealer_wins: 0, ties: 0 }),
    {
        Tally { player_wins: 0, dealer_wins: 0, ties: 0 }
    }

    /// The counts of two tallies added up, or `None` when one of the sums does
    /// not fit.
    pub fn combine(&self, other: &Tally) -> (r: Option<Tally>)
        ensures
            r is Some <==> (self.player_wins + other.player_wins <= usize::MAX
                && self.dealer_wins + other.dealer_wins <= usize::MAX && self.ties + other.ties
                <= usize::MAX),
            r is Some ==> r->Some_0.player_wins == self.player_wins + other.player_wins
                && r->Some_0.dealer_wins == self.dealer_wins + other.dealer_wins
                && r->Some_0.ties == self.ties + other.ties,
    {
        match (
            self.player_wins.checked_add(other.player_wins),
            self.dealer_wins.checked_add(other.dealer_wins),
            self.ties.checked_add(other.ties),
        ) {
            (Some(p), Some(d), Some(t)) => Some(Tally { player_wins: p, dealer_wins: d, ties: t }),
            _ => None,
        }
    }
}

/// Plays a shoe up to its cut card: rounds are dealt while more cards remain
/// than the shoe held past the cut position, and while the next round fits in
/// what is left. Each outcome is counted.
pub fn play_shoe(shoe: Shoe, cut_card: usize) -> (r: Tally)
    requires
        all_wf(shoe.cards@),
        cut_card <= shoe.cards@.len(),
    ensures
        r.player_wins == occurrences(
            shoe_outcomes(shoe.cards@, (shoe.cards@.len() - cut_card) as nat),
            Outcome::Player,
        ),
        r.dealer_wins == occurrences(
            shoe_outcomes(shoe.cards@, (shoe.cards@.len() - cut_card) as nat),
            Outcome::Dealer,
        ),
        r.ties == occurrences(
            shoe_outcomes(shoe.cards@, (shoe.cards@.len() - cut_card) as nat),
            Outcome::Tie,
        ),
{
    let ghost s = shoe.cards@;
    let n: usize = shoe.cards.len();
    let keep: usize = n - cut_card;
    let mut tally = Tally::new();
    let mut shoe = shoe;
    let ghost mut played: Seq<Outcome> = Seq::empty();
    while shoe.cards.len() > keep && can_deal(&shoe)
        invariant
            n == s.len(),
            keep == s.len() - cut_card,
            forall|o: Outcome| #[trigger] occurrences(played, o) <= played.len(),
            all_wf(shoe.cards@),
            shoe_outcomes(s, keep as nat) == played + shoe_outcomes(shoe.cards@, keep as nat),
            tally.player_wins == occurrences(played, Outcome::Player),
            tally.dealer_wins == occurrences(played, Outcome::Dealer),
            tally.ties == occurrences(played, Outcome::Tie),
            4 * played.len() + shoe.cards@.len() <= s.len(),
        decreases shoe.cards@.len(),
    {
        let ghost before = shoe.cards@;
        proof {
            lemma_consumed_bounds(before);
        }
        let (rest, player_hand, dealer_hand) = play_hand(shoe);
        let outcome = check_outcome(&player_hand, &dealer_hand);
        proof {
            assert(outcome == round_outcome(before));
            assert(shoe_outcomes(before, keep as nat) == seq![outcome] + shoe_outcomes(
                rest.cards@,
                keep as nat,
            ));
            assert(played + (seq![outcome] + shoe_outcomes(rest.cards@, keep as nat))
                =~= played.push(outcome) + shoe_outcomes(rest.cards@, keep as nat));
            assert forall|o: Outcome| #[trigger]
                occurrences(played.push(outcome), o) <= played.len() + 1 by {
                assert(occurrences(played, o) <= played.len());
            }
            played = played.push(outcome);
        }
        match outcome {
            Outcome::Tie => tally.ties = tally.ties + 1,
            Outcome::Player => tally.player_wins = tally.player_wins + 1,
            Outcome::Dealer => tally.dealer_wins = tally.dealer_wins + 1,
        }
        shoe = rest;
    }
    assert(played + Seq::<Outcome>::empty() =~= played);
    tally
}

} // verus!
