//! The card model: suits, ranks, single cards, and hands with their
//! hard/soft blackjack totals.

use vstd::prelude::*;
use crate::error::GameError;
use crate::shoe::Shoe;

verus! {

/// One of the four French suits. Suit never affects a hand's value; the
/// finite shoe uses it to keep the 52 cards distinct.
#[derive(Clone, Copy, PartialEq, Eq, Structural, Debug, Hash)]
pub enum Suit {
    Spades,
    Clubs,
    Diamonds,
    Hearts,
}

/// A card's rank. Aces count as 1 or 11 (see `total_value`); face cards
/// count as 10.
#[derive(Clone, Copy, PartialEq, Eq, Structural, Debug, Hash)]
pub enum Rank {
    Ace,
    Two,
    Three,
    Four,
    Five,
    Six,
    Seven,
    Eight,
    Nine,
    Ten,
    Jack,
    Queen,
    King,
}

/// A single playing card.
#[derive(Clone, Copy, PartialEq, Eq, Structural, Debug, Hash)]
pub struct Card {
    pub suit: Suit,
    pub rank: Rank,
}

/// The base point value of a rank, counting an Ace as 1.
pub open spec fn rank_value_spec(r: Rank) -> int {
    match r {
        Rank::Ace => 1,
        Rank::Two => 2,
        Rank::Three => 3,
        Rank::Four => 4,
        Rank::Five => 5,
        Rank::Six => 6,
        Rank::Seven => 7,
        Rank::Eight => 8,
        Rank::Nine => 9,
        Rank::Ten => 10,
        Rank::Jack => 10,
        Rank::Queen => 10,
        Rank::King => 10,
    }
}

/// The hard total of a hand: every card at its base value, Aces as 1.
pub open spec fn hard_points(cards: Seq<Card>) -> int
    decreases cards.len(),
{
    if cards.len() == 0 {
        0
    } else {
        hard_points(cards.drop_last()) + rank_value_spec(cards.last().rank)
    }
}

/// Whether the hand holds at least one Ace.
pub open spec fn has_ace(cards: Seq<Card>) -> bool
    decreases cards.len(),
{
    if cards.len() == 0 {
        false
    } else {
        cards.last().rank is Ace || has_ace(cards.drop_last())
    }
}

/// A hand's total is soft when one Ace can count as 11 without busting:
/// there is an Ace and the hard total is at most 11.
pub open spec fn is_soft(cards: Seq<Card>) -> bool {
    has_ace(cards) && hard_points(cards) <= 11
}

/// The blackjack value of a hand: the hard total, plus 10 when the total
/// is soft (one Ace promoted to 11).
pub open spec fn total_value(cards: Seq<Card>) -> int {
    if is_soft(cards) {
        hard_points(cards) + 10
    } else {
        hard_points(cards)
    }
}

/// Every rank is worth between 1 and 10 points, so a hand's hard total
/// lies between its card count and ten times that count.
pub proof fn lemma_hard_points_bounds(cards: Seq<Card>)
    ensures
        cards.len() <= hard_points(cards) <= 10 * cards.len(),
    decreases cards.len(),
{
    if cards.len() > 0 {
        lemma_hard_points_bounds(cards.drop_last());
    }
}

/// Dropping cards from the end never raises the hard total.
pub proof fn lemma_hard_points_take_le(cards: Seq<Card>, i: int)
    requires
        0 <= i <= cards.len(),
    ensures
        hard_points(cards.take(i)) <= hard_points(cards),
    decreases cards.len() - i,
{
    if i == cards.len() {
        assert(cards.take(i) =~= cards);
    } else {
        assert(cards.take(cards.len() - 1) =~= cards.drop_last());
        assert(cards.drop_last().take(i) =~= cards.take(i));
        lemma_hard_points_take_le(cards.drop_last(), i);
    }
}

/// Every rank is worth at least 1 and at most 10 points.
pub proof fn lemma_rank_value_bounds(r: Rank)
    ensures
        1 <= rank_value_spec(r) <= 10,
{
}

/// Appending one card raises the hard total by that card's value, and the
/// hand holds an Ace afterwards exactly when it did before or the new card
/// is one.
pub proof fn lemma_hand_push(s: Seq<Card>, c: Card)
    ensures
        hard_points(s.push(c)) == hard_points(s) + rank_value_spec(c.rank),
        has_ace(s.push(c)) == (has_ace(s) || c.rank is Ace),
{
    assert(s.push(c).drop_last() =~= s);
    assert(s.push(c).last() == c);
}

impl Rank {
    /// The base point value of this rank, counting an Ace as 1.
    pub fn value(self) -> (v: usize)
        ensures
            v == rank_value_spec(self),
    {
        match self {
            Rank::Ace => 1,
            Rank::Two => 2,
            Rank::Three => 3,
            Rank::Four => 4,
            Rank::Five => 5,
            Rank::Six => 6,
            Rank::Seven => 7,
            Rank::Eight => 8,
            Rank::Nine => 9,
            Rank::Ten | Rank::Jack | Rank::Queen | Rank::King => 10,
        }
    }
}

/// A hand's derived value: the numeric total and whether it is soft.
#[derive(Clone, Copy, PartialEq, Eq, Structural, Debug)]
pub struct Total {
    pub value: usize,
    pub soft: bool,
}

/// An ordered sequence of dealt cards; insertion order is deal order.
pub struct Hand {
    cards: Vec<Card>,
}

impl View for Hand {
    type V = Seq<Card>;

    closed spec fn view(&self) -> Seq<Card> {
        self.cards@
    }
}

impl Default for Hand {
    /// An empty hand.
    fn default() -> (h: Hand)
        ensures
            h@ == Seq::<Card>::empty(),
    {
        Hand { cards: Vec::new() }
    }
}

impl Hand {
    /// An empty hand.
    pub fn new() -> (h: Hand)
        ensures
            h@ == Seq::<Card>::empty(),
    {
        Hand { cards: Vec::new() }
    }

    /// Appends a card at the end of the hand.
    pub fn push(&mut self, c: Card)
        ensures
            final(self)@ == old(self)@.push(c),
    {
        self.cards.push(c);
    }

    /// The number of cards in the hand.
    pub fn len(&self) -> (n: usize)
        ensures
            n == self@.len(),
    {
        self.cards.len()
    }

    /// The card at the given position, in deal order.
    pub fn card_at(&self, i: usize) -> (c: Card)
        requires
            i < self@.len(),
        ensures
            c == self@[i as int],
    {
        self.cards[i]
    }

    /// The hand's blackjack total: the hard sum of all card values, with
    /// one Ace counted as 11 (marking the total soft) when that does not
    /// push the sum past 21.
    pub fn total(&self) -> (t: Total)
        requires
            hard_points(self@) <= usize::MAX,
        ensures
            t.value == total_value(self@),
            t.soft == is_soft(self@),
    {
        let ghost all = self@;
        let mut sum: usize = 0;
        let mut ace: bool = false;
        let mut i: usize = 0;
        while i < self.cards.len()
            invariant
                0 <= i <= all.len(),
                self@ == all,
                hard_points(all) <= usize::MAX,
                sum == hard_points(all.take(i as int)),
                ace == has_ace(all.take(i as int)),
            decreases all.len() - i,
        {
            proof {
                assert(all.take(i + 1).drop_last() =~= all.take(i as int));
                assert(all.take(i + 1).last() == all[i as int]);
                lemma_hard_points_take_le(all, i + 1);
                lemma_hard_points_bounds(all.take(i + 1));
            }
            let v = self.cards[i].rank.value();
            sum = sum + v;
            if matches!(self.cards[i].rank, Rank::Ace) {
                ace = true;
            }
            i = i + 1;
        }
        proof {
            assert(all.take(all.len() as int) =~= all);
        }
        if ace && sum <= 11 {
            Total { value: sum + 10, soft: true }
        } else {
            Total { value: sum, soft: false }
        }
    }

    /// Draws one card from the shoe into this hand. This fails only when a
    /// finite shoe is empty, and then neither the hand nor the shoe
    /// changes.
    pub fn deal(&mut self, shoe: &mut Shoe) -> (r: Result<(), GameError>)
        ensures
            *old(shoe) is Infinite ==> (*final(shoe) is Infinite && r is Ok),
            r is Ok ==> final(self)@ == old(self)@.push(final(self)@.last()),
            r is Err ==> (r == Err::<(), GameError>(GameError::ShoeExhausted) && final(self)@
                == old(self)@),
            *old(shoe) is Finite ==> *final(shoe) is Finite && (if old(shoe).remaining().len()
                == 0 {
                &&& r is Err
                &&& final(shoe).remaining() == old(shoe).remaining()
            } else {
                &&& r is Ok
                &&& final(self)@ == old(self)@.push(old(shoe).remaining().last())
                &&& final(shoe).remaining() == old(shoe).remaining().drop_last()
            }),
    {
        match shoe.draw() {
            Ok(c) => {
                self.push(c);
                Ok(())
            },
            Err(e) => Err(e),
        }
    }

    /// Whether the hand is bust: its total exceeds 21.
    pub fn is_bust(&self) -> (b: bool)
        requires
            hard_points(self@) <= usize::MAX,
        ensures
            b == (total_value(self@) > 21),
    {
        self.total().value > 21
    }

    /// Whether the hand is a natural: exactly two cards totalling 21
    /// (an Ace together with a ten-valued card).
    pub fn is_natural(&self) -> (b: bool)
        requires
            hard_points(self@) <= usize::MAX,
        ensures
            b == (self@.len() == 2 && total_value(self@) == 21),
    {
        self.cards.len() == 2 && self.total().value == 21
    }
}

} // verus!
