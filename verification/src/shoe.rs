//! The shoe: the source of cards for dealing. It comes in two variants,
//! an unlimited random source and a finite shuffled 52-card deck consumed
//! without replacement.

use vstd::prelude::*;
use vstd::seq_lib::group_to_multiset_ensures;
use vstd::arithmetic::div_mod::{
    lemma_fundamental_div_mod, lemma_fundamental_div_mod_converse_div,
    lemma_fundamental_div_mod_converse_mod, lemma_mod_division_less_than_divisor,
};
use rand::RngExt;
use rand::SeedableRng;
use crate::cards::{Card, Rank, Suit};
use crate::error::GameError;

verus! {

#[verifier::external_type_specification]
#[verifier::external_body]
pub struct ExStdRng(rand::rngs::StdRng);

/// Relies on rand's `SeedableRng::seed_from_u64` for `StdRng`: it builds a
/// generator deterministically from the seed and does not panic.
#[verifier::external_body]
fn rng_from_seed(seed: u64) -> rand::rngs::StdRng {
    rand::rngs::StdRng::seed_from_u64(seed)
}

/// Relies on rand's `make_rng`, which seeds a fresh `StdRng` from the
/// thread-local generator (ultimately operating-system entropy).
#[verifier::external_body]
fn rng_from_entropy() -> rand::rngs::StdRng {
    rand::make_rng::<rand::rngs::StdRng>()
}

/// Relies on rand's `RngExt::random_range` over `0..n`: it returns a
/// uniformly distributed index below `n`, and panics only on an empty
/// range, which the precondition rules out. Nothing more can be promised
/// of a random draw.
#[verifier::external_body]
fn rng_below(rng: &mut rand::rngs::StdRng, n: usize) -> (r: usize)
    requires
        n >= 1,
    ensures
        r < n,
{
    rng.random_range(0..n)
}

/// The suit encoded by an index in 0..4.
pub open spec fn suit_from_index_spec(i: int) -> Suit {
    if i == 0 {
        Suit::Spades
    } else if i == 1 {
        Suit::Clubs
    } else if i == 2 {
        Suit::Diamonds
    } else {
        Suit::Hearts
    }
}

/// The rank encoded by an index in 0..13.
pub open spec fn rank_from_index_spec(i: int) -> Rank {
    if i == 0 {
        Rank::Ace
    } else if i == 1 {
        Rank::Two
    } else if i == 2 {
        Rank::Three
    } else if i == 3 {
        Rank::Four
    } else if i == 4 {
        Rank::Five
    } else if i == 5 {
        Rank::Six
    } else if i == 6 {
        Rank::Seven
    } else if i == 7 {
        Rank::Eight
    } else if i == 8 {
        Rank::Nine
    } else if i == 9 {
        Rank::Ten
    } else if i == 10 {
        Rank::Jack
    } else if i == 11 {
        Rank::Queen
    } else {
        Rank::King
    }
}

/// The index in 0..4 of a suit; inverse of `suit_from_index_spec`.
pub open spec fn suit_index(s: Suit) -> int {
    match s {
        Suit::Spades => 0,
        Suit::Clubs => 1,
        Suit::Diamonds => 2,
        Suit::Hearts => 3,
    }
}

/// The index in 0..13 of a rank; inverse of `rank_from_index_spec`.
pub open spec fn rank_index(r: Rank) -> int {
    match r {
        Rank::Ace => 0,
        Rank::Two => 1,
        Rank::Three => 2,
        Rank::Four => 3,
        Rank::Five => 4,
        Rank::Six => 5,
        Rank::Seven => 6,
        Rank::Eight => 7,
        Rank::Nine => 8,
        Rank::Ten => 9,
        Rank::Jack => 10,
        Rank::Queen => 11,
        Rank::King => 12,
    }
}

/// The card encoded by an index in 0..52: thirteen ranks per suit.
pub open spec fn card_from_index(i: int) -> Card {
    (Card { suit: suit_from_index_spec(i / 13), rank: rank_from_index_spec(i % 13) })
}

/// The index in 0..52 of a card; inverse of `card_from_index`.
pub open spec fn card_index(c: Card) -> int {
    suit_index(c.suit) * 13 + rank_index(c.rank)
}

/// The 52 distinct cards, in index order.
pub open spec fn full_deck() -> Seq<Card> {
    Seq::new(52, |i: int| card_from_index(i))
}

/// Every card's index lies in 0..52 and decodes back to the card.
pub proof fn lemma_card_index_inverse(c: Card)
    ensures
        0 <= card_index(c) < 52,
        card_from_index(card_index(c)) == c,
{
    lemma_fundamental_div_mod_converse_div(card_index(c), 13, suit_index(c.suit), rank_index(c.rank));
    lemma_fundamental_div_mod_converse_mod(card_index(c), 13, suit_index(c.suit), rank_index(c.rank));
}

/// Every index in 0..52 encodes a card with that very index.
pub proof fn lemma_card_from_index_inverse(i: int)
    requires
        0 <= i < 52,
    ensures
        card_index(card_from_index(i)) == i,
{
    lemma_fundamental_div_mod(i, 13);
    lemma_mod_division_less_than_divisor(i, 13);
}

/// The full deck holds all 52 cards, each exactly once.
pub proof fn lemma_full_deck_complete()
    ensures
        full_deck().len() == 52,
        full_deck().no_duplicates(),
        forall|c: Card| full_deck().contains(c),
{
    assert forall|i: int, j: int|
        0 <= i < 52 && 0 <= j < 52 && i != j implies full_deck()[i] != full_deck()[j] by {
        lemma_card_from_index_inverse(i);
        lemma_card_from_index_inverse(j);
    }
    assert forall|c: Card| full_deck().contains(c) by {
        lemma_card_index_inverse(c);
        assert(full_deck()[card_index(c)] == c);
    }
}

/// A sequence with the same multiset of cards as the full deck is itself a
/// permutation of it: 52 cards, none repeated, every card present.
pub proof fn lemma_permutation_of_full_deck(s: Seq<Card>)
    requires
        s.to_multiset() == full_deck().to_multiset(),
    ensures
        s.len() == 52,
        s.no_duplicates(),
        forall|c: Card| s.contains(c),
{
    broadcast use group_to_multiset_ensures;

    lemma_full_deck_complete();
    assert(s.to_multiset().len() == s.len());
    assert(full_deck().to_multiset().len() == full_deck().len());
    full_deck().lemma_multiset_has_no_duplicates();
    s.lemma_multiset_has_no_duplicates_conv();
    assert forall|c: Card| s.contains(c) by {
        assert(full_deck().contains(c));
        assert(s.to_multiset().count(c) > 0);
    }
}

fn suit_from_index(i: usize) -> (s: Suit)
    requires
        i < 4,
    ensures
        s == suit_from_index_spec(i as int),
{
    if i == 0 {
        Suit::Spades
    } else if i == 1 {
        Suit::Clubs
    } else if i == 2 {
        Suit::Diamonds
    } else {
        Suit::Hearts
    }
}

fn rank_from_index(i: usize) -> (r: Rank)
    requires
        i < 13,
    ensures
        r == rank_from_index_spec(i as int),
{
    if i == 0 {
        Rank::Ace
    } else if i == 1 {
        Rank::Two
    } else if i == 2 {
        Rank::Three
    } else if i == 3 {
        Rank::Four
    } else if i == 4 {
        Rank::Five
    } else if i == 5 {
        Rank::Six
    } else if i == 6 {
        Rank::Seven
    } else if i == 7 {
        Rank::Eight
    } else if i == 8 {
        Rank::Nine
    } else if i == 9 {
        Rank::Ten
    } else if i == 10 {
        Rank::Jack
    } else if i == 11 {
        Rank::Queen
    } else {
        Rank::King
    }
}

/// Builds the 52 cards in index order: thirteen ranks for each suit.
fn full_deck_vec() -> (v: Vec<Card>)
    ensures
        v@ == full_deck(),
{
    let mut v: Vec<Card> = Vec::new();
    let mut si: usize = 0;
    while si < 4
        invariant
            si <= 4,
            v@.len() == si * 13,
            forall|k: int| 0 <= k < v@.len() ==> v@[k] == card_from_index(k),
        decreases 4 - si,
    {
        let mut ri: usize = 0;
        while ri < 13
            invariant
                si < 4,
                ri <= 13,
                v@.len() == si * 13 + ri,
                forall|k: int| 0 <= k < v@.len() ==> v@[k] == card_from_index(k),
            decreases 13 - ri,
        {
            proof {
                lemma_fundamental_div_mod_converse_div(
                    si * 13 + ri,
                    13,
                    si as int,
                    ri as int,
                );
                lemma_fundamental_div_mod_converse_mod(
                    si * 13 + ri,
                    13,
                    si as int,
                    ri as int,
                );
            }
            v.push(Card { suit: suit_from_index(si), rank: rank_from_index(ri) });
            ri = ri + 1;
        }
        si = si + 1;
    }
    proof {
        assert(v@ =~= full_deck());
    }
    v
}

/// Shuffles the full deck with the given generator by drawing cards from a
/// pool at uniformly random positions, so that every permutation is
/// equally likely.
fn shuffled_deck(rng: &mut rand::rngs::StdRng) -> (v: Vec<Card>)
    ensures
        v@.to_multiset() == full_deck().to_multiset(),
{
    broadcast use group_to_multiset_ensures;

    let mut pool = full_deck_vec();
    let mut v: Vec<Card> = Vec::new();
    proof {
        assert(v@.to_multiset().add(pool@.to_multiset()) =~= full_deck().to_multiset());
    }
    while pool.len() > 0
        invariant
            v@.to_multiset().add(pool@.to_multiset()) == full_deck().to_multiset(),
        decreases pool@.len(),
    {
        let ghost old_pool = pool@;
        let ghost old_v = v@;
        let j = rng_below(rng, pool.len());
        let c = pool.remove(j);
        v.push(c);
        proof {
            broadcast use group_to_multiset_ensures;

            assert(old_pool.contains(old_pool[j as int]));
            assert(old_pool.to_multiset().count(c) > 0);
            assert(pool@ == old_pool.remove(j as int));
            assert(pool@.to_multiset() == old_pool.to_multiset().remove(c));
            assert(v@.to_multiset() == old_v.to_multiset().insert(c));
            assert(v@.to_multiset().add(pool@.to_multiset()) =~= old_v.to_multiset().add(
                old_pool.to_multiset(),
            ));
        }
    }
    proof {
        assert(pool@.to_multiset().len() == 0);
        assert(v@.to_multiset().add(pool@.to_multiset()) =~= v@.to_multiset());
    }
    v
}

/// A depletable source of cards. Either an unlimited generator, where every
/// draw samples a fresh rank and suit, or a finite shuffled deck consumed
/// from the back without replacement.
pub enum Shoe {
    Infinite { rng: rand::rngs::StdRng },
    Finite { cards: Vec<Card> },
}

/// The cards `drawn` came off the back of `before` in order, leaving
/// `after`.
pub open spec fn drawn_from(before: Seq<Card>, after: Seq<Card>, drawn: Seq<Card>) -> bool {
    &&& drawn.len() <= before.len()
    &&& after == before.take(before.len() - drawn.len())
    &&& forall|j: int| 0 <= j < drawn.len() ==> drawn[j] == before[before.len() - 1 - j]
}

/// How a shoe may change over a run of draws that produced `drawn`: an
/// unlimited shoe stays unlimited, and a finite shoe loses exactly the
/// drawn cards from its back.
pub open spec fn shoe_stepped(before: Shoe, after: Shoe, drawn: Seq<Card>) -> bool {
    &&& (before is Infinite ==> after is Infinite)
    &&& (before is Finite ==> after is Finite && drawn_from(
        before.remaining(),
        after.remaining(),
        drawn,
    ))
}

/// Draws compose: cards taken in one run followed by cards taken in a
/// second run are the concatenation, taken in one run.
pub proof fn lemma_drawn_from_trans(
    s0: Seq<Card>,
    s1: Seq<Card>,
    s2: Seq<Card>,
    d1: Seq<Card>,
    d2: Seq<Card>,
)
    requires
        drawn_from(s0, s1, d1),
        drawn_from(s1, s2, d2),
    ensures
        drawn_from(s0, s2, d1 + d2),
{
    assert(s2 =~= s0.take(s0.len() - (d1 + d2).len()));
    assert forall|j: int| 0 <= j < (d1 + d2).len() implies (d1 + d2)[j] == s0[s0.len() - 1
        - j] by {
        if j >= d1.len() {
            assert((d1 + d2)[j] == d2[j - d1.len()]);
            assert(d2[j - d1.len()] == s1[s1.len() - 1 - (j - d1.len())]);
        }
    }
}

/// `shoe_stepped` composes over consecutive runs of draws.
pub proof fn lemma_shoe_stepped_trans(a: Shoe, b: Shoe, c: Shoe, d1: Seq<Card>, d2: Seq<Card>)
    requires
        shoe_stepped(a, b, d1),
        shoe_stepped(b, c, d2),
    ensures
        shoe_stepped(a, c, d1 + d2),
{
    if a is Finite {
        lemma_drawn_from_trans(a.remaining(), b.remaining(), c.remaining(), d1, d2);
    }
}

/// A run of no draws at all leaves any shoe where it stands.
pub proof fn lemma_shoe_stepped_refl(s: Shoe)
    ensures
        shoe_stepped(s, s, Seq::<Card>::empty()),
{
    if s is Finite {
        assert(s.remaining() =~= s.remaining().take(s.remaining().len() as int));
    }
}

/// One successful draw steps the shoe by exactly the drawn card.
pub proof fn lemma_shoe_stepped_one(before: Shoe, after: Shoe, c: Card)
    requires
        before is Infinite ==> after is Infinite,
        before is Finite ==> (after is Finite && before.remaining().len() > 0 && c
            == before.remaining().last() && after.remaining()
            == before.remaining().drop_last()),
    ensures
        shoe_stepped(before, after, seq![c]),
{
    if before is Finite {
        assert(after.remaining() =~= before.remaining().take(before.remaining().len() - 1));
    }
}

/// Replacing the later shoe by one with the same remaining cards keeps
/// the stepped relation.
pub proof fn lemma_shoe_stepped_same(a: Shoe, b: Shoe, c: Shoe, d: Seq<Card>)
    requires
        shoe_stepped(a, b, d),
        b is Finite,
        c is Finite,
        c.remaining() == b.remaining(),
    ensures
        shoe_stepped(a, c, d),
{
}

/// A fresh deck yields 52 draws with no card repeated, and then must run
/// out: successive draws take `remaining()` from the back, so the full run
/// of draws is its reverse — 52 cards long and free of duplicates — after
/// which the shoe is empty and the next draw fails.
pub proof fn lemma_fresh_deck_draws(s: Shoe)
    requires
        s.is_fresh_deck(),
    ensures
        s.remaining().reverse().len() == 52,
        s.remaining().reverse().no_duplicates(),
{
    let r = s.remaining();
    assert forall|i: int, j: int| 0 <= i < r.len() && 0 <= j < r.len() && i != j
        implies r.reverse()[i] != r.reverse()[j] by {
        assert(r.reverse()[i] == r[r.len() - 1 - i]);
        assert(r.reverse()[j] == r[r.len() - 1 - j]);
    }
}

impl Shoe {
    /// The cards a finite shoe still holds; the next draw takes the last.
    pub open spec fn remaining(self) -> Seq<Card>
        recommends
            self is Finite,
    {
        self->cards@
    }

    /// A finite shoe is a permutation of the 52 distinct cards.
    pub open spec fn is_fresh_deck(self) -> bool {
        &&& self is Finite
        &&& self.remaining().len() == 52
        &&& self.remaining().no_duplicates()
        &&& forall|c: Card| self.remaining().contains(c)
    }

    /// An unlimited shoe seeded from operating-system entropy.
    pub fn new_unlimited() -> (s: Shoe)
        ensures
            s is Infinite,
    {
        Shoe::Infinite { rng: rng_from_entropy() }
    }

    /// An unlimited shoe with a fixed seed, for reproducible runs.
    pub fn new_unlimited_seeded(seed: u64) -> (s: Shoe)
        ensures
            s is Infinite,
    {
        Shoe::Infinite { rng: rng_from_seed(seed) }
    }

    /// A finite shoe holding each of the 52 cards exactly once, in an
    /// order drawn uniformly at random from operating-system entropy.
    pub fn new_shuffled() -> (s: Shoe)
        ensures
            s.is_fresh_deck(),
    {
        let mut rng = rng_from_entropy();
        let cards = shuffled_deck(&mut rng);
        proof {
            lemma_permutation_of_full_deck(cards@);
        }
        Shoe::Finite { cards }
    }

    /// A finite shuffled shoe with a fixed seed, for reproducible runs.
    pub fn new_shuffled_seeded(seed: u64) -> (s: Shoe)
        ensures
            s.is_fresh_deck(),
    {
        let mut rng = rng_from_seed(seed);
        let cards = shuffled_deck(&mut rng);
        proof {
            lemma_permutation_of_full_deck(cards@);
        }
        Shoe::Finite { cards }
    }

    /// A finite shoe holding exactly the given cards; draws come from the
    /// end of the sequence. Useful for replaying a known order of deals.
    pub fn stacked(cards: Vec<Card>) -> (s: Shoe)
        ensures
            s is Finite,
            s.remaining() == cards@,
    {
        Shoe::Finite { cards }
    }

    /// Produces one card. An unlimited shoe always succeeds, with a fresh
    /// random card; a finite shoe yields its last remaining card, and
    /// fails with `ShoeExhausted` exactly when it is empty, in which case
    /// nothing changes.
    pub fn draw(&mut self) -> (r: Result<Card, GameError>)
        ensures
            *old(self) is Infinite ==> *final(self) is Infinite && r is Ok,
            *old(self) is Finite ==> *final(self) is Finite && (if old(self).remaining().len() == 0 {
                &&& r == Err::<Card, GameError>(GameError::ShoeExhausted)
                &&& final(self).remaining() == old(self).remaining()
            } else {
                &&& r == Ok::<Card, GameError>(old(self).remaining().last())
                &&& final(self).remaining() == old(self).remaining().drop_last()
            }),
    {
        match self {
            Shoe::Infinite { rng } => {
                let ri = rng_below(rng, 13);
                let si = rng_below(rng, 4);
                Ok(Card { suit: suit_from_index(si), rank: rank_from_index(ri) })
            },
            Shoe::Finite { cards } => {
                let ghost before = cards@;
                match cards.pop() {
                    Some(c) => {
                        proof {
                            assert(cards@ =~= before.drop_last());
                        }
                        Ok(c)
                    },
                    None => Err(GameError::ShoeExhausted),
                }
            },
        }
    }
}

} // verus!
