use hit::cards::{Card, Hand, Rank, Suit};
use hit::error::GameError;
use hit::shoe::Shoe;

#[test]
fn fresh_shoe_yields_52_distinct_draws_then_exhausts() {
    let mut shoe = Shoe::new_shuffled();
    let mut drawn: Vec<Card> = Vec::new();
    for _ in 0..52 {
        let card = shoe.draw().expect("a fresh shoe holds 52 cards");
        assert!(
            !drawn.contains(&card),
            "a shuffled shoe repeated a card"
        );
        drawn.push(card);
    }
    assert_eq!(drawn.len(), 52);
    assert_eq!(shoe.draw(), Err(GameError::ShoeExhausted));
}

#[test]
fn seeded_shuffles_are_reproducible() {
    let mut a = Shoe::new_shuffled_seeded(7);
    let mut b = Shoe::new_shuffled_seeded(7);
    for _ in 0..52 {
        assert_eq!(a.draw(), b.draw());
    }
}

#[test]
fn unlimited_shoe_never_runs_out() {
    let mut shoe = Shoe::new_unlimited_seeded(3);
    for _ in 0..100 {
        assert!(shoe.draw().is_ok());
    }
}

#[test]
fn stacked_shoe_draws_from_the_back() {
    let mut shoe = Shoe::stacked(vec![
        Card {
            suit: Suit::Clubs,
            rank: Rank::Two,
        },
        Card {
            suit: Suit::Spades,
            rank: Rank::Ace,
        },
    ]);
    assert_eq!(
        shoe.draw(),
        Ok(Card {
            suit: Suit::Spades,
            rank: Rank::Ace,
        })
    );
    assert_eq!(
        shoe.draw(),
        Ok(Card {
            suit: Suit::Clubs,
            rank: Rank::Two,
        })
    );
    assert_eq!(shoe.draw(), Err(GameError::ShoeExhausted));
}

#[test]
fn dealing_into_a_hand_consumes_the_shoe() {
    let mut shoe = Shoe::stacked(vec![Card {
        suit: Suit::Hearts,
        rank: Rank::Nine,
    }]);
    let mut hand = Hand::new();
    assert_eq!(hand.deal(&mut shoe), Ok(()));
    assert_eq!(hand.len(), 1);
    assert_eq!(
        hand.card_at(0),
        Card {
            suit: Suit::Hearts,
            rank: Rank::Nine,
        }
    );
    assert_eq!(hand.deal(&mut shoe), Err(GameError::ShoeExhausted));
    assert_eq!(hand.len(), 1);
}
